use graph_node::entity::Entity;
use graph_node::json::JsonValue;
use graph_node::postgres::statement::{EntityRow, EntitySelect, OrderClause, Statement};
use graph_node::postgres::store::{migration_log, Store};
use graph_node::store::{
    EventSource, StoreFilter, StoreKey, StoreOrder, StoreQuery, StoreRange,
};

fn store() -> Store<u32> {
    Store::new()
}

fn key() -> StoreKey {
    StoreKey {
        subgraph: "sub".to_string(),
        entity: "user".to_string(),
        id: "1".to_string(),
    }
}

fn entity(attributes: &[(&str, &str)]) -> Entity {
    let mut entity = Entity::new();
    for (name, value) in attributes {
        entity.insert(name.to_string(), JsonValue::from(*value));
    }
    entity
}

fn source() -> EventSource {
    let mut hash = [0u8; 32];
    hash[0] = 0xab;
    hash[1] = 0x09;
    hash[31] = 0xf0;
    EventSource::EthereumBlock(hash)
}

fn source_text() -> String {
    format!("ab09{}f0", "00".repeat(29))
}

fn query() -> StoreQuery {
    StoreQuery {
        subgraph: "sub".to_string(),
        entity: "user".to_string(),
        filter: None,
        order_by: None,
        order_direction: None,
        range: None,
    }
}

fn select(query: StoreQuery) -> EntitySelect {
    match store().find(query) {
        Statement::Select(select) => select,
        other => panic!("expected a selection, got {:?}", other),
    }
}

#[test]
fn writes_block_hashes_in_hexadecimal() {
    assert_eq!(source().to_string(), source_text());
    assert_eq!(source().to_string().len(), 64);
    assert_eq!(
        EventSource::EthereumBlock([0xff; 32]).to_string(),
        "ff".repeat(32)
    );
}

#[test]
fn different_blocks_have_different_texts() {
    let mut other = [0u8; 32];
    other[31] = 1;
    assert_ne!(
        EventSource::EthereumBlock([0; 32]).to_string(),
        EventSource::EthereumBlock(other).to_string()
    );
}

#[test]
fn looks_entities_up_by_key() {
    assert_eq!(store().get(key()), Statement::Lookup(key()));
}

#[test]
fn reads_entities_out_of_replies() {
    let data = JsonValue::parse(b"{\"name\": \"Ann\"}").unwrap();
    assert_eq!(store().found(Ok(data)), Ok(entity(&[("name", "Ann")])));
    assert_eq!(store().found(Err(())), Err(()));
}

#[test]
fn sets_new_entities_as_they_are() {
    let pending = store().set(key(), entity(&[("name", "Ann")]), source());
    assert_eq!(pending.lookup(), Statement::Lookup(key()));
    assert_eq!(
        pending.write(Err(())),
        Statement::Upsert(EntityRow {
            id: "1".to_string(),
            entity: "user".to_string(),
            subgraph: "sub".to_string(),
            data: JsonValue::parse(b"{\"name\": \"Ann\"}").unwrap(),
            event_source: source_text(),
        })
    );
}

#[test]
fn merges_updates_into_existing_entities() {
    let existing = entity(&[("name", "Ann"), ("email", "a@x")]);
    let update = entity(&[("email", "b@x"), ("age", "7")]);
    let pending = store().set(key(), update, source());
    let row = match pending.write(Ok(existing)) {
        Statement::Upsert(row) => row,
        other => panic!("expected a row, got {:?}", other),
    };
    assert_eq!(
        store().found(Ok(row.data)),
        Ok(entity(&[("age", "7"), ("email", "b@x"), ("name", "Ann")]))
    );
}

#[test]
fn merging_is_associative() {
    let a = || entity(&[("x", "1"), ("y", "1")]);
    let b = || entity(&[("y", "2"), ("z", "2")]);
    let c = || entity(&[("z", "3")]);
    let mut left = a();
    left.merge(b());
    left.merge(c());
    let mut inner = b();
    inner.merge(c());
    let mut right = a();
    right.merge(inner);
    assert_eq!(left, right);
    assert_eq!(left, entity(&[("x", "1"), ("y", "2"), ("z", "3")]));
}

#[test]
fn merging_nothing_or_the_same_changes_nothing() {
    let mut merged = entity(&[("x", "1")]);
    merged.merge(Entity::new());
    assert_eq!(merged, entity(&[("x", "1")]));
    merged.merge(entity(&[("x", "1")]));
    assert_eq!(merged, entity(&[("x", "1")]));
    let mut empty = Entity::new();
    empty.merge(entity(&[("x", "1")]));
    assert_eq!(empty, merged);
    assert_eq!(empty.get(&"x".to_string()), Some(&JsonValue::from("1")));
    assert_eq!(empty.get(&"y".to_string()), None);
}

#[test]
fn entities_come_back_from_json() {
    let original = entity(&[("x", "1"), ("y", "2")]);
    assert_eq!(Entity::from_json(&original.to_json()), Some(original));
    assert_eq!(Entity::from_json(&JsonValue::Null), None);
}

#[test]
fn deletes_with_the_source_of_the_event() {
    assert_eq!(
        store().delete(key(), source()),
        vec![
            Statement::SetConfig {
                name: "vars.current_event_source".to_string(),
                value: source_text(),
                is_local: false,
            },
            Statement::Delete(key()),
        ]
    );
}

#[test]
fn reports_whether_statements_were_executed() {
    assert_eq!(store().executed(Ok(0)), Ok(()));
    assert_eq!(store().executed(Ok(1)), Ok(()));
    assert_eq!(store().executed(Err(())), Err(()));
}

#[test]
fn selects_by_entity_and_subgraph() {
    assert_eq!(
        select(query()),
        EntitySelect {
            entity: "user".to_string(),
            subgraph: "sub".to_string(),
            filter: None,
            order: None,
            limit: None,
            offset: None,
        }
    );
}

#[test]
fn hands_filters_on() {
    let filter = StoreFilter::And(vec![
        StoreFilter::Equal("name".to_string(), JsonValue::from("Ann")),
        StoreFilter::NotIn("age".to_string(), vec![JsonValue::Null]),
    ]);
    let mut filtered = query();
    filtered.filter = Some(filter.clone());
    assert_eq!(filtered.clone(), filtered);
    assert_eq!(select(filtered).filter, Some(filter));
}

#[test]
fn orders_ascending_unless_told_otherwise() {
    let ordered = |direction: Option<StoreOrder>| {
        let mut ordered = query();
        ordered.order_by = Some("name".to_string());
        ordered.order_direction = direction;
        select(ordered).order
    };
    let clause = |direction: &str| {
        Some(OrderClause {
            expression: "data ->> ".to_string(),
            attribute: "name".to_string(),
            direction: direction.to_string(),
        })
    };
    assert_eq!(ordered(None), clause(" ASC "));
    assert_eq!(ordered(Some(StoreOrder::Ascending)), clause(" ASC "));
    assert_eq!(ordered(Some(StoreOrder::Descending)), clause(" DESC "));

    let mut unordered = query();
    unordered.order_direction = Some(StoreOrder::Descending);
    assert_eq!(select(unordered).order, None);
}

#[test]
fn limits_and_skips() {
    let ranged = |first: usize, skip: usize| {
        let mut ranged = query();
        ranged.range = Some(StoreRange { first, skip });
        let select = select(ranged);
        (select.limit, select.offset)
    };
    assert_eq!(ranged(10, 20), (Some(10), Some(20)));
    assert_eq!(ranged(0, 0), (Some(0), Some(0)));
    assert_eq!(
        ranged(i64::MAX as usize, i64::MAX as usize + 1),
        (Some(i64::MAX), Some(i64::MAX))
    );
    assert_eq!(ranged(usize::MAX, 0), (Some(i64::MAX), Some(0)));
    assert_eq!(ranged(1, usize::MAX), (Some(1), Some(i64::MAX)));
}

#[test]
fn reads_all_entities_out_of_replies() {
    let rows = vec![
        JsonValue::parse(b"{\"id\": \"2\"}").unwrap(),
        JsonValue::parse(b"{\"id\": \"1\"}").unwrap(),
    ];
    assert_eq!(
        store().all_found(Ok(rows)),
        Ok(vec![entity(&[("id", "2")]), entity(&[("id", "1")])])
    );
    assert_eq!(store().all_found(Ok(vec![])), Ok(vec![]));
    assert_eq!(store().all_found(Err(())), Err(()));
}

#[test]
fn reverts_blocks_by_hash() {
    assert_eq!(
        store().revert_events("abc".to_string()),
        Statement::RevertBlock("abc".to_string())
    );
}

#[test]
fn logs_the_output_of_migrations() {
    assert_eq!(migration_log(vec![]), None);
    assert_eq!(
        migration_log("done \u{e9}".as_bytes().to_vec()),
        Some("done \u{e9}".to_string())
    );
    assert_eq!(migration_log(vec![0xff]), Some("<unreadable>".to_string()));
}
