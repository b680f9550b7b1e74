use graph_node::postgres::store::Store;
use graph_node::store::{EntityChange, EntityChangeOperation};

fn pair(subgraph: &str, entity: &str) -> (String, String) {
    (subgraph.to_string(), entity.to_string())
}

fn change(subgraph: &str, entity: &str) -> EntityChange {
    EntityChange {
        subgraph: subgraph.to_string(),
        entity: entity.to_string(),
        id: "1".to_string(),
        operation: EntityChangeOperation::Updated,
    }
}

fn write_to_all(store: &mut Store<u32>, change: &EntityChange, gone: &[u32]) -> Vec<u32> {
    let mut senders = vec![];
    let mut delivery = store.handle_entity_changes(change.clone());
    let mut outcome = Ok(());
    while let Some((id, sender, sent)) = store.advance(&mut delivery, outcome) {
        assert_eq!(&sent, change);
        assert!(store.senders().contains(&(id, sender)));
        senders.push(sender);
        outcome = if gone.contains(&sender) { Err(()) } else { Ok(()) };
    }
    senders.sort();
    senders
}

fn told(store: &mut Store<u32>, change: &EntityChange) -> Vec<u32> {
    write_to_all(store, change, &[])
}

#[test]
fn subscription_ids_are_random_uuids() {
    let mut store: Store<u32> = Store::new();
    let first = store.subscribe(vec![], 1).unwrap();
    let second = store.subscribe(vec![], 2).unwrap();
    assert_ne!(first, second);
    for id in vec![first, second] {
        let bytes = id.as_bytes();
        assert_eq!(bytes.len(), 36);
        for (i, byte) in bytes.iter().enumerate() {
            if i == 8 || i == 13 || i == 18 || i == 23 {
                assert_eq!(*byte, b'-');
            } else {
                assert!(byte.is_ascii_digit() || (b'a'..=b'f').contains(byte));
            }
        }
        assert_eq!(bytes[14], b'4');
        assert!(b"89ab".contains(&bytes[19]));
    }
}

#[test]
fn tells_subscribers_of_matching_changes_only() {
    let mut store: Store<u32> = Store::new();
    store.subscribe(vec![pair("s", "user")], 1).unwrap();
    store
        .subscribe(vec![pair("s", "post"), pair("s", "user")], 2)
        .unwrap();
    store.subscribe(vec![pair("t", "user")], 3).unwrap();
    store.subscribe(vec![], 4).unwrap();
    assert_eq!(told(&mut store, &change("s", "user")), vec![1, 2]);
    assert_eq!(told(&mut store, &change("s", "post")), vec![2]);
    assert_eq!(told(&mut store, &change("t", "user")), vec![3]);
    assert_eq!(told(&mut store, &change("t", "post")), Vec::<u32>::new());
    assert_eq!(told(&mut store, &change("user", "s")), Vec::<u32>::new());
}

#[test]
fn does_not_take_an_id_twice() {
    let mut store: Store<u32> = Store::new();
    assert_eq!(
        store.subscribe_as("id".to_string(), vec![pair("s", "user")], 1),
        Ok(())
    );
    assert_eq!(
        store.subscribe_as("id".to_string(), vec![pair("s", "post")], 2),
        Err((vec![pair("s", "post")], 2))
    );
    assert_eq!(store.senders(), vec![("id".to_string(), 1)]);
}

#[test]
fn unsubscribing_undoes_subscribing() {
    let mut store: Store<u32> = Store::new();
    store.subscribe(vec![pair("s", "user")], 1).unwrap();
    let before = store.senders();
    let id = store.subscribe(vec![pair("s", "user")], 2).unwrap();
    assert_eq!(told(&mut store, &change("s", "user")), vec![1, 2]);
    store.unsubscribe(&id);
    assert_eq!(store.senders(), before);
    store.unsubscribe(&id);
    assert_eq!(store.senders(), before);
}

#[test]
fn failed_deliveries_end_subscriptions() {
    let mut store: Store<u32> = Store::new();
    for sender in 1..4 {
        store.subscribe(vec![pair("s", "user")], sender).unwrap();
    }
    // All of them have their turn, even after one has failed
    let written = write_to_all(&mut store, &change("s", "user"), &[2]);
    assert_eq!(written, vec![1, 2, 3]);
    assert_eq!(told(&mut store, &change("s", "user")), vec![1, 3]);
}

#[test]
fn cleans_stale_subscriptions_up() {
    let mut store: Store<u32> = Store::new();
    for sender in 1..5 {
        store.subscribe(vec![pair("s", "user")], sender).unwrap();
    }
    let polled: Vec<(String, bool)> = store
        .senders()
        .into_iter()
        .map(|(id, sender)| (id, sender % 2 == 0))
        .collect();
    store.periodically_clean_up_stale_subscriptions(&polled);
    assert_eq!(told(&mut store, &change("s", "user")), vec![1, 3]);
    store.periodically_clean_up_stale_subscriptions(&vec![("unknown".to_string(), true)]);
    assert_eq!(told(&mut store, &change("s", "user")), vec![1, 3]);
}

#[test]
fn subscribers_get_their_changes_in_order() {
    let mut store: Store<u32> = Store::new();
    store
        .subscribe(vec![pair("s", "user"), pair("s", "user")], 1)
        .unwrap();
    store.subscribe(vec![], 3).unwrap();
    let mut received: Vec<(u32, EntityChange)> = vec![];
    let mut handle = |store: &mut Store<u32>, id: &str, entity: &str| {
        let mut change = change("s", entity);
        change.id = id.to_string();
        for sender in told(store, &change) {
            received.push((sender, change.clone()));
        }
    };
    handle(&mut store, "a", "user");
    handle(&mut store, "b", "post");
    store
        .subscribe(vec![pair("s", "post"), pair("s", "user")], 2)
        .unwrap();
    handle(&mut store, "c", "user");
    handle(&mut store, "d", "post");
    handle(&mut store, "e", "user");

    let ids = |subscriber: u32| {
        received
            .iter()
            .filter(|(sender, _)| *sender == subscriber)
            .map(|(_, change)| change.id.as_str())
            .collect::<Vec<_>>()
    };
    assert_eq!(ids(1), vec!["a", "c", "e"]);
    assert_eq!(ids(2), vec!["c", "d", "e"]);
    assert_eq!(ids(3), Vec::<&str>::new());
}
