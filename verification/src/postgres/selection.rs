//! Which entities a query finds.
use vstd::prelude::*;

use crate::entity::Entity;
use crate::json::{Json, JsonValue};
use crate::postgres::statement::{
    after_upsert, entity_at, entity_of, updated, writes_update, EntityRow, EntitySelect, RowView,
};
use crate::postgres::store::{
    as_bigint, direction_of, law_selections_say_what_queries_say, selects,
};
use crate::store::{FilterView, KeyView, StoreOrder, StoreQuery, StoreRange};

verus! {

/// How the database understands the parts of a selection that are its own affair: which entities
/// pass a filter, the text of an attribute of an entity, if it has one, and which texts come at or
/// before which in its order of texts.
pub struct Meaning {
    pub passes: spec_fn(FilterView, Map<Seq<char>, Json>) -> bool,
    pub text: spec_fn(Map<Seq<char>, Json>, Seq<char>) -> Option<Seq<char>>,
    pub at_most: spec_fn(Seq<char>, Seq<char>) -> bool,
}

/// The selection is meant for the row with a key.
pub open spec fn is_meant(
    table: Map<KeyView, RowView>,
    select: EntitySelect,
    meaning: Meaning,
    key: KeyView,
) -> bool {
    &&& table.contains_key(key)
    &&& key.entity == select.entity@
    &&& key.subgraph == select.subgraph@
    &&& select.filter matches Some(filter) ==> (meaning.passes)(filter@, table[key].data.members())
}

/// One entity may come before another one. Of entities without the attribute nothing is said, nor of
/// directions that the database does not know.
pub open spec fn may_precede(
    meaning: Meaning,
    attribute: Seq<char>,
    direction: Seq<char>,
    first: Map<Seq<char>, Json>,
    second: Map<Seq<char>, Json>,
) -> bool {
    match ((meaning.text)(first, attribute), (meaning.text)(second, attribute)) {
        (Some(a), Some(b)) => {
            &&& direction == " DESC "@ ==> (meaning.at_most)(b, a)
            &&& direction == " ASC "@ ==> (meaning.at_most)(a, b)
        },
        _ => true,
    }
}

/// The rows that a selection is meant for, each once and in the order that is asked for. Only an
/// attribute that is looked up in the data is known to order rows; of any other expression nothing
/// is said.
pub open spec fn lists_rows(
    table: Map<KeyView, RowView>,
    select: EntitySelect,
    meaning: Meaning,
    keys: Seq<KeyView>,
) -> bool {
    &&& keys.no_duplicates()
    &&& forall|key: KeyView| #[trigger]
        keys.contains(key) <==> is_meant(table, select, meaning, key)
    &&& select.order is Some && select.order->0.expression@ == "data ->> "@ ==> forall|
        i: int,
        j: int,
    |
        0 <= i < j < keys.len() ==> may_precede(
            meaning,
            select.order->0.attribute@,
            select.order->0.direction@,
            table[#[trigger] keys[i]].data.members(),
            table[#[trigger] keys[j]].data.members(),
        )
}

/// What a count of items to skip and a limit leave of a list.
pub open spec fn page<A>(all: Seq<A>, limit: Option<int>, offset: Option<int>) -> Seq<A> {
    let from = match offset {
        Some(offset) => if offset < all.len() {
            offset
        } else {
            all.len() as int
        },
        None => 0,
    };
    let to = match limit {
        Some(limit) => if limit < all.len() - from {
            from + limit
        } else {
            all.len() as int
        },
        None => all.len() as int,
    };
    all.subrange(from, to)
}

/// The database may answer a selection with the rows of these keys, in this order.
pub open spec fn answers(
    table: Map<KeyView, RowView>,
    select: EntitySelect,
    meaning: Meaning,
    keys: Seq<KeyView>,
) -> bool {
    exists|all: Seq<KeyView>| #[trigger]
        lists_rows(table, select, meaning, all) && keys == page(
            all,
            match select.limit {
                Some(limit) => Some(limit as int),
                None => None,
            },
            match select.offset {
                Some(offset) => Some(offset as int),
                None => None,
            },
        )
}

/// The entities are those in the rows of these keys.
pub open spec fn reads(
    table: Map<KeyView, RowView>,
    keys: Seq<KeyView>,
    entities: Seq<Map<Seq<char>, Json>>,
) -> bool {
    &&& entities.len() == keys.len()
    &&& forall|i: int|
        0 <= i < keys.len() ==> entity_of(table[keys[i]].data) == Some(#[trigger] entities[i])
}

/// A query finds these entities: it is turned into a selection as `find` does it, the database
/// answers, and the entities are read out of the answer as `all_found` does it.
pub open spec fn finds(
    table: Map<KeyView, RowView>,
    query: StoreQuery,
    meaning: Meaning,
    entities: Seq<Map<Seq<char>, Json>>,
) -> bool {
    exists|select: EntitySelect, keys: Seq<KeyView>| #[trigger]
        selects(select, query) && #[trigger] answers(table, select, meaning, keys) && reads(
            table,
            keys,
            entities,
        )
}

/// Two queries are for the same entity type in the same subgraph.
pub open spec fn same_type(a: StoreQuery, b: StoreQuery) -> bool {
    a.entity == b.entity && a.subgraph == b.subgraph
}

/// A selection that `find` asks for, an answer of the database to it, and the entities that
/// `all_found` reads out of the answer make up what the query finds.
pub proof fn law_find_reads_the_answer(
    table: Map<KeyView, RowView>,
    query: StoreQuery,
    meaning: Meaning,
    select: EntitySelect,
    keys: Seq<KeyView>,
    rows: Seq<JsonValue>,
    entities: Seq<Entity>,
)
    requires
        selects(select, query),
        answers(table, select, meaning, keys),
        rows.len() == keys.len(),
        forall|i: int| 0 <= i < keys.len() ==> (#[trigger] rows[i])@ == table[keys[i]].data,
        entities.len() == rows.len(),
        forall|i: int|
            0 <= i < rows.len() ==> entity_of(rows[i]@) == Some((#[trigger] entities[i])@),
    ensures
        finds(table, query, meaning, Seq::new(entities.len(), |i: int| entities[i]@)),
{
    let views = Seq::new(entities.len(), |i: int| entities[i]@);
    assert forall|i: int| 0 <= i < keys.len() implies entity_of(table[keys[i]].data) == Some(
        #[trigger] views[i],
    ) by {
        assert(entity_of(rows[i]@) == Some(entities[i]@));
    }
    assert(reads(table, keys, views));
}

/// The entities in the rows of keys.
spec fn contents(table: Map<KeyView, RowView>, keys: Seq<KeyView>) -> Seq<Map<Seq<char>, Json>> {
    Seq::new(keys.len(), |i: int| table[keys[i]].data.members())
}

/// Entities that are read are the contents of the rows.
proof fn lemma_reads_contents(
    table: Map<KeyView, RowView>,
    keys: Seq<KeyView>,
    entities: Seq<Map<Seq<char>, Json>>,
)
    requires
        reads(table, keys, entities),
    ensures
        entities == contents(table, keys),
{
    assert forall|i: int| 0 <= i < keys.len() implies entities[i] == contents(table, keys)[i] by {
        assert(entity_of(table[keys[i]].data) == Some(entities[i]));
    }
    assert(entities =~= contents(table, keys));
}

/// A query without a range finds all rows that its selection is meant for.
proof fn lemma_finds_all(
    table: Map<KeyView, RowView>,
    query: StoreQuery,
    meaning: Meaning,
    entities: Seq<Map<Seq<char>, Json>>,
) -> (found: (EntitySelect, Seq<KeyView>))
    requires
        finds(table, query, meaning, entities),
        query.range is None,
    ensures
        selects(found.0, query),
        lists_rows(table, found.0, meaning, found.1),
        reads(table, found.1, entities),
        entities == contents(table, found.1),
{
    let (select, keys) = choose|select: EntitySelect, keys: Seq<KeyView>| #[trigger]
        selects(select, query) && #[trigger] answers(table, select, meaning, keys) && reads(
            table,
            keys,
            entities,
        );
    let all = choose|all: Seq<KeyView>| #[trigger]
        lists_rows(table, select, meaning, all) && keys == page(all, None, None);
    assert(keys =~= all);
    lemma_reads_contents(table, keys, entities);
    (select, keys)
}

/// Two lists of keys, of which one has exactly those of the other whose rows are wanted, hold
/// the same entities but for those that are not wanted.
proof fn lemma_same_contents(
    table: Map<KeyView, RowView>,
    all: Seq<KeyView>,
    some: Seq<KeyView>,
    wanted: spec_fn(Map<Seq<char>, Json>) -> bool,
)
    requires
        all.no_duplicates(),
        some.no_duplicates(),
        forall|key: KeyView| #[trigger]
            some.contains(key) <==> all.contains(key) && wanted(table[key].data.members()),
    ensures
        contents(table, some).to_multiset() == contents(table, all).to_multiset().filter(wanted),
    decreases all.len(),
{
    broadcast use vstd::multiset::group_multiset_axioms;
    broadcast use vstd::seq_lib::group_to_multiset_ensures;

    if all.len() == 0 {
        assert(some.len() == 0) by {
            if some.len() > 0 {
                assert(some.contains(some[0]));
            }
        }
        assert(contents(table, some) =~= Seq::empty());
        assert(contents(table, all) =~= Seq::empty());
        assert(contents(table, some).to_multiset() =~= contents(table, all).to_multiset().filter(
            wanted,
        ));
    } else {
        let key = all.last();
        let entity = table[key].data.members();
        let rest = all.drop_last();
        assert(all[all.len() - 1] == key);
        assert(all.contains(key));
        assert forall|k: KeyView| #[trigger] rest.contains(k) <==> all.contains(k) && k != key by {
            if all.contains(k) && k != key {
                let i = choose|i: int| 0 <= i < all.len() && all[i] == k;
                assert(rest[i] == k);
            }
            if rest.contains(k) {
                let i = choose|i: int| 0 <= i < rest.len() && rest[i] == k;
                assert(all[i] == k);
            }
        }
        assert(contents(table, all) =~= contents(table, rest).push(entity));
        if wanted(entity) {
            assert(some.contains(key));
            let at = choose|at: int| 0 <= at < some.len() && some[at] == key;
            let fewer = some.remove(at);
            assert forall|k: KeyView| #[trigger] fewer.contains(k) <==> some.contains(k) && k
                != key by {
                if some.contains(k) && k != key {
                    let i = choose|i: int| 0 <= i < some.len() && some[i] == k;
                    if i < at {
                        assert(fewer[i] == k);
                    } else {
                        assert(fewer[i - 1] == k);
                    }
                }
                if fewer.contains(k) {
                    let i = choose|i: int| 0 <= i < fewer.len() && fewer[i] == k;
                    if i < at {
                        assert(some[i] == k);
                    } else {
                        assert(some[i + 1] == k);
                    }
                }
            }
            lemma_same_contents(table, rest, fewer, wanted);
            assert(contents(table, fewer) =~= contents(table, some).remove(at));
            assert(contents(table, some)[at] == entity);
            assert(contents(table, some).contains(entity));
            let kept = contents(table, some).to_multiset();
            let total = contents(table, all).to_multiset();
            assert(contents(table, fewer).to_multiset() == kept.remove(entity));
            assert(total == contents(table, rest).to_multiset().insert(entity));
            assert(kept.count(entity) > 0);
            assert forall|e: Map<Seq<char>, Json>| kept.count(e) == total.filter(wanted).count(
                e,
            ) by {
                assert(kept.remove(entity).count(e) == contents(table, rest).to_multiset().filter(
                    wanted,
                ).count(e));
            }
            assert(kept =~= total.filter(wanted));
        } else {
            lemma_same_contents(table, rest, some, wanted);
            assert(contents(table, some).to_multiset() =~= contents(
                table,
                all,
            ).to_multiset().filter(wanted));
        }
    }
}

/// A filter only removes entities, and it removes exactly those that do not pass it: nothing of
/// another subgraph or entity type comes in.
pub proof fn law_filter_removes_what_does_not_pass(
    table: Map<KeyView, RowView>,
    query: StoreQuery,
    unfiltered: StoreQuery,
    meaning: Meaning,
    entities: Seq<Map<Seq<char>, Json>>,
    all: Seq<Map<Seq<char>, Json>>,
)
    requires
        same_type(query, unfiltered),
        query.filter is Some,
        unfiltered.filter is None,
        query.range is None,
        unfiltered.range is None,
        finds(table, query, meaning, entities),
        finds(table, unfiltered, meaning, all),
    ensures
        entities.to_multiset() == all.to_multiset().filter(
            |entity: Map<Seq<char>, Json>| (meaning.passes)(query.filter->0@, entity),
        ),
{
    let wanted = |entity: Map<Seq<char>, Json>| (meaning.passes)(query.filter->0@, entity);
    let (select, some_keys) = lemma_finds_all(table, query, meaning, entities);
    let (select_all, all_keys) = lemma_finds_all(table, unfiltered, meaning, all);
    assert forall|key: KeyView| #[trigger]
        some_keys.contains(key) <==> all_keys.contains(key) && wanted(
            table[key].data.members(),
        ) by {
        assert(some_keys.contains(key) <==> is_meant(table, select, meaning, key));
        assert(all_keys.contains(key) <==> is_meant(table, select_all, meaning, key));
    }
    lemma_same_contents(table, all_keys, some_keys, wanted);
}

/// What a query finds, with whatever order and range, are entities of its type in its subgraph, each
/// out of a row of its own, that pass its filter.
pub proof fn law_found_entities_match_the_query(
    table: Map<KeyView, RowView>,
    query: StoreQuery,
    meaning: Meaning,
    entities: Seq<Map<Seq<char>, Json>>,
) -> (keys: Seq<KeyView>)
    requires
        finds(table, query, meaning, entities),
    ensures
        keys.len() == entities.len(),
        keys.no_duplicates(),
        forall|i: int|
            0 <= i < keys.len() ==> {
                &&& table.contains_key(#[trigger] keys[i])
                &&& keys[i].entity == query.entity@
                &&& keys[i].subgraph == query.subgraph@
                &&& table[keys[i]].data is Object
                &&& table[keys[i]].data.members() == entities[i]
                &&& query.filter is Some ==> (meaning.passes)(query.filter->0@, entities[i])
            },
{
    let (select, keys, all, from) = lemma_finds_some(table, query, meaning, entities);
    assert forall|i: int| 0 <= i < keys.len() implies {
        &&& table.contains_key(#[trigger] keys[i])
        &&& keys[i].entity == query.entity@
        &&& keys[i].subgraph == query.subgraph@
        &&& table[keys[i]].data is Object
        &&& table[keys[i]].data.members() == entities[i]
        &&& query.filter is Some ==> (meaning.passes)(query.filter->0@, entities[i])
    } by {
        assert(all.contains(all[from + i]));
        assert(is_meant(table, select, meaning, keys[i]));
        assert(entity_of(table[keys[i]].data) == Some(entities[i]));
    }
    assert forall|i: int, j: int| 0 <= i < keys.len() && 0 <= j < keys.len() && i != j implies keys[i]
        != keys[j] by {
        assert(all[from + i] != all[from + j]);
    }
    keys
}

/// Whatever the filter and the range of a query, what it finds is ordered by the texts of the
/// attribute that it names, ascending unless it says otherwise.
pub proof fn law_found_entities_are_in_order(
    table: Map<KeyView, RowView>,
    query: StoreQuery,
    meaning: Meaning,
    entities: Seq<Map<Seq<char>, Json>>,
    i: int,
    j: int,
)
    requires
        finds(table, query, meaning, entities),
        query.order_by is Some,
        0 <= i < j < entities.len(),
        (meaning.text)(entities[i], query.order_by->0@) is Some,
        (meaning.text)(entities[j], query.order_by->0@) is Some,
    ensures
        query.order_direction == Some(StoreOrder::Descending) ==> (meaning.at_most)(
            (meaning.text)(entities[j], query.order_by->0@)->0,
            (meaning.text)(entities[i], query.order_by->0@)->0,
        ),
        query.order_direction is None || query.order_direction == Some(StoreOrder::Ascending) ==> (
        meaning.at_most)(
            (meaning.text)(entities[i], query.order_by->0@)->0,
            (meaning.text)(entities[j], query.order_by->0@)->0,
        ),
{
    let (select, keys, all, from) = lemma_finds_some(table, query, meaning, entities);
    lemma_directions_differ();
    law_selections_say_what_queries_say(select, query);
    assert(entity_of(table[keys[i]].data) == Some(entities[i]));
    assert(entity_of(table[keys[j]].data) == Some(entities[j]));
    assert(keys[i] == all[from + i] && keys[j] == all[from + j]);
    assert(may_precede(
        meaning,
        query.order_by->0@,
        select.order->0.direction@,
        table[all[from + i]].data.members(),
        table[all[from + j]].data.members(),
    ));
}

/// What a query finds is a stretch of a list of the rows that its selection is meant for.
proof fn lemma_finds_some(
    table: Map<KeyView, RowView>,
    query: StoreQuery,
    meaning: Meaning,
    entities: Seq<Map<Seq<char>, Json>>,
) -> (found: (EntitySelect, Seq<KeyView>, Seq<KeyView>, int))
    requires
        finds(table, query, meaning, entities),
    ensures
        selects(found.0, query),
        reads(table, found.1, entities),
        lists_rows(table, found.0, meaning, found.2),
        0 <= found.3 <= found.3 + found.1.len() <= found.2.len(),
        forall|i: int| 0 <= i < found.1.len() ==> #[trigger] found.1[i] == found.2[found.3 + i],
{
    let (select, keys) = choose|select: EntitySelect, keys: Seq<KeyView>| #[trigger]
        selects(select, query) && #[trigger] answers(table, select, meaning, keys) && reads(
            table,
            keys,
            entities,
        );
    let limit = match select.limit {
        Some(limit) => Some(limit as int),
        None => None,
    };
    let offset = match select.offset {
        Some(offset) => Some(offset as int),
        None => None,
    };
    let all = choose|all: Seq<KeyView>| #[trigger]
        lists_rows(table, select, meaning, all) && keys == page(all, limit, offset);
    law_selections_say_what_queries_say(select, query);
    let from = match offset {
        Some(offset) => if offset < all.len() {
            offset
        } else {
            all.len() as int
        },
        None => 0,
    };
    (select, keys, all, from)
}

/// Ordering rearranges the entities. Where all of them have the attribute, they come in the order
/// of its texts, ascending unless the query says otherwise.
pub proof fn law_order_rearranges(
    table: Map<KeyView, RowView>,
    query: StoreQuery,
    unordered: StoreQuery,
    meaning: Meaning,
    entities: Seq<Map<Seq<char>, Json>>,
    all: Seq<Map<Seq<char>, Json>>,
    attribute: Seq<char>,
)
    requires
        same_type(query, unordered),
        query.filter == unordered.filter,
        query.order_by matches Some(name) && name@ == attribute,
        unordered.order_by is None,
        query.range is None,
        unordered.range is None,
        finds(table, query, meaning, entities),
        finds(table, unordered, meaning, all),
    ensures
        entities.to_multiset() == all.to_multiset(),
        (forall|i: int|
            0 <= i < all.len() ==> (meaning.text)(#[trigger] all[i], attribute) is Some) ==> (
        forall|i: int, j: int|
            0 <= i < j < entities.len() ==> {
                let a = (meaning.text)(#[trigger] entities[i], attribute);
                let b = (meaning.text)(#[trigger] entities[j], attribute);
                &&& a is Some
                &&& b is Some
                &&& if query.order_direction == Some(StoreOrder::Descending) {
                    (meaning.at_most)(b->0, a->0)
                } else {
                    (meaning.at_most)(a->0, b->0)
                }
            }),
{
    broadcast use vstd::multiset::group_multiset_axioms;

    let (select, keys) = lemma_finds_all(table, query, meaning, entities);
    let (select_all, all_keys) = lemma_finds_all(table, unordered, meaning, all);
    let any = |entity: Map<Seq<char>, Json>| true;
    assert forall|key: KeyView| #[trigger]
        keys.contains(key) <==> all_keys.contains(key) && any(table[key].data.members()) by {
        assert(keys.contains(key) <==> is_meant(table, select, meaning, key));
        assert(all_keys.contains(key) <==> is_meant(table, select_all, meaning, key));
    }
    lemma_same_contents(table, all_keys, keys, any);
    assert(all.to_multiset().filter(any) =~= all.to_multiset());
    if forall|i: int| 0 <= i < all.len() ==> (meaning.text)(#[trigger] all[i], attribute) is Some {
        lemma_directions_differ();
        assert forall|i: int| 0 <= i < entities.len() implies (meaning.text)(
            #[trigger] entities[i],
            attribute,
        ) is Some by {
            assert(keys.contains(keys[i]));
            let k = choose|k: int| 0 <= k < all_keys.len() && all_keys[k] == keys[i];
            assert(all[k] == entities[i]);
        }
        assert forall|i: int, j: int| 0 <= i < j < entities.len() implies {
            let a = (meaning.text)(#[trigger] entities[i], attribute);
            let b = (meaning.text)(#[trigger] entities[j], attribute);
            &&& a is Some
            &&& b is Some
            &&& if query.order_direction == Some(StoreOrder::Descending) {
                (meaning.at_most)(b->0, a->0)
            } else {
                (meaning.at_most)(a->0, b->0)
            }
        } by {
            assert(entities[i] == table[keys[i]].data.members());
            assert(entities[j] == table[keys[j]].data.members());
            assert(may_precede(
                meaning,
                attribute,
                direction_of(query.order_direction),
                entities[i],
                entities[j],
            ));
        }
    }
}

proof fn lemma_directions_differ()
    ensures
        " DESC "@ != " ASC "@,
{
    reveal_strlit(" DESC ");
    reveal_strlit(" ASC ");
    assert(" DESC "@.len() != " ASC "@.len());
}

/// The texts of an attribute tell the entities apart.
pub open spec fn has_distinct_texts(
    meaning: Meaning,
    attribute: Seq<char>,
    entities: Seq<Map<Seq<char>, Json>>,
) -> bool {
    forall|i: int, j: int|
        0 <= i < j < entities.len() ==> {
            &&& (meaning.text)(#[trigger] entities[i], attribute) is Some
            &&& (meaning.text)(#[trigger] entities[j], attribute) is Some
            &&& (meaning.text)(entities[i], attribute) != (meaning.text)(entities[j], attribute)
        }
}

/// No two different texts come before each other.
pub open spec fn is_antisymmetric(meaning: Meaning) -> bool {
    forall|a: Seq<char>, b: Seq<char>| #[trigger]
        (meaning.at_most)(a, b) && #[trigger] (meaning.at_most)(b, a) ==> a == b
}

/// Lists of the same keys are equally long.
proof fn lemma_same_length(a: Seq<KeyView>, b: Seq<KeyView>)
    requires
        a.no_duplicates(),
        b.no_duplicates(),
        forall|key: KeyView| #[trigger] a.contains(key) <==> b.contains(key),
    ensures
        a.len() == b.len(),
{
    a.unique_seq_to_set();
    b.unique_seq_to_set();
    assert(a.to_set() =~= b.to_set()) by {
        assert forall|key: KeyView| a.to_set().contains(key) <==> b.to_set().contains(key) by {
            assert(a.contains(key) <==> b.contains(key));
        }
    }
}

/// Where the texts to order by are all different, there is one way to list the rows.
proof fn lemma_one_listing(
    table: Map<KeyView, RowView>,
    select: EntitySelect,
    other_select: EntitySelect,
    meaning: Meaning,
    keys: Seq<KeyView>,
    other: Seq<KeyView>,
    upto: int,
)
    requires
        lists_rows(table, select, meaning, keys),
        lists_rows(table, other_select, meaning, other),
        forall|key: KeyView| #[trigger] keys.contains(key) <==> other.contains(key),
        select.order is Some,
        other_select.order is Some,
        select.order->0.expression@ == "data ->> "@,
        other_select.order->0.expression@ == "data ->> "@,
        select.order->0.direction@ == " DESC "@ || select.order->0.direction@ == " ASC "@,
        select.order->0.attribute@ == other_select.order->0.attribute@,
        select.order->0.direction@ == other_select.order->0.direction@,
        has_distinct_texts(meaning, select.order->0.attribute@, contents(table, other)),
        is_antisymmetric(meaning),
        0 <= upto <= keys.len(),
        keys.len() == other.len(),
    ensures
        keys.take(upto) == other.take(upto),
    decreases upto,
{
    if upto > 0 {
        let at = upto - 1;
        let attribute = select.order->0.attribute@;
        let direction = select.order->0.direction@;
        lemma_one_listing(table, select, other_select, meaning, keys, other, at);
        assert forall|k: int| 0 <= k < at implies #[trigger] keys[k] == other[k] by {
            assert(keys.take(at)[k] == other.take(at)[k]);
        }
        if keys[at] != other[at] {
            assert(keys.contains(keys[at]));
            assert(other.contains(keys[at]));
            let i = choose|i: int| 0 <= i < other.len() && other[i] == keys[at];
            assert(other.contains(other[at]));
            assert(keys.contains(other[at]));
            let j = choose|j: int| 0 <= j < keys.len() && keys[j] == other[at];
            assert(at < i) by {
                if i < at {
                    assert(keys[i] == other[i]);
                }
            }
            assert(at < j) by {
                if j < at {
                    assert(keys[j] == other[j]);
                }
            }
            let a = table[keys[at]].data.members();
            let b = table[other[at]].data.members();
            assert(contents(table, other)[i] == a);
            assert(contents(table, other)[at] == b);
            assert(may_precede(meaning, attribute, direction, a, b)) by {
                assert(table[keys[j]].data.members() == b);
            }
            assert(may_precede(meaning, attribute, direction, b, a)) by {
                assert(table[other[i]].data.members() == a);
            }
        }
        assert(keys.take(upto) =~= other.take(upto));
    }
}

/// A range takes a page out of what is found without it: as many entities as it asks for, or as
/// there are left after those that it skips. Where the query orders by texts that are all
/// different, the page is the part of the whole list that it names.
pub proof fn law_range_is_a_page(
    table: Map<KeyView, RowView>,
    query: StoreQuery,
    unranged: StoreQuery,
    meaning: Meaning,
    entities: Seq<Map<Seq<char>, Json>>,
    all: Seq<Map<Seq<char>, Json>>,
    range: StoreRange,
)
    requires
        same_type(query, unranged),
        query.filter == unranged.filter,
        query.order_by == unranged.order_by,
        query.order_direction == unranged.order_direction,
        query.range == Some(range),
        unranged.range is None,
        finds(table, query, meaning, entities),
        finds(table, unranged, meaning, all),
        all.len() <= i64::MAX || (range.first <= i64::MAX && range.skip <= i64::MAX),
    ensures
        entities.len() == (if range.skip >= all.len() {
            0
        } else if range.first < all.len() - range.skip {
            range.first as int
        } else {
            all.len() - range.skip
        }),
        is_antisymmetric(meaning) && (query.order_by matches Some(attribute) && has_distinct_texts(
            meaning,
            attribute@,
            all,
        )) ==> {
            &&& entities == page(all, Some(range.first as int), Some(range.skip as int))
            &&& forall|i: int|
                0 <= i < entities.len() ==> #[trigger] entities[i] == all[range.skip + i]
        },
{
    let (select_all, all_keys) = lemma_finds_all(table, unranged, meaning, all);
    let (select, keys) = choose|select: EntitySelect, keys: Seq<KeyView>| #[trigger]
        selects(select, query) && #[trigger] answers(table, select, meaning, keys) && reads(
            table,
            keys,
            entities,
        );
    let limit = Some(as_bigint(range.first));
    let offset = Some(as_bigint(range.skip));
    let listed = choose|listed: Seq<KeyView>| #[trigger]
        lists_rows(table, select, meaning, listed) && keys == page(listed, limit, offset);
    assert forall|key: KeyView| #[trigger] listed.contains(key) <==> all_keys.contains(key) by {
        assert(listed.contains(key) <==> is_meant(table, select, meaning, key));
        assert(all_keys.contains(key) <==> is_meant(table, select_all, meaning, key));
    }
    lemma_same_length(listed, all_keys);
    lemma_reads_contents(table, keys, entities);
    if is_antisymmetric(meaning) && (query.order_by matches Some(attribute) && has_distinct_texts(
        meaning,
        attribute@,
        all,
    )) {
        let n = listed.len() as int;
        lemma_one_listing(table, select, select_all, meaning, listed, all_keys, n);
        assert(listed.take(n) =~= listed);
        assert(all_keys.take(n) =~= all_keys);
        assert(entities =~= page(all, Some(range.first as int), Some(range.skip as int)));
    }
}

/// Pages that follow each other make up the page that spans them both.
pub proof fn law_pages_follow_each_other<A>(all: Seq<A>, skip: nat, first: nat, second: nat)
    ensures
        page(all, Some(first as int), Some(skip as int)) + page(
            all,
            Some(second as int),
            Some((skip + first) as int),
        ) == page(all, Some((first + second) as int), Some(skip as int)),
        page(all, Some(all.len() as int), Some(0)) == all,
{
    assert(page(all, Some(first as int), Some(skip as int)) + page(
        all,
        Some(second as int),
        Some((skip + first) as int),
    ) =~= page(all, Some((first + second) as int), Some(skip as int)));
    assert(page(all, Some(all.len() as int), Some(0)) =~= all);
}

/// A query without a filter and a range finds the entities of its type in its subgraph, each once
/// for its row, and no others.
pub proof fn law_finds_all_of_a_type(
    table: Map<KeyView, RowView>,
    query: StoreQuery,
    meaning: Meaning,
    entities: Seq<Map<Seq<char>, Json>>,
)
    requires
        query.filter is None,
        query.range is None,
        finds(table, query, meaning, entities),
    ensures
        exists|keys: Seq<KeyView>|
            {
                &&& #[trigger] reads(table, keys, entities)
                &&& keys.no_duplicates()
                &&& forall|key: KeyView| #[trigger]
                    keys.contains(key) <==> table.contains_key(key) && key.entity == query.entity@
                        && key.subgraph == query.subgraph@
            },
{
    let (select, keys) = lemma_finds_all(table, query, meaning, entities);
    assert forall|key: KeyView| #[trigger]
        keys.contains(key) <==> table.contains_key(key) && key.entity == query.entity@
            && key.subgraph == query.subgraph@ by {
        assert(keys.contains(key) <==> is_meant(table, select, meaning, key));
    }
    assert(reads(table, keys, entities));
}

/// What has been set is found by a query for its type in its subgraph.
pub proof fn law_find_after_set(
    table: Map<KeyView, RowView>,
    key: KeyView,
    update: Map<Seq<char>, Json>,
    event_source: Seq<char>,
    row: EntityRow,
    query: StoreQuery,
    meaning: Meaning,
    entities: Seq<Map<Seq<char>, Json>>,
)
    requires
        writes_update(row, key, entity_at(table, key), update, event_source),
        query.entity@ == key.entity,
        query.subgraph@ == key.subgraph,
        query.filter is None,
        query.range is None,
        finds(after_upsert(table, row), query, meaning, entities),
    ensures
        entities.contains(updated(entity_at(table, key), update)),
        exists|i: int|
            0 <= i < entities.len() && forall|attribute: Seq<char>|
                if update.contains_key(attribute) {
                    (#[trigger] entities[i]).contains_key(attribute) && entities[i][attribute]
                        == #[trigger] update[attribute]
                } else if entity_at(table, key) is Some && entity_at(table, key)->0.contains_key(
                    attribute,
                ) {
                    entities[i].contains_key(attribute) && entities[i][attribute] == entity_at(
                        table,
                        key,
                    )->0[attribute]
                } else {
                    !entities[i].contains_key(attribute)
                },
{
    let after = after_upsert(table, row);
    let (select, keys) = lemma_finds_all(after, query, meaning, entities);
    assert(is_meant(after, select, meaning, key));
    assert(keys.contains(key));
    let i = choose|i: int| 0 <= i < keys.len() && keys[i] == key;
    assert(entity_of(after[keys[i]].data) == Some(entities[i]));
}

} // verus!
