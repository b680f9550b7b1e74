//! The store: its statements, its replies and its subscriptions.
use vstd::prelude::*;

use uuid::Uuid;
use vstd::utf8::{decode_utf8, valid_utf8};

use crate::assoc::{assoc_map, distinct_keys, lemma_assoc_distinct};
use crate::entity::Entity;
use crate::json::{Json, JsonValue};
use crate::postgres::statement::{
    entity_of, writes_update, EntityRow, EntitySelect, OrderClause, Statement,
};
use crate::postgres::subscription::{
    entity_views, law_entity_views_are_complete, Subscription, SubscriptionView,
};
use crate::store::{
    EntityChange, EventSource, StoreKey, StoreOrder, StoreQuery, SubgraphEntityPair,
};
use crate::string_map::{pair_views, StringMap};

verus! {

/// Configuration for the store.
#[derive(Debug, PartialEq)]
pub struct StoreConfig {
    pub url: String,
}

/// How many changes a subscription holds that its subscriber has not taken yet.
pub const SUBSCRIPTION_BUFFER: usize = 100;

/// Seconds between two searches for subscriptions whose receiving end has gone.
pub const CLEAN_UP_INTERVAL_SECS: u64 = 5;

/// A subscriber may fall a hundred changes behind, and subscriptions whose receiving end has gone
/// are looked for every five seconds.
pub proof fn law_subscribers_have_some_slack()
    ensures
        SUBSCRIPTION_BUFFER == 100,
        CLEAN_UP_INTERVAL_SECS == 5,
{
}

/// What the log says of the output of the schema migrations: nothing where there is none, else the
/// text that it is.
pub open spec fn migration_text(output: Seq<u8>) -> Option<Seq<char>> {
    if output.len() == 0 {
        None
    } else if valid_utf8(output) {
        Some(decode_utf8(output))
    } else {
        Some("<unreadable>"@)
    }
}

/// Calls `String::from_utf8`, which turns bytes into the string that they encode in UTF-8, and
/// fails exactly on bytes that are no valid UTF-8.
#[verifier::external_body]
fn from_utf8(bytes: Vec<u8>) -> (text: Option<String>)
    ensures
        match text {
            Some(text) => valid_utf8(bytes@) && text@ == decode_utf8(bytes@),
            None => !valid_utf8(bytes@),
        },
{
    String::from_utf8(bytes).ok()
}

/// The text for the log if there was any output of the schema migrations.
pub fn migration_log(output: Vec<u8>) -> (text: Option<String>)
    ensures
        match text {
            Some(text) => migration_text(output@) == Some(text@),
            None => migration_text(output@) is None,
        },
{
    if output.len() == 0 {
        return None;
    }
    match from_utf8(output) {
        Some(text) => Some(text),
        None => Some("<unreadable>".to_owned()),
    }
}

/// A store based on Postgres, with senders of some type for its subscriptions.
pub struct Store<S> {
    subscriptions: StringMap<Subscription<S>>,
}

impl<S> View for Store<S> {
    type V = Map<Seq<char>, SubscriptionView<S>>;

    closed spec fn view(&self) -> Map<Seq<char>, SubscriptionView<S>> {
        self.subscriptions@
    }
}

/// A hyphenated UUID of the random kind, in lower case.
pub open spec fn is_uuid(text: Seq<char>) -> bool {
    &&& text.len() == 36
    &&& forall|i: int|
        0 <= i < 36 ==> if i == 8 || i == 13 || i == 18 || i == 23 {
            #[trigger] text[i] == '-'
        } else {
            '0' <= text[i] <= '9' || 'a' <= text[i] <= 'f'
        }
    &&& text[14] == '4'
    &&& text[19] == '8' || text[19] == '9' || text[19] == 'a' || text[19] == 'b'
}

/// Calls `Uuid::new_v4` and writes the UUID out. The digits come from the random numbers of the
/// system, and so only their layout is known; the call panics where the system has none to give.
#[verifier::external_body]
fn new_uuid() -> (id: String)
    ensures
        is_uuid(id@),
{
    Uuid::new_v4().to_string()
}

/// A subscription is for changes like this one; without a change, any subscription is meant.
pub open spec fn is_picked<S>(
    subscription: SubscriptionView<S>,
    change: Option<EntityChange>,
) -> bool {
    match change {
        Some(change) => subscription.covers(change),
        None => true,
    }
}

/// The subscriptions that a change picks, by their IDs, each once and with a clone of its sender.
pub open spec fn lists_subscriptions<S: Clone>(
    list: Seq<(String, S)>,
    subscriptions: Map<Seq<char>, SubscriptionView<S>>,
    change: Option<EntityChange>,
) -> bool {
    &&& forall|i: int, j: int|
        0 <= i < j < list.len() ==> (#[trigger] list[i]).0@ != (#[trigger] list[j]).0@
    &&& forall|i: int|
        0 <= i < list.len() ==> {
            &&& subscriptions.contains_key((#[trigger] list[i]).0@)
            &&& is_picked(subscriptions[list[i].0@], change)
            &&& cloned(subscriptions[list[i].0@].sender, list[i].1)
        }
    &&& forall|id: Seq<char>| #[trigger]
        subscriptions.contains_key(id) && is_picked(subscriptions[id], change) ==> exists|i: int|
            0 <= i < list.len() && (#[trigger] list[i]).0@ == id
}

/// The delivery of an entity change to the subscriptions that match it.
pub struct Delivery<S> {
    change: EntityChange,
    pending: Vec<(String, S)>,
    current: Option<String>,
}

impl<S> Delivery<S> {
    /// The change.
    pub closed spec fn change(self) -> EntityChange {
        self.change
    }

    /// The subscriptions that have not had their turn, by ID and sender; the last one is next.
    pub closed spec fn pending(self) -> Seq<(String, S)> {
        self.pending@
    }

    /// The ID of the subscription that the change is being written to.
    pub closed spec fn current(self) -> Option<String> {
        self.current
    }
}

/// One step of a delivery: the next subscription has its turn, or all of them have had it.
pub open spec fn advances<S>(
    before: Delivery<S>,
    after: Delivery<S>,
    action: Option<(String, S, EntityChange)>,
) -> bool {
    &&& after.change() == before.change()
    &&& match action {
        Some((id, sender, change)) => {
            &&& before.pending().len() > 0
            &&& id == before.pending().last().0
            &&& sender == before.pending().last().1
            &&& change == before.change()
            &&& after.pending() == before.pending().drop_last()
            &&& after.current() == Some(id)
        },
        None => {
            &&& before.pending().len() == 0
            &&& after.pending() == before.pending()
            &&& after.current() is None
        },
    }
}

/// The subscriptions after a write to one of them: where it failed, that one is gone.
pub open spec fn settled<S>(
    subscriptions: Map<Seq<char>, SubscriptionView<S>>,
    current: Option<String>,
    outcome: Result<(), ()>,
) -> Map<Seq<char>, SubscriptionView<S>> {
    match (current, outcome) {
        (Some(id), Err(())) => subscriptions.remove(id@),
        _ => subscriptions,
    }
}

/// The IDs whose receiving end was found to be gone.
pub open spec fn stale_ids(polled: Seq<(String, bool)>) -> Set<Seq<char>> {
    Set::new(
        |id: Seq<char>|
            exists|i: int| 0 <= i < polled.len() && (#[trigger] polled[i]).1 && polled[i].0@ == id,
    )
}

/// One more poll result adds at most its own ID.
proof fn lemma_stale_ids_push(polled: Seq<(String, bool)>, last: (String, bool))
    ensures
        stale_ids(polled.push(last)) == (if last.1 {
            stale_ids(polled).insert(last.0@)
        } else {
            stale_ids(polled)
        }),
{
    let next = polled.push(last);
    assert forall|id: Seq<char>|
        stale_ids(next).contains(id) <==> stale_ids(polled).contains(id) || (last.1 && last.0@
            == id) by {
        if stale_ids(next).contains(id) {
            let k = choose|k: int|
                0 <= k < next.len() && (#[trigger] next[k]).1 && next[k].0@ == id;
            if k < polled.len() {
                assert(polled[k].1 && polled[k].0@ == id);
            }
        }
        if stale_ids(polled).contains(id) {
            let k = choose|k: int|
                0 <= k < polled.len() && (#[trigger] polled[k]).1 && polled[k].0@ == id;
            assert(next[k].1 && next[k].0@ == id);
        }
        if last.1 && last.0@ == id {
            assert(next[polled.len() as int].1 && next[polled.len() as int].0@ == id);
        }
    }
    if last.1 {
        assert(stale_ids(next) =~= stale_ids(polled).insert(last.0@));
    } else {
        assert(stale_ids(next) =~= stale_ids(polled));
    }
}

impl<S> Store<S> {
    /// Creates a store without subscriptions.
    pub fn new() -> (store: Self)
        ensures
            store@ == Map::<Seq<char>, SubscriptionView<S>>::empty(),
    {
        Store { subscriptions: StringMap::new() }
    }

    /// Adds a subscription under an ID that is not in use; under one that is, nothing changes and
    /// the parts of the subscription are handed back.
    pub fn subscribe_as(
        &mut self,
        id: String,
        entities: Vec<SubgraphEntityPair>,
        sender: S,
    ) -> (result: Result<(), (Vec<SubgraphEntityPair>, S)>)
        ensures
            match result {
                Ok(()) => !old(self)@.contains_key(id@) && final(self)@ == old(self)@.insert(
                    id@,
                    (SubscriptionView { entities: entity_views(entities@), sender }),
                ),
                Err(parts) => old(self)@.contains_key(id@) && final(self)@ == old(self)@ && parts
                    == (entities, sender),
            },
    {
        if self.subscriptions.contains_key(&id) {
            Err((entities, sender))
        } else {
            self.subscriptions.insert(id, Subscription { entities, sender });
            Ok(())
        }
    }

    /// Subscribes to entity changes for specific subgraphs and entities, under a new (unique) ID.
    /// IDs are drawn at random until one is not in use; after `u64::MAX` draws in vain the parts of
    /// the subscription are handed back. Which ID is drawn, and whether it is in use, is up to
    /// chance: only in a store without a UUID among its IDs is the first draw known to do.
    pub fn subscribe(&mut self, entities: Vec<SubgraphEntityPair>, sender: S) -> (result: Result<
        String,
        (Vec<SubgraphEntityPair>, S),
    >)
        ensures
            match result {
                Ok(id) => {
                    &&& is_uuid(id@)
                    &&& !old(self)@.contains_key(id@)
                    &&& final(self)@ == old(self)@.insert(
                        id@,
                        (SubscriptionView { entities: entity_views(entities@), sender }),
                    )
                },
                Err(parts) => {
                    &&& exists|id: Seq<char>| is_uuid(id) && #[trigger] old(self)@.contains_key(id)
                    &&& final(self)@ == old(self)@
                    &&& parts == (entities, sender)
                },
            },
    {
        let ghost before = self@;
        let ghost mut in_use = Seq::<char>::empty();
        let mut parts = (entities, sender);
        let mut draws: u64 = u64::MAX;
        while draws > 0
            invariant
                self@ == before,
                before == old(self)@,
                parts == (entities, sender),
                draws < u64::MAX ==> is_uuid(in_use) && before.contains_key(in_use),
            decreases draws,
        {
            let id = new_uuid();
            let candidate = id.clone();
            match self.subscribe_as(candidate, parts.0, parts.1) {
                Ok(()) => {
                    return Ok(id);
                },
                Err(handed_back) => {
                    parts = handed_back;
                    draws = draws - 1;
                    proof {
                        in_use = id@;
                    }
                },
            }
        }
        Err(parts)
    }

    /// Ends a subscription.
    pub fn unsubscribe(&mut self, id: &String)
        ensures
            final(self)@ == old(self)@.remove(id@),
    {
        self.subscriptions.remove(id);
    }
}

impl<S: Clone> Store<S> {
    fn pick(&self, change: Option<&EntityChange>) -> (list: Vec<(String, S)>)
        ensures
            lists_subscriptions(
                list@,
                self@,
                match change {
                    Some(change) => Some(*change),
                    None => None,
                },
            ),
    {
        let ghost wanted = match change {
            Some(change) => Some(*change),
            None => None,
        };
        let pairs = self.subscriptions.pairs();
        let ghost views = pair_views(pairs@);
        proof {
            lemma_assoc_distinct(views);
        }
        let mut list: Vec<(String, S)> = Vec::new();
        for i in 0..pairs.len()
            invariant
                views == pair_views(pairs@),
                self@ == assoc_map(views),
                distinct_keys(views),
                wanted == (match change {
                    Some(change) => Some(*change),
                    None => None,
                }),
                forall|k: int|
                    0 <= k < views.len() ==> assoc_map(views)[(#[trigger] views[k]).0]
                        == views[k].1,
                forall|id: Seq<char>| #[trigger]
                    assoc_map(views).contains_key(id) <==> exists|k: int|
                        0 <= k < views.len() && (#[trigger] views[k]).0 == id,
                forall|k: int, l: int|
                    0 <= k < l < list@.len() ==> (#[trigger] list@[k]).0@ != (
                    #[trigger] list@[l]).0@,
                forall|k: int|
                    0 <= k < list@.len() ==> {
                        &&& self@.contains_key((#[trigger] list@[k]).0@)
                        &&& is_picked(self@[list@[k].0@], wanted)
                        &&& cloned(self@[list@[k].0@].sender, list@[k].1)
                        &&& exists|l: int| 0 <= l < i && (#[trigger] views[l]).0 == list@[k].0@
                    },
                forall|l: int|
                    0 <= l < i && is_picked((#[trigger] views[l]).1, wanted) ==> exists|k: int|
                        0 <= k < list@.len() && (#[trigger] list@[k]).0@ == views[l].0,
        {
            let ghost before = list@;
            assert(views[i as int] == (pairs@[i as int].0@, pairs@[i as int].1@));
            let picked = match change {
                Some(change) => pairs[i].1.covers(change),
                None => true,
            };
            if picked {
                assert(self@.contains_key(views[i as int].0));
                list.push((pairs[i].0.clone(), pairs[i].1.sender.clone()));
                proof {
                    assert(list@[before.len() as int].0@ == views[i as int].0);
                    assert forall|k: int| 0 <= k < before.len() implies (#[trigger] list@[k]).0@
                        != views[i as int].0 by {
                        let l = choose|l: int| 0 <= l < i && (#[trigger] views[l]).0 == list@[k].0@;
                        assert(views[l].0 != views[i as int].0);
                    }
                    assert forall|l: int|
                        0 <= l < i && is_picked((#[trigger] views[l]).1, wanted) implies exists|
                        k: int,
                    |
                        0 <= k < list@.len() && (#[trigger] list@[k]).0@ == views[l].0 by {
                        let k = choose|k: int|
                            0 <= k < before.len() && (#[trigger] before[k]).0@ == views[l].0;
                        assert(list@[k] == before[k]);
                    }
                }
            }
        }
        assert forall|id: Seq<char>| #[trigger]
            self@.contains_key(id) && is_picked(self@[id], wanted) implies exists|k: int|
            0 <= k < list@.len() && (#[trigger] list@[k]).0@ == id by {
            let l = choose|l: int| 0 <= l < views.len() && (#[trigger] views[l]).0 == id;
            assert(is_picked(views[l].1, wanted));
        }
        list
    }

    /// Handles an entity change: it is to be written to all matching subscription streams, which
    /// `advance` goes through.
    pub fn handle_entity_changes(&self, change: EntityChange) -> (delivery: Delivery<S>)
        ensures
            delivery.change() == change,
            delivery.current() is None,
            lists_subscriptions(delivery.pending(), self@, Some(change)),
    {
        let pending = self.pick(Some(&change));
        Delivery { change, pending, current: None }
    }

    /// Obtains the IDs and senders of all subscriptions.
    pub fn senders(&self) -> (all: Vec<(String, S)>)
        ensures
            lists_subscriptions(all@, self@, None),
    {
        self.pick(None)
    }
}

impl<S> Store<S> {
    /// Goes on with a delivery, given how the write in progress, if there is one, went. A
    /// subscription whose receiving end has been dropped is removed. Returns the ID and the sender
    /// to write to next and the change, or `None` once all matching subscriptions have had their
    /// turn.
    pub fn advance(&mut self, delivery: &mut Delivery<S>, outcome: Result<(), ()>) -> (action:
        Option<(String, S, EntityChange)>)
        ensures
            final(self)@ == settled(old(self)@, old(delivery).current(), outcome),
            advances(*old(delivery), *final(delivery), action),
    {
        if outcome.is_err() {
            if let Some(id) = &delivery.current {
                self.unsubscribe(id);
            }
        }
        match delivery.pending.pop() {
            Some((id, sender)) => {
                delivery.current = Some(id.clone());
                Some((id, sender, delivery.change.clone()))
            },
            None => {
                delivery.current = None;
                None
            },
        }
    }

    /// Removes the stale subscriptions, given for each ID that was polled whether its receiving
    /// end has gone.
    pub fn periodically_clean_up_stale_subscriptions(&mut self, polled: &Vec<(String, bool)>)
        ensures
            final(self)@ == old(self)@.remove_keys(stale_ids(polled@)),
    {
        let ghost before = self@;
        assert(before.remove_keys(stale_ids(polled@.take(0))) =~= before);
        for i in 0..polled.len()
            invariant
                self@ == before.remove_keys(stale_ids(polled@.take(i as int))),
        {
            let ghost seen = polled@.take(i as int);
            let ghost next = polled@.take(i + 1);
            proof {
                assert(next =~= seen.push(polled@[i as int]));
                lemma_stale_ids_push(seen, polled@[i as int]);
            }
            if polled[i].1 {
                self.unsubscribe(&polled[i].0);
                assert(self@ =~= before.remove_keys(stale_ids(next)));
            }
        }
        assert(polled@.take(polled@.len() as int) =~= polled@);
    }
}

/// An update of an entity that waits to learn what the store holds under its key.
pub struct PendingSet {
    key: StoreKey,
    input_entity: Entity,
    event_source: EventSource,
}

impl PendingSet {
    /// The key of the entity.
    pub closed spec fn key(self) -> StoreKey {
        self.key
    }

    /// The update.
    pub closed spec fn update(self) -> Map<Seq<char>, Json> {
        self.input_entity@
    }

    /// Where the update comes from.
    pub closed spec fn event_source(self) -> EventSource {
        self.event_source
    }

    /// The statement that looks the existing entity up.
    pub fn lookup(&self) -> (statement: Statement)
        ensures
            statement == Statement::Lookup(self.key()),
    {
        Statement::Lookup(self.key.clone())
    }

    /// The statement that writes the update, merged into the existing entity if one was found.
    pub fn write(self, found: Result<Entity, ()>) -> (statement: Statement)
        ensures
            statement matches Statement::Upsert(row) && writes_update(
                row,
                self.key()@,
                match found {
                    Ok(entity) => Some(entity@),
                    Err(()) => None,
                },
                self.update(),
                self.event_source().text(),
            ),
    {
        // Update the existing entity, if necessary
        let updated_entity = match found {
            Ok(existing_entity) => {
                let mut existing_entity = existing_entity;
                existing_entity.merge(self.input_entity);
                existing_entity
            },
            Err(_) => self.input_entity,
        };

        // Insert entity, perform an update in case of a primary key conflict
        Statement::Upsert(
            EntityRow {
                id: self.key.id,
                entity: self.key.entity,
                subgraph: self.key.subgraph,
                data: updated_entity.to_json(),
                event_source: self.event_source.to_string(),
            },
        )
    }
}

/// A count as the database takes it: one beyond the largest number that it knows, which is beyond
/// any count of rows too, becomes that number.
pub open spec fn as_bigint(number: usize) -> int {
    if number <= i64::MAX {
        number as int
    } else {
        i64::MAX as int
    }
}

fn to_bigint(number: usize) -> (bigint: i64)
    ensures
        bigint == as_bigint(number),
{
    if number as u64 <= 0x7fff_ffff_ffff_ffff {
        number as i64
    } else {
        i64::MAX
    }
}

/// The direction that a query orders in: ascending, unless it says otherwise.
pub open spec fn direction_of(direction: Option<StoreOrder>) -> Seq<char> {
    match direction {
        Some(StoreOrder::Descending) => " DESC "@,
        _ => " ASC "@,
    }
}

/// The selection asks for what the query asks for.
pub open spec fn selects(select: EntitySelect, query: StoreQuery) -> bool {
    &&& select.entity == query.entity
    &&& select.subgraph == query.subgraph
    &&& select.filter == query.filter
    &&& match query.order_by {
        Some(attribute) => {
            &&& select.order is Some
            &&& select.order->0.expression@ == "data ->> "@
            &&& select.order->0.attribute == attribute
            &&& select.order->0.direction@ == direction_of(query.order_direction)
        },
        None => select.order is None,
    }
    &&& match query.range {
        Some(range) => {
            &&& select.limit is Some && select.limit->0 == as_bigint(range.first)
            &&& select.offset is Some && select.offset->0 == as_bigint(range.skip)
        },
        None => select.limit is None && select.offset is None,
    }
}

impl<S> Store<S> {
    /// The statement that looks an entity up by its key.
    pub fn get(&self, key: StoreKey) -> (statement: Statement)
        ensures
            statement == Statement::Lookup(key),
    {
        Statement::Lookup(key)
    }

    /// The entity that a lookup found, given the data that the database replied with.
    pub fn found(&self, reply: Result<JsonValue, ()>) -> (result: Result<Entity, ()>)
        requires
            reply matches Ok(data) ==> data@ is Object,
        ensures
            match result {
                Ok(entity) => reply matches Ok(data) && entity_of(data@) == Some(entity@),
                Err(()) => reply is Err,
            },
    {
        match reply {
            Ok(data) => match Entity::from_json(&data) {
                Some(entity) => Ok(entity),
                None => Err(()),
            },
            Err(()) => Err(()),
        }
    }

    /// Starts to update an entity.
    pub fn set(
        &self,
        key: StoreKey,
        input_entity: Entity,
        input_event_source: EventSource,
    ) -> (pending: PendingSet)
        ensures
            pending.key() == key,
            pending.update() == input_entity@,
            pending.event_source() == input_event_source,
    {
        PendingSet { key, input_entity, event_source: input_event_source }
    }

    /// The statements that delete an entity, to be run in one transaction: the first one makes the
    /// source of the event known to the session.
    pub fn delete(&self, key: StoreKey, input_event_source: EventSource) -> (statements: Vec<
        Statement,
    >)
        ensures
            statements@.len() == 2,
            statements@[0] matches Statement::SetConfig { name, value, is_local } && name@
                == "vars.current_event_source"@ && value@ == input_event_source.text()
                && !is_local,
            statements@[1] == Statement::Delete(key),
    {
        let mut statements: Vec<Statement> = Vec::new();
        statements.push(
            Statement::SetConfig {
                name: "vars.current_event_source".to_owned(),
                value: input_event_source.to_string(),
                is_local: false,
            },
        );
        statements.push(Statement::Delete(key));
        statements
    }

    /// What the caller learns of an update or a deletion: whether the database carried it out, not
    /// how many rows it met.
    pub fn executed(&self, reply: Result<usize, ()>) -> (result: Result<(), ()>)
        ensures
            result is Ok <==> reply is Ok,
    {
        match reply {
            Ok(_) => Ok(()),
            Err(()) => Err(()),
        }
    }

    /// The statement that selects the entities that match a query.
    pub fn find(&self, query: StoreQuery) -> (statement: Statement)
        ensures
            statement matches Statement::Select(select) && selects(select, query),
    {
        // Add order by filters to query
        let order = match query.order_by {
            Some(attribute) => {
                let direction = match query.order_direction {
                    Some(StoreOrder::Descending) => " DESC ",
                    Some(StoreOrder::Ascending) => " ASC ",
                    None => " ASC ",
                };
                Some(
                    OrderClause {
                        expression: "data ->> ".to_owned(),
                        attribute,
                        direction: direction.to_owned(),
                    },
                )
            },
            None => None,
        };

        // Add range filter to query
        let (limit, offset) = match query.range {
            Some(range) => (Some(to_bigint(range.first)), Some(to_bigint(range.skip))),
            None => (None, None),
        };

        Statement::Select(
            EntitySelect {
                entity: query.entity,
                subgraph: query.subgraph,
                filter: query.filter,
                order,
                limit,
                offset,
            },
        )
    }

    /// The entities that a selection found, given the data that the database replied with, in its
    /// order. A filter that a value does not support counts as a failure of the database.
    pub fn all_found(&self, reply: Result<Vec<JsonValue>, ()>) -> (result: Result<Vec<Entity>, ()>)
        requires
            reply matches Ok(rows) ==> forall|i: int|
                0 <= i < rows@.len() ==> (#[trigger] rows@[i])@ is Object,
        ensures
            match result {
                Ok(entities) => reply matches Ok(rows) && entities@.len() == rows@.len() && forall|
                    i: int,
                |
                    0 <= i < rows@.len() ==> entity_of(rows@[i]@) == Some(
                        (#[trigger] entities@[i])@,
                    ),
                Err(()) => reply is Err,
            },
    {
        match reply {
            Ok(rows) => {
                let mut entities: Vec<Entity> = Vec::new();
                for i in 0..rows.len()
                    invariant
                        forall|k: int| 0 <= k < rows@.len() ==> (#[trigger] rows@[k])@ is Object,
                        entities@.len() == i,
                        forall|k: int|
                            0 <= k < i ==> entity_of(rows@[k]@) == Some((#[trigger] entities@[k])@),
                {
                    assert(rows@[i as int]@ is Object);
                    match Entity::from_json(&rows[i]) {
                        Some(entity) => entities.push(entity),
                        None => {
                            return Err(());
                        },
                    }
                }
                Ok(entities)
            },
            Err(()) => Err(()),
        }
    }

    /// Handles block reorganizations: the statement that reverts all store events related to the
    /// given block.
    pub fn revert_events(&self, block_hash: String) -> (statement: Statement)
        ensures
            statement == Statement::RevertBlock(block_hash),
    {
        Statement::RevertBlock(block_hash)
    }
}

/// A selection asks for what the query says: the rows of its entity type and subgraph that pass its
/// filter, ordered by the attribute that it names in the data, descending only if it says so, and
/// of these as many as it wants after those that it skips.
pub proof fn law_selections_say_what_queries_say(select: EntitySelect, query: StoreQuery)
    requires
        selects(select, query),
    ensures
        select.entity@ == query.entity@,
        select.subgraph@ == query.subgraph@,
        select.filter == query.filter,
        select.order is Some <==> query.order_by is Some,
        query.order_by is Some ==> {
            &&& select.order->0.expression@ == "data ->> "@
            &&& select.order->0.attribute@ == query.order_by->0@
            &&& query.order_direction == Some(StoreOrder::Descending)
                ==> select.order->0.direction@ == " DESC "@
            &&& query.order_direction == Some(StoreOrder::Ascending)
                ==> select.order->0.direction@ == " ASC "@
            &&& query.order_direction is None ==> select.order->0.direction@ == " ASC "@
        },
        select.limit is Some <==> query.range is Some,
        select.offset is Some <==> query.range is Some,
        query.range is Some ==> {
            &&& query.range->0.first <= i64::MAX ==> select.limit->0 == query.range->0.first
            &&& query.range->0.first > i64::MAX ==> select.limit->0 == i64::MAX
            &&& query.range->0.skip <= i64::MAX ==> select.offset->0 == query.range->0.skip
            &&& query.range->0.skip > i64::MAX ==> select.offset->0 == i64::MAX
        },
{
}

/// The log has the text of the output of the migrations, if there is any, and says so where it is
/// no text.
pub proof fn law_migration_output_is_logged(output: Seq<u8>)
    ensures
        migration_text(output) is None <==> output.len() == 0,
        output.len() > 0 && valid_utf8(output) ==> migration_text(output) == Some(
            decode_utf8(output),
        ),
        output.len() > 0 && !valid_utf8(output) ==> migration_text(output) == Some(
            "<unreadable>"@,
        ),
{
}

/// An ID is a UUID in its usual form: groups of lower case hexadecimal digits with hyphens between
/// them, of version 4 and of the usual variant.
pub proof fn law_ids_have_the_form_of_uuids(id: Seq<char>, i: int)
    requires
        is_uuid(id),
    ensures
        id.len() == 36,
        id[8] == '-' && id[13] == '-' && id[18] == '-' && id[23] == '-',
        0 <= i < 36 && i != 8 && i != 13 && i != 18 && i != 23 ==> ('0' <= id[i] <= '9' || 'a'
            <= id[i] <= 'f'),
        id[14] == '4',
        id[19] == '8' || id[19] == '9' || id[19] == 'a' || id[19] == 'b',
{
}

/// A query that names no direction is one for ascending order, and where no attribute to order by
/// is named, the direction does not matter.
pub proof fn law_default_order(select: EntitySelect, query: StoreQuery, other: StoreQuery)
    requires
        other.entity == query.entity,
        other.subgraph == query.subgraph,
        other.filter == query.filter,
        other.order_by == query.order_by,
        other.range == query.range,
        query.order_by is None || (query.order_direction is None && other.order_direction == Some(
            StoreOrder::Ascending,
        )),
    ensures
        selects(select, query) == selects(select, other),
{
}

/// Ending a subscription that was just made leaves the subscriptions as they were.
pub proof fn law_unsubscribe_undoes_subscribe<S>(
    before: Map<Seq<char>, SubscriptionView<S>>,
    id: Seq<char>,
    subscription: SubscriptionView<S>,
)
    requires
        !before.contains_key(id),
    ensures
        before.insert(id, subscription).remove(id) == before,
{
    assert(before.insert(id, subscription).remove(id) =~= before);
}

/// A subscriber is told of a change exactly if the subscription names the subgraph and the entity
/// type of the change.
pub proof fn law_subscribers_are_told<S: Clone>(
    matches: Seq<(String, S)>,
    subscriptions: Map<Seq<char>, SubscriptionView<S>>,
    change: EntityChange,
    id: Seq<char>,
)
    requires
        lists_subscriptions(matches, subscriptions, Some(change)),
    ensures
        (exists|i: int| 0 <= i < matches.len() && (#[trigger] matches[i]).0@ == id) <==> {
            &&& subscriptions.contains_key(id)
            &&& subscriptions[id].entities.contains((change.subgraph@, change.entity@))
        },
        forall|i: int, j: int|
            0 <= i < j < matches.len() && (#[trigger] matches[i]).0@ == id ==> (
            #[trigger] matches[j]).0@ != id,
        forall|i: int|
            0 <= i < matches.len() && (#[trigger] matches[i]).0@ == id ==> cloned(
                subscriptions[id].sender,
                matches[i].1,
            ),
{
    if subscriptions.contains_key(id) && subscriptions[id].covers(change) {
        assert(is_picked(subscriptions[id], Some(change)));
    }
}

/// Whatever entities are handed to `subscribe`, a change is then for the subscriber exactly if one
/// of these, at whatever place, is the subgraph and the entity type of the change. It is then for
/// the sender that was handed over, once.
pub proof fn law_every_entity_subscribed_to_counts<S: Clone>(
    before: Map<Seq<char>, SubscriptionView<S>>,
    id: Seq<char>,
    entities: Vec<SubgraphEntityPair>,
    sender: S,
    matches: Seq<(String, S)>,
    change: EntityChange,
)
    requires
        !before.contains_key(id),
        lists_subscriptions(
            matches,
            before.insert(id, SubscriptionView { entities: entity_views(entities@), sender }),
            Some(change),
        ),
    ensures
        (exists|k: int| 0 <= k < matches.len() && (#[trigger] matches[k]).0@ == id) <==> exists|
            i: int,
        |
            0 <= i < entities@.len() && (#[trigger] entities@[i]).0@ == change.subgraph@
                && entities@[i].1@ == change.entity@,
        forall|k: int|
            0 <= k < matches.len() && (#[trigger] matches[k]).0@ == id ==> cloned(
                sender,
                matches[k].1,
            ),
        forall|k: int, l: int|
            0 <= k < l < matches.len() && (#[trigger] matches[k]).0@ == id ==> (
            #[trigger] matches[l]).0@ != id,
{
    let views = entity_views(entities@);
    let after = before.insert(id, SubscriptionView { entities: views, sender });
    law_subscribers_are_told(matches, after, change, id);
    law_entity_views_are_complete(entities@);
    let wanted = (change.subgraph@, change.entity@);
    if views.contains(wanted) {
        let i = choose|i: int| 0 <= i < views.len() && views[i] == wanted;
        assert(entities@[i].0@ == change.subgraph@ && entities@[i].1@ == change.entity@);
    }
    if exists|i: int|
        0 <= i < entities@.len() && (#[trigger] entities@[i]).0@ == change.subgraph@
            && entities@[i].1@ == change.entity@ {
        let i = choose|i: int|
            0 <= i < entities@.len() && (#[trigger] entities@[i]).0@ == change.subgraph@
                && entities@[i].1@ == change.entity@;
        assert(views[i] == wanted);
    }
}

/// All subscriptions are listed, each once, by its ID and a clone of its sender, and nothing else.
pub proof fn law_all_senders_are_listed<S: Clone>(
    all: Seq<(String, S)>,
    subscriptions: Map<Seq<char>, SubscriptionView<S>>,
    id: Seq<char>,
)
    requires
        lists_subscriptions(all, subscriptions, None),
    ensures
        (exists|i: int| 0 <= i < all.len() && (#[trigger] all[i]).0@ == id)
            <==> subscriptions.contains_key(id),
        forall|i: int, j: int|
            0 <= i < j < all.len() ==> (#[trigger] all[i]).0@ != (#[trigger] all[j]).0@,
        forall|i: int|
            0 <= i < all.len() && (#[trigger] all[i]).0@ == id ==> cloned(
                subscriptions[id].sender,
                all[i].1,
            ),
{
    if subscriptions.contains_key(id) {
        assert(is_picked(subscriptions[id], None));
    }
}

/// A failed write ends the subscription that was written to, and no other one; a write that was
/// carried out ends none.
pub proof fn law_only_failed_writes_unsubscribe<S>(
    subscriptions: Map<Seq<char>, SubscriptionView<S>>,
    current: String,
    other: Seq<char>,
)
    ensures
        settled(subscriptions, Some(current), Ok(())) == subscriptions,
        settled(subscriptions, None, Ok(())) == subscriptions,
        settled(subscriptions, None, Err(())) == subscriptions,
        !settled(subscriptions, Some(current), Err(())).contains_key(current@),
        other != current@ ==> {
            &&& settled(subscriptions, Some(current), Err(())).contains_key(other)
                <==> subscriptions.contains_key(other)
            &&& subscriptions.contains_key(other) ==> settled(
                subscriptions,
                Some(current),
                Err(()),
            )[other] == subscriptions[other]
        },
{
}

/// After a step that has handed out a sender, a failure to write to it ends the subscription of
/// that sender and no other one, and success ends none. After the last step nothing ends any.
pub proof fn law_a_failure_ends_the_subscription_written_to<S>(
    before: Delivery<S>,
    after: Delivery<S>,
    action: Option<(String, S, EntityChange)>,
    subscriptions: Map<Seq<char>, SubscriptionView<S>>,
    outcome: Result<(), ()>,
    other: Seq<char>,
)
    requires
        advances(before, after, action),
    ensures
        outcome is Ok || action is None ==> settled(subscriptions, after.current(), outcome)
            == subscriptions,
        outcome is Err && action is Some ==> {
            &&& !settled(subscriptions, after.current(), outcome).contains_key((action->0).0@)
            &&& other != (action->0).0@ ==> {
                &&& settled(subscriptions, after.current(), outcome).contains_key(other)
                    <==> subscriptions.contains_key(other)
                &&& subscriptions.contains_key(other) ==> settled(
                    subscriptions,
                    after.current(),
                    outcome,
                )[other] == subscriptions[other]
            }
        },
{
}

/// Of the subscriptions exactly those stay, as they were, that no poll has found stale.
pub proof fn law_only_stale_subscriptions_go<S>(
    subscriptions: Map<Seq<char>, SubscriptionView<S>>,
    polled: Seq<(String, bool)>,
    id: Seq<char>,
)
    ensures
        subscriptions.remove_keys(stale_ids(polled)).contains_key(id) <==> {
            &&& subscriptions.contains_key(id)
            &&& forall|i: int|
                0 <= i < polled.len() && (#[trigger] polled[i]).0@ == id ==> !polled[i].1
        },
        subscriptions.remove_keys(stale_ids(polled)).contains_key(id)
            ==> subscriptions.remove_keys(stale_ids(polled))[id] == subscriptions[id],
{
}

/// The subscriptions after the change has been written to some of them, one after the other, each
/// by its ID and whether the write failed.
pub open spec fn after_writes<S>(
    subscriptions: Map<Seq<char>, SubscriptionView<S>>,
    writes: Seq<(String, bool)>,
) -> Map<Seq<char>, SubscriptionView<S>>
    decreases writes.len(),
{
    if writes.len() == 0 {
        subscriptions
    } else {
        settled(
            after_writes(subscriptions, writes.drop_last()),
            Some(writes.last().0),
            if writes.last().1 {
                Err(())
            } else {
                Ok(())
            },
        )
    }
}

/// However the writes of a delivery go, exactly the subscriptions whose write failed are gone in
/// the end.
pub proof fn law_failed_writes_unsubscribe<S>(
    subscriptions: Map<Seq<char>, SubscriptionView<S>>,
    writes: Seq<(String, bool)>,
)
    ensures
        after_writes(subscriptions, writes) == subscriptions.remove_keys(stale_ids(writes)),
        forall|id: Seq<char>| #[trigger]
            after_writes(subscriptions, writes).contains_key(id) <==> {
                &&& subscriptions.contains_key(id)
                &&& forall|i: int|
                    0 <= i < writes.len() && (#[trigger] writes[i]).0@ == id ==> !writes[i].1
            },
    decreases writes.len(),
{
    if writes.len() == 0 {
        assert(subscriptions.remove_keys(stale_ids(writes)) =~= subscriptions);
    } else {
        let rest = writes.drop_last();
        law_failed_writes_unsubscribe(subscriptions, rest);
        lemma_stale_ids_push(rest, writes.last());
        assert(rest.push(writes.last()) =~= writes);
        assert(after_writes(subscriptions, writes) =~= subscriptions.remove_keys(
            stale_ids(writes),
        ));
    }
}

/// A new subscriber is told of exactly the changes that were subscribed to.
pub proof fn law_new_subscribers_are_told<S: Clone>(
    before: Map<Seq<char>, SubscriptionView<S>>,
    id: Seq<char>,
    subscription: SubscriptionView<S>,
    matches: Seq<(String, S)>,
    change: EntityChange,
)
    requires
        !before.contains_key(id),
        lists_subscriptions(matches, before.insert(id, subscription), Some(change)),
    ensures
        (exists|i: int| 0 <= i < matches.len() && (#[trigger] matches[i]).0@ == id)
            <==> subscription.entities.contains((change.subgraph@, change.entity@)),
        forall|i: int|
            0 <= i < matches.len() && (#[trigger] matches[i]).0@ == id ==> cloned(
                subscription.sender,
                matches[i].1,
            ),
{
    law_subscribers_are_told(matches, before.insert(id, subscription), change, id);
}

/// A clean-up that polls all subscriptions leaves exactly those whose receiving end is there, as
/// they were.
pub proof fn law_clean_up_keeps_live_subscriptions<S: Clone>(
    subscriptions: Map<Seq<char>, SubscriptionView<S>>,
    all: Seq<(String, S)>,
    polled: Seq<(String, bool)>,
)
    requires
        lists_subscriptions(all, subscriptions, None),
        polled.len() == all.len(),
        forall|i: int| 0 <= i < all.len() ==> (#[trigger] polled[i]).0@ == all[i].0@,
    ensures
        forall|i: int|
            0 <= i < all.len() ==> (subscriptions.remove_keys(stale_ids(polled)).contains_key(
                (#[trigger] all[i]).0@,
            ) <==> !polled[i].1),
        subscriptions.remove_keys(stale_ids(polled)).submap_of(subscriptions),
{
    let left = subscriptions.remove_keys(stale_ids(polled));
    assert forall|i: int| 0 <= i < all.len() implies (left.contains_key((#[trigger] all[i]).0@)
        <==> !polled[i].1) by {
        let id = all[i].0@;
        assert(polled[i].0@ == id);
        if stale_ids(polled).contains(id) {
            let k = choose|k: int|
                0 <= k < polled.len() && (#[trigger] polled[k]).1 && polled[k].0@ == id;
            assert(all[k].0@ == id);
            assert(k == i);
        }
    }
}

} // verus!
