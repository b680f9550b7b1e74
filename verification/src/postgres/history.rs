//! What subscribers receive in the course of many entity changes.
use vstd::prelude::*;

use crate::postgres::store::{
    advances, law_every_entity_subscribed_to_counts, law_subscribers_are_told, lists_subscriptions,
    Delivery,
};
use crate::postgres::subscription::{
    entity_views, law_any_pair_covers, Subscription, SubscriptionView,
};
use crate::store::{EntityChange, SubgraphEntityPair};

verus! {

/// A delivery that is advanced to its end, by the deliveries before and after each step and the
/// actions in between.
pub open spec fn runs_to_end<S>(
    trace: Seq<Delivery<S>>,
    actions: Seq<Option<(String, S, EntityChange)>>,
) -> bool {
    &&& trace.len() == actions.len() + 1
    &&& actions.len() > 0
    &&& forall|k: int|
        0 <= k < actions.len() ==> advances(trace[k], trace[k + 1], #[trigger] actions[k])
    &&& actions.last() is None
    &&& forall|k: int| 0 <= k < actions.len() - 1 ==> (#[trigger] actions[k]) is Some
}

/// What follows the first step of a delivery runs to the same end.
proof fn lemma_rest_runs_to_end<S>(
    trace: Seq<Delivery<S>>,
    actions: Seq<Option<(String, S, EntityChange)>>,
)
    requires
        runs_to_end(trace, actions),
        actions.len() > 1,
    ensures
        runs_to_end(trace.drop_first(), actions.drop_first()),
{
    let later = trace.drop_first();
    let rest = actions.drop_first();
    assert forall|k: int| 0 <= k < rest.len() implies advances(
        later[k],
        later[k + 1],
        #[trigger] rest[k],
    ) by {
        assert(rest[k] == actions[k + 1]);
    }
    assert forall|k: int| 0 <= k < rest.len() - 1 implies (#[trigger] rest[k]) is Some by {
        assert(rest[k] == actions[k + 1]);
    }
}

/// A delivery that runs to its end hands out the change once for each subscription that was
/// pending, with the sender of that subscription, however the writes on the way have gone.
pub proof fn law_every_match_has_its_turn<S>(
    trace: Seq<Delivery<S>>,
    actions: Seq<Option<(String, S, EntityChange)>>,
)
    requires
        runs_to_end(trace, actions),
    ensures
        actions.len() == trace[0].pending().len() + 1,
        forall|i: int|
            0 <= i < trace[0].pending().len() ==> actions[trace[0].pending().len() - 1 - i] == Some(
                (
                    (#[trigger] trace[0].pending()[i]).0,
                    trace[0].pending()[i].1,
                    trace[0].change(),
                ),
            ),
    decreases actions.len(),
{
    assert(advances(trace[0], trace[1], actions[0]));
    if actions.len() > 1 {
        let later = trace.drop_first();
        let rest = actions.drop_first();
        lemma_rest_runs_to_end(trace, actions);
        law_every_match_has_its_turn(later, rest);
        let pending = trace[0].pending();
        assert forall|i: int| 0 <= i < pending.len() implies actions[pending.len() - 1 - i] == Some(
            ((#[trigger] pending[i]).0, pending[i].1, trace[0].change()),
        ) by {
            if i < pending.len() - 1 {
                assert(later[0].pending()[i] == pending[i]);
                assert(rest[pending.len() - 2 - i] == actions[pending.len() - 1 - i]);
            }
        }
    }
}

/// The changes that the actions of a delivery write to the subscription with an ID.
pub open spec fn written<S>(
    actions: Seq<Option<(String, S, EntityChange)>>,
    id: Seq<char>,
) -> Seq<EntityChange>
    decreases actions.len(),
{
    if actions.len() == 0 {
        Seq::empty()
    } else {
        match actions.first() {
            Some((to, sender, change)) if to@ == id => seq![change] + written(
                actions.drop_first(),
                id,
            ),
            _ => written(actions.drop_first(), id),
        }
    }
}

/// A delivery writes the change once to a subscription that is pending, and nothing to others.
proof fn lemma_written_once<S>(
    trace: Seq<Delivery<S>>,
    actions: Seq<Option<(String, S, EntityChange)>>,
    id: Seq<char>,
)
    requires
        runs_to_end(trace, actions),
        forall|i: int, j: int|
            0 <= i < j < trace[0].pending().len() ==> (#[trigger] trace[0].pending()[i]).0@ != (
            #[trigger] trace[0].pending()[j]).0@,
    ensures
        written(actions, id) == (if exists|i: int|
            0 <= i < trace[0].pending().len() && (#[trigger] trace[0].pending()[i]).0@ == id {
            seq![trace[0].change()]
        } else {
            Seq::empty()
        }),
    decreases actions.len(),
{
    let pending = trace[0].pending();
    assert(advances(trace[0], trace[1], actions[0]));
    if actions.len() == 1 {
        assert(actions.first() == actions.last());
        assert(written(actions.drop_first(), id) =~= Seq::empty());
    } else {
        let later = trace.drop_first();
        let rest = actions.drop_first();
        let shorter = later[0].pending();
        lemma_rest_runs_to_end(trace, actions);
        assert(shorter == pending.drop_last());
        assert forall|i: int, j: int| 0 <= i < j < shorter.len() implies (
        #[trigger] shorter[i]).0@ != (#[trigger] shorter[j]).0@ by {
            assert(pending[i].0@ != pending[j].0@);
        }
        lemma_written_once(later, rest, id);
        assert(actions.first() == actions[0]);
        if pending.last().0@ == id {
            assert forall|i: int| 0 <= i < shorter.len() implies (#[trigger] shorter[i]).0@
                != id by {
                assert(pending[i].0@ != pending[pending.len() - 1].0@);
            }
            assert(pending[pending.len() - 1].0@ == id);
            assert(written(rest, id) =~= Seq::empty());
            assert(written(actions, id) =~= seq![trace[0].change()]);
        } else {
            assert(written(actions, id) == written(rest, id));
            if exists|i: int| 0 <= i < shorter.len() && (#[trigger] shorter[i]).0@ == id {
                let i = choose|i: int| 0 <= i < shorter.len() && (#[trigger] shorter[i]).0@ == id;
                assert(pending[i].0@ == id);
            }
            if exists|i: int| 0 <= i < pending.len() && (#[trigger] pending[i]).0@ == id {
                let i = choose|i: int| 0 <= i < pending.len() && (#[trigger] pending[i]).0@ == id;
                assert(shorter[i].0@ == id);
            }
        }
    }
}

/// A change that has been handled: the subscriptions at that time, and the delivery to its end.
pub struct HandledChange<S> {
    pub subscriptions: Map<Seq<char>, SubscriptionView<S>>,
    pub trace: Seq<Delivery<S>>,
    pub actions: Seq<Option<(String, S, EntityChange)>>,
}

impl<S> HandledChange<S> {
    /// The change.
    pub open spec fn change(self) -> EntityChange {
        self.trace[0].change()
    }
}

impl<S: Clone> HandledChange<S> {
    /// The change was delivered as `handle_entity_changes` and `advance` do it.
    pub open spec fn is_delivered(self) -> bool {
        &&& runs_to_end(self.trace, self.actions)
        &&& lists_subscriptions(
            self.trace[0].pending(),
            self.subscriptions,
            Some(self.trace[0].change()),
        )
    }
}

/// The changes of a history, in their order.
pub open spec fn changes<S>(history: Seq<HandledChange<S>>) -> Seq<EntityChange> {
    Seq::new(history.len(), |i: int| history[i].change())
}

/// What has been written to the subscription with an ID in the course of a history.
pub open spec fn received<S>(history: Seq<HandledChange<S>>, id: Seq<char>) -> Seq<EntityChange>
    decreases history.len(),
{
    if history.len() == 0 {
        Seq::empty()
    } else {
        received(history.drop_last(), id) + written(history.last().actions, id)
    }
}

/// All that is written is the change, and it goes to senders of the subscriptions at that time.
pub proof fn law_writes_go_to_subscribers<S: Clone>(handled: HandledChange<S>, k: int)
    requires
        handled.is_delivered(),
        0 <= k < handled.actions.len(),
    ensures
        handled.actions[k] matches Some((id, sender, change)) ==> {
            &&& change == handled.change()
            &&& handled.subscriptions.contains_key(id@)
            &&& cloned(handled.subscriptions[id@].sender, sender)
        },
{
    law_every_match_has_its_turn(handled.trace, handled.actions);
    let pending = handled.trace[0].pending();
    if k < pending.len() {
        let i = pending.len() - 1 - k;
        assert(handled.actions[pending.len() - 1 - i] == Some(
            (pending[i].0, pending[i].1, handled.change()),
        ));
    }
}

/// One handled change is written once to a subscription that covers it, and else not at all.
proof fn lemma_received_of_one<S: Clone>(handled: HandledChange<S>, id: Seq<char>)
    requires
        handled.is_delivered(),
    ensures
        written(handled.actions, id) == (if handled.subscriptions.contains_key(id)
            && handled.subscriptions[id].covers(handled.change()) {
            seq![handled.change()]
        } else {
            Seq::empty()
        }),
{
    lemma_written_once(handled.trace, handled.actions, id);
    law_subscribers_are_told(
        handled.trace[0].pending(),
        handled.subscriptions,
        handled.change(),
        id,
    );
}

/// A subscription that is registered throughout is handed exactly the changes that it covers, in
/// their order, each unaltered and once.
pub proof fn law_subscribers_get_their_changes<S: Clone>(
    history: Seq<HandledChange<S>>,
    id: Seq<char>,
    subscription: SubscriptionView<S>,
)
    requires
        forall|i: int|
            0 <= i < history.len() ==> {
                &&& (#[trigger] history[i]).is_delivered()
                &&& history[i].subscriptions.contains_key(id)
                &&& history[i].subscriptions[id] == subscription
            },
    ensures
        received(history, id) == changes(history).filter(
            |change: EntityChange|
                subscription.entities.contains((change.subgraph@, change.entity@)),
        ),
    decreases history.len(),
{
    let wanted = |change: EntityChange|
        subscription.entities.contains((change.subgraph@, change.entity@));
    reveal(Seq::filter);
    if history.len() == 0 {
        assert(changes(history).filter(wanted) =~= Seq::empty());
    } else {
        let rest = history.drop_last();
        assert forall|i: int| 0 <= i < rest.len() implies {
            &&& (#[trigger] rest[i]).is_delivered()
            &&& rest[i].subscriptions.contains_key(id)
            &&& rest[i].subscriptions[id] == subscription
        } by {
            assert(history[i].is_delivered());
        }
        law_subscribers_get_their_changes(rest, id, subscription);
        assert(history[history.len() - 1].is_delivered());
        lemma_received_of_one(history.last(), id);
        assert(changes(history).drop_last() =~= changes(rest));
        assert(received(history, id) =~= changes(history).filter(wanted));
    }
}

/// Nothing is written to an ID that is not in use.
pub proof fn law_nothing_before_subscribing<S: Clone>(
    history: Seq<HandledChange<S>>,
    id: Seq<char>,
)
    requires
        forall|i: int|
            0 <= i < history.len() ==> (#[trigger] history[i]).is_delivered()
                && !history[i].subscriptions.contains_key(id),
    ensures
        received(history, id) == Seq::<EntityChange>::empty(),
    decreases history.len(),
{
    if history.len() > 0 {
        let rest = history.drop_last();
        assert forall|i: int| 0 <= i < rest.len() implies (#[trigger] rest[i]).is_delivered()
            && !rest[i].subscriptions.contains_key(id) by {
            assert(history[i].is_delivered());
        }
        law_nothing_before_subscribing(rest, id);
        assert(history[history.len() - 1].is_delivered());
        lemma_received_of_one(history.last(), id);
        assert(received(history, id) =~= Seq::empty());
    }
}

/// What is received in two histories one after the other is received in both.
proof fn lemma_received_in_turn<S>(
    early: Seq<HandledChange<S>>,
    late: Seq<HandledChange<S>>,
    id: Seq<char>,
)
    ensures
        received(early + late, id) == received(early, id) + received(late, id),
    decreases late.len(),
{
    if late.len() == 0 {
        assert(early + late =~= early);
        assert(received(early, id) + received(late, id) =~= received(early, id));
    } else {
        lemma_received_in_turn(early, late.drop_last(), id);
        assert((early + late).drop_last() =~= early + late.drop_last());
        assert(received(early + late, id) =~= received(early, id) + received(late, id));
    }
}

/// Two subscribers, the second one of whom comes later, get their changes independently: each gets
/// all that it covers from its own start on, and nothing else.
pub proof fn law_subscribers_are_independent<S: Clone>(
    early: Seq<HandledChange<S>>,
    late: Seq<HandledChange<S>>,
    first_id: Seq<char>,
    first: SubscriptionView<S>,
    second_id: Seq<char>,
    second: SubscriptionView<S>,
)
    requires
        forall|i: int|
            0 <= i < early.len() ==> {
                &&& (#[trigger] early[i]).is_delivered()
                &&& early[i].subscriptions.contains_key(first_id)
                &&& early[i].subscriptions[first_id] == first
                &&& !early[i].subscriptions.contains_key(second_id)
            },
        forall|i: int|
            0 <= i < late.len() ==> {
                &&& (#[trigger] late[i]).is_delivered()
                &&& late[i].subscriptions.contains_key(first_id)
                &&& late[i].subscriptions[first_id] == first
                &&& late[i].subscriptions.contains_key(second_id)
                &&& late[i].subscriptions[second_id] == second
            },
    ensures
        received(early + late, first_id) == changes(early + late).filter(
            |change: EntityChange| first.entities.contains((change.subgraph@, change.entity@)),
        ),
        received(early + late, second_id) == changes(late).filter(
            |change: EntityChange| second.entities.contains((change.subgraph@, change.entity@)),
        ),
{
    let all = early + late;
    assert forall|i: int| 0 <= i < all.len() implies {
        &&& (#[trigger] all[i]).is_delivered()
        &&& all[i].subscriptions.contains_key(first_id)
        &&& all[i].subscriptions[first_id] == first
    } by {
        if i < early.len() {
            assert(early[i].is_delivered());
        } else {
            assert(late[i - early.len()].is_delivered());
        }
    }
    law_subscribers_get_their_changes(all, first_id, first);
    law_nothing_before_subscribing(early, second_id);
    law_subscribers_get_their_changes(late, second_id, second);
    lemma_received_in_turn(early, late, second_id);
    assert(Seq::<EntityChange>::empty() + received(late, second_id) =~= received(late, second_id));
}

/// A subscription for no entities never gets anything.
pub proof fn law_no_entities_no_changes<S: Clone>(
    history: Seq<HandledChange<S>>,
    id: Seq<char>,
    subscription: SubscriptionView<S>,
)
    requires
        subscription.entities.len() == 0,
        forall|i: int|
            0 <= i < history.len() ==> {
                &&& (#[trigger] history[i]).is_delivered()
                &&& history[i].subscriptions.contains_key(id)
                &&& history[i].subscriptions[id] == subscription
            },
    ensures
        received(history, id) == Seq::<EntityChange>::empty(),
{
    law_subscribers_get_their_changes(history, id, subscription);
    let wanted = |change: EntityChange|
        subscription.entities.contains((change.subgraph@, change.entity@));
    if received(history, id).len() > 0 {
        changes(history).lemma_filter_pred(wanted, 0);
    }
}

/// After `subscribe`, and as long as the subscription stands, its subscriber is handed a change
/// exactly if one of the entities that were subscribed to, at whatever place, is the subgraph and
/// the entity type of the change, and then the change itself, by the sender that was handed over.
pub proof fn law_changes_reach_their_subscribers<S: Clone>(
    handled: HandledChange<S>,
    id: Seq<char>,
    entities: Vec<SubgraphEntityPair>,
    sender: S,
)
    requires
        handled.is_delivered(),
        handled.subscriptions.contains_key(id),
        handled.subscriptions[id] == (SubscriptionView {
            entities: entity_views(entities@),
            sender,
        }),
    ensures
        (exists|k: int|
            0 <= k < handled.actions.len() && (#[trigger] handled.actions[k]) is Some
                && (handled.actions[k]->0).0@ == id) <==> exists|i: int|
            0 <= i < entities@.len() && (#[trigger] entities@[i]).0@ == handled.change().subgraph@
                && entities@[i].1@ == handled.change().entity@,
        forall|k: int|
            0 <= k < handled.actions.len() && (#[trigger] handled.actions[k]) is Some
                && (handled.actions[k]->0).0@ == id ==> (handled.actions[k]->0).2 == handled.change()
                && cloned(sender, (handled.actions[k]->0).1),
        forall|k: int, l: int|
            0 <= k < l < handled.actions.len() && (#[trigger] handled.actions[k]) is Some && (
            #[trigger] handled.actions[l]) is Some && (handled.actions[k]->0).0@ == id
                ==> (handled.actions[l]->0).0@ != id,
{
    let pending = handled.trace[0].pending();
    let actions = handled.actions;
    let n = pending.len() as int;
    let rest = handled.subscriptions.remove(id);
    assert(rest.insert(id, handled.subscriptions[id]) =~= handled.subscriptions);
    law_every_entity_subscribed_to_counts(
        rest,
        id,
        entities,
        sender,
        pending,
        handled.change(),
    );
    law_every_match_has_its_turn(handled.trace, actions);
    assert forall|k: int| 0 <= k < n implies #[trigger] actions[k] == Some(
        (pending[n - 1 - k].0, pending[n - 1 - k].1, handled.change()),
    ) by {
        let i = n - 1 - k;
        assert(actions[n - 1 - i] == Some((pending[i].0, pending[i].1, handled.change())));
    }
    assert(actions[n] is None);
    if exists|k: int| 0 <= k < n && (#[trigger] pending[k]).0@ == id {
        let k = choose|k: int| 0 <= k < n && (#[trigger] pending[k]).0@ == id;
        assert((actions[n - 1 - k]->0).0@ == id);
    }
    if exists|k: int|
        0 <= k < actions.len() && (#[trigger] actions[k]) is Some && (actions[k]->0).0@ == id {
        let k = choose|k: int|
            0 <= k < actions.len() && (#[trigger] actions[k]) is Some && (actions[k]->0).0@ == id;
        assert(pending[n - 1 - k].0@ == id);
    }
    assert forall|k: int, l: int|
        0 <= k < l < actions.len() && (#[trigger] actions[k]) is Some && (
        #[trigger] actions[l]) is Some && (actions[k]->0).0@ == id implies (actions[l]->0).0@ != id by {
        assert(pending[n - 1 - l].0@ != pending[n - 1 - k].0@);
    }
}

/// In the course of many changes a subscriber receives exactly those, in their order, whose subgraph
/// and entity type is one of the entities that were subscribed to, at whatever place.
pub proof fn law_subscribers_receive_what_they_subscribed_to<S: Clone>(
    history: Seq<HandledChange<S>>,
    id: Seq<char>,
    entities: Vec<SubgraphEntityPair>,
    sender: S,
)
    requires
        forall|i: int|
            0 <= i < history.len() ==> {
                &&& (#[trigger] history[i]).is_delivered()
                &&& history[i].subscriptions.contains_key(id)
                &&& history[i].subscriptions[id] == (SubscriptionView {
                    entities: entity_views(entities@),
                    sender,
                })
            },
    ensures
        received(history, id) == changes(history).filter(
            |change: EntityChange|
                exists|i: int|
                    0 <= i < entities@.len() && (#[trigger] entities@[i]).0@ == change.subgraph@
                        && entities@[i].1@ == change.entity@,
        ),
{
    let subscription = SubscriptionView { entities: entity_views(entities@), sender };
    let wanted = |change: EntityChange|
        subscription.entities.contains((change.subgraph@, change.entity@));
    let named = |change: EntityChange|
        exists|i: int|
            0 <= i < entities@.len() && (#[trigger] entities@[i]).0@ == change.subgraph@
                && entities@[i].1@ == change.entity@;
    law_subscribers_get_their_changes(history, id, subscription);
    assert forall|change: EntityChange| #[trigger] wanted(change) == named(change) by {
        law_any_pair_covers(Subscription { entities, sender }, change);
    }
    assert(wanted =~= named);
}

} // verus!
