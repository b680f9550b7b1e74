//! Subscriptions to entity changes.
use vstd::prelude::*;

use crate::store::{EntityChange, SubgraphEntityPair};

verus! {

/// A store subscription: the subgraphs and entity types of interest, and the sending end of the
/// stream of the subscriber.
pub struct Subscription<S> {
    pub entities: Vec<SubgraphEntityPair>,
    pub sender: S,
}

/// A subscription by the views of its parts.
pub struct SubscriptionView<S> {
    pub entities: Seq<(Seq<char>, Seq<char>)>,
    pub sender: S,
}

/// Pairs of strings by their views.
pub open spec fn entity_views(entities: Seq<SubgraphEntityPair>) -> Seq<(Seq<char>, Seq<char>)> {
    Seq::new(entities.len(), |i: int| (entities[i].0@, entities[i].1@))
}

impl<S> View for Subscription<S> {
    type V = SubscriptionView<S>;

    open spec fn view(&self) -> SubscriptionView<S> {
        SubscriptionView { entities: entity_views(self.entities@), sender: self.sender }
    }
}

impl<S> SubscriptionView<S> {
    /// The subscription is for changes like this one.
    pub open spec fn covers(self, change: EntityChange) -> bool {
        self.entities.contains((change.subgraph@, change.entity@))
    }
}

impl<S> Subscription<S> {
    /// Whether the subscription is for changes like this one.
    pub fn covers(&self, change: &EntityChange) -> (covered: bool)
        ensures
            covered == self@.covers(*change),
    {
        for i in 0..self.entities.len()
            invariant
                forall|k: int|
                    0 <= k < i ==> self@.entities[k] != (change.subgraph@, change.entity@),
        {
            assert(self@.entities[i as int] == (
                self.entities@[i as int].0@,
                self.entities@[i as int].1@,
            ));
            if self.entities[i].0 == change.subgraph && self.entities[i].1 == change.entity {
                return true;
            }
        }
        false
    }
}

/// The views of pairs are those of all of them, each in its place.
pub proof fn law_entity_views_are_complete(entities: Seq<SubgraphEntityPair>)
    ensures
        entity_views(entities).len() == entities.len(),
        forall|i: int|
            0 <= i < entities.len() ==> entity_views(entities)[i].0 == (#[trigger] entities[i]).0@
                && entity_views(entities)[i].1 == entities[i].1@,
{
}

/// A subscription covers a change exactly if one of its pairs, at whatever place, is the subgraph
/// and the entity type of the change.
pub proof fn law_any_pair_covers<S>(subscription: Subscription<S>, change: EntityChange)
    ensures
        subscription@.sender == subscription.sender,
        subscription@.covers(change) <==> exists|i: int|
            0 <= i < subscription.entities@.len() && (#[trigger] subscription.entities@[i]).0@
                == change.subgraph@ && subscription.entities@[i].1@ == change.entity@,
{
    let pairs = subscription.entities@;
    let views = subscription@.entities;
    law_entity_views_are_complete(pairs);
    let wanted = (change.subgraph@, change.entity@);
    if views.contains(wanted) {
        let i = choose|i: int| 0 <= i < views.len() && views[i] == wanted;
        assert(pairs[i].0@ == change.subgraph@ && pairs[i].1@ == change.entity@);
    }
    if exists|i: int|
        0 <= i < pairs.len() && (#[trigger] pairs[i]).0@ == change.subgraph@ && pairs[i].1@
            == change.entity@ {
        let i = choose|i: int|
            0 <= i < pairs.len() && (#[trigger] pairs[i]).0@ == change.subgraph@ && pairs[i].1@
                == change.entity@;
        assert(views[i] == wanted);
    }
}

} // verus!
