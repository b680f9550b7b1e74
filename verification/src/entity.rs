//! Entities: what the store keeps.
use vstd::prelude::*;

use vstd::std_specs::cmp::PartialEqSpec;

use crate::assoc::{assoc_map, lemma_assoc_push};
use crate::json::{same_members, Json, JsonValue};
use crate::string_map::{pair_views, StringMap};

verus! {

/// The name of an attribute of an entity.
pub type Attribute = String;

/// The value of an attribute: any JSON value.
pub type Value = JsonValue;

/// An entity: values of attributes.
#[derive(Debug)]
pub struct Entity {
    attributes: StringMap<Value>,
}

impl View for Entity {
    type V = Map<Seq<char>, Json>;

    closed spec fn view(&self) -> Map<Seq<char>, Json> {
        self.attributes@
    }
}

/// The entity that an update leaves behind: an attribute of both has the value of the update, any
/// other attribute stays as it is.
pub open spec fn merged(entity: Map<Seq<char>, Json>, update: Map<Seq<char>, Json>) -> Map<
    Seq<char>,
    Json,
> {
    entity.union_prefer_right(update)
}

impl Entity {
    /// An entity without attributes.
    pub fn new() -> (entity: Self)
        ensures
            entity@ == Map::<Seq<char>, Json>::empty(),
    {
        Entity { attributes: StringMap::new() }
    }

    /// Gives an attribute a value.
    pub fn insert(&mut self, attribute: Attribute, value: Value)
        ensures
            final(self)@ == old(self)@.insert(attribute@, value@),
    {
        self.attributes.insert(attribute, value);
    }

    /// The value of an attribute.
    pub fn get(&self, attribute: &Attribute) -> (value: Option<&Value>)
        ensures
            match value {
                Some(v) => self@.contains_key(attribute@) && v@ == self@[attribute@],
                None => !self@.contains_key(attribute@),
            },
    {
        self.attributes.get(attribute)
    }

    /// Merges an update into the entity.
    pub fn merge(&mut self, update: Entity)
        ensures
            final(self)@ == merged(old(self)@, update@),
    {
        let pairs = update.attributes.pairs();
        let ghost views = pair_views(pairs@);
        let ghost before = self@;
        for i in 0..pairs.len()
            invariant
                views == pair_views(pairs@),
                self@ == before.union_prefer_right(assoc_map(views.take(i as int))),
        {
            proof {
                assert(views.take(i + 1) =~= views.take(i as int).push(views[i as int]));
                lemma_assoc_push(views.take(i as int), views[i as int].0, views[i as int].1);
                assert(before.union_prefer_right(assoc_map(views.take(i + 1)))
                    =~= before.union_prefer_right(assoc_map(views.take(i as int))).insert(
                    views[i as int].0,
                    views[i as int].1,
                ));
            }
            self.attributes.insert(pairs[i].0.clone(), pairs[i].1.clone());
        }
        assert(views.take(views.len() as int) =~= views);
    }

    /// Reads an entity out of a JSON object; other values hold none.
    pub fn from_json(value: &JsonValue) -> (entity: Option<Self>)
        ensures
            match entity {
                Some(e) => value@ is Object && e@ == value@.members(),
                None => !(value@ is Object),
            },
    {
        match value.to_members() {
            Some(attributes) => Some(Entity { attributes }),
            None => None,
        }
    }

    /// The JSON object that holds the entity.
    pub fn to_json(&self) -> (object: JsonValue)
        ensures
            object@ is Object,
            object@.members() == self@,
    {
        JsonValue::from_members(&self.attributes)
    }
}

impl PartialEq for Entity {
    fn eq(&self, other: &Self) -> (equal: bool) {
        same_members(&self.attributes, &other.attributes)
    }
}

impl vstd::std_specs::cmp::PartialEqSpecImpl for Entity {
    open spec fn obeys_eq_spec() -> bool {
        true
    }

    open spec fn eq_spec(&self, other: &Self) -> bool {
        self@ == other@
    }
}

/// A merge gives every attribute of the update the value of the update, and keeps the others.
pub proof fn law_merge_prefers_the_update(
    entity: Map<Seq<char>, Json>,
    update: Map<Seq<char>, Json>,
    attribute: Seq<char>,
)
    ensures
        merged(entity, update).contains_key(attribute) <==> entity.contains_key(attribute)
            || update.contains_key(attribute),
        update.contains_key(attribute) ==> merged(entity, update)[attribute] == update[attribute],
        !update.contains_key(attribute) && entity.contains_key(attribute) ==> merged(
            entity,
            update,
        )[attribute] == entity[attribute],
{
}

/// Merging one update after the other is merging their merge.
pub proof fn law_merge_is_associative(
    entity: Map<Seq<char>, Json>,
    first: Map<Seq<char>, Json>,
    second: Map<Seq<char>, Json>,
)
    ensures
        merged(merged(entity, first), second) == merged(entity, merged(first, second)),
{
    assert(merged(merged(entity, first), second) =~= merged(entity, merged(first, second)));
}

/// An empty update changes nothing, an update of an empty entity is all that is left, and merging
/// an update once more changes nothing.
pub proof fn law_merge_units(entity: Map<Seq<char>, Json>, update: Map<Seq<char>, Json>)
    ensures
        merged(entity, Map::empty()) == entity,
        merged(Map::empty(), update) == update,
        merged(merged(entity, update), update) == merged(entity, update),
{
    assert(merged(entity, Map::empty()) =~= entity);
    assert(merged(Map::empty(), update) =~= update);
    assert(merged(merged(entity, update), update) =~= merged(entity, update));
}

/// Comparing two entities tells whether they have the same attributes, each with the same value.
pub proof fn law_equal_entities(a: Entity, b: Entity)
    ensures
        Entity::obeys_eq_spec(),
        a.eq_spec(&b) <==> {
            &&& forall|attribute: Seq<char>| #[trigger]
                a@.contains_key(attribute) <==> b@.contains_key(attribute)
            &&& forall|attribute: Seq<char>| #[trigger]
                a@.contains_key(attribute) ==> a@[attribute] == b@[attribute]
        },
{
    if (forall|attribute: Seq<char>| #[trigger]
        a@.contains_key(attribute) <==> b@.contains_key(attribute)) && (forall|
        attribute: Seq<char>,
    | #[trigger]
        a@.contains_key(attribute) ==> a@[attribute] == b@[attribute]) {
        assert(a@ =~= b@);
    }
}

} // verus!
