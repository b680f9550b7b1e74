//! JSON values: the tree that a document stands for, and how it is read.
use vstd::prelude::*;

use serde_json::Value as SerdeValue;
use vstd::std_specs::cmp::PartialEqSpec;

use crate::assoc::{
    assoc_map, distinct_keys, lemma_assoc_distinct, lemma_assoc_dom, lemma_assoc_last,
};
use crate::string_map::{last_position, pair_views, StringMap};

verus! {

/// A JSON value as a mathematical tree. The members of an object come in the order in which the
/// document holds them; numbers are kept as their decimal text.
pub enum Json {
    Null,
    Bool(bool),
    Number(Seq<char>),
    Text(Seq<char>),
    Array(Seq<Json>),
    Object(Seq<(Seq<char>, Json)>),
}

impl Json {
    /// The members of an object by name, the last one of a name deciding; other values have none.
    pub open spec fn members(self) -> Map<Seq<char>, Json> {
        match self {
            Json::Object(members) => assoc_map(members),
            _ => Map::empty(),
        }
    }
}

/// A JSON value. Two values are equal if their trees are, down to the order of the members.
#[derive(Debug)]
pub enum JsonValue {
    Null,
    Bool(bool),
    Number(String),
    Text(String),
    Array(Vec<JsonValue>),
    Object(Vec<(String, JsonValue)>),
}

impl JsonValue {
    /// The tree that the value stands for.
    pub open spec fn tree(&self) -> Json
        decreases self,
    {
        match self {
            JsonValue::Null => Json::Null,
            JsonValue::Bool(b) => Json::Bool(*b),
            JsonValue::Number(n) => Json::Number(n@),
            JsonValue::Text(s) => Json::Text(s@),
            JsonValue::Array(items) => Json::Array(
                Seq::new(
                    items@.len(),
                    |i: int|
                        if 0 <= i < items@.len() {
                            items@[i].tree()
                        } else {
                            arbitrary()
                        },
                ),
            ),
            JsonValue::Object(members) => Json::Object(
                Seq::new(
                    members@.len(),
                    |i: int|
                        if 0 <= i < members@.len() {
                            (members@[i].0@, members@[i].1.tree())
                        } else {
                            arbitrary()
                        },
                ),
            ),
        }
    }
}

impl View for JsonValue {
    type V = Json;

    open spec fn view(&self) -> Json {
        self.tree()
    }
}

/// A parsed document of `serde_json`. Nothing of it is known here but its contents, which
/// `json_contents` names.
#[verifier::external_type_specification]
#[verifier::external_body]
pub struct ExSerdeValue(SerdeValue);

/// What a `serde_json::Value` holds: its tree of arrays and objects down to the leaves.
pub uninterp spec fn json_contents(value: SerdeValue) -> Json;

/// What `serde_json::from_slice` makes of some bytes: the value that they spell out, or the
/// message of the error.
pub uninterp spec fn json_of_bytes(bytes: Seq<u8>) -> Result<Json, Seq<char>>;

/// The outermost layer of a `serde_json::Value`.
enum JsonLayer<'a> {
    Null,
    Bool(bool),
    Number(String),
    Text(String),
    Array(&'a Vec<SerdeValue>),
    Object(Vec<(String, &'a SerdeValue)>),
}

impl<'a> JsonLayer<'a> {
    /// The value that the layer is the outside of.
    spec fn tree(self) -> Json {
        match self {
            JsonLayer::Null => Json::Null,
            JsonLayer::Bool(b) => Json::Bool(b),
            JsonLayer::Number(n) => Json::Number(n@),
            JsonLayer::Text(s) => Json::Text(s@),
            JsonLayer::Array(items) => Json::Array(
                Seq::new(items@.len(), |i: int| json_contents(items@[i])),
            ),
            JsonLayer::Object(members) => Json::Object(
                Seq::new(members@.len(), |i: int| (members@[i].0@, json_contents(*members@[i].1))),
            ),
        }
    }
}

/// Calls `serde_json::from_slice` for a `serde_json::Value`. What it returns depends on the bytes
/// alone, and `json_of_bytes` names it: the contents of the value, or the text that the error
/// displays.
#[verifier::external_body]
fn from_slice(bytes: &[u8]) -> (result: Result<SerdeValue, String>)
    ensures
        match result {
            Ok(value) => json_of_bytes(bytes@) == Ok::<Json, Seq<char>>(json_contents(value)),
            Err(message) => json_of_bytes(bytes@) == Err::<Json, Seq<char>>(message@),
        },
{
    match serde_json::from_slice(bytes) {
        Ok(value) => Ok(value),
        Err(error) => Err(format!("{}", error)),
    }
}

/// Tells the variants of `serde_json::Value` apart. The layer shows the value's contents: its
/// items in their order, its members in the order in which `serde_json::Map` walks them, a number
/// by the text that `serde_json::Number` displays.
#[verifier::external_body]
fn outer_layer(value: &SerdeValue) -> (layer: JsonLayer<'_>)
    ensures
        layer.tree() == json_contents(*value),
{
    match value {
        SerdeValue::Null => JsonLayer::Null,
        SerdeValue::Bool(b) => JsonLayer::Bool(*b),
        SerdeValue::Number(n) => JsonLayer::Number(n.to_string()),
        SerdeValue::String(s) => JsonLayer::Text(s.clone()),
        SerdeValue::Array(items) => JsonLayer::Array(items),
        SerdeValue::Object(members) => {
            JsonLayer::Object(members.iter().map(|(k, v)| (k.clone(), v)).collect())
        },
    }
}

impl PartialEq for JsonValue {
    fn eq(&self, other: &Self) -> (equal: bool) {
        self.same(other)
    }
}

impl vstd::std_specs::cmp::PartialEqSpecImpl for JsonValue {
    open spec fn obeys_eq_spec() -> bool {
        true
    }

    open spec fn eq_spec(&self, other: &Self) -> bool {
        self@ == other@
    }
}

impl Eq for JsonValue {

}

impl From<&str> for JsonValue {
    fn from(text: &str) -> (value: JsonValue)
        ensures
            value@ == Json::Text(text@),
    {
        JsonValue::Text(text.to_owned())
    }
}

impl vstd::std_specs::convert::FromSpecImpl<&str> for JsonValue {
    open spec fn obeys_from_spec() -> bool {
        false
    }

    open spec fn from_spec(text: &str) -> JsonValue {
        arbitrary()
    }
}

impl Clone for JsonValue {
    fn clone(&self) -> (copy: Self)
        ensures
            copy@ == self@,
        decreases self,
    {
        match self {
            JsonValue::Null => JsonValue::Null,
            JsonValue::Bool(b) => JsonValue::Bool(*b),
            JsonValue::Number(n) => JsonValue::Number(n.clone()),
            JsonValue::Text(s) => JsonValue::Text(s.clone()),
            JsonValue::Array(items) => {
                let mut copies: Vec<JsonValue> = Vec::new();
                for i in 0..items.len()
                    invariant
                        *self == JsonValue::Array(*items),
                        copies@.len() == i,
                        forall|k: int| 0 <= k < i ==> (#[trigger] copies@[k])@ == items@[k]@,
                {
                    assert(decreases_to!(self => self->Array_0));
                    assert(decreases_to!(self->Array_0 => self->Array_0[i as int]));
                    copies.push(items[i].clone());
                }
                let copy = JsonValue::Array(copies);
                assert(copy@->Array_0 =~= self@->Array_0);
                copy
            },
            JsonValue::Object(members) => {
                let mut copies: Vec<(String, JsonValue)> = Vec::new();
                for i in 0..members.len()
                    invariant
                        *self == JsonValue::Object(*members),
                        copies@.len() == i,
                        forall|k: int|
                            0 <= k < i ==> (#[trigger] copies@[k]).0@ == members@[k].0@
                                && copies@[k].1@ == members@[k].1@,
                {
                    assert(decreases_to!(self => self->Object_0));
                    assert(decreases_to!(self->Object_0 => self->Object_0[i as int]));
                    assert(decreases_to!(self->Object_0[i as int] => self->Object_0[i as int].1));
                    let value = members[i].1.clone();
                    copies.push((members[i].0.clone(), value));
                }
                let copy = JsonValue::Object(copies);
                assert(copy@->Object_0 =~= self@->Object_0);
                copy
            },
        }
    }
}

impl JsonValue {
    /// Whether two values are the same tree.
    fn same(&self, other: &JsonValue) -> (equal: bool)
        ensures
            equal == (self@ == other@),
        decreases self,
    {
        match (self, other) {
            (JsonValue::Null, JsonValue::Null) => true,
            (JsonValue::Bool(a), JsonValue::Bool(b)) => *a == *b,
            (JsonValue::Number(a), JsonValue::Number(b)) => *a == *b,
            (JsonValue::Text(a), JsonValue::Text(b)) => *a == *b,
            (JsonValue::Array(a), JsonValue::Array(b)) => {
                if a.len() != b.len() {
                    assert(self@->Array_0.len() != other@->Array_0.len());
                    return false;
                }
                for i in 0..a.len()
                    invariant
                        *self == JsonValue::Array(*a),
                        *other == JsonValue::Array(*b),
                        a@.len() == b@.len(),
                        forall|k: int| 0 <= k < i ==> (#[trigger] a@[k])@ == b@[k]@,
                {
                    assert(decreases_to!(self => self->Array_0));
                    assert(decreases_to!(self->Array_0 => self->Array_0[i as int]));
                    if !a[i].same(&b[i]) {
                        assert(self@->Array_0[i as int] != other@->Array_0[i as int]);
                        return false;
                    }
                }
                assert(self@->Array_0 =~= other@->Array_0);
                true
            },
            (JsonValue::Object(a), JsonValue::Object(b)) => {
                if a.len() != b.len() {
                    assert(self@->Object_0.len() != other@->Object_0.len());
                    return false;
                }
                for i in 0..a.len()
                    invariant
                        *self == JsonValue::Object(*a),
                        *other == JsonValue::Object(*b),
                        a@.len() == b@.len(),
                        forall|k: int|
                            0 <= k < i ==> (#[trigger] a@[k]).0@ == b@[k].0@ && a@[k].1@
                                == b@[k].1@,
                {
                    assert(decreases_to!(self => self->Object_0));
                    assert(decreases_to!(self->Object_0 => self->Object_0[i as int]));
                    assert(decreases_to!(self->Object_0[i as int] => self->Object_0[i as int].1));
                    if a[i].0 != b[i].0 || !a[i].1.same(&b[i].1) {
                        assert(self@->Object_0[i as int] != other@->Object_0[i as int]);
                        return false;
                    }
                }
                assert(self@->Object_0 =~= other@->Object_0);
                true
            },
            _ => false,
        }
    }

    /// The member of an object with a name.
    pub fn member(&self, name: &str) -> (value: Option<&JsonValue>)
        ensures
            match value {
                Some(v) => self@.members().contains_key(name@) && v@ == self@.members()[name@],
                None => !self@.members().contains_key(name@),
            },
    {
        match self {
            JsonValue::Object(members) => {
                let ghost views = pair_views(members@);
                proof {
                    assert(self@->Object_0 =~= views);
                    lemma_assoc_dom(views, name@);
                }
                let key = name.to_owned();
                match last_position(members, &key) {
                    Some(i) => {
                        proof {
                            assert forall|j: int| i < j < views.len() implies (
                            #[trigger] views[j]).0 != views[i as int].0 by {
                                assert(members@[j].0@ != key@);
                            }
                            lemma_assoc_last(views, i as int);
                        }
                        Some(&members[i].1)
                    },
                    None => {
                        assert forall|j: int| 0 <= j < views.len() implies (#[trigger] views[j]).0
                            != name@ by {
                            assert(members@[j].0@ != key@);
                        }
                        None
                    },
                }
            },
            _ => None,
        }
    }

    /// Copies a document of `serde_json` into a value of this crate.
    pub fn from_document(document: &SerdeValue) -> (value: JsonValue)
        ensures
            value@ == json_contents(*document),
        decreases json_contents(*document),
    {
        match outer_layer(document) {
            JsonLayer::Null => JsonValue::Null,
            JsonLayer::Bool(b) => JsonValue::Bool(b),
            JsonLayer::Number(n) => JsonValue::Number(n),
            JsonLayer::Text(s) => JsonValue::Text(s),
            JsonLayer::Array(items) => {
                let ghost trees = Seq::new(items@.len(), |i: int| json_contents(items@[i]));
                let mut copies: Vec<JsonValue> = Vec::new();
                for i in 0..items.len()
                    invariant
                        json_contents(*document) == Json::Array(trees),
                        trees == Seq::new(items@.len(), |k: int| json_contents(items@[k])),
                        copies@.len() == i,
                        forall|k: int| 0 <= k < i ==> (#[trigger] copies@[k])@ == trees[k],
                {
                    let ghost whole = json_contents(*document);
                    assert(decreases_to!(whole => whole->Array_0));
                    assert(decreases_to!(whole->Array_0 => whole->Array_0[i as int]));
                    copies.push(JsonValue::from_document(&items[i]));
                }
                let value = JsonValue::Array(copies);
                assert(value@->Array_0 =~= trees);
                value
            },
            JsonLayer::Object(members) => {
                let ghost trees = Seq::new(
                    members@.len(),
                    |i: int| (members@[i].0@, json_contents(*members@[i].1)),
                );
                let mut copies: Vec<(String, JsonValue)> = Vec::new();
                for i in 0..members.len()
                    invariant
                        json_contents(*document) == Json::Object(trees),
                        trees == Seq::new(
                            members@.len(),
                            |k: int| (members@[k].0@, json_contents(*members@[k].1)),
                        ),
                        copies@.len() == i,
                        forall|k: int|
                            0 <= k < i ==> ((#[trigger] copies@[k]).0@, copies@[k].1@) == trees[k],
                {
                    let ghost whole = json_contents(*document);
                    assert(decreases_to!(whole => whole->Object_0));
                    assert(decreases_to!(whole->Object_0 => whole->Object_0[i as int]));
                    assert(decreases_to!(whole->Object_0[i as int] => whole->Object_0[i as int].1));
                    let copy = JsonValue::from_document(members[i].1);
                    copies.push((members[i].0.clone(), copy));
                }
                let value = JsonValue::Object(copies);
                assert(value@->Object_0 =~= trees);
                value
            },
        }
    }

    /// Parses the bytes of a JSON document. Where they spell none out, the error is the message
    /// that says why.
    pub fn parse(bytes: &[u8]) -> (result: Result<JsonValue, String>)
        ensures
            match result {
                Ok(value) => json_of_bytes(bytes@) == Ok::<Json, Seq<char>>(value@),
                Err(message) => json_of_bytes(bytes@) == Err::<Json, Seq<char>>(message@),
            },
    {
        match from_slice(bytes) {
            Ok(document) => Ok(JsonValue::from_document(&document)),
            Err(message) => Err(message),
        }
    }
}

impl JsonValue {
    /// The members of an object as a map; `None` for other values.
    pub fn to_members(&self) -> (members: Option<StringMap<JsonValue>>)
        ensures
            match members {
                Some(map) => self@ is Object && map@ == self@.members(),
                None => !(self@ is Object),
            },
    {
        match self {
            JsonValue::Object(members) => {
                let ghost views = pair_views(members@);
                assert(self@->Object_0 =~= views);
                let mut map: StringMap<JsonValue> = StringMap::new();
                for i in 0..members.len()
                    invariant
                        views == pair_views(members@),
                        map@ == assoc_map(views.take(i as int)),
                {
                    proof {
                        assert(views.take(i + 1).drop_last() =~= views.take(i as int));
                    }
                    map.insert(members[i].0.clone(), members[i].1.clone());
                }
                assert(views.take(views.len() as int) =~= views);
                Some(map)
            },
            _ => None,
        }
    }

    /// The object with the members of a map, each name once.
    pub fn from_members(map: &StringMap<JsonValue>) -> (object: JsonValue)
        ensures
            object@ matches Json::Object(members) && distinct_keys(members),
            object@.members() == map@,
    {
        let pairs = map.pairs();
        let ghost views = pair_views(pairs@);
        let mut members: Vec<(String, JsonValue)> = Vec::new();
        for i in 0..pairs.len()
            invariant
                views == pair_views(pairs@),
                members@.len() == i,
                forall|k: int|
                    0 <= k < i ==> ((#[trigger] members@[k]).0@, members@[k].1@) == views[k],
        {
            members.push((pairs[i].0.clone(), pairs[i].1.clone()));
        }
        let object = JsonValue::Object(members);
        assert(object@->Object_0 =~= views);
        object
    }
}

/// The layer of an array shows its items, and that of an object its members, all of them and in
/// their order.
proof fn lemma_layers_show_contents(layer: JsonLayer<'_>)
    ensures
        match layer {
            JsonLayer::Null => layer.tree() == Json::Null,
            JsonLayer::Bool(b) => layer.tree() == Json::Bool(b),
            JsonLayer::Number(n) => layer.tree() == Json::Number(n@),
            JsonLayer::Text(text) => layer.tree() == Json::Text(text@),
            JsonLayer::Array(items) => {
                &&& layer.tree() is Array
                &&& layer.tree()->Array_0.len() == items@.len()
                &&& forall|i: int|
                    0 <= i < items@.len() ==> layer.tree()->Array_0[i] == json_contents(
                        #[trigger] items@[i],
                    )
            },
            JsonLayer::Object(members) => {
                &&& layer.tree() is Object
                &&& layer.tree()->Object_0.len() == members@.len()
                &&& forall|i: int|
                    0 <= i < members@.len() ==> {
                        &&& layer.tree()->Object_0[i].0 == (#[trigger] members@[i]).0@
                        &&& layer.tree()->Object_0[i].1 == json_contents(*members@[i].1)
                    }
            },
        },
{
}

/// A value stands for the tree of what it is made of: each item and each member of it is there, in
/// its place, and nothing else.
pub proof fn law_values_stand_for_their_parts(value: JsonValue)
    ensures
        match value {
            JsonValue::Null => value@ == Json::Null,
            JsonValue::Bool(b) => value@ == Json::Bool(b),
            JsonValue::Number(n) => value@ == Json::Number(n@),
            JsonValue::Text(text) => value@ == Json::Text(text@),
            JsonValue::Array(items) => {
                &&& value@ is Array
                &&& value@->Array_0.len() == items@.len()
                &&& forall|i: int|
                    0 <= i < items@.len() ==> value@->Array_0[i] == (#[trigger] items@[i])@
            },
            JsonValue::Object(members) => {
                &&& value@ is Object
                &&& value@->Object_0.len() == members@.len()
                &&& forall|i: int|
                    0 <= i < members@.len() ==> {
                        &&& value@->Object_0[i].0 == (#[trigger] members@[i]).0@
                        &&& value@->Object_0[i].1 == members@[i].1@
                    }
            },
        },
{
}

/// The member at a position is the last one of its name.
pub open spec fn is_last_member(
    members: Seq<(Seq<char>, Json)>,
    i: int,
    name: Seq<char>,
) -> bool {
    &&& 0 <= i < members.len()
    &&& members[i].0 == name
    &&& forall|j: int| i < j < members.len() ==> (#[trigger] members[j]).0 != name
}

/// An object has the members that are written in it, under their names, and no others; of those
/// with the same name the last one counts. No other value has members.
pub proof fn law_members_are_what_is_written(value: Json, name: Seq<char>)
    ensures
        !(value is Object) ==> !value.members().contains_key(name),
        value is Object ==> (value.members().contains_key(name) <==> exists|i: int|
            0 <= i < value->Object_0.len() && (#[trigger] value->Object_0[i]).0 == name),
        value is Object ==> forall|i: int| #[trigger]
            is_last_member(value->Object_0, i, name) ==> value.members().contains_key(name)
                && value.members()[name] == value->Object_0[i].1,
{
    if let Json::Object(members) = value {
        lemma_assoc_dom(members, name);
        assert forall|i: int| #[trigger] is_last_member(members, i, name) implies assoc_map(
            members,
        ).contains_key(name) && assoc_map(members)[name] == members[i].1 by {
            lemma_assoc_last(members, i);
        }
    }
}

/// Comparing two values tells whether they stand for the same tree.
pub proof fn law_equal_values_are_equal_trees(a: JsonValue, b: JsonValue)
    ensures
        JsonValue::obeys_eq_spec(),
        a.eq_spec(&b) <==> a@ == b@,
{
}

/// Whether every member of one map is in the other, with the same value.
fn holds_members(all: &StringMap<JsonValue>, some: &StringMap<JsonValue>) -> (held: bool)
    ensures
        held == (forall|key: Seq<char>| #[trigger]
            some@.contains_key(key) ==> all@.contains_key(key) && all@[key] == some@[key]),
{
    let pairs = some.pairs();
    let ghost views = pair_views(pairs@);
    proof {
        lemma_assoc_distinct(views);
    }
    for i in 0..pairs.len()
        invariant
            views == pair_views(pairs@),
            some@ == assoc_map(views),
            forall|k: int|
                0 <= k < views.len() ==> assoc_map(views)[(#[trigger] views[k]).0] == views[k].1,
            forall|key: Seq<char>| #[trigger]
                assoc_map(views).contains_key(key) <==> exists|k: int|
                    0 <= k < views.len() && (#[trigger] views[k]).0 == key,
            forall|k: int|
                0 <= k < i ==> all@.contains_key((#[trigger] views[k]).0) && all@[views[k].0]
                    == views[k].1,
    {
        assert(views[i as int] == (pairs@[i as int].0@, pairs@[i as int].1@));
        assert(some@.contains_key(views[i as int].0));
        match all.get(&pairs[i].0) {
            Some(value) => {
                if *value != pairs[i].1 {
                    return false;
                }
            },
            None => {
                return false;
            },
        }
    }
    assert forall|key: Seq<char>| #[trigger] some@.contains_key(key) implies all@.contains_key(key)
        && all@[key] == some@[key] by {
        let k = choose|k: int| 0 <= k < views.len() && (#[trigger] views[k]).0 == key;
        assert(all@.contains_key(views[k].0));
    }
    true
}

/// Whether two maps of JSON values have the same members.
pub fn same_members(a: &StringMap<JsonValue>, b: &StringMap<JsonValue>) -> (equal: bool)
    ensures
        equal == (a@ == b@),
{
    let equal = holds_members(a, b) && holds_members(b, a);
    proof {
        if equal {
            assert(a@ =~= b@);
        }
    }
    equal
}

} // verus!
