//! What a store offers: keys, queries, changes, and the traits of store implementations.
use vstd::prelude::*;

use ethereum_types::H256;

use crate::entity::{Attribute, Entity, Value};
use crate::json::Json;

verus! {

/// Key by which an individual entity in the store can be accessed.
#[derive(Debug, PartialEq, Eq, PartialOrd, Ord)]
pub struct StoreKey {
    /// ID of the subgraph.
    pub subgraph: String,
    /// Name of the entity type.
    pub entity: String,
    /// ID of the individual entity.
    pub id: String,
}

impl Clone for StoreKey {
    fn clone(&self) -> (copy: Self)
        ensures
            copy == *self,
    {
        StoreKey {
            subgraph: self.subgraph.clone(),
            entity: self.entity.clone(),
            id: self.id.clone(),
        }
    }
}

/// A key by the views of its parts.
pub struct KeyView {
    pub subgraph: Seq<char>,
    pub entity: Seq<char>,
    pub id: Seq<char>,
}

impl View for StoreKey {
    type V = KeyView;

    open spec fn view(&self) -> KeyView {
        KeyView { subgraph: self.subgraph@, entity: self.entity@, id: self.id@ }
    }
}

/// Supported types of store filters.
#[derive(Debug, PartialEq)]
pub enum StoreFilter {
    And(Vec<StoreFilter>),
    Or(Vec<StoreFilter>),
    Equal(Attribute, Value),
    Not(Attribute, Value),
    GreaterThan(Attribute, Value),
    LessThan(Attribute, Value),
    GreaterOrEqual(Attribute, Value),
    LessOrEqual(Attribute, Value),
    In(Attribute, Vec<Value>),
    NotIn(Attribute, Vec<Value>),
    Contains(Attribute, Value),
    NotContains(Attribute, Value),
    StartsWith(Attribute, Value),
    NotStartsWith(Attribute, Value),
    EndsWith(Attribute, Value),
    NotEndsWith(Attribute, Value),
}

/// A filter as a mathematical tree.
pub enum FilterView {
    And(Seq<FilterView>),
    Or(Seq<FilterView>),
    Equal(Seq<char>, Json),
    Not(Seq<char>, Json),
    GreaterThan(Seq<char>, Json),
    LessThan(Seq<char>, Json),
    GreaterOrEqual(Seq<char>, Json),
    LessOrEqual(Seq<char>, Json),
    In(Seq<char>, Seq<Json>),
    NotIn(Seq<char>, Seq<Json>),
    Contains(Seq<char>, Json),
    NotContains(Seq<char>, Json),
    StartsWith(Seq<char>, Json),
    NotStartsWith(Seq<char>, Json),
    EndsWith(Seq<char>, Json),
    NotEndsWith(Seq<char>, Json),
}

/// Values by their views.
pub open spec fn value_views(values: Seq<Value>) -> Seq<Json> {
    Seq::new(values.len(), |i: int| values[i]@)
}

impl StoreFilter {
    /// The tree that the filter stands for.
    pub open spec fn tree(&self) -> FilterView
        decreases self,
    {
        match self {
            StoreFilter::And(filters) => FilterView::And(
                Seq::new(
                    filters@.len(),
                    |i: int|
                        if 0 <= i < filters@.len() {
                            filters@[i].tree()
                        } else {
                            arbitrary()
                        },
                ),
            ),
            StoreFilter::Or(filters) => FilterView::Or(
                Seq::new(
                    filters@.len(),
                    |i: int|
                        if 0 <= i < filters@.len() {
                            filters@[i].tree()
                        } else {
                            arbitrary()
                        },
                ),
            ),
            StoreFilter::Equal(name, value) => FilterView::Equal(name@, value@),
            StoreFilter::Not(name, value) => FilterView::Not(name@, value@),
            StoreFilter::GreaterThan(name, value) => FilterView::GreaterThan(name@, value@),
            StoreFilter::LessThan(name, value) => FilterView::LessThan(name@, value@),
            StoreFilter::GreaterOrEqual(name, value) => FilterView::GreaterOrEqual(name@, value@),
            StoreFilter::LessOrEqual(name, value) => FilterView::LessOrEqual(name@, value@),
            StoreFilter::In(name, values) => FilterView::In(name@, value_views(values@)),
            StoreFilter::NotIn(name, values) => FilterView::NotIn(name@, value_views(values@)),
            StoreFilter::Contains(name, value) => FilterView::Contains(name@, value@),
            StoreFilter::NotContains(name, value) => FilterView::NotContains(name@, value@),
            StoreFilter::StartsWith(name, value) => FilterView::StartsWith(name@, value@),
            StoreFilter::NotStartsWith(name, value) => FilterView::NotStartsWith(name@, value@),
            StoreFilter::EndsWith(name, value) => FilterView::EndsWith(name@, value@),
            StoreFilter::NotEndsWith(name, value) => FilterView::NotEndsWith(name@, value@),
        }
    }
}

impl View for StoreFilter {
    type V = FilterView;

    open spec fn view(&self) -> FilterView {
        self.tree()
    }
}

fn clone_values(values: &Vec<Value>) -> (copies: Vec<Value>)
    ensures
        value_views(copies@) == value_views(values@),
{
    let mut copies: Vec<Value> = Vec::new();
    for i in 0..values.len()
        invariant
            copies@.len() == i,
            forall|k: int| 0 <= k < i ==> (#[trigger] copies@[k])@ == values@[k]@,
    {
        copies.push(values[i].clone());
    }
    assert(value_views(copies@) =~= value_views(values@));
    copies
}

impl Clone for StoreFilter {
    fn clone(&self) -> (copy: Self)
        ensures
            copy@ == self@,
        decreases self,
    {
        match self {
            StoreFilter::And(filters) => {
                let mut copies: Vec<StoreFilter> = Vec::new();
                for i in 0..filters.len()
                    invariant
                        *self == StoreFilter::And(*filters),
                        copies@.len() == i,
                        forall|k: int| 0 <= k < i ==> (#[trigger] copies@[k])@ == filters@[k]@,
                {
                    assert(decreases_to!(self => self->And_0));
                    assert(decreases_to!(self->And_0 => self->And_0[i as int]));
                    copies.push(filters[i].clone());
                }
                let copy = StoreFilter::And(copies);
                assert(copy@->And_0 =~= self@->And_0);
                copy
            },
            StoreFilter::Or(filters) => {
                let mut copies: Vec<StoreFilter> = Vec::new();
                for i in 0..filters.len()
                    invariant
                        *self == StoreFilter::Or(*filters),
                        copies@.len() == i,
                        forall|k: int| 0 <= k < i ==> (#[trigger] copies@[k])@ == filters@[k]@,
                {
                    assert(decreases_to!(self => self->Or_0));
                    assert(decreases_to!(self->Or_0 => self->Or_0[i as int]));
                    copies.push(filters[i].clone());
                }
                let copy = StoreFilter::Or(copies);
                assert(copy@->Or_0 =~= self@->Or_0);
                copy
            },
            StoreFilter::Equal(name, value) => {
                StoreFilter::Equal(name.clone(), value.clone())
            },
            StoreFilter::Not(name, value) => {
                StoreFilter::Not(name.clone(), value.clone())
            },
            StoreFilter::GreaterThan(name, value) => {
                StoreFilter::GreaterThan(name.clone(), value.clone())
            },
            StoreFilter::LessThan(name, value) => {
                StoreFilter::LessThan(name.clone(), value.clone())
            },
            StoreFilter::GreaterOrEqual(name, value) => {
                StoreFilter::GreaterOrEqual(name.clone(), value.clone())
            },
            StoreFilter::LessOrEqual(name, value) => {
                StoreFilter::LessOrEqual(name.clone(), value.clone())
            },
            StoreFilter::In(name, values) => {
                StoreFilter::In(name.clone(), clone_values(values))
            },
            StoreFilter::NotIn(name, values) => {
                StoreFilter::NotIn(name.clone(), clone_values(values))
            },
            StoreFilter::Contains(name, value) => {
                StoreFilter::Contains(name.clone(), value.clone())
            },
            StoreFilter::NotContains(name, value) => {
                StoreFilter::NotContains(name.clone(), value.clone())
            },
            StoreFilter::StartsWith(name, value) => {
                StoreFilter::StartsWith(name.clone(), value.clone())
            },
            StoreFilter::NotStartsWith(name, value) => {
                StoreFilter::NotStartsWith(name.clone(), value.clone())
            },
            StoreFilter::EndsWith(name, value) => {
                StoreFilter::EndsWith(name.clone(), value.clone())
            },
            StoreFilter::NotEndsWith(name, value) => {
                StoreFilter::NotEndsWith(name.clone(), value.clone())
            },
        }
    }
}

/// The order in which entities should be restored from a store.
#[derive(Debug, PartialEq)]
pub enum StoreOrder {
    Ascending,
    Descending,
}

impl Clone for StoreOrder {
    fn clone(&self) -> (copy: Self)
        ensures
            copy == *self,
    {
        match self {
            StoreOrder::Ascending => StoreOrder::Ascending,
            StoreOrder::Descending => StoreOrder::Descending,
        }
    }
}

/// How many entities to return, how many to skip etc.
#[derive(Debug, PartialEq)]
pub struct StoreRange {
    /// How many entities to return.
    pub first: usize,
    /// How many entities to skip.
    pub skip: usize,
}

impl Clone for StoreRange {
    fn clone(&self) -> (copy: Self)
        ensures
            copy == *self,
    {
        StoreRange { first: self.first, skip: self.skip }
    }
}

/// A query for entities in a store.
#[derive(Debug, PartialEq)]
pub struct StoreQuery {
    /// ID of the subgraph.
    pub subgraph: String,
    /// The name of the entity type.
    pub entity: String,
    /// Filter to filter entities by.
    pub filter: Option<StoreFilter>,
    /// An optional attribute to order the entities by.
    pub order_by: Option<String>,
    /// The direction to order entities in.
    pub order_direction: Option<StoreOrder>,
    /// An optional range to limit the size of the result.
    pub range: Option<StoreRange>,
}

impl Clone for StoreQuery {
    fn clone(&self) -> (copy: Self)
        ensures
            copy.subgraph == self.subgraph,
            copy.entity == self.entity,
            match self.filter {
                Some(filter) => copy.filter is Some && copy.filter->0@ == filter@,
                None => copy.filter is None,
            },
            copy.order_by == self.order_by,
            copy.order_direction == self.order_direction,
            copy.range == self.range,
    {
        StoreQuery {
            subgraph: self.subgraph.clone(),
            entity: self.entity.clone(),
            filter: match &self.filter {
                Some(filter) => Some(filter.clone()),
                None => None,
            },
            order_by: match &self.order_by {
                Some(attribute) => Some(attribute.clone()),
                None => None,
            },
            order_direction: match &self.order_direction {
                Some(direction) => Some(direction.clone()),
                None => None,
            },
            range: match &self.range {
                Some(range) => Some(range.clone()),
                None => None,
            },
        }
    }
}

/// Operation types that lead to entity changes.
#[derive(Debug, PartialEq)]
pub enum EntityChangeOperation {
    /// A new entity was added.
    Added,
    /// An existing entity was updated.
    Updated,
    /// An existing entity was removed.
    Removed,
}

impl Clone for EntityChangeOperation {
    fn clone(&self) -> (copy: Self)
        ensures
            copy == *self,
    {
        match self {
            EntityChangeOperation::Added => EntityChangeOperation::Added,
            EntityChangeOperation::Updated => EntityChangeOperation::Updated,
            EntityChangeOperation::Removed => EntityChangeOperation::Removed,
        }
    }
}

/// Entity change events emitted by store implementations.
#[derive(Debug, PartialEq)]
pub struct EntityChange {
    /// ID of the subgraph the changed entity belongs to.
    pub subgraph: String,
    /// Entity type name of the changed entity.
    pub entity: String,
    /// ID of the changed entity.
    pub id: String,
    /// Operation that caused the change.
    pub operation: EntityChangeOperation,
}

impl Clone for EntityChange {
    fn clone(&self) -> (copy: Self)
        ensures
            copy == *self,
    {
        EntityChange {
            subgraph: self.subgraph.clone(),
            entity: self.entity.clone(),
            id: self.id.clone(),
            operation: self.operation.clone(),
        }
    }
}

/// The source of the events being sent to the store
#[derive(Debug, PartialEq, Eq)]
pub enum EventSource {
    /// The Ethereum block with a hash.
    EthereumBlock([u8; 32]),
}

impl Clone for EventSource {
    fn clone(&self) -> (copy: Self)
        ensures
            copy == *self,
    {
        match *self {
            EventSource::EthereumBlock(hash) => EventSource::EthereumBlock(hash),
        }
    }
}

/// The hexadecimal digit with a value below 16.
pub open spec fn hex_digit(value: int) -> char {
    if value < 10 {
        ('0' as int + value) as char
    } else {
        ('a' as int + value - 10) as char
    }
}

/// Bytes in hexadecimal, two digits each, the high one first.
pub open spec fn lower_hex(bytes: Seq<u8>) -> Seq<char> {
    Seq::new(
        2 * bytes.len(),
        |i: int|
            hex_digit(
                if i % 2 == 0 {
                    bytes[i / 2] as int / 16
                } else {
                    bytes[i / 2] as int % 16
                },
            ),
    )
}

/// Formats an `ethereum_types::H256` by its `LowerHex`, which writes the bytes of the hash in
/// order, two lower case digits each, and nothing else.
#[verifier::external_body]
fn hash_to_hex(hash: [u8; 32]) -> (text: String)
    ensures
        text@ == lower_hex(hash@),
{
    format!("{:x}", H256::from(hash))
}

impl EventSource {
    /// The text by which the store records the source.
    pub open spec fn text(self) -> Seq<char> {
        match self {
            EventSource::EthereumBlock(hash) => lower_hex(hash@),
        }
    }

    /// The source as text: the hash of a block in hexadecimal.
    pub fn to_string(&self) -> (text: String)
        ensures
            text@ == self.text(),
    {
        match *self {
            EventSource::EthereumBlock(hash) => hash_to_hex(hash),
        }
    }
}

/// A source is recorded by 64 lower case hexadecimal digits.
pub proof fn law_source_text_is_hex(source: EventSource)
    ensures
        source.text().len() == 64,
        forall|i: int|
            0 <= i < 64 ==> ('0' <= #[trigger] source.text()[i] <= '9' || 'a' <= source.text()[i]
                <= 'f'),
{
}

/// The text of a block spells its hash out: each byte in its place by two hexadecimal digits, the
/// first one for its upper half and the second one for its lower half.
pub proof fn law_source_text_spells_the_hash(hash: [u8; 32], i: int)
    requires
        0 <= i < 32,
    ensures
        EventSource::EthereumBlock(hash).text().len() == 64,
        EventSource::EthereumBlock(hash).text()[2 * i] == "0123456789abcdef"@[hash@[i] as int / 16],
        EventSource::EthereumBlock(hash).text()[2 * i + 1] == "0123456789abcdef"@[hash@[i] as int
            % 16],
{
    reveal_strlit("0123456789abcdef");
    let high = 2 * i;
    let low = 2 * i + 1;
    assert(high / 2 == i && low / 2 == i && high % 2 == 0 && low % 2 == 1);
    lemma_hex_digits(hash@[i] as int / 16);
    lemma_hex_digits(hash@[i] as int % 16);
}

/// The digits in the order of their values.
proof fn lemma_hex_digits(value: int)
    requires
        0 <= value < 16,
    ensures
        hex_digit(value) == "0123456789abcdef"@[value],
{
    reveal_strlit("0123456789abcdef");
}

/// Different blocks are recorded by different texts.
pub proof fn law_source_texts_differ(a: EventSource, b: EventSource)
    requires
        a.text() == b.text(),
    ensures
        a == b,
{
    let EventSource::EthereumBlock(x) = a;
    let EventSource::EthereumBlock(y) = b;
    assert forall|i: int| 0 <= i < 32 implies x@[i] == y@[i] by {
        let high = 2 * i;
        let low = 2 * i + 1;
        assert(lower_hex(x@)[high] == lower_hex(y@)[high]);
        assert(lower_hex(x@)[low] == lower_hex(y@)[low]);
        assert(high / 2 == i && low / 2 == i && high % 2 == 0 && low % 2 == 1);
    }
    assert(x =~= y);
}

/// A key is known by all of its parts.
pub proof fn law_keys_are_known_by_their_parts(key: StoreKey)
    ensures
        key@.subgraph == key.subgraph@,
        key@.entity == key.entity@,
        key@.id == key.id@,
{
}

/// A filter is known by its kind and by all that it is made of.
pub proof fn law_filters_are_known_by_their_parts(filter: StoreFilter)
    ensures
        match filter {
            StoreFilter::Equal(name, value) => filter@ == FilterView::Equal(name@, value@),
            StoreFilter::Not(name, value) => filter@ == FilterView::Not(name@, value@),
            StoreFilter::GreaterThan(name, value) => filter@ == FilterView::GreaterThan(name@, value@),
            StoreFilter::LessThan(name, value) => filter@ == FilterView::LessThan(name@, value@),
            StoreFilter::GreaterOrEqual(name, value) => filter@ == FilterView::GreaterOrEqual(name@, value@),
            StoreFilter::LessOrEqual(name, value) => filter@ == FilterView::LessOrEqual(name@, value@),
            StoreFilter::Contains(name, value) => filter@ == FilterView::Contains(name@, value@),
            StoreFilter::NotContains(name, value) => filter@ == FilterView::NotContains(name@, value@),
            StoreFilter::StartsWith(name, value) => filter@ == FilterView::StartsWith(name@, value@),
            StoreFilter::NotStartsWith(name, value) => filter@ == FilterView::NotStartsWith(name@, value@),
            StoreFilter::EndsWith(name, value) => filter@ == FilterView::EndsWith(name@, value@),
            StoreFilter::NotEndsWith(name, value) => filter@ == FilterView::NotEndsWith(name@, value@),
            StoreFilter::In(name, values) => {
                &&& filter@ is In
                &&& filter@->In_0 == name@
                &&& filter@->In_1.len() == values@.len()
                &&& forall|i: int|
                    0 <= i < values@.len() ==> filter@->In_1[i] == (#[trigger] values@[i])@
            },
            StoreFilter::NotIn(name, values) => {
                &&& filter@ is NotIn
                &&& filter@->NotIn_0 == name@
                &&& filter@->NotIn_1.len() == values@.len()
                &&& forall|i: int|
                    0 <= i < values@.len() ==> filter@->NotIn_1[i] == (#[trigger] values@[i])@
            },
            StoreFilter::And(filters) => {
                &&& filter@ is And
                &&& filter@->And_0.len() == filters@.len()
                &&& forall|i: int|
                    0 <= i < filters@.len() ==> filter@->And_0[i] == (#[trigger] filters@[i])@
            },
            StoreFilter::Or(filters) => {
                &&& filter@ is Or
                &&& filter@->Or_0.len() == filters@.len()
                &&& forall|i: int|
                    0 <= i < filters@.len() ==> filter@->Or_0[i] == (#[trigger] filters@[i])@
            },
        },
{
}

/// Common trait for store implementations that don't require interaction with the system.
pub trait BasicStore: Send {
    /// Looks up an entity using the given store key.
    fn get(&self, key: StoreKey) -> Result<Entity, ()>;

    /// Updates an entity using the given store key and entity data.
    fn set(&mut self, key: StoreKey, entity: Entity, event_source: EventSource) -> Result<(), ()>;

    /// Deletes an entity using the given store key.
    fn delete(&mut self, key: StoreKey, event_source: EventSource) -> Result<(), ()>;

    /// Queries the store for entities that match the store query.
    fn find(&self, query: StoreQuery) -> Result<Vec<Entity>, ()>;
}

/// A pair of subgraph ID and entity type name.
pub type SubgraphEntityPair = (String, String);

/// Common trait for store implementations.
pub trait Store: BasicStore + Send {
    /// A stream of entity change events.
    type EntityChangeStream;

    /// Subscribe to entity changes for specific subgraphs and entities.
    ///
    /// Returns a stream of entity changes that match the input arguments.
    fn subscribe(&mut self, entities: Vec<SubgraphEntityPair>) -> Self::EntityChangeStream;
}

} // verus!
