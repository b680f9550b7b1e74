//! Statements for the database, and the table of entities that they read and write.
use vstd::prelude::*;

use crate::entity::{law_merge_is_associative, law_merge_units, merged};
use crate::json::{is_last_member, law_members_are_what_is_written, Json, JsonValue};
use crate::store::{
    law_source_text_spells_the_hash, EventSource, KeyView, StoreFilter, StoreKey,
};

verus! {

/// A row of the table of entities. Its primary key is made of the ID, the entity type and the
/// subgraph.
#[derive(Debug, PartialEq)]
pub struct EntityRow {
    pub id: String,
    pub entity: String,
    pub subgraph: String,
    pub data: JsonValue,
    pub event_source: String,
}

impl EntityRow {
    /// The primary key of the row.
    pub open spec fn key(self) -> KeyView {
        KeyView { subgraph: self.subgraph@, entity: self.entity@, id: self.id@ }
    }
}

/// How the rows of a selection are ordered: by an expression that the name of an attribute, bound
/// as a parameter, completes, and in a direction.
#[derive(Debug, PartialEq)]
pub struct OrderClause {
    pub expression: String,
    pub attribute: String,
    pub direction: String,
}

/// A selection of the data of entities.
#[derive(Debug, PartialEq)]
pub struct EntitySelect {
    /// Only rows of this entity type.
    pub entity: String,
    /// Only rows of this subgraph.
    pub subgraph: String,
    /// Only rows that pass this filter.
    pub filter: Option<StoreFilter>,
    pub order: Option<OrderClause>,
    pub limit: Option<i64>,
    pub offset: Option<i64>,
}

/// A statement for the database.
#[derive(Debug, PartialEq)]
pub enum Statement {
    /// Select the data of the row with a primary key.
    Lookup(StoreKey),
    /// Select the data of rows.
    Select(EntitySelect),
    /// Insert a row, or replace the row that has its primary key.
    Upsert(EntityRow),
    /// Set a configuration parameter of the session.
    SetConfig { name: String, value: String, is_local: bool },
    /// Delete the row with a primary key.
    Delete(StoreKey),
    /// Revert the events that a block caused.
    RevertBlock(String),
}

/// What the table of entities keeps for a primary key.
pub struct RowView {
    pub data: Json,
    pub event_source: Seq<char>,
}

/// The table after a row has been inserted, or has replaced the row with its primary key.
pub open spec fn after_upsert(table: Map<KeyView, RowView>, row: EntityRow) -> Map<
    KeyView,
    RowView,
> {
    table.insert(row.key(), RowView { data: row.data@, event_source: row.event_source@ })
}

/// The table after the row with a primary key has been deleted.
pub open spec fn after_delete(table: Map<KeyView, RowView>, key: KeyView) -> Map<
    KeyView,
    RowView,
> {
    table.remove(key)
}

/// The entity that a JSON value holds.
pub open spec fn entity_of(data: Json) -> Option<Map<Seq<char>, Json>> {
    if data is Object {
        Some(data.members())
    } else {
        None
    }
}

/// The entity in the table under a primary key.
pub open spec fn entity_at(table: Map<KeyView, RowView>, key: KeyView) -> Option<
    Map<Seq<char>, Json>,
> {
    if table.contains_key(key) {
        entity_of(table[key].data)
    } else {
        None
    }
}

/// The entity that an update makes of the one that was found.
pub open spec fn updated(
    found: Option<Map<Seq<char>, Json>>,
    update: Map<Seq<char>, Json>,
) -> Map<Seq<char>, Json> {
    match found {
        Some(entity) => merged(entity, update),
        None => update,
    }
}

/// A row that writes an update under a key, where an entity or none was found.
pub open spec fn writes_update(
    row: EntityRow,
    key: KeyView,
    found: Option<Map<Seq<char>, Json>>,
    update: Map<Seq<char>, Json>,
    event_source: Seq<char>,
) -> bool {
    &&& row.key() == key
    &&& entity_of(row.data@) == Some(updated(found, update))
    &&& row.event_source@ == event_source
}

/// What has been set is what is read: the entity that was there with the update merged into it, or
/// the update alone where there was none. The row names the source of the update.
pub proof fn law_read_after_set(
    table: Map<KeyView, RowView>,
    key: KeyView,
    update: Map<Seq<char>, Json>,
    event_source: Seq<char>,
    row: EntityRow,
)
    requires
        writes_update(row, key, entity_at(table, key), update, event_source),
    ensures
        entity_at(after_upsert(table, row), key) == Some(updated(entity_at(table, key), update)),
        after_upsert(table, row)[key].event_source == event_source,
{
}

/// A row that is written has the parts of the key, and the text of the source. Its data is an
/// object that has an attribute exactly if the update or the entity that was found has it, with the
/// value of the update where the update has it, and else with the value that was found.
pub proof fn law_written_rows_hold_every_attribute(
    row: EntityRow,
    key: StoreKey,
    found: Option<Map<Seq<char>, Json>>,
    update: Map<Seq<char>, Json>,
    source: EventSource,
    attribute: Seq<char>,
    i: int,
)
    requires
        writes_update(row, key@, found, update, source.text()),
    ensures
        row.id@ == key.id@,
        row.entity@ == key.entity@,
        row.subgraph@ == key.subgraph@,
        row.data@ is Object,
        update.contains_key(attribute) ==> row.data@.members().contains_key(attribute)
            && row.data@.members()[attribute] == update[attribute],
        !update.contains_key(attribute) && found is Some && found->0.contains_key(attribute)
            ==> row.data@.members().contains_key(attribute) && row.data@.members()[attribute]
            == found->0[attribute],
        !update.contains_key(attribute) && !(found is Some && found->0.contains_key(attribute))
            ==> !row.data@.members().contains_key(attribute),
        row.data@.members().contains_key(attribute) <==> exists|k: int|
            0 <= k < row.data@->Object_0.len() && (#[trigger] row.data@->Object_0[k]).0
                == attribute,
        is_last_member(row.data@->Object_0, i, attribute) ==> row.data@.members()[attribute]
            == row.data@->Object_0[i].1,
        row.event_source@.len() == 64,
        forall|k: int|
            0 <= k < 32 ==> {
                &&& row.event_source@[2 * k]
                    == "0123456789abcdef"@[#[trigger] source->EthereumBlock_0@[k] as int / 16]
                &&& row.event_source@[2 * k + 1]
                    == "0123456789abcdef"@[source->EthereumBlock_0@[k] as int % 16]
            },
{
    law_members_are_what_is_written(row.data@, attribute);
    let EventSource::EthereumBlock(hash) = source;
    law_source_text_spells_the_hash(hash, 0);
    assert forall|k: int| 0 <= k < 32 implies {
        &&& row.event_source@[2 * k] == "0123456789abcdef"@[#[trigger] hash@[k] as int / 16]
        &&& row.event_source@[2 * k + 1] == "0123456789abcdef"@[hash@[k] as int % 16]
    } by {
        law_source_text_spells_the_hash(hash, k);
    }
}

/// For every attribute, after a set: where the update has it, the entity that is read has it with
/// the value of the update; else where the entity that was there had it, it has that value; else it
/// is absent.
pub proof fn law_set_decides_every_attribute(
    table: Map<KeyView, RowView>,
    key: KeyView,
    update: Map<Seq<char>, Json>,
    event_source: Seq<char>,
    row: EntityRow,
    attribute: Seq<char>,
)
    requires
        writes_update(row, key, entity_at(table, key), update, event_source),
    ensures
        entity_at(after_upsert(table, row), key) matches Some(entity) && if update.contains_key(
            attribute,
        ) {
            entity.contains_key(attribute) && entity[attribute] == update[attribute]
        } else if entity_at(table, key) is Some && entity_at(table, key)->0.contains_key(
            attribute,
        ) {
            entity.contains_key(attribute) && entity[attribute] == entity_at(
                table,
                key,
            )->0[attribute]
        } else {
            !entity.contains_key(attribute)
        },
{
}

/// The entity in some data has exactly the members of the object that the data is, the last one of
/// each name; data of another kind is no entity.
pub proof fn law_entities_are_the_members(data: Json, attribute: Seq<char>, i: int)
    ensures
        entity_of(data) is Some <==> data is Object,
        data is Object ==> {
            &&& entity_of(data)->0.contains_key(attribute) <==> exists|k: int|
                0 <= k < data->Object_0.len() && (#[trigger] data->Object_0[k]).0 == attribute
            &&& is_last_member(data->Object_0, i, attribute) ==> entity_of(data)->0[attribute]
                == data->Object_0[i].1
        },
{
    law_members_are_what_is_written(data, attribute);
}

/// Setting an entity leaves the rows of all other keys as they are.
pub proof fn law_set_keeps_other_keys(
    table: Map<KeyView, RowView>,
    key: KeyView,
    update: Map<Seq<char>, Json>,
    event_source: Seq<char>,
    row: EntityRow,
    other: KeyView,
)
    requires
        writes_update(row, key, entity_at(table, key), update, event_source),
        other != key,
    ensures
        after_upsert(table, row).contains_key(other) == table.contains_key(other),
        after_upsert(table, row)[other] == table[other],
        entity_at(after_upsert(table, row), other) == entity_at(table, other),
{
}

/// Two updates one after the other leave what their merge leaves at once.
pub proof fn law_updates_compose(
    table: Map<KeyView, RowView>,
    key: KeyView,
    first: Map<Seq<char>, Json>,
    second: Map<Seq<char>, Json>,
    event_source: Seq<char>,
    first_row: EntityRow,
    second_row: EntityRow,
    merged_row: EntityRow,
)
    requires
        writes_update(first_row, key, entity_at(table, key), first, event_source),
        writes_update(
            second_row,
            key,
            entity_at(after_upsert(table, first_row), key),
            second,
            event_source,
        ),
        writes_update(
            merged_row,
            key,
            entity_at(table, key),
            merged(first, second),
            event_source,
        ),
    ensures
        entity_at(after_upsert(after_upsert(table, first_row), second_row), key) == entity_at(
            after_upsert(table, merged_row),
            key,
        ),
{
    if let Some(entity) = entity_at(table, key) {
        law_merge_is_associative(entity, first, second);
    }
}

/// Setting the same update once more changes nothing that is read: not the entity under the key,
/// nor its source, nor any other row.
pub proof fn law_update_is_idempotent(
    table: Map<KeyView, RowView>,
    key: KeyView,
    update: Map<Seq<char>, Json>,
    event_source: Seq<char>,
    row: EntityRow,
    repeated: EntityRow,
)
    requires
        writes_update(row, key, entity_at(table, key), update, event_source),
        writes_update(
            repeated,
            key,
            entity_at(after_upsert(table, row), key),
            update,
            event_source,
        ),
    ensures
        entity_at(after_upsert(after_upsert(table, row), repeated), key) == entity_at(
            after_upsert(table, row),
            key,
        ),
        after_upsert(after_upsert(table, row), repeated)[key].event_source == after_upsert(
            table,
            row,
        )[key].event_source,
        after_upsert(after_upsert(table, row), repeated).dom() == after_upsert(table, row).dom(),
        forall|other: KeyView|
            other != key ==> #[trigger] after_upsert(after_upsert(table, row), repeated)[other]
                == after_upsert(table, row)[other],
{
    assert(after_upsert(after_upsert(table, row), repeated).dom() =~= after_upsert(
        table,
        row,
    ).dom());
    match entity_at(table, key) {
        Some(entity) => law_merge_units(entity, update),
        None => law_merge_units(Map::empty(), update),
    }
}

/// A deleted entity is not found, and all other rows stay.
pub proof fn law_read_after_delete(table: Map<KeyView, RowView>, key: KeyView, other: KeyView)
    requires
        other != key,
    ensures
        entity_at(after_delete(table, key), key) is None,
        after_delete(table, key).contains_key(other) == table.contains_key(other),
        after_delete(table, key)[other] == table[other],
{
}

/// Deleting undoes the setting of an entity that was not there.
pub proof fn law_delete_undoes_set(table: Map<KeyView, RowView>, key: KeyView, row: EntityRow)
    requires
        !table.contains_key(key),
        row.key() == key,
    ensures
        after_delete(after_upsert(table, row), key) == table,
{
    assert(after_delete(after_upsert(table, row), key) =~= table);
}

} // verus!
