//! What holds of every store that its operations can lead to.

use vstd::prelude::*;

use crate::agreement_laws::persisted;
use crate::blob_laws::{
    blobs_anchored, create_record_keeps_blobs_anchored, delete_record_keeps_blobs_anchored,
    empty_store_holds_no_handles, holds_stored_hash, is_blob_cell,
    persisting_keeps_blobs_anchored, references_keep_blobs_anchored,
    retype_field_keeps_blobs_anchored, set_value_keeps_blobs_anchored,
    write_blob_keeps_blobs_anchored,
};
use crate::blobs::write_blob_step;
use crate::cell_laws::{
    cells_readable, create_record_keeps_cells_readable, delete_record_keeps_cells_readable,
    empty_store_is_readable, is_readable_cell, other_steps_keep_cells_readable,
    persisting_keeps_cells_readable,
    set_value_keeps_cells_readable, times_stamped,
};
use crate::codec::{column_value, reads_back};
use crate::error::ErrorView;
use crate::ids::{DatabaseId, FieldId, Link, ReferenceId};
use crate::opening::{loaded_databases, loaded_fields};
use crate::order_laws::{
    empty_store_is_numbered, growing_keeps_order, keeps_order, numbers_rise,
    persisting_keeps_numbers_rising, removing_database_keeps_order, removing_keeps_order,
    replacing_keeps_order, retyping_keeps_numbers_rising,
};
use crate::persist_laws::{
    add_field_persists, create_database_persists, duplicate_database_schema_persists, follows,
    persisting_keeps_the_rest, remove_database_persists, remove_field_persists,
    rename_field_persists, schema_column, schema_database, schema_field, standing_field,
};
use crate::record::ValueView;
use crate::records::{
    blob_hash, create_record_steps, delete_record_steps, set_value_step,
};
use crate::registry::{
    add_field_error, collected, database_index, database_of, database_removed, empty_database,
    field_added,
    field_error, field_in, field_removed, field_replaced, has_database, is_database, retype_error,
    schema_duplicated, with_database,
};
use crate::registry_laws::{
    add_field_grows, add_field_keeps_consistent, are_fresh_ids, consistent, create_database_grows,
    create_database_keeps_consistent,
    duplicate_database_schema_copies, empty_is_consistent, field_at, is_field, is_fresh_field,
    remove_database_keeps_consistent, remove_field_keeps_consistent, rename_field_keeps_consistent,
    retype_field_keeps_consistent,
};
use crate::relations::{delete_reference_step, insert_reference_step, reference_created};
use crate::reopen_laws::{
    database_rows_read, field_rows_read, reads_all_fields, reads_databases, reads_fields,
    registry_read,
    reopening_gives_the_registry_back, reopening_gives_the_schema_back,
    reopening_keeps_numbers_rising, reopening_keeps_sound, reopening_keeps_the_order, same_answers,
};
use crate::retype_laws::{
    are_rows_of, retype_field_comes_to, retype_field_keeps_cells_readable, stored_values_migrate,
};
use crate::schema::{field_position, field_position_found, DatabaseView, FieldKindView, FieldView};
use crate::steps::StepView;
use crate::store::{migrated_reads_back, migrated_rows, retype_steps, RetypeRowView};
use crate::store_laws::{
    content_addressed, create_record_comes_to, create_reference_comes_to, delete_record_comes_to,
    delete_reference_comes_to, empty_store_is_sound, empty_tables, found_where_linked, link_text,
    persisting_keeps_sound, set_value_comes_to, sound, write_blob_comes_to,
};
use crate::tables::{all_applied, applied, at, Tables};
use crate::timestamp::is_stamp;

verus! {

/// A change of the registry that is persisted as it is.
pub ghost enum SchemaChange {
    CreateDatabase { id: DatabaseId, name: Seq<char> },
    AddField {
        database_id: DatabaseId,
        name: Seq<char>,
        kind: FieldKindView,
        field_id: FieldId,
        back_id: FieldId,
    },
    RenameField { database_id: DatabaseId, field_id: FieldId, name: Seq<char> },
    RemoveField { database_id: DatabaseId, field_id: FieldId },
    RemoveDatabase { id: DatabaseId },
    DuplicateSchema {
        source: DatabaseId,
        name: Seq<char>,
        copy: DatabaseId,
        ids: Seq<(FieldId, FieldId)>,
    },
}

/// Whether a change of the registry can be made, with ids that are not in use
/// where it needs some.
pub open spec fn can_change(databases: Seq<DatabaseView>, change: SchemaChange) -> bool {
    match change {
        SchemaChange::CreateDatabase { id, .. } => !has_database(databases, id),
        SchemaChange::AddField { database_id, kind, field_id, back_id, .. } => {
            &&& add_field_error(databases, database_id, kind) is None
            &&& is_fresh_field(databases, field_id)
            &&& is_fresh_field(databases, back_id)
            &&& field_id != back_id
        },
        SchemaChange::RenameField { database_id, field_id, .. } => field_error(
            databases,
            database_id,
            field_id,
        ) is None,
        SchemaChange::RemoveField { database_id, field_id } => field_error(
            databases,
            database_id,
            field_id,
        ) is None,
        SchemaChange::RemoveDatabase { id } => has_database(databases, id),
        SchemaChange::DuplicateSchema { source, copy, ids, .. } => {
            &&& has_database(databases, source)
            &&& !has_database(databases, copy)
            &&& ids.len() == database_of(databases, source).fields.len()
            &&& are_fresh_ids(databases, ids)
        },
    }
}

/// The registry after a change.
pub open spec fn changed(databases: Seq<DatabaseView>, change: SchemaChange) -> Seq<DatabaseView> {
    match change {
        SchemaChange::CreateDatabase { id, name } => with_database(
            databases,
            empty_database(id, name),
        ),
        SchemaChange::AddField { database_id, name, kind, field_id, back_id } => field_added(
            databases,
            database_id,
            name,
            kind,
            field_id,
            back_id,
        ),
        SchemaChange::RenameField { database_id, field_id, name } => field_replaced(
            databases,
            database_id,
            FieldView { name, ..field_in(databases, database_id, field_id) },
        ),
        SchemaChange::RemoveField { database_id, field_id } => field_removed(
            databases,
            database_id,
            field_id,
        ),
        SchemaChange::RemoveDatabase { id } => database_removed(databases, id),
        SchemaChange::DuplicateSchema { source, name, copy, ids } => schema_duplicated(
            databases,
            source,
            name,
            copy,
            ids,
        )->Ok_0,
    }
}

/// Every change of a registry keeps it consistent, keeps the order of the fields
/// that stay, and can be persisted.
pub proof fn every_change_keeps_consistent(databases: Seq<DatabaseView>, change: SchemaChange)
    requires
        consistent(databases),
        can_change(databases, change),
    ensures
        consistent(changed(databases, change)),
        follows(databases, changed(databases, change)),
        keeps_order(databases, changed(databases, change)),
{
    match change {
        SchemaChange::CreateDatabase { id, name } => {
            create_database_grows(databases, id, name);
            create_database_keeps_consistent(databases, id, name);
            create_database_persists(databases, id, name);
            growing_keeps_order(databases, changed(databases, change));
        },
        SchemaChange::AddField { database_id, name, kind, field_id, back_id } => {
            add_field_keeps_consistent(databases, database_id, name, kind, field_id, back_id);
            add_field_persists(databases, database_id, name, kind, field_id, back_id);
            add_field_grows(databases, database_id, name, kind, field_id, back_id);
            growing_keeps_order(databases, changed(databases, change));
        },
        SchemaChange::RenameField { database_id, field_id, name } => {
            rename_field_keeps_consistent(databases, database_id, field_id, name);
            rename_field_persists(databases, database_id, field_id, name);
            field_position_found(database_of(databases, database_id).fields, field_id);
            let field = FieldView { name, ..field_in(databases, database_id, field_id) };
            replacing_keeps_order(databases, database_id, field);
        },
        SchemaChange::RemoveField { database_id, field_id } => {
            remove_field_keeps_consistent(databases, database_id, field_id);
            remove_field_persists(databases, database_id, field_id);
            removing_keeps_order(databases, database_id, field_id);
        },
        SchemaChange::RemoveDatabase { id } => {
            remove_database_keeps_consistent(databases, id);
            remove_database_persists(databases, id);
            removing_database_keeps_order(databases, id);
        },
        SchemaChange::DuplicateSchema { source, name, copy, ids } => {
            duplicate_database_schema_copies(databases, source, name, copy, ids);
            duplicate_database_schema_persists(databases, source, name, copy, ids);
            growing_keeps_order(databases, changed(databases, change));
        },
    }
}

/// Any change of a registry: one that is persisted as it is, or another kind
/// for a field.
pub ghost enum RegistryChange {
    Persisted { change: SchemaChange },
    RetypeField { database_id: DatabaseId, field_id: FieldId, new_kind: FieldKindView },
}

/// Whether a change of the registry can be made, with ids that are not in use
/// where it needs some.
pub open spec fn can_become(databases: Seq<DatabaseView>, change: RegistryChange) -> bool {
    match change {
        RegistryChange::Persisted { change } => can_change(databases, change),
        RegistryChange::RetypeField { database_id, field_id, new_kind } => retype_error(
            databases,
            database_id,
            field_id,
            new_kind,
        ) is None,
    }
}

/// The registry after a history of changes. One that fails changes nothing, so
/// it leaves no trace there.
pub open spec fn registry_after(changes: Seq<RegistryChange>) -> Seq<DatabaseView>
    decreases changes.len(),
{
    if changes.len() == 0 {
        Seq::empty()
    } else {
        let before = registry_after(changes.drop_last());
        match changes.last() {
            RegistryChange::Persisted { change } => changed(before, change),
            RegistryChange::RetypeField { database_id, field_id, new_kind } => field_replaced(
                before,
                database_id,
                FieldView { kind: new_kind, ..field_in(before, database_id, field_id) },
            ),
        }
    }
}

/// Whether every change of a history can be made in its turn.
pub open spec fn all_can_become(changes: Seq<RegistryChange>) -> bool
    decreases changes.len(),
{
    changes.len() > 0 ==> all_can_become(changes.drop_last()) && can_become(
        registry_after(changes.drop_last()),
        changes.last(),
    )
}

/// Every registry that changes lead to from an empty one is consistent: no id
/// is shared, and every reference field has its counterpart.
pub proof fn every_registry_is_consistent(changes: Seq<RegistryChange>)
    requires
        all_can_become(changes),
    ensures
        consistent(registry_after(changes)),
    decreases changes.len(),
{
    if changes.len() == 0 {
        empty_is_consistent();
    } else {
        every_registry_is_consistent(changes.drop_last());
        let before = registry_after(changes.drop_last());
        match changes.last() {
            RegistryChange::Persisted { change } => {
                every_change_keeps_consistent(before, change);
            },
            RegistryChange::RetypeField { database_id, field_id, new_kind } => {
                retype_field_keeps_consistent(before, database_id, field_id, new_kind);
            },
        }
    }
}

/// A store: its tables and its registry.
pub ghost struct State {
    pub tables: Tables,
    pub databases: Seq<DatabaseView>,
}

/// What an operation that succeeds does, with the answers that the tables gave
/// it.
pub ghost enum Operation {
    ChangeSchema { change: SchemaChange },
    RetypeField {
        database_id: DatabaseId,
        field_id: FieldId,
        new_kind: FieldKindView,
        rows: Seq<RetypeRowView>,
        links: Seq<Link>,
    },
    CreateRecord { database_id: DatabaseId, link: Link, now: Seq<char> },
    SetValue { link: Link, field_id: FieldId, value: ValueView, blob_exists: bool, now: Seq<char> },
    DeleteRecord { database_id: DatabaseId, link: Link },
    CreateReference {
        source_link: Link,
        source_field: FieldId,
        target_link: Link,
        id: ReferenceId,
    },
    DeleteReference { id: ReferenceId, field: FieldId },
    WriteBlob { bytes: Seq<u8>, filename: Option<Seq<char>>, now: Seq<char> },
    Reopen { order: Seq<DatabaseId>, field_order: spec_fn(DatabaseId) -> Seq<FieldId> },
}

/// What setting a value comes to in a store.
pub open spec fn value_step(
    state: State,
    link: Link,
    field_id: FieldId,
    value: ValueView,
    blob_exists: bool,
    now: Seq<char>,
) -> core::result::Result<StepView, ErrorView> {
    set_value_step(
        state.databases,
        link,
        field_id,
        value,
        link_text(state.tables, link),
        blob_exists,
        now,
    )
}

/// Whether what is written for a value reads as the value. `Store::set_value`
/// promises it of every step that it gives.
pub open spec fn value_reads_back(
    databases: Seq<DatabaseView>,
    field_id: FieldId,
    value: ValueView,
    step: StepView,
) -> bool {
    step matches StepView::SetValue { database_id, value: held, .. } && reads_back(
        field_in(databases, database_id, field_id).kind,
        held,
        column_value(value),
    )
}

/// Whether an operation succeeds, with the answers that the tables give it and
/// with ids that are not in use.
pub open spec fn succeeds(state: State, operation: Operation) -> bool {
    let State { tables, databases } = state;
    match operation {
        Operation::ChangeSchema { change } => can_change(databases, change),
        Operation::RetypeField { database_id, field_id, new_kind, rows, links } => {
            &&& retype_error(databases, database_id, field_id, new_kind) is None
            &&& are_rows_of(tables, database_id, field_id, rows, links)
            &&& forall|i: int|
                0 <= i < rows.len() ==> migrated_reads_back(
                    field_id,
                    field_in(databases, database_id, field_id).kind,
                    new_kind,
                    #[trigger] rows[i],
                )
        },
        Operation::CreateRecord { database_id, link, now } => {
            &&& has_database(databases, database_id)
            &&& !tables.links.dom().contains(link)
            &&& is_stamp(now)
        },
        Operation::SetValue { link, field_id, value, blob_exists, now } => {
            &&& value_step(state, link, field_id, value, blob_exists, now) matches Ok(step)
                && value_reads_back(databases, field_id, value, step)
            &&& blob_hash(value) matches Some(hash) ==> blob_exists == tables.blobs.dom().contains(
                hash,
            )
            &&& is_stamp(now)
        },
        Operation::DeleteRecord { database_id, link } => at(tables.links, link) == Some(
            database_id,
        ),
        Operation::CreateReference { source_link, source_field, target_link, id } => {
            reference_created(
                databases,
                source_link,
                source_field,
                target_link,
                link_text(tables, source_link),
                link_text(tables, target_link),
                id,
            ) is Ok
        },
        Operation::DeleteReference { id, field } => delete_reference_step(
            databases,
            id,
            field,
        ) is Ok,
        Operation::WriteBlob { .. } => true,
        Operation::Reopen { order, field_order } => {
            &&& reads_databases(tables, order)
            &&& reads_all_fields(tables, order, field_order)
        },
    }
}

/// The store after an operation.
pub open spec fn after(state: State, operation: Operation) -> State {
    let State { tables, databases } = state;
    match operation {
        Operation::ChangeSchema { change } => State {
            tables: persisted(tables, databases, changed(databases, change)),
            databases: changed(databases, change),
        },
        Operation::RetypeField { database_id, field_id, new_kind, rows, .. } => {
            let field = field_in(databases, database_id, field_id);
            let (values, _) = migrated_rows(
                database_id,
                field_id,
                field.kind,
                new_kind,
                rows,
            )->Ok_0;
            State {
                tables: all_applied(
                    tables,
                    retype_steps(database_id, field_id, new_kind, values),
                ),
                databases: field_replaced(
                    databases,
                    database_id,
                    FieldView { kind: new_kind, ..field },
                ),
            }
        },
        Operation::CreateRecord { database_id, link, now } => State {
            tables: all_applied(tables, create_record_steps(database_id, link, now)),
            databases,
        },
        Operation::SetValue { link, field_id, value, blob_exists, now } => State {
            tables: applied(
                tables,
                value_step(state, link, field_id, value, blob_exists, now)->Ok_0,
            ),
            databases,
        },
        Operation::DeleteRecord { database_id, link } => State {
            tables: all_applied(
                tables,
                delete_record_steps(database_of(databases, database_id).fields, database_id, link),
            ),
            databases,
        },
        Operation::CreateReference { source_link, source_field, target_link, id } => State {
            tables: applied(
                tables,
                insert_reference_step(
                    reference_created(
                        databases,
                        source_link,
                        source_field,
                        target_link,
                        link_text(tables, source_link),
                        link_text(tables, target_link),
                        id,
                    )->Ok_0,
                ),
            ),
            databases,
        },
        Operation::DeleteReference { id, field } => State {
            tables: applied(tables, delete_reference_step(databases, id, field)->Ok_0),
            databases,
        },
        Operation::WriteBlob { bytes, filename, now } => State {
            tables: applied(tables, write_blob_step(bytes, filename, now)),
            databases,
        },
        Operation::Reopen { order, field_order } => State {
            tables,
            databases: registry_read(tables, order, field_order),
        },
    }
}

/// What holds of every store: it is sound, the rows of its fields are numbered
/// along the registry's lists, every cell is read as a value that its field
/// accepts, every time is the text of an instant, every handle is on bytes that
/// are stored, and every blob is stored under the hash of its bytes.
pub open spec fn is_in_order(state: State) -> bool {
    &&& sound(state.tables, state.databases)
    &&& numbers_rise(state.tables, state.databases)
    &&& cells_readable(state.tables, state.databases)
    &&& times_stamped(state.tables)
    &&& blobs_anchored(state.tables, state.databases)
    &&& content_addressed(state.tables)
}

/// A new store is in order.
pub proof fn new_store_is_in_order()
    ensures
        is_in_order(State { tables: empty_tables(), databases: Seq::empty() }),
{
    empty_store_is_sound();
    empty_store_is_numbered();
    empty_store_is_readable();
    empty_store_holds_no_handles();
}

/// Whether the records are those that were there before, with the times that
/// they had, but for one that has new times, and for those that are gone.
spec fn times_follow(before: Tables, end: Tables, key: (DatabaseId, Link), now: Seq<char>) -> bool {
    forall|other: (DatabaseId, Link)|
        (#[trigger] at(end.records, other)) is Some ==> {
            ||| at(end.records, other) == at(before.records, other)
            ||| {
                &&& other == key
                &&& end.records[key].updated_at == now
                &&& end.records[key].created_at == now || (at(before.records, key) is Some
                    && end.records[key].created_at == before.records[key].created_at)
            }
        }
}

proof fn times_stay_stamped(
    before: Tables,
    end: Tables,
    key: (DatabaseId, Link),
    now: Seq<char>,
)
    requires
        times_stamped(before),
        times_follow(before, end, key, now),
        is_stamp(now),
    ensures
        times_stamped(end),
{
    assert forall|other: (DatabaseId, Link)|
        (#[trigger] at(end.records, other)) is Some implies {
        &&& is_stamp(end.records[other].created_at)
        &&& is_stamp(end.records[other].updated_at)
    } by {
        if at(end.records, other) == at(before.records, other) {
            assert(at(before.records, other) is Some);
        }
    }
}

proof fn persisting_keeps_order(state: State, databases: Seq<DatabaseView>)
    requires
        is_in_order(state),
        consistent(databases),
        follows(state.databases, databases),
        keeps_order(state.databases, databases),
    ensures
        is_in_order(
            State { tables: persisted(state.tables, state.databases, databases), databases },
        ),
{
    persisting_keeps_sound(state.tables, state.databases, databases);
    persisting_keeps_numbers_rising(state.tables, state.databases, databases);
    persisting_keeps_cells_readable(state.tables, state.databases, databases);
    persisting_keeps_blobs_anchored(state.tables, state.databases, databases);
    persisting_keeps_the_rest(state.tables, state.databases, databases);
    let end = persisted(state.tables, state.databases, databases);
    assert forall|key: (DatabaseId, Link)| (#[trigger] at(end.records, key)) is Some implies {
        &&& is_stamp(end.records[key].created_at)
        &&& is_stamp(end.records[key].updated_at)
    } by {
        assert(at(state.tables.records, key) is Some);
    }
}

proof fn retyping_keeps_order(
    state: State,
    database_id: DatabaseId,
    field_id: FieldId,
    new_kind: FieldKindView,
    rows: Seq<RetypeRowView>,
    links: Seq<Link>,
)
    requires
        is_in_order(state),
        succeeds(
            state,
            Operation::RetypeField { database_id, field_id, new_kind, rows, links },
        ),
    ensures
        is_in_order(
            after(state, Operation::RetypeField { database_id, field_id, new_kind, rows, links }),
        ),
{
    let State { tables, databases } = state;
    stored_values_migrate(tables, databases, database_id, field_id, new_kind, rows, links);
    retype_field_comes_to(tables, databases, database_id, field_id, new_kind, rows, links);
    field_position_found(database_of(databases, database_id).fields, field_id);
    retyping_keeps_numbers_rising(
        tables,
        after(
            state,
            Operation::RetypeField { database_id, field_id, new_kind, rows, links },
        ).tables,
        databases,
        database_id,
        FieldView { kind: new_kind, ..field_in(databases, database_id, field_id) },
    );
    retype_field_keeps_cells_readable(
        tables,
        databases,
        database_id,
        field_id,
        new_kind,
        rows,
        links,
    );
    retype_field_keeps_blobs_anchored(
        tables,
        databases,
        database_id,
        field_id,
        new_kind,
        rows,
        links,
    );
}

proof fn setting_keeps_order(
    state: State,
    link: Link,
    field_id: FieldId,
    value: ValueView,
    blob_exists: bool,
    now: Seq<char>,
)
    requires
        is_in_order(state),
        succeeds(state, Operation::SetValue { link, field_id, value, blob_exists, now }),
    ensures
        is_in_order(after(state, Operation::SetValue { link, field_id, value, blob_exists, now })),
{
    let State { tables, databases } = state;
    let step = value_step(state, link, field_id, value, blob_exists, now)->Ok_0;
    found_where_linked(tables, link);
    let database_id = at(tables.links, link)->0;
    let i = database_index(databases, database_id);
    assert(is_database(databases, database_id, i));
    field_position_found(databases[i].fields, field_id);
    let k = field_position(databases[i].fields, field_id)->0;
    assert(is_field(databases, i, k));
    assert(field_at(databases, i, k) == field_in(databases, database_id, field_id));
    standing_field(databases, i, k);
    assert(schema_column(databases, (database_id, field_id)) is Some);
    set_value_comes_to(
        tables,
        databases,
        database_id,
        field_id,
        step->SetValue_value,
        now,
        link,
    );
    set_value_keeps_cells_readable(
        tables,
        databases,
        link,
        field_id,
        value,
        blob_exists,
        now,
        step,
    );
    set_value_keeps_blobs_anchored(tables, databases, link, field_id, value, blob_exists, now);
    assert(tables.records.dom().contains((database_id, link)));
    times_stay_stamped(tables, applied(tables, step), (database_id, link), now);
}

/// Every operation that succeeds keeps a store in order.
pub proof fn every_operation_keeps_order(state: State, operation: Operation)
    requires
        is_in_order(state),
        succeeds(state, operation),
    ensures
        is_in_order(after(state, operation)),
{
    let State { tables, databases } = state;
    match operation {
        Operation::ChangeSchema { change } => {
            every_change_keeps_consistent(databases, change);
            persisting_keeps_order(state, changed(databases, change));
        },
        Operation::RetypeField { database_id, field_id, new_kind, rows, links } => {
            retyping_keeps_order(state, database_id, field_id, new_kind, rows, links);
        },
        Operation::CreateRecord { database_id, link, now } => {
            create_record_comes_to(tables, databases, database_id, link, now);
            create_record_keeps_cells_readable(tables, databases, database_id, link, now);
            create_record_keeps_blobs_anchored(tables, databases, database_id, link, now);
            let end = all_applied(tables, create_record_steps(database_id, link, now));
            times_stay_stamped(tables, end, (database_id, link), now);
        },
        Operation::SetValue { link, field_id, value, blob_exists, now } => {
            setting_keeps_order(state, link, field_id, value, blob_exists, now);
        },
        Operation::DeleteRecord { database_id, link } => {
            delete_record_comes_to(tables, databases, database_id, link);
            delete_record_keeps_cells_readable(tables, databases, database_id, link);
            delete_record_keeps_blobs_anchored(tables, databases, database_id, link);
            let end = after(state, operation).tables;
            assert forall|key: (DatabaseId, Link)|
                (#[trigger] at(end.records, key)) is Some implies {
                &&& is_stamp(end.records[key].created_at)
                &&& is_stamp(end.records[key].updated_at)
            } by {
                assert(at(tables.records, key) is Some);
            }
        },
        Operation::CreateReference { source_link, source_field, target_link, id } => {
            let reference = reference_created(
                databases,
                source_link,
                source_field,
                target_link,
                link_text(tables, source_link),
                link_text(tables, target_link),
                id,
            )->Ok_0;
            create_reference_comes_to(
                tables,
                databases,
                source_link,
                source_field,
                target_link,
                id,
                reference,
            );
            let step = insert_reference_step(reference);
            other_steps_keep_cells_readable(tables, databases, step);
            references_keep_blobs_anchored(tables, databases, step);
        },
        Operation::DeleteReference { id, field } => {
            let step = delete_reference_step(databases, id, field)->Ok_0;
            delete_reference_comes_to(
                tables,
                databases,
                field,
                step->DeleteReference_pair,
                id,
            );
            other_steps_keep_cells_readable(tables, databases, step);
            references_keep_blobs_anchored(tables, databases, step);
        },
        Operation::WriteBlob { bytes, filename, now } => {
            write_blob_comes_to(tables, bytes, filename, now);
            let step = write_blob_step(bytes, filename, now);
            other_steps_keep_cells_readable(tables, databases, step);
            write_blob_keeps_blobs_anchored(tables, databases, bytes, filename, now);
        },
        Operation::Reopen { order, field_order } => {
            reopening_keeps_sound(tables, databases, order, field_order);
            reopening_keeps_numbers_rising(tables, databases, order, field_order);
            let read = registry_read(tables, order, field_order);
            assert forall|key: (DatabaseId, Link, FieldId)|
                (#[trigger] at(tables.cells, key)) is Some implies is_readable_cell(
                read,
                key,
                tables.cells[key],
            ) by {
                assert(is_readable_cell(databases, key, tables.cells[key]));
                assert(schema_field(read, key.2) == schema_field(databases, key.2));
            }
            assert forall|key: (DatabaseId, Link, FieldId)|
                (#[trigger] at(tables.cells, key)) is Some && is_blob_cell(
                    read,
                    key,
                ) implies holds_stored_hash(tables, tables.cells[key]) by {
                assert(schema_field(read, key.2) == schema_field(databases, key.2));
                assert(is_blob_cell(databases, key));
            }
        },
    }
}

/// The store after a history of operations. One that fails changes nothing, so
/// it leaves no trace there.
pub open spec fn after_all(state: State, operations: Seq<Operation>) -> State
    decreases operations.len(),
{
    if operations.len() == 0 {
        state
    } else {
        after(after_all(state, operations.drop_last()), operations.last())
    }
}

/// Whether every operation of a history succeeds in its turn.
pub open spec fn all_succeed(state: State, operations: Seq<Operation>) -> bool
    decreases operations.len(),
{
    operations.len() > 0 ==> all_succeed(state, operations.drop_last()) && succeeds(
        after_all(state, operations.drop_last()),
        operations.last(),
    )
}

/// Every store that operations lead to from a store in order, such as a new
/// one, is in order.
pub proof fn every_store_is_in_order(state: State, operations: Seq<Operation>)
    requires
        is_in_order(state),
        all_succeed(state, operations),
    ensures
        is_in_order(after_all(state, operations)),
    decreases operations.len(),
{
    if operations.len() > 0 {
        every_store_is_in_order(state, operations.drop_last());
        every_operation_keeps_order(
            after_all(state, operations.drop_last()),
            operations.last(),
        );
    }
}

/// Every store that operations lead to reopens as it was: the rows of every
/// database's fields load as the registry's list, in its order, and every id
/// finds the database that it found before. `json` is the JSON text of a field's
/// options.
pub proof fn every_store_reopens_as_it_was(
    state: State,
    operations: Seq<Operation>,
    order: Seq<DatabaseId>,
    field_order: spec_fn(DatabaseId) -> Seq<FieldId>,
    json: spec_fn(FieldView) -> Seq<char>,
)
    requires
        is_in_order(state),
        all_succeed(state, operations),
        succeeds(after_all(state, operations), Operation::Reopen { order, field_order }),
    ensures
        ({
            let State { tables, databases } = after_all(state, operations);
            let read = registry_read(tables, order, field_order);
            &&& loaded_databases(database_rows_read(tables, order)) is Ok
            &&& forall|id: DatabaseId|
                has_database(databases, id) ==> #[trigger] loaded_fields(
                    field_rows_read(tables, field_order(id), json),
                ) == Ok::<Seq<FieldView>, ErrorView>(database_of(databases, id).fields)
            &&& collected(read) == read
            &&& same_answers(read, databases)
        }),
{
    every_store_is_in_order(state, operations);
    let State { tables, databases } = after_all(state, operations);
    reopening_gives_the_schema_back(tables, databases, order, field_order, json);
    reopening_gives_the_registry_back(tables, databases, order, field_order);
    assert forall|id: DatabaseId| has_database(databases, id) implies #[trigger] loaded_fields(
        field_rows_read(tables, field_order(id), json),
    ) == Ok::<Seq<FieldView>, ErrorView>(database_of(databases, id).fields) by {
        assert(at(tables.databases, id) == schema_database(databases, id));
        assert(order.contains(id));
        assert(reads_fields(tables, id, field_order(id)));
        reopening_keeps_the_order(tables, databases, id, field_order(id));
    }
}

} // verus!
