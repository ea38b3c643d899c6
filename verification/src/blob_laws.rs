//! No record ever holds a handle to bytes that were never written.

use vstd::prelude::*;

use crate::blobs::write_blob_step;
use crate::diff::diff_steps;
use crate::ids::{DatabaseId, FieldId, Link};
use crate::persist_laws::{
    follows, persisting_keeps_the_rest, schema_column, schema_field, standing_field, stands_at,
};
use crate::record::ValueView;
use crate::records::{blob_hash, create_record_steps, delete_record_steps, set_value_step};
use crate::registry::{
    database_index, database_of, field_in, field_replaced, has_database, retype_error,
};
use crate::registry_laws::{consistent, field_at, is_field, retype_field_keeps_consistent};
use crate::retype_laws::{are_rows_of, migrated_row_by_row, replaced_schema, retype_field_comes_to};
use crate::schema::{field_position_found, DatabaseView, FieldKindView, FieldView};
use crate::sql::SqlView;
use crate::steps::StepView;
use crate::store::{migrated, migrated_rows, retype_steps, RetypeRowView};
use crate::store_laws::{
    create_record_comes_to, delete_record_comes_to, empty_tables, found_where_linked, link_text,
    rows_of_applied, sound,
};
use crate::tables::{all_applied, applied, at, unless_null, Tables};

verus! {

/// Whether values of this kind are handles on blobs.
pub open spec fn holds_blobs(kind: FieldKindView) -> bool {
    kind is Blob || kind is CustomBlob
}

/// Whether a cell belongs to a field whose values are handles on blobs.
pub open spec fn is_blob_cell(
    databases: Seq<DatabaseView>,
    key: (DatabaseId, Link, FieldId),
) -> bool {
    schema_field(databases, key.2) matches Some((owner, field)) && owner == key.0 && holds_blobs(
        field.kind,
    )
}

/// Whether a cell holds the hash of bytes that are stored.
pub open spec fn holds_stored_hash(tables: Tables, value: SqlView) -> bool {
    value matches SqlView::Text(hash) && tables.blobs.dom().contains(hash)
}

/// Whether every handle that a record holds is on bytes that are stored.
pub open spec fn blobs_anchored(tables: Tables, databases: Seq<DatabaseView>) -> bool {
    forall|key: (DatabaseId, Link, FieldId)|
        (#[trigger] at(tables.cells, key)) is Some && is_blob_cell(databases, key)
            ==> holds_stored_hash(tables, tables.cells[key])
}

/// A store without databases holds no handles.
pub proof fn empty_store_holds_no_handles()
    ensures
        blobs_anchored(empty_tables(), Seq::empty()),
{
}

/// Taking cells away, and adding blobs, leaves every handle on stored bytes.
proof fn fewer_cells(tables: Tables, end: Tables, databases: Seq<DatabaseView>)
    requires
        blobs_anchored(tables, databases),
        forall|hash: Seq<char>| #[trigger]
            tables.blobs.dom().contains(hash) ==> end.blobs.dom().contains(hash),
        forall|key: (DatabaseId, Link, FieldId)|
            (#[trigger] at(end.cells, key)) is None || at(end.cells, key) == at(tables.cells, key),
    ensures
        blobs_anchored(end, databases),
{
    assert forall|key: (DatabaseId, Link, FieldId)|
        (#[trigger] at(end.cells, key)) is Some && is_blob_cell(
            databases,
            key,
        ) implies holds_stored_hash(end, end.cells[key]) by {
        assert(at(tables.cells, key) == at(end.cells, key));
        assert(holds_stored_hash(tables, tables.cells[key]));
    }
}

/// Setting a value never leaves a handle on bytes that are not stored, since
/// such a value is refused.
pub proof fn set_value_keeps_blobs_anchored(
    tables: Tables,
    databases: Seq<DatabaseView>,
    link: Link,
    field_id: FieldId,
    value: ValueView,
    blob_exists: bool,
    now: Seq<char>,
)
    requires
        sound(tables, databases),
        blobs_anchored(tables, databases),
        blob_hash(value) matches Some(hash) ==> blob_exists == tables.blobs.dom().contains(hash),
    ensures
        set_value_step(
            databases,
            link,
            field_id,
            value,
            link_text(tables, link),
            blob_exists,
            now,
        ) matches Ok(step) ==> blobs_anchored(applied(tables, step), databases),
{
    let row = link_text(tables, link);
    if let Ok(step) = set_value_step(databases, link, field_id, value, row, blob_exists, now) {
        found_where_linked(tables, link);
        let database_id = at(tables.links, link)->0;
        let field = field_in(databases, database_id, field_id);
        let end = applied(tables, step);
        rows_of_applied(tables, step);
        let i = database_index(databases, database_id);
        field_position_found(databases[i].fields, field_id);
        let k = crate::schema::field_position(databases[i].fields, field_id)->0;
        assert(is_field(databases, i, k));
        assert(field_at(databases, i, k) == field);
        standing_field(databases, i, k);
        assert forall|key: (DatabaseId, Link, FieldId)|
            (#[trigger] at(end.cells, key)) is Some && is_blob_cell(
                databases,
                key,
            ) implies holds_stored_hash(end, end.cells[key]) by {
            if key == (database_id, link, field_id) {
                assert(tables.records.dom().contains((database_id, link)));
                assert(at(end.cells, key) == unless_null(step->SetValue_value));
                let hash = blob_hash(value)->0;
                assert(at(end.blobs, hash) == at(tables.blobs, hash));
            } else {
                assert(at(end.cells, key) == at(tables.cells, key));
                assert(holds_stored_hash(tables, tables.cells[key]));
                let hash = tables.cells[key]->Text_0;
                assert(at(end.blobs, hash) == at(tables.blobs, hash));
            }
        }
    }
}

/// Writing a blob leaves every handle on stored bytes.
pub proof fn write_blob_keeps_blobs_anchored(
    tables: Tables,
    databases: Seq<DatabaseView>,
    bytes: Seq<u8>,
    filename: Option<Seq<char>>,
    now: Seq<char>,
)
    requires
        blobs_anchored(tables, databases),
    ensures
        blobs_anchored(applied(tables, write_blob_step(bytes, filename, now)), databases),
{
    let step = write_blob_step(bytes, filename, now);
    let end = applied(tables, step);
    rows_of_applied(tables, step);
    assert forall|hash: Seq<char>| #[trigger]
        tables.blobs.dom().contains(hash) implies end.blobs.dom().contains(hash) by {
        assert(at(end.blobs, hash) is Some);
    }
    fewer_cells(tables, end, databases);
}

/// Creating a record leaves every handle on stored bytes.
pub proof fn create_record_keeps_blobs_anchored(
    tables: Tables,
    databases: Seq<DatabaseView>,
    database_id: DatabaseId,
    link: Link,
    now: Seq<char>,
)
    requires
        sound(tables, databases),
        blobs_anchored(tables, databases),
        has_database(databases, database_id),
        !tables.links.dom().contains(link),
    ensures
        blobs_anchored(
            all_applied(tables, create_record_steps(database_id, link, now)),
            databases,
        ),
{
    create_record_comes_to(tables, databases, database_id, link, now);
    let end = all_applied(tables, create_record_steps(database_id, link, now));
    fewer_cells(tables, end, databases);
}

/// Deleting a record leaves every handle on stored bytes.
pub proof fn delete_record_keeps_blobs_anchored(
    tables: Tables,
    databases: Seq<DatabaseView>,
    database_id: DatabaseId,
    link: Link,
)
    requires
        sound(tables, databases),
        blobs_anchored(tables, databases),
        at(tables.links, link) == Some(database_id),
    ensures
        blobs_anchored(
            all_applied(
                tables,
                delete_record_steps(database_of(databases, database_id).fields, database_id, link),
            ),
            databases,
        ),
{
    delete_record_comes_to(tables, databases, database_id, link);
    let end = all_applied(
        tables,
        delete_record_steps(database_of(databases, database_id).fields, database_id, link),
    );
    fewer_cells(tables, end, databases);
}

/// Creating and deleting relationships leaves every handle on stored bytes.
pub proof fn references_keep_blobs_anchored(
    tables: Tables,
    databases: Seq<DatabaseView>,
    step: StepView,
)
    requires
        blobs_anchored(tables, databases),
        step is InsertReference || step is DeleteReference,
    ensures
        blobs_anchored(applied(tables, step), databases),
{
    let end = applied(tables, step);
    rows_of_applied(tables, step);
    assert forall|hash: Seq<char>| #[trigger]
        tables.blobs.dom().contains(hash) implies end.blobs.dom().contains(hash) by {
        assert(at(end.blobs, hash) is Some);
    }
    fewer_cells(tables, end, databases);
}

/// Persisting a change of the registry leaves every handle on stored bytes.
pub proof fn persisting_keeps_blobs_anchored(
    tables: Tables,
    before: Seq<DatabaseView>,
    after: Seq<DatabaseView>,
)
    requires
        sound(tables, before),
        blobs_anchored(tables, before),
        consistent(after),
        follows(before, after),
    ensures
        blobs_anchored(all_applied(tables, diff_steps(before, after)), after),
{
    let end = all_applied(tables, diff_steps(before, after));
    persisting_keeps_the_rest(tables, before, after);
    assert forall|key: (DatabaseId, Link, FieldId)|
        (#[trigger] at(end.cells, key)) is Some && is_blob_cell(
            after,
            key,
        ) implies holds_stored_hash(end, end.cells[key]) by {
        assert(at(end.cells, key) == at(tables.cells, key));
        assert(tables.cells.dom().contains(key));
        assert(tables.columns.dom().contains((key.0, key.2)));
        assert(at(tables.columns, (key.0, key.2)) == schema_column(before, (key.0, key.2)));
        let (i, k) = choose|i: int, k: int| stands_at(before, key.2, i, k);
        let (j, m) = choose|j: int, m: int| stands_at(after, key.2, j, m);
        assert(field_at(before, i, k).id == field_at(after, j, m).id);
        assert(holds_stored_hash(tables, tables.cells[key]));
    }
}

/// Giving a field another kind leaves every handle on stored bytes.
pub proof fn retype_field_keeps_blobs_anchored(
    tables: Tables,
    databases: Seq<DatabaseView>,
    database_id: DatabaseId,
    field_id: FieldId,
    new_kind: FieldKindView,
    rows: Seq<RetypeRowView>,
    links: Seq<Link>,
)
    requires
        sound(tables, databases),
        blobs_anchored(tables, databases),
        retype_error(databases, database_id, field_id, new_kind) is None,
        are_rows_of(tables, database_id, field_id, rows, links),
        migrated_rows(
            database_id,
            field_id,
            field_in(databases, database_id, field_id).kind,
            new_kind,
            rows,
        ) is Ok,
    ensures
        ({
            let field = field_in(databases, database_id, field_id);
            let (values, _) = migrated_rows(
                database_id,
                field_id,
                field.kind,
                new_kind,
                rows,
            )->Ok_0;
            blobs_anchored(
                all_applied(tables, retype_steps(database_id, field_id, new_kind, values)),
                field_replaced(databases, database_id, FieldView { kind: new_kind, ..field }),
            )
        }),
{
    let field = field_in(databases, database_id, field_id);
    let new_field = FieldView { kind: new_kind, ..field };
    let after = field_replaced(databases, database_id, new_field);
    let (values, _) = migrated_rows(database_id, field_id, field.kind, new_kind, rows)->Ok_0;
    let end = all_applied(tables, retype_steps(database_id, field_id, new_kind, values));
    retype_field_comes_to(tables, databases, database_id, field_id, new_kind, rows, links);
    migrated_row_by_row(database_id, field_id, field.kind, new_kind, rows);
    field_position_found(database_of(databases, database_id).fields, field_id);
    retype_field_keeps_consistent(databases, database_id, field_id, new_kind);
    replaced_schema(databases, database_id, new_field);
    assert forall|key: (DatabaseId, Link, FieldId)|
        (#[trigger] at(end.cells, key)) is Some && is_blob_cell(
            after,
            key,
        ) implies holds_stored_hash(end, end.cells[key]) by {
        if key.2 == field_id {
            assert(key.0 == database_id);
            let link = key.1;
            assert(end.cells.dom().contains(key));
            assert(end.records.dom().contains((key.0, key.1)));
            assert(links.contains(link));
            let i = choose|i: int| 0 <= i < links.len() && links[i] == link;
            assert(at(end.cells, (database_id, links[i], field_id)) == unless_null(
                migrated(field_id, field.kind, new_kind, rows[i])->Ok_0.value,
            ));
            assert(values[i] is SetSpareValue);
            assert(rows[i].link == crate::uuids::uuid_text(links[i].0));
            assert(at(tables.cells, key) is Some);
            assert(is_blob_cell(databases, key));
            assert(holds_stored_hash(tables, tables.cells[key]));
        } else {
            assert(at(end.cells, key) == at(tables.cells, key));
            assert(is_blob_cell(databases, key));
            assert(holds_stored_hash(tables, tables.cells[key]));
        }
    }
}

} // verus!
