//! When a value can be set, what is then written, and what is read from a
//! column, kind by kind.

use vstd::prelude::*;

use crate::codec::{decoded_value, encoded_value};
use crate::date::date_reading;
use crate::error::ErrorView;
use crate::ids::{DatabaseId, FieldId, Link};
use crate::json::{json_fault, json_of_texts, texts_of_json};
use crate::kind::column_type;
use crate::record::{BlobRefView, ValueView};
use crate::records::{
    create_record_steps, decoded_cells, delete_record_steps, drafted, drafted_all, hydrated, ids_of,
    links_read, located_field, names_blobs, parsed_time, reference_fields, resolved, scalar_fields,
    set_value_step, targets, unlink_steps, DraftView, ListedCellsView, RecordCellsView,
};
use crate::reference::Reference;
use crate::registry::{database_index, is_database};
use crate::registry_laws::filter_agrees;
use crate::schema::{
    field_position_found, field_position_is, DatabaseView, FieldKindView, FieldView,
};
use crate::sql::{CellView, SqlView};
use crate::steps::StepView;
use crate::timestamp::{rfc3339_reading, Timestamp};
use crate::uuids::{uuid_reading, uuid_text, uuid_text_reads_back};

verus! {

/// A value of the field's own kind is always accepted: every text, number,
/// truth value, date and selection, every well-formed document, the bytes and
/// the blobs of the field's own plugin, every blob, and the empty value under
/// every kind. What is written is the value itself: a text as it is, a number
/// as it is, one for true and zero for false, a date as its text, names as
/// their list, a blob as its hash, bytes as they are, and null for nothing.
pub proof fn own_values_are_accepted(field: FieldId, kind: FieldKindView, value: ValueView)
    ensures
        value is Empty ==> encoded_value(field, kind, value) == Ok::<SqlView, ErrorView>(
            SqlView::Null,
        ),
        kind is Text ==> (value matches ValueView::Text(text) ==> encoded_value(field, kind, value)
            == Ok::<SqlView, ErrorView>(SqlView::Text(text))),
        kind is Number ==> (value matches ValueView::Number(number) ==> encoded_value(
            field,
            kind,
            value,
        ) == Ok::<SqlView, ErrorView>(SqlView::Real(number))),
        kind is Boolean ==> (value matches ValueView::Boolean(b) ==> encoded_value(
            field,
            kind,
            value,
        ) == Ok::<SqlView, ErrorView>(
            SqlView::Integer(
                if b {
                    1
                } else {
                    0
                },
            ),
        )),
        kind is Date ==> (value matches ValueView::Date(date) ==> encoded_value(field, kind, value)
            == Ok::<SqlView, ErrorView>(SqlView::Text(date.text()))),
        kind is Selection ==> (value matches ValueView::Selection(names) ==> encoded_value(
            field,
            kind,
            value,
        ) == Ok::<SqlView, ErrorView>(SqlView::Text(json_of_texts(names)))),
        kind is Blob ==> (value matches ValueView::Blob(blob) ==> encoded_value(field, kind, value)
            == Ok::<SqlView, ErrorView>(SqlView::Text(blob.hash))),
        kind is Json ==> (value matches ValueView::Json(json) ==> json_fault(json) is None
            ==> encoded_value(field, kind, value) == Ok::<SqlView, ErrorView>(SqlView::Text(json))),
        kind matches FieldKindView::Custom { kind_id } ==> forall|data: Seq<u8>|
            value == (ValueView::Custom { kind_id, data }) ==> #[trigger] encoded_value(
                field,
                kind,
                ValueView::Custom { kind_id, data },
            ) == Ok::<SqlView, ErrorView>(SqlView::Blob(data)),
        kind matches FieldKindView::CustomBlob { kind_id } ==> forall|blob: BlobRefView|
            value == (ValueView::CustomBlob { kind_id, blob }) ==> #[trigger] encoded_value(
                field,
                kind,
                ValueView::CustomBlob { kind_id, blob },
            ) == Ok::<SqlView, ErrorView>(SqlView::Text(blob.hash)),
{
}

/// Whether a value is of another kind than the field's, or of another plugin's.
pub open spec fn is_of_another_kind(kind: FieldKindView, value: ValueView) -> bool {
    match value {
        ValueView::Text(_) => kind !is Text,
        ValueView::Number(_) => kind !is Number,
        ValueView::Boolean(_) => kind !is Boolean,
        ValueView::Selection(_) => kind !is Selection,
        ValueView::Date(_) => kind !is Date,
        ValueView::Reference(_) => true,
        ValueView::Blob(_) => kind !is Blob,
        ValueView::Json(_) => kind !is Json,
        ValueView::Custom { kind_id, .. } => kind != (FieldKindView::Custom { kind_id }),
        ValueView::CustomBlob { kind_id, .. } => kind != (FieldKindView::CustomBlob { kind_id }),
        ValueView::Empty => false,
    }
}

/// The word by which a refusal names a kind.
proof fn refusals_name_the_kind(field: FieldId, kind: FieldKindView, value: ValueView)
    requires
        is_of_another_kind(kind, value),
    ensures
        encoded_value(field, kind, value) matches Err(
            ErrorView::ValueKindMismatch { field: named, expected },
        ) && named == field && match kind {
            FieldKindView::Text => expected == "text"@,
            FieldKindView::Number => expected == "number"@,
            FieldKindView::Boolean => expected == "boolean"@,
            FieldKindView::Date => expected == "date"@,
            FieldKindView::Selection { .. } => expected == "selection"@,
            FieldKindView::Blob => expected == "blob"@,
            FieldKindView::Json => expected == "json"@,
            FieldKindView::Custom { .. } => expected == "custom"@,
            FieldKindView::CustomBlob { .. } => expected == "custom_blob"@,
            FieldKindView::Reference { .. } => expected == "reference"@,
        },
{
}

/// A value is refused just where it is of another kind than the field's, and
/// then for that; but for a document that is not well-formed, which is refused
/// for what is wrong with it.
pub proof fn other_values_are_refused(field: FieldId, kind: FieldKindView, value: ValueView)
    ensures
        is_of_another_kind(kind, value) ==> (encoded_value(field, kind, value) matches Err(
            ErrorView::ValueKindMismatch { field: named, expected },
        ) && named == field && match kind {
            FieldKindView::Text => expected == "text"@,
            FieldKindView::Number => expected == "number"@,
            FieldKindView::Boolean => expected == "boolean"@,
            FieldKindView::Date => expected == "date"@,
            FieldKindView::Selection { .. } => expected == "selection"@,
            FieldKindView::Blob => expected == "blob"@,
            FieldKindView::Json => expected == "json"@,
            FieldKindView::Custom { .. } => expected == "custom"@,
            FieldKindView::CustomBlob { .. } => expected == "custom_blob"@,
            FieldKindView::Reference { .. } => expected == "reference"@,
        }),
        kind is Json ==> (value matches ValueView::Json(json) ==> (json_fault(json) matches Some(
            fault,
        ) ==> encoded_value(field, kind, value) == Err::<SqlView, ErrorView>(
            ErrorView::Storage("invalid JSON value: "@ + fault),
        ))),
        encoded_value(field, kind, value) is Err ==> is_of_another_kind(kind, value) || (value
            is Json && json_fault(value->Json_0) is Some),
{
    if is_of_another_kind(kind, value) {
        refusals_name_the_kind(field, kind, value);
    }
}

/// Whether a field stands in a database, with no other of its id before it,
/// and the database is the only one of its id.
pub open spec fn stands_at(databases: Seq<DatabaseView>, d: int, k: int) -> bool {
    &&& 0 <= d < databases.len()
    &&& forall|i: int|
        0 <= i < databases.len() && i != d ==> (#[trigger] databases[i]).id != databases[d].id
    &&& 0 <= k < databases[d].fields.len()
    &&& forall|i: int|
        0 <= i < k ==> (#[trigger] databases[d].fields[i]).id != databases[d].fields[k].id
}

/// A field that stands in a record's database is the one that is located.
pub(crate) proof fn located_where_it_stands(databases: Seq<DatabaseView>, d: int, k: int, link: Link)
    requires
        stands_at(databases, d, k),
    ensures
        located_field(
            databases,
            link,
            Some(uuid_text(databases[d].id.0)),
            databases[d].fields[k].id,
        ) == Ok::<(DatabaseId, FieldView), ErrorView>((databases[d].id, databases[d].fields[k])),
{
    let database_id = databases[d].id;
    let field_id = databases[d].fields[k].id;
    uuid_text_reads_back(database_id.0);
    assert(is_database(databases, database_id, d));
    let i = database_index(databases, database_id);
    assert(is_database(databases, database_id, i));
    assert(i == d);
    assert(DatabaseId(database_id.0) == database_id);
    field_position_is(databases[d].fields, field_id, k);
}

/// Setting a value succeeds where it should: on an existing record, for every
/// field that is not a reference, every value of the field's own kind is set,
/// the empty one always, a blob where it exists. The step that is given writes
/// what stands for the value into the field's column of the record's row, and
/// the time of the change beside it.
pub proof fn own_values_are_set(
    databases: Seq<DatabaseView>,
    d: int,
    k: int,
    link: Link,
    value: ValueView,
    blob_exists: bool,
    now: Seq<char>,
)
    requires
        stands_at(databases, d, k),
    ensures
        ({
            let field = databases[d].fields[k];
            let row = Some(uuid_text(databases[d].id.0));
            let step = set_value_step(databases, link, field.id, value, row, blob_exists, now);
            let sets = |held: SqlView|
                Ok::<StepView, ErrorView>(
                    StepView::SetValue {
                        database_id: databases[d].id,
                        field: field.id,
                        value: held,
                        now,
                        link,
                    },
                );
            &&& field.kind !is Reference && value is Empty ==> step == sets(SqlView::Null)
            &&& field.kind is Text ==> (value matches ValueView::Text(text) ==> step == sets(
                SqlView::Text(text),
            ))
            &&& field.kind is Number ==> (value matches ValueView::Number(number) ==> step == sets(
                SqlView::Real(number),
            ))
            &&& field.kind is Boolean ==> (value matches ValueView::Boolean(b) ==> step == sets(
                SqlView::Integer(
                    if b {
                        1
                    } else {
                        0
                    },
                ),
            ))
            &&& field.kind is Date ==> (value matches ValueView::Date(date) ==> step == sets(
                SqlView::Text(date.text()),
            ))
            &&& field.kind is Selection ==> (value matches ValueView::Selection(names) ==> step
                == sets(SqlView::Text(json_of_texts(names))))
            &&& field.kind is Json ==> (value matches ValueView::Json(json) ==> json_fault(
                json,
            ) is None ==> step == sets(SqlView::Text(json)))
            &&& field.kind is Blob && blob_exists ==> (value matches ValueView::Blob(blob) ==> step
                == sets(SqlView::Text(blob.hash)))
            &&& value matches ValueView::Custom { kind_id, data } ==> field.kind == (
            FieldKindView::Custom { kind_id }) ==> step == sets(SqlView::Blob(data))
            &&& value matches ValueView::CustomBlob { kind_id, blob } ==> field.kind == (
            FieldKindView::CustomBlob { kind_id }) && blob_exists ==> step == sets(
                SqlView::Text(blob.hash),
            )
        }),
{
    located_where_it_stands(databases, d, k, link);
}

/// Setting a value is refused where it should be: on a reference field always,
/// for a blob that does not exist, for a value of another kind than the
/// field's, and for a document that is not well-formed, each with its own
/// refusal. Nothing else is refused.
pub proof fn other_values_are_not_set(
    databases: Seq<DatabaseView>,
    d: int,
    k: int,
    link: Link,
    value: ValueView,
    blob_exists: bool,
    now: Seq<char>,
)
    requires
        stands_at(databases, d, k),
    ensures
        ({
            let field = databases[d].fields[k];
            let row = Some(uuid_text(databases[d].id.0));
            let step = set_value_step(databases, link, field.id, value, row, blob_exists, now);
            &&& field.kind is Reference ==> step == Err::<StepView, ErrorView>(
                ErrorView::UnsupportedFieldKindForValue { field: field.id, kind: "reference"@ },
            )
            &&& field.kind is Blob && !blob_exists ==> (value matches ValueView::Blob(blob) ==> step
                == Err::<StepView, ErrorView>(ErrorView::BlobNotFound(blob)))
            &&& field.kind is CustomBlob && !blob_exists ==> (value matches ValueView::CustomBlob {
                blob,
                ..
            } ==> step == Err::<StepView, ErrorView>(ErrorView::BlobNotFound(blob)))
            &&& field.kind !is Reference && is_of_another_kind(field.kind, value) && !(
            field.kind is CustomBlob && value is CustomBlob && !blob_exists) ==> step is Err
                && step->Err_0 is ValueKindMismatch
            &&& step is Err ==> {
                ||| field.kind is Reference
                ||| is_of_another_kind(field.kind, value)
                ||| value is Json && json_fault(value->Json_0) is Some
                ||| (value is Blob || value is CustomBlob) && !blob_exists
            }
        }),
{
    located_where_it_stands(databases, d, k, link);
    other_values_are_refused(databases[d].fields[k].id, databases[d].fields[k].kind, value);
}

/// A record that is not there is named by every operation on it, whatever the
/// field and the value are. A record whose database is not there, or whose
/// database has no such field, is refused for that.
pub proof fn what_is_missing_is_named(
    databases: Seq<DatabaseView>,
    link: Link,
    database_id: DatabaseId,
    field_id: FieldId,
    value: ValueView,
    blob_exists: bool,
    now: Seq<char>,
)
    ensures
        resolved(link, None) == Err::<DatabaseId, ErrorView>(ErrorView::RecordNotFound(link)),
        resolved(link, Some(uuid_text(database_id.0))) == Ok::<DatabaseId, ErrorView>(database_id),
        forall|text: Seq<char>|
            uuid_reading(text) is Err ==> #[trigger] resolved(link, Some(text)) == Err::<
                DatabaseId,
                ErrorView,
            >(ErrorView::Storage(uuid_reading(text)->Err_0)),
        set_value_step(databases, link, field_id, value, None, blob_exists, now) == Err::<
            StepView,
            ErrorView,
        >(ErrorView::RecordNotFound(link)),
        (forall|i: int| 0 <= i < databases.len() ==> (#[trigger] databases[i]).id != database_id)
            ==> set_value_step(
            databases,
            link,
            field_id,
            value,
            Some(uuid_text(database_id.0)),
            blob_exists,
            now,
        ) == Err::<StepView, ErrorView>(ErrorView::DatabaseNotFound(database_id)),
        forall|d: int|
            0 <= d < databases.len() && (#[trigger] databases[d]).id == database_id && (forall|
                i: int,
            |
                0 <= i < databases.len() && i != d ==> (#[trigger] databases[i]).id != database_id)
                && (forall|k: int|
                0 <= k < databases[d].fields.len() ==> (#[trigger] databases[d].fields[k]).id
                    != field_id) ==> set_value_step(
                databases,
                link,
                field_id,
                value,
                Some(uuid_text(database_id.0)),
                blob_exists,
                now,
            ) == Err::<StepView, ErrorView>(ErrorView::FieldNotFound(field_id)),
{
    uuid_text_reads_back(database_id.0);
    assert(DatabaseId(database_id.0) == database_id);
    assert forall|d: int|
        0 <= d < databases.len() && (#[trigger] databases[d]).id == database_id && (forall|i: int|
            0 <= i < databases.len() && i != d ==> (#[trigger] databases[i]).id != database_id) && (
        forall|k: int|
            0 <= k < databases[d].fields.len() ==> (#[trigger] databases[d].fields[k]).id
                != field_id) implies set_value_step(
        databases,
        link,
        field_id,
        value,
        Some(uuid_text(database_id.0)),
        blob_exists,
        now,
    ) == Err::<StepView, ErrorView>(ErrorView::FieldNotFound(field_id)) by {
        assert(is_database(databases, database_id, d));
        let i = database_index(databases, database_id);
        assert(is_database(databases, database_id, i));
        assert(i == d);
        field_position_found(databases[d].fields, field_id);
    }
}

/// What a column holds is read as a value of the field's kind: a text as
/// itself, a number as itself and an integer as the number nearest to it, every
/// integer but zero as true, a date and a list of names as what they are read
/// as, a hash as a handle without a filename, bytes as the plugin's own, and
/// null as the empty value under every kind.
pub proof fn columns_are_read(kind: FieldKindView, cell: CellView)
    ensures
        cell.value is Null ==> decoded_value(kind, cell) == Ok::<ValueView, ErrorView>(
            ValueView::Empty,
        ),
        cell.value matches SqlView::Text(text) ==> {
            &&& kind is Text ==> decoded_value(kind, cell) == Ok::<ValueView, ErrorView>(
                ValueView::Text(text),
            )
            &&& kind is Json ==> decoded_value(kind, cell) == Ok::<ValueView, ErrorView>(
                ValueView::Json(text),
            )
            &&& kind is Blob ==> decoded_value(kind, cell) == Ok::<ValueView, ErrorView>(
                ValueView::Blob(BlobRefView { hash: text, filename: None }),
            )
            &&& kind matches FieldKindView::CustomBlob { kind_id } ==> decoded_value(kind, cell)
                == Ok::<ValueView, ErrorView>(
                ValueView::CustomBlob {
                    kind_id,
                    blob: BlobRefView { hash: text, filename: None },
                },
            )
        },
        cell.value matches SqlView::Text(text) ==> kind is Date ==> decoded_value(kind, cell)
            == match date_reading(text) {
            Some(date) => Ok::<ValueView, ErrorView>(ValueView::Date(date)),
            None => Err(ErrorView::Storage("invalid stored date: "@ + text)),
        },
        cell.value matches SqlView::Text(text) ==> kind is Selection ==> decoded_value(kind, cell)
            == match texts_of_json(text) {
            Ok(names) => Ok::<ValueView, ErrorView>(ValueView::Selection(names)),
            Err(message) => Err(ErrorView::Storage(message)),
        },
        cell.value matches SqlView::Real(number) ==> kind is Number ==> decoded_value(kind, cell)
            == Ok::<ValueView, ErrorView>(ValueView::Number(number)),
        cell.value matches SqlView::Integer(n) ==> {
            &&& kind is Number ==> decoded_value(kind, cell) == Ok::<ValueView, ErrorView>(
                ValueView::Number(cell.nearest),
            )
            &&& kind is Boolean && n == 0 ==> decoded_value(kind, cell) == Ok::<
                ValueView,
                ErrorView,
            >(ValueView::Boolean(false))
            &&& kind is Boolean && n != 0 ==> decoded_value(kind, cell) == Ok::<
                ValueView,
                ErrorView,
            >(ValueView::Boolean(true))
        },
        cell.value matches SqlView::Blob(bytes) ==> (kind matches FieldKindView::Custom { kind_id }
            ==> decoded_value(kind, cell) == Ok::<ValueView, ErrorView>(
            ValueView::Custom { kind_id, data: bytes },
        )),
{
}

/// A column that holds what its kind is never stored as is refused, with what
/// was expected and what was found.
pub proof fn wrong_columns_are_refused(kind: FieldKindView, cell: CellView)
    requires
        cell.value !is Null,
    ensures
        (kind is Text || kind is Date || kind is Selection || kind is Blob || kind is Json || kind
            is CustomBlob) && cell.value !is Text ==> decoded_value(kind, cell) == Err::<
            ValueView,
            ErrorView,
        >(ErrorView::Storage("expected "@ + "a TEXT"@ + " column value, got "@ + cell.shown)),
        kind is Number && cell.value !is Real && cell.value !is Integer ==> decoded_value(
            kind,
            cell,
        ) == Err::<ValueView, ErrorView>(
            ErrorView::Storage("expected "@ + "a REAL"@ + " column value, got "@ + cell.shown),
        ),
        kind is Boolean && cell.value !is Integer ==> decoded_value(kind, cell) == Err::<
            ValueView,
            ErrorView,
        >(ErrorView::Storage("expected "@ + "an INTEGER"@ + " column value, got "@ + cell.shown)),
        kind is Custom && cell.value !is Blob ==> decoded_value(kind, cell) == Err::<
            ValueView,
            ErrorView,
        >(ErrorView::Storage("expected "@ + "a BLOB"@ + " column value, got "@ + cell.shown)),
{
}

/// A stored time is read as the instant that it stands for, or refused with
/// what is wrong with it.
pub proof fn times_are_read(text: Seq<char>)
    ensures
        rfc3339_reading(text) matches Ok(parts) ==> parsed_time(text) == Ok::<
            Timestamp,
            ErrorView,
        >(Timestamp::of(parts)),
        rfc3339_reading(text) matches Err(message) ==> parsed_time(text) == Err::<
            Timestamp,
            ErrorView,
        >(ErrorView::Storage(message)),
{
}

/// A row is read as a record just where both of its times and every one of its
/// cells can be read, and the record then has the link that it was asked for
/// by and the times that the row has, each in its own place.
pub proof fn rows_are_read(fields: Seq<FieldView>, link: Link, row: RecordCellsView)
    ensures
        drafted(fields, link, row) is Ok <==> {
            &&& parsed_time(row.created_at) is Ok
            &&& parsed_time(row.updated_at) is Ok
            &&& forall|i: int|
                0 <= i < fields.len() ==> decoded_value((#[trigger] fields[i]).kind, row.cells[i])
                    is Ok
        },
        parsed_time(row.created_at) matches Err(error) ==> drafted(fields, link, row) == Err::<
            DraftView,
            ErrorView,
        >(error),
        parsed_time(row.created_at) is Ok ==> (parsed_time(row.updated_at) matches Err(error)
            ==> drafted(fields, link, row) == Err::<DraftView, ErrorView>(error)),
        drafted(fields, link, row) matches Ok(draft) ==> {
            &&& draft.link == link
            &&& parsed_time(row.created_at) == Ok::<Timestamp, ErrorView>(draft.created_at)
            &&& parsed_time(row.updated_at) == Ok::<Timestamp, ErrorView>(draft.updated_at)
        },
{
    cells_are_read(fields, row.cells, fields.len());
}

/// The first cell that cannot be read is what a row is refused for.
pub proof fn bad_cells_are_refused(
    fields: Seq<FieldView>,
    link: Link,
    row: RecordCellsView,
    i: int,
)
    requires
        parsed_time(row.created_at) is Ok,
        parsed_time(row.updated_at) is Ok,
        0 <= i < fields.len(),
        decoded_value(fields[i].kind, row.cells[i]) is Err,
        forall|j: int|
            0 <= j < i ==> decoded_value((#[trigger] fields[j]).kind, row.cells[j]) is Ok,
    ensures
        drafted(fields, link, row) == Err::<DraftView, ErrorView>(
            decoded_value(fields[i].kind, row.cells[i])->Err_0,
        ),
{
    cells_are_read(fields, row.cells, i as nat);
    first_bad_cell_stays(fields, row.cells, i, fields.len());
}

proof fn first_bad_cell_stays(fields: Seq<FieldView>, cells: Seq<CellView>, i: int, n: nat)
    requires
        0 <= i < n <= fields.len(),
        decoded_cells(fields, cells, i as nat) is Ok,
        decoded_value(fields[i].kind, cells[i]) is Err,
    ensures
        decoded_cells(fields, cells, n) is Err,
        decoded_cells(fields, cells, n)->Err_0 == decoded_value(fields[i].kind, cells[i])->Err_0,
    decreases n,
{
    if i < n - 1 {
        first_bad_cell_stays(fields, cells, i, (n - 1) as nat);
    }
}

/// Rows are read one after the other: what one more row adds is the record that
/// it is read as, under the link that it has, and the first that cannot be read
/// fails them all.
pub proof fn listed_rows_are_read_in_turn(
    fields: Seq<FieldView>,
    rows: Seq<ListedCellsView>,
    row: ListedCellsView,
    link: Link,
)
    ensures
        drafted_all(fields, Seq::empty()) == Ok::<Seq<DraftView>, ErrorView>(Seq::empty()),
        drafted_all(fields, rows) matches Err(error) ==> drafted_all(fields, rows.push(row))
            == Err::<Seq<DraftView>, ErrorView>(error),
        drafted_all(fields, rows) matches Ok(drafts) ==> {
            &&& row.link == uuid_text(link.0) ==> match drafted(fields, link, row.row) {
                Ok(draft) => drafted_all(fields, rows.push(row)) == Ok::<Seq<DraftView>, ErrorView>(
                    drafts.push(draft),
                ),
                Err(error) => drafted_all(fields, rows.push(row)) == Err::<
                    Seq<DraftView>,
                    ErrorView,
                >(error),
            }
            &&& uuid_reading(row.link) matches Err(fault) ==> drafted_all(fields, rows.push(row))
                == Err::<Seq<DraftView>, ErrorView>(ErrorView::Storage(fault))
        },
{
    assert(rows.push(row).drop_last() =~= rows);
    uuid_text_reads_back(link.0);
    assert(Link(link.0) == link);
}

/// A field is read from a column just where it is no reference; a reference is
/// read from its relationships. Either way the fields stand in their order.
pub proof fn fields_are_read_by_their_kind(fields: Seq<FieldView>)
    ensures
        scalar_fields(fields) == fields.filter(|field: FieldView| field.kind !is Reference),
        reference_fields(fields) == fields.filter(|field: FieldView| field.kind is Reference),
        ids_of(fields).len() == fields.len(),
        forall|i: int| 0 <= i < fields.len() ==> #[trigger] ids_of(fields)[i] == fields[i].id,
{
    filter_agrees(
        fields,
        |field: FieldView| column_type(field.kind) is Some,
        |field: FieldView| field.kind !is Reference,
    );
}

/// The records that a field refers to are those at the other end, in the order
/// of the relationships, field by field.
pub proof fn fields_refer_to_the_other_end(
    references: Seq<Reference>,
    lists: Seq<(FieldId, Vec<Reference>)>,
)
    ensures
        links_read(lists).len() == lists.len(),
        forall|i: int|
            0 <= i < lists.len() ==> (#[trigger] links_read(lists)[i]).0 == lists[i].0
                && links_read(lists)[i].1 == targets(lists[i].1@),
        targets(references).len() == references.len(),
        forall|i: int|
            0 <= i < references.len() ==> #[trigger] targets(references)[i]
                == references[i].target_link,
{
}

/// The blobs of a record are all of those that it has a handle on, tagged or
/// not, each by its field and its hash, and nothing else.
pub proof fn every_handle_is_named(
    list: Seq<(FieldId, Seq<char>)>,
    values: Map<FieldId, ValueView>,
    field: FieldId,
)
    requires
        names_blobs(list, values),
        values.dom().contains(field),
    ensures
        values[field] matches ValueView::Blob(blob) ==> list.contains((field, blob.hash)),
        values[field] matches ValueView::CustomBlob { blob, .. } ==> list.contains(
            (field, blob.hash),
        ),
        values[field] !is Blob && values[field] !is CustomBlob ==> forall|i: int|
            0 <= i < list.len() ==> (#[trigger] list[i]).0 != field,
{
    if values[field] is Blob || values[field] is CustomBlob {
        let i = choose|i: int| 0 <= i < list.len() && (#[trigger] list[i]).0 == field;
        let hash = list[i].1;
        assert(list[i] == (field, hash));
        assert(list.contains((field, hash)));
    }
}

/// Cells can be read together just where each of them can.
proof fn cells_are_read(fields: Seq<FieldView>, cells: Seq<CellView>, n: nat)
    requires
        n <= fields.len(),
    ensures
        decoded_cells(fields, cells, n) is Ok <==> forall|i: int|
            0 <= i < n ==> decoded_value((#[trigger] fields[i]).kind, cells[i]) is Ok,
    decreases n,
{
    if n > 0 {
        cells_are_read(fields, cells, (n - 1) as nat);
    }
}

/// Looking up a blob's filename fills it in, or clears it where there is none,
/// and keeps the hash and the tag. No other value is changed.
pub proof fn filename_is_filled_in(
    blob: BlobRefView,
    kind_id: Seq<char>,
    value: ValueView,
    filename: Option<Seq<char>>,
)
    ensures
        hydrated(ValueView::Blob(blob), filename) == ValueView::Blob(
            BlobRefView { hash: blob.hash, filename },
        ),
        hydrated(ValueView::CustomBlob { kind_id, blob }, filename) == (ValueView::CustomBlob {
            kind_id,
            blob: BlobRefView { hash: blob.hash, filename },
        }),
        value !is Blob && value !is CustomBlob ==> hydrated(value, filename) == value,
{
}

/// Creating a record writes its link and its row, both for the database that
/// was asked for.
pub proof fn creating_writes_link_and_row(database_id: DatabaseId, link: Link, now: Seq<char>)
    ensures
        create_record_steps(database_id, link, now) == seq![
            StepView::InsertLink { link, database_id },
            StepView::InsertRecord { database_id, link, now },
        ],
{
}

/// Deleting a record deletes its row and its link, after its relationships
/// through every paired field of its database, and through nothing else.
pub proof fn deleting_goes_through_every_field(
    fields: Seq<FieldView>,
    database_id: DatabaseId,
    link: Link,
    step: StepView,
)
    ensures
        delete_record_steps(fields, database_id, link).len() >= 2,
        delete_record_steps(fields, database_id, link).last() == (StepView::DeleteLink { link }),
        delete_record_steps(fields, database_id, link).contains(step) <==> {
            ||| step == (StepView::DeleteRecord { database_id, link })
            ||| step == (StepView::DeleteLink { link })
            ||| step matches StepView::DeleteReferencesOf { field, pair, link: of } && of == link
                && is_paired_field(fields, field, pair)
        },
{
    relationships_are_deleted(fields, link, step);
    let before = unlink_steps(fields, link);
    let rest = seq![StepView::DeleteRecord { database_id, link }, StepView::DeleteLink { link }];
    let steps = delete_record_steps(fields, database_id, link);
    if before.contains(step) {
        let i = before.index_of(step);
        assert(steps[i] == step);
    }
    assert(steps[before.len() as int] == rest[0]);
    assert(steps[before.len() as int + 1] == rest[1]);
    if steps.contains(step) {
        let i = steps.index_of(step);
        if i < before.len() {
            assert(before[i] == step);
        } else {
            assert(steps[i] == rest[i - before.len()]);
        }
    }
}

/// Whether some field has this id and is paired with this other one.
pub open spec fn is_paired_field(fields: Seq<FieldView>, field: FieldId, pair: FieldId) -> bool {
    exists|i: int|
        0 <= i < fields.len() && (#[trigger] fields[i]).id == field && (
        fields[i].kind matches FieldKindView::Reference { paired_field, .. } && paired_field
            == Some(pair))
}

proof fn relationships_are_deleted(fields: Seq<FieldView>, link: Link, step: StepView)
    ensures
        unlink_steps(fields, link).contains(step) <==> (
        step matches StepView::DeleteReferencesOf { field, pair, link: of } && of == link
            && is_paired_field(fields, field, pair)),
    decreases fields.len(),
{
    let steps = unlink_steps(fields, link);
    if fields.len() > 0 {
        let rest = fields.drop_last();
        let last = fields.len() - 1;
        let before = unlink_steps(rest, link);
        relationships_are_deleted(rest, link, step);
        if before.contains(step) {
            let i = before.index_of(step);
            assert(steps[i] == step);
            let (field, pair) = (step->DeleteReferencesOf_field, step->DeleteReferencesOf_pair);
            let k = choose|k: int|
                0 <= k < rest.len() && (#[trigger] rest[k]).id == field && (
                rest[k].kind matches FieldKindView::Reference { paired_field, .. } && paired_field
                    == Some(pair));
            assert(fields[k] == rest[k]);
        }
        if fields.last().kind.pair() is Some {
            assert(steps[before.len() as int] == steps.last());
            assert(fields[last] == fields.last());
        }
        if steps.contains(step) && !before.contains(step) {
            let i = steps.index_of(step);
            if i < before.len() {
                assert(before[i] == step);
            }
            assert(fields[last].id == step->DeleteReferencesOf_field);
        }
        if step is DeleteReferencesOf && step->DeleteReferencesOf_link == link && is_paired_field(
            fields,
            step->DeleteReferencesOf_field,
            step->DeleteReferencesOf_pair,
        ) {
            let (field, pair) = (step->DeleteReferencesOf_field, step->DeleteReferencesOf_pair);
            let k = choose|k: int|
                0 <= k < fields.len() && (#[trigger] fields[k]).id == field && (
                fields[k].kind matches FieldKindView::Reference { paired_field, .. } && paired_field
                    == Some(pair));
            if k < last {
                assert(rest[k] == fields[k]);
                assert(is_paired_field(rest, field, pair));
            }
        }
    }
}

} // verus!
