//! How kinds, names, hashes and versions are stored, said outright.

use vstd::prelude::*;

use crate::blobs::{content_hash, write_blob_step};
use crate::codec::{coerced, decoded_value, encoded_value};
use crate::date::DateView;
use crate::digest::sha256;
use crate::error::ErrorView;
use crate::hex::hex_digit;
use crate::ids::{DatabaseId, FieldId, Link};
use crate::kind::{
    column_type, decoded_kind, encoded_kind, label_of, labels_differ, parsed_uuid, EncodedKindView,
};
use crate::naming::{column_of, table_of};
use crate::number::Number;
use crate::opening::{
    creation_steps, loaded_database, loaded_databases, loaded_field, loaded_fields, opening_steps,
    FieldRowView,
};
use crate::record::ValueView;
use crate::schema::{DatabaseView, FieldKindView, FieldView, SelectionOptionView};
use crate::sql::{CellView, SqlView};
use crate::steps::{SchemaTable, StepView};
use crate::store::{
    migrated, migrated_rows, retype_number_of, retype_steps, retype_text_of, RetypeRowView,
};
use crate::text::{integer_reading, integer_text, integer_text_reads_back};
use crate::uuids::{simple_text, uuid_reading, uuid_text, uuid_text_reads_back};

verus! {

/// The word for each kind, and the type of the column that holds its values.
pub proof fn kinds_have_words_and_columns(kind: FieldKindView)
    ensures
        kind is Text ==> label_of(kind) == "text"@ && column_type(kind) == Some("TEXT"@),
        kind is Number ==> label_of(kind) == "number"@ && column_type(kind) == Some("REAL"@),
        kind is Boolean ==> label_of(kind) == "boolean"@ && column_type(kind) == Some("INTEGER"@),
        kind is Date ==> label_of(kind) == "date"@ && column_type(kind) == Some("TEXT"@),
        kind is Selection ==> label_of(kind) == "selection"@ && column_type(kind) == Some("TEXT"@),
        kind is Blob ==> label_of(kind) == "blob"@ && column_type(kind) == Some("TEXT"@),
        kind is Json ==> label_of(kind) == "json"@ && column_type(kind) == Some("TEXT"@),
        kind is Custom ==> label_of(kind) == "custom"@ && column_type(kind) == Some("BLOB"@),
        kind is CustomBlob ==> label_of(kind) == "custom_blob"@ && column_type(kind) == Some(
            "TEXT"@,
        ),
        kind is Reference ==> label_of(kind) == "reference"@ && column_type(kind) is None,
{
}

/// What is stored beside a kind's word is just what the kind carries: whether a
/// selection is multiple, and its options; where a reference points, and its
/// pair; the plugin of a custom kind.
pub proof fn kinds_are_stored_with_what_they_carry(kind: FieldKindView, json: Seq<char>)
    ensures
        ({
            let stored = encoded_kind(kind, json);
            &&& stored.kind_tag == label_of(kind)
            &&& stored.selection_multi == match kind {
                FieldKindView::Selection { multi, .. } => Some(
                    if multi {
                        1i64
                    } else {
                        0
                    },
                ),
                _ => None,
            }
            &&& stored.selection_options == if kind is Selection {
                Some(json)
            } else {
                None
            }
            &&& stored.reference_target_database == match kind {
                FieldKindView::Reference { target_database, .. } => Some(
                    uuid_text(target_database.0),
                ),
                _ => None,
            }
            &&& kind matches FieldKindView::Reference { paired_field: Some(pair), .. }
                ==> stored.reference_paired_field == Some(uuid_text(pair.0))
            &&& !(kind matches FieldKindView::Reference { paired_field: Some(_), .. })
                ==> stored.reference_paired_field is None
            &&& stored.custom_kind_id == match kind {
                FieldKindView::Custom { kind_id } => Some(kind_id),
                FieldKindView::CustomBlob { kind_id } => Some(kind_id),
                _ => None,
            }
        }),
{
}

/// A stored selection is multiple just where its number is there and is not
/// zero, and has no options where none are stored. Options that cannot be read
/// are refused with what is wrong with them.
pub proof fn stored_selections_are_read(
    stored: EncodedKindView,
    options: Seq<SelectionOptionView>,
    message: Seq<char>,
)
    requires
        stored.kind_tag == "selection"@,
    ensures
        ({
            let multi = stored.selection_multi is Some && stored.selection_multi != Some(0i64);
            &&& decoded_kind(stored, Some(Ok(options))) == Ok::<FieldKindView, ErrorView>(
                FieldKindView::Selection { multi, options },
            )
            &&& decoded_kind(stored, None) == Ok::<FieldKindView, ErrorView>(
                FieldKindView::Selection { multi, options: Seq::empty() },
            )
            &&& decoded_kind(stored, Some(Err(message))) == Err::<FieldKindView, ErrorView>(
                ErrorView::Storage(message),
            )
        }),
{
    labels_differ();
}

/// A stored reference without where it points, and a stored plugin's kind
/// without its plugin, are refused, and so is a word that stands for no kind.
pub proof fn incomplete_kinds_are_refused(
    stored: EncodedKindView,
    options: Option<Result<Seq<SelectionOptionView>, Seq<char>>>,
)
    ensures
        stored.kind_tag == "reference"@ && stored.reference_target_database is None
            ==> decoded_kind(stored, options) == Err::<FieldKindView, ErrorView>(
            ErrorView::Storage("reference field missing target database"@),
        ),
        stored.kind_tag == "reference"@ ==> (stored.reference_target_database matches Some(target)
            ==> (parsed_uuid(target) matches Err(error) ==> decoded_kind(stored, options) == Err::<
            FieldKindView,
            ErrorView,
        >(error))),
        stored.kind_tag == "reference"@ ==> (stored.reference_target_database matches Some(target)
            ==> parsed_uuid(target) is Ok ==> (stored.reference_paired_field matches Some(pair) ==> (
        parsed_uuid(pair) matches Err(error) ==> decoded_kind(stored, options) == Err::<
            FieldKindView,
            ErrorView,
        >(error)))),
        stored.kind_tag == "custom"@ && stored.custom_kind_id is None ==> decoded_kind(
            stored,
            options,
        ) == Err::<FieldKindView, ErrorView>(ErrorView::Storage("custom field missing kind_id"@)),
        stored.kind_tag == "custom_blob"@ && stored.custom_kind_id is None ==> decoded_kind(
            stored,
            options,
        ) == Err::<FieldKindView, ErrorView>(
            ErrorView::Storage("custom_blob field missing kind_id"@),
        ),
        stored.kind_tag != "text"@ && stored.kind_tag != "number"@ && stored.kind_tag != "boolean"@
            && stored.kind_tag != "date"@ && stored.kind_tag != "selection"@ && stored.kind_tag
            != "blob"@ && stored.kind_tag != "json"@ && stored.kind_tag != "custom"@
            && stored.kind_tag != "custom_blob"@ && stored.kind_tag != "reference"@
            ==> decoded_kind(stored, options) == Err::<FieldKindView, ErrorView>(
            ErrorView::Storage("unknown field kind '"@ + stored.kind_tag + "' in store"@),
        ),
{
    labels_differ();
}

/// A stored id is read as the id that it is the text of, and refused with what
/// is wrong with it where it is the text of none.
pub proof fn stored_ids_are_read(id: u128, text: Seq<char>)
    ensures
        parsed_uuid(uuid_text(id)) == Ok::<u128, ErrorView>(id),
        uuid_reading(text) matches Err(message) ==> parsed_uuid(text) == Err::<u128, ErrorView>(
            ErrorView::Storage(message),
        ),
        uuid_reading(text) matches Ok(read) ==> parsed_uuid(text) == Ok::<u128, ErrorView>(read),
{
    uuid_text_reads_back(id);
}

/// A field's row is read as the field: its id, its name, its kind and its
/// ordering, each in its own place.
pub proof fn rows_of_fields_are_read(row: FieldRowView, id: FieldId)
    requires
        row.id == uuid_text(id.0),
    ensures
        decoded_kind(row.kind, row.options) matches Ok(kind) ==> loaded_field(row) == Ok::<
            FieldView,
            ErrorView,
        >(FieldView { id, name: row.name, kind, ordering: row.ordering }),
        decoded_kind(row.kind, row.options) matches Err(error) ==> loaded_field(row) == Err::<
            FieldView,
            ErrorView,
        >(error),
{
    uuid_text_reads_back(id.0);
}

/// A row whose id cannot be read is refused with what is wrong with the id,
/// whatever else it holds.
pub proof fn rows_without_an_id_are_refused(row: FieldRowView, text: Seq<char>, name: Seq<char>)
    ensures
        uuid_reading(row.id) matches Err(fault) ==> loaded_field(row) == Err::<
            FieldView,
            ErrorView,
        >(ErrorView::Storage(fault)),
        uuid_reading(text) matches Err(fault) ==> loaded_database((text, name)) == Err::<
            DatabaseView,
            ErrorView,
        >(ErrorView::Storage(fault)),
{
}

/// Rows are read one after the other: what one more row adds is what it is read
/// as, and the first that cannot be read fails them all.
pub proof fn rows_are_read_in_turn(
    fields: Seq<FieldRowView>,
    field: FieldRowView,
    databases: Seq<(Seq<char>, Seq<char>)>,
    database: (Seq<char>, Seq<char>),
)
    ensures
        loaded_fields(Seq::empty()) == Ok::<Seq<FieldView>, ErrorView>(Seq::empty()),
        loaded_fields(fields.push(field)) == match (loaded_fields(fields), loaded_field(field)) {
            (Ok(before), Ok(one)) => Ok::<Seq<FieldView>, ErrorView>(before.push(one)),
            (Ok(_), Err(error)) => Err(error),
            (Err(error), _) => Err(error),
        },
        loaded_databases(Seq::empty()) == Ok::<Seq<DatabaseView>, ErrorView>(Seq::empty()),
        loaded_databases(databases.push(database)) == match (
            loaded_databases(databases),
            loaded_database(database),
        ) {
            (Ok(before), Ok(one)) => Ok::<Seq<DatabaseView>, ErrorView>(before.push(one)),
            (Ok(_), Err(error)) => Err(error),
            (Err(error), _) => Err(error),
        },
{
    assert(fields.push(field).drop_last() =~= fields);
    assert(databases.push(database).drop_last() =~= databases);
}

/// A new store has a table for what is said of it, one each for databases,
/// fields, links and blobs, and its version.
pub proof fn new_store_has_its_tables()
    ensures
        creation_steps() == seq![
            StepView::CreateSchemaTable(SchemaTable::Meta),
            StepView::CreateSchemaTable(SchemaTable::Databases),
            StepView::CreateSchemaTable(SchemaTable::Fields),
            StepView::CreateSchemaTable(SchemaTable::Links),
            StepView::CreateSchemaTable(SchemaTable::Blobs),
            StepView::InsertSchemaVersion,
        ],
{
}

/// A store of the third version opens as it is, one of the second is given the
/// column for plugins, one of the first that for filenames before it, and both
/// are given the new version. Every later version and every one before the
/// first is refused, with the version that was found and the one expected, and
/// so is what is no version.
pub proof fn versions_are_brought_up_to_date(version: i64, text: Seq<char>)
    ensures
        version == 3 ==> opening_steps(integer_text(version as int)) == Ok::<
            Seq<StepView>,
            ErrorView,
        >(Seq::empty()),
        version == 2 ==> opening_steps(integer_text(version as int)) == Ok::<
            Seq<StepView>,
            ErrorView,
        >(seq![StepView::AddCustomKindId, StepView::UpdateSchemaVersion]),
        version == 1 ==> opening_steps(integer_text(version as int)) == Ok::<
            Seq<StepView>,
            ErrorView,
        >(
            seq![
                StepView::AddBlobFilename,
                StepView::AddCustomKindId,
                StepView::UpdateSchemaVersion,
            ],
        ),
        version > 3 ==> opening_steps(integer_text(version as int)) == Err::<
            Seq<StepView>,
            ErrorView,
        >(
            ErrorView::Storage(
                "store schema version "@ + integer_text(version as int)
                    + " is not supported by this build (expected "@ + integer_text(3) + ")"@,
            ),
        ),
        version < 1 ==> opening_steps(integer_text(version as int)) == Err::<
            Seq<StepView>,
            ErrorView,
        >(
            ErrorView::Storage(
                "store schema version "@ + integer_text(version as int)
                    + " is not supported by this build (expected "@ + integer_text(3)
                    + ", no migration from "@ + integer_text(version as int) + ")"@,
            ),
        ),
        integer_reading(text) is None ==> opening_steps(text) == Err::<Seq<StepView>, ErrorView>(
            ErrorView::Storage("invalid schema_version value: "@ + text),
        ),
{
    integer_text_reads_back(version);
}

/// The hexadecimal digit of a number below sixteen.
pub open spec fn digit_of(n: int) -> int {
    if n < 10 {
        48 + n
    } else {
        87 + n
    }
}

/// Bytes are stored under their SHA-256 hash in hexadecimal: two digits a byte,
/// the upper half first, in lower case. What is stored with them is the bytes
/// themselves, the filename that was given and the time.
pub proof fn bytes_are_stored_under_their_hash(
    bytes: Seq<u8>,
    filename: Option<Seq<char>>,
    now: Seq<char>,
    i: int,
)
    requires
        0 <= i < sha256(bytes).len(),
    ensures
        content_hash(bytes).len() == 2 * sha256(bytes).len(),
        content_hash(bytes)[2 * i] as int == digit_of(sha256(bytes)[i] as int / 16),
        content_hash(bytes)[2 * i + 1] as int == digit_of(sha256(bytes)[i] as int % 16),
        write_blob_step(bytes, filename, now) == (StepView::InsertBlob {
            hash: content_hash(bytes),
            bytes,
            filename,
            now,
        }),
{
    assert('0' as int == 48 && 'a' as int == 97);
    let b = sha256(bytes)[i];
    assert((2 * i) / 2 == i && (2 * i) % 2 == 0);
    assert((2 * i + 1) / 2 == i && (2 * i + 1) % 2 == 1);
    assert(content_hash(bytes)[2 * i] == hex_digit(b as int / 16));
    assert(content_hash(bytes)[2 * i + 1] == hex_digit(b as int % 16));
}

/// The table of a database's records and the column of a field's values are
/// named after their ids.
pub proof fn tables_and_columns_are_named_after_ids(database: DatabaseId, field: FieldId)
    ensures
        table_of(database) == "db_"@ + simple_text(database.0),
        column_of(field) == "field_"@ + simple_text(field.0),
{
}

/// Which days the calendar has: thirty-one in the months that have so many,
/// thirty in the four that have, and in February twenty-eight, or twenty-nine
/// in a year that four divides, unless a hundred does and four hundred does
/// not. There is no other month and no day before the first.
pub proof fn calendar_has_its_days(date: DateView)
    requires
        -262143 <= date.year <= 262142,
    ensures
        date.valid() ==> 1 <= date.month <= 12 && 1 <= date.day <= 31,
        1 <= date.month <= 12 && 1 <= date.day <= 28 ==> date.valid(),
        date.day == 29 ==> (date.valid() <==> 1 <= date.month <= 12 && (date.month != 2 || {
            &&& date.year % 4 == 0
            &&& date.year % 100 != 0 || date.year % 400 == 0
        })),
        date.day == 30 ==> (date.valid() <==> 1 <= date.month <= 12 && date.month != 2),
        date.day == 31 ==> (date.valid() <==> date.month == 1 || date.month == 3 || date.month == 5
            || date.month == 7 || date.month == 8 || date.month == 10 || date.month == 12),
{
}

/// The years that a date can fall in.
pub proof fn years_have_their_bounds(date: DateView)
    ensures
        date.year < -262143 || date.year > 262142 ==> !date.valid(),
{
}

/// Giving a field another kind makes a spare column of the new type, fills it,
/// and puts it in the place of the old one, which goes; then the new kind is
/// written down. All of it is of the one field.
pub proof fn retyping_fills_a_spare_column(
    database_id: DatabaseId,
    field: FieldId,
    kind: FieldKindView,
    values: Seq<StepView>,
)
    requires
        kind !is Reference,
    ensures
        ({
            let steps = retype_steps(database_id, field, kind, values);
            let n = values.len() as int;
            &&& steps.len() == n + 4
            &&& steps[0] matches StepView::AddSpareColumn { database_id: of, field: own, sql_type }
                && of == database_id && own == field && Some(sql_type) == column_type(kind)
            &&& steps.subrange(1, n + 1) == values
            &&& steps[n + 1] == (StepView::DropColumn { database_id, field })
            &&& steps[n + 2] == (StepView::RenameSpareColumn { database_id, field })
            &&& steps[n + 3] == (StepView::UpdateFieldKind { field, kind })
        }),
{
    let steps = retype_steps(database_id, field, kind, values);
    assert(steps.subrange(1, values.len() as int + 1) =~= values);
}

/// A record's value is migrated to what it becomes under the new kind. The
/// record is named just where it had a value and has none now. A cell that
/// cannot be read fails the migration with what is wrong with it.
pub proof fn values_are_migrated(
    field: FieldId,
    old_kind: FieldKindView,
    new_kind: FieldKindView,
    row: RetypeRowView,
    link: Link,
)
    requires
        row.link == uuid_text(link.0),
    ensures
        decoded_value(old_kind, row.cell) matches Err(error) ==> migrated(
            field,
            old_kind,
            new_kind,
            row,
        ) is Err && migrated(field, old_kind, new_kind, row)->Err_0 == error,
        decoded_value(old_kind, row.cell) matches Ok(value) ==> {
            let became = coerced(value, new_kind, row.read, row.printed);
            let done = migrated(field, old_kind, new_kind, row);
            &&& encoded_value(field, new_kind, became) matches Ok(held) ==> done is Ok
                && done->Ok_0.value == held && done->Ok_0.cleared == if value !is Empty && became
                is Empty {
                Some(link)
            } else {
                None
            }
            &&& encoded_value(field, new_kind, became) matches Err(error) ==> done is Err
                && done->Err_0 == error
        },
{
    uuid_text_reads_back(link.0);
}

/// A record whose link cannot be read fails the migration just where it would
/// have to be named.
pub proof fn lost_values_need_a_link(
    field: FieldId,
    old_kind: FieldKindView,
    new_kind: FieldKindView,
    row: RetypeRowView,
    value: ValueView,
)
    requires
        decoded_value(old_kind, row.cell) == Ok::<ValueView, ErrorView>(value),
        uuid_reading(row.link) is Err,
    ensures
        ({
            let became = coerced(value, new_kind, row.read, row.printed);
            let done = migrated(field, old_kind, new_kind, row);
            &&& value !is Empty && became is Empty ==> done is Err && done->Err_0
                == ErrorView::Storage(uuid_reading(row.link)->Err_0)
            &&& !(value !is Empty && became is Empty) ==> done is Ok == (encoded_value(
                field,
                new_kind,
                became,
            ) is Ok)
        }),
{
}

/// Values are migrated one after the other: what one more record adds is the
/// step that writes its value under its own link, and its link to the report
/// where the value was lost. The first that fails fails them all.
pub proof fn values_are_migrated_in_turn(
    database_id: DatabaseId,
    field: FieldId,
    old_kind: FieldKindView,
    new_kind: FieldKindView,
    rows: Seq<RetypeRowView>,
    row: RetypeRowView,
)
    ensures
        migrated_rows(database_id, field, old_kind, new_kind, Seq::empty()) == Ok::<
            (Seq<StepView>, Seq<Link>),
            ErrorView,
        >((Seq::empty(), Seq::empty())),
        ({
            let all = migrated_rows(database_id, field, old_kind, new_kind, rows.push(row));
            match migrated_rows(database_id, field, old_kind, new_kind, rows) {
                Err(error) => all == Err::<(Seq<StepView>, Seq<Link>), ErrorView>(error),
                Ok((steps, lost)) => match migrated(field, old_kind, new_kind, row) {
                    Err(error) => all == Err::<(Seq<StepView>, Seq<Link>), ErrorView>(error),
                    Ok(done) => all is Ok && all->Ok_0.0 == steps.push(
                        StepView::SetSpareValue {
                            database_id,
                            field,
                            value: done.value,
                            link: row.link,
                        },
                    ) && (done.cleared is None ==> all->Ok_0.1 == lost) && (
                    done.cleared matches Some(link) ==> all->Ok_0.1 == lost.push(link)),
                },
            }
        }),
{
    assert(rows.push(row).drop_last() =~= rows);
}

/// What is read as a number for a retype is the text of the cell, or the first
/// of the names in it; what is printed is the number in it. Nothing is read or
/// printed for any other change of kind, nor for a cell that is empty.
pub proof fn numbers_are_read_and_printed_for_retypes(
    text: Seq<char>,
    cell: CellView,
    old_kind: FieldKindView,
    new_kind: FieldKindView,
)
    ensures
        cell.value == SqlView::Text(text) ==> retype_text_of(
            FieldKindView::Text,
            FieldKindView::Number,
            cell,
        ) == Some(text),
        cell.value matches SqlView::Real(number) ==> retype_number_of(
            FieldKindView::Number,
            FieldKindView::Text,
            cell,
        ) == Some(number),
        cell.value is Integer ==> retype_number_of(
            FieldKindView::Number,
            FieldKindView::Text,
            cell,
        ) == Some(cell.nearest),
        retype_text_of(old_kind, new_kind, cell) is Some ==> new_kind is Number && (old_kind is Text
            || old_kind is Selection) && cell.value !is Null,
        retype_number_of(old_kind, new_kind, cell) is Some ==> new_kind is Text && old_kind
            is Number && cell.value !is Null,
{
}

} // verus!
