//! A mathematical model of the store's tables, and of what each step does to
//! them.

use vstd::prelude::*;

use crate::ids::{DatabaseId, FieldId, Link, ReferenceId};
use crate::naming::{ordered_pair, side_of, ReferenceSide};
use crate::number::Number;
use crate::schema::FieldView;
use crate::sql::SqlView;
use crate::steps::StepView;
use crate::uuids::uuid_text;

verus! {

/// What a blob's row holds.
pub ghost struct BlobRow {
    pub bytes: Seq<u8>,
    pub filename: Option<Seq<char>>,
}

/// When a record was created and last changed.
pub ghost struct RecordTimes {
    pub created_at: Seq<char>,
    pub updated_at: Seq<char>,
}

/// The numbers of the fields' rows, by which the rows are read in the order in
/// which they were inserted. A new row is given the next number, which is past
/// those of all the others. Only the order of the numbers matters.
pub ghost struct RowNumbers {
    pub of: Map<FieldId, int>,
    pub next: int,
}

/// The tables of a store, each as a map from its key to the rest of the row.
/// The tables of the records are held together, with the database as part of
/// the key, and so are the tables of the relationships, with the field of the
/// lower id. A cell that is not there is null.
pub ghost struct Tables {
    pub databases: Map<DatabaseId, Seq<char>>,
    pub fields: Map<FieldId, (DatabaseId, FieldView)>,
    pub numbers: RowNumbers,
    pub links: Map<Link, DatabaseId>,
    pub record_tables: Map<DatabaseId, ()>,
    pub columns: Map<(DatabaseId, FieldId), Seq<char>>,
    pub records: Map<(DatabaseId, Link), RecordTimes>,
    pub cells: Map<(DatabaseId, Link, FieldId), SqlView>,
    pub spare_columns: Map<(DatabaseId, FieldId), Seq<char>>,
    pub spare_cells: Map<(DatabaseId, Link, FieldId), SqlView>,
    pub reference_tables: Map<FieldId, ()>,
    pub references: Map<(FieldId, ReferenceId), (Link, Link)>,
    pub blobs: Map<Seq<char>, BlobRow>,
}

/// What a map holds under a key, if anything.
pub open spec fn at<K, V>(map: Map<K, V>, key: K) -> Option<V> {
    if map.dom().contains(key) {
        Some(map[key])
    } else {
        None
    }
}

/// The map that holds under every key what `row` says.
pub open spec fn map_of<K, V>(row: spec_fn(K) -> Option<V>) -> Map<K, V> {
    Map::new(|key: K| row(key) is Some, |key: K| row(key)->0)
}

/// A map built from its rows has those rows.
pub broadcast proof fn map_of_at<K, V>(row: spec_fn(K) -> Option<V>, key: K)
    ensures
        #[trigger] at(map_of(row), key) == row(key),
{
}

/// Two maps with the same rows are the same.
pub proof fn same_rows<K, V>(a: Map<K, V>, b: Map<K, V>)
    requires
        forall|key: K| #[trigger] at(a, key) == at(b, key),
    ensures
        a == b,
{
    assert forall|key: K| #[trigger] a.dom().contains(key) == b.dom().contains(key) by {
        assert(at(a, key) == at(b, key));
    }
    assert forall|key: K| #[trigger] a.dom().contains(key) implies a[key] == b[key] by {
        assert(at(a, key) == at(b, key));
    }
    assert(a =~= b);
}

/// A database's row after a step.
pub open spec fn database_row(step: StepView, id: DatabaseId, row: Option<Seq<char>>) -> Option<
    Seq<char>,
> {
    match step {
        StepView::InsertDatabase { id: own, name } => if own == id {
            Some(name)
        } else {
            row
        },
        StepView::DeleteDatabase { id: own } => if own == id {
            None
        } else {
            row
        },
        _ => row,
    }
}

/// A field's row after a step.
pub open spec fn field_row(
    step: StepView,
    id: FieldId,
    row: Option<(DatabaseId, FieldView)>,
) -> Option<(DatabaseId, FieldView)> {
    match step {
        StepView::InsertField { database_id, field } => if field.id == id {
            Some((database_id, field))
        } else {
            row
        },
        StepView::UpdateField { field, name, ordering } => match row {
            Some((database_id, old)) => if field == id {
                Some((database_id, FieldView { name, ordering, ..old }))
            } else {
                row
            },
            None => None,
        },
        StepView::UpdateFieldKind { field, kind } => match row {
            Some((database_id, old)) => if field == id {
                Some((database_id, FieldView { kind, ..old }))
            } else {
                row
            },
            None => None,
        },
        StepView::DeleteField { field } => if field == id {
            None
        } else {
            row
        },
        _ => row,
    }
}

/// The numbers of the fields' rows after a step.
pub open spec fn numbers_after(step: StepView, numbers: RowNumbers) -> RowNumbers {
    match step {
        StepView::InsertField { field, .. } => RowNumbers {
            of: numbers.of.insert(field.id, numbers.next),
            next: numbers.next + 1,
        },
        StepView::DeleteField { field } => RowNumbers {
            of: numbers.of.remove(field),
            next: numbers.next,
        },
        _ => numbers,
    }
}

/// The row of a link after a step.
pub open spec fn link_row(step: StepView, link: Link, row: Option<DatabaseId>) -> Option<
    DatabaseId,
> {
    match step {
        StepView::InsertLink { link: own, database_id } => if own == link {
            Some(database_id)
        } else {
            row
        },
        StepView::DeleteLink { link: own } => if own == link {
            None
        } else {
            row
        },
        StepView::DeleteLinksOf { database_id } => if row == Some(database_id) {
            None
        } else {
            row
        },
        _ => row,
    }
}

/// Whether a database's table is there after a step.
pub open spec fn record_table_row(step: StepView, id: DatabaseId, row: Option<()>) -> Option<()> {
    match step {
        StepView::CreateRecordTable { id: own } => if own == id {
            Some(())
        } else {
            row
        },
        StepView::DropRecordTable { id: own } => if own == id {
            None
        } else {
            row
        },
        _ => row,
    }
}

/// The type of a field's column after a step, where `spare` is that of its
/// spare column.
pub open spec fn column_row(
    step: StepView,
    key: (DatabaseId, FieldId),
    row: Option<Seq<char>>,
    spare: Option<Seq<char>>,
) -> Option<Seq<char>> {
    match step {
        StepView::AddColumn { database_id, field, sql_type } => if key == (database_id, field) {
            Some(sql_type)
        } else {
            row
        },
        StepView::DropColumn { database_id, field } => if key == (database_id, field) {
            None
        } else {
            row
        },
        StepView::DropRecordTable { id } => if key.0 == id {
            None
        } else {
            row
        },
        StepView::RenameSpareColumn { database_id, field } => if key == (database_id, field) {
            spare
        } else {
            row
        },
        _ => row,
    }
}

/// A record's times after a step.
pub open spec fn record_row(
    step: StepView,
    key: (DatabaseId, Link),
    row: Option<RecordTimes>,
) -> Option<RecordTimes> {
    match step {
        StepView::InsertRecord { database_id, link, now } => if key == (database_id, link) {
            Some(RecordTimes { created_at: now, updated_at: now })
        } else {
            row
        },
        StepView::SetValue { database_id, link, now, .. } => match row {
            Some(times) => if key == (database_id, link) {
                Some(RecordTimes { updated_at: now, ..times })
            } else {
                row
            },
            None => None,
        },
        StepView::DeleteRecord { database_id, link } => if key == (database_id, link) {
            None
        } else {
            row
        },
        StepView::DropRecordTable { id } => if key.0 == id {
            None
        } else {
            row
        },
        _ => row,
    }
}

/// A value as it comes to stand in a column, or nothing where it is null. What
/// is not a number is stored as null, and zero without a sign.
pub open spec fn unless_null(value: SqlView) -> Option<SqlView> {
    match value {
        SqlView::Null => None,
        SqlView::Real(number) => if number.spec_is_nan() {
            None
        } else if number.spec_is_zero() {
            Some(SqlView::Real(Number::of_bool(false)))
        } else {
            Some(value)
        },
        _ => Some(value),
    }
}

/// A record's cell after a step, where `here` says whether the record is there
/// and `spare` is its spare cell.
pub open spec fn cell_row(
    step: StepView,
    key: (DatabaseId, Link, FieldId),
    row: Option<SqlView>,
    here: bool,
    spare: Option<SqlView>,
) -> Option<SqlView> {
    match step {
        StepView::SetValue { database_id, field, value, link, .. } => if here && key == (
            database_id,
            link,
            field,
        ) {
            unless_null(value)
        } else {
            row
        },
        StepView::DeleteRecord { database_id, link } => if key.0 == database_id && key.1 == link {
            None
        } else {
            row
        },
        StepView::DropColumn { database_id, field } => if key.0 == database_id && key.2 == field {
            None
        } else {
            row
        },
        StepView::DropRecordTable { id } => if key.0 == id {
            None
        } else {
            row
        },
        StepView::RenameSpareColumn { database_id, field } => if key.0 == database_id && key.2
            == field {
            spare
        } else {
            row
        },
        _ => row,
    }
}

/// The type of a field's spare column after a step.
pub open spec fn spare_column_row(
    step: StepView,
    key: (DatabaseId, FieldId),
    row: Option<Seq<char>>,
) -> Option<Seq<char>> {
    match step {
        StepView::AddSpareColumn { database_id, field, sql_type } => if key == (
            database_id,
            field,
        ) {
            Some(sql_type)
        } else {
            row
        },
        StepView::RenameSpareColumn { database_id, field } => if key == (database_id, field) {
            None
        } else {
            row
        },
        StepView::DropRecordTable { id } => if key.0 == id {
            None
        } else {
            row
        },
        _ => row,
    }
}

/// A record's spare cell after a step, where `here` says whether the record is
/// there.
pub open spec fn spare_cell_row(
    step: StepView,
    key: (DatabaseId, Link, FieldId),
    row: Option<SqlView>,
    here: bool,
) -> Option<SqlView> {
    match step {
        StepView::SetSpareValue { database_id, field, value, link } => if here && key.0
            == database_id && key.2 == field && uuid_text(key.1.0) == link {
            unless_null(value)
        } else {
            row
        },
        StepView::RenameSpareColumn { database_id, field } => if key.0 == database_id && key.2
            == field {
            None
        } else {
            row
        },
        StepView::DeleteRecord { database_id, link } => if key.0 == database_id && key.1 == link {
            None
        } else {
            row
        },
        StepView::DropRecordTable { id } => if key.0 == id {
            None
        } else {
            row
        },
        _ => row,
    }
}

/// Whether a pair's table is there after a step.
pub open spec fn reference_table_row(step: StepView, lower: FieldId, row: Option<()>) -> Option<()> {
    match step {
        StepView::CreateReferenceTable { field, pair } => if ordered_pair(field, pair).0 == lower {
            Some(())
        } else {
            row
        },
        StepView::DropReferenceTable { field, pair } => if ordered_pair(field, pair).0 == lower {
            None
        } else {
            row
        },
        _ => row,
    }
}

/// A relationship's row after a step.
pub open spec fn reference_row(
    step: StepView,
    key: (FieldId, ReferenceId),
    row: Option<(Link, Link)>,
) -> Option<(Link, Link)> {
    match step {
        StepView::InsertReference { field, pair, id, link_a, link_b } => if key == (
            ordered_pair(field, pair).0,
            id,
        ) {
            Some((link_a, link_b))
        } else {
            row
        },
        StepView::DeleteReference { field, pair, id } => if key == (
            ordered_pair(field, pair).0,
            id,
        ) {
            None
        } else {
            row
        },
        StepView::DeleteReferencesOf { field, pair, link } => match row {
            Some((link_a, link_b)) => {
                let own = if side_of(field, pair) == ReferenceSide::A {
                    link_a
                } else {
                    link_b
                };
                if key.0 == ordered_pair(field, pair).0 && own == link {
                    None
                } else {
                    row
                }
            },
            None => None,
        },
        StepView::DropReferenceTable { field, pair } => if key.0 == ordered_pair(field, pair).0 {
            None
        } else {
            row
        },
        _ => row,
    }
}

/// A blob's row after a step: bytes that are already there stay as they are.
pub open spec fn blob_row(step: StepView, hash: Seq<char>, row: Option<BlobRow>) -> Option<
    BlobRow,
> {
    match step {
        StepView::InsertBlob { hash: own, bytes, filename, .. } => if own == hash && row is None {
            Some(BlobRow { bytes, filename })
        } else {
            row
        },
        _ => row,
    }
}

/// The tables after a step.
pub open spec fn applied(tables: Tables, step: StepView) -> Tables {
    Tables {
        databases: map_of(|id: DatabaseId| database_row(step, id, at(tables.databases, id))),
        fields: map_of(|id: FieldId| field_row(step, id, at(tables.fields, id))),
        numbers: numbers_after(step, tables.numbers),
        links: map_of(|link: Link| link_row(step, link, at(tables.links, link))),
        record_tables: map_of(
            |id: DatabaseId| record_table_row(step, id, at(tables.record_tables, id)),
        ),
        columns: map_of(
            |key: (DatabaseId, FieldId)|
                column_row(step, key, at(tables.columns, key), at(tables.spare_columns, key)),
        ),
        records: map_of(
            |key: (DatabaseId, Link)| record_row(step, key, at(tables.records, key)),
        ),
        cells: map_of(
            |key: (DatabaseId, Link, FieldId)|
                cell_row(
                    step,
                    key,
                    at(tables.cells, key),
                    tables.records.dom().contains((key.0, key.1)),
                    at(tables.spare_cells, key),
                ),
        ),
        spare_columns: map_of(
            |key: (DatabaseId, FieldId)|
                spare_column_row(step, key, at(tables.spare_columns, key)),
        ),
        spare_cells: map_of(
            |key: (DatabaseId, Link, FieldId)|
                spare_cell_row(
                    step,
                    key,
                    at(tables.spare_cells, key),
                    tables.records.dom().contains((key.0, key.1)),
                ),
        ),
        reference_tables: map_of(
            |lower: FieldId| reference_table_row(step, lower, at(tables.reference_tables, lower)),
        ),
        references: map_of(
            |key: (FieldId, ReferenceId)| reference_row(step, key, at(tables.references, key)),
        ),
        blobs: map_of(|hash: Seq<char>| blob_row(step, hash, at(tables.blobs, hash))),
    }
}

/// The tables after a sequence of steps.
pub open spec fn all_applied(tables: Tables, steps: Seq<StepView>) -> Tables
    decreases steps.len(),
{
    if steps.len() == 0 {
        tables
    } else {
        applied(all_applied(tables, steps.drop_last()), steps.last())
    }
}

/// Steps one after the other do what they do one after the other.
pub proof fn applied_in_turn(tables: Tables, first: Seq<StepView>, second: Seq<StepView>)
    ensures
        all_applied(tables, first + second) == all_applied(all_applied(tables, first), second),
    decreases second.len(),
{
    if second.len() == 0 {
        assert(first + second =~= first);
    } else {
        assert((first + second).drop_last() =~= first + second.drop_last());
        applied_in_turn(tables, first, second.drop_last());
    }
}

} // verus!
