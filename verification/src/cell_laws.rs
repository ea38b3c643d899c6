//! Every cell that is stored is read as a value of its field's kind, and so
//! every record that is stored can be read.

use vstd::prelude::*;

use crate::codec::{column_value, decoded_value, encoded_value, reads_back};
use crate::codec_laws::{accepts, column_holds_its_type};
use crate::diff::diff_steps;
use crate::error::ErrorView;
use crate::ids::{DatabaseId, FieldId, Link};
use crate::number::Number;
use crate::persist_laws::{
    follows, persisting_keeps_the_rest, schema_column, schema_field, standing_field, stands_at,
};
use crate::record::{values_match, ValueView};
use crate::record_laws::field_ids_differ;
use crate::records::{
    create_record_steps, decoded_cells, delete_record_steps, drafted, scalar_fields,
    set_value_step, RecordCellsView,
};
use crate::registry::{database_index, database_of, field_in, has_database, is_database};
use crate::registry_laws::{consistent, field_at, is_field, kept_from, kept_from_is};
use crate::schema::{field_position, field_position_found, DatabaseView, FieldKindView, FieldView};
use crate::sql::{CellView, SqlView};
use crate::steps::StepView;
use crate::store_laws::{
    cell_value, create_record_comes_to, delete_record_comes_to, empty_tables, found_where_linked,
    link_text, rows_of_applied, sound,
};
use crate::tables::{all_applied, applied, at, unless_null, Tables};
use crate::timestamp::{is_stamp, is_stamp_of};

verus! {

/// Whether a value is what is not a number.
pub open spec fn is_nan(value: ValueView) -> bool {
    value matches ValueView::Number(number) && number.spec_is_nan()
}

/// Whether what a column of this kind holds is read as this value, which a
/// field of the kind accepts.
pub open spec fn stands_for(kind: FieldKindView, held: SqlView, value: ValueView) -> bool {
    &&& reads_back(kind, held, value)
    &&& accepts(kind, value)
    &&& value !is Empty
    &&& !is_nan(value)
}

/// Whether what a column of this kind holds is read as some value that a field
/// of the kind accepts.
pub open spec fn is_readable(kind: FieldKindView, held: SqlView) -> bool {
    exists|value: ValueView| stands_for(kind, held, value)
}

/// Whether a cell belongs to a field, and holds something that is read as a
/// value of the field's kind.
pub open spec fn is_readable_cell(
    databases: Seq<DatabaseView>,
    key: (DatabaseId, Link, FieldId),
    held: SqlView,
) -> bool {
    schema_field(databases, key.2) matches Some((owner, field)) && owner == key.0 && is_readable(
        field.kind,
        held,
    )
}

/// Whether every cell that is stored is read as a value that its field accepts.
pub open spec fn cells_readable(tables: Tables, databases: Seq<DatabaseView>) -> bool {
    forall|key: (DatabaseId, Link, FieldId)|
        (#[trigger] at(tables.cells, key)) is Some ==> is_readable_cell(
            databases,
            key,
            tables.cells[key],
        )
}

/// Whether the times of every record are the texts of instants.
pub open spec fn times_stamped(tables: Tables) -> bool {
    forall|key: (DatabaseId, Link)|
        (#[trigger] at(tables.records, key)) is Some ==> {
            &&& is_stamp(tables.records[key].created_at)
            &&& is_stamp(tables.records[key].updated_at)
        }
}

/// A store without databases has no cells and no records.
pub proof fn empty_store_is_readable()
    ensures
        cells_readable(empty_tables(), Seq::empty()),
        times_stamped(empty_tables()),
{
}

/// What a column comes to hold for a value is read as a value of the column's
/// kind.
pub(crate) proof fn written_is_readable(
    field: FieldId,
    kind: FieldKindView,
    value: ValueView,
    held: SqlView,
)
    requires
        encoded_value(field, kind, value) == Ok::<SqlView, ErrorView>(held),
        reads_back(kind, held, column_value(value)),
    ensures
        unless_null(held) matches Some(stored) ==> is_readable(kind, stored),
{
    column_holds_its_type(field, kind, value);
    if let Some(stored) = unless_null(held) {
        if stored == held {
            assert(stands_for(kind, stored, column_value(value)));
        } else {
            Number::of_bool_is_a_number();
            let zero = Number::of_bool(false);
            assert(stands_for(FieldKindView::Number, SqlView::Real(zero), ValueView::Number(zero)));
        }
    }
}

/// What is read from a column for a record is a value that the field accepts,
/// and the empty one just where nothing is stored.
pub proof fn stored_cell_reads(
    tables: Tables,
    databases: Seq<DatabaseView>,
    key: (DatabaseId, Link, FieldId),
    field: FieldView,
    cell: CellView,
)
    requires
        cells_readable(tables, databases),
        schema_field(databases, key.2) == Some((key.0, field)),
        cell.value == cell_value(tables, key),
    ensures
        decoded_value(field.kind, cell) matches Ok(value) && accepts(field.kind, value) && !is_nan(
            value,
        ) && value is Empty == at(tables.cells, key) is None,
{
    if let Some(held) = at(tables.cells, key) {
        assert(is_readable_cell(databases, key, held));
        let value = choose|value: ValueView| stands_for(field.kind, held, value);
        assert(stands_for(field.kind, held, value));
        assert(decoded_value(field.kind, cell) == Ok::<ValueView, ErrorView>(value));
    }
}

/// The field that stands in a database's list is the one with its id.
proof fn listed_field_stands(databases: Seq<DatabaseView>, database_id: DatabaseId, k: int)
    requires
        consistent(databases),
        has_database(databases, database_id),
        0 <= k < database_of(databases, database_id).fields.len(),
    ensures
        ({
            let field = database_of(databases, database_id).fields[k];
            schema_field(databases, field.id) == Some((database_id, field))
        }),
{
    let i = database_index(databases, database_id);
    assert(is_database(databases, database_id, i));
    assert(is_field(databases, i, k));
    standing_field(databases, i, k);
}

/// A record that is stored can be read: every one of its cells stands for a
/// value, and no two fields share an id.
pub proof fn stored_record_reads(
    tables: Tables,
    databases: Seq<DatabaseView>,
    database_id: DatabaseId,
    link: Link,
    cells: Seq<CellView>,
)
    requires
        sound(tables, databases),
        cells_readable(tables, databases),
        has_database(databases, database_id),
        ({
            let scalars = scalar_fields(database_of(databases, database_id).fields);
            &&& cells.len() == scalars.len()
            &&& forall|k: int|
                0 <= k < scalars.len() ==> (#[trigger] cells[k]).value == cell_value(
                    tables,
                    (database_id, link, scalars[k].id),
                )
        }),
    ensures
        ({
            let fields = database_of(databases, database_id).fields;
            let scalars = scalar_fields(fields);
            &&& field_ids_differ(fields)
            &&& decoded_cells(scalars, cells, scalars.len()) is Ok
        }),
{
    let fields = database_of(databases, database_id).fields;
    let i = database_index(databases, database_id);
    assert(is_database(databases, database_id, i));
    assert forall|a: int, b: int| 0 <= a < b < fields.len() implies (#[trigger] fields[a]).id != (
    #[trigger] fields[b]).id by {
        assert(is_field(databases, i, a) && is_field(databases, i, b));
        assert(field_at(databases, i, a).id != field_at(databases, i, b).id);
    }
    cells_decode(tables, databases, database_id, link, cells, scalar_fields(fields).len());
}

/// A record that is stored is got: neither its times nor its cells stand in the
/// way.
pub proof fn stored_record_is_got(
    tables: Tables,
    databases: Seq<DatabaseView>,
    database_id: DatabaseId,
    link: Link,
    row: RecordCellsView,
)
    requires
        sound(tables, databases),
        cells_readable(tables, databases),
        times_stamped(tables),
        at(tables.links, link) == Some(database_id),
        ({
            let times = tables.records[(database_id, link)];
            let scalars = scalar_fields(database_of(databases, database_id).fields);
            &&& row.created_at == times.created_at
            &&& row.updated_at == times.updated_at
            &&& row.cells.len() == scalars.len()
            &&& forall|k: int|
                0 <= k < scalars.len() ==> (#[trigger] row.cells[k]).value == cell_value(
                    tables,
                    (database_id, link, scalars[k].id),
                )
        }),
    ensures
        drafted(
            scalar_fields(database_of(databases, database_id).fields),
            link,
            row,
        ) matches Ok(draft) && draft.link == link,
{
    assert(tables.records.dom().contains((database_id, link)));
    assert(at(tables.records, (database_id, link)) is Some);
    assert(tables.links.dom().contains(link));
    stored_record_reads(tables, databases, database_id, link, row.cells);
    let created = choose|instant: (i64, u32)| is_stamp_of(row.created_at, instant);
    let updated = choose|instant: (i64, u32)| is_stamp_of(row.updated_at, instant);
    assert(is_stamp_of(row.created_at, created) && is_stamp_of(row.updated_at, updated));
}

proof fn cells_decode(
    tables: Tables,
    databases: Seq<DatabaseView>,
    database_id: DatabaseId,
    link: Link,
    cells: Seq<CellView>,
    n: nat,
)
    requires
        sound(tables, databases),
        cells_readable(tables, databases),
        has_database(databases, database_id),
        ({
            let scalars = scalar_fields(database_of(databases, database_id).fields);
            &&& n <= scalars.len()
            &&& cells.len() == scalars.len()
            &&& forall|k: int|
                0 <= k < scalars.len() ==> (#[trigger] cells[k]).value == cell_value(
                    tables,
                    (database_id, link, scalars[k].id),
                )
        }),
    ensures
        decoded_cells(scalar_fields(database_of(databases, database_id).fields), cells, n) is Ok,
    decreases n,
{
    if n > 0 {
        let fields = database_of(databases, database_id).fields;
        let scalars = scalar_fields(fields);
        let scalar = |field: FieldView| crate::kind::column_type(field.kind) is Some;
        assert(scalars == fields.filter(scalar));
        kept_from_is(fields, scalar);
        cells_decode(tables, databases, database_id, link, cells, (n - 1) as nat);
        let k = n - 1;
        let field = scalars[k];
        assert(field == fields[kept_from(fields, scalar, k)]);
        listed_field_stands(databases, database_id, kept_from(fields, scalar, k));
        assert(cells[k].value == cell_value(tables, (database_id, link, scalars[k].id)));
        stored_cell_reads(tables, databases, (database_id, link, field.id), field, cells[k]);
    }
}

/// Taking cells away leaves those that stay as readable as they were.
proof fn fewer_cells(tables: Tables, end: Tables, databases: Seq<DatabaseView>)
    requires
        cells_readable(tables, databases),
        forall|key: (DatabaseId, Link, FieldId)|
            (#[trigger] at(end.cells, key)) is None || at(end.cells, key) == at(tables.cells, key),
    ensures
        cells_readable(end, databases),
{
    assert forall|key: (DatabaseId, Link, FieldId)|
        (#[trigger] at(end.cells, key)) is Some implies is_readable_cell(
        databases,
        key,
        end.cells[key],
    ) by {
        assert(at(tables.cells, key) == at(end.cells, key));
    }
}

/// Setting a value leaves every cell readable: what `Store::set_value` writes
/// reads as the value.
pub proof fn set_value_keeps_cells_readable(
    tables: Tables,
    databases: Seq<DatabaseView>,
    link: Link,
    field_id: FieldId,
    value: ValueView,
    blob_exists: bool,
    now: Seq<char>,
    step: StepView,
)
    requires
        sound(tables, databases),
        cells_readable(tables, databases),
        set_value_step(
            databases,
            link,
            field_id,
            value,
            link_text(tables, link),
            blob_exists,
            now,
        ) == Ok::<StepView, ErrorView>(step),
        step matches StepView::SetValue { database_id, value: held, .. } && reads_back(
            field_in(databases, database_id, field_id).kind,
            held,
            column_value(value),
        ),
    ensures
        cells_readable(applied(tables, step), databases),
{
    found_where_linked(tables, link);
    let database_id = at(tables.links, link)->0;
    let field = field_in(databases, database_id, field_id);
    let end = applied(tables, step);
    rows_of_applied(tables, step);
    let i = database_index(databases, database_id);
    field_position_found(databases[i].fields, field_id);
    let k = field_position(databases[i].fields, field_id)->0;
    assert(is_field(databases, i, k));
    assert(field_at(databases, i, k) == field);
    standing_field(databases, i, k);
    let held = step->SetValue_value;
    written_is_readable(field_id, field.kind, value, held);
    assert forall|key: (DatabaseId, Link, FieldId)|
        (#[trigger] at(end.cells, key)) is Some implies is_readable_cell(
        databases,
        key,
        end.cells[key],
    ) by {
        if key == (database_id, link, field_id) {
            assert(tables.records.dom().contains((database_id, link)));
            assert(at(end.cells, key) == unless_null(held));
        } else {
            assert(at(end.cells, key) == at(tables.cells, key));
        }
    }
}

/// Setting a value changes what is read of that record under that field, and
/// nothing that is read of any record under any field besides. What is not a
/// number is read as empty, since a column cannot hold it; zero may lose its
/// sign, which leaves it equal.
pub proof fn set_value_changes_one_value(
    tables: Tables,
    databases: Seq<DatabaseView>,
    link: Link,
    field_id: FieldId,
    value: ValueView,
    blob_exists: bool,
    now: Seq<char>,
    step: StepView,
    key: (DatabaseId, Link, FieldId),
    field: FieldView,
    cell: CellView,
    later: CellView,
)
    requires
        sound(tables, databases),
        cells_readable(tables, databases),
        set_value_step(
            databases,
            link,
            field_id,
            value,
            link_text(tables, link),
            blob_exists,
            now,
        ) == Ok::<StepView, ErrorView>(step),
        step matches StepView::SetValue { database_id, value: held, .. } && reads_back(
            field_in(databases, database_id, field_id).kind,
            held,
            column_value(value),
        ),
        schema_field(databases, key.2) == Some((key.0, field)),
        cell.value == cell_value(tables, key),
        later.value == cell_value(applied(tables, step), key),
    ensures
        if key.1 == link && key.2 == field_id {
            if is_nan(value) {
                decoded_value(field.kind, later) == Ok::<ValueView, ErrorView>(ValueView::Empty)
            } else {
                decoded_value(field.kind, later) matches Ok(read) && (read == column_value(value)
                    || values_match(read, column_value(value)))
            }
        } else {
            decoded_value(field.kind, later) == decoded_value(field.kind, cell)
        },
{
    found_where_linked(tables, link);
    let database_id = at(tables.links, link)->0;
    let own = field_in(databases, database_id, field_id);
    let end = applied(tables, step);
    rows_of_applied(tables, step);
    let i = database_index(databases, database_id);
    field_position_found(databases[i].fields, field_id);
    let k = field_position(databases[i].fields, field_id)->0;
    assert(is_field(databases, i, k));
    assert(field_at(databases, i, k) == own);
    standing_field(databases, i, k);
    let held = step->SetValue_value;
    column_holds_its_type(field_id, own.kind, value);
    if key.1 == link && key.2 == field_id {
        assert(field == own && key.0 == database_id);
        assert(tables.records.dom().contains((database_id, link)));
        assert(at(end.cells, key) == unless_null(held));
        Number::of_bool_is_a_number();
    } else {
        assert(at(end.cells, key) == at(tables.cells, key));
        if let Some(stored) = at(tables.cells, key) {
            assert(is_readable_cell(databases, key, stored));
            let read = choose|read: ValueView| stands_for(field.kind, stored, read);
            assert(decoded_value(field.kind, cell) == Ok::<ValueView, ErrorView>(read));
            assert(decoded_value(field.kind, later) == Ok::<ValueView, ErrorView>(read));
        }
    }
}

/// Creating a record leaves every cell readable.
pub proof fn create_record_keeps_cells_readable(
    tables: Tables,
    databases: Seq<DatabaseView>,
    database_id: DatabaseId,
    link: Link,
    now: Seq<char>,
)
    requires
        sound(tables, databases),
        cells_readable(tables, databases),
        has_database(databases, database_id),
        !tables.links.dom().contains(link),
    ensures
        cells_readable(
            all_applied(tables, create_record_steps(database_id, link, now)),
            databases,
        ),
{
    create_record_comes_to(tables, databases, database_id, link, now);
    let end = all_applied(tables, create_record_steps(database_id, link, now));
    fewer_cells(tables, end, databases);
}

/// Deleting a record leaves every cell readable.
pub proof fn delete_record_keeps_cells_readable(
    tables: Tables,
    databases: Seq<DatabaseView>,
    database_id: DatabaseId,
    link: Link,
)
    requires
        sound(tables, databases),
        cells_readable(tables, databases),
        at(tables.links, link) == Some(database_id),
    ensures
        cells_readable(
            all_applied(
                tables,
                delete_record_steps(database_of(databases, database_id).fields, database_id, link),
            ),
            databases,
        ),
{
    delete_record_comes_to(tables, databases, database_id, link);
    let end = all_applied(
        tables,
        delete_record_steps(database_of(databases, database_id).fields, database_id, link),
    );
    fewer_cells(tables, end, databases);
}

/// Creating and deleting relationships, and writing blobs, leaves every cell
/// readable.
pub proof fn other_steps_keep_cells_readable(
    tables: Tables,
    databases: Seq<DatabaseView>,
    step: StepView,
)
    requires
        cells_readable(tables, databases),
        step is InsertReference || step is DeleteReference || step is InsertBlob,
    ensures
        cells_readable(applied(tables, step), databases),
{
    rows_of_applied(tables, step);
    fewer_cells(tables, applied(tables, step), databases);
}

/// Persisting a change of the registry leaves every cell readable.
pub proof fn persisting_keeps_cells_readable(
    tables: Tables,
    before: Seq<DatabaseView>,
    after: Seq<DatabaseView>,
)
    requires
        sound(tables, before),
        cells_readable(tables, before),
        consistent(after),
        follows(before, after),
    ensures
        cells_readable(all_applied(tables, diff_steps(before, after)), after),
{
    let end = all_applied(tables, diff_steps(before, after));
    persisting_keeps_the_rest(tables, before, after);
    assert forall|key: (DatabaseId, Link, FieldId)|
        (#[trigger] at(end.cells, key)) is Some implies is_readable_cell(
        after,
        key,
        end.cells[key],
    ) by {
        assert(at(end.cells, key) == at(tables.cells, key));
        assert(tables.cells.dom().contains(key));
        assert(tables.columns.dom().contains((key.0, key.2)));
        assert(at(tables.columns, (key.0, key.2)) == schema_column(before, (key.0, key.2)));
        assert(schema_field(after, key.2) is Some);
        let (i, k) = choose|i: int, k: int| stands_at(before, key.2, i, k);
        let (j, m) = choose|j: int, m: int| stands_at(after, key.2, j, m);
        standing_field(before, i, k);
        standing_field(after, j, m);
        assert(field_at(before, i, k).id == field_at(after, j, m).id);
    }
}

} // verus!
