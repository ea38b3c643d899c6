//! Persisting a change of the registry brings the tables from the one to the
//! other, and touches nothing else.

use vstd::prelude::*;

use crate::diff::{
    diff_steps, field_steps, fields_steps, former_field, gathered, gone_database_steps,
    gone_field_steps, gone_fields_steps, new_database_steps, new_storage_steps, old_storage_steps,
};
use crate::ids::{DatabaseId, FieldId, Link, ReferenceId};
use crate::kind::column_type;
use crate::naming::{side_of, ReferenceSide};
use crate::registry::{
    add_field_error, database_index, database_index_is, database_of, database_removed,
    empty_database, field_added, field_error, field_in, field_removed, field_replaced,
    has_database, ids_distinct, is_database, schema_duplicated, with_database, with_fields_keeps,
};
use crate::registry_laws::{
    add_field_grows, add_field_keeps_consistent, are_fresh_ids, consistent, create_database_grows,
    create_database_keeps_consistent, database_removed_shape, duplicate_database_schema_copies,
    field_at, field_ids_distinct, field_removed_shape, goes_with, grows, is_field, is_fresh_field,
    kept_from, kept_from_is,
};
use crate::schema::{
    field_position, field_position_found, field_position_is, DatabaseView, FieldKindView,
    FieldView,
};
use crate::sql::SqlView;
use crate::steps::StepView;
use crate::tables::{
    all_applied, at, cell_row, column_row, database_row, field_row, link_row, map_of_at,
    record_row, record_table_row, reference_row, reference_table_row, same_rows, RecordTimes,
    Tables,
};

verus! {

/// What becomes of one row in a sequence of steps.
pub open spec fn row_after<V>(
    row: spec_fn(StepView, Option<V>) -> Option<V>,
    steps: Seq<StepView>,
    start: Option<V>,
) -> Option<V>
    decreases steps.len(),
{
    if steps.len() == 0 {
        start
    } else {
        row(steps.last(), row_after(row, steps.drop_last(), start))
    }
}

/// Whether the steps leave the row as it is.
pub open spec fn idle<V>(row: spec_fn(StepView, Option<V>) -> Option<V>, steps: Seq<StepView>) -> bool {
    forall|start: Option<V>| #[trigger] row_after(row, steps, start) == start
}

proof fn row_after_both<V>(
    row: spec_fn(StepView, Option<V>) -> Option<V>,
    first: Seq<StepView>,
    second: Seq<StepView>,
    start: Option<V>,
)
    ensures
        row_after(row, first + second, start) == row_after(
            row,
            second,
            row_after(row, first, start),
        ),
    decreases second.len(),
{
    if second.len() == 0 {
        assert(first + second =~= first);
    } else {
        assert((first + second).drop_last() =~= first + second.drop_last());
        row_after_both(row, first, second.drop_last(), start);
    }
}

/// Steps that each leave a row as it is leave it as it is together.
proof fn idle_steps<V>(row: spec_fn(StepView, Option<V>) -> Option<V>, steps: Seq<StepView>)
    requires
        forall|i: int, start: Option<V>|
            0 <= i < steps.len() ==> #[trigger] row(steps[i], start) == start,
    ensures
        idle(row, steps),
    decreases steps.len(),
{
    if steps.len() > 0 {
        let rest = steps.drop_last();
        assert forall|i: int, start: Option<V>| 0 <= i < rest.len() implies #[trigger] row(
            rest[i],
            start,
        ) == start by {
            assert(rest[i] == steps[i]);
        }
        idle_steps(row, rest);
        assert forall|start: Option<V>| #[trigger] row_after(row, steps, start) == start by {
            assert(row_after(row, rest, start) == start);
            assert(row(steps[steps.len() - 1], start) == start);
        }
    }
}

/// What many items give leaves a row as it is when each item's part does.
proof fn idle_gathered<A, V>(
    row: spec_fn(StepView, Option<V>) -> Option<V>,
    items: Seq<A>,
    give: spec_fn(A) -> Seq<StepView>,
)
    requires
        forall|j: int| 0 <= j < items.len() ==> idle(row, give(#[trigger] items[j])),
    ensures
        idle(row, gathered(items, give)),
    decreases items.len(),
{
    if items.len() > 0 {
        let rest = items.drop_last();
        assert forall|j: int| 0 <= j < rest.len() implies idle(row, give(#[trigger] rest[j])) by {
            assert(rest[j] == items[j]);
        }
        idle_gathered(row, rest, give);
        assert(idle(row, give(items[items.len() - 1])));
        assert forall|start: Option<V>| #[trigger] row_after(row, gathered(items, give), start)
            == start by {
            row_after_both(row, gathered(rest, give), give(items.last()), start);
            assert(row_after(row, gathered(rest, give), start) == start);
        }
    }
}

/// What many items give does to a row what the only item does that matters.
proof fn one_of_gathered<A, V>(
    row: spec_fn(StepView, Option<V>) -> Option<V>,
    items: Seq<A>,
    give: spec_fn(A) -> Seq<StepView>,
    only: int,
    start: Option<V>,
)
    requires
        0 <= only < items.len(),
        forall|j: int|
            0 <= j < items.len() && j != only ==> idle(row, give(#[trigger] items[j])),
    ensures
        row_after(row, gathered(items, give), start) == row_after(row, give(items[only]), start),
    decreases items.len(),
{
    let rest = items.drop_last();
    row_after_both(row, gathered(rest, give), give(items.last()), start);
    if only == items.len() - 1 {
        assert forall|j: int| 0 <= j < rest.len() implies idle(row, give(#[trigger] rest[j])) by {
            assert(rest[j] == items[j]);
        }
        idle_gathered(row, rest, give);
        assert(row_after(row, gathered(rest, give), start) == start);
    } else {
        assert forall|j: int| 0 <= j < rest.len() && j != only implies idle(
            row,
            give(#[trigger] rest[j]),
        ) by {
            assert(rest[j] == items[j]);
        }
        one_of_gathered(row, rest, give, only, start);
        assert(rest[only] == items[only]);
        assert(idle(row, give(items[items.len() - 1])));
        let middle = row_after(row, gathered(rest, give), start);
        assert(row_after(row, give(items.last()), middle) == middle);
    }
}

/// The four parts of a difference, one after the other.
proof fn row_after_diff<V>(
    row: spec_fn(StepView, Option<V>) -> Option<V>,
    before: Seq<DatabaseView>,
    after: Seq<DatabaseView>,
    start: Option<V>,
)
    ensures
        row_after(row, diff_steps(before, after), start) == row_after(
            row,
            gathered(before, gone_database_steps(after)),
            row_after(
                row,
                gathered(before, gone_fields_steps(after)),
                row_after(
                    row,
                    gathered(after, fields_steps(before)),
                    row_after(row, gathered(after, new_database_steps(before)), start),
                ),
            ),
        ),
{
    let p1 = gathered(after, new_database_steps(before));
    let p2 = gathered(after, fields_steps(before));
    let p3 = gathered(before, gone_fields_steps(after));
    let p4 = gathered(before, gone_database_steps(after));
    row_after_both(row, p1 + p2 + p3, p4, start);
    row_after_both(row, p1 + p2, p3, start);
    row_after_both(row, p1, p2, start);
}

/// The steps for fields, database by database, leave a row as it is when those
/// for each field do.
proof fn idle_fields<V>(
    row: spec_fn(StepView, Option<V>) -> Option<V>,
    databases: Seq<DatabaseView>,
    other: Seq<DatabaseView>,
)
    ensures
        (forall|i: int, k: int|
            is_field(databases, i, k) ==> idle(
                row,
                field_steps(other, databases[i].id)(#[trigger] field_at(databases, i, k)),
            )) ==> idle(row, gathered(databases, fields_steps(other))),
        (forall|i: int, k: int|
            is_field(databases, i, k) ==> idle(
                row,
                gone_field_steps(other, databases[i].id)(#[trigger] field_at(databases, i, k)),
            )) ==> idle(row, gathered(databases, gone_fields_steps(other))),
{
    if forall|i: int, k: int|
        is_field(databases, i, k) ==> idle(
            row,
            field_steps(other, databases[i].id)(#[trigger] field_at(databases, i, k)),
        ) {
        assert forall|i: int| 0 <= i < databases.len() implies idle(
            row,
            fields_steps(other)(#[trigger] databases[i]),
        ) by {
            let fields = databases[i].fields;
            let give = field_steps(other, databases[i].id);
            assert forall|k: int| 0 <= k < fields.len() implies idle(
                row,
                give(#[trigger] fields[k]),
            ) by {
                assert(is_field(databases, i, k));
                assert(fields[k] == field_at(databases, i, k));
            }
            idle_gathered(row, fields, give);
        }
        idle_gathered(row, databases, fields_steps(other));
    }
    if forall|i: int, k: int|
        is_field(databases, i, k) ==> idle(
            row,
            gone_field_steps(other, databases[i].id)(#[trigger] field_at(databases, i, k)),
        ) {
        assert forall|i: int| 0 <= i < databases.len() implies idle(
            row,
            gone_fields_steps(other)(#[trigger] databases[i]),
        ) by {
            let fields = databases[i].fields;
            let give = gone_field_steps(other, databases[i].id);
            assert forall|k: int| 0 <= k < fields.len() implies idle(
                row,
                give(#[trigger] fields[k]),
            ) by {
                assert(is_field(databases, i, k));
                assert(fields[k] == field_at(databases, i, k));
            }
            idle_gathered(row, fields, give);
        }
        idle_gathered(row, databases, gone_fields_steps(other));
    }
}

/// The steps for fields do to a row what those of the only field do that
/// matters.
proof fn one_field<V>(
    row: spec_fn(StepView, Option<V>) -> Option<V>,
    databases: Seq<DatabaseView>,
    other: Seq<DatabaseView>,
    i0: int,
    k0: int,
    start: Option<V>,
)
    requires
        is_field(databases, i0, k0),
    ensures
        (forall|i: int, k: int|
            is_field(databases, i, k) && (i != i0 || k != k0) ==> idle(
                row,
                field_steps(other, databases[i].id)(#[trigger] field_at(databases, i, k)),
            )) ==> row_after(row, gathered(databases, fields_steps(other)), start) == row_after(
            row,
            field_steps(other, databases[i0].id)(field_at(databases, i0, k0)),
            start,
        ),
        (forall|i: int, k: int|
            is_field(databases, i, k) && (i != i0 || k != k0) ==> idle(
                row,
                gone_field_steps(other, databases[i].id)(#[trigger] field_at(databases, i, k)),
            )) ==> row_after(row, gathered(databases, gone_fields_steps(other)), start)
            == row_after(
            row,
            gone_field_steps(other, databases[i0].id)(field_at(databases, i0, k0)),
            start,
        ),
{
    if forall|i: int, k: int|
        is_field(databases, i, k) && (i != i0 || k != k0) ==> idle(
            row,
            field_steps(other, databases[i].id)(#[trigger] field_at(databases, i, k)),
        ) {
        assert forall|i: int| 0 <= i < databases.len() && i != i0 implies idle(
            row,
            fields_steps(other)(#[trigger] databases[i]),
        ) by {
            let fields = databases[i].fields;
            let give = field_steps(other, databases[i].id);
            assert forall|k: int| 0 <= k < fields.len() implies idle(
                row,
                give(#[trigger] fields[k]),
            ) by {
                assert(is_field(databases, i, k));
                assert(fields[k] == field_at(databases, i, k));
            }
            idle_gathered(row, fields, give);
        }
        one_of_gathered(row, databases, fields_steps(other), i0, start);
        let fields = databases[i0].fields;
        let give = field_steps(other, databases[i0].id);
        assert forall|k: int| 0 <= k < fields.len() && k != k0 implies idle(
            row,
            give(#[trigger] fields[k]),
        ) by {
            assert(is_field(databases, i0, k));
            assert(fields[k] == field_at(databases, i0, k));
        }
        one_of_gathered(row, fields, give, k0, start);
    }
    if forall|i: int, k: int|
        is_field(databases, i, k) && (i != i0 || k != k0) ==> idle(
            row,
            gone_field_steps(other, databases[i].id)(#[trigger] field_at(databases, i, k)),
        ) {
        assert forall|i: int| 0 <= i < databases.len() && i != i0 implies idle(
            row,
            gone_fields_steps(other)(#[trigger] databases[i]),
        ) by {
            let fields = databases[i].fields;
            let give = gone_field_steps(other, databases[i].id);
            assert forall|k: int| 0 <= k < fields.len() implies idle(
                row,
                give(#[trigger] fields[k]),
            ) by {
                assert(is_field(databases, i, k));
                assert(fields[k] == field_at(databases, i, k));
            }
            idle_gathered(row, fields, give);
        }
        one_of_gathered(row, databases, gone_fields_steps(other), i0, start);
        let fields = databases[i0].fields;
        let give = gone_field_steps(other, databases[i0].id);
        assert forall|k: int| 0 <= k < fields.len() && k != k0 implies idle(
            row,
            give(#[trigger] fields[k]),
        ) by {
            assert(is_field(databases, i0, k));
            assert(fields[k] == field_at(databases, i0, k));
        }
        one_of_gathered(row, fields, give, k0, start);
    }
}

/// Where a field stands.
pub open spec fn stands_at(databases: Seq<DatabaseView>, id: FieldId, i: int, k: int) -> bool {
    is_field(databases, i, k) && field_at(databases, i, k).id == id
}

/// The field with this id, and the database that has it.
pub open spec fn schema_field(databases: Seq<DatabaseView>, id: FieldId) -> Option<
    (DatabaseId, FieldView),
> {
    if exists|i: int, k: int| stands_at(databases, id, i, k) {
        let (i, k) = choose|i: int, k: int| stands_at(databases, id, i, k);
        Some((databases[i].id, field_at(databases, i, k)))
    } else {
        None
    }
}

/// The name of the database with this id.
pub open spec fn schema_database(databases: Seq<DatabaseView>, id: DatabaseId) -> Option<
    Seq<char>,
> {
    if has_database(databases, id) {
        Some(database_of(databases, id).name)
    } else {
        None
    }
}

/// The type of the column that a field has in a database's table.
pub open spec fn schema_column(
    databases: Seq<DatabaseView>,
    key: (DatabaseId, FieldId),
) -> Option<Seq<char>> {
    match schema_field(databases, key.1) {
        Some((database_id, field)) => if database_id == key.0 {
            column_type(field.kind)
        } else {
            None
        },
        None => None,
    }
}

/// Whether there is a relationship whose lower field has this id.
pub open spec fn schema_reference(databases: Seq<DatabaseView>, lower: FieldId) -> Option<()> {
    match schema_field(databases, lower) {
        Some((_, field)) => match field.kind.pair() {
            Some(pair) => if side_of(lower, pair) == ReferenceSide::A {
                Some(())
            } else {
                None
            },
            None => None,
        },
        None => None,
    }
}

/// Whether the tables hold just what the registry says: a row for every
/// database and every field, a table for every database with a column for each
/// of its fields that has one, and a table for every relationship.
pub open spec fn holds_schema(tables: Tables, databases: Seq<DatabaseView>) -> bool {
    &&& forall|id: DatabaseId| #[trigger]
        at(tables.databases, id) == schema_database(databases, id)
    &&& forall|id: FieldId| #[trigger] at(tables.fields, id) == schema_field(databases, id)
    &&& forall|id: DatabaseId| #[trigger]
        tables.record_tables.dom().contains(id) == has_database(databases, id)
    &&& forall|key: (DatabaseId, FieldId)| #[trigger]
        at(tables.columns, key) == schema_column(databases, key)
    &&& forall|lower: FieldId| #[trigger]
        at(tables.reference_tables, lower) == schema_reference(databases, lower)
}

/// Whether a registry can be persisted as the successor of another: what is in
/// both has kept its name, its kind and its place. (A change of kind is not
/// persisted this way, since it has to migrate values.)
pub open spec fn follows(before: Seq<DatabaseView>, after: Seq<DatabaseView>) -> bool {
    &&& forall|i: int, j: int|
        0 <= i < before.len() && 0 <= j < after.len() && (#[trigger] before[i]).id == (
        #[trigger] after[j]).id ==> before[i].name == after[j].name
    &&& forall|i: int, k: int, j: int, m: int|
        is_field(before, i, k) && is_field(after, j, m) && (#[trigger] field_at(before, i, k)).id
            == (#[trigger] field_at(after, j, m)).id ==> before[i].id == after[j].id && field_at(
            before,
            i,
            k,
        ).kind == field_at(after, j, m).kind
}

/// A field that stands somewhere is the one that is found.
pub proof fn standing_field(databases: Seq<DatabaseView>, i: int, k: int)
    requires
        ids_distinct(databases),
        field_ids_distinct(databases),
        is_field(databases, i, k),
    ensures
        ({
            let field = field_at(databases, i, k);
            &&& schema_field(databases, field.id) == Some((databases[i].id, field))
            &&& has_database(databases, databases[i].id)
            &&& former_field(databases, databases[i].id, field.id) == Some(field)
        }),
{
    let field = field_at(databases, i, k);
    assert(stands_at(databases, field.id, i, k));
    let (j, m) = choose|j: int, m: int| stands_at(databases, field.id, j, m);
    assert(i == j && k == m) by {
        assert(field_at(databases, i, k).id == field_at(databases, j, m).id);
    }
    assert(is_database(databases, databases[i].id, i));
    database_index_is(databases, databases[i].id, i);
    let fields = databases[i].fields;
    assert forall|n: int| 0 <= n < k implies (#[trigger] fields[n]).id != field.id by {
        assert(is_field(databases, i, n));
        assert(field_at(databases, i, n).id != field_at(databases, i, k).id);
    }
    field_position_is(fields, field.id, k);
}

/// What is found in a database stands there.
pub proof fn former_stands(databases: Seq<DatabaseView>, database_id: DatabaseId, id: FieldId) -> (at:
    (int, int))
    requires
        former_field(databases, database_id, id) is Some,
    ensures
        stands_at(databases, id, at.0, at.1),
        databases[at.0].id == database_id,
        former_field(databases, database_id, id) == Some(field_at(databases, at.0, at.1)),
{
    let i = database_index(databases, database_id);
    assert(is_database(databases, database_id, i));
    field_position_found(databases[i].fields, id);
    (i, field_position(databases[i].fields, id)->0)
}

/// Rows of databases, of one id.
spec fn database_rows(id: DatabaseId) -> spec_fn(StepView, Option<Seq<char>>) -> Option<Seq<char>> {
    |step: StepView, row: Option<Seq<char>>| database_row(step, id, row)
}

spec fn field_rows(id: FieldId) -> spec_fn(StepView, Option<(DatabaseId, FieldView)>) -> Option<
    (DatabaseId, FieldView),
> {
    |step: StepView, row: Option<(DatabaseId, FieldView)>| field_row(step, id, row)
}

spec fn link_rows(link: Link) -> spec_fn(StepView, Option<DatabaseId>) -> Option<DatabaseId> {
    |step: StepView, row: Option<DatabaseId>| link_row(step, link, row)
}

spec fn record_table_rows(id: DatabaseId) -> spec_fn(StepView, Option<()>) -> Option<()> {
    |step: StepView, row: Option<()>| record_table_row(step, id, row)
}

spec fn column_rows(key: (DatabaseId, FieldId)) -> spec_fn(StepView, Option<Seq<char>>) -> Option<
    Seq<char>,
> {
    |step: StepView, row: Option<Seq<char>>| column_row(step, key, row, None)
}

spec fn record_rows(key: (DatabaseId, Link)) -> spec_fn(StepView, Option<RecordTimes>) -> Option<
    RecordTimes,
> {
    |step: StepView, row: Option<RecordTimes>| record_row(step, key, row)
}

spec fn cell_rows(key: (DatabaseId, Link, FieldId)) -> spec_fn(StepView, Option<SqlView>) -> Option<
    SqlView,
> {
    |step: StepView, row: Option<SqlView>| cell_row(step, key, row, false, None)
}

spec fn reference_table_rows(lower: FieldId) -> spec_fn(StepView, Option<()>) -> Option<()> {
    |step: StepView, row: Option<()>| reference_table_row(step, lower, row)
}

spec fn reference_rows(key: (FieldId, ReferenceId)) -> spec_fn(StepView, Option<(Link, Link)>) -> Option<
    (Link, Link),
> {
    |step: StepView, row: Option<(Link, Link)>| reference_row(step, key, row)
}

/// Whether a step is one that a difference is made of.
pub open spec fn is_schema_step(step: StepView) -> bool {
    match step {
        StepView::InsertDatabase { .. } => true,
        StepView::CreateRecordTable { .. } => true,
        StepView::InsertField { .. } => true,
        StepView::CreateReferenceTable { .. } => true,
        StepView::CreateReferenceIndex { .. } => true,
        StepView::AddColumn { .. } => true,
        StepView::UpdateField { .. } => true,
        StepView::DeleteField { .. } => true,
        StepView::DropReferenceTable { .. } => true,
        StepView::DropColumn { .. } => true,
        StepView::DeleteLinksOf { .. } => true,
        StepView::DeleteDatabase { .. } => true,
        StepView::DropRecordTable { .. } => true,
        _ => false,
    }
}

/// Whether all the steps are of that sort.
pub open spec fn all_schema_steps(steps: Seq<StepView>) -> bool {
    forall|i: int| 0 <= i < steps.len() ==> is_schema_step(#[trigger] steps[i])
}

proof fn gathered_schema_steps<A>(items: Seq<A>, give: spec_fn(A) -> Seq<StepView>)
    requires
        forall|j: int| 0 <= j < items.len() ==> all_schema_steps(give(#[trigger] items[j])),
    ensures
        all_schema_steps(gathered(items, give)),
    decreases items.len(),
{
    if items.len() > 0 {
        let rest = items.drop_last();
        assert forall|j: int| 0 <= j < rest.len() implies all_schema_steps(
            give(#[trigger] rest[j]),
        ) by {
            assert(rest[j] == items[j]);
        }
        gathered_schema_steps(rest, give);
        assert(all_schema_steps(give(items[items.len() - 1])));
    }
}

/// A difference is made of such steps only.
pub proof fn diff_is_schema_steps(before: Seq<DatabaseView>, after: Seq<DatabaseView>)
    ensures
        all_schema_steps(diff_steps(before, after)),
{
    gathered_schema_steps(after, new_database_steps(before));
    assert forall|i: int| 0 <= i < after.len() implies all_schema_steps(
        fields_steps(before)(#[trigger] after[i]),
    ) by {
        gathered_schema_steps(after[i].fields, field_steps(before, after[i].id));
    }
    gathered_schema_steps(after, fields_steps(before));
    assert forall|i: int| 0 <= i < before.len() implies all_schema_steps(
        gone_fields_steps(after)(#[trigger] before[i]),
    ) by {
        gathered_schema_steps(before[i].fields, gone_field_steps(after, before[i].id));
    }
    gathered_schema_steps(before, gone_fields_steps(after));
    gathered_schema_steps(before, gone_database_steps(after));
}

/// In such steps each row goes its own way.
proof fn rows_go_their_way(tables: Tables, steps: Seq<StepView>)
    requires
        all_schema_steps(steps),
    ensures
        ({
            let end = all_applied(tables, steps);
            &&& forall|id: DatabaseId| #[trigger]
                at(end.databases, id) == row_after(
                    database_rows(id),
                    steps,
                    at(tables.databases, id),
                )
            &&& forall|id: FieldId| #[trigger]
                at(end.fields, id) == row_after(field_rows(id), steps, at(tables.fields, id))
            &&& forall|link: Link| #[trigger]
                at(end.links, link) == row_after(link_rows(link), steps, at(tables.links, link))
            &&& forall|id: DatabaseId| #[trigger]
                at(end.record_tables, id) == row_after(
                    record_table_rows(id),
                    steps,
                    at(tables.record_tables, id),
                )
            &&& forall|key: (DatabaseId, FieldId)| #[trigger]
                at(end.columns, key) == row_after(column_rows(key), steps, at(tables.columns, key))
            &&& forall|key: (DatabaseId, Link)| #[trigger]
                at(end.records, key) == row_after(record_rows(key), steps, at(tables.records, key))
            &&& forall|key: (DatabaseId, Link, FieldId)| #[trigger]
                at(end.cells, key) == row_after(cell_rows(key), steps, at(tables.cells, key))
            &&& forall|lower: FieldId| #[trigger]
                at(end.reference_tables, lower) == row_after(
                    reference_table_rows(lower),
                    steps,
                    at(tables.reference_tables, lower),
                )
            &&& forall|key: (FieldId, ReferenceId)| #[trigger]
                at(end.references, key) == row_after(
                    reference_rows(key),
                    steps,
                    at(tables.references, key),
                )
            &&& forall|hash: Seq<char>| #[trigger]
                at(end.blobs, hash) == at(tables.blobs, hash)
        }),
    decreases steps.len(),
{
    broadcast use map_of_at;

    if steps.len() > 0 {
        let rest = steps.drop_last();
        assert forall|i: int| 0 <= i < rest.len() implies is_schema_step(#[trigger] rest[i]) by {
            assert(rest[i] == steps[i]);
        }
        rows_go_their_way(tables, rest);
        assert(is_schema_step(steps[steps.len() - 1]));
    }
}

/// The database rows after a difference.
#[verifier::spinoff_prover]
#[verifier::rlimit(60)]
proof fn databases_persisted(before: Seq<DatabaseView>, after: Seq<DatabaseView>, id: DatabaseId)
    requires
        ids_distinct(before),
        ids_distinct(after),
        follows(before, after),
    ensures
        row_after(
            database_rows(id),
            diff_steps(before, after),
            schema_database(before, id),
        ) == schema_database(after, id),
        row_after(
            record_table_rows(id),
            diff_steps(before, after),
            if has_database(before, id) {
                Some(())
            } else {
                None
            },
        ) is Some == has_database(after, id),
{
    let row = database_rows(id);
    let table = record_table_rows(id);
    let start = schema_database(before, id);
    let start_table: Option<()> = if has_database(before, id) {
        Some(())
    } else {
        None
    };
    row_after_diff(row, before, after, start);
    row_after_diff(table, before, after, start_table);
    let new = new_database_steps(before);
    let gone = gone_database_steps(after);
    assert forall|j: int| 0 <= j < after.len() && after[j].id != id implies idle(
        row,
        new(#[trigger] after[j]),
    ) && idle(table, new(after[j])) by {
        idle_steps(row, new(after[j]));
        idle_steps(table, new(after[j]));
    }
    assert forall|j: int| 0 <= j < before.len() && before[j].id != id implies idle(
        row,
        gone(#[trigger] before[j]),
    ) && idle(table, gone(before[j])) by {
        idle_steps(row, gone(before[j]));
        idle_steps(table, gone(before[j]));
    }
    assert forall|i: int, k: int| is_field(after, i, k) implies idle(
        row,
        field_steps(before, after[i].id)(#[trigger] field_at(after, i, k)),
    ) && idle(table, field_steps(before, after[i].id)(field_at(after, i, k))) by {
        idle_steps(row, field_steps(before, after[i].id)(field_at(after, i, k)));
        idle_steps(table, field_steps(before, after[i].id)(field_at(after, i, k)));
    }
    idle_fields(row, after, before);
    idle_fields(table, after, before);
    assert forall|i: int, k: int| is_field(before, i, k) implies idle(
        row,
        gone_field_steps(after, before[i].id)(#[trigger] field_at(before, i, k)),
    ) && idle(table, gone_field_steps(after, before[i].id)(field_at(before, i, k))) by {
        idle_steps(row, gone_field_steps(after, before[i].id)(field_at(before, i, k)));
        idle_steps(table, gone_field_steps(after, before[i].id)(field_at(before, i, k)));
    }
    idle_fields(row, before, after);
    idle_fields(table, before, after);
    // The first part.
    let first = row_after(row, gathered(after, new), start);
    let first_table = row_after(table, gathered(after, new), start_table);
    if has_database(after, id) {
        let j = database_index(after, id);
        assert(is_database(after, id, j));
        assert forall|n: int| 0 <= n < after.len() && n != j implies idle(
            row,
            new(#[trigger] after[n]),
        ) && idle(table, new(after[n])) by {
            assert(after[n].id != id);
        }
        one_of_gathered(row, after, new, j, start);
        one_of_gathered(table, after, new, j, start_table);
        if has_database(before, id) {
            let n = database_index(before, id);
            assert(is_database(before, id, n));
            assert(before[n].name == after[j].name);
        } else {
            let steps = new(after[j]);
            assert(steps.drop_last().drop_last() =~= Seq::empty());
            reveal_with_fuel(row_after, 3);
        }
    } else {
        assert forall|n: int| 0 <= n < after.len() implies (#[trigger] after[n]).id != id by {
            assert(!is_database(after, id, n));
        }
        idle_gathered(row, after, new);
        idle_gathered(table, after, new);
        assert(first == start);
        assert(first_table == start_table);
    }
    assert(has_database(after, id) ==> first == schema_database(after, id));
    assert(has_database(after, id) ==> first_table is Some);
    // The last part.
    assert(row_after(row, gathered(after, fields_steps(before)), first) == first);
    assert(row_after(row, gathered(before, gone_fields_steps(after)), first) == first);
    assert(row_after(table, gathered(after, fields_steps(before)), first_table) == first_table);
    assert(row_after(table, gathered(before, gone_fields_steps(after)), first_table)
        == first_table);
    if has_database(before, id) {
        let j = database_index(before, id);
        assert(is_database(before, id, j));
        assert forall|n: int| 0 <= n < before.len() && n != j implies idle(
            row,
            gone(#[trigger] before[n]),
        ) && idle(table, gone(before[n])) by {
            assert(before[n].id != id);
        }
        one_of_gathered(row, before, gone, j, first);
        one_of_gathered(table, before, gone, j, first_table);
        if !has_database(after, id) {
            let steps = gone(before[j]);
            assert(steps.drop_last().drop_last().drop_last() =~= Seq::empty());
            reveal_with_fuel(row_after, 4);
        }
    } else {
        assert forall|n: int| 0 <= n < before.len() implies (#[trigger] before[n]).id != id by {
            assert(!is_database(before, id, n));
        }
        idle_gathered(row, before, gone);
        idle_gathered(table, before, gone);
        assert(row_after(row, gathered(before, gone), first) == first);
        assert(row_after(table, gathered(before, gone), first_table) == first_table);
    }
}

/// Whether the steps for every other field leave a row as it is.
spec fn only_for<V>(
    row: spec_fn(StepView, Option<V>) -> Option<V>,
    before: Seq<DatabaseView>,
    after: Seq<DatabaseView>,
    id: FieldId,
) -> bool {
    &&& forall|database_id: DatabaseId, field: FieldView|
        field.id != id ==> idle(row, #[trigger] field_steps(before, database_id)(field))
    &&& forall|database_id: DatabaseId, field: FieldView|
        field.id != id ==> idle(row, #[trigger] gone_field_steps(after, database_id)(field))
}

/// What the steps for all fields do to a row that only one field's steps
/// matter to.
proof fn field_phases<V>(
    row: spec_fn(StepView, Option<V>) -> Option<V>,
    before: Seq<DatabaseView>,
    after: Seq<DatabaseView>,
    id: FieldId,
    start: Option<V>,
)
    requires
        ids_distinct(before),
        field_ids_distinct(before),
        ids_distinct(after),
        field_ids_distinct(after),
        only_for(row, before, after, id),
    ensures
        row_after(row, gathered(after, fields_steps(before)), start) == match schema_field(
            after,
            id,
        ) {
            Some((database_id, field)) => row_after(
                row,
                field_steps(before, database_id)(field),
                start,
            ),
            None => start,
        },
        row_after(row, gathered(before, gone_fields_steps(after)), start) == match schema_field(
            before,
            id,
        ) {
            Some((database_id, field)) => row_after(
                row,
                gone_field_steps(after, database_id)(field),
                start,
            ),
            None => start,
        },
{
    if exists|i: int, k: int| stands_at(after, id, i, k) {
        let (i0, k0) = choose|i: int, k: int| stands_at(after, id, i, k);
        assert forall|i: int, k: int|
            is_field(after, i, k) && (i != i0 || k != k0) implies idle(
            row,
            field_steps(before, after[i].id)(#[trigger] field_at(after, i, k)),
        ) by {
            assert(field_at(after, i, k).id != field_at(after, i0, k0).id);
        }
        one_field(row, after, before, i0, k0, start);
    } else {
        assert forall|i: int, k: int| is_field(after, i, k) implies idle(
            row,
            field_steps(before, after[i].id)(#[trigger] field_at(after, i, k)),
        ) by {
            assert(!stands_at(after, id, i, k));
        }
        idle_fields(row, after, before);
        assert(row_after(row, gathered(after, fields_steps(before)), start) == start);
    }
    if exists|i: int, k: int| stands_at(before, id, i, k) {
        let (i0, k0) = choose|i: int, k: int| stands_at(before, id, i, k);
        assert forall|i: int, k: int|
            is_field(before, i, k) && (i != i0 || k != k0) implies idle(
            row,
            gone_field_steps(after, before[i].id)(#[trigger] field_at(before, i, k)),
        ) by {
            assert(field_at(before, i, k).id != field_at(before, i0, k0).id);
        }
        one_field(row, before, after, i0, k0, start);
    } else {
        assert forall|i: int, k: int| is_field(before, i, k) implies idle(
            row,
            gone_field_steps(after, before[i].id)(#[trigger] field_at(before, i, k)),
        ) by {
            assert(!stands_at(before, id, i, k));
        }
        idle_fields(row, before, after);
        assert(row_after(row, gathered(before, gone_fields_steps(after)), start) == start);
    }
}

/// The steps of databases leave the rows of fields and of relationships as
/// they are, and new databases leave the columns as they are.
proof fn databases_leave_fields(before: Seq<DatabaseView>, after: Seq<DatabaseView>, id: FieldId)
    ensures
        idle(field_rows(id), gathered(after, new_database_steps(before))),
        idle(field_rows(id), gathered(before, gone_database_steps(after))),
        idle(reference_table_rows(id), gathered(after, new_database_steps(before))),
        idle(reference_table_rows(id), gathered(before, gone_database_steps(after))),
{
    let new = new_database_steps(before);
    let gone = gone_database_steps(after);
    assert forall|j: int| 0 <= j < after.len() implies idle(field_rows(id), new(#[trigger] after[j]))
        && idle(reference_table_rows(id), new(after[j])) by {
        idle_steps(field_rows(id), new(after[j]));
        idle_steps(reference_table_rows(id), new(after[j]));
    }
    idle_gathered(field_rows(id), after, new);
    idle_gathered(reference_table_rows(id), after, new);
    assert forall|j: int| 0 <= j < before.len() implies idle(
        field_rows(id),
        gone(#[trigger] before[j]),
    ) && idle(reference_table_rows(id), gone(before[j])) by {
        idle_steps(field_rows(id), gone(before[j]));
        idle_steps(reference_table_rows(id), gone(before[j]));
    }
    idle_gathered(field_rows(id), before, gone);
    idle_gathered(reference_table_rows(id), before, gone);
}

/// The rows of a field are changed by its own steps only.
proof fn field_rows_own(before: Seq<DatabaseView>, after: Seq<DatabaseView>, id: FieldId)
    ensures
        only_for(field_rows(id), before, after, id),
        only_for(reference_table_rows(id), before, after, id),
        forall|database_id: DatabaseId|
            only_for(#[trigger] column_rows((database_id, id)), before, after, id),
{
    assert forall|database_id: DatabaseId, field: FieldView| field.id != id implies idle(
        field_rows(id),
        #[trigger] field_steps(before, database_id)(field),
    ) by {
        idle_steps(field_rows(id), field_steps(before, database_id)(field));
    }
    assert forall|database_id: DatabaseId, field: FieldView| field.id != id implies idle(
        field_rows(id),
        #[trigger] gone_field_steps(after, database_id)(field),
    ) by {
        idle_steps(field_rows(id), gone_field_steps(after, database_id)(field));
    }
    assert forall|database_id: DatabaseId, field: FieldView| field.id != id implies idle(
        reference_table_rows(id),
        #[trigger] field_steps(before, database_id)(field),
    ) by {
        idle_steps(reference_table_rows(id), field_steps(before, database_id)(field));
    }
    assert forall|database_id: DatabaseId, field: FieldView| field.id != id implies idle(
        reference_table_rows(id),
        #[trigger] gone_field_steps(after, database_id)(field),
    ) by {
        idle_steps(reference_table_rows(id), gone_field_steps(after, database_id)(field));
    }
    assert forall|own: DatabaseId| only_for(
        #[trigger] column_rows((own, id)),
        before,
        after,
        id,
    ) by {
        let row = column_rows((own, id));
        assert forall|database_id: DatabaseId, field: FieldView| field.id != id implies idle(
            row,
            #[trigger] field_steps(before, database_id)(field),
        ) by {
            idle_steps(row, field_steps(before, database_id)(field));
        }
        assert forall|database_id: DatabaseId, field: FieldView| field.id != id implies idle(
            row,
            #[trigger] gone_field_steps(after, database_id)(field),
        ) by {
            idle_steps(row, gone_field_steps(after, database_id)(field));
        }
    }
}

/// A field that is in both registries was found in its database before.
proof fn field_stays(
    before: Seq<DatabaseView>,
    after: Seq<DatabaseView>,
    id: FieldId,
)
    requires
        ids_distinct(before),
        field_ids_distinct(before),
        ids_distinct(after),
        field_ids_distinct(after),
        follows(before, after),
    ensures
        match (schema_field(before, id), schema_field(after, id)) {
            (Some((d, old)), Some((e, new))) => {
                &&& d == e
                &&& old.kind == new.kind
                &&& old.id == id
                &&& new.id == id
                &&& has_database(before, d)
                &&& has_database(after, d)
                &&& former_field(before, d, id) == Some(old)
                &&& former_field(after, d, id) == Some(new)
            },
            (Some((d, old)), None) => {
                &&& old.id == id
                &&& has_database(before, d)
                &&& former_field(before, d, id) == Some(old)
                &&& former_field(after, d, id) is None
            },
            (None, Some((e, new))) => {
                &&& new.id == id
                &&& has_database(after, e)
                &&& former_field(after, e, id) == Some(new)
                &&& former_field(before, e, id) is None
            },
            (None, None) => true,
        },
{
    if schema_field(before, id) is Some {
        let (i, k) = choose|i: int, k: int| stands_at(before, id, i, k);
        standing_field(before, i, k);
        if schema_field(after, id) is Some {
            let (j, m) = choose|j: int, m: int| stands_at(after, id, j, m);
            standing_field(after, j, m);
            assert(field_at(before, i, k).id == field_at(after, j, m).id);
        } else {
            let d = before[i].id;
            if former_field(after, d, id) is Some {
                let (j, m) = former_stands(after, d, id);
                assert(stands_at(after, id, j, m));
            }
        }
    } else if schema_field(after, id) is Some {
        let (j, m) = choose|j: int, m: int| stands_at(after, id, j, m);
        standing_field(after, j, m);
        let e = after[j].id;
        if former_field(before, e, id) is Some {
            let (i, k) = former_stands(before, e, id);
            assert(stands_at(before, id, i, k));
        }
    }
}

/// The field rows after a difference.
proof fn fields_persisted(before: Seq<DatabaseView>, after: Seq<DatabaseView>, id: FieldId)
    requires
        ids_distinct(before),
        field_ids_distinct(before),
        ids_distinct(after),
        field_ids_distinct(after),
        follows(before, after),
    ensures
        row_after(field_rows(id), diff_steps(before, after), schema_field(before, id))
            == schema_field(after, id),
{
    let row = field_rows(id);
    let start = schema_field(before, id);
    row_after_diff(row, before, after, start);
    databases_leave_fields(before, after, id);
    field_rows_own(before, after, id);
    field_stays(before, after, id);
    field_phases(row, before, after, id, start);
    let middle = row_after(row, gathered(after, fields_steps(before)), start);
    field_phases(row, before, after, id, middle);
    assert(row_after(row, gathered(after, new_database_steps(before)), start) == start);
    if let Some((d, field)) = schema_field(after, id) {
        let steps = field_steps(before, d)(field);
        match former_field(before, d, id) {
            None => {
                let storage = new_storage_steps(d, field);
                idle_steps(row, storage);
                row_after_both(row, seq![StepView::InsertField { database_id: d, field }], storage, start);
                assert(seq![StepView::InsertField { database_id: d, field }].drop_last()
                    =~= Seq::empty());
                reveal_with_fuel(row_after, 2);
            },
            Some(former) => {
                if former != field {
                    assert(steps.drop_last() =~= Seq::empty());
                    reveal_with_fuel(row_after, 2);
                }
            },
        }
        assert(middle == Some((d, field)));
    }
    let late = row_after(row, gathered(before, gone_fields_steps(after)), middle);
    if let Some((d, field)) = schema_field(before, id) {
        if former_field(after, d, id) is None {
            let storage = old_storage_steps(after, d, field);
            idle_steps(row, storage);
            row_after_both(row, seq![StepView::DeleteField { field: id }], storage, middle);
            assert(seq![StepView::DeleteField { field: id }].drop_last() =~= Seq::empty());
            reveal_with_fuel(row_after, 2);
        }
    }
    assert(late == schema_field(after, id));
    assert(row_after(row, gathered(before, gone_database_steps(after)), late) == late);
}

/// The tables of relationships after a difference.
proof fn reference_tables_persisted(
    before: Seq<DatabaseView>,
    after: Seq<DatabaseView>,
    id: FieldId,
)
    requires
        ids_distinct(before),
        field_ids_distinct(before),
        ids_distinct(after),
        field_ids_distinct(after),
        follows(before, after),
    ensures
        row_after(
            reference_table_rows(id),
            diff_steps(before, after),
            schema_reference(before, id),
        ) == schema_reference(after, id),
{
    let row = reference_table_rows(id);
    let start = schema_reference(before, id);
    row_after_diff(row, before, after, start);
    databases_leave_fields(before, after, id);
    field_rows_own(before, after, id);
    field_stays(before, after, id);
    field_phases(row, before, after, id, start);
    let middle = row_after(row, gathered(after, fields_steps(before)), start);
    field_phases(row, before, after, id, middle);
    assert(row_after(row, gathered(after, new_database_steps(before)), start) == start);
    if let Some((d, field)) = schema_field(after, id) {
        let steps = field_steps(before, d)(field);
        match former_field(before, d, id) {
            None => {
                let storage = new_storage_steps(d, field);
                let insert = seq![StepView::InsertField { database_id: d, field }];
                idle_steps(row, insert);
                row_after_both(row, insert, storage, start);
                assert(row_after(row, insert, start) == start);
                match field.kind {
                    FieldKindView::Reference { paired_field: Some(pair), .. } => {
                        if side_of(id, pair) == ReferenceSide::A {
                            assert(storage.drop_last().drop_last().drop_last() =~= Seq::empty());
                            reveal_with_fuel(row_after, 4);
                        }
                    },
                    _ => {
                        idle_steps(row, storage);
                        assert(row_after(row, storage, start) == start);
                    },
                }
            },
            Some(former) => {
                idle_steps(row, steps);
                assert(row_after(row, steps, start) == start);
            },
        }
        assert(middle == schema_reference(after, id));
    }
    let late = row_after(row, gathered(before, gone_fields_steps(after)), middle);
    if let Some((d, field)) = schema_field(before, id) {
        if former_field(after, d, id) is None {
            let storage = old_storage_steps(after, d, field);
            let delete = seq![StepView::DeleteField { field: id }];
            idle_steps(row, delete);
            row_after_both(row, delete, storage, middle);
            assert(row_after(row, delete, middle) == middle);
            match field.kind {
                FieldKindView::Reference { paired_field: Some(pair), .. } => {
                    if side_of(id, pair) == ReferenceSide::A {
                        assert(storage.drop_last() =~= Seq::empty());
                        reveal_with_fuel(row_after, 2);
                    }
                },
                _ => {
                    idle_steps(row, storage);
                    assert(row_after(row, storage, middle) == middle);
                },
            }
        }
    }
    assert(late == schema_reference(after, id));
    assert(row_after(row, gathered(before, gone_database_steps(after)), late) == late);
}

/// What the steps for databases that are gone do to a row that only matters
/// where its own database is gone.
proof fn gone_databases_phase<V>(
    row: spec_fn(StepView, Option<V>) -> Option<V>,
    before: Seq<DatabaseView>,
    after: Seq<DatabaseView>,
    id: DatabaseId,
    start: Option<V>,
)
    requires
        ids_distinct(before),
        forall|database: DatabaseView|
            database.id != id ==> idle(row, #[trigger] gone_database_steps(after)(database)),
        forall|start: Option<V>|
            #![trigger row(StepView::DeleteLinksOf { database_id: id }, start)]
            row(StepView::DeleteLinksOf { database_id: id }, start) == start,
        forall|start: Option<V>|
            #![trigger row(StepView::DeleteDatabase { id }, start)]
            row(StepView::DeleteDatabase { id }, start) == start,
        forall|start: Option<V>|
            #![trigger row(StepView::DropRecordTable { id }, start)]
            row(StepView::DropRecordTable { id }, start) is None,
    ensures
        row_after(row, gathered(before, gone_database_steps(after)), start) == if has_database(
            before,
            id,
        ) && !has_database(after, id) {
            None
        } else {
            start
        },
{
    let gone = gone_database_steps(after);
    if has_database(before, id) {
        let j = database_index(before, id);
        assert(is_database(before, id, j));
        assert forall|n: int| 0 <= n < before.len() && n != j implies idle(
            row,
            gone(#[trigger] before[n]),
        ) by {
            assert(before[n].id != id);
        }
        one_of_gathered(row, before, gone, j, start);
        if !has_database(after, id) {
            let steps = gone(before[j]);
            assert(steps.drop_last().drop_last().drop_last() =~= Seq::empty());
            reveal_with_fuel(row_after, 4);
        }
    } else {
        assert forall|n: int| 0 <= n < before.len() implies (#[trigger] before[n]).id != id by {
            assert(!is_database(before, id, n));
        }
        idle_gathered(row, before, gone);
        assert(row_after(row, gathered(before, gone), start) == start);
    }
}

/// The columns after a difference.
proof fn columns_persisted(
    before: Seq<DatabaseView>,
    after: Seq<DatabaseView>,
    own: DatabaseId,
    id: FieldId,
)
    requires
        ids_distinct(before),
        field_ids_distinct(before),
        ids_distinct(after),
        field_ids_distinct(after),
        follows(before, after),
    ensures
        row_after(
            column_rows((own, id)),
            diff_steps(before, after),
            schema_column(before, (own, id)),
        ) == schema_column(after, (own, id)),
{
    let row = column_rows((own, id));
    let start = schema_column(before, (own, id));
    row_after_diff(row, before, after, start);
    field_rows_own(before, after, id);
    field_stays(before, after, id);
    let new = new_database_steps(before);
    assert forall|j: int| 0 <= j < after.len() implies idle(row, new(#[trigger] after[j])) by {
        idle_steps(row, new(after[j]));
    }
    idle_gathered(row, after, new);
    assert(row_after(row, gathered(after, new), start) == start);
    field_phases(row, before, after, id, start);
    let middle = row_after(row, gathered(after, fields_steps(before)), start);
    field_phases(row, before, after, id, middle);
    if let Some((d, field)) = schema_field(after, id) {
        let steps = field_steps(before, d)(field);
        match former_field(before, d, id) {
            None => {
                let storage = new_storage_steps(d, field);
                let insert = seq![StepView::InsertField { database_id: d, field }];
                idle_steps(row, insert);
                row_after_both(row, insert, storage, start);
                assert(row_after(row, insert, start) == start);
                if field.kind is Reference || d != own {
                    idle_steps(row, storage);
                    assert(row_after(row, storage, start) == start);
                } else {
                    assert(storage.drop_last() =~= Seq::empty());
                    reveal_with_fuel(row_after, 2);
                }
            },
            Some(former) => {
                idle_steps(row, steps);
                assert(row_after(row, steps, start) == start);
            },
        }
        assert(middle == schema_column(after, (own, id)));
    }
    let late = row_after(row, gathered(before, gone_fields_steps(after)), middle);
    if let Some((d, field)) = schema_field(before, id) {
        if former_field(after, d, id) is None {
            let storage = old_storage_steps(after, d, field);
            let delete = seq![StepView::DeleteField { field: id }];
            idle_steps(row, delete);
            row_after_both(row, delete, storage, middle);
            assert(row_after(row, delete, middle) == middle);
            if field.kind is Reference || d != own || !has_database(after, d) {
                idle_steps(row, storage);
                assert(row_after(row, storage, middle) == middle);
            } else {
                assert(storage.drop_last() =~= Seq::empty());
                reveal_with_fuel(row_after, 2);
            }
        }
    }
    assert forall|database: DatabaseView| database.id != own implies idle(
        row,
        #[trigger] gone_database_steps(after)(database),
    ) by {
        idle_steps(row, gone_database_steps(after)(database));
    }
    gone_databases_phase(row, before, after, own, late);
}

/// Persisting a change of the registry brings the tables from what the one
/// registry says to what the other says.
pub proof fn persisting_reaches_the_new_schema(
    tables: Tables,
    before: Seq<DatabaseView>,
    after: Seq<DatabaseView>,
)
    requires
        consistent(before),
        consistent(after),
        follows(before, after),
        holds_schema(tables, before),
    ensures
        holds_schema(all_applied(tables, diff_steps(before, after)), after),
{
    let steps = diff_steps(before, after);
    let end = all_applied(tables, steps);
    diff_is_schema_steps(before, after);
    rows_go_their_way(tables, steps);
    assert forall|id: DatabaseId| #[trigger]
        at(end.databases, id) == schema_database(after, id) by {
        assert(at(tables.databases, id) == schema_database(before, id));
        databases_persisted(before, after, id);
    }
    assert forall|id: FieldId| #[trigger] at(end.fields, id) == schema_field(after, id) by {
        assert(at(tables.fields, id) == schema_field(before, id));
        fields_persisted(before, after, id);
    }
    assert forall|id: DatabaseId| #[trigger]
        end.record_tables.dom().contains(id) == has_database(after, id) by {
        assert(tables.record_tables.dom().contains(id) == has_database(before, id));
        assert(at(tables.record_tables, id) == if has_database(before, id) {
            Some(())
        } else {
            None
        });
        databases_persisted(before, after, id);
        assert(at(end.record_tables, id) is Some == has_database(after, id));
    }
    assert forall|key: (DatabaseId, FieldId)| #[trigger]
        at(end.columns, key) == schema_column(after, key) by {
        assert(at(tables.columns, key) == schema_column(before, key));
        columns_persisted(before, after, key.0, key.1);
    }
    assert forall|lower: FieldId| #[trigger]
        at(end.reference_tables, lower) == schema_reference(after, lower) by {
        assert(at(tables.reference_tables, lower) == schema_reference(before, lower));
        reference_tables_persisted(before, after, lower);
    }
}

/// Whether a database goes when the registry changes.
pub open spec fn database_goes(
    before: Seq<DatabaseView>,
    after: Seq<DatabaseView>,
    id: DatabaseId,
) -> bool {
    has_database(before, id) && !has_database(after, id)
}

/// Whether a field goes when the registry changes.
pub open spec fn field_goes(
    before: Seq<DatabaseView>,
    after: Seq<DatabaseView>,
    id: FieldId,
) -> bool {
    schema_field(before, id) is Some && schema_field(after, id) is None
}

/// The link rows after the steps for databases that are gone.
proof fn links_phase(
    databases: Seq<DatabaseView>,
    after: Seq<DatabaseView>,
    link: Link,
    start: Option<DatabaseId>,
)
    ensures
        row_after(link_rows(link), gathered(databases, gone_database_steps(after)), start)
            == match start {
            Some(id) => if has_database(databases, id) && !has_database(after, id) {
                None
            } else {
                start
            },
            None => None,
        },
    decreases databases.len(),
{
    let row = link_rows(link);
    let gone = gone_database_steps(after);
    if databases.len() == 0 {
        if let Some(id) = start {
            assert(!has_database(databases, id)) by {
                if has_database(databases, id) {
                    let j = database_index(databases, id);
                    assert(is_database(databases, id, j));
                }
            }
        }
    } else {
        let rest = databases.drop_last();
        let last = databases.last();
        links_phase(rest, after, link, start);
        let middle = row_after(row, gathered(rest, gone), start);
        row_after_both(row, gathered(rest, gone), gone(last), start);
        if !has_database(after, last.id) {
            let steps = gone(last);
            assert(steps.drop_last().drop_last().drop_last() =~= Seq::empty());
            reveal_with_fuel(row_after, 4);
        }
        if let Some(id) = start {
            if has_database(rest, id) {
                let j = database_index(rest, id);
                assert(is_database(rest, id, j));
                assert(is_database(databases, id, j));
            }
            if has_database(databases, id) {
                let j = database_index(databases, id);
                assert(is_database(databases, id, j));
                if j < rest.len() {
                    assert(is_database(rest, id, j));
                }
            }
            if last.id == id {
                assert(is_database(databases, id, databases.len() - 1));
            }
        }
    }
}

/// Whether no step for a field, new or gone, touches a row.
spec fn no_field_touches<V>(
    row: spec_fn(StepView, Option<V>) -> Option<V>,
    before: Seq<DatabaseView>,
    after: Seq<DatabaseView>,
) -> bool {
    &&& forall|database_id: DatabaseId, field: FieldView|
        idle(row, #[trigger] field_steps(before, database_id)(field))
    &&& forall|database_id: DatabaseId, field: FieldView|
        idle(row, #[trigger] gone_field_steps(after, database_id)(field))
}

proof fn untouched_by_fields<V>(
    row: spec_fn(StepView, Option<V>) -> Option<V>,
    before: Seq<DatabaseView>,
    after: Seq<DatabaseView>,
)
    requires
        no_field_touches(row, before, after),
    ensures
        idle(row, gathered(after, fields_steps(before))),
        idle(row, gathered(before, gone_fields_steps(after))),
{
    idle_fields(row, after, before);
    idle_fields(row, before, after);
}

proof fn new_databases_idle<V>(
    row: spec_fn(StepView, Option<V>) -> Option<V>,
    before: Seq<DatabaseView>,
    after: Seq<DatabaseView>,
)
    requires
        forall|database: DatabaseView|
            idle(row, #[trigger] new_database_steps(before)(database)),
    ensures
        idle(row, gathered(after, new_database_steps(before))),
{
    idle_gathered(row, after, new_database_steps(before));
}

/// Persisting a change of the registry leaves every link, record, cell and
/// relationship as it is, but for those of a database or a field that goes. The
/// blobs all stay.
pub proof fn persisting_keeps_the_rest(
    tables: Tables,
    before: Seq<DatabaseView>,
    after: Seq<DatabaseView>,
)
    requires
        consistent(before),
        consistent(after),
        follows(before, after),
    ensures
        ({
            let end = all_applied(tables, diff_steps(before, after));
            &&& forall|link: Link| #[trigger]
                at(end.links, link) == match at(tables.links, link) {
                    Some(id) => if database_goes(before, after, id) {
                        None
                    } else {
                        Some(id)
                    },
                    None => None,
                }
            &&& forall|key: (DatabaseId, Link)| #[trigger]
                at(end.records, key) == if database_goes(before, after, key.0) {
                    None
                } else {
                    at(tables.records, key)
                }
            &&& forall|key: (DatabaseId, Link, FieldId)| #[trigger]
                at(end.cells, key) == if database_goes(before, after, key.0) || (field_goes(
                    before,
                    after,
                    key.2,
                ) && schema_column(before, (key.0, key.2)) is Some) {
                    None
                } else {
                    at(tables.cells, key)
                }
            &&& forall|key: (FieldId, ReferenceId)| #[trigger]
                at(end.references, key) == if field_goes(before, after, key.0) && schema_reference(
                    before,
                    key.0,
                ) is Some {
                    None
                } else {
                    at(tables.references, key)
                }
            &&& end.blobs == tables.blobs
        }),
{
    let steps = diff_steps(before, after);
    let end = all_applied(tables, steps);
    diff_is_schema_steps(before, after);
    rows_go_their_way(tables, steps);
    assert forall|link: Link| #[trigger]
        at(end.links, link) == match at(tables.links, link) {
            Some(id) => if database_goes(before, after, id) {
                None
            } else {
                Some(id)
            },
            None => None,
        } by {
        links_kept(before, after, link, at(tables.links, link));
    }
    assert forall|key: (DatabaseId, Link)| #[trigger]
        at(end.records, key) == if database_goes(before, after, key.0) {
            None
        } else {
            at(tables.records, key)
        } by {
        records_kept(before, after, key, at(tables.records, key));
    }
    assert forall|key: (DatabaseId, Link, FieldId)| #[trigger]
        at(end.cells, key) == if database_goes(before, after, key.0) || (field_goes(
            before,
            after,
            key.2,
        ) && schema_column(before, (key.0, key.2)) is Some) {
            None
        } else {
            at(tables.cells, key)
        } by {
        cells_kept(before, after, key, at(tables.cells, key));
    }
    assert forall|key: (FieldId, ReferenceId)| #[trigger]
        at(end.references, key) == if field_goes(before, after, key.0) && schema_reference(
            before,
            key.0,
        ) is Some {
            None
        } else {
            at(tables.references, key)
        } by {
        references_kept(before, after, key, at(tables.references, key));
    }
    same_rows(end.blobs, tables.blobs);
}

proof fn links_kept(
    before: Seq<DatabaseView>,
    after: Seq<DatabaseView>,
    link: Link,
    start: Option<DatabaseId>,
)
    ensures
        row_after(link_rows(link), diff_steps(before, after), start) == match start {
            Some(id) => if database_goes(before, after, id) {
                None
            } else {
                Some(id)
            },
            None => None,
        },
{
    let row = link_rows(link);
    row_after_diff(row, before, after, start);
    assert forall|database: DatabaseView| idle(
        row,
        #[trigger] new_database_steps(before)(database),
    ) by {
        idle_steps(row, new_database_steps(before)(database));
    }
    new_databases_idle(row, before, after);
    assert forall|database_id: DatabaseId, field: FieldView| idle(
        row,
        #[trigger] field_steps(before, database_id)(field),
    ) by {
        idle_steps(row, field_steps(before, database_id)(field));
    }
    assert forall|database_id: DatabaseId, field: FieldView| idle(
        row,
        #[trigger] gone_field_steps(after, database_id)(field),
    ) by {
        idle_steps(row, gone_field_steps(after, database_id)(field));
    }
    untouched_by_fields(row, before, after);
    assert(row_after(row, gathered(after, new_database_steps(before)), start) == start);
    assert(row_after(row, gathered(after, fields_steps(before)), start) == start);
    assert(row_after(row, gathered(before, gone_fields_steps(after)), start) == start);
    links_phase(before, after, link, start);
}

proof fn records_kept(
    before: Seq<DatabaseView>,
    after: Seq<DatabaseView>,
    key: (DatabaseId, Link),
    start: Option<RecordTimes>,
)
    requires
        ids_distinct(before),
    ensures
        row_after(record_rows(key), diff_steps(before, after), start) == if database_goes(
            before,
            after,
            key.0,
        ) {
            None
        } else {
            start
        },
{
    let row = record_rows(key);
    row_after_diff(row, before, after, start);
    assert forall|database: DatabaseView| idle(
        row,
        #[trigger] new_database_steps(before)(database),
    ) by {
        idle_steps(row, new_database_steps(before)(database));
    }
    new_databases_idle(row, before, after);
    assert forall|database_id: DatabaseId, field: FieldView| idle(
        row,
        #[trigger] field_steps(before, database_id)(field),
    ) by {
        idle_steps(row, field_steps(before, database_id)(field));
    }
    assert forall|database_id: DatabaseId, field: FieldView| idle(
        row,
        #[trigger] gone_field_steps(after, database_id)(field),
    ) by {
        idle_steps(row, gone_field_steps(after, database_id)(field));
    }
    untouched_by_fields(row, before, after);
    assert(row_after(row, gathered(after, new_database_steps(before)), start) == start);
    assert(row_after(row, gathered(after, fields_steps(before)), start) == start);
    assert(row_after(row, gathered(before, gone_fields_steps(after)), start) == start);
    assert forall|database: DatabaseView| database.id != key.0 implies idle(
        row,
        #[trigger] gone_database_steps(after)(database),
    ) by {
        idle_steps(row, gone_database_steps(after)(database));
    }
    gone_databases_phase(row, before, after, key.0, start);
}

proof fn cells_kept(
    before: Seq<DatabaseView>,
    after: Seq<DatabaseView>,
    key: (DatabaseId, Link, FieldId),
    start: Option<SqlView>,
)
    requires
        ids_distinct(before),
        field_ids_distinct(before),
        ids_distinct(after),
        field_ids_distinct(after),
        follows(before, after),
    ensures
        row_after(cell_rows(key), diff_steps(before, after), start) == if database_goes(
            before,
            after,
            key.0,
        ) || (field_goes(before, after, key.2) && schema_column(before, (key.0, key.2)) is Some) {
            None
        } else {
            start
        },
{
    let row = cell_rows(key);
    let id = key.2;
    row_after_diff(row, before, after, start);
    assert forall|database: DatabaseView| idle(
        row,
        #[trigger] new_database_steps(before)(database),
    ) by {
        idle_steps(row, new_database_steps(before)(database));
    }
    new_databases_idle(row, before, after);
    assert forall|database_id: DatabaseId, field: FieldView| idle(
        row,
        #[trigger] field_steps(before, database_id)(field),
    ) by {
        idle_steps(row, field_steps(before, database_id)(field));
    }
    assert forall|database_id: DatabaseId, field: FieldView| field.id != id implies idle(
        row,
        #[trigger] gone_field_steps(after, database_id)(field),
    ) by {
        idle_steps(row, gone_field_steps(after, database_id)(field));
    }
    idle_fields(row, after, before);
    assert(row_after(row, gathered(after, new_database_steps(before)), start) == start);
    assert(row_after(row, gathered(after, fields_steps(before)), start) == start);
    assert(only_for(row, before, after, id));
    field_phases(row, before, after, id, start);
    field_stays(before, after, id);
    let late = row_after(row, gathered(before, gone_fields_steps(after)), start);
    if let Some((d, field)) = schema_field(before, id) {
        let steps = gone_field_steps(after, d)(field);
        if former_field(after, d, id) is None {
            let storage = old_storage_steps(after, d, field);
            let delete = seq![StepView::DeleteField { field: id }];
            idle_steps(row, delete);
            row_after_both(row, delete, storage, start);
            assert(row_after(row, delete, start) == start);
            if field.kind is Reference || d != key.0 || !has_database(after, d) {
                idle_steps(row, storage);
                assert(row_after(row, storage, start) == start);
            } else {
                assert(storage.drop_last() =~= Seq::empty());
                reveal_with_fuel(row_after, 2);
            }
        }
    }
    assert forall|database: DatabaseView| database.id != key.0 implies idle(
        row,
        #[trigger] gone_database_steps(after)(database),
    ) by {
        idle_steps(row, gone_database_steps(after)(database));
    }
    gone_databases_phase(row, before, after, key.0, late);
}

proof fn references_kept(
    before: Seq<DatabaseView>,
    after: Seq<DatabaseView>,
    key: (FieldId, ReferenceId),
    start: Option<(Link, Link)>,
)
    requires
        ids_distinct(before),
        field_ids_distinct(before),
        ids_distinct(after),
        field_ids_distinct(after),
        follows(before, after),
    ensures
        row_after(reference_rows(key), diff_steps(before, after), start) == if field_goes(
            before,
            after,
            key.0,
        ) && schema_reference(before, key.0) is Some {
            None
        } else {
            start
        },
{
    let row = reference_rows(key);
    let id = key.0;
    row_after_diff(row, before, after, start);
    assert forall|database: DatabaseView| idle(
        row,
        #[trigger] new_database_steps(before)(database),
    ) by {
        idle_steps(row, new_database_steps(before)(database));
    }
    new_databases_idle(row, before, after);
    assert forall|database_id: DatabaseId, field: FieldView| idle(
        row,
        #[trigger] field_steps(before, database_id)(field),
    ) by {
        idle_steps(row, field_steps(before, database_id)(field));
    }
    assert forall|database_id: DatabaseId, field: FieldView| field.id != id implies idle(
        row,
        #[trigger] gone_field_steps(after, database_id)(field),
    ) by {
        idle_steps(row, gone_field_steps(after, database_id)(field));
    }
    idle_fields(row, after, before);
    assert(row_after(row, gathered(after, new_database_steps(before)), start) == start);
    assert(row_after(row, gathered(after, fields_steps(before)), start) == start);
    assert(only_for(row, before, after, id));
    field_phases(row, before, after, id, start);
    field_stays(before, after, id);
    let late = row_after(row, gathered(before, gone_fields_steps(after)), start);
    if let Some((d, field)) = schema_field(before, id) {
        let steps = gone_field_steps(after, d)(field);
        if former_field(after, d, id) is None {
            let storage = old_storage_steps(after, d, field);
            let delete = seq![StepView::DeleteField { field: id }];
            idle_steps(row, delete);
            row_after_both(row, delete, storage, start);
            assert(row_after(row, delete, start) == start);
            if schema_reference(before, id) is None {
                idle_steps(row, storage);
                assert(row_after(row, storage, start) == start);
            } else {
                assert(storage.drop_last() =~= Seq::empty());
                reveal_with_fuel(row_after, 2);
            }
        }
    }
    let gone = gone_database_steps(after);
    assert forall|j: int| 0 <= j < before.len() implies idle(row, gone(#[trigger] before[j])) by {
        idle_steps(row, gone(before[j]));
    }
    idle_gathered(row, before, gone);
    assert(row_after(row, gathered(before, gone), late) == late);
}

/// A registry from which nothing was taken can be persisted as the successor.
proof fn growing_follows(before: Seq<DatabaseView>, after: Seq<DatabaseView>)
    requires
        ids_distinct(after),
        field_ids_distinct(after),
        grows(before, after),
    ensures
        follows(before, after),
{
    assert forall|i: int, j: int|
        0 <= i < before.len() && 0 <= j < after.len() && (#[trigger] before[i]).id == (
        #[trigger] after[j]).id implies before[i].name == after[j].name by {
        assert(after[i].id == before[i].id);
    }
    assert forall|i: int, k: int, j: int, m: int|
        is_field(before, i, k) && is_field(after, j, m) && (#[trigger] field_at(before, i, k)).id
            == (#[trigger] field_at(after, j, m)).id implies before[i].id == after[j].id
        && field_at(before, i, k).kind == field_at(after, j, m).kind by {
        let own = before[i].fields;
        assert(after[i].id == before[i].id);
        assert(own =~= after[i].fields.subrange(0, own.len() as int));
        assert(own[k] == after[i].fields.subrange(0, own.len() as int)[k]);
        assert(field_at(after, i, k) == field_at(before, i, k));
    }
}

/// Adding a database can be persisted.
pub proof fn create_database_persists(databases: Seq<DatabaseView>, id: DatabaseId, name: Seq<char>)
    requires
        consistent(databases),
        !has_database(databases, id),
    ensures
        follows(databases, with_database(databases, empty_database(id, name))),
{
    create_database_keeps_consistent(databases, id, name);
    create_database_grows(databases, id, name);
    growing_follows(databases, with_database(databases, empty_database(id, name)));
}

/// Adding a field can be persisted.
pub proof fn add_field_persists(
    databases: Seq<DatabaseView>,
    database_id: DatabaseId,
    name: Seq<char>,
    kind: FieldKindView,
    field_id: FieldId,
    back_id: FieldId,
)
    requires
        consistent(databases),
        add_field_error(databases, database_id, kind) is None,
        is_fresh_field(databases, field_id),
        is_fresh_field(databases, back_id),
        field_id != back_id,
    ensures
        follows(databases, field_added(databases, database_id, name, kind, field_id, back_id)),
{
    add_field_keeps_consistent(databases, database_id, name, kind, field_id, back_id);
    add_field_grows(databases, database_id, name, kind, field_id, back_id);
    growing_follows(
        databases,
        field_added(databases, database_id, name, kind, field_id, back_id),
    );
}

/// Duplicating a schema can be persisted.
pub proof fn duplicate_database_schema_persists(
    databases: Seq<DatabaseView>,
    source: DatabaseId,
    name: Seq<char>,
    copy: DatabaseId,
    ids: Seq<(FieldId, FieldId)>,
)
    requires
        consistent(databases),
        has_database(databases, source),
        !has_database(databases, copy),
        ids.len() == database_of(databases, source).fields.len(),
        are_fresh_ids(databases, ids),
    ensures
        schema_duplicated(databases, source, name, copy, ids) matches Ok(after) && follows(
            databases,
            after,
        ),
{
    duplicate_database_schema_copies(databases, source, name, copy, ids);
    growing_follows(databases, schema_duplicated(databases, source, name, copy, ids)->Ok_0);
}

/// Renaming a field can be persisted.
pub proof fn rename_field_persists(
    databases: Seq<DatabaseView>,
    database_id: DatabaseId,
    field_id: FieldId,
    name: Seq<char>,
)
    requires
        consistent(databases),
        field_error(databases, database_id, field_id) is None,
    ensures
        follows(
            databases,
            field_replaced(
                databases,
                database_id,
                FieldView { name, ..field_in(databases, database_id, field_id) },
            ),
        ),
{
    let s = database_index(databases, database_id);
    assert(is_database(databases, database_id, s));
    let fields = databases[s].fields;
    field_position_found(fields, field_id);
    let p = field_position(fields, field_id)->0;
    let field = FieldView { name, ..field_in(databases, database_id, field_id) };
    with_fields_keeps(databases, database_id, fields.update(p, field));
    let after = field_replaced(databases, database_id, field);
    assert forall|i: int, k: int, j: int, m: int|
        is_field(databases, i, k) && is_field(after, j, m) && (#[trigger] field_at(
            databases,
            i,
            k,
        )).id == (#[trigger] field_at(after, j, m)).id implies databases[i].id == after[j].id
        && field_at(databases, i, k).kind == field_at(after, j, m).kind by {
        assert(is_field(databases, j, m));
        assert(field_at(databases, j, m).id == field_at(after, j, m).id);
        assert(field_at(databases, i, k).id == field_at(databases, j, m).id);
    }
}

/// Removing a field can be persisted.
pub proof fn remove_field_persists(
    databases: Seq<DatabaseView>,
    database_id: DatabaseId,
    field_id: FieldId,
)
    requires
        consistent(databases),
        field_error(databases, database_id, field_id) is None,
    ensures
        follows(databases, field_removed(databases, database_id, field_id)),
{
    let after = field_removed(databases, database_id, field_id);
    let keep = |field: FieldView| !goes_with(databases, database_id, field_id, field.id);
    field_removed_shape(databases, database_id, field_id);
    assert forall|i: int, k: int, j: int, m: int|
        is_field(databases, i, k) && is_field(after, j, m) && (#[trigger] field_at(
            databases,
            i,
            k,
        )).id == (#[trigger] field_at(after, j, m)).id implies databases[i].id == after[j].id
        && field_at(databases, i, k).kind == field_at(after, j, m).kind by {
        kept_from_is(databases[j].fields, keep);
        let n = kept_from(databases[j].fields, keep, m);
        assert(is_field(databases, j, n));
        assert(field_at(databases, j, n) == field_at(after, j, m));
        assert(field_at(databases, i, k).id == field_at(databases, j, n).id);
    }
}

/// Removing a database can be persisted.
pub proof fn remove_database_persists(databases: Seq<DatabaseView>, id: DatabaseId)
    requires
        consistent(databases),
        has_database(databases, id),
    ensures
        follows(databases, database_removed(databases, id)),
{
    let after = database_removed(databases, id);
    let gone = database_index(databases, id);
    let keep = |field: FieldView| field.kind.target() != Some(id);
    database_removed_shape(databases, id);
    assert forall|i: int, j: int|
        0 <= i < databases.len() && 0 <= j < after.len() && (#[trigger] databases[i]).id == (
        #[trigger] after[j]).id implies databases[i].name == after[j].name by {
        let j0 = if j < gone {
            j
        } else {
            j + 1
        };
        assert(databases[j0].id == after[j].id);
    }
    assert forall|i: int, k: int, j: int, m: int|
        is_field(databases, i, k) && is_field(after, j, m) && (#[trigger] field_at(
            databases,
            i,
            k,
        )).id == (#[trigger] field_at(after, j, m)).id implies databases[i].id == after[j].id
        && field_at(databases, i, k).kind == field_at(after, j, m).kind by {
        let j0 = if j < gone {
            j
        } else {
            j + 1
        };
        kept_from_is(databases[j0].fields, keep);
        assert(after[j].fields == databases[j0].fields.filter(keep));
        let n = kept_from(databases[j0].fields, keep, m);
        assert(is_field(databases, j0, n));
        assert(field_at(databases, j0, n) == field_at(after, j, m));
        assert(field_at(databases, i, k).id == field_at(databases, j0, n).id);
    }
}

/// While a change of the registry is persisted, no row ever refers to a
/// database that is not there: every database of the new registry has its row
/// before any field is added, and before any database goes, every field that is
/// left belongs to a database of the new registry.
pub proof fn rows_refer_to_databases(
    tables: Tables,
    before: Seq<DatabaseView>,
    after: Seq<DatabaseView>,
)
    requires
        consistent(before),
        consistent(after),
        follows(before, after),
        holds_schema(tables, before),
    ensures
        ({
            let new = gathered(after, new_database_steps(before));
            let fields = gathered(after, fields_steps(before));
            let gone = gathered(before, gone_fields_steps(after));
            let started = all_applied(tables, new);
            let ready = all_applied(tables, new + fields + gone);
            &&& forall|id: DatabaseId| #[trigger]
                has_database(after, id) ==> started.databases.dom().contains(id)
            &&& forall|id: FieldId| #[trigger]
                ready.fields.dom().contains(id) ==> has_database(after, ready.fields[id].0)
        }),
{
    let new = gathered(after, new_database_steps(before));
    let fields = gathered(after, fields_steps(before));
    let gone = gathered(before, gone_fields_steps(after));
    let last = gathered(before, gone_database_steps(after));
    diff_is_schema_steps(before, after);
    let all = diff_steps(before, after);
    assert(all == new + fields + gone + last);
    assert forall|i: int| 0 <= i < new.len() implies is_schema_step(#[trigger] new[i]) by {
        assert(new[i] == all[i]);
    }
    let most = new + fields + gone;
    assert forall|i: int| 0 <= i < most.len() implies is_schema_step(#[trigger] most[i]) by {
        assert(most[i] == all[i]);
    }
    rows_go_their_way(tables, new);
    rows_go_their_way(tables, most);
    let started = all_applied(tables, new);
    let ready = all_applied(tables, most);
    assert forall|id: DatabaseId| #[trigger]
        has_database(after, id) implies started.databases.dom().contains(id) by {
        let row = database_rows(id);
        let start = at(tables.databases, id);
        assert(start == schema_database(before, id));
        let give = new_database_steps(before);
        let j = database_index(after, id);
        assert(is_database(after, id, j));
        assert forall|n: int| 0 <= n < after.len() && n != j implies idle(
            row,
            give(#[trigger] after[n]),
        ) by {
            assert(after[n].id != id);
            idle_steps(row, give(after[n]));
        }
        one_of_gathered(row, after, give, j, start);
        if !has_database(before, id) {
            let steps = give(after[j]);
            assert(steps.drop_last().drop_last() =~= Seq::empty());
            reveal_with_fuel(row_after, 3);
        }
        assert(at(started.databases, id) is Some);
    }
    assert forall|id: FieldId| #[trigger]
        ready.fields.dom().contains(id) implies has_database(after, ready.fields[id].0) by {
        let row = field_rows(id);
        let start = at(tables.fields, id);
        assert(start == schema_field(before, id));
        fields_persisted(before, after, id);
        databases_leave_fields(before, after, id);
        row_after_both(row, most, last, start);
        assert(row_after(row, last, row_after(row, most, start)) == row_after(row, most, start));
        assert(at(ready.fields, id) == schema_field(after, id));
        let (i, k) = choose|i: int, k: int| stands_at(after, id, i, k);
        standing_field(after, i, k);
    }
}

} // verus!
