//! Which steps a change of the registry takes: every one that it needs, no
//! other, and in which order.

use vstd::prelude::*;

use crate::diff::{
    diff_steps, field_steps, fields_steps, former_field, gathered, gone_database_steps,
    gone_field_steps, gone_fields_steps, new_database_steps, new_storage_steps, old_storage_steps,
};
use crate::ids::{DatabaseId, FieldId};
use crate::naming::ReferenceSide;
use crate::registry::{database_index, database_index_is, has_database, ids_distinct, is_database};
use crate::schema::{
    field_position, field_position_found, field_position_is, DatabaseView, FieldKindView,
};
use crate::steps::StepView;

verus! {

/// What is gathered is what some item gives.
proof fn gathered_is_given<A, B>(items: Seq<A>, give: spec_fn(A) -> Seq<B>, x: B)
    ensures
        gathered(items, give).contains(x) <==> exists|i: int|
            0 <= i < items.len() && give(#[trigger] items[i]).contains(x),
    decreases items.len(),
{
    let whole = gathered(items, give);
    if items.len() > 0 {
        let rest = items.drop_last();
        let last = items.len() - 1;
        let before = gathered(rest, give);
        gathered_is_given(rest, give, x);
        if whole.contains(x) {
            let n = whole.index_of(x);
            if n < before.len() {
                assert(before[n] == x);
                let i = choose|i: int| 0 <= i < rest.len() && give(#[trigger] rest[i]).contains(x);
                assert(items[i] == rest[i]);
            } else {
                assert(give(items[last])[n - before.len()] == x);
            }
        }
        if exists|i: int| 0 <= i < items.len() && give(#[trigger] items[i]).contains(x) {
            let i = choose|i: int| 0 <= i < items.len() && give(#[trigger] items[i]).contains(x);
            if i < last {
                assert(rest[i] == items[i]);
                assert(before.contains(x));
                assert(whole[before.index_of(x)] == x);
            } else {
                let n = give(items[last]).index_of(x);
                assert(whole[before.len() + n] == x);
            }
        }
    }
}

/// A step of a difference is one of its four parts.
proof fn difference_has_four_parts(
    before: Seq<DatabaseView>,
    after: Seq<DatabaseView>,
    step: StepView,
)
    ensures
        diff_steps(before, after).contains(step) <==> {
            ||| gathered(after, new_database_steps(before)).contains(step)
            ||| gathered(after, fields_steps(before)).contains(step)
            ||| gathered(before, gone_fields_steps(after)).contains(step)
            ||| gathered(before, gone_database_steps(after)).contains(step)
        },
{
    let a = gathered(after, new_database_steps(before));
    let b = gathered(after, fields_steps(before));
    let c = gathered(before, gone_fields_steps(after));
    let d = gathered(before, gone_database_steps(after));
    let whole = diff_steps(before, after);
    if a.contains(step) {
        assert(whole[a.index_of(step)] == step);
    }
    if b.contains(step) {
        assert(whole[a.len() + b.index_of(step)] == step);
    }
    if c.contains(step) {
        assert(whole[a.len() + b.len() + c.index_of(step)] == step);
    }
    if d.contains(step) {
        assert(whole[a.len() + b.len() + c.len() + d.index_of(step)] == step);
    }
    if whole.contains(step) {
        let n = whole.index_of(step);
        if n < a.len() {
            assert(a[n] == step);
        } else if n < a.len() + b.len() {
            assert(b[n - a.len()] == step);
        } else if n < a.len() + b.len() + c.len() {
            assert(c[n - a.len() - b.len()] == step);
        } else {
            assert(d[n - a.len() - b.len() - c.len()] == step);
        }
    }
}

/// Whether some database of the list has this id.
pub open spec fn has_id(databases: Seq<DatabaseView>, id: DatabaseId) -> bool {
    exists|i: int| 0 <= i < databases.len() && (#[trigger] databases[i]).id == id
}

/// Whether the database of this id has a field of that id.
pub open spec fn has_field_in(
    databases: Seq<DatabaseView>,
    database_id: DatabaseId,
    field_id: FieldId,
) -> bool {
    exists|i: int, k: int| #[trigger] is_at(databases, database_id, field_id, i, k)
}

/// Whether a field of this id stands there.
pub open spec fn is_at(
    databases: Seq<DatabaseView>,
    database_id: DatabaseId,
    field_id: FieldId,
    i: int,
    k: int,
) -> bool {
    &&& 0 <= i < databases.len()
    &&& databases[i].id == database_id
    &&& 0 <= k < databases[i].fields.len()
    &&& databases[i].fields[k].id == field_id
}

proof fn has_id_is(databases: Seq<DatabaseView>, id: DatabaseId)
    ensures
        has_id(databases, id) == has_database(databases, id),
{
    if has_id(databases, id) {
        let i = choose|i: int| 0 <= i < databases.len() && (#[trigger] databases[i]).id == id;
        assert(is_database(databases, id, i));
    }
    if has_database(databases, id) {
        let i = database_index(databases, id);
        assert(is_database(databases, id, i));
        assert(databases[i].id == id);
    }
}

proof fn former_field_is(
    databases: Seq<DatabaseView>,
    database_id: DatabaseId,
    field_id: FieldId,
)
    requires
        ids_distinct(databases),
    ensures
        former_field(databases, database_id, field_id) is Some == has_field_in(
            databases,
            database_id,
            field_id,
        ),
{
    if has_database(databases, database_id) {
        let i = database_index(databases, database_id);
        assert(is_database(databases, database_id, i));
        let fields = databases[i].fields;
        field_position_found(fields, field_id);
        if former_field(databases, database_id, field_id) is Some {
            let k = field_position(fields, field_id)->0;
            assert(is_at(databases, database_id, field_id, i, k));
        }
        if has_field_in(databases, database_id, field_id) {
            let (j, k) = choose|j: int, k: int| #[trigger]
                is_at(databases, database_id, field_id, j, k);
            assert(is_database(databases, database_id, j));
            database_index_is(databases, database_id, j);
            assert(fields[k].id == field_id);
        }
    } else if has_field_in(databases, database_id, field_id) {
        let (j, k) = choose|j: int, k: int| #[trigger]
            is_at(databases, database_id, field_id, j, k);
        assert(is_database(databases, database_id, j));
    }
}

/// A database that is new is written with its name and is given its table.
pub proof fn new_databases_are_written(
    before: Seq<DatabaseView>,
    after: Seq<DatabaseView>,
    i: int,
)
    requires
        0 <= i < after.len(),
        !has_id(before, after[i].id),
    ensures
        diff_steps(before, after).contains(
            StepView::InsertDatabase { id: after[i].id, name: after[i].name },
        ),
        diff_steps(before, after).contains(StepView::CreateRecordTable { id: after[i].id }),
{
    has_id_is(before, after[i].id);
    let given = new_database_steps(before)(after[i]);
    assert(given[0] == (StepView::InsertDatabase { id: after[i].id, name: after[i].name }));
    assert(given[1] == (StepView::CreateRecordTable { id: after[i].id }));
    gathered_is_given(after, new_database_steps(before), given[0]);
    gathered_is_given(after, new_database_steps(before), given[1]);
    difference_has_four_parts(before, after, given[0]);
    difference_has_four_parts(before, after, given[1]);
}

/// A database that is gone loses its links, its row and its table.
pub proof fn gone_databases_are_deleted(
    before: Seq<DatabaseView>,
    after: Seq<DatabaseView>,
    i: int,
)
    requires
        0 <= i < before.len(),
        !has_id(after, before[i].id),
    ensures
        diff_steps(before, after).contains(StepView::DeleteLinksOf { database_id: before[i].id }),
        diff_steps(before, after).contains(StepView::DeleteDatabase { id: before[i].id }),
        diff_steps(before, after).contains(StepView::DropRecordTable { id: before[i].id }),
{
    has_id_is(after, before[i].id);
    let given = gone_database_steps(after)(before[i]);
    assert(given[0] == (StepView::DeleteLinksOf { database_id: before[i].id }));
    assert(given[1] == (StepView::DeleteDatabase { id: before[i].id }));
    assert(given[2] == (StepView::DropRecordTable { id: before[i].id }));
    gathered_is_given(before, gone_database_steps(after), given[0]);
    gathered_is_given(before, gone_database_steps(after), given[1]);
    gathered_is_given(before, gone_database_steps(after), given[2]);
    difference_has_four_parts(before, after, given[0]);
    difference_has_four_parts(before, after, given[1]);
    difference_has_four_parts(before, after, given[2]);
}

/// A step that a field gives is a step of the difference.
proof fn field_gives(
    before: Seq<DatabaseView>,
    after: Seq<DatabaseView>,
    i: int,
    k: int,
    step: StepView,
)
    requires
        0 <= i < after.len(),
        0 <= k < after[i].fields.len(),
        field_steps(before, after[i].id)(after[i].fields[k]).contains(step),
    ensures
        diff_steps(before, after).contains(step),
{
    gathered_is_given(after[i].fields, field_steps(before, after[i].id), step);
    assert(fields_steps(before)(after[i]).contains(step));
    gathered_is_given(after, fields_steps(before), step);
    difference_has_four_parts(before, after, step);
}

/// A step that a gone field gives is a step of the difference.
proof fn gone_field_gives(
    before: Seq<DatabaseView>,
    after: Seq<DatabaseView>,
    i: int,
    k: int,
    step: StepView,
)
    requires
        0 <= i < before.len(),
        0 <= k < before[i].fields.len(),
        gone_field_steps(after, before[i].id)(before[i].fields[k]).contains(step),
    ensures
        diff_steps(before, after).contains(step),
{
    gathered_is_given(before[i].fields, gone_field_steps(after, before[i].id), step);
    assert(gone_fields_steps(after)(before[i]).contains(step));
    gathered_is_given(before, gone_fields_steps(after), step);
    difference_has_four_parts(before, after, step);
}

/// The `n`th of some steps is behind the first.
proof fn behind_one(first: StepView, rest: Seq<StepView>, n: int)
    requires
        0 <= n < rest.len(),
    ensures
        (seq![first] + rest).contains(rest[n]),
        (seq![first] + rest).contains(first),
{
    assert((seq![first] + rest)[0] == first);
    assert((seq![first] + rest)[n + 1] == rest[n]);
}

/// A field that is new is written as it is. It is given a column of its kind's
/// type, or, where it is the lower of two paired references, the table of the
/// pair with an index on either column.
pub proof fn new_fields_are_written(
    before: Seq<DatabaseView>,
    after: Seq<DatabaseView>,
    i: int,
    k: int,
)
    requires
        ids_distinct(before),
        0 <= i < after.len(),
        0 <= k < after[i].fields.len(),
        !has_field_in(before, after[i].id, after[i].fields[k].id),
    ensures
        ({
            let field = after[i].fields[k];
            let database_id = after[i].id;
            let steps = diff_steps(before, after);
            &&& steps.contains(StepView::InsertField { database_id, field })
            &&& match field.kind {
                FieldKindView::Reference { paired_field: Some(pair), .. } => field.id.0 <= pair.0
                    ==> {
                    &&& steps.contains(StepView::CreateReferenceTable { field: field.id, pair })
                    &&& steps.contains(
                        StepView::CreateReferenceIndex {
                            field: field.id,
                            pair,
                            side: ReferenceSide::A,
                        },
                    )
                    &&& steps.contains(
                        StepView::CreateReferenceIndex {
                            field: field.id,
                            pair,
                            side: ReferenceSide::B,
                        },
                    )
                },
                FieldKindView::Reference { .. } => true,
                FieldKindView::Number => steps.contains(
                    StepView::AddColumn { database_id, field: field.id, sql_type: "REAL"@ },
                ),
                FieldKindView::Boolean => steps.contains(
                    StepView::AddColumn { database_id, field: field.id, sql_type: "INTEGER"@ },
                ),
                FieldKindView::Custom { .. } => steps.contains(
                    StepView::AddColumn { database_id, field: field.id, sql_type: "BLOB"@ },
                ),
                _ => steps.contains(
                    StepView::AddColumn { database_id, field: field.id, sql_type: "TEXT"@ },
                ),
            }
        }),
{
    let field = after[i].fields[k];
    let database_id = after[i].id;
    former_field_is(before, database_id, field.id);
    let insert = StepView::InsertField { database_id, field };
    let storage = new_storage_steps(database_id, field);
    let given = field_steps(before, database_id)(field);
    assert(given == seq![insert] + storage);
    assert(given[0] == insert);
    field_gives(before, after, i, k, insert);
    if storage.len() > 0 {
        behind_one(insert, storage, 0);
        field_gives(before, after, i, k, storage[0]);
    }
    if storage.len() > 2 {
        behind_one(insert, storage, 1);
        behind_one(insert, storage, 2);
        field_gives(before, after, i, k, storage[1]);
        field_gives(before, after, i, k, storage[2]);
    }
}

/// A field that was there under the same id and is no longer the same has its
/// name and its ordering written anew.
pub proof fn changed_fields_are_updated(
    before: Seq<DatabaseView>,
    after: Seq<DatabaseView>,
    i: int,
    k: int,
    j: int,
    m: int,
)
    requires
        ids_distinct(before),
        0 <= i < after.len(),
        0 <= k < after[i].fields.len(),
        0 <= j < before.len(),
        before[j].id == after[i].id,
        0 <= m < before[j].fields.len(),
        before[j].fields[m].id == after[i].fields[k].id,
        forall|n: int| 0 <= n < m ==> (#[trigger] before[j].fields[n]).id != before[j].fields[m].id,
        before[j].fields[m] != after[i].fields[k],
    ensures
        diff_steps(before, after).contains(
            StepView::UpdateField {
                field: after[i].fields[k].id,
                name: after[i].fields[k].name,
                ordering: after[i].fields[k].ordering,
            },
        ),
{
    let field = after[i].fields[k];
    assert(is_database(before, after[i].id, j));
    database_index_is(before, after[i].id, j);
    field_position_is(before[j].fields, field.id, m);
    let update = StepView::UpdateField {
        field: field.id,
        name: field.name,
        ordering: field.ordering,
    };
    assert(field_steps(before, after[i].id)(field)[0] == update);
    field_gives(before, after, i, k, update);
}

/// A field that is gone loses its row. Its column goes too, unless the whole
/// table of its database goes; or, where it is the lower of two paired
/// references, the table of the pair.
pub proof fn gone_fields_are_deleted(
    before: Seq<DatabaseView>,
    after: Seq<DatabaseView>,
    i: int,
    k: int,
)
    requires
        ids_distinct(after),
        0 <= i < before.len(),
        0 <= k < before[i].fields.len(),
        !has_field_in(after, before[i].id, before[i].fields[k].id),
    ensures
        ({
            let field = before[i].fields[k];
            let database_id = before[i].id;
            let steps = diff_steps(before, after);
            &&& steps.contains(StepView::DeleteField { field: field.id })
            &&& match field.kind {
                FieldKindView::Reference { paired_field: Some(pair), .. } => field.id.0 <= pair.0
                    ==> steps.contains(StepView::DropReferenceTable { field: field.id, pair }),
                FieldKindView::Reference { .. } => true,
                _ => has_id(after, database_id) ==> steps.contains(
                    StepView::DropColumn { database_id, field: field.id },
                ),
            }
        }),
{
    let field = before[i].fields[k];
    let database_id = before[i].id;
    former_field_is(after, database_id, field.id);
    has_id_is(after, database_id);
    let delete = StepView::DeleteField { field: field.id };
    let storage = old_storage_steps(after, database_id, field);
    let given = gone_field_steps(after, database_id)(field);
    assert(given == seq![delete] + storage);
    assert(given[0] == delete);
    gone_field_gives(before, after, i, k, delete);
    if storage.len() > 0 {
        behind_one(delete, storage, 0);
        gone_field_gives(before, after, i, k, storage[0]);
    }
}

/// Whether some database has gained a field of this id.
pub open spec fn is_gained(
    before: Seq<DatabaseView>,
    after: Seq<DatabaseView>,
    field: FieldId,
) -> bool {
    exists|id: DatabaseId|
        !has_field_in(before, id, field) && #[trigger] has_field_in(after, id, field)
}

/// Whether a step is needed: a database or a field is written only where it was
/// not there before and is now, updated only where it was there and still is,
/// and deleted only where it was there and is no more.
pub open spec fn is_needed(
    before: Seq<DatabaseView>,
    after: Seq<DatabaseView>,
    step: StepView,
) -> bool {
    match step {
        StepView::InsertDatabase { id, .. } => has_id(after, id) && !has_id(before, id),
        StepView::CreateRecordTable { id } => has_id(after, id) && !has_id(before, id),
        StepView::DeleteLinksOf { database_id } => has_id(before, database_id) && !has_id(
            after,
            database_id,
        ),
        StepView::DeleteDatabase { id } => has_id(before, id) && !has_id(after, id),
        StepView::DropRecordTable { id } => has_id(before, id) && !has_id(after, id),
        StepView::InsertField { database_id, field } => has_field_in(after, database_id, field.id)
            && !has_field_in(before, database_id, field.id),
        StepView::AddColumn { database_id, field, .. } => has_field_in(after, database_id, field)
            && !has_field_in(before, database_id, field),
        StepView::DropColumn { database_id, field } => has_id(after, database_id) && has_field_in(
            before,
            database_id,
            field,
        ) && !has_field_in(after, database_id, field),
        StepView::UpdateField { field, .. } => exists|id: DatabaseId|
            has_field_in(before, id, field) && #[trigger] has_field_in(after, id, field),
        StepView::CreateReferenceTable { field, pair } => field.0 <= pair.0 && is_gained(
            before,
            after,
            field,
        ),
        StepView::CreateReferenceIndex { field, pair, .. } => field.0 <= pair.0 && is_gained(
            before,
            after,
            field,
        ),
        StepView::DeleteField { field } => is_gained(after, before, field),
        StepView::DropReferenceTable { field, pair } => field.0 <= pair.0 && is_gained(
            after,
            before,
            field,
        ),
        _ => false,
    }
}

proof fn new_databases_are_needed(
    before: Seq<DatabaseView>,
    after: Seq<DatabaseView>,
    step: StepView,
)
    requires
        gathered(after, new_database_steps(before)).contains(step),
    ensures
        is_needed(before, after, step),
{
    gathered_is_given(after, new_database_steps(before), step);
    let i = choose|i: int|
        0 <= i < after.len() && new_database_steps(before)(#[trigger] after[i]).contains(step);
    has_id_is(before, after[i].id);
    let given = new_database_steps(before)(after[i]);
    let n = given.index_of(step);
    assert(given[n] == step);
    assert(n == 0 || n == 1);
    assert(has_id(after, after[i].id));
}

proof fn gone_databases_are_needed(
    before: Seq<DatabaseView>,
    after: Seq<DatabaseView>,
    step: StepView,
)
    requires
        gathered(before, gone_database_steps(after)).contains(step),
    ensures
        is_needed(before, after, step),
{
    gathered_is_given(before, gone_database_steps(after), step);
    let i = choose|i: int|
        0 <= i < before.len() && gone_database_steps(after)(#[trigger] before[i]).contains(step);
    has_id_is(after, before[i].id);
    let given = gone_database_steps(after)(before[i]);
    let n = given.index_of(step);
    assert(given[n] == step);
    assert(n == 0 || n == 1 || n == 2);
    assert(has_id(before, before[i].id));
}

proof fn new_fields_are_needed(before: Seq<DatabaseView>, after: Seq<DatabaseView>, step: StepView)
    requires
        ids_distinct(before),
        gathered(after, fields_steps(before)).contains(step),
    ensures
        is_needed(before, after, step),
{
    gathered_is_given(after, fields_steps(before), step);
    let i = choose|i: int|
        0 <= i < after.len() && fields_steps(before)(#[trigger] after[i]).contains(step);
    let give = field_steps(before, after[i].id);
    gathered_is_given(after[i].fields, give, step);
    let k = choose|k: int|
        0 <= k < after[i].fields.len() && give(#[trigger] after[i].fields[k]).contains(step);
    let field = after[i].fields[k];
    former_field_is(before, after[i].id, field.id);
    assert(is_at(after, after[i].id, field.id, i, k));
    assert(has_field_in(after, after[i].id, field.id));
    let given = give(field);
    let n = given.index_of(step);
    assert(given[n] == step);
    if former_field(before, after[i].id, field.id) is None {
        let storage = new_storage_steps(after[i].id, field);
        if n > 0 {
            assert(given[n] == storage[n - 1]);
            assert(n - 1 == 0 || n - 1 == 1 || n - 1 == 2);
            assert(is_gained(before, after, field.id));
        }
    } else {
        assert(n == 0);
        assert(has_field_in(before, after[i].id, field.id));
        assert(step->UpdateField_field == field.id);
    }
}

proof fn gone_fields_are_needed(
    before: Seq<DatabaseView>,
    after: Seq<DatabaseView>,
    step: StepView,
)
    requires
        ids_distinct(after),
        gathered(before, gone_fields_steps(after)).contains(step),
    ensures
        is_needed(before, after, step),
{
    gathered_is_given(before, gone_fields_steps(after), step);
    let i = choose|i: int|
        0 <= i < before.len() && gone_fields_steps(after)(#[trigger] before[i]).contains(step);
    let give = gone_field_steps(after, before[i].id);
    gathered_is_given(before[i].fields, give, step);
    let k = choose|k: int|
        0 <= k < before[i].fields.len() && give(#[trigger] before[i].fields[k]).contains(step);
    let field = before[i].fields[k];
    former_field_is(after, before[i].id, field.id);
    has_id_is(after, before[i].id);
    assert(is_at(before, before[i].id, field.id, i, k));
    assert(has_field_in(before, before[i].id, field.id));
    let given = give(field);
    let n = given.index_of(step);
    assert(given[n] == step);
    let storage = old_storage_steps(after, before[i].id, field);
    if n > 0 {
        assert(given[n] == storage[n - 1]);
    }
}

/// No step is taken without need.
pub proof fn no_step_without_need(
    before: Seq<DatabaseView>,
    after: Seq<DatabaseView>,
    step: StepView,
)
    requires
        ids_distinct(before),
        ids_distinct(after),
        diff_steps(before, after).contains(step),
    ensures
        is_needed(before, after, step),
{
    difference_has_four_parts(before, after, step);
    if gathered(after, new_database_steps(before)).contains(step) {
        new_databases_are_needed(before, after, step);
    } else if gathered(after, fields_steps(before)).contains(step) {
        new_fields_are_needed(before, after, step);
    } else if gathered(before, gone_fields_steps(after)).contains(step) {
        gone_fields_are_needed(before, after, step);
    } else {
        gone_databases_are_needed(before, after, step);
    }
}

/// Where in a change a step stands: databases come first, then fields come and
/// change, then fields go, and databases go last.
pub open spec fn turn_of(step: StepView) -> int {
    match step {
        StepView::InsertDatabase { .. } => 0,
        StepView::CreateRecordTable { .. } => 0,
        StepView::InsertField { .. } => 1,
        StepView::CreateReferenceTable { .. } => 1,
        StepView::CreateReferenceIndex { .. } => 1,
        StepView::AddColumn { .. } => 1,
        StepView::UpdateField { .. } => 1,
        StepView::DeleteField { .. } => 2,
        StepView::DropReferenceTable { .. } => 2,
        StepView::DropColumn { .. } => 2,
        _ => 3,
    }
}

proof fn turn_is(before: Seq<DatabaseView>, after: Seq<DatabaseView>, step: StepView)
    ensures
        gathered(after, new_database_steps(before)).contains(step) ==> turn_of(step) == 0,
        gathered(after, fields_steps(before)).contains(step) ==> turn_of(step) == 1,
        gathered(before, gone_fields_steps(after)).contains(step) ==> turn_of(step) == 2,
        gathered(before, gone_database_steps(after)).contains(step) ==> turn_of(step) == 3,
{
    gathered_is_given(after, new_database_steps(before), step);
    gathered_is_given(after, fields_steps(before), step);
    gathered_is_given(before, gone_fields_steps(after), step);
    gathered_is_given(before, gone_database_steps(after), step);
    if gathered(after, fields_steps(before)).contains(step) {
        let i = choose|i: int|
            0 <= i < after.len() && fields_steps(before)(#[trigger] after[i]).contains(step);
        gathered_is_given(after[i].fields, field_steps(before, after[i].id), step);
    }
    if gathered(before, gone_fields_steps(after)).contains(step) {
        let i = choose|i: int|
            0 <= i < before.len() && gone_fields_steps(after)(#[trigger] before[i]).contains(step);
        gathered_is_given(before[i].fields, gone_field_steps(after, before[i].id), step);
    }
}

/// The steps of a change stand in that order, so that a field always has its
/// database, and a database is gone only after its fields.
pub proof fn steps_stand_in_order(
    before: Seq<DatabaseView>,
    after: Seq<DatabaseView>,
    p: int,
    q: int,
)
    requires
        0 <= p < q < diff_steps(before, after).len(),
    ensures
        turn_of(diff_steps(before, after)[p]) <= turn_of(diff_steps(before, after)[q]),
{
    let a = gathered(after, new_database_steps(before));
    let b = gathered(after, fields_steps(before));
    let c = gathered(before, gone_fields_steps(after));
    let d = gathered(before, gone_database_steps(after));
    let whole = diff_steps(before, after);
    turn_is(before, after, whole[p]);
    turn_is(before, after, whole[q]);
    stands_in_its_part(a, b, c, d, p);
    stands_in_its_part(a, b, c, d, q);
}

/// What stands in a whole of four parts stands in the part of its place.
proof fn stands_in_its_part<A>(a: Seq<A>, b: Seq<A>, c: Seq<A>, d: Seq<A>, n: int)
    requires
        0 <= n < (a + b + c + d).len(),
    ensures
        n < a.len() ==> a.contains((a + b + c + d)[n]),
        a.len() <= n < a.len() + b.len() ==> b.contains((a + b + c + d)[n]),
        a.len() + b.len() <= n < a.len() + b.len() + c.len() ==> c.contains((a + b + c + d)[n]),
        a.len() + b.len() + c.len() <= n ==> d.contains((a + b + c + d)[n]),
{
    let whole = a + b + c + d;
    if n < a.len() {
        assert(a[n] == whole[n]);
    } else if n < a.len() + b.len() {
        assert(b[n - a.len()] == whole[n]);
    } else if n < a.len() + b.len() + c.len() {
        assert(c[n - a.len() - b.len()] == whole[n]);
    } else {
        assert(d[n - a.len() - b.len() - c.len()] == whole[n]);
    }
}

} // verus!
