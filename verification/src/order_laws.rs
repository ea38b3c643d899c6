//! The rows of the fields are numbered in the order of the registry's lists.

use vstd::prelude::*;

use crate::diff::{
    diff_steps, field_steps, fields_steps, former_field, gathered, gone_database_steps,
    gone_field_steps, gone_fields_steps, new_database_steps, new_storage_steps,
};
use crate::ids::{DatabaseId, FieldId};
use crate::persist_laws::{follows, former_stands, schema_field, standing_field, stands_at};
use crate::registry::{
    database_index, database_not_at, database_removed, field_error, field_removed, field_replaced,
    has_database, is_database, with_fields_keeps,
};
use crate::registry_laws::{
    consistent, database_removed_shape, field_at, field_removed_shape, goes_with, grows, is_field,
    kept_from, kept_from_is,
};
use crate::schema::{field_position, field_position_found, DatabaseView, FieldView};
use crate::steps::StepView;
use crate::store_laws::empty_tables;
use crate::tables::{all_applied, at, numbers_after, RowNumbers, Tables};

verus! {

/// Whether one field stands somewhere before another in a database's list.
pub open spec fn stands_before(databases: Seq<DatabaseView>, a: FieldId, b: FieldId) -> bool {
    exists|i: int, p: int, q: int|
        p < q && #[trigger] stands_at(databases, a, i, p) && #[trigger] stands_at(
            databases,
            b,
            i,
            q,
        )
}

/// Whether every field's row has a number below the next one, and the numbers
/// rise along the list of every database.
pub open spec fn numbers_rise(tables: Tables, databases: Seq<DatabaseView>) -> bool {
    &&& forall|id: FieldId| #[trigger]
        schema_field(databases, id) is Some ==> at(tables.numbers.of, id) is Some
    &&& forall|id: FieldId| #[trigger]
        tables.numbers.of.dom().contains(id) ==> tables.numbers.of[id] < tables.numbers.next
    &&& forall|a: FieldId, b: FieldId| #[trigger]
        stands_before(databases, a, b) ==> tables.numbers.of[a] < tables.numbers.of[b]
}

/// Whether the fields of one registry that are also in another stand there in
/// the same order, and before those that are new.
pub open spec fn keeps_order(before: Seq<DatabaseView>, after: Seq<DatabaseView>) -> bool {
    forall|a: FieldId, b: FieldId|
        #[trigger] stands_before(after, a, b) && schema_field(before, b) is Some ==> stands_before(
            before,
            a,
            b,
        )
}

/// In a store without databases there is nothing to be numbered.
pub proof fn empty_store_is_numbered()
    ensures
        numbers_rise(empty_tables(), Seq::empty()),
{
}

/// The numbers after a sequence of steps.
spec fn numbers_after_all(numbers: RowNumbers, steps: Seq<StepView>) -> RowNumbers
    decreases steps.len(),
{
    if steps.len() == 0 {
        numbers
    } else {
        numbers_after(steps.last(), numbers_after_all(numbers, steps.drop_last()))
    }
}

proof fn numbers_of_all_applied(tables: Tables, steps: Seq<StepView>)
    ensures
        all_applied(tables, steps).numbers == numbers_after_all(tables.numbers, steps),
    decreases steps.len(),
{
    if steps.len() > 0 {
        numbers_of_all_applied(tables, steps.drop_last());
    }
}

proof fn numbers_in_turn(numbers: RowNumbers, first: Seq<StepView>, second: Seq<StepView>)
    ensures
        numbers_after_all(numbers, first + second) == numbers_after_all(
            numbers_after_all(numbers, first),
            second,
        ),
    decreases second.len(),
{
    if second.len() == 0 {
        assert(first + second =~= first);
    } else {
        assert((first + second).drop_last() =~= first + second.drop_last());
        numbers_in_turn(numbers, first, second.drop_last());
    }
}

/// Whether a step inserts or deletes the row of a field.
spec fn touches_row(step: StepView, id: FieldId) -> bool {
    match step {
        StepView::InsertField { field, .. } => field.id == id,
        StepView::DeleteField { field } => field == id,
        _ => false,
    }
}

/// Whether no step inserts or deletes the row of a field.
spec fn leaves_row(steps: Seq<StepView>, id: FieldId) -> bool {
    forall|i: int| 0 <= i < steps.len() ==> !touches_row(#[trigger] steps[i], id)
}

/// The next number never falls, every number stays below it, and a row that is
/// neither inserted nor deleted keeps its number.
proof fn numbers_go_on(numbers: RowNumbers, steps: Seq<StepView>, id: FieldId)
    ensures
        numbers_after_all(numbers, steps).next >= numbers.next,
        (forall|other: FieldId| #[trigger]
            numbers.of.dom().contains(other) ==> numbers.of[other] < numbers.next) ==> forall|
            other: FieldId,
        | #[trigger]
            numbers_after_all(numbers, steps).of.dom().contains(other) ==> numbers_after_all(
                numbers,
                steps,
            ).of[other] < numbers_after_all(numbers, steps).next,
        leaves_row(steps, id) ==> at(numbers_after_all(numbers, steps).of, id) == at(
            numbers.of,
            id,
        ),
    decreases steps.len(),
{
    if steps.len() > 0 {
        let rest = steps.drop_last();
        numbers_go_on(numbers, rest, id);
        if leaves_row(steps, id) {
            assert forall|i: int| 0 <= i < rest.len() implies !touches_row(
                #[trigger] rest[i],
                id,
            ) by {
                assert(rest[i] == steps[i]);
            }
            assert(!touches_row(steps[steps.len() - 1], id));
        }
    }
}

proof fn both_leave_row(first: Seq<StepView>, second: Seq<StepView>, id: FieldId)
    requires
        leaves_row(first, id),
        leaves_row(second, id),
    ensures
        leaves_row(first + second, id),
{
    let both = first + second;
    assert forall|i: int| 0 <= i < both.len() implies !touches_row(#[trigger] both[i], id) by {
        if i < first.len() {
            assert(both[i] == first[i]);
        } else {
            assert(both[i] == second[i - first.len()]);
        }
    }
}

proof fn gathered_leaves_row<A>(items: Seq<A>, give: spec_fn(A) -> Seq<StepView>, id: FieldId)
    requires
        forall|j: int| 0 <= j < items.len() ==> leaves_row(give(#[trigger] items[j]), id),
    ensures
        leaves_row(gathered(items, give), id),
    decreases items.len(),
{
    if items.len() > 0 {
        let rest = items.drop_last();
        assert forall|j: int| 0 <= j < rest.len() implies leaves_row(
            give(#[trigger] rest[j]),
            id,
        ) by {
            assert(rest[j] == items[j]);
        }
        gathered_leaves_row(rest, give, id);
        assert(leaves_row(give(items[items.len() - 1]), id));
        both_leave_row(gathered(rest, give), give(items.last()), id);
    }
}

/// What many items give is what the first ones give, then what one gives, then
/// what the others do.
proof fn gathered_splits<A>(items: Seq<A>, give: spec_fn(A) -> Seq<StepView>, j: int)
    requires
        0 <= j < items.len(),
    ensures
        gathered(items, give) == gathered(items.take(j), give) + give(items[j]) + gathered(
            items.skip(j + 1),
            give,
        ),
    decreases items.len(),
{
    let rest = items.drop_last();
    let later = items.skip(j + 1);
    if j == items.len() - 1 {
        assert(items.take(j) =~= rest);
        assert(later =~= Seq::empty());
        assert(gathered(later, give) =~= Seq::empty());
        assert(gathered(items, give) =~= gathered(items.take(j), give) + give(items[j]) + gathered(
            later,
            give,
        ));
    } else {
        gathered_splits(rest, give, j);
        assert(rest.take(j) =~= items.take(j));
        assert(later.drop_last() =~= rest.skip(j + 1));
        assert(later.last() == items.last());
        assert(gathered(items, give) =~= gathered(items.take(j), give) + give(items[j]) + gathered(
            later,
            give,
        ));
    }
}

/// The steps for databases touch no row of a field, and those for fields only
/// rows of fields that have come or gone.
proof fn rows_left(before: Seq<DatabaseView>, after: Seq<DatabaseView>, id: FieldId)
    ensures
        leaves_row(gathered(after, new_database_steps(before)), id),
        leaves_row(gathered(before, gone_database_steps(after)), id),
        forall|database_id: DatabaseId, field: FieldView|
            field.id != id || former_field(before, database_id, id) is Some ==> leaves_row(
                #[trigger] field_steps(before, database_id)(field),
                id,
            ),
        (forall|i: int, k: int|
            is_field(before, i, k) && (#[trigger] field_at(before, i, k)).id == id
                ==> former_field(after, before[i].id, id) is Some) ==> leaves_row(
            gathered(before, gone_fields_steps(after)),
            id,
        ),
{
    gathered_leaves_row(after, new_database_steps(before), id);
    gathered_leaves_row(before, gone_database_steps(after), id);
    if forall|i: int, k: int|
        is_field(before, i, k) && (#[trigger] field_at(before, i, k)).id == id ==> former_field(
            after,
            before[i].id,
            id,
        ) is Some {
        assert forall|i: int| 0 <= i < before.len() implies leaves_row(
            gone_fields_steps(after)(#[trigger] before[i]),
            id,
        ) by {
            let fields = before[i].fields;
            let give = gone_field_steps(after, before[i].id);
            assert forall|k: int| 0 <= k < fields.len() implies leaves_row(
                give(#[trigger] fields[k]),
                id,
            ) by {
                assert(is_field(before, i, k));
                assert(fields[k] == field_at(before, i, k));
            }
            gathered_leaves_row(fields, give, id);
        }
        gathered_leaves_row(before, gone_fields_steps(after), id);
    }
}

/// The steps of a difference that come before those of the `m`th field of the
/// `j`th database.
spec fn steps_before(
    before: Seq<DatabaseView>,
    after: Seq<DatabaseView>,
    j: int,
    m: int,
) -> Seq<StepView> {
    gathered(after, new_database_steps(before)) + gathered(after.take(j), fields_steps(before))
        + gathered(after[j].fields.take(m), field_steps(before, after[j].id))
}

/// A field that stays keeps the number of its row.
proof fn old_number_stays(
    before: Seq<DatabaseView>,
    after: Seq<DatabaseView>,
    numbers: RowNumbers,
    id: FieldId,
)
    requires
        consistent(before),
        consistent(after),
        follows(before, after),
        schema_field(before, id) is Some,
        schema_field(after, id) is Some,
    ensures
        at(numbers_after_all(numbers, diff_steps(before, after)).of, id) == at(numbers.of, id),
{
    let (i, k) = choose|i: int, k: int| stands_at(before, id, i, k);
    standing_field(before, i, k);
    let (j, m) = choose|j: int, m: int| stands_at(after, id, j, m);
    standing_field(after, j, m);
    assert(field_at(before, i, k).id == field_at(after, j, m).id);
    rows_left(before, after, id);
    assert forall|a: int, b: int|
        is_field(before, a, b) && (#[trigger] field_at(before, a, b)).id == id implies former_field(
        after,
        before[a].id,
        id,
    ) is Some by {
        assert(field_at(before, a, b).id == field_at(before, i, k).id);
    }
    assert forall|a: int| 0 <= a < after.len() implies leaves_row(
        fields_steps(before)(#[trigger] after[a]),
        id,
    ) by {
        let fields = after[a].fields;
        let give = field_steps(before, after[a].id);
        assert forall|b: int| 0 <= b < fields.len() implies leaves_row(
            give(#[trigger] fields[b]),
            id,
        ) by {
            assert(is_field(after, a, b));
            assert(fields[b] == field_at(after, a, b));
            if fields[b].id == id {
                assert(field_at(after, a, b).id == field_at(after, j, m).id);
            }
        }
        gathered_leaves_row(fields, give, id);
    }
    gathered_leaves_row(after, fields_steps(before), id);
    let p1 = gathered(after, new_database_steps(before));
    let p2 = gathered(after, fields_steps(before));
    let p3 = gathered(before, gone_fields_steps(after));
    let p4 = gathered(before, gone_database_steps(after));
    both_leave_row(p1, p2, id);
    both_leave_row(p1 + p2, p3, id);
    both_leave_row(p1 + p2 + p3, p4, id);
    numbers_go_on(numbers, diff_steps(before, after), id);
}

/// The steps of a difference that come after those of the `m`th field of the
/// `j`th database.
spec fn steps_past(
    before: Seq<DatabaseView>,
    after: Seq<DatabaseView>,
    j: int,
    m: int,
) -> Seq<StepView> {
    gathered(after[j].fields.skip(m + 1), field_steps(before, after[j].id)) + gathered(
        after.skip(j + 1),
        fields_steps(before),
    ) + gathered(before, gone_fields_steps(after)) + gathered(before, gone_database_steps(after))
}

proof fn diff_splits(before: Seq<DatabaseView>, after: Seq<DatabaseView>, j: int, m: int)
    requires
        is_field(after, j, m),
    ensures
        diff_steps(before, after) == steps_before(before, after, j, m) + field_steps(
            before,
            after[j].id,
        )(field_at(after, j, m)) + steps_past(before, after, j, m),
{
    gathered_splits(after, fields_steps(before), j);
    gathered_splits(after[j].fields, field_steps(before, after[j].id), m);
    assert(diff_steps(before, after) =~= steps_before(before, after, j, m) + field_steps(
        before,
        after[j].id,
    )(field_at(after, j, m)) + steps_past(before, after, j, m));
}

/// What comes after a new field's own steps leaves its row.
proof fn past_leaves_row(before: Seq<DatabaseView>, after: Seq<DatabaseView>, j: int, m: int)
    requires
        consistent(after),
        is_field(after, j, m),
        schema_field(before, field_at(after, j, m).id) is None,
    ensures
        leaves_row(steps_past(before, after, j, m), field_at(after, j, m).id),
{
    let id = field_at(after, j, m).id;
    let give = field_steps(before, after[j].id);
    let p3 = gathered(before, gone_fields_steps(after));
    let p4 = gathered(before, gone_database_steps(after));
    rows_left(before, after, id);
    assert forall|i: int, k: int|
        is_field(before, i, k) && (#[trigger] field_at(before, i, k)).id == id implies former_field(
        after,
        before[i].id,
        id,
    ) is Some by {
        assert(stands_at(before, id, i, k));
    }
    let others = after[j].fields.skip(m + 1);
    assert forall|b: int| 0 <= b < others.len() implies leaves_row(
        give(#[trigger] others[b]),
        id,
    ) by {
        assert(is_field(after, j, m + 1 + b));
        assert(others[b] == field_at(after, j, m + 1 + b));
        assert(field_at(after, j, m + 1 + b).id != field_at(after, j, m).id);
    }
    gathered_leaves_row(others, give, id);
    let later = after.skip(j + 1);
    assert forall|a: int| 0 <= a < later.len() implies leaves_row(
        fields_steps(before)(#[trigger] later[a]),
        id,
    ) by {
        let theirs = later[a].fields;
        let gives = field_steps(before, later[a].id);
        assert forall|b: int| 0 <= b < theirs.len() implies leaves_row(
            gives(#[trigger] theirs[b]),
            id,
        ) by {
            assert(is_field(after, j + 1 + a, b));
            assert(theirs[b] == field_at(after, j + 1 + a, b));
            assert(field_at(after, j + 1 + a, b).id != field_at(after, j, m).id);
        }
        gathered_leaves_row(theirs, gives, id);
    }
    gathered_leaves_row(later, fields_steps(before), id);
    let first = gathered(others, give);
    let second = gathered(later, fields_steps(before));
    both_leave_row(first, second, id);
    both_leave_row(first + second, p3, id);
    both_leave_row(first + second + p3, p4, id);
}

/// The steps of a new field give its row the next number.
proof fn own_steps_number(database_id: DatabaseId, field: FieldView, start: RowNumbers)
    ensures
        ({
            let own = seq![StepView::InsertField { database_id, field }] + new_storage_steps(
                database_id,
                field,
            );
            let done = numbers_after_all(start, own);
            &&& at(done.of, field.id) == Some(start.next)
            &&& done.next > start.next
        }),
{
    let insert = StepView::InsertField { database_id, field };
    let storage = new_storage_steps(database_id, field);
    assert(leaves_row(storage, field.id));
    numbers_in_turn(start, seq![insert], storage);
    assert(seq![insert].drop_last() =~= Seq::empty());
    reveal_with_fuel(numbers_after_all, 2);
    let inserted = numbers_after(insert, start);
    assert(numbers_after_all(start, seq![insert]) == inserted);
    numbers_go_on(inserted, storage, field.id);
}

/// A field that is new is given the number that is next when its turn comes.
proof fn new_number_is_next(
    before: Seq<DatabaseView>,
    after: Seq<DatabaseView>,
    numbers: RowNumbers,
    j: int,
    m: int,
)
    requires
        consistent(after),
        is_field(after, j, m),
        schema_field(before, field_at(after, j, m).id) is None,
    ensures
        at(
            numbers_after_all(numbers, diff_steps(before, after)).of,
            field_at(after, j, m).id,
        ) == Some(numbers_after_all(numbers, steps_before(before, after, j, m)).next),
        numbers_after_all(
            numbers,
            steps_before(before, after, j, m) + field_steps(before, after[j].id)(
                field_at(after, j, m),
            ),
        ).next > numbers_after_all(numbers, steps_before(before, after, j, m)).next,
{
    let field = field_at(after, j, m);
    let id = field.id;
    assert(former_field(before, after[j].id, id) is None) by {
        if former_field(before, after[j].id, id) is Some {
            let (i, k) = former_stands(before, after[j].id, id);
            assert(stands_at(before, id, i, k));
        }
    }
    let prefix = steps_before(before, after, j, m);
    let own = field_steps(before, after[j].id)(field);
    let rest = steps_past(before, after, j, m);
    let start = numbers_after_all(numbers, prefix);
    own_steps_number(after[j].id, field, start);
    let done = numbers_after_all(start, own);
    numbers_in_turn(numbers, prefix, own);
    diff_splits(before, after, j, m);
    numbers_in_turn(numbers, prefix + own, rest);
    past_leaves_row(before, after, j, m);
    numbers_go_on(done, rest, id);
}

/// Of two fields of a database, the next number is no lower when the turn of
/// the later one comes.
proof fn turns_come_in_order(
    before: Seq<DatabaseView>,
    after: Seq<DatabaseView>,
    numbers: RowNumbers,
    j: int,
    m: int,
    n: int,
)
    requires
        0 <= j < after.len(),
        0 <= m < n <= after[j].fields.len(),
    ensures
        numbers_after_all(numbers, steps_before(before, after, j, n)).next >= numbers_after_all(
            numbers,
            steps_before(before, after, j, m) + field_steps(before, after[j].id)(
                field_at(after, j, m),
            ),
        ).next,
    decreases n,
{
    let fields = after[j].fields;
    let give = field_steps(before, after[j].id);
    assert(fields.take(n).drop_last() =~= fields.take(n - 1));
    assert(fields.take(n).last() == fields[n - 1]);
    let fewer = steps_before(before, after, j, n - 1);
    assert(steps_before(before, after, j, n) =~= fewer + give(fields[n - 1]));
    if n - 1 > m {
        turns_come_in_order(before, after, numbers, j, m, n - 1);
        numbers_in_turn(numbers, fewer, give(fields[n - 1]));
        numbers_go_on(
            numbers_after_all(numbers, fewer),
            give(fields[n - 1]),
            fields[n - 1].id,
        );
    }
}

/// Persisting a change of the registry that keeps the order of the fields
/// numbers their rows in that order.
pub proof fn persisting_keeps_numbers_rising(
    tables: Tables,
    before: Seq<DatabaseView>,
    after: Seq<DatabaseView>,
)
    requires
        consistent(before),
        consistent(after),
        follows(before, after),
        keeps_order(before, after),
        numbers_rise(tables, before),
    ensures
        numbers_rise(all_applied(tables, diff_steps(before, after)), after),
{
    let steps = diff_steps(before, after);
    let numbers = tables.numbers;
    let end = numbers_after_all(numbers, steps);
    numbers_of_all_applied(tables, steps);
    numbers_go_on(numbers, steps, FieldId(0));
    assert forall|id: FieldId| #[trigger] schema_field(after, id) is Some implies at(
        end.of,
        id,
    ) is Some by {
        if schema_field(before, id) is Some {
            old_number_stays(before, after, numbers, id);
        } else {
            let (j, m) = choose|j: int, m: int| stands_at(after, id, j, m);
            new_number_is_next(before, after, numbers, j, m);
        }
    }
    assert forall|a: FieldId, b: FieldId| #[trigger] stands_before(after, a, b) implies end.of[a]
        < end.of[b] by {
        let (j, m, n) = choose|j: int, m: int, n: int|
            m < n && #[trigger] stands_at(after, a, j, m) && #[trigger] stands_at(after, b, j, n);
        standing_field(after, j, m);
        standing_field(after, j, n);
        assert(schema_field(after, a) is Some && schema_field(after, b) is Some);
        if schema_field(before, b) is Some {
            assert(stands_before(before, a, b));
            let (i, p, q) = choose|i: int, p: int, q: int|
                p < q && #[trigger] stands_at(before, a, i, p) && #[trigger] stands_at(
                    before,
                    b,
                    i,
                    q,
                );
            standing_field(before, i, p);
            assert(schema_field(before, a) is Some);
            old_number_stays(before, after, numbers, a);
            old_number_stays(before, after, numbers, b);
            assert(at(numbers.of, a) is Some && at(numbers.of, b) is Some);
        } else {
            new_number_is_next(before, after, numbers, j, n);
            if schema_field(before, a) is Some {
                old_number_stays(before, after, numbers, a);
                assert(at(numbers.of, a) is Some);
                assert(numbers.of.dom().contains(a));
                numbers_go_on(numbers, steps_before(before, after, j, n), a);
            } else {
                new_number_is_next(before, after, numbers, j, m);
                turns_come_in_order(before, after, numbers, j, m, n);
            }
        }
    }
}

/// A change that only adds keeps the order of what was there.
pub proof fn growing_keeps_order(before: Seq<DatabaseView>, after: Seq<DatabaseView>)
    requires
        consistent(after),
        grows(before, after),
    ensures
        keeps_order(before, after),
{
    assert forall|a: FieldId, b: FieldId|
        #[trigger] stands_before(after, a, b) && schema_field(
            before,
            b,
        ) is Some implies stands_before(before, a, b) by {
        let (j, p, q) = choose|j: int, p: int, q: int|
            p < q && #[trigger] stands_at(after, a, j, p) && #[trigger] stands_at(after, b, j, q);
        let (i, k) = choose|i: int, k: int| stands_at(before, b, i, k);
        let old = before[i].fields;
        assert(after[i].id == before[i].id);
        assert(old =~= after[i].fields.subrange(0, old.len() as int));
        assert(old[k] == after[i].fields.subrange(0, old.len() as int)[k]);
        assert(is_field(after, i, k));
        assert(field_at(after, i, k).id == field_at(after, j, q).id);
        assert(i == j && k == q);
        assert(old[p] == after[i].fields.subrange(0, old.len() as int)[p]);
        assert(stands_at(before, a, i, p));
        assert(stands_at(before, b, i, q));
    }
}

/// Renaming a field, or giving it another kind, leaves every field where it
/// stands.
pub proof fn replacing_keeps_order(
    databases: Seq<DatabaseView>,
    database_id: DatabaseId,
    field: FieldView,
)
    requires
        consistent(databases),
        field_error(databases, database_id, field.id) is None,
    ensures
        forall|id: FieldId, i: int, k: int| #[trigger]
            stands_at(field_replaced(databases, database_id, field), id, i, k) == stands_at(
                databases,
                id,
                i,
                k,
            ),
        keeps_order(databases, field_replaced(databases, database_id, field)),
{
    let after = field_replaced(databases, database_id, field);
    let s = database_index(databases, database_id);
    assert(is_database(databases, database_id, s));
    let fields = databases[s].fields;
    field_position_found(fields, field.id);
    let at_field = field_position(fields, field.id)->0;
    with_fields_keeps(databases, database_id, fields.update(at_field, field));
    assert forall|id: FieldId, i: int, k: int| #[trigger]
        stands_at(after, id, i, k) == stands_at(databases, id, i, k) by {}
    assert forall|a: FieldId, b: FieldId|
        #[trigger] stands_before(after, a, b) implies stands_before(databases, a, b) by {
        let (i, p, q) = choose|i: int, p: int, q: int|
            p < q && #[trigger] stands_at(after, a, i, p) && #[trigger] stands_at(after, b, i, q);
        assert(stands_at(databases, a, i, p) && stands_at(databases, b, i, q));
    }
}

/// Giving a field another kind leaves the numbers of the rows along the lists.
pub proof fn retyping_keeps_numbers_rising(
    tables: Tables,
    end: Tables,
    databases: Seq<DatabaseView>,
    database_id: DatabaseId,
    field: FieldView,
)
    requires
        consistent(databases),
        field_error(databases, database_id, field.id) is None,
        numbers_rise(tables, databases),
        end.numbers == tables.numbers,
    ensures
        numbers_rise(end, field_replaced(databases, database_id, field)),
{
    let after = field_replaced(databases, database_id, field);
    replacing_keeps_order(databases, database_id, field);
    assert forall|id: FieldId| #[trigger] schema_field(after, id) is Some implies at(
        end.numbers.of,
        id,
    ) is Some by {
        let (i, k) = choose|i: int, k: int| stands_at(after, id, i, k);
        assert(stands_at(databases, id, i, k));
        assert(schema_field(databases, id) is Some);
    }
    assert forall|a: FieldId, b: FieldId| #[trigger] stands_before(
        after,
        a,
        b,
    ) implies end.numbers.of[a] < end.numbers.of[b] by {
        let (i, p, q) = choose|i: int, p: int, q: int|
            p < q && #[trigger] stands_at(after, a, i, p) && #[trigger] stands_at(after, b, i, q);
        assert(stands_at(databases, a, i, p) && stands_at(databases, b, i, q));
        assert(stands_before(databases, a, b));
    }
}

/// Removing a field, with its pair where it has one, keeps the order of the
/// others.
pub proof fn removing_keeps_order(
    databases: Seq<DatabaseView>,
    database_id: DatabaseId,
    field_id: FieldId,
)
    requires
        consistent(databases),
        field_error(databases, database_id, field_id) is None,
    ensures
        keeps_order(databases, field_removed(databases, database_id, field_id)),
{
    let after = field_removed(databases, database_id, field_id);
    let keep = |field: FieldView| !goes_with(databases, database_id, field_id, field.id);
    field_removed_shape(databases, database_id, field_id);
    assert forall|a: FieldId, b: FieldId|
        #[trigger] stands_before(after, a, b) implies stands_before(databases, a, b) by {
        let (j, p, q) = choose|j: int, p: int, q: int|
            p < q && #[trigger] stands_at(after, a, j, p) && #[trigger] stands_at(after, b, j, q);
        let old = databases[j].fields;
        kept_from_is(old, keep);
        assert(kept_from(old, keep, p) < kept_from(old, keep, q));
        assert(stands_at(databases, a, j, kept_from(old, keep, p)));
        assert(stands_at(databases, b, j, kept_from(old, keep, q)));
    }
}

/// Removing a database keeps the order of the fields of the others.
pub proof fn removing_database_keeps_order(databases: Seq<DatabaseView>, id: DatabaseId)
    requires
        consistent(databases),
        has_database(databases, id),
    ensures
        keeps_order(databases, database_removed(databases, id)),
{
    let after = database_removed(databases, id);
    let gone = database_index(databases, id);
    let keep = |field: FieldView| field.kind.target() != Some(id);
    database_removed_shape(databases, id);
    assert(is_database(databases, id, gone));
    assert forall|a: FieldId, b: FieldId|
        #[trigger] stands_before(after, a, b) implies stands_before(databases, a, b) by {
        let (j, p, q) = choose|j: int, p: int, q: int|
            p < q && #[trigger] stands_at(after, a, j, p) && #[trigger] stands_at(after, b, j, q);
        let i = if j < gone {
            j
        } else {
            j + 1
        };
        assert(after[j] == database_not_at(databases[i], id));
        let old = databases[i].fields;
        assert(after[j].fields == old.filter(keep));
        kept_from_is(old, keep);
        assert(kept_from(old, keep, p) < kept_from(old, keep, q));
        assert(stands_at(databases, a, i, kept_from(old, keep, p)));
        assert(stands_at(databases, b, i, kept_from(old, keep, q)));
    }
}

} // verus!
