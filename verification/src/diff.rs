//! What has to change in the tables when the registry has changed.

use vstd::prelude::*;

use crate::ids::{DatabaseId, FieldId};
use crate::kind::{column_type, scalar_sql_type};
use crate::naming::{reference_side, side_of, ReferenceSide};
use crate::registry::{database_of, has_database, SchemaRegistry};
use crate::schema::{field_of, Database, DatabaseView, FieldDefinition, FieldKindView, FieldView};
use crate::steps::{Step, StepView};
use crate::text::{view_of, views};

verus! {

/// What each of the items gives, one after the other.
pub open spec fn gathered<A, B>(items: Seq<A>, give: spec_fn(A) -> Seq<B>) -> Seq<B>
    decreases items.len(),
{
    if items.len() == 0 {
        Seq::empty()
    } else {
        gathered(items.drop_last(), give) + give(items.last())
    }
}

/// The field as it was before, if there was one.
pub open spec fn former_field(
    before: Seq<DatabaseView>,
    database_id: DatabaseId,
    field_id: FieldId,
) -> Option<FieldView> {
    if has_database(before, database_id) {
        field_of(database_of(before, database_id).fields, field_id)
    } else {
        None
    }
}

/// The steps for a database: where it is new, its row and its table.
pub open spec fn new_database_steps(before: Seq<DatabaseView>) -> spec_fn(DatabaseView) -> Seq<
    StepView,
> {
    |database: DatabaseView|
        if has_database(before, database.id) {
            Seq::empty()
        } else {
            seq![
                StepView::InsertDatabase { id: database.id, name: database.name },
                StepView::CreateRecordTable { id: database.id },
            ]
        }
}

/// The steps for what holds a new field's values: a column, or a table for a
/// relationship, which only one of its two fields creates.
pub open spec fn new_storage_steps(database_id: DatabaseId, field: FieldView) -> Seq<StepView> {
    match field.kind {
        FieldKindView::Reference { paired_field: Some(pair), .. } => if side_of(field.id, pair)
            == ReferenceSide::A {
            seq![
                StepView::CreateReferenceTable { field: field.id, pair },
                StepView::CreateReferenceIndex { field: field.id, pair, side: ReferenceSide::A },
                StepView::CreateReferenceIndex { field: field.id, pair, side: ReferenceSide::B },
            ]
        } else {
            Seq::empty()
        },
        _ => match column_type(field.kind) {
            Some(sql_type) => seq![
                StepView::AddColumn { database_id, field: field.id, sql_type },
            ],
            None => Seq::empty(),
        },
    }
}

/// The steps for a field: its row and its storage where it is new, its name and
/// ordering where it has changed.
pub open spec fn field_steps(before: Seq<DatabaseView>, database_id: DatabaseId) -> spec_fn(
    FieldView,
) -> Seq<StepView> {
    |field: FieldView|
        match former_field(before, database_id, field.id) {
            None => seq![StepView::InsertField { database_id, field }] + new_storage_steps(
                database_id,
                field,
            ),
            Some(former) => if former == field {
                Seq::empty()
            } else {
                seq![
                    StepView::UpdateField {
                        field: field.id,
                        name: field.name,
                        ordering: field.ordering,
                    },
                ]
            },
        }
}

/// The steps for the fields of a database.
pub open spec fn fields_steps(before: Seq<DatabaseView>) -> spec_fn(DatabaseView) -> Seq<StepView> {
    |database: DatabaseView| gathered(database.fields, field_steps(before, database.id))
}

/// The steps for what held a removed field's values. A column goes with its
/// table where the database is gone too.
pub open spec fn old_storage_steps(
    after: Seq<DatabaseView>,
    database_id: DatabaseId,
    field: FieldView,
) -> Seq<StepView> {
    match field.kind {
        FieldKindView::Reference { paired_field: Some(pair), .. } => if side_of(field.id, pair)
            == ReferenceSide::A {
            seq![StepView::DropReferenceTable { field: field.id, pair }]
        } else {
            Seq::empty()
        },
        _ => if has_database(after, database_id) && column_type(field.kind) is Some {
            seq![StepView::DropColumn { database_id, field: field.id }]
        } else {
            Seq::empty()
        },
    }
}

/// The steps for a field that was there before: its row and its storage where
/// it is gone.
pub open spec fn gone_field_steps(after: Seq<DatabaseView>, database_id: DatabaseId) -> spec_fn(
    FieldView,
) -> Seq<StepView> {
    |field: FieldView|
        match former_field(after, database_id, field.id) {
            Some(_) => Seq::empty(),
            None => seq![StepView::DeleteField { field: field.id }] + old_storage_steps(
                after,
                database_id,
                field,
            ),
        }
}

/// The steps for the fields that a database had before.
pub open spec fn gone_fields_steps(after: Seq<DatabaseView>) -> spec_fn(DatabaseView) -> Seq<
    StepView,
> {
    |database: DatabaseView| gathered(database.fields, gone_field_steps(after, database.id))
}

/// The steps for a database that was there before: its links, its row and its
/// table where it is gone.
pub open spec fn gone_database_steps(after: Seq<DatabaseView>) -> spec_fn(DatabaseView) -> Seq<
    StepView,
> {
    |database: DatabaseView|
        if has_database(after, database.id) {
            Seq::empty()
        } else {
            seq![
                StepView::DeleteLinksOf { database_id: database.id },
                StepView::DeleteDatabase { id: database.id },
                StepView::DropRecordTable { id: database.id },
            ]
        }
}

/// The steps that bring the tables from one registry to another: new databases
/// first, then new and changed fields, then fields that are gone, and databases
/// that are gone only after their fields.
pub open spec fn diff_steps(before: Seq<DatabaseView>, after: Seq<DatabaseView>) -> Seq<StepView> {
    gathered(after, new_database_steps(before)) + gathered(after, fields_steps(before)) + gathered(
        before,
        gone_fields_steps(after),
    ) + gathered(before, gone_database_steps(after))
}

/// Adds a step to a list.
fn add_step(steps: &mut Vec<Step>, step: Step)
    ensures
        views(final(steps)@) == views(old(steps)@).push(step@),
{
    let ghost before = steps@;
    steps.push(step);
    assert(views(steps@) =~= views(before).push(step@));
}

/// Adds the steps for a new database.
fn add_new_database(steps: &mut Vec<Step>, before: &SchemaRegistry, database: &Database)
    ensures
        views(final(steps)@) == views(old(steps)@) + new_database_steps(before@)(database@),
{
    let ghost start = views(steps@);
    if before.get_database(database.id).is_err() {
        add_step(steps, Step::InsertDatabase { id: database.id, name: database.name.clone() });
        add_step(steps, Step::CreateRecordTable { id: database.id });
    }
    assert(views(steps@) =~= start + new_database_steps(before@)(database@));
}

/// Adds the steps for what holds a new field's values.
fn add_new_storage(steps: &mut Vec<Step>, database_id: DatabaseId, field: &FieldDefinition)
    ensures
        views(final(steps)@) == views(old(steps)@) + new_storage_steps(database_id, field@),
{
    let ghost start = views(steps@);
    match field.kind.pair() {
        Some(pair) => {
            if reference_side(field.id, pair) == ReferenceSide::A {
                add_step(steps, Step::CreateReferenceTable { field: field.id, pair });
                add_step(
                    steps,
                    Step::CreateReferenceIndex { field: field.id, pair, side: ReferenceSide::A },
                );
                add_step(
                    steps,
                    Step::CreateReferenceIndex { field: field.id, pair, side: ReferenceSide::B },
                );
            }
        },
        None => match scalar_sql_type(&field.kind) {
            Some(sql_type) => {
                add_step(steps, Step::AddColumn { database_id, field: field.id, sql_type });
            },
            None => {},
        },
    }
    assert(views(steps@) =~= start + new_storage_steps(database_id, field@));
}

/// Adds the steps for a field.
fn add_field(
    steps: &mut Vec<Step>,
    former: Option<&FieldDefinition>,
    before: Ghost<Seq<DatabaseView>>,
    database_id: DatabaseId,
    field: &FieldDefinition,
)
    requires
        view_of(former) == former_field(before@, database_id, field.id),
    ensures
        views(final(steps)@) == views(old(steps)@) + field_steps(before@, database_id)(field@),
{
    let ghost start = views(steps@);
    match former {
        None => {
            add_step(steps, Step::InsertField { database_id, field: field.clone() });
            add_new_storage(steps, database_id, field);
        },
        Some(former) => {
            if !former.same(field) {
                add_step(
                    steps,
                    Step::UpdateField {
                        field: field.id,
                        name: field.name.clone(),
                        ordering: field.ordering,
                    },
                );
            }
        },
    }
    assert(views(steps@) =~= start + field_steps(before@, database_id)(field@));
}

/// The field as it was before, if there was one.
fn find_former<'a>(before: &'a SchemaRegistry, database_id: DatabaseId, field_id: FieldId) -> (former:
    Option<&'a FieldDefinition>)
    ensures
        view_of(former) == former_field(before@, database_id, field_id),
{
    match before.get_database(database_id) {
        Ok(database) => database.field(field_id),
        Err(_) => None,
    }
}

/// Adds the steps for the fields of a database.
fn add_fields(steps: &mut Vec<Step>, before: &SchemaRegistry, database: &Database)
    ensures
        views(final(steps)@) == views(old(steps)@) + fields_steps(before@)(database@),
{
    let ghost start = views(steps@);
    let ghost fields = database@.fields;
    let ghost give = field_steps(before@, database.id);
    let mut k: usize = 0;
    assert(start =~= start + gathered(fields.take(0), give));
    while k < database.fields.len()
        invariant
            k <= database.fields.len(),
            fields == views(database.fields@),
            give == field_steps(before@, database.id),
            views(steps@) == start + gathered(fields.take(k as int), give),
        decreases database.fields.len() - k,
    {
        assert(fields.take(k + 1).drop_last() =~= fields.take(k as int));
        let field = &database.fields[k];
        assert(fields[k as int] == field@);
        let former = find_former(before, database.id, field.id);
        let ghost so_far = views(steps@);
        add_field(steps, former, Ghost(before@), database.id, field);
        assert(views(steps@) =~= start + gathered(fields.take(k + 1), give));
        k += 1;
    }
    assert(fields.take(fields.len() as int) =~= fields);
}

/// Adds the steps for a field that was there before.
fn add_gone_field(
    steps: &mut Vec<Step>,
    after: &SchemaRegistry,
    database_id: DatabaseId,
    field: &FieldDefinition,
)
    ensures
        views(final(steps)@) == views(old(steps)@) + gone_field_steps(after@, database_id)(field@),
{
    let ghost start = views(steps@);
    if find_former(after, database_id, field.id).is_none() {
        add_step(steps, Step::DeleteField { field: field.id });
        match field.kind.pair() {
            Some(pair) => {
                if reference_side(field.id, pair) == ReferenceSide::A {
                    add_step(steps, Step::DropReferenceTable { field: field.id, pair });
                }
            },
            None => {
                if after.get_database(database_id).is_ok() && scalar_sql_type(
                    &field.kind,
                ).is_some() {
                    add_step(steps, Step::DropColumn { database_id, field: field.id });
                }
            },
        }
    }
    assert(views(steps@) =~= start + gone_field_steps(after@, database_id)(field@));
}

/// Adds the steps for the fields that a database had before.
fn add_gone_fields(steps: &mut Vec<Step>, after: &SchemaRegistry, database: &Database)
    ensures
        views(final(steps)@) == views(old(steps)@) + gone_fields_steps(after@)(database@),
{
    let ghost start = views(steps@);
    let ghost fields = database@.fields;
    let ghost give = gone_field_steps(after@, database.id);
    let mut k: usize = 0;
    assert(start =~= start + gathered(fields.take(0), give));
    while k < database.fields.len()
        invariant
            k <= database.fields.len(),
            fields == views(database.fields@),
            give == gone_field_steps(after@, database.id),
            views(steps@) == start + gathered(fields.take(k as int), give),
        decreases database.fields.len() - k,
    {
        assert(fields.take(k + 1).drop_last() =~= fields.take(k as int));
        let field = &database.fields[k];
        assert(fields[k as int] == field@);
        add_gone_field(steps, after, database.id, field);
        assert(views(steps@) =~= start + gathered(fields.take(k + 1), give));
        k += 1;
    }
    assert(fields.take(fields.len() as int) =~= fields);
}

/// Adds the steps for a database that was there before.
fn add_gone_database(steps: &mut Vec<Step>, after: &SchemaRegistry, database: &Database)
    ensures
        views(final(steps)@) == views(old(steps)@) + gone_database_steps(after@)(database@),
{
    let ghost start = views(steps@);
    if after.get_database(database.id).is_err() {
        add_step(steps, Step::DeleteLinksOf { database_id: database.id });
        add_step(steps, Step::DeleteDatabase { id: database.id });
        add_step(steps, Step::DropRecordTable { id: database.id });
    }
    assert(views(steps@) =~= start + gone_database_steps(after@)(database@));
}

/// The steps that bring the tables from one registry to another.
pub fn persist_diff(before: &SchemaRegistry, after: &SchemaRegistry) -> (steps: Vec<Step>)
    ensures
        views(steps@) == diff_steps(before@, after@),
{
    let old_list = before.list_databases();
    let new_list = after.list_databases();
    let ghost b = before@;
    let ghost a = after@;
    let mut steps: Vec<Step> = Vec::new();
    let ghost s0 = views(steps@);
    assert(s0 =~= Seq::<StepView>::empty());

    let mut i: usize = 0;
    assert(s0 =~= gathered(a.take(0), new_database_steps(b)));
    while i < new_list.len()
        invariant
            i <= new_list.len(),
            new_list.len() == a.len(),
            b == before@,
            forall|j: int| 0 <= j < new_list@.len() ==> (#[trigger] new_list@[j])@ == a[j],
            views(steps@) == gathered(a.take(i as int), new_database_steps(b)),
        decreases new_list.len() - i,
    {
        assert(a.take(i + 1).drop_last() =~= a.take(i as int));
        add_new_database(&mut steps, before, new_list[i]);
        i += 1;
    }
    assert(a.take(a.len() as int) =~= a);
    let ghost s1 = views(steps@);

    i = 0;
    assert(s1 =~= s1 + gathered(a.take(0), fields_steps(b)));
    while i < new_list.len()
        invariant
            i <= new_list.len(),
            new_list.len() == a.len(),
            b == before@,
            forall|j: int| 0 <= j < new_list@.len() ==> (#[trigger] new_list@[j])@ == a[j],
            views(steps@) == s1 + gathered(a.take(i as int), fields_steps(b)),
        decreases new_list.len() - i,
    {
        assert(a.take(i + 1).drop_last() =~= a.take(i as int));
        add_fields(&mut steps, before, new_list[i]);
        assert(views(steps@) =~= s1 + gathered(a.take(i + 1), fields_steps(b)));
        i += 1;
    }
    let ghost s2 = views(steps@);

    i = 0;
    assert(s2 =~= s2 + gathered(b.take(0), gone_fields_steps(a)));
    while i < old_list.len()
        invariant
            i <= old_list.len(),
            old_list.len() == b.len(),
            a == after@,
            forall|j: int| 0 <= j < old_list@.len() ==> (#[trigger] old_list@[j])@ == b[j],
            views(steps@) == s2 + gathered(b.take(i as int), gone_fields_steps(a)),
        decreases old_list.len() - i,
    {
        assert(b.take(i + 1).drop_last() =~= b.take(i as int));
        add_gone_fields(&mut steps, after, old_list[i]);
        assert(views(steps@) =~= s2 + gathered(b.take(i + 1), gone_fields_steps(a)));
        i += 1;
    }
    let ghost s3 = views(steps@);

    i = 0;
    assert(s3 =~= s3 + gathered(b.take(0), gone_database_steps(a)));
    while i < old_list.len()
        invariant
            i <= old_list.len(),
            old_list.len() == b.len(),
            a == after@,
            forall|j: int| 0 <= j < old_list@.len() ==> (#[trigger] old_list@[j])@ == b[j],
            views(steps@) == s3 + gathered(b.take(i as int), gone_database_steps(a)),
        decreases old_list.len() - i,
    {
        assert(b.take(i + 1).drop_last() =~= b.take(i as int));
        add_gone_database(&mut steps, after, old_list[i]);
        assert(views(steps@) =~= s3 + gathered(b.take(i + 1), gone_database_steps(a)));
        i += 1;
    }
    assert(b.take(b.len() as int) =~= b);
    steps
}

} // verus!
