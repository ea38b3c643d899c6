//! The store: what each operation changes in the schema and asks of the
//! tables.
//!
//! A store holds the registry of its databases. Its methods decide everything
//! and touch no table themselves: they give the steps to be taken and the
//! queries to be asked, and are handed the answers. A change of the schema is
//! made in the registry first; the steps that persist it are what has changed,
//! and if they fail, settling the change takes the registry back to where it
//! was, so that the two never disagree.

use vstd::prelude::*;

use crate::codec::{
    coerce_value, coerced, column_value, decode_scalar_value, decoded_value, encode_scalar_value,
    encoded_value, number_shown, number_text, number_to_print, number_to_read, reads_back,
};
use crate::diff::{diff_steps, persist_diff};
use crate::error::{DataLineError, ErrorView, Result};
use crate::ids::{DatabaseId, FieldId, Link};
use crate::kind::{column_type, parse_uuid, parsed_uuid, scalar_sql_type};
use crate::number::Number;
use crate::queries::{Query, QueryView};
use crate::registry::{
    add_field_error, database_of, database_removed, empty_database, field_error, field_in,
    field_removed, field_replaced, found_field, has_database, is_database_gone, is_database_new,
    is_database_put, is_duplication_error, is_field_added, is_field_found, is_field_gone,
    is_schema_duplicated, retype_error, with_database, SchemaRegistry,
};
use crate::schema::{
    field_position, Database, DatabaseView, FieldDefinition, FieldKind, FieldKindView, FieldView,
};
use crate::sql::{Cell, CellView, SqlValue, SqlView};
use crate::steps::{Step, StepView};
use crate::text::{view_of, views, views_push};
use crate::uuids::is_version_four;

verus! {

/// Which records lost a value when a field was given another kind: those whose
/// value could not be represented under it.
#[derive(Debug, PartialEq)]
pub struct RetypeReport {
    pub cleared_links: Vec<Link>,
}

/// A change that the registry has made and the tables have yet to follow.
pub struct Pending<T> {
    value: T,
    steps: Vec<Step>,
    before: SchemaRegistry,
}

impl<T> Pending<T> {
    /// What the operation comes to once the change is persisted.
    pub closed spec fn spec_value(self) -> T {
        self.value
    }

    /// The steps that persist the change, all of them or none.
    pub closed spec fn spec_steps(self) -> Seq<StepView> {
        views(self.steps@)
    }

    /// The databases as they were before the change.
    pub closed spec fn spec_before(self) -> Seq<DatabaseView> {
        self.before@
    }

    /// What the operation comes to once the change is persisted.
    pub fn value(&self) -> (value: &T)
        ensures
            *value == self.spec_value(),
    {
        &self.value
    }

    /// The steps that persist the change, to be taken in one transaction.
    pub fn steps(&self) -> (steps: &Vec<Step>)
        ensures
            views(steps@) == self.spec_steps(),
    {
        &self.steps
    }
}

/// The store: the registry of its databases.
pub struct Store {
    registry: SchemaRegistry,
}

impl View for Store {
    type V = Seq<DatabaseView>;

    closed spec fn view(&self) -> Seq<DatabaseView> {
        self.registry@
    }
}

/// Whether a pending change leads from one registry to another.
pub open spec fn persists<T>(
    pending: Pending<T>,
    before: Seq<DatabaseView>,
    after: Seq<DatabaseView>,
) -> bool {
    &&& pending.spec_before() == before
    &&& pending.spec_steps() == diff_steps(before, after)
}

impl Store {
    /// A store with the databases that were loaded.
    pub fn open(registry: SchemaRegistry) -> (store: Self)
        ensures
            store@ == registry@,
    {
        Store { registry }
    }

    /// The database with this id.
    pub fn get_database(&self, id: DatabaseId) -> (database: Result<&Database>)
        ensures
            match database {
                Ok(database) => has_database(self@, id) && database@ == database_of(self@, id),
                Err(error) => !has_database(self@, id) && error@ == ErrorView::DatabaseNotFound(id),
            },
    {
        self.registry.get_database(id)
    }

    /// Every database, in the order in which they were added.
    pub fn list_databases(&self) -> (list: Vec<&Database>)
        ensures
            list@.len() == self@.len(),
            forall|i: int| 0 <= i < list@.len() ==> (#[trigger] list@[i])@ == self@[i],
    {
        self.registry.list_databases()
    }

    /// The first field with this id in any database, and that database.
    pub(crate) fn find_field(&self, field_id: FieldId) -> (found: Option<
        (DatabaseId, &FieldDefinition),
    >)
        ensures
            match found {
                Some((id, field)) => found_field(self@, field_id) == Some((id, field@)),
                None => found_field(self@, field_id) is None,
            },
    {
        self.registry.find_field(field_id)
    }

    /// What the registry has changed since `before`, as a pending change.
    fn with_persisted_mutation<T>(&self, before: SchemaRegistry, value: T) -> (pending: Pending<T>)
        ensures
            pending.spec_value() == value,
            persists(pending, before@, self@),
    {
        let steps = persist_diff(&before, &self.registry);
        Pending { value, steps, before }
    }

    /// Ends a pending change. Where persisting it failed, the registry goes
    /// back to what it was before the change.
    pub fn settle<T>(
        &mut self,
        pending: Pending<T>,
        persisted: core::result::Result<(), String>,
    ) -> (result: Result<T>)
        ensures
            match persisted {
                Ok(_) => result == Ok::<T, DataLineError>(pending.spec_value()) && final(self)@
                    == old(self)@,
                Err(message) => {
                    &&& result matches Err(error)
                    &&& error@ == ErrorView::Storage(message@)
                    &&& final(self)@ == pending.spec_before()
                },
            },
    {
        match persisted {
            Ok(_) => Ok(pending.value),
            Err(message) => {
                self.registry = pending.before;
                Err(DataLineError::Storage(message))
            },
        }
    }

    /// Adds a database without fields.
    pub fn create_database(&mut self, name: &str) -> (pending: Pending<DatabaseId>)
        ensures
            is_version_four(pending.spec_value().0),
            final(self)@ == with_database(
                old(self)@,
                empty_database(pending.spec_value(), name@),
            ),
            is_database_put(
                old(self)@,
                final(self)@,
                empty_database(pending.spec_value(), name@),
            ),
            persists(pending, old(self)@, final(self)@),
    {
        let before = self.registry.clone();
        let id = self.registry.create_database(name);
        self.with_persisted_mutation(before, id)
    }

    /// Adds a field, and its back-reference where it is a reference.
    pub fn add_field(&mut self, database_id: DatabaseId, name: &str, kind: FieldKind) -> (result:
        Result<Pending<FieldId>>)
        ensures
            match add_field_error(old(self)@, database_id, kind@) {
                Some(error) => result matches Err(e) && e@ == error && final(self)@ == old(self)@,
                None => {
                    &&& result matches Ok(pending)
                    &&& is_field_added(
                        old(self)@,
                        final(self)@,
                        database_id,
                        name@,
                        kind@,
                        pending.spec_value(),
                    )
                    &&& is_field_found(
                        old(self)@,
                        final(self)@,
                        database_id,
                        name@,
                        kind@,
                        pending.spec_value(),
                    )
                    &&& persists(pending, old(self)@, final(self)@)
                },
            },
    {
        let before = self.registry.clone();
        match self.registry.add_field(database_id, name, kind) {
            Ok(id) => Ok(self.with_persisted_mutation(before, id)),
            Err(error) => Err(error),
        }
    }

    /// Gives a field another name.
    pub fn rename_field(&mut self, database_id: DatabaseId, field_id: FieldId, name: &str) -> (result:
        Result<Pending<()>>)
        ensures
            match field_error(old(self)@, database_id, field_id) {
                Some(error) => result matches Err(e) && e@ == error && final(self)@ == old(self)@,
                None => {
                    let own = database_of(old(self)@, database_id);
                    let field = FieldView {
                        name: name@,
                        ..field_in(old(self)@, database_id, field_id)
                    };
                    &&& result matches Ok(pending)
                    &&& final(self)@ == field_replaced(old(self)@, database_id, field)
                    &&& is_database_put(
                        old(self)@,
                        final(self)@,
                        DatabaseView {
                            fields: own.fields.update(
                                field_position(own.fields, field_id)->0,
                                field,
                            ),
                            ..own
                        },
                    )
                    &&& persists(pending, old(self)@, final(self)@)
                },
            },
    {
        let before = self.registry.clone();
        match self.registry.rename_field(database_id, field_id, name) {
            Ok(_) => Ok(self.with_persisted_mutation(before, ())),
            Err(error) => Err(error),
        }
    }

    /// Removes a field, and its pair where it is a reference.
    pub fn remove_field(&mut self, database_id: DatabaseId, field_id: FieldId) -> (result: Result<
        Pending<()>,
    >)
        ensures
            match field_error(old(self)@, database_id, field_id) {
                Some(error) => result matches Err(e) && e@ == error && final(self)@ == old(self)@,
                None => {
                    &&& result matches Ok(pending)
                    &&& final(self)@ == field_removed(old(self)@, database_id, field_id)
                    &&& is_field_gone(old(self)@, final(self)@, database_id, field_id)
                    &&& persists(pending, old(self)@, final(self)@)
                },
            },
    {
        let before = self.registry.clone();
        match self.registry.remove_field(database_id, field_id) {
            Ok(_) => Ok(self.with_persisted_mutation(before, ())),
            Err(error) => Err(error),
        }
    }

    /// Removes a database with its records, and every field of another database
    /// that points at it.
    pub fn delete_database(&mut self, database_id: DatabaseId) -> (result: Result<Pending<()>>)
        ensures
            if has_database(old(self)@, database_id) {
                &&& result matches Ok(pending)
                &&& final(self)@ == database_removed(old(self)@, database_id)
                &&& is_database_gone(old(self)@, final(self)@, database_id)
                &&& persists(pending, old(self)@, final(self)@)
            } else {
                &&& result matches Err(e)
                &&& e@ == ErrorView::DatabaseNotFound(database_id)
                &&& final(self)@ == old(self)@
            },
    {
        let before = self.registry.clone();
        match self.registry.remove_database(database_id) {
            Ok(_) => Ok(self.with_persisted_mutation(before, ())),
            Err(error) => Err(error),
        }
    }

    /// Copies the fields of a database into a new, independent one.
    pub fn duplicate_database_schema(&mut self, database_id: DatabaseId, new_name: &str) -> (result:
        Result<Pending<DatabaseId>>)
        ensures
            match result {
                Ok(pending) => {
                    &&& is_schema_duplicated(
                        old(self)@,
                        Ok(final(self)@),
                        database_id,
                        new_name@,
                        pending.spec_value(),
                    )
                    &&& is_database_new(old(self)@, final(self)@, pending.spec_value())
                    &&& persists(pending, old(self)@, final(self)@)
                },
                Err(error) => final(self)@ == old(self)@ && is_duplication_error(
                    old(self)@,
                    error@,
                    database_id,
                    new_name@,
                ),
            },
    {
        let before = self.registry.clone();
        match self.registry.duplicate_database_schema(database_id, new_name) {
            Ok(id) => Ok(self.with_persisted_mutation(before, id)),
            Err(error) => Err(error),
        }
    }
}

/// A record's value under a field that is being retyped, with what whoever
/// read it makes of its numbers: `read` is the number that the text of
/// `RetypePlan::number_text` reads as, `printed` the text of the number of
/// `RetypePlan::number`.
#[derive(Debug)]
pub struct RetypeRow {
    pub link: String,
    pub cell: Cell,
    pub read: Option<Number>,
    pub printed: String,
}

/// A record's value under a field that is being retyped.
pub ghost struct RetypeRowView {
    pub link: Seq<char>,
    pub cell: CellView,
    pub read: Option<Number>,
    pub printed: Seq<char>,
}

impl View for RetypeRow {
    type V = RetypeRowView;

    open spec fn view(&self) -> RetypeRowView {
        RetypeRowView {
            link: self.link@,
            cell: self.cell@,
            read: self.read,
            printed: self.printed@,
        }
    }
}

/// The text of a cell that has to be read as a number to carry its value over.
pub open spec fn retype_text_of(
    old_kind: FieldKindView,
    new_kind: FieldKindView,
    cell: CellView,
) -> Option<Seq<char>> {
    match decoded_value(old_kind, cell) {
        Ok(value) => number_text(value, new_kind),
        Err(_) => None,
    }
}

/// The number of a cell that has to be printed to carry its value over.
pub open spec fn retype_number_of(
    old_kind: FieldKindView,
    new_kind: FieldKindView,
    cell: CellView,
) -> Option<Number> {
    match decoded_value(old_kind, cell) {
        Ok(value) => number_shown(value, new_kind),
        Err(_) => None,
    }
}

/// What migrating a record's value comes to: the value to be written, and the
/// record's link where the value was lost.
pub ghost struct Migrated {
    pub value: SqlView,
    pub cleared: Option<Link>,
}

/// What migrating a record's value comes to, or why it fails.
pub open spec fn migrated(
    field: FieldId,
    old_kind: FieldKindView,
    new_kind: FieldKindView,
    row: RetypeRowView,
) -> core::result::Result<Migrated, ErrorView> {
    match decoded_value(old_kind, row.cell) {
        Err(error) => Err(error),
        Ok(old_value) => {
            let new_value = coerced(old_value, new_kind, row.read, row.printed);
            let lost = old_value !is Empty && new_value is Empty;
            match (encoded_value(field, new_kind, new_value), parsed_uuid(row.link)) {
                (_, Err(error)) if lost => Err(error),
                (Err(error), _) => Err(error),
                (Ok(value), Ok(link)) if lost => Ok(
                    Migrated { value, cleared: Some(Link(link)) },
                ),
                (Ok(value), _) => Ok(Migrated { value, cleared: None }),
            }
        },
    }
}

/// Whether what migrating a record's value writes is read as what the value
/// became.
pub open spec fn migrated_reads_back(
    field: FieldId,
    old_kind: FieldKindView,
    new_kind: FieldKindView,
    row: RetypeRowView,
) -> bool {
    migrated(field, old_kind, new_kind, row) matches Ok(done) ==> reads_back(
        new_kind,
        done.value,
        column_value(
            coerced(decoded_value(old_kind, row.cell)->Ok_0, new_kind, row.read, row.printed),
        ),
    )
}

/// What migrating the values of many records comes to: the steps that write
/// them, and the links of those that were lost.
pub open spec fn migrated_rows(
    database_id: DatabaseId,
    field: FieldId,
    old_kind: FieldKindView,
    new_kind: FieldKindView,
    rows: Seq<RetypeRowView>,
) -> core::result::Result<(Seq<StepView>, Seq<Link>), ErrorView>
    decreases rows.len(),
{
    if rows.len() == 0 {
        Ok((Seq::empty(), Seq::empty()))
    } else {
        match migrated_rows(database_id, field, old_kind, new_kind, rows.drop_last()) {
            Err(error) => Err(error),
            Ok((steps, links)) => match migrated(field, old_kind, new_kind, rows.last()) {
                Err(error) => Err(error),
                Ok(done) => Ok(
                    (
                        steps.push(
                            StepView::SetSpareValue {
                                database_id,
                                field,
                                value: done.value,
                                link: rows.last().link,
                            },
                        ),
                        match done.cleared {
                            Some(link) => links.push(link),
                            None => links,
                        },
                    ),
                ),
            },
        }
    }
}

/// The steps of a retype: a column of the new type is filled with the migrated
/// values and put in the place of the old one, since a column's type cannot be
/// changed where it stands.
pub open spec fn retype_steps(
    database_id: DatabaseId,
    field: FieldId,
    new_kind: FieldKindView,
    values: Seq<StepView>,
) -> Seq<StepView> {
    seq![
        StepView::AddSpareColumn { database_id, field, sql_type: column_type(new_kind)->0 },
    ] + values + seq![
        StepView::DropColumn { database_id, field },
        StepView::RenameSpareColumn { database_id, field },
        StepView::UpdateFieldKind { field, kind: new_kind },
    ]
}

proof fn migration_failure_stays(
    database_id: DatabaseId,
    field: FieldId,
    old_kind: FieldKindView,
    new_kind: FieldKindView,
    rows: Seq<RetypeRowView>,
    n: int,
)
    requires
        0 <= n <= rows.len(),
        migrated_rows(database_id, field, old_kind, new_kind, rows.take(n)) is Err,
    ensures
        migrated_rows(database_id, field, old_kind, new_kind, rows) == migrated_rows(
            database_id,
            field,
            old_kind,
            new_kind,
            rows.take(n),
        ),
    decreases rows.len() - n,
{
    if n == rows.len() {
        assert(rows.take(n) =~= rows);
    } else {
        assert(rows.take(n + 1).drop_last() =~= rows.take(n));
        migration_failure_stays(database_id, field, old_kind, new_kind, rows, n + 1);
    }
}

/// The migrated value and whether it was lost.
fn migrate(field: FieldId, old_kind: &FieldKind, new_kind: &FieldKind, row: &RetypeRow) -> (done:
    Result<(SqlValue, Option<Link>)>)
    requires
        old_kind@ !is Reference,
    ensures
        match done {
            Ok(done) => migrated(field, old_kind@, new_kind@, row@) == Ok::<Migrated, ErrorView>(
                Migrated { value: done.0@, cleared: done.1 },
            ),
            Err(error) => migrated(field, old_kind@, new_kind@, row@) == Err::<Migrated, ErrorView>(
                error@,
            ),
        },
        migrated_reads_back(field, old_kind@, new_kind@, row@),
{
    let old_value = match decode_scalar_value(old_kind, &row.cell) {
        Ok(value) => value,
        Err(error) => {
            return Err(error);
        },
    };
    let new_value = coerce_value(&old_value, new_kind, row.read, row.printed.as_str());
    let mut cleared: Option<Link> = None;
    if !old_value.is_empty() && new_value.is_empty() {
        match parse_uuid(row.link.as_str()) {
            Ok(link) => {
                cleared = Some(Link::from_uuid(link));
            },
            Err(error) => {
                return Err(error);
            },
        }
    }
    match encode_scalar_value(field, new_kind, &new_value) {
        Ok(value) => Ok((value, cleared)),
        Err(error) => Err(error),
    }
}

/// The steps that write the migrated values, and the links of those that were
/// lost.
fn migrate_rows(
    database_id: DatabaseId,
    field: FieldId,
    old_kind: &FieldKind,
    new_kind: &FieldKind,
    rows: &Vec<RetypeRow>,
) -> (done: Result<(Vec<Step>, Vec<Link>)>)
    requires
        old_kind@ !is Reference,
    ensures
        match done {
            Ok(done) => migrated_rows(database_id, field, old_kind@, new_kind@, views(rows@))
                == Ok::<(Seq<StepView>, Seq<Link>), ErrorView>((views(done.0@), done.1@)),
            Err(error) => migrated_rows(database_id, field, old_kind@, new_kind@, views(rows@))
                == Err::<(Seq<StepView>, Seq<Link>), ErrorView>(error@),
        },
        done is Ok ==> forall|i: int|
            0 <= i < rows@.len() ==> migrated_reads_back(
                field,
                old_kind@,
                new_kind@,
                #[trigger] views(rows@)[i],
            ),
{
    let ghost all = views(rows@);
    let mut steps: Vec<Step> = Vec::new();
    let mut links: Vec<Link> = Vec::new();
    let mut i: usize = 0;
    assert(views(steps@) =~= Seq::<StepView>::empty());
    while i < rows.len()
        invariant
            i <= rows.len(),
            all == views(rows@),
            old_kind@ !is Reference,
            migrated_rows(database_id, field, old_kind@, new_kind@, all.take(i as int)) == Ok::<
                (Seq<StepView>, Seq<Link>),
                ErrorView,
            >((views(steps@), links@)),
            forall|j: int|
                0 <= j < i ==> migrated_reads_back(
                    field,
                    old_kind@,
                    new_kind@,
                    #[trigger] all[j],
                ),
        decreases rows.len() - i,
    {
        assert(all[i as int] == rows@[i as int]@);
        assert(all.take(i + 1).drop_last() =~= all.take(i as int));
        match migrate(field, old_kind, new_kind, &rows[i]) {
            Ok((value, cleared)) => {
                let step = Step::SetSpareValue {
                    database_id,
                    field,
                    value,
                    link: rows[i].link.clone(),
                };
                proof {
                    views_push(steps@, step);
                }
                steps.push(step);
                match cleared {
                    Some(link) => {
                        links.push(link);
                    },
                    None => {},
                }
            },
            Err(error) => {
                proof {
                    migration_failure_stays(
                        database_id,
                        field,
                        old_kind@,
                        new_kind@,
                        all,
                        i + 1,
                    );
                }
                return Err(error);
            },
        }
        i += 1;
    }
    assert(all.take(rows.len() as int) =~= all);
    Ok((steps, links))
}

/// A retype that is allowed: which values it migrates, from which kind to which.
pub struct RetypePlan {
    database_id: DatabaseId,
    field_id: FieldId,
    old_kind: FieldKind,
    new_kind: FieldKind,
}

impl RetypePlan {
    #[verifier::type_invariant]
    spec fn well_formed(self) -> bool {
        self.old_kind@ !is Reference
    }

    /// The kind that the field has.
    pub closed spec fn spec_old_kind(self) -> FieldKindView {
        self.old_kind@
    }

    /// The kind that the field is to have.
    pub closed spec fn spec_new_kind(self) -> FieldKindView {
        self.new_kind@
    }

    /// The database and the field.
    pub closed spec fn spec_field(self) -> (DatabaseId, FieldId) {
        (self.database_id, self.field_id)
    }

    /// The query for the values to be migrated.
    pub fn query(&self) -> (query: Query)
        ensures
            query@ == (QueryView::FieldColumn {
                database_id: self.spec_field().0,
                field: self.spec_field().1,
            }),
    {
        Query::FieldColumn { database_id: self.database_id, field: self.field_id }
    }

    /// The text of a cell that has to be read as a number to carry its value
    /// over.
    pub fn number_text(&self, cell: &Cell) -> (text: Option<String>)
        ensures
            view_of(text) == retype_text_of(self.spec_old_kind(), self.spec_new_kind(), cell@),
    {
        proof {
            use_type_invariant(self);
        }
        match decode_scalar_value(&self.old_kind, cell) {
            Ok(value) => number_to_read(&value, &self.new_kind),
            Err(_) => None,
        }
    }

    /// The number of a cell that has to be printed to carry its value over.
    pub fn number(&self, cell: &Cell) -> (number: Option<Number>)
        ensures
            number == retype_number_of(self.spec_old_kind(), self.spec_new_kind(), cell@),
    {
        proof {
            use_type_invariant(self);
        }
        match decode_scalar_value(&self.old_kind, cell) {
            Ok(value) => number_to_print(&value, &self.new_kind),
            Err(_) => None,
        }
    }
}

impl Store {
    /// Whether a field can be given another kind, and which values would have
    /// to be migrated.
    pub fn plan_retype(&self, database_id: DatabaseId, field_id: FieldId, new_kind: &FieldKind) -> (
    plan: Result<RetypePlan>)
        ensures
            match retype_error(self@, database_id, field_id, new_kind@) {
                Some(error) => plan matches Err(e) && e@ == error,
                None => {
                    &&& plan matches Ok(plan)
                    &&& plan.spec_field() == (database_id, field_id)
                    &&& plan.spec_old_kind() == field_in(self@, database_id, field_id).kind
                    &&& plan.spec_new_kind() == new_kind@
                },
            },
    {
        let database = match self.registry.get_database(database_id) {
            Ok(database) => database,
            Err(error) => {
                return Err(error);
            },
        };
        let field = match database.field(field_id) {
            Some(field) => field,
            None => {
                return Err(DataLineError::FieldNotFound(field_id));
            },
        };
        if field.kind.is_reference() || new_kind.is_reference() {
            return Err(DataLineError::ReferenceFieldRetypeNotSupported(field_id));
        }
        Ok(
            RetypePlan {
                database_id,
                field_id,
                old_kind: field.kind.clone(),
                new_kind: new_kind.clone(),
            },
        )
    }

    /// Gives a field another kind and migrates the values that records have
    /// under it, which are `rows`: what the plan's query gave. What is written
    /// is read as what the value became. Where it fails, nothing has changed.
    pub fn retype_field(
        &mut self,
        database_id: DatabaseId,
        field_id: FieldId,
        new_kind: FieldKind,
        rows: &Vec<RetypeRow>,
    ) -> (result: Result<Pending<RetypeReport>>)
        ensures
            match retype_error(old(self)@, database_id, field_id, new_kind@) {
                Some(error) => result matches Err(e) && e@ == error && final(self)@ == old(self)@,
                None => {
                    let own = database_of(old(self)@, database_id);
                    let field = field_in(old(self)@, database_id, field_id);
                    match migrated_rows(
                        database_id,
                        field_id,
                        field.kind,
                        new_kind@,
                        views(rows@),
                    ) {
                        Err(error) => result matches Err(e) && e@ == error && final(self)@ == old(
                            self)@,
                        Ok((values, links)) => {
                            &&& result matches Ok(pending)
                            &&& pending.spec_value().cleared_links@ == links
                            &&& pending.spec_before() == old(self)@
                            &&& pending.spec_steps() == retype_steps(
                                database_id,
                                field_id,
                                new_kind@,
                                values,
                            )
                            &&& final(self)@ == field_replaced(
                                old(self)@,
                                database_id,
                                FieldView { kind: new_kind@, ..field },
                            )
                            &&& is_database_put(
                                old(self)@,
                                final(self)@,
                                DatabaseView {
                                    fields: own.fields.update(
                                        field_position(own.fields, field_id)->0,
                                        FieldView { kind: new_kind@, ..field },
                                    ),
                                    ..own
                                },
                            )
                            &&& forall|i: int|
                                0 <= i < rows@.len() ==> migrated_reads_back(
                                    field_id,
                                    field.kind,
                                    new_kind@,
                                    #[trigger] views(rows@)[i],
                                )
                        },
                    }
                },
            },
    {
        let plan = match self.plan_retype(database_id, field_id, &new_kind) {
            Ok(plan) => plan,
            Err(error) => {
                return Err(error);
            },
        };
        proof {
            use_type_invariant(&plan);
        }
        let before = self.registry.clone();
        let (values, cleared_links) = match migrate_rows(
            database_id,
            field_id,
            &plan.old_kind,
            &new_kind,
            rows,
        ) {
            Ok(done) => done,
            Err(error) => {
                return Err(error);
            },
        };
        let sql_type = match scalar_sql_type(&new_kind) {
            Some(sql_type) => sql_type,
            None => {
                return Err(DataLineError::ReferenceFieldRetypeNotSupported(field_id));
            },
        };
        let mut steps: Vec<Step> = Vec::new();
        steps.push(Step::AddSpareColumn { database_id, field: field_id, sql_type });
        let mut values = values;
        let ghost value_steps = views(values@);
        let ghost value_list = values@;
        steps.append(&mut values);
        steps.push(Step::DropColumn { database_id, field: field_id });
        steps.push(Step::RenameSpareColumn { database_id, field: field_id });
        let kind_step = Step::UpdateFieldKind { field: field_id, kind: new_kind.clone() };
        steps.push(kind_step);
        proof {
            let expected = retype_steps(database_id, field_id, new_kind@, value_steps);
            assert(steps@.len() == expected.len());
            assert forall|i: int| 0 <= i < expected.len() implies #[trigger] views(steps@)[i]
                == expected[i] by {
                if 1 <= i < 1 + value_list.len() {
                    assert(steps@[i] == value_list[i - 1]);
                    assert(value_steps[i - 1] == value_list[i - 1]@);
                }
            }
            assert(views(steps@) =~= expected);
        }
        match self.registry.retype_field(database_id, field_id, new_kind) {
            Ok(_) => {},
            Err(error) => {
                return Err(error);
            },
        }
        Ok(Pending { value: RetypeReport { cleared_links }, steps, before })
    }
}

} // verus!
