//! Opening a store: its format, and the schema that it holds.

use vstd::prelude::*;
use vstd::string::StringExecFns;

use crate::error::{outcome, DataLineError, ErrorView, Result};
use crate::ids::{DatabaseId, FieldId};
use crate::kind::{
    decode_kind, decoded_kind, encoded_kind, options_read, parse_uuid, parsed_uuid,
    stored_kind_reads_back, EncodedKindView, ReadOptions,
};
use crate::registry::{collected, has_database, ids_distinct, is_database, SchemaRegistry};
use crate::schema::{
    copy_options, Database, DatabaseView, FieldDefinition, FieldKindView, FieldView, SelectionOptionView,
};
use crate::steps::{SchemaTable, Step, StepView, SCHEMA_VERSION};
use crate::text::{
    copy_text, integer_reading, integer_text, integer_text_reads_back, print_integer, read_integer,
    view_of, views, views_push,
};
use crate::uuids::{uuid_text, uuid_text_reads_back};

verus! {

/// Whether a table is there, from the count of tables with its name.
pub fn table_exists(count: i64) -> (exists_already: bool)
    ensures
        exists_already == (count > 0),
{
    count > 0
}

/// The steps that make an empty store.
pub open spec fn creation_steps() -> Seq<StepView> {
    seq![
        StepView::CreateSchemaTable(SchemaTable::Meta),
        StepView::CreateSchemaTable(SchemaTable::Databases),
        StepView::CreateSchemaTable(SchemaTable::Fields),
        StepView::CreateSchemaTable(SchemaTable::Links),
        StepView::CreateSchemaTable(SchemaTable::Blobs),
        StepView::InsertSchemaVersion,
    ]
}

/// The steps that make an empty store.
pub fn create_schema_tables() -> (steps: Vec<Step>)
    ensures
        views(steps@) == creation_steps(),
{
    let mut steps: Vec<Step> = Vec::new();
    steps.push(Step::CreateSchemaTable(SchemaTable::Meta));
    steps.push(Step::CreateSchemaTable(SchemaTable::Databases));
    steps.push(Step::CreateSchemaTable(SchemaTable::Fields));
    steps.push(Step::CreateSchemaTable(SchemaTable::Links));
    steps.push(Step::CreateSchemaTable(SchemaTable::Blobs));
    steps.push(Step::InsertSchemaVersion);
    assert(views(steps@) =~= creation_steps());
    steps
}

/// The step that takes a store from this version of the format to the next, if
/// there is one.
pub open spec fn migration_from(version: int) -> Option<StepView> {
    if version == 1 {
        Some(StepView::AddBlobFilename)
    } else if version == 2 {
        Some(StepView::AddCustomKindId)
    } else {
        None
    }
}

/// The step that takes a store from this version of the format to the next, if
/// there is one.
fn migration(version: i64) -> (step: Option<Step>)
    ensures
        view_of(step) == migration_from(version as int),
{
    if version == 1 {
        Some(Step::AddBlobFilename)
    } else if version == 2 {
        Some(Step::AddCustomKindId)
    } else {
        None
    }
}

/// The complaint about a version that this build does not know.
pub open spec fn unsupported_version(version: int) -> Seq<char> {
    "store schema version "@ + integer_text(version)
        + " is not supported by this build (expected "@ + integer_text(SCHEMA_VERSION as int)
}

/// What has to be done to bring a store of this version up to date: nothing
/// where it is; the migration of every version in between, in one go, and the
/// new version where it is older; or why it cannot be done.
pub open spec fn version_steps(version: int) -> core::result::Result<Seq<StepView>, ErrorView> {
    if version == SCHEMA_VERSION {
        Ok(Seq::empty())
    } else if version > SCHEMA_VERSION {
        Err(ErrorView::Storage(unsupported_version(version) + ")"@))
    } else if version < 1 {
        Err(
            ErrorView::Storage(
                unsupported_version(version) + ", no migration from "@ + integer_text(version)
                    + ")"@,
            ),
        )
    } else if version == 1 {
        Ok(
            seq![
                StepView::AddBlobFilename,
                StepView::AddCustomKindId,
                StepView::UpdateSchemaVersion,
            ],
        )
    } else {
        Ok(seq![StepView::AddCustomKindId, StepView::UpdateSchemaVersion])
    }
}

/// What has to be done to open a store that says this of its version.
pub open spec fn opening_steps(value: Seq<char>) -> core::result::Result<
    Seq<StepView>,
    ErrorView,
> {
    match integer_reading(value) {
        Some(version) => version_steps(version as int),
        None => Err(ErrorView::Storage("invalid schema_version value: "@ + value)),
    }
}

/// The complaint about a version that this build does not know, up to its end.
fn unsupported(version: i64) -> (text: String)
    ensures
        text@ == unsupported_version(version as int),
{
    "store schema version ".to_string()
        .concat(print_integer(version).as_str())
        .concat(" is not supported by this build (expected ")
        .concat(print_integer(SCHEMA_VERSION).as_str())
}

/// What has to be done to open a store whose version is written as `value`,
/// all of it in one transaction.
pub fn check_schema_version(value: &str) -> (steps: Result<Vec<Step>>)
    ensures
        match steps {
            Ok(steps) => opening_steps(value@) == Ok::<Seq<StepView>, ErrorView>(views(steps@)),
            Err(error) => opening_steps(value@) == Err::<Seq<StepView>, ErrorView>(error@),
        },
{
    let version: i64 = match read_integer(value) {
        Some(version) => version,
        None => {
            return Err(
                DataLineError::Storage(
                    "invalid schema_version value: ".to_string().concat(value),
                ),
            );
        },
    };
    let mut steps: Vec<Step> = Vec::new();
    if version == SCHEMA_VERSION {
        assert(views(steps@) =~= Seq::<StepView>::empty());
        return Ok(steps);
    }
    if version > SCHEMA_VERSION {
        return Err(DataLineError::Storage(unsupported(version).concat(")")));
    }
    let mut current: i64 = version;
    assert(views(steps@) =~= Seq::<StepView>::empty());
    while current < SCHEMA_VERSION
        invariant
            version <= current <= SCHEMA_VERSION,
            version < SCHEMA_VERSION,
            opening_steps(value@) == version_steps(version as int),
            current > version ==> version >= 1,
            views(steps@) == if version == 1 && current == 2 {
                seq![StepView::AddBlobFilename]
            } else if version == 1 && current == 3 {
                seq![StepView::AddBlobFilename, StepView::AddCustomKindId]
            } else if version == 2 && current == 3 {
                seq![StepView::AddCustomKindId]
            } else {
                Seq::empty()
            },
        decreases SCHEMA_VERSION - current,
    {
        match migration(current) {
            Some(step) => {
                proof {
                    views_push(steps@, step);
                }
                let ghost before = views(steps@);
                steps.push(step);
                assert(views(steps@) =~= before.push(step@));
                assert(version == 1 && current == 1 ==> views(steps@) =~= seq![
                    StepView::AddBlobFilename,
                ]);
                assert(version == 1 && current == 2 ==> views(steps@) =~= seq![
                    StepView::AddBlobFilename,
                    StepView::AddCustomKindId,
                ]);
                assert(version == 2 ==> views(steps@) =~= seq![StepView::AddCustomKindId]);
            },
            None => {
                return Err(
                    DataLineError::Storage(
                        unsupported(version)
                            .concat(", no migration from ")
                            .concat(print_integer(current).as_str())
                            .concat(")"),
                    ),
                );
            },
        }
        current += 1;
    }
    let ghost before = views(steps@);
    proof {
        views_push(steps@, Step::UpdateSchemaVersion);
    }
    steps.push(Step::UpdateSchemaVersion);
    assert(version == 1 ==> views(steps@) =~= version_steps(version as int)->Ok_0);
    assert(version == 2 ==> views(steps@) =~= version_steps(version as int)->Ok_0);
    Ok(steps)
}

/// A store that this build has just written opens without any change.
pub proof fn own_version_opens()
    ensures
        opening_steps(integer_text(SCHEMA_VERSION as int)) == Ok::<Seq<StepView>, ErrorView>(
            Seq::empty(),
        ),
{
    integer_text_reads_back(SCHEMA_VERSION);
}

/// Every version up to this build's can be brought up to date, and the steps
/// end by writing down this build's version.
pub proof fn older_versions_migrate(version: int)
    requires
        1 <= version < SCHEMA_VERSION,
    ensures
        version_steps(version) matches Ok(steps) && {
            &&& steps.len() == SCHEMA_VERSION - version + 1
            &&& steps.last() == StepView::UpdateSchemaVersion
            &&& forall|i: int|
                0 <= i < SCHEMA_VERSION - version ==> migration_from(version + i) == Some(
                    #[trigger] steps[i],
                )
        },
{
}

/// The row of a field as it was read.
#[derive(Debug)]
pub struct FieldRow {
    pub id: String,
    pub name: String,
    pub kind: String,
    pub selection_multi: Option<i64>,
    /// What was read of the JSON text of the options, where there is one.
    pub selection_options: Option<ReadOptions>,
    pub reference_target_database: Option<String>,
    pub reference_paired_field: Option<String>,
    pub custom_kind_id: Option<String>,
    pub ordering: i32,
}

/// The row of a field as it was read.
pub ghost struct FieldRowView {
    pub id: Seq<char>,
    pub name: Seq<char>,
    pub kind: EncodedKindView,
    pub options: Option<core::result::Result<Seq<SelectionOptionView>, Seq<char>>>,
    pub ordering: i32,
}

impl View for FieldRow {
    type V = FieldRowView;

    open spec fn view(&self) -> FieldRowView {
        FieldRowView {
            id: self.id@,
            name: self.name@,
            kind: EncodedKindView {
                kind_tag: self.kind@,
                selection_multi: self.selection_multi,
                selection_options: None,
                reference_target_database: view_of(self.reference_target_database),
                reference_paired_field: view_of(self.reference_paired_field),
                custom_kind_id: view_of(self.custom_kind_id),
            },
            options: options_read(self.selection_options),
            ordering: self.ordering,
        }
    }
}

/// The field that a row stands for, or what is wrong with it.
pub open spec fn loaded_field(row: FieldRowView) -> core::result::Result<FieldView, ErrorView> {
    match parsed_uuid(row.id) {
        Ok(id) => match decoded_kind(row.kind, row.options) {
            Ok(kind) => Ok(
                FieldView { id: FieldId(id), name: row.name, kind, ordering: row.ordering },
            ),
            Err(error) => Err(error),
        },
        Err(error) => Err(error),
    }
}

/// The fields that the rows stand for, or what is wrong with the first bad one.
pub open spec fn loaded_fields(rows: Seq<FieldRowView>) -> core::result::Result<
    Seq<FieldView>,
    ErrorView,
>
    decreases rows.len(),
{
    if rows.len() == 0 {
        Ok(Seq::empty())
    } else {
        match loaded_fields(rows.drop_last()) {
            Ok(fields) => match loaded_field(rows.last()) {
                Ok(field) => Ok(fields.push(field)),
                Err(error) => Err(error),
            },
            Err(error) => Err(error),
        }
    }
}

/// What is wrong with the first rows is wrong with all of them.
proof fn load_failure_stays(rows: Seq<FieldRowView>, n: int)
    requires
        0 <= n <= rows.len(),
        loaded_fields(rows.take(n)) is Err,
    ensures
        loaded_fields(rows) == loaded_fields(rows.take(n)),
    decreases rows.len() - n,
{
    if n == rows.len() {
        assert(rows.take(n) =~= rows);
    } else {
        assert(rows.take(n + 1).drop_last() =~= rows.take(n));
        load_failure_stays(rows, n + 1);
    }
}

/// A copy of what was read of a selection's options.
fn copy_read_options(options: &Option<ReadOptions>) -> (copy: Option<ReadOptions>)
    ensures
        options_read(copy) == options_read(*options),
{
    match options {
        Some(Ok(options)) => Some(Ok(copy_options(options))),
        Some(Err(message)) => Some(Err(message.clone())),
        None => None,
    }
}

/// The field that a row stands for.
fn load_field(row: &FieldRow) -> (field: Result<FieldDefinition>)
    ensures
        outcome(field) == loaded_field(row@),
{
    let id = match parse_uuid(row.id.as_str()) {
        Ok(id) => FieldId::from_uuid(id),
        Err(error) => {
            return Err(error);
        },
    };
    match decode_kind(
        row.kind.as_str(),
        row.selection_multi,
        copy_read_options(&row.selection_options),
        copy_text(&row.reference_target_database),
        copy_text(&row.reference_paired_field),
        copy_text(&row.custom_kind_id),
    ) {
        Ok(kind) => Ok(FieldDefinition { id, name: row.name.clone(), kind, ordering: row.ordering }),
        Err(error) => Err(error),
    }
}

/// The fields that the rows stand for, in the order of the rows.
pub fn load_fields(rows: &Vec<FieldRow>) -> (fields: Result<Vec<FieldDefinition>>)
    ensures
        match fields {
            Ok(fields) => loaded_fields(views(rows@)) == Ok::<Seq<FieldView>, ErrorView>(
                views(fields@),
            ),
            Err(error) => loaded_fields(views(rows@)) == Err::<Seq<FieldView>, ErrorView>(error@),
        },
{
    let ghost all = views(rows@);
    let mut fields: Vec<FieldDefinition> = Vec::new();
    let mut i: usize = 0;
    assert(views(fields@) =~= Seq::<FieldView>::empty());
    while i < rows.len()
        invariant
            i <= rows.len(),
            all == views(rows@),
            loaded_fields(all.take(i as int)) == Ok::<Seq<FieldView>, ErrorView>(views(fields@)),
        decreases rows.len() - i,
    {
        assert(all.take(i + 1).drop_last() =~= all.take(i as int));
        match load_field(&rows[i]) {
            Ok(field) => {
                proof {
                    views_push(fields@, field);
                }
                fields.push(field);
            },
            Err(error) => {
                proof {
                    load_failure_stays(all, i + 1);
                }
                return Err(error);
            },
        }
        i += 1;
    }
    assert(all.take(rows.len() as int) =~= all);
    Ok(fields)
}

/// The database that a row stands for, without its fields.
pub open spec fn loaded_database(row: (Seq<char>, Seq<char>)) -> core::result::Result<
    DatabaseView,
    ErrorView,
> {
    match parsed_uuid(row.0) {
        Ok(id) => Ok(DatabaseView { id: DatabaseId(id), name: row.1, fields: Seq::empty() }),
        Err(error) => Err(error),
    }
}

/// The databases that the rows stand for, without their fields, or what is
/// wrong with the first bad one.
pub open spec fn loaded_databases(rows: Seq<(Seq<char>, Seq<char>)>) -> core::result::Result<
    Seq<DatabaseView>,
    ErrorView,
>
    decreases rows.len(),
{
    if rows.len() == 0 {
        Ok(Seq::empty())
    } else {
        match loaded_databases(rows.drop_last()) {
            Ok(databases) => match loaded_database(rows.last()) {
                Ok(database) => Ok(databases.push(database)),
                Err(error) => Err(error),
            },
            Err(error) => Err(error),
        }
    }
}

proof fn database_failure_stays(rows: Seq<(Seq<char>, Seq<char>)>, n: int)
    requires
        0 <= n <= rows.len(),
        loaded_databases(rows.take(n)) is Err,
    ensures
        loaded_databases(rows) == loaded_databases(rows.take(n)),
    decreases rows.len() - n,
{
    if n == rows.len() {
        assert(rows.take(n) =~= rows);
    } else {
        assert(rows.take(n + 1).drop_last() =~= rows.take(n));
        database_failure_stays(rows, n + 1);
    }
}

/// The databases that the rows of ids and names stand for, without their
/// fields.
pub fn load_databases(rows: &Vec<(String, String)>) -> (databases: Result<Vec<Database>>)
    ensures
        match databases {
            Ok(databases) => loaded_databases(pairs_read(rows@)) == Ok::<
                Seq<DatabaseView>,
                ErrorView,
            >(views(databases@)),
            Err(error) => loaded_databases(pairs_read(rows@)) == Err::<
                Seq<DatabaseView>,
                ErrorView,
            >(error@),
        },
{
    let ghost all = pairs_read(rows@);
    let mut databases: Vec<Database> = Vec::new();
    let mut i: usize = 0;
    assert(views(databases@) =~= Seq::<DatabaseView>::empty());
    while i < rows.len()
        invariant
            i <= rows.len(),
            all == pairs_read(rows@),
            loaded_databases(all.take(i as int)) == Ok::<Seq<DatabaseView>, ErrorView>(
                views(databases@),
            ),
        decreases rows.len() - i,
    {
        assert(all.take(i + 1).drop_last() =~= all.take(i as int));
        match parse_uuid(rows[i].0.as_str()) {
            Ok(id) => {
                let database = Database {
                    id: DatabaseId::from_uuid(id),
                    name: rows[i].1.clone(),
                    fields: Vec::new(),
                };
                proof {
                    assert(views(database.fields@) =~= Seq::<FieldView>::empty());
                    views_push(databases@, database);
                }
                databases.push(database);
            },
            Err(error) => {
                proof {
                    database_failure_stays(all, i + 1);
                }
                return Err(error);
            },
        }
        i += 1;
    }
    assert(all.take(rows.len() as int) =~= all);
    Ok(databases)
}

/// Pairs of texts.
pub open spec fn pairs_read(rows: Seq<(String, String)>) -> Seq<(Seq<char>, Seq<char>)> {
    rows.map_values(|row: (String, String)| (row.0@, row.1@))
}

/// A registry of the databases that were loaded, each with its fields.
pub fn load_registry(databases: Vec<Database>) -> (registry: SchemaRegistry)
    ensures
        registry@ == collected(views(databases@)),
{
    SchemaRegistry::from_databases(databases)
}

/// The row that a field is stored as, where `json` is the JSON text of its
/// options and reads as them.
pub open spec fn stored_row(field: FieldView, json: Seq<char>) -> FieldRowView {
    FieldRowView {
        id: uuid_text(field.id.0),
        name: field.name,
        kind: EncodedKindView { selection_options: None, ..encoded_kind(field.kind, json) },
        options: match field.kind {
            FieldKindView::Selection { options, .. } => Some(Ok(options)),
            _ => None,
        },
        ordering: field.ordering,
    }
}

/// A stored field is loaded as what it was.
pub proof fn stored_field_loads(field: FieldView, json: Seq<char>)
    ensures
        loaded_field(stored_row(field, json)) == Ok::<FieldView, ErrorView>(field),
{
    uuid_text_reads_back(field.id.0);
    stored_kind_reads_back(field.kind, json);
}

/// The stored fields of a database are loaded as what they were, when their
/// rows are read in their order.
pub proof fn stored_fields_load(fields: Seq<FieldView>, json: spec_fn(FieldView) -> Seq<char>)
    ensures
        loaded_fields(
            fields.map_values(|field: FieldView| stored_row(field, json(field))),
        ) == Ok::<Seq<FieldView>, ErrorView>(fields),
    decreases fields.len(),
{
    let rows = fields.map_values(|field: FieldView| stored_row(field, json(field)));
    if fields.len() == 0 {
        assert(rows =~= Seq::empty());
        assert(fields =~= Seq::empty());
    } else {
        let rest = fields.drop_last();
        stored_fields_load(rest, json);
        assert(rows.drop_last() =~= rest.map_values(
            |field: FieldView| stored_row(field, json(field)),
        ));
        stored_field_loads(fields.last(), json(fields.last()));
        assert(rest.push(fields.last()) =~= fields);
    }
}

/// A stored database is loaded as what it was, before it has its fields.
pub proof fn stored_database_loads(id: DatabaseId, name: Seq<char>)
    ensures
        loaded_database((uuid_text(id.0), name)) == Ok::<DatabaseView, ErrorView>(
            DatabaseView { id, name, fields: Seq::empty() },
        ),
{
    uuid_text_reads_back(id.0);
}

/// Databases with ids of their own are held as they were loaded.
pub proof fn distinct_databases_are_held(databases: Seq<DatabaseView>)
    requires
        ids_distinct(databases),
    ensures
        collected(databases) == databases,
    decreases databases.len(),
{
    if databases.len() > 0 {
        let rest = databases.drop_last();
        assert(ids_distinct(rest)) by {
            assert forall|i: int, j: int| 0 <= i < j < rest.len() implies (#[trigger] rest[i]).id
                != (#[trigger] rest[j]).id by {
                assert(rest[i] == databases[i] && rest[j] == databases[j]);
            }
        }
        distinct_databases_are_held(rest);
        let last = databases.last();
        assert(!has_database(rest, last.id)) by {
            if has_database(rest, last.id) {
                let i = crate::registry::database_index(rest, last.id);
                assert(is_database(rest, last.id, i));
                assert(databases[i].id != databases[databases.len() - 1].id);
            }
        }
        assert(rest.push(last) =~= databases);
    }
}

} // verus!
