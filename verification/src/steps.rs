//! The single changes that the store makes to its tables, and the SQL
//! statement of each.

use vstd::prelude::*;
use vstd::string::StringExecFns;

use crate::ids::{DatabaseId, FieldId, Link, ReferenceId};
use crate::kind::{encode_kind, encoded_kind, EncodedKindView};
use crate::naming::{
    column_of, column_of_side, database_table_name, field_column_name, reference_side,
    reference_table_name, reference_table_of, side_column, side_of, table_of, ReferenceSide,
};
use crate::record::copy_bytes;
use crate::schema::{FieldDefinition, FieldKind, FieldKindView, FieldView};
use crate::sql::{SqlValue, SqlView, Statement, StatementView};
use crate::text::{integer_text, print_integer, view_of, views, views_push};
use crate::uuids::uuid_text;

verus! {

/// The version of the store's format, as it is written down.
pub const SCHEMA_VERSION: i64 = 3;

/// One of the tables that every store has.
#[derive(Clone, Copy, Debug, PartialEq, Eq, Structural)]
pub enum SchemaTable {
    /// What the store says of itself.
    Meta,
    Databases,
    Fields,
    /// Which database each record belongs to.
    Links,
    Blobs,
}

/// One change to the tables.
#[allow(inconsistent_fields)]
#[derive(Debug)]
pub enum Step {
    /// Creates a table that every store has.
    CreateSchemaTable(SchemaTable),
    /// Writes the version of the format into a new store.
    InsertSchemaVersion,
    /// Writes the version of the format into a store that was brought up to
    /// it.
    UpdateSchemaVersion,
    /// Gives the blobs a filename.
    AddBlobFilename,
    /// Gives the fields the id of a plugin's kind.
    AddCustomKindId,
    InsertDatabase { id: DatabaseId, name: String },
    CreateRecordTable { id: DatabaseId },
    InsertField { database_id: DatabaseId, field: FieldDefinition },
    CreateReferenceTable { field: FieldId, pair: FieldId },
    CreateReferenceIndex { field: FieldId, pair: FieldId, side: ReferenceSide },
    AddColumn { database_id: DatabaseId, field: FieldId, sql_type: &'static str },
    UpdateField { field: FieldId, name: String, ordering: i32 },
    DeleteField { field: FieldId },
    DropReferenceTable { field: FieldId, pair: FieldId },
    DropColumn { database_id: DatabaseId, field: FieldId },
    DeleteLinksOf { database_id: DatabaseId },
    DeleteDatabase { id: DatabaseId },
    DropRecordTable { id: DatabaseId },
    /// Adds the column that takes a field's values while it is retyped.
    AddSpareColumn { database_id: DatabaseId, field: FieldId, sql_type: &'static str },
    /// Writes a value into the spare column of the record with this link.
    SetSpareValue { database_id: DatabaseId, field: FieldId, value: SqlValue, link: String },
    /// Puts the spare column in the place of the field's own.
    RenameSpareColumn { database_id: DatabaseId, field: FieldId },
    UpdateFieldKind { field: FieldId, kind: FieldKind },
    InsertLink { link: Link, database_id: DatabaseId },
    InsertRecord { database_id: DatabaseId, link: Link, now: String },
    SetValue { database_id: DatabaseId, field: FieldId, value: SqlValue, now: String, link: Link },
    /// Deletes the relationships that a record has through a field.
    DeleteReferencesOf { field: FieldId, pair: FieldId, link: Link },
    DeleteRecord { database_id: DatabaseId, link: Link },
    DeleteLink { link: Link },
    InsertReference { field: FieldId, pair: FieldId, id: ReferenceId, link_a: Link, link_b: Link },
    DeleteReference { field: FieldId, pair: FieldId, id: ReferenceId },
    /// Stores bytes under their hash, unless the hash is already there.
    InsertBlob { hash: String, bytes: Vec<u8>, filename: Option<String>, now: String },
}

/// One change to the tables.
#[allow(inconsistent_fields)]
pub ghost enum StepView {
    CreateSchemaTable(SchemaTable),
    InsertSchemaVersion,
    UpdateSchemaVersion,
    AddBlobFilename,
    AddCustomKindId,
    InsertDatabase { id: DatabaseId, name: Seq<char> },
    CreateRecordTable { id: DatabaseId },
    InsertField { database_id: DatabaseId, field: FieldView },
    CreateReferenceTable { field: FieldId, pair: FieldId },
    CreateReferenceIndex { field: FieldId, pair: FieldId, side: ReferenceSide },
    AddColumn { database_id: DatabaseId, field: FieldId, sql_type: Seq<char> },
    UpdateField { field: FieldId, name: Seq<char>, ordering: i32 },
    DeleteField { field: FieldId },
    DropReferenceTable { field: FieldId, pair: FieldId },
    DropColumn { database_id: DatabaseId, field: FieldId },
    DeleteLinksOf { database_id: DatabaseId },
    DeleteDatabase { id: DatabaseId },
    DropRecordTable { id: DatabaseId },
    AddSpareColumn { database_id: DatabaseId, field: FieldId, sql_type: Seq<char> },
    SetSpareValue { database_id: DatabaseId, field: FieldId, value: SqlView, link: Seq<char> },
    RenameSpareColumn { database_id: DatabaseId, field: FieldId },
    UpdateFieldKind { field: FieldId, kind: FieldKindView },
    InsertLink { link: Link, database_id: DatabaseId },
    InsertRecord { database_id: DatabaseId, link: Link, now: Seq<char> },
    SetValue { database_id: DatabaseId, field: FieldId, value: SqlView, now: Seq<char>, link: Link },
    DeleteReferencesOf { field: FieldId, pair: FieldId, link: Link },
    DeleteRecord { database_id: DatabaseId, link: Link },
    DeleteLink { link: Link },
    InsertReference { field: FieldId, pair: FieldId, id: ReferenceId, link_a: Link, link_b: Link },
    DeleteReference { field: FieldId, pair: FieldId, id: ReferenceId },
    InsertBlob { hash: Seq<char>, bytes: Seq<u8>, filename: Option<Seq<char>>, now: Seq<char> },
}

impl View for Step {
    type V = StepView;

    open spec fn view(&self) -> StepView {
        match self {
            Step::CreateSchemaTable(table) => StepView::CreateSchemaTable(*table),
            Step::InsertSchemaVersion => StepView::InsertSchemaVersion,
            Step::UpdateSchemaVersion => StepView::UpdateSchemaVersion,
            Step::AddBlobFilename => StepView::AddBlobFilename,
            Step::AddCustomKindId => StepView::AddCustomKindId,
            Step::InsertDatabase { id, name } => StepView::InsertDatabase { id: *id, name: name@ },
            Step::CreateRecordTable { id } => StepView::CreateRecordTable { id: *id },
            Step::InsertField { database_id, field } => StepView::InsertField {
                database_id: *database_id,
                field: field@,
            },
            Step::CreateReferenceTable { field, pair } => StepView::CreateReferenceTable {
                field: *field,
                pair: *pair,
            },
            Step::CreateReferenceIndex { field, pair, side } => StepView::CreateReferenceIndex {
                field: *field,
                pair: *pair,
                side: *side,
            },
            Step::AddColumn { database_id, field, sql_type } => StepView::AddColumn {
                database_id: *database_id,
                field: *field,
                sql_type: sql_type@,
            },
            Step::UpdateField { field, name, ordering } => StepView::UpdateField {
                field: *field,
                name: name@,
                ordering: *ordering,
            },
            Step::DeleteField { field } => StepView::DeleteField { field: *field },
            Step::DropReferenceTable { field, pair } => StepView::DropReferenceTable {
                field: *field,
                pair: *pair,
            },
            Step::DropColumn { database_id, field } => StepView::DropColumn {
                database_id: *database_id,
                field: *field,
            },
            Step::DeleteLinksOf { database_id } => StepView::DeleteLinksOf {
                database_id: *database_id,
            },
            Step::DeleteDatabase { id } => StepView::DeleteDatabase { id: *id },
            Step::DropRecordTable { id } => StepView::DropRecordTable { id: *id },
            Step::AddSpareColumn { database_id, field, sql_type } => StepView::AddSpareColumn {
                database_id: *database_id,
                field: *field,
                sql_type: sql_type@,
            },
            Step::SetSpareValue { database_id, field, value, link } => StepView::SetSpareValue {
                database_id: *database_id,
                field: *field,
                value: value@,
                link: link@,
            },
            Step::RenameSpareColumn { database_id, field } => StepView::RenameSpareColumn {
                database_id: *database_id,
                field: *field,
            },
            Step::UpdateFieldKind { field, kind } => StepView::UpdateFieldKind {
                field: *field,
                kind: kind@,
            },
            Step::InsertLink { link, database_id } => StepView::InsertLink {
                link: *link,
                database_id: *database_id,
            },
            Step::InsertRecord { database_id, link, now } => StepView::InsertRecord {
                database_id: *database_id,
                link: *link,
                now: now@,
            },
            Step::SetValue { database_id, field, value, now, link } => StepView::SetValue {
                database_id: *database_id,
                field: *field,
                value: value@,
                now: now@,
                link: *link,
            },
            Step::DeleteReferencesOf { field, pair, link } => StepView::DeleteReferencesOf {
                field: *field,
                pair: *pair,
                link: *link,
            },
            Step::DeleteRecord { database_id, link } => StepView::DeleteRecord {
                database_id: *database_id,
                link: *link,
            },
            Step::DeleteLink { link } => StepView::DeleteLink { link: *link },
            Step::InsertReference { field, pair, id, link_a, link_b } => StepView::InsertReference {
                field: *field,
                pair: *pair,
                id: *id,
                link_a: *link_a,
                link_b: *link_b,
            },
            Step::DeleteReference { field, pair, id } => StepView::DeleteReference {
                field: *field,
                pair: *pair,
                id: *id,
            },
            Step::InsertBlob { hash, bytes, filename, now } => StepView::InsertBlob {
                hash: hash@,
                bytes: bytes@,
                filename: view_of(*filename),
                now: now@,
            },
        }
    }
}

/// A name between double quotes.
pub open spec fn quoted(name: Seq<char>) -> Seq<char> {
    "\""@ + name + "\""@
}

/// A name between double quotes.
pub fn quote(name: &str) -> (text: String)
    ensures
        text@ == quoted(name@),
{
    "\"".to_string().concat(name).concat("\"")
}

/// The column that takes a field's values while it is retyped.
pub open spec fn spare_column_of(field: FieldId) -> Seq<char> {
    column_of(field) + "_retype_tmp"@
}

fn spare_column_name(field: FieldId) -> (name: String)
    ensures
        name@ == spare_column_of(field),
{
    field_column_name(field).concat("_retype_tmp")
}

/// A text, or null where there is none.
pub open spec fn optional_text(text: Option<Seq<char>>) -> SqlView {
    match text {
        Some(text) => SqlView::Text(text),
        None => SqlView::Null,
    }
}

fn optional_text_value(text: &Option<String>) -> (value: SqlValue)
    ensures
        value@ == optional_text(view_of(*text)),
{
    match text {
        Some(text) => SqlValue::Text(text.clone()),
        None => SqlValue::Null,
    }
}

/// An integer, or null where there is none.
pub open spec fn optional_integer(n: Option<i64>) -> SqlView {
    match n {
        Some(n) => SqlView::Integer(n),
        None => SqlView::Null,
    }
}

fn optional_integer_value(n: Option<i64>) -> (value: SqlValue)
    ensures
        value@ == optional_integer(n),
{
    match n {
        Some(n) => SqlValue::Integer(n),
        None => SqlValue::Null,
    }
}

/// The hyphenated text of an id as a parameter.
pub open spec fn id_param(id: u128) -> SqlView {
    SqlView::Text(uuid_text(id))
}

/// The SQL that creates a table that every store has.
pub open spec fn schema_table_sql(table: SchemaTable) -> Seq<char> {
    match table {
        SchemaTable::Meta =>
            "CREATE TABLE _dataline_meta (key TEXT PRIMARY KEY, value TEXT NOT NULL)"@,
        SchemaTable::Databases =>
            "CREATE TABLE databases (id TEXT PRIMARY KEY, name TEXT NOT NULL)"@,
        SchemaTable::Fields =>
            "CREATE TABLE fields (id TEXT PRIMARY KEY, database_id TEXT NOT NULL REFERENCES databases(id), name TEXT NOT NULL, kind TEXT NOT NULL, selection_multi INTEGER, selection_options TEXT, reference_target_database TEXT, reference_paired_field TEXT, custom_kind_id TEXT, ordering INTEGER NOT NULL)"@,
        SchemaTable::Links =>
            "CREATE TABLE links (link TEXT PRIMARY KEY, database_id TEXT NOT NULL REFERENCES databases(id))"@,
        SchemaTable::Blobs =>
            "CREATE TABLE blobs (hash TEXT PRIMARY KEY, bytes BLOB NOT NULL, filename TEXT, created_at TEXT NOT NULL)"@,
    }
}

fn schema_table_text(table: SchemaTable) -> (sql: String)
    ensures
        sql@ == schema_table_sql(table),
{
    match table {
        SchemaTable::Meta =>
            "CREATE TABLE _dataline_meta (key TEXT PRIMARY KEY, value TEXT NOT NULL)".to_string(),
        SchemaTable::Databases =>
            "CREATE TABLE databases (id TEXT PRIMARY KEY, name TEXT NOT NULL)".to_string(),
        SchemaTable::Fields =>
            "CREATE TABLE fields (id TEXT PRIMARY KEY, database_id TEXT NOT NULL REFERENCES databases(id), name TEXT NOT NULL, kind TEXT NOT NULL, selection_multi INTEGER, selection_options TEXT, reference_target_database TEXT, reference_paired_field TEXT, custom_kind_id TEXT, ordering INTEGER NOT NULL)".to_string(),
        SchemaTable::Links =>
            "CREATE TABLE links (link TEXT PRIMARY KEY, database_id TEXT NOT NULL REFERENCES databases(id))".to_string(),
        SchemaTable::Blobs =>
            "CREATE TABLE blobs (hash TEXT PRIMARY KEY, bytes BLOB NOT NULL, filename TEXT, created_at TEXT NOT NULL)".to_string(),
    }
}

/// The SQL of a step.
pub open spec fn sql_of(step: StepView) -> Seq<char> {
    match step {
        StepView::CreateSchemaTable(table) => schema_table_sql(table),
        StepView::InsertSchemaVersion =>
            "INSERT INTO _dataline_meta (key, value) VALUES ('schema_version', ?1)"@,
        StepView::UpdateSchemaVersion =>
            "UPDATE _dataline_meta SET value = ?1 WHERE key = 'schema_version'"@,
        StepView::AddBlobFilename => "ALTER TABLE blobs ADD COLUMN filename TEXT"@,
        StepView::AddCustomKindId => "ALTER TABLE fields ADD COLUMN custom_kind_id TEXT"@,
        StepView::InsertDatabase { .. } => "INSERT INTO databases (id, name) VALUES (?1, ?2)"@,
        StepView::CreateRecordTable { id } => "CREATE TABLE "@ + quoted(table_of(id))
            + " (link TEXT PRIMARY KEY, created_at TEXT NOT NULL, updated_at TEXT NOT NULL)"@,
        StepView::InsertField { .. } =>
            "INSERT INTO fields (id, database_id, name, kind, selection_multi, selection_options, reference_target_database, reference_paired_field, custom_kind_id, ordering) VALUES (?1, ?2, ?3, ?4, ?5, ?6, ?7, ?8, ?9, ?10)"@,
        StepView::CreateReferenceTable { field, pair } => "CREATE TABLE "@ + quoted(
            reference_table_of(field, pair),
        ) + " (id TEXT PRIMARY KEY, link_a TEXT NOT NULL, link_b TEXT NOT NULL)"@,
        StepView::CreateReferenceIndex { field, pair, side } => "CREATE INDEX "@ + quoted(
            reference_table_of(field, pair) + "_"@ + column_of_side(side),
        ) + " ON "@ + quoted(reference_table_of(field, pair)) + " ("@ + column_of_side(side) + ")"@,
        StepView::AddColumn { database_id, field, sql_type } => "ALTER TABLE "@ + quoted(
            table_of(database_id),
        ) + " ADD COLUMN "@ + quoted(column_of(field)) + " "@ + sql_type,
        StepView::UpdateField { .. } => "UPDATE fields SET name = ?1, ordering = ?2 WHERE id = ?3"@,
        StepView::DeleteField { .. } => "DELETE FROM fields WHERE id = ?1"@,
        StepView::DropReferenceTable { field, pair } => "DROP TABLE IF EXISTS "@ + quoted(
            reference_table_of(field, pair),
        ),
        StepView::DropColumn { database_id, field } => "ALTER TABLE "@ + quoted(
            table_of(database_id),
        ) + " DROP COLUMN "@ + quoted(column_of(field)),
        StepView::DeleteLinksOf { .. } => "DELETE FROM links WHERE database_id = ?1"@,
        StepView::DeleteDatabase { .. } => "DELETE FROM databases WHERE id = ?1"@,
        StepView::DropRecordTable { id } => "DROP TABLE IF EXISTS "@ + quoted(table_of(id)),
        StepView::AddSpareColumn { database_id, field, sql_type } => "ALTER TABLE "@ + quoted(
            table_of(database_id),
        ) + " ADD COLUMN "@ + quoted(spare_column_of(field)) + " "@ + sql_type,
        StepView::SetSpareValue { database_id, field, .. } => "UPDATE "@ + quoted(
            table_of(database_id),
        ) + " SET "@ + quoted(spare_column_of(field)) + " = ?1 WHERE link = ?2"@,
        StepView::RenameSpareColumn { database_id, field } => "ALTER TABLE "@ + quoted(
            table_of(database_id),
        ) + " RENAME COLUMN "@ + quoted(spare_column_of(field)) + " TO "@ + quoted(column_of(field)),
        StepView::UpdateFieldKind { .. } =>
            "UPDATE fields SET kind = ?1, selection_multi = ?2, selection_options = ?3, reference_target_database = ?4, reference_paired_field = ?5, custom_kind_id = ?6 WHERE id = ?7"@,
        StepView::InsertLink { .. } => "INSERT INTO links (link, database_id) VALUES (?1, ?2)"@,
        StepView::InsertRecord { database_id, .. } => "INSERT INTO "@ + quoted(
            table_of(database_id),
        ) + " (link, created_at, updated_at) VALUES (?1, ?2, ?2)"@,
        StepView::SetValue { database_id, field, .. } => "UPDATE "@ + quoted(table_of(database_id))
            + " SET "@ + quoted(column_of(field)) + " = ?1, updated_at = ?2 WHERE link = ?3"@,
        StepView::DeleteReferencesOf { field, pair, .. } => "DELETE FROM "@ + quoted(
            reference_table_of(field, pair),
        ) + " WHERE "@ + column_of_side(side_of(field, pair)) + " = ?1"@,
        StepView::DeleteRecord { database_id, .. } => "DELETE FROM "@ + quoted(
            table_of(database_id),
        ) + " WHERE link = ?1"@,
        StepView::DeleteLink { .. } => "DELETE FROM links WHERE link = ?1"@,
        StepView::InsertReference { field, pair, .. } => "INSERT INTO "@ + quoted(
            reference_table_of(field, pair),
        ) + " (id, link_a, link_b) VALUES (?1, ?2, ?3)"@,
        StepView::DeleteReference { field, pair, .. } => "DELETE FROM "@ + quoted(
            reference_table_of(field, pair),
        ) + " WHERE id = ?1"@,
        StepView::InsertBlob { .. } =>
            "INSERT OR IGNORE INTO blobs (hash, bytes, filename, created_at) VALUES (?1, ?2, ?3, ?4)"@,
    }
}

/// The parameters that store a kind.
pub open spec fn kind_params(kind: EncodedKindView) -> Seq<SqlView> {
    seq![
        SqlView::Text(kind.kind_tag),
        optional_integer(kind.selection_multi),
        optional_text(kind.selection_options),
        optional_text(kind.reference_target_database),
        optional_text(kind.reference_paired_field),
        optional_text(kind.custom_kind_id),
    ]
}

/// The parameters of a step, where `options_json` is the JSON text of the
/// options of the selection that it stores, if it stores one.
pub open spec fn params_of(step: StepView, options_json: Seq<char>) -> Seq<SqlView> {
    match step {
        StepView::InsertSchemaVersion => seq![SqlView::Text(integer_text(SCHEMA_VERSION as int))],
        StepView::UpdateSchemaVersion => seq![SqlView::Text(integer_text(SCHEMA_VERSION as int))],
        StepView::InsertDatabase { id, name } => seq![id_param(id.0), SqlView::Text(name)],
        StepView::InsertField { database_id, field } => seq![
            id_param(field.id.0),
            id_param(database_id.0),
            SqlView::Text(field.name),
        ] + kind_params(encoded_kind(field.kind, options_json)) + seq![
            SqlView::Integer(field.ordering as i64),
        ],
        StepView::UpdateField { field, name, ordering } => seq![
            SqlView::Text(name),
            SqlView::Integer(ordering as i64),
            id_param(field.0),
        ],
        StepView::DeleteField { field } => seq![id_param(field.0)],
        StepView::DeleteLinksOf { database_id } => seq![id_param(database_id.0)],
        StepView::DeleteDatabase { id } => seq![id_param(id.0)],
        StepView::SetSpareValue { value, link, .. } => seq![value, SqlView::Text(link)],
        StepView::UpdateFieldKind { field, kind } => kind_params(encoded_kind(kind, options_json))
            + seq![id_param(field.0)],
        StepView::InsertLink { link, database_id } => seq![
            id_param(link.0),
            id_param(database_id.0),
        ],
        StepView::InsertRecord { link, now, .. } => seq![id_param(link.0), SqlView::Text(now)],
        StepView::SetValue { value, now, link, .. } => seq![
            value,
            SqlView::Text(now),
            id_param(link.0),
        ],
        StepView::DeleteReferencesOf { link, .. } => seq![id_param(link.0)],
        StepView::DeleteRecord { link, .. } => seq![id_param(link.0)],
        StepView::DeleteLink { link } => seq![id_param(link.0)],
        StepView::InsertReference { id, link_a, link_b, .. } => seq![
            id_param(id.0),
            id_param(link_a.0),
            id_param(link_b.0),
        ],
        StepView::DeleteReference { id, .. } => seq![id_param(id.0)],
        StepView::InsertBlob { hash, bytes, filename, now } => seq![
            SqlView::Text(hash),
            SqlView::Blob(bytes),
            optional_text(filename),
            SqlView::Text(now),
        ],
        _ => Seq::empty(),
    }
}

/// Adds a parameter to a list.
fn add_param(params: &mut Vec<SqlValue>, param: SqlValue)
    ensures
        views(final(params)@) == views(old(params)@).push(param@),
{
    proof {
        views_push(params@, param);
    }
    params.push(param);
}

/// Adds the hyphenated text of an id to a list.
fn add_id(params: &mut Vec<SqlValue>, id: u128)
    ensures
        views(final(params)@) == views(old(params)@).push(id_param(id)),
{
    add_param(params, SqlValue::Text(crate::uuids::print_uuid(id)));
}

/// Adds a text to a list.
fn add_text(params: &mut Vec<SqlValue>, text: &str)
    ensures
        views(final(params)@) == views(old(params)@).push(SqlView::Text(text@)),
{
    add_param(params, SqlValue::Text(text.to_string()));
}

/// Adds what stores a kind to a list.
fn add_kind(params: &mut Vec<SqlValue>, kind: &FieldKind, options_json: &str)
    ensures
        views(final(params)@) == views(old(params)@) + kind_params(
            encoded_kind(kind@, options_json@),
        ),
{
    let encoded = encode_kind(kind, options_json);
    let ghost before = views(params@);
    add_text(params, encoded.kind_tag);
    add_param(params, optional_integer_value(encoded.selection_multi));
    add_param(params, optional_text_value(&encoded.selection_options));
    add_param(params, optional_text_value(&encoded.reference_target_database));
    add_param(params, optional_text_value(&encoded.reference_paired_field));
    add_param(params, optional_text_value(&encoded.custom_kind_id));
    assert(views(params@) =~= before + kind_params(encoded@));
}

/// The statement of a step, where `options_json` is the JSON text of the
/// options of the selection that it stores, if it stores one.
pub open spec fn statement_of(step: StepView, options_json: Seq<char>) -> StatementView {
    StatementView { sql: sql_of(step), params: params_of(step, options_json) }
}

impl Step {
    /// The kind that the step stores, if it stores one.
    pub open spec fn stored_kind(self) -> Option<FieldKind> {
        match self {
            Step::InsertField { field, .. } => Some(field.kind),
            Step::UpdateFieldKind { kind, .. } => Some(kind),
            _ => None,
        }
    }

    /// The kind that the step stores, if it stores one: where it is a
    /// selection, the statement needs the JSON text of its options.
    pub fn kind(&self) -> (kind: Option<&FieldKind>)
        ensures
            match kind {
                Some(kind) => self.stored_kind() == Some(*kind),
                None => self.stored_kind() is None,
            },
    {
        match self {
            Step::InsertField { field, .. } => Some(&field.kind),
            Step::UpdateFieldKind { kind, .. } => Some(kind),
            _ => None,
        }
    }

    /// The SQL of the step.
    fn sql(&self) -> (sql: String)
        ensures
            sql@ == sql_of(self@),
    {
        match self {
            Step::CreateSchemaTable(table) => schema_table_text(*table),
            Step::InsertSchemaVersion =>
                "INSERT INTO _dataline_meta (key, value) VALUES ('schema_version', ?1)".to_string(),
            Step::UpdateSchemaVersion =>
                "UPDATE _dataline_meta SET value = ?1 WHERE key = 'schema_version'".to_string(),
            Step::AddBlobFilename => "ALTER TABLE blobs ADD COLUMN filename TEXT".to_string(),
            Step::AddCustomKindId =>
                "ALTER TABLE fields ADD COLUMN custom_kind_id TEXT".to_string(),
            Step::InsertDatabase { .. } =>
                "INSERT INTO databases (id, name) VALUES (?1, ?2)".to_string(),
            Step::CreateRecordTable { id } => "CREATE TABLE ".to_string()
                .concat(quote(database_table_name(*id).as_str()).as_str())
                .concat(
                    " (link TEXT PRIMARY KEY, created_at TEXT NOT NULL, updated_at TEXT NOT NULL)",
                ),
            Step::InsertField { .. } =>
                "INSERT INTO fields (id, database_id, name, kind, selection_multi, selection_options, reference_target_database, reference_paired_field, custom_kind_id, ordering) VALUES (?1, ?2, ?3, ?4, ?5, ?6, ?7, ?8, ?9, ?10)".to_string(),
            Step::CreateReferenceTable { field, pair } => "CREATE TABLE ".to_string()
                .concat(quote(reference_table_name(*field, *pair).as_str()).as_str())
                .concat(" (id TEXT PRIMARY KEY, link_a TEXT NOT NULL, link_b TEXT NOT NULL)"),
            Step::CreateReferenceIndex { field, pair, side } => {
                let table = reference_table_name(*field, *pair);
                let column = side_column(*side);
                let index = table.clone().concat("_").concat(column);
                "CREATE INDEX ".to_string()
                    .concat(quote(index.as_str()).as_str())
                    .concat(" ON ")
                    .concat(quote(table.as_str()).as_str())
                    .concat(" (")
                    .concat(column)
                    .concat(")")
            },
            Step::AddColumn { database_id, field, sql_type } => "ALTER TABLE ".to_string()
                .concat(quote(database_table_name(*database_id).as_str()).as_str())
                .concat(" ADD COLUMN ")
                .concat(quote(field_column_name(*field).as_str()).as_str())
                .concat(" ")
                .concat(sql_type),
            Step::UpdateField { .. } =>
                "UPDATE fields SET name = ?1, ordering = ?2 WHERE id = ?3".to_string(),
            Step::DeleteField { .. } => "DELETE FROM fields WHERE id = ?1".to_string(),
            Step::DropReferenceTable { field, pair } => "DROP TABLE IF EXISTS ".to_string()
                .concat(quote(reference_table_name(*field, *pair).as_str()).as_str()),
            Step::DropColumn { database_id, field } => "ALTER TABLE ".to_string()
                .concat(quote(database_table_name(*database_id).as_str()).as_str())
                .concat(" DROP COLUMN ")
                .concat(quote(field_column_name(*field).as_str()).as_str()),
            Step::DeleteLinksOf { .. } => "DELETE FROM links WHERE database_id = ?1".to_string(),
            Step::DeleteDatabase { .. } => "DELETE FROM databases WHERE id = ?1".to_string(),
            Step::DropRecordTable { id } => "DROP TABLE IF EXISTS ".to_string()
                .concat(quote(database_table_name(*id).as_str()).as_str()),
            Step::AddSpareColumn { database_id, field, sql_type } => "ALTER TABLE ".to_string()
                .concat(quote(database_table_name(*database_id).as_str()).as_str())
                .concat(" ADD COLUMN ")
                .concat(quote(spare_column_name(*field).as_str()).as_str())
                .concat(" ")
                .concat(sql_type),
            Step::SetSpareValue { database_id, field, .. } => "UPDATE ".to_string()
                .concat(quote(database_table_name(*database_id).as_str()).as_str())
                .concat(" SET ")
                .concat(quote(spare_column_name(*field).as_str()).as_str())
                .concat(" = ?1 WHERE link = ?2"),
            Step::RenameSpareColumn { database_id, field } => "ALTER TABLE ".to_string()
                .concat(quote(database_table_name(*database_id).as_str()).as_str())
                .concat(" RENAME COLUMN ")
                .concat(quote(spare_column_name(*field).as_str()).as_str())
                .concat(" TO ")
                .concat(quote(field_column_name(*field).as_str()).as_str()),
            Step::UpdateFieldKind { .. } =>
                "UPDATE fields SET kind = ?1, selection_multi = ?2, selection_options = ?3, reference_target_database = ?4, reference_paired_field = ?5, custom_kind_id = ?6 WHERE id = ?7".to_string(),
            Step::InsertLink { .. } =>
                "INSERT INTO links (link, database_id) VALUES (?1, ?2)".to_string(),
            Step::InsertRecord { database_id, .. } => "INSERT INTO ".to_string()
                .concat(quote(database_table_name(*database_id).as_str()).as_str())
                .concat(" (link, created_at, updated_at) VALUES (?1, ?2, ?2)"),
            Step::SetValue { database_id, field, .. } => "UPDATE ".to_string()
                .concat(quote(database_table_name(*database_id).as_str()).as_str())
                .concat(" SET ")
                .concat(quote(field_column_name(*field).as_str()).as_str())
                .concat(" = ?1, updated_at = ?2 WHERE link = ?3"),
            Step::DeleteReferencesOf { field, pair, .. } => "DELETE FROM ".to_string()
                .concat(quote(reference_table_name(*field, *pair).as_str()).as_str())
                .concat(" WHERE ")
                .concat(side_column(reference_side(*field, *pair)))
                .concat(" = ?1"),
            Step::DeleteRecord { database_id, .. } => "DELETE FROM ".to_string()
                .concat(quote(database_table_name(*database_id).as_str()).as_str())
                .concat(" WHERE link = ?1"),
            Step::DeleteLink { .. } => "DELETE FROM links WHERE link = ?1".to_string(),
            Step::InsertReference { field, pair, .. } => "INSERT INTO ".to_string()
                .concat(quote(reference_table_name(*field, *pair).as_str()).as_str())
                .concat(" (id, link_a, link_b) VALUES (?1, ?2, ?3)"),
            Step::DeleteReference { field, pair, .. } => "DELETE FROM ".to_string()
                .concat(quote(reference_table_name(*field, *pair).as_str()).as_str())
                .concat(" WHERE id = ?1"),
            Step::InsertBlob { .. } =>
                "INSERT OR IGNORE INTO blobs (hash, bytes, filename, created_at) VALUES (?1, ?2, ?3, ?4)".to_string(),
        }
    }

    /// The parameters of the step.
    fn params(&self, options_json: &str) -> (params: Vec<SqlValue>)
        ensures
            views(params@) == params_of(self@, options_json@),
    {
        let mut params: Vec<SqlValue> = Vec::new();
        assert(views(params@) =~= Seq::<SqlView>::empty());
        match self {
            Step::InsertSchemaVersion => {
                add_text(&mut params, print_integer(SCHEMA_VERSION).as_str());
            },
            Step::UpdateSchemaVersion => {
                add_text(&mut params, print_integer(SCHEMA_VERSION).as_str());
            },
            Step::InsertDatabase { id, name } => {
                add_id(&mut params, id.0);
                add_text(&mut params, name.as_str());
            },
            Step::InsertField { database_id, field } => {
                add_id(&mut params, field.id.0);
                add_id(&mut params, database_id.0);
                add_text(&mut params, field.name.as_str());
                add_kind(&mut params, &field.kind, options_json);
                add_param(&mut params, SqlValue::Integer(field.ordering as i64));
            },
            Step::UpdateField { field, name, ordering } => {
                add_text(&mut params, name.as_str());
                add_param(&mut params, SqlValue::Integer(*ordering as i64));
                add_id(&mut params, field.0);
            },
            Step::DeleteField { field } => {
                add_id(&mut params, field.0);
            },
            Step::DeleteLinksOf { database_id } => {
                add_id(&mut params, database_id.0);
            },
            Step::DeleteDatabase { id } => {
                add_id(&mut params, id.0);
            },
            Step::SetSpareValue { value, link, .. } => {
                add_param(&mut params, value.clone());
                add_text(&mut params, link.as_str());
            },
            Step::UpdateFieldKind { field, kind } => {
                add_kind(&mut params, kind, options_json);
                add_id(&mut params, field.0);
            },
            Step::InsertLink { link, database_id } => {
                add_id(&mut params, link.0);
                add_id(&mut params, database_id.0);
            },
            Step::InsertRecord { link, now, .. } => {
                add_id(&mut params, link.0);
                add_text(&mut params, now.as_str());
            },
            Step::SetValue { value, now, link, .. } => {
                add_param(&mut params, value.clone());
                add_text(&mut params, now.as_str());
                add_id(&mut params, link.0);
            },
            Step::DeleteReferencesOf { link, .. } => {
                add_id(&mut params, link.0);
            },
            Step::DeleteRecord { link, .. } => {
                add_id(&mut params, link.0);
            },
            Step::DeleteLink { link } => {
                add_id(&mut params, link.0);
            },
            Step::InsertReference { id, link_a, link_b, .. } => {
                add_id(&mut params, id.0);
                add_id(&mut params, link_a.0);
                add_id(&mut params, link_b.0);
            },
            Step::DeleteReference { id, .. } => {
                add_id(&mut params, id.0);
            },
            Step::InsertBlob { hash, bytes, filename, now } => {
                add_text(&mut params, hash.as_str());
                add_param(&mut params, SqlValue::Blob(copy_bytes(bytes)));
                add_param(&mut params, optional_text_value(filename));
                add_text(&mut params, now.as_str());
            },
            _ => {},
        }
        assert(views(params@) =~= params_of(self@, options_json@));
        params
    }

    /// The statement of the step. `options_json` is the JSON text of the
    /// options of the selection that the step stores; where it stores none, it
    /// is not looked at.
    pub fn statement(&self, options_json: &str) -> (statement: Statement)
        ensures
            statement@ == statement_of(self@, options_json@),
    {
        Statement { sql: self.sql(), params: self.params(options_json) }
    }
}

} // verus!
