//! Which statement each step and each question is, with which values.

use vstd::prelude::*;

use crate::ids::{DatabaseId, FieldId, Link, ReferenceId};
use crate::kind::encoded_kind;
use crate::naming::ReferenceSide;
use crate::queries::{more_columns, query_statement, QueryView};
use crate::schema::{FieldDefinition, FieldKind, FieldKindView, FieldView};
use crate::sql::{SqlView, StatementView};
use crate::steps::{statement_of, SchemaTable, Step, StepView};
use crate::text::integer_text;
use crate::uuids::{simple_text, uuid_text};

verus! {

/// The quoted name of the table of a database's records.
pub open spec fn record_table(id: DatabaseId) -> Seq<char> {
    "\""@ + ("db_"@ + simple_text(id.0)) + "\""@
}

/// The quoted name of the column of a field.
pub open spec fn field_column(id: FieldId) -> Seq<char> {
    "\""@ + ("field_"@ + simple_text(id.0)) + "\""@
}

/// The quoted name of the column that takes a field's values meanwhile.
pub open spec fn spare_column(id: FieldId) -> Seq<char> {
    "\""@ + ("field_"@ + simple_text(id.0) + "_retype_tmp"@) + "\""@
}

/// The quoted name of the table of two paired fields, after the lower id.
pub open spec fn pair_table(a: FieldId, b: FieldId) -> Seq<char> {
    "\""@ + ("ref_"@ + simple_text(
        if a.0 <= b.0 {
            a.0
        } else {
            b.0
        },
    )) + "\""@
}

/// A text as a value.
pub open spec fn said(text: Seq<char>) -> SqlView {
    SqlView::Text(text)
}

/// The tables that every store has, and how its version is written.
pub proof fn store_statements(json: Seq<char>)
    ensures
        statement_of(StepView::CreateSchemaTable(SchemaTable::Meta), json).sql
            == "CREATE TABLE _dataline_meta (key TEXT PRIMARY KEY, value TEXT NOT NULL)"@,
        statement_of(StepView::CreateSchemaTable(SchemaTable::Databases), json).sql
            == "CREATE TABLE databases (id TEXT PRIMARY KEY, name TEXT NOT NULL)"@,
        statement_of(StepView::CreateSchemaTable(SchemaTable::Fields), json).sql
            == "CREATE TABLE fields (id TEXT PRIMARY KEY, database_id TEXT NOT NULL REFERENCES databases(id), name TEXT NOT NULL, kind TEXT NOT NULL, selection_multi INTEGER, selection_options TEXT, reference_target_database TEXT, reference_paired_field TEXT, custom_kind_id TEXT, ordering INTEGER NOT NULL)"@,
        statement_of(StepView::CreateSchemaTable(SchemaTable::Links), json).sql
            == "CREATE TABLE links (link TEXT PRIMARY KEY, database_id TEXT NOT NULL REFERENCES databases(id))"@,
        statement_of(StepView::CreateSchemaTable(SchemaTable::Blobs), json).sql
            == "CREATE TABLE blobs (hash TEXT PRIMARY KEY, bytes BLOB NOT NULL, filename TEXT, created_at TEXT NOT NULL)"@,
        statement_of(StepView::InsertSchemaVersion, json) == (StatementView {
            sql: "INSERT INTO _dataline_meta (key, value) VALUES ('schema_version', ?1)"@,
            params: seq![said(integer_text(3))],
        }),
        statement_of(StepView::UpdateSchemaVersion, json) == (StatementView {
            sql: "UPDATE _dataline_meta SET value = ?1 WHERE key = 'schema_version'"@,
            params: seq![said(integer_text(3))],
        }),
        statement_of(StepView::AddBlobFilename, json) == (StatementView {
            sql: "ALTER TABLE blobs ADD COLUMN filename TEXT"@,
            params: Seq::empty(),
        }),
        statement_of(StepView::AddCustomKindId, json) == (StatementView {
            sql: "ALTER TABLE fields ADD COLUMN custom_kind_id TEXT"@,
            params: Seq::empty(),
        }),
        forall|table: SchemaTable|
            (#[trigger] statement_of(StepView::CreateSchemaTable(table), json)).params.len() == 0,
{
}

/// How databases come and go: each step is of the one database alone.
pub proof fn database_statements(id: DatabaseId, name: Seq<char>, json: Seq<char>)
    ensures
        statement_of(StepView::InsertDatabase { id, name }, json) == (StatementView {
            sql: "INSERT INTO databases (id, name) VALUES (?1, ?2)"@,
            params: seq![said(uuid_text(id.0)), said(name)],
        }),
        statement_of(StepView::CreateRecordTable { id }, json) == (StatementView {
            sql: "CREATE TABLE "@ + record_table(id)
                + " (link TEXT PRIMARY KEY, created_at TEXT NOT NULL, updated_at TEXT NOT NULL)"@,
            params: Seq::empty(),
        }),
        statement_of(StepView::DeleteLinksOf { database_id: id }, json) == (StatementView {
            sql: "DELETE FROM links WHERE database_id = ?1"@,
            params: seq![said(uuid_text(id.0))],
        }),
        statement_of(StepView::DeleteDatabase { id }, json) == (StatementView {
            sql: "DELETE FROM databases WHERE id = ?1"@,
            params: seq![said(uuid_text(id.0))],
        }),
        statement_of(StepView::DropRecordTable { id }, json) == (StatementView {
            sql: "DROP TABLE IF EXISTS "@ + record_table(id),
            params: Seq::empty(),
        }),
{
}

/// How fields come, change and go: each step is of the one field alone, and a
/// kind is written with all that it carries.
pub proof fn field_statements(
    database_id: DatabaseId,
    field: FieldView,
    kind: FieldKindView,
    sql_type: Seq<char>,
    json: Seq<char>,
)
    ensures
        statement_of(StepView::InsertField { database_id, field }, json).sql
            == "INSERT INTO fields (id, database_id, name, kind, selection_multi, selection_options, reference_target_database, reference_paired_field, custom_kind_id, ordering) VALUES (?1, ?2, ?3, ?4, ?5, ?6, ?7, ?8, ?9, ?10)"@,
        ({
            let params = statement_of(StepView::InsertField { database_id, field }, json).params;
            let stored = encoded_kind(field.kind, json);
            &&& params.len() == 10
            &&& params[0] == said(uuid_text(field.id.0))
            &&& params[1] == said(uuid_text(database_id.0))
            &&& params[2] == said(field.name)
            &&& params[3] == said(stored.kind_tag)
            &&& params[4] == match stored.selection_multi {
                Some(n) => SqlView::Integer(n),
                None => SqlView::Null,
            }
            &&& params[5] == match stored.selection_options {
                Some(text) => said(text),
                None => SqlView::Null,
            }
            &&& params[6] == match stored.reference_target_database {
                Some(text) => said(text),
                None => SqlView::Null,
            }
            &&& params[7] == match stored.reference_paired_field {
                Some(text) => said(text),
                None => SqlView::Null,
            }
            &&& params[8] == match stored.custom_kind_id {
                Some(text) => said(text),
                None => SqlView::Null,
            }
            &&& params[9] == SqlView::Integer(field.ordering as i64)
        }),
        statement_of(StepView::UpdateFieldKind { field: field.id, kind }, json).sql
            == "UPDATE fields SET kind = ?1, selection_multi = ?2, selection_options = ?3, reference_target_database = ?4, reference_paired_field = ?5, custom_kind_id = ?6 WHERE id = ?7"@,
        ({
            let params = statement_of(
                StepView::UpdateFieldKind { field: field.id, kind },
                json,
            ).params;
            let other = FieldView { kind, ..field };
            let written = statement_of(
                StepView::InsertField { database_id, field: other },
                json,
            ).params;
            &&& params.len() == 7
            &&& params.subrange(0, 6) == written.subrange(3, 9)
            &&& params[6] == said(uuid_text(field.id.0))
        }),
        statement_of(
            StepView::UpdateField { field: field.id, name: field.name, ordering: field.ordering },
            json,
        ) == (StatementView {
            sql: "UPDATE fields SET name = ?1, ordering = ?2 WHERE id = ?3"@,
            params: seq![
                said(field.name),
                SqlView::Integer(field.ordering as i64),
                said(uuid_text(field.id.0)),
            ],
        }),
        statement_of(StepView::DeleteField { field: field.id }, json) == (StatementView {
            sql: "DELETE FROM fields WHERE id = ?1"@,
            params: seq![said(uuid_text(field.id.0))],
        }),
        statement_of(StepView::AddColumn { database_id, field: field.id, sql_type }, json) == (
        StatementView {
            sql: "ALTER TABLE "@ + record_table(database_id) + " ADD COLUMN "@ + field_column(
                field.id,
            ) + " "@ + sql_type,
            params: Seq::empty(),
        }),
        statement_of(StepView::DropColumn { database_id, field: field.id }, json) == (
        StatementView {
            sql: "ALTER TABLE "@ + record_table(database_id) + " DROP COLUMN "@ + field_column(
                field.id,
            ),
            params: Seq::empty(),
        }),
{
    let params = statement_of(StepView::UpdateFieldKind { field: field.id, kind }, json).params;
    let written = statement_of(
        StepView::InsertField { database_id, field: FieldView { kind, ..field } },
        json,
    ).params;
    assert(params.subrange(0, 6) =~= written.subrange(3, 9));
}

/// How a retype fills a spare column and puts it in the place of the old one.
pub proof fn retype_statements(
    database_id: DatabaseId,
    field: FieldId,
    sql_type: Seq<char>,
    value: SqlView,
    link: Seq<char>,
    json: Seq<char>,
)
    ensures
        statement_of(StepView::AddSpareColumn { database_id, field, sql_type }, json) == (
        StatementView {
            sql: "ALTER TABLE "@ + record_table(database_id) + " ADD COLUMN "@ + spare_column(field)
                + " "@ + sql_type,
            params: Seq::empty(),
        }),
        statement_of(StepView::SetSpareValue { database_id, field, value, link }, json) == (
        StatementView {
            sql: "UPDATE "@ + record_table(database_id) + " SET "@ + spare_column(field)
                + " = ?1 WHERE link = ?2"@,
            params: seq![value, said(link)],
        }),
        statement_of(StepView::RenameSpareColumn { database_id, field }, json) == (StatementView {
            sql: "ALTER TABLE "@ + record_table(database_id) + " RENAME COLUMN "@ + spare_column(
                field,
            ) + " TO "@ + field_column(field),
            params: Seq::empty(),
        }),
{
}

/// How records come, change and go: each step is of the one record alone. A new
/// record has the same time twice, and a change of a value is a change of its
/// second time too.
pub proof fn record_statements(
    database_id: DatabaseId,
    field: FieldId,
    value: SqlView,
    now: Seq<char>,
    link: Link,
    json: Seq<char>,
)
    ensures
        statement_of(StepView::InsertLink { link, database_id }, json) == (StatementView {
            sql: "INSERT INTO links (link, database_id) VALUES (?1, ?2)"@,
            params: seq![said(uuid_text(link.0)), said(uuid_text(database_id.0))],
        }),
        statement_of(StepView::InsertRecord { database_id, link, now }, json) == (StatementView {
            sql: "INSERT INTO "@ + record_table(database_id)
                + " (link, created_at, updated_at) VALUES (?1, ?2, ?2)"@,
            params: seq![said(uuid_text(link.0)), said(now)],
        }),
        statement_of(StepView::SetValue { database_id, field, value, now, link }, json) == (
        StatementView {
            sql: "UPDATE "@ + record_table(database_id) + " SET "@ + field_column(field)
                + " = ?1, updated_at = ?2 WHERE link = ?3"@,
            params: seq![value, said(now), said(uuid_text(link.0))],
        }),
        statement_of(StepView::DeleteRecord { database_id, link }, json) == (StatementView {
            sql: "DELETE FROM "@ + record_table(database_id) + " WHERE link = ?1"@,
            params: seq![said(uuid_text(link.0))],
        }),
        statement_of(StepView::DeleteLink { link }, json) == (StatementView {
            sql: "DELETE FROM links WHERE link = ?1"@,
            params: seq![said(uuid_text(link.0))],
        }),
{
}

/// The column of a field in its pair's table.
pub open spec fn own_column(field: FieldId, pair: FieldId) -> Seq<char> {
    if field.0 <= pair.0 {
        "link_a"@
    } else {
        "link_b"@
    }
}

/// How relationships come and go: in the one table of the two fields, by their
/// id, or by the column of the field through which they are all deleted.
pub proof fn reference_statements(
    field: FieldId,
    pair: FieldId,
    id: ReferenceId,
    link_a: Link,
    link_b: Link,
    json: Seq<char>,
)
    ensures
        statement_of(StepView::CreateReferenceTable { field, pair }, json) == (StatementView {
            sql: "CREATE TABLE "@ + pair_table(field, pair)
                + " (id TEXT PRIMARY KEY, link_a TEXT NOT NULL, link_b TEXT NOT NULL)"@,
            params: Seq::empty(),
        }),
        statement_of(
            StepView::CreateReferenceIndex { field, pair, side: ReferenceSide::A },
            json,
        ).sql == "CREATE INDEX "@ + ("\""@ + ("ref_"@ + simple_text(
            if field.0 <= pair.0 {
                field.0
            } else {
                pair.0
            },
        ) + "_"@ + "link_a"@) + "\""@) + " ON "@ + pair_table(field, pair) + " ("@ + "link_a"@
            + ")"@,
        statement_of(
            StepView::CreateReferenceIndex { field, pair, side: ReferenceSide::B },
            json,
        ).sql == "CREATE INDEX "@ + ("\""@ + ("ref_"@ + simple_text(
            if field.0 <= pair.0 {
                field.0
            } else {
                pair.0
            },
        ) + "_"@ + "link_b"@) + "\""@) + " ON "@ + pair_table(field, pair) + " ("@ + "link_b"@
            + ")"@,
        statement_of(StepView::DropReferenceTable { field, pair }, json) == (StatementView {
            sql: "DROP TABLE IF EXISTS "@ + pair_table(field, pair),
            params: Seq::empty(),
        }),
        statement_of(StepView::DeleteReferencesOf { field, pair, link: link_a }, json) == (
        StatementView {
            sql: "DELETE FROM "@ + pair_table(field, pair) + " WHERE "@ + own_column(field, pair)
                + " = ?1"@,
            params: seq![said(uuid_text(link_a.0))],
        }),
        statement_of(StepView::InsertReference { field, pair, id, link_a, link_b }, json) == (
        StatementView {
            sql: "INSERT INTO "@ + pair_table(field, pair)
                + " (id, link_a, link_b) VALUES (?1, ?2, ?3)"@,
            params: seq![
                said(uuid_text(id.0)),
                said(uuid_text(link_a.0)),
                said(uuid_text(link_b.0)),
            ],
        }),
        statement_of(StepView::DeleteReference { field, pair, id }, json) == (StatementView {
            sql: "DELETE FROM "@ + pair_table(field, pair) + " WHERE id = ?1"@,
            params: seq![said(uuid_text(id.0))],
        }),
{
}

/// How bytes are stored: once, under their hash, with the filename or none.
pub proof fn blob_statements(
    hash: Seq<char>,
    bytes: Seq<u8>,
    filename: Seq<char>,
    now: Seq<char>,
    json: Seq<char>,
)
    ensures
        statement_of(
            StepView::InsertBlob { hash, bytes, filename: Some(filename), now },
            json,
        ) == (StatementView {
            sql: "INSERT OR IGNORE INTO blobs (hash, bytes, filename, created_at) VALUES (?1, ?2, ?3, ?4)"@,
            params: seq![said(hash), SqlView::Blob(bytes), said(filename), said(now)],
        }),
        statement_of(StepView::InsertBlob { hash, bytes, filename: None, now }, json) == (
        StatementView {
            sql: "INSERT OR IGNORE INTO blobs (hash, bytes, filename, created_at) VALUES (?1, ?2, ?3, ?4)"@,
            params: seq![said(hash), SqlView::Blob(bytes), SqlView::Null, said(now)],
        }),
{
}

/// The steps that store a kind are those that write a field for the first time
/// and those that give it another kind.
pub proof fn two_steps_store_a_kind(
    database_id: DatabaseId,
    field: FieldDefinition,
    id: FieldId,
    kind: FieldKind,
    step: Step,
)
    ensures
        (Step::InsertField { database_id, field }).stored_kind() == Some(field.kind),
        (Step::UpdateFieldKind { field: id, kind }).stored_kind() == Some(kind),
        step !is InsertField && step !is UpdateFieldKind ==> step.stored_kind() is None,
{
}

/// What is asked of the tables that every store has.
pub proof fn store_questions(
    name: Seq<char>,
    database_id: DatabaseId,
    link: Link,
    hash: Seq<char>,
)
    ensures
        query_statement(QueryView::TableCount { name }) == (StatementView {
            sql: "SELECT count(*) FROM sqlite_master WHERE type = 'table' AND name = ?1"@,
            params: seq![said(name)],
        }),
        query_statement(QueryView::SchemaVersion) == (StatementView {
            sql: "SELECT value FROM _dataline_meta WHERE key = 'schema_version'"@,
            params: Seq::empty(),
        }),
        query_statement(QueryView::Databases) == (StatementView {
            sql: "SELECT id, name FROM databases"@,
            params: Seq::empty(),
        }),
        query_statement(QueryView::Fields { database_id }) == (StatementView {
            sql: "SELECT id, name, kind, selection_multi, selection_options, reference_target_database, reference_paired_field, custom_kind_id, ordering FROM fields WHERE database_id = ?1 ORDER BY rowid"@,
            params: seq![said(uuid_text(database_id.0))],
        }),
        query_statement(QueryView::DatabaseOf { link }) == (StatementView {
            sql: "SELECT database_id FROM links WHERE link = ?1"@,
            params: seq![said(uuid_text(link.0))],
        }),
        query_statement(QueryView::BlobExists { hash }) == (StatementView {
            sql: "SELECT EXISTS(SELECT 1 FROM blobs WHERE hash = ?1)"@,
            params: seq![said(hash)],
        }),
        query_statement(QueryView::BlobBytes { hash }) == (StatementView {
            sql: "SELECT bytes FROM blobs WHERE hash = ?1"@,
            params: seq![said(hash)],
        }),
        query_statement(QueryView::BlobFilename { hash }) == (StatementView {
            sql: "SELECT filename FROM blobs WHERE hash = ?1"@,
            params: seq![said(hash)],
        }),
{
}

/// What is asked of the records of a database, the oldest first, and of the
/// relationships of a record: the other column of the rows that have it in its
/// own.
pub proof fn record_questions(
    database_id: DatabaseId,
    fields: Seq<FieldId>,
    field: FieldId,
    pair: FieldId,
    link: Link,
)
    ensures
        query_statement(QueryView::RecordRow { database_id, fields, link }) == (StatementView {
            sql: "SELECT created_at, updated_at"@ + more_columns(fields) + " FROM "@
                + record_table(database_id) + " WHERE link = ?1"@,
            params: seq![said(uuid_text(link.0))],
        }),
        query_statement(QueryView::RecordRows { database_id, fields }) == (StatementView {
            sql: "SELECT link, created_at, updated_at"@ + more_columns(fields) + " FROM "@
                + record_table(database_id) + " ORDER BY created_at"@,
            params: Seq::empty(),
        }),
        query_statement(QueryView::FieldColumn { database_id, field }) == (StatementView {
            sql: "SELECT link, "@ + field_column(field) + " FROM "@ + record_table(database_id),
            params: Seq::empty(),
        }),
        query_statement(QueryView::References { field, pair, link }).params == seq![
            said(uuid_text(link.0)),
        ],
        field.0 <= pair.0 ==> query_statement(QueryView::References { field, pair, link }).sql
            == "SELECT id, "@ + "link_b"@ + " FROM "@ + pair_table(field, pair) + " WHERE "@
            + "link_a"@ + " = ?1"@,
        field.0 > pair.0 ==> query_statement(QueryView::References { field, pair, link }).sql
            == "SELECT id, "@ + "link_a"@ + " FROM "@ + pair_table(field, pair) + " WHERE "@
            + "link_b"@ + " = ?1"@,
        more_columns(Seq::empty()) == Seq::<char>::empty(),
        more_columns(fields.push(field)) == more_columns(fields) + ", "@ + field_column(field),
{
    assert(fields.push(field).drop_last() =~= fields);
}

} // verus!
