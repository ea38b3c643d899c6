//! The questions that the store asks its tables, and the SQL of each.

use vstd::prelude::*;
use vstd::string::StringExecFns;

use crate::ids::{DatabaseId, FieldId, Link};
use crate::naming::{
    column_of, column_of_side, database_table_name, field_column_name, opposite, other_side,
    reference_side, reference_table_name, reference_table_of, side_column, side_of, table_of,
};
use crate::sql::{SqlValue, SqlView, Statement, StatementView};
use crate::steps::{id_param, quote, quoted};
use crate::text::views;
use crate::uuids::print_uuid;

verus! {

/// One question to the tables.
#[derive(Debug)]
pub enum Query {
    /// How many tables have this name.
    TableCount { name: String },
    /// The version of the format that the store was written in.
    SchemaVersion,
    /// The id and name of every database.
    Databases,
    /// The fields of a database, in the order in which they were added.
    Fields { database_id: DatabaseId },
    /// The database that a record belongs to.
    DatabaseOf { link: Link },
    /// The times and the given columns of one record.
    RecordRow { database_id: DatabaseId, fields: Vec<FieldId>, link: Link },
    /// The link, the times and the given columns of every record of a
    /// database, the oldest first.
    RecordRows { database_id: DatabaseId, fields: Vec<FieldId> },
    /// The relationships that a record has through a field: their ids, and the
    /// records at the other end.
    References { field: FieldId, pair: FieldId, link: Link },
    /// Whether there is a blob with this hash.
    BlobExists { hash: String },
    /// The bytes of a blob.
    BlobBytes { hash: String },
    /// The filename of a blob.
    BlobFilename { hash: String },
    /// The link and the value of one field of every record of a database.
    FieldColumn { database_id: DatabaseId, field: FieldId },
}

/// One question to the tables.
pub ghost enum QueryView {
    TableCount { name: Seq<char> },
    SchemaVersion,
    Databases,
    Fields { database_id: DatabaseId },
    DatabaseOf { link: Link },
    RecordRow { database_id: DatabaseId, fields: Seq<FieldId>, link: Link },
    RecordRows { database_id: DatabaseId, fields: Seq<FieldId> },
    References { field: FieldId, pair: FieldId, link: Link },
    BlobExists { hash: Seq<char> },
    BlobBytes { hash: Seq<char> },
    BlobFilename { hash: Seq<char> },
    FieldColumn { database_id: DatabaseId, field: FieldId },
}

impl View for Query {
    type V = QueryView;

    open spec fn view(&self) -> QueryView {
        match self {
            Query::TableCount { name } => QueryView::TableCount { name: name@ },
            Query::SchemaVersion => QueryView::SchemaVersion,
            Query::Databases => QueryView::Databases,
            Query::Fields { database_id } => QueryView::Fields { database_id: *database_id },
            Query::DatabaseOf { link } => QueryView::DatabaseOf { link: *link },
            Query::RecordRow { database_id, fields, link } => QueryView::RecordRow {
                database_id: *database_id,
                fields: fields@,
                link: *link,
            },
            Query::RecordRows { database_id, fields } => QueryView::RecordRows {
                database_id: *database_id,
                fields: fields@,
            },
            Query::References { field, pair, link } => QueryView::References {
                field: *field,
                pair: *pair,
                link: *link,
            },
            Query::BlobExists { hash } => QueryView::BlobExists { hash: hash@ },
            Query::BlobBytes { hash } => QueryView::BlobBytes { hash: hash@ },
            Query::BlobFilename { hash } => QueryView::BlobFilename { hash: hash@ },
            Query::FieldColumn { database_id, field } => QueryView::FieldColumn {
                database_id: *database_id,
                field: *field,
            },
        }
    }
}

/// The quoted columns of the fields, each after a comma.
pub open spec fn more_columns(fields: Seq<FieldId>) -> Seq<char>
    decreases fields.len(),
{
    if fields.len() == 0 {
        Seq::empty()
    } else {
        more_columns(fields.drop_last()) + ", "@ + quoted(column_of(fields.last()))
    }
}

fn more_columns_text(fields: &Vec<FieldId>) -> (text: String)
    ensures
        text@ == more_columns(fields@),
{
    let mut text = String::new();
    let mut i: usize = 0;
    while i < fields.len()
        invariant
            i <= fields.len(),
            text@ == more_columns(fields@.take(i as int)),
        decreases fields.len() - i,
    {
        assert(fields@.take(i + 1).drop_last() =~= fields@.take(i as int));
        text.append(", ");
        text.append(quote(field_column_name(fields[i]).as_str()).as_str());
        i += 1;
    }
    assert(fields@.take(fields.len() as int) =~= fields@);
    text
}

/// The SQL of a question.
pub open spec fn query_sql(query: QueryView) -> Seq<char> {
    match query {
        QueryView::TableCount { .. } =>
            "SELECT count(*) FROM sqlite_master WHERE type = 'table' AND name = ?1"@,
        QueryView::SchemaVersion =>
            "SELECT value FROM _dataline_meta WHERE key = 'schema_version'"@,
        QueryView::Databases => "SELECT id, name FROM databases"@,
        QueryView::Fields { .. } =>
            "SELECT id, name, kind, selection_multi, selection_options, reference_target_database, reference_paired_field, custom_kind_id, ordering FROM fields WHERE database_id = ?1 ORDER BY rowid"@,
        QueryView::DatabaseOf { .. } => "SELECT database_id FROM links WHERE link = ?1"@,
        QueryView::RecordRow { database_id, fields, .. } => "SELECT created_at, updated_at"@
            + more_columns(fields) + " FROM "@ + quoted(table_of(database_id))
            + " WHERE link = ?1"@,
        QueryView::RecordRows { database_id, fields } => "SELECT link, created_at, updated_at"@
            + more_columns(fields) + " FROM "@ + quoted(table_of(database_id))
            + " ORDER BY created_at"@,
        QueryView::References { field, pair, .. } => "SELECT id, "@ + column_of_side(
            opposite(side_of(field, pair)),
        ) + " FROM "@ + quoted(reference_table_of(field, pair)) + " WHERE "@ + column_of_side(
            side_of(field, pair),
        ) + " = ?1"@,
        QueryView::BlobExists { .. } => "SELECT EXISTS(SELECT 1 FROM blobs WHERE hash = ?1)"@,
        QueryView::BlobBytes { .. } => "SELECT bytes FROM blobs WHERE hash = ?1"@,
        QueryView::BlobFilename { .. } => "SELECT filename FROM blobs WHERE hash = ?1"@,
        QueryView::FieldColumn { database_id, field } => "SELECT link, "@ + quoted(column_of(field))
            + " FROM "@ + quoted(table_of(database_id)),
    }
}

/// The parameters of a question.
pub open spec fn query_params(query: QueryView) -> Seq<SqlView> {
    match query {
        QueryView::TableCount { name } => seq![SqlView::Text(name)],
        QueryView::Fields { database_id } => seq![id_param(database_id.0)],
        QueryView::DatabaseOf { link } => seq![id_param(link.0)],
        QueryView::RecordRow { link, .. } => seq![id_param(link.0)],
        QueryView::References { link, .. } => seq![id_param(link.0)],
        QueryView::BlobExists { hash } => seq![SqlView::Text(hash)],
        QueryView::BlobBytes { hash } => seq![SqlView::Text(hash)],
        QueryView::BlobFilename { hash } => seq![SqlView::Text(hash)],
        _ => Seq::empty(),
    }
}

/// The statement of a question.
pub open spec fn query_statement(query: QueryView) -> StatementView {
    StatementView { sql: query_sql(query), params: query_params(query) }
}

fn no_params() -> (params: Vec<SqlValue>)
    ensures
        views(params@) == Seq::<SqlView>::empty(),
{
    let params: Vec<SqlValue> = Vec::new();
    assert(views(params@) =~= Seq::<SqlView>::empty());
    params
}

fn one_param(param: SqlValue) -> (params: Vec<SqlValue>)
    ensures
        views(params@) == seq![param@],
{
    let mut params: Vec<SqlValue> = Vec::new();
    params.push(param);
    assert(views(params@) =~= seq![param@]);
    params
}

impl Query {
    fn sql(&self) -> (sql: String)
        ensures
            sql@ == query_sql(self@),
    {
        match self {
            Query::TableCount { .. } =>
                "SELECT count(*) FROM sqlite_master WHERE type = 'table' AND name = ?1".to_string(),
            Query::SchemaVersion =>
                "SELECT value FROM _dataline_meta WHERE key = 'schema_version'".to_string(),
            Query::Databases => "SELECT id, name FROM databases".to_string(),
            Query::Fields { .. } =>
                "SELECT id, name, kind, selection_multi, selection_options, reference_target_database, reference_paired_field, custom_kind_id, ordering FROM fields WHERE database_id = ?1 ORDER BY rowid".to_string(),
            Query::DatabaseOf { .. } => "SELECT database_id FROM links WHERE link = ?1".to_string(),
            Query::RecordRow { database_id, fields, .. } =>
                "SELECT created_at, updated_at".to_string()
                .concat(more_columns_text(fields).as_str())
                .concat(" FROM ")
                .concat(quote(database_table_name(*database_id).as_str()).as_str())
                .concat(" WHERE link = ?1"),
            Query::RecordRows { database_id, fields } =>
                "SELECT link, created_at, updated_at".to_string()
                .concat(more_columns_text(fields).as_str())
                .concat(" FROM ")
                .concat(quote(database_table_name(*database_id).as_str()).as_str())
                .concat(" ORDER BY created_at"),
            Query::References { field, pair, .. } => {
                let side = reference_side(*field, *pair);
                "SELECT id, ".to_string()
                    .concat(side_column(other_side(side)))
                    .concat(" FROM ")
                    .concat(quote(reference_table_name(*field, *pair).as_str()).as_str())
                    .concat(" WHERE ")
                    .concat(side_column(side))
                    .concat(" = ?1")
            },
            Query::BlobExists { .. } =>
                "SELECT EXISTS(SELECT 1 FROM blobs WHERE hash = ?1)".to_string(),
            Query::BlobBytes { .. } => "SELECT bytes FROM blobs WHERE hash = ?1".to_string(),
            Query::BlobFilename { .. } => "SELECT filename FROM blobs WHERE hash = ?1".to_string(),
            Query::FieldColumn { database_id, field } => "SELECT link, ".to_string()
                .concat(quote(field_column_name(*field).as_str()).as_str())
                .concat(" FROM ")
                .concat(quote(database_table_name(*database_id).as_str()).as_str()),
        }
    }

    fn params(&self) -> (params: Vec<SqlValue>)
        ensures
            views(params@) == query_params(self@),
    {
        match self {
            Query::TableCount { name } => one_param(SqlValue::Text(name.clone())),
            Query::Fields { database_id } => one_param(SqlValue::Text(print_uuid(database_id.0))),
            Query::DatabaseOf { link } => one_param(SqlValue::Text(print_uuid(link.0))),
            Query::RecordRow { link, .. } => one_param(SqlValue::Text(print_uuid(link.0))),
            Query::References { link, .. } => one_param(SqlValue::Text(print_uuid(link.0))),
            Query::BlobExists { hash } => one_param(SqlValue::Text(hash.clone())),
            Query::BlobBytes { hash } => one_param(SqlValue::Text(hash.clone())),
            Query::BlobFilename { hash } => one_param(SqlValue::Text(hash.clone())),
            _ => no_params(),
        }
    }

    /// The statement of the question.
    pub fn statement(&self) -> (statement: Statement)
        ensures
            statement@ == query_statement(self@),
    {
        Statement { sql: self.sql(), params: self.params() }
    }
}

} // verus!
