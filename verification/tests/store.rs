use std::collections::HashSet;

use dataline::blobs::{blob_written, bytes_query, exists_query, filename_query};
use dataline::date::Date;
use dataline::naming::{database_table_name, field_column_name, reference_table_name};
use dataline::number::Number;
use dataline::opening::{
    check_schema_version, create_schema_tables, load_databases, load_fields, load_registry, FieldRow,
};
use dataline::queries::Query;
use dataline::records::{blob_filename, database_query, value_set, Draft, ListedCells, ReadPlan, RecordCells};
use dataline::relations::reference_deleted;
use dataline::search::search_needle;
use dataline::sql::{Cell, SqlValue, Statement};
use dataline::steps::{Step, SCHEMA_VERSION};
use dataline::store::{Pending, RetypeRow};
use dataline::{
    BlobRef, DataLineError, Database, DatabaseId, FieldId, FieldKind, Link, Record, Reference, ReferenceId, Result,
    RetypeReport, SelectionOption, Value,
};
use rusqlite::{params_from_iter, Connection};

fn temp_store_path(dir: &tempfile::TempDir) -> std::path::PathBuf {
    dir.path().join("store.sqlite")
}

fn number(n: f64) -> Value {
    Value::Number(Number::from_bits(n.to_bits()))
}

fn value(record: &Record, field: FieldId) -> Value {
    record.values.get(&field).unwrap().clone()
}

fn storage(error: impl ToString) -> DataLineError {
    DataLineError::Storage(error.to_string())
}

fn options_json(options: &[SelectionOption]) -> String {
    let list = options
        .iter()
        .map(|option| {
            let mut object = serde_json::Map::new();
            object.insert("name".to_string(), serde_json::Value::String(option.name.clone()));
            object.insert("color".to_string(), serde_json::Value::String(option.color.clone()));
            serde_json::Value::Object(object)
        })
        .collect();
    serde_json::Value::Array(list).to_string()
}

fn read_options(json: &str) -> std::result::Result<Vec<SelectionOption>, String> {
    let list: Vec<std::collections::HashMap<String, String>> =
        serde_json::from_str(json).map_err(|error| error.to_string())?;
    Ok(list
        .into_iter()
        .map(|object| SelectionOption { name: object["name"].clone(), color: object["color"].clone() })
        .collect())
}

fn to_sqlite(value: &SqlValue) -> rusqlite::types::Value {
    match value {
        SqlValue::Null => rusqlite::types::Value::Null,
        SqlValue::Integer(n) => rusqlite::types::Value::Integer(*n),
        SqlValue::Real(number) => rusqlite::types::Value::Real(f64::from_bits(number.to_bits())),
        SqlValue::Text(text) => rusqlite::types::Value::Text(text.clone()),
        SqlValue::Blob(bytes) => rusqlite::types::Value::Blob(bytes.clone()),
    }
}

fn from_sqlite(value: rusqlite::types::Value) -> Cell {
    let shown = format!("{value:?}");
    let (value, nearest) = match value {
        rusqlite::types::Value::Null => (SqlValue::Null, 0.0),
        rusqlite::types::Value::Integer(n) => (SqlValue::Integer(n), n as f64),
        rusqlite::types::Value::Real(n) => (SqlValue::Real(Number::from_bits(n.to_bits())), n),
        rusqlite::types::Value::Text(text) => (SqlValue::Text(text), 0.0),
        rusqlite::types::Value::Blob(bytes) => (SqlValue::Blob(bytes), 0.0),
    };
    Cell { value, nearest: Number::from_bits(nearest.to_bits()), shown }
}

fn execute(conn: &Connection, step: &Step) -> Result<usize> {
    let json = match step.kind() {
        Some(FieldKind::Selection { options, .. }) => options_json(options),
        _ => String::new(),
    };
    let Statement { sql, params } = step.statement(&json);
    conn.execute(&sql, params_from_iter(params.iter().map(to_sqlite))).map_err(storage)
}

fn execute_all(conn: &mut Connection, steps: &[Step]) -> Result<()> {
    let tx = conn.transaction().map_err(storage)?;
    for step in steps {
        execute(&tx, step)?;
    }
    tx.commit().map_err(storage)
}

/// Every row of a query's answer.
fn ask(conn: &Connection, query: &Query) -> Result<Vec<Vec<Cell>>> {
    let Statement { sql, params } = query.statement();
    let mut stmt = conn.prepare(&sql).map_err(storage)?;
    let width = stmt.column_count();
    let mut rows = stmt.query(params_from_iter(params.iter().map(to_sqlite))).map_err(storage)?;
    let mut answer = Vec::new();
    while let Some(row) = rows.next().map_err(storage)? {
        let mut cells = Vec::new();
        for i in 0..width {
            cells.push(from_sqlite(row.get(i).map_err(storage)?));
        }
        answer.push(cells);
    }
    Ok(answer)
}

fn text(cell: &Cell) -> Option<String> {
    match &cell.value {
        SqlValue::Text(text) => Some(text.clone()),
        _ => None,
    }
}

fn integer(cell: &Cell) -> Option<i64> {
    match &cell.value {
        SqlValue::Integer(n) => Some(*n),
        _ => None,
    }
}

fn table_exists(conn: &Connection, name: &str) -> Result<bool> {
    let rows = ask(conn, &Query::TableCount { name: name.to_string() })?;
    Ok(dataline::opening::table_exists(integer(&rows[0][0]).unwrap()))
}

fn table_columns(conn: &Connection, table: &str) -> Vec<String> {
    let mut stmt = conn.prepare(&format!("PRAGMA table_info(\"{table}\")")).unwrap();
    stmt.query_map([], |row| row.get::<_, String>(1)).unwrap().map(|r| r.unwrap()).collect()
}

fn field_row(cells: &[Cell]) -> FieldRow {
    FieldRow {
        id: text(&cells[0]).unwrap(),
        name: text(&cells[1]).unwrap(),
        kind: text(&cells[2]).unwrap(),
        selection_multi: integer(&cells[3]),
        selection_options: text(&cells[4]).map(|json| read_options(&json)),
        reference_target_database: text(&cells[5]),
        reference_paired_field: text(&cells[6]),
        custom_kind_id: text(&cells[7]),
        ordering: integer(&cells[8]).unwrap() as i32,
    }
}

/// A store whose plans are carried out on an SQLite file.
struct Store {
    conn: Connection,
    core: dataline::Store,
    clock: std::cell::Cell<u32>,
}

impl Store {
    fn open<P: AsRef<std::path::Path>>(path: P) -> Result<Self> {
        let mut conn = Connection::open(path).map_err(storage)?;
        conn.pragma_update(None, "foreign_keys", true).map_err(storage)?;
        if table_exists(&conn, "_dataline_meta")? {
            let rows = ask(&conn, &Query::SchemaVersion)?;
            let steps = check_schema_version(&text(&rows[0][0]).unwrap())?;
            execute_all(&mut conn, &steps)?;
        } else {
            execute_all(&mut conn, &create_schema_tables())?;
        }
        let rows: Vec<(String, String)> = ask(&conn, &Query::Databases)?
            .iter()
            .map(|cells| (text(&cells[0]).unwrap(), text(&cells[1]).unwrap()))
            .collect();
        let mut databases = load_databases(&rows)?;
        for database in &mut databases {
            let rows = ask(&conn, &Query::Fields { database_id: database.id })?;
            database.fields = load_fields(&rows.iter().map(|cells| field_row(cells)).collect())?;
        }
        let core = dataline::Store::open(load_registry(databases));
        Ok(Store { conn, core, clock: std::cell::Cell::new(0) })
    }

    /// A time later than every one before.
    fn now(&self) -> String {
        let second = self.clock.get();
        self.clock.set(second + 1);
        format!("2024-05-06T{:02}:{:02}:{:02}.000000500+00:00", second / 3600, second / 60 % 60, second % 60)
    }

    fn settle<T>(&mut self, pending: Pending<T>) -> Result<T> {
        let persisted = match execute_all(&mut self.conn, pending.steps()) {
            Ok(()) => Ok(()),
            Err(DataLineError::Storage(message)) => Err(message),
            Err(other) => panic!("expected Storage error, got {other:?}"),
        };
        self.core.settle(pending, persisted)
    }

    fn get_database(&self, id: DatabaseId) -> Result<&Database> {
        self.core.get_database(id)
    }

    fn create_database(&mut self, name: &str) -> Result<DatabaseId> {
        let pending = self.core.create_database(name);
        self.settle(pending)
    }

    fn add_field(&mut self, database_id: DatabaseId, name: &str, kind: FieldKind) -> Result<FieldId> {
        let pending = self.core.add_field(database_id, name, kind)?;
        self.settle(pending)
    }

    fn rename_field(&mut self, database_id: DatabaseId, field_id: FieldId, name: &str) -> Result<()> {
        let pending = self.core.rename_field(database_id, field_id, name)?;
        self.settle(pending)
    }

    fn remove_field(&mut self, database_id: DatabaseId, field_id: FieldId) -> Result<()> {
        let pending = self.core.remove_field(database_id, field_id)?;
        self.settle(pending)
    }

    fn delete_database(&mut self, database_id: DatabaseId) -> Result<()> {
        let pending = self.core.delete_database(database_id)?;
        self.settle(pending)
    }

    fn duplicate_database_schema(&mut self, database_id: DatabaseId, name: &str) -> Result<DatabaseId> {
        let pending = self.core.duplicate_database_schema(database_id, name)?;
        self.settle(pending)
    }

    fn retype_field(&mut self, database_id: DatabaseId, field_id: FieldId, kind: FieldKind) -> Result<RetypeReport> {
        let plan = self.core.plan_retype(database_id, field_id, &kind)?;
        let mut rows = Vec::new();
        for mut cells in ask(&self.conn, &plan.query())? {
            let cell = cells.pop().unwrap();
            let read = plan
                .number_text(&cell)
                .and_then(|text| text.parse::<f64>().ok())
                .map(|n| Number::from_bits(n.to_bits()));
            let printed =
                plan.number(&cell).map(|n| f64::from_bits(n.to_bits()).to_string()).unwrap_or_default();
            rows.push(RetypeRow { link: text(&cells[0]).unwrap(), cell, read, printed });
        }
        let pending = self.core.retype_field(database_id, field_id, kind, &rows)?;
        self.settle(pending)
    }

    fn create_record(&mut self, database_id: DatabaseId) -> Result<Link> {
        let (link, steps) = self.core.create_record(database_id, &self.now())?;
        execute_all(&mut self.conn, &steps)?;
        Ok(link)
    }

    fn database_row(&self, link: Link) -> Result<Option<String>> {
        Ok(ask(&self.conn, &database_query(link))?.first().map(|cells| text(&cells[0]).unwrap()))
    }

    fn filename(&self, hash: &str) -> Result<Option<String>> {
        Ok(blob_filename(ask(&self.conn, &filename_query(hash))?.first().map(|cells| text(&cells[0]))))
    }

    fn finish(&self, plan: &ReadPlan, draft: Draft) -> Result<Record> {
        let mut filenames = Vec::new();
        for (field, hash) in draft.blobs() {
            filenames.push((field, self.filename(&hash)?));
        }
        let mut references = Vec::new();
        for field in plan.references() {
            references.push((*field, self.list_references(draft.link, *field)?));
        }
        Ok(draft.finish(plan.database_id(), &filenames, &references))
    }

    fn get_record(&self, link: Link) -> Result<Record> {
        let plan = self.core.get_record(link, &self.database_row(link)?)?;
        let row = ask(&self.conn, &plan.row_query(link))?.pop().map(|mut cells| {
            let values = cells.split_off(2);
            RecordCells { created_at: text(&cells[0]).unwrap(), updated_at: text(&cells[1]).unwrap(), cells: values }
        });
        let draft = plan.get(link, &row)?;
        self.finish(&plan, draft)
    }

    fn list_records(&self, database_id: DatabaseId) -> Result<Vec<Record>> {
        let plan = self.core.list_records(database_id)?;
        let rows: Vec<ListedCells> = ask(&self.conn, &plan.rows_query())?
            .into_iter()
            .map(|mut cells| {
                let values = cells.split_off(3);
                ListedCells {
                    link: text(&cells[0]).unwrap(),
                    row: RecordCells {
                        created_at: text(&cells[1]).unwrap(),
                        updated_at: text(&cells[2]).unwrap(),
                        cells: values,
                    },
                }
            })
            .collect();
        let drafts = plan.list(&rows)?;
        drafts.into_iter().map(|draft| self.finish(&plan, draft)).collect()
    }

    fn set_value(&mut self, link: Link, field_id: FieldId, value: Value) -> Result<()> {
        let row = self.database_row(link)?;
        let blob_exists = match self.core.blob_to_check(link, field_id, &value, &row)? {
            Some(blob) => integer(&ask(&self.conn, &exists_query(&blob))?[0][0]).unwrap() != 0,
            None => false,
        };
        let step = self.core.set_value(link, field_id, &value, &row, blob_exists, &self.now())?;
        value_set(link, execute(&self.conn, &step)?)
    }

    fn delete_record(&mut self, link: Link) -> Result<()> {
        let steps = self.core.delete_record(link, &self.database_row(link)?)?;
        execute_all(&mut self.conn, &steps)
    }

    fn create_reference(&mut self, source: Link, field: FieldId, target: Link) -> Result<Reference> {
        let (reference, step) =
            self.core.create_reference(source, field, target, &self.database_row(source)?, &self.database_row(target)?)?;
        execute(&self.conn, &step)?;
        Ok(reference)
    }

    fn delete_reference(&mut self, id: ReferenceId, field: FieldId) -> Result<()> {
        let step = self.core.delete_reference(id, field)?;
        reference_deleted(id, execute(&self.conn, &step)?)
    }

    fn list_references(&self, link: Link, field: FieldId) -> Result<Vec<Reference>> {
        let plan = self.core.list_references(link, field, &self.database_row(link)?)?;
        let rows = ask(&self.conn, &plan.query())?
            .iter()
            .map(|cells| (text(&cells[0]).unwrap(), text(&cells[1]).unwrap()))
            .collect();
        plan.references(&rows)
    }

    fn related_records(&self, link: Link) -> Result<Vec<Link>> {
        let row = self.database_row(link)?;
        let mut lists = Vec::new();
        for field in self.core.relating_fields(link, &row)? {
            lists.push(self.list_references(link, field)?);
        }
        self.core.related_records(link, &row, &lists)
    }

    fn find_by_value(&self, database_id: DatabaseId, field_id: FieldId, value: Value) -> Result<Vec<Record>> {
        self.core.check_searchable(database_id, field_id)?;
        self.core.find_by_value(database_id, field_id, &value, &self.list_records(database_id)?)
    }

    fn search_text(&self, database_id: DatabaseId, query: &str) -> Result<Vec<Record>> {
        let records = match search_needle(query) {
            None => Vec::new(),
            Some(_) => self.list_records(database_id)?,
        };
        self.core.search_text(database_id, query, &records)
    }

    fn write_blob(&mut self, bytes: &[u8], filename: Option<&str>) -> Result<BlobRef> {
        let (hash, step) = self.core.write_blob(bytes, filename, &self.now());
        execute(&self.conn, &step)?;
        Ok(blob_written(&hash, self.filename(&hash)?))
    }

    fn read_blob(&self, blob: &BlobRef) -> Result<Vec<u8>> {
        let row = ask(&self.conn, &bytes_query(blob))?.pop().map(|mut cells| match cells.pop().unwrap().value {
            SqlValue::Blob(bytes) => bytes,
            other => panic!("expected bytes, got {other:?}"),
        });
        self.core.read_blob(blob, row)
    }
}

#[test]
fn create_record_starts_empty() {
    let dir = tempfile::tempdir().unwrap();
    let mut store = Store::open(temp_store_path(&dir)).unwrap();
    let card = store.create_database("Card").unwrap();
    let name_field = store.add_field(card, "Name", FieldKind::Text).unwrap();

    let link = store.create_record(card).unwrap();
    let record = store.get_record(link).unwrap();

    assert_eq!(record.link, link);
    assert_eq!(record.database_id, card);
    assert_eq!(record.values.get(&name_field), Some(&Value::Empty));
    assert_eq!(record.created_at, record.updated_at);
}

#[test]
fn set_value_round_trips_every_scalar_kind() {
    let dir = tempfile::tempdir().unwrap();
    let mut store = Store::open(temp_store_path(&dir)).unwrap();
    let card = store.create_database("Card").unwrap();

    let text_field = store.add_field(card, "Name", FieldKind::Text).unwrap();
    let number_field = store.add_field(card, "Cost", FieldKind::Number).unwrap();
    let bool_field = store.add_field(card, "Active", FieldKind::Boolean).unwrap();
    let date_field = store.add_field(card, "Released", FieldKind::Date).unwrap();
    let selection_field =
        store.add_field(card, "Rarity", FieldKind::Selection { multi: false, options: vec![] }).unwrap();

    let link = store.create_record(card).unwrap();
    store.set_value(link, text_field, Value::Text("Fireball".into())).unwrap();
    store.set_value(link, number_field, number(3.0)).unwrap();
    store.set_value(link, bool_field, Value::Boolean(true)).unwrap();
    store.set_value(link, date_field, Value::Date(Date::from_ymd_opt(2024, 1, 15).unwrap())).unwrap();
    store.set_value(link, selection_field, Value::Selection(vec!["Rare".to_string()])).unwrap();

    let record = store.get_record(link).unwrap();
    assert_eq!(value(&record, text_field), Value::Text("Fireball".into()));
    assert_eq!(value(&record, number_field), number(3.0));
    assert_eq!(value(&record, bool_field), Value::Boolean(true));
    assert_eq!(value(&record, date_field), Value::Date(Date::from_ymd_opt(2024, 1, 15).unwrap()));
    assert_eq!(value(&record, selection_field), Value::Selection(vec!["Rare".to_string()]));
    assert!(record.updated_at >= record.created_at);
}

#[test]
fn set_value_round_trips_json() {
    let dir = tempfile::tempdir().unwrap();
    let mut store = Store::open(temp_store_path(&dir)).unwrap();
    let card = store.create_database("Card").unwrap();
    let field = store.add_field(card, "Style", FieldKind::Json).unwrap();
    let link = store.create_record(card).unwrap();

    store.set_value(link, field, Value::Json(r##"{"kind":"gradient","stops":["#fff","#000"]}"##.into())).unwrap();

    let record = store.get_record(link).unwrap();
    assert_eq!(value(&record, field), Value::Json(r##"{"kind":"gradient","stops":["#fff","#000"]}"##.into()));
}

#[test]
fn set_value_rejects_malformed_json() {
    let dir = tempfile::tempdir().unwrap();
    let mut store = Store::open(temp_store_path(&dir)).unwrap();
    let card = store.create_database("Card").unwrap();
    let field = store.add_field(card, "Style", FieldKind::Json).unwrap();
    let link = store.create_record(card).unwrap();

    let err = store.set_value(link, field, Value::Json("not json".into())).unwrap_err();
    assert!(matches!(err, DataLineError::Storage(_)));
}

#[test]
fn json_field_persists_across_reopen() {
    let dir = tempfile::tempdir().unwrap();
    let path = temp_store_path(&dir);
    let card;
    let field;
    let link;
    {
        let mut store = Store::open(&path).unwrap();
        card = store.create_database("Card").unwrap();
        field = store.add_field(card, "Style", FieldKind::Json).unwrap();
        link = store.create_record(card).unwrap();
        store.set_value(link, field, Value::Json(r#"{"a":1}"#.into())).unwrap();
    }
    let store = Store::open(&path).unwrap();
    assert_eq!(value(&store.get_record(link).unwrap(), field), Value::Json(r#"{"a":1}"#.into()));
}

#[test]
fn set_value_round_trips_custom() {
    let dir = tempfile::tempdir().unwrap();
    let mut store = Store::open(temp_store_path(&dir)).unwrap();
    let card = store.create_database("Card").unwrap();
    let field = store
        .add_field(card, "Track", FieldKind::Custom { kind_id: "com.myline.music".into() })
        .unwrap();
    let link = store.create_record(card).unwrap();

    store
        .set_value(
            link,
            field,
            Value::Custom { kind_id: "com.myline.music".into(), data: vec![1, 2, 3, 4] },
        )
        .unwrap();

    let record = store.get_record(link).unwrap();
    assert_eq!(
        value(&record, field),
        Value::Custom { kind_id: "com.myline.music".into(), data: vec![1, 2, 3, 4] }
    );
}

#[test]
fn set_value_rejects_custom_kind_id_mismatch() {
    let dir = tempfile::tempdir().unwrap();
    let mut store = Store::open(temp_store_path(&dir)).unwrap();
    let card = store.create_database("Card").unwrap();
    let field = store
        .add_field(card, "Track", FieldKind::Custom { kind_id: "com.myline.music".into() })
        .unwrap();
    let link = store.create_record(card).unwrap();

    let err = store
        .set_value(link, field, Value::Custom { kind_id: "com.myline.image".into(), data: vec![9] })
        .unwrap_err();
    assert!(matches!(err, DataLineError::ValueKindMismatch { .. }));
}

#[test]
fn custom_field_persists_across_reopen() {
    let dir = tempfile::tempdir().unwrap();
    let path = temp_store_path(&dir);
    let card;
    let field;
    let link;
    {
        let mut store = Store::open(&path).unwrap();
        card = store.create_database("Card").unwrap();
        field = store
            .add_field(card, "Track", FieldKind::Custom { kind_id: "com.myline.music".into() })
            .unwrap();
        link = store.create_record(card).unwrap();
        store
            .set_value(
                link,
                field,
                Value::Custom { kind_id: "com.myline.music".into(), data: vec![5, 6, 7] },
            )
            .unwrap();
    }
    let store = Store::open(&path).unwrap();
    assert_eq!(
        store.get_database(card).unwrap().field(field).unwrap().kind,
        FieldKind::Custom { kind_id: "com.myline.music".into() }
    );
    assert_eq!(
        value(&store.get_record(link).unwrap(), field),
        Value::Custom { kind_id: "com.myline.music".into(), data: vec![5, 6, 7] }
    );
}

#[test]
fn set_value_round_trips_custom_blob() {
    let dir = tempfile::tempdir().unwrap();
    let mut store = Store::open(temp_store_path(&dir)).unwrap();
    let card = store.create_database("Card").unwrap();
    let field = store
        .add_field(card, "Track", FieldKind::CustomBlob { kind_id: "com.myline.music.value".into() })
        .unwrap();
    let link = store.create_record(card).unwrap();
    let blob_ref = store.write_blob(b"fake audio bytes", Some("song.mp3")).unwrap();

    store
        .set_value(
            link,
            field,
            Value::CustomBlob { kind_id: "com.myline.music.value".into(), blob: blob_ref.clone() },
        )
        .unwrap();

    let record = store.get_record(link).unwrap();
    assert_eq!(
        value(&record, field),
        Value::CustomBlob { kind_id: "com.myline.music.value".into(), blob: blob_ref }
    );
}

#[test]
fn set_value_rejects_custom_blob_kind_id_mismatch() {
    let dir = tempfile::tempdir().unwrap();
    let mut store = Store::open(temp_store_path(&dir)).unwrap();
    let card = store.create_database("Card").unwrap();
    let field = store
        .add_field(card, "Track", FieldKind::CustomBlob { kind_id: "com.myline.music.value".into() })
        .unwrap();
    let link = store.create_record(card).unwrap();
    let blob_ref = store.write_blob(b"fake audio bytes", None).unwrap();

    let err = store
        .set_value(link, field, Value::CustomBlob { kind_id: "com.myline.image.value".into(), blob: blob_ref })
        .unwrap_err();
    assert!(matches!(err, DataLineError::ValueKindMismatch { .. }));
}

/// A CustomBlob value pointing at a hash that was never written is caught the
/// same way an ordinary dangling `Blob` is.
#[test]
fn set_value_rejects_dangling_custom_blob_reference() {
    let dir = tempfile::tempdir().unwrap();
    let mut store = Store::open(temp_store_path(&dir)).unwrap();
    let card = store.create_database("Card").unwrap();
    let field = store
        .add_field(card, "Track", FieldKind::CustomBlob { kind_id: "com.myline.music.value".into() })
        .unwrap();
    let link = store.create_record(card).unwrap();
    let bogus = BlobRef::from_hash("not-a-real-hash");

    let err = store
        .set_value(link, field, Value::CustomBlob { kind_id: "com.myline.music.value".into(), blob: bogus.clone() })
        .unwrap_err();
    assert_eq!(err, DataLineError::BlobNotFound(bogus));
}

/// Proves the actual point of `CustomBlob` over `Custom`: the blob
/// table stays the single source of truth for the bytes — two
/// `CustomBlob` values pointing at identical content share one blob
/// row, same content-addressed dedup `Blob` fields already get, and
/// the filename set on first write survives being read back through a
/// completely different field/record.
#[test]
fn custom_blob_shares_content_addressed_storage_with_blob() {
    let dir = tempfile::tempdir().unwrap();
    let mut store = Store::open(temp_store_path(&dir)).unwrap();
    let card = store.create_database("Card").unwrap();
    let field = store
        .add_field(card, "Track", FieldKind::CustomBlob { kind_id: "com.myline.music.value".into() })
        .unwrap();
    let a = store.create_record(card).unwrap();
    let b = store.create_record(card).unwrap();

    let first = store.write_blob(b"same bytes", Some("first-name.mp3")).unwrap();
    let second = store.write_blob(b"same bytes", Some("second-name.mp3")).unwrap();
    assert_eq!(first.hash(), second.hash(), "identical content must dedupe to the same hash");

    store
        .set_value(a, field, Value::CustomBlob { kind_id: "com.myline.music.value".into(), blob: first })
        .unwrap();
    store
        .set_value(b, field, Value::CustomBlob { kind_id: "com.myline.music.value".into(), blob: second })
        .unwrap();

    let Value::CustomBlob { blob: a_blob, .. } = value(&store.get_record(a).unwrap(), field) else {
        panic!("expected a CustomBlob value");
    };
    assert_eq!(a_blob.filename(), Some("first-name.mp3"), "dedup keeps whichever filename was stored first");
}

#[test]
fn custom_blob_field_persists_across_reopen() {
    let dir = tempfile::tempdir().unwrap();
    let path = temp_store_path(&dir);
    let card;
    let field;
    let link;
    let blob_ref;
    {
        let mut store = Store::open(&path).unwrap();
        card = store.create_database("Card").unwrap();
        field = store
            .add_field(card, "Track", FieldKind::CustomBlob { kind_id: "com.myline.music.value".into() })
            .unwrap();
        link = store.create_record(card).unwrap();
        blob_ref = store.write_blob(b"reopen bytes", Some("reopen.mp3")).unwrap();
        store
            .set_value(
                link,
                field,
                Value::CustomBlob { kind_id: "com.myline.music.value".into(), blob: blob_ref.clone() },
            )
            .unwrap();
    }
    let store = Store::open(&path).unwrap();
    assert_eq!(
        store.get_database(card).unwrap().field(field).unwrap().kind,
        FieldKind::CustomBlob { kind_id: "com.myline.music.value".into() }
    );
    assert_eq!(
        value(&store.get_record(link).unwrap(), field),
        Value::CustomBlob { kind_id: "com.myline.music.value".into(), blob: blob_ref }
    );
}

#[test]
fn set_value_can_clear_back_to_empty() {
    let dir = tempfile::tempdir().unwrap();
    let mut store = Store::open(temp_store_path(&dir)).unwrap();
    let card = store.create_database("Card").unwrap();
    let field = store.add_field(card, "Name", FieldKind::Text).unwrap();
    let link = store.create_record(card).unwrap();

    store.set_value(link, field, Value::Text("Fireball".into())).unwrap();
    store.set_value(link, field, Value::Empty).unwrap();

    assert_eq!(value(&store.get_record(link).unwrap(), field), Value::Empty);
}

#[test]
fn set_value_rejects_kind_mismatch() {
    let dir = tempfile::tempdir().unwrap();
    let mut store = Store::open(temp_store_path(&dir)).unwrap();
    let card = store.create_database("Card").unwrap();
    let field = store.add_field(card, "Name", FieldKind::Text).unwrap();
    let link = store.create_record(card).unwrap();

    let err = store.set_value(link, field, number(1.0)).unwrap_err();
    assert_eq!(err, DataLineError::ValueKindMismatch { field, expected: "text" });
}

#[test]
fn set_value_rejects_reference_field() {
    let dir = tempfile::tempdir().unwrap();
    let mut store = Store::open(temp_store_path(&dir)).unwrap();
    let card = store.create_database("Card").unwrap();
    let balance = store.create_database("Balance change").unwrap();
    let ref_field = store
        .add_field(card, "Balance change", FieldKind::Reference { target_database: balance, paired_field: None })
        .unwrap();
    let link = store.create_record(card).unwrap();

    let err = store.set_value(link, ref_field, Value::Reference(vec![])).unwrap_err();
    assert_eq!(err, DataLineError::UnsupportedFieldKindForValue { field: ref_field, kind: "reference" });
}

#[test]
fn write_blob_then_read_blob_round_trips() {
    let dir = tempfile::tempdir().unwrap();
    let mut store = Store::open(temp_store_path(&dir)).unwrap();

    let blob_ref = store.write_blob(b"pretend this is a texture", None).unwrap();
    let bytes = store.read_blob(&blob_ref).unwrap();

    assert_eq!(bytes, b"pretend this is a texture");
}

#[test]
fn write_blob_is_content_addressed() {
    let dir = tempfile::tempdir().unwrap();
    let mut store = Store::open(temp_store_path(&dir)).unwrap();

    let a = store.write_blob(b"same bytes", None).unwrap();
    let b = store.write_blob(b"same bytes", None).unwrap();
    let c = store.write_blob(b"different bytes", None).unwrap();

    assert_eq!(a, b, "identical content must produce the identical handle");
    assert_ne!(a, c);

    let count: i64 =
        store.conn.query_row("SELECT count(*) FROM blobs", [], |row| row.get(0)).unwrap();
    assert_eq!(count, 2, "writing the same content twice must not duplicate the row");
}

#[test]
fn write_blob_stores_and_returns_filename() {
    let dir = tempfile::tempdir().unwrap();
    let mut store = Store::open(temp_store_path(&dir)).unwrap();

    let blob_ref = store.write_blob(b"song bytes", Some("track.mp3")).unwrap();
    assert_eq!(blob_ref.filename(), Some("track.mp3"));
}

#[test]
fn write_blob_same_content_keeps_first_filename() {
    let dir = tempfile::tempdir().unwrap();
    let mut store = Store::open(temp_store_path(&dir)).unwrap();

    let first = store.write_blob(b"same bytes", Some("first.mp3")).unwrap();
    let second = store.write_blob(b"same bytes", Some("second.mp3")).unwrap();

    assert_eq!(first.filename(), Some("first.mp3"));
    assert_eq!(second.filename(), Some("first.mp3"), "content dedup keeps whichever filename was written first");
}

#[test]
fn blob_filename_round_trips_through_get_record() {
    let dir = tempfile::tempdir().unwrap();
    let mut store = Store::open(temp_store_path(&dir)).unwrap();
    let db = store.create_database("Card").unwrap();
    let field = store.add_field(db, "Art", FieldKind::Blob).unwrap();
    let link = store.create_record(db).unwrap();

    let blob_ref = store.write_blob(b"art bytes", Some("art.png")).unwrap();
    store.set_value(link, field, Value::Blob(blob_ref)).unwrap();

    let record = store.get_record(link).unwrap();
    match value(&record, field) {
        Value::Blob(blob_ref) => assert_eq!(blob_ref.filename(), Some("art.png")),
        other => panic!("expected Blob, got {other:?}"),
    }
}

#[test]
fn read_blob_missing_errors() {
    let dir = tempfile::tempdir().unwrap();
    let store = Store::open(temp_store_path(&dir)).unwrap();

    let bogus = BlobRef::from_hash("not-a-real-hash");
    assert_eq!(store.read_blob(&bogus).unwrap_err(), DataLineError::BlobNotFound(bogus));
}

#[test]
fn set_value_on_blob_field_round_trips_through_get_record() {
    let dir = tempfile::tempdir().unwrap();
    let mut store = Store::open(temp_store_path(&dir)).unwrap();
    let card = store.create_database("Card").unwrap();
    let artwork_field = store.add_field(card, "Artwork", FieldKind::Blob).unwrap();
    let link = store.create_record(card).unwrap();

    let blob_ref = store.write_blob(b"pretend artwork bytes", None).unwrap();
    store.set_value(link, artwork_field, Value::Blob(blob_ref.clone())).unwrap();

    let record = store.get_record(link).unwrap();
    assert_eq!(value(&record, artwork_field), Value::Blob(blob_ref.clone()));

    let Value::Blob(stored_ref) = value(&record, artwork_field) else { panic!("expected a Blob value") };
    assert_eq!(store.read_blob(&stored_ref).unwrap(), b"pretend artwork bytes");
}

#[test]
fn set_value_on_blob_field_rejects_non_blob_value() {
    let dir = tempfile::tempdir().unwrap();
    let mut store = Store::open(temp_store_path(&dir)).unwrap();
    let card = store.create_database("Card").unwrap();
    let artwork_field = store.add_field(card, "Artwork", FieldKind::Blob).unwrap();
    let link = store.create_record(card).unwrap();

    let err = store.set_value(link, artwork_field, Value::Text("not a blob".into())).unwrap_err();
    assert_eq!(err, DataLineError::ValueKindMismatch { field: artwork_field, expected: "blob" });
}

#[test]
fn set_value_on_blob_field_rejects_a_hash_that_was_never_written() {
    let dir = tempfile::tempdir().unwrap();
    let mut store = Store::open(temp_store_path(&dir)).unwrap();
    let card = store.create_database("Card").unwrap();
    let artwork_field = store.add_field(card, "Artwork", FieldKind::Blob).unwrap();
    let link = store.create_record(card).unwrap();

    // BlobRef::from_hash exists precisely so a value round-tripped through
    // an external boundary (e.g. FFI) can be reconstructed — which also
    // means it's not itself proof the hash was ever written. That check
    // has to happen here, at the point of use.
    let fabricated = BlobRef::from_hash("not-a-real-hash");
    let err = store.set_value(link, artwork_field, Value::Blob(fabricated.clone())).unwrap_err();
    assert_eq!(err, DataLineError::BlobNotFound(fabricated));
}

#[test]
fn find_by_value_matches_records_sharing_the_same_blob() {
    let dir = tempfile::tempdir().unwrap();
    let mut store = Store::open(temp_store_path(&dir)).unwrap();
    let card = store.create_database("Card").unwrap();
    let artwork_field = store.add_field(card, "Artwork", FieldKind::Blob).unwrap();

    let blob_ref = store.write_blob(b"shared texture", None).unwrap();
    let a = store.create_record(card).unwrap();
    store.set_value(a, artwork_field, Value::Blob(blob_ref.clone())).unwrap();
    let b = store.create_record(card).unwrap();
    store.set_value(b, artwork_field, Value::Blob(blob_ref.clone())).unwrap();
    let c = store.create_record(card).unwrap();
    let other_blob = store.write_blob(b"other texture", None).unwrap();
    store.set_value(c, artwork_field, Value::Blob(other_blob)).unwrap();

    let matches = store.find_by_value(card, artwork_field, Value::Blob(blob_ref)).unwrap();
    let links: HashSet<Link> = matches.into_iter().map(|r| r.link).collect();
    assert_eq!(links, HashSet::from([a, b]));
}

#[test]
fn blobs_persist_across_reopen() {
    let dir = tempfile::tempdir().unwrap();
    let path = temp_store_path(&dir);

    let (card, link, field, blob_ref) = {
        let mut store = Store::open(&path).unwrap();
        let card = store.create_database("Card").unwrap();
        let field = store.add_field(card, "Artwork", FieldKind::Blob).unwrap();
        let link = store.create_record(card).unwrap();
        let blob_ref = store.write_blob(b"persisted bytes", None).unwrap();
        store.set_value(link, field, Value::Blob(blob_ref.clone())).unwrap();
        (card, link, field, blob_ref)
    };

    let reopened = Store::open(&path).unwrap();
    assert_eq!(reopened.read_blob(&blob_ref).unwrap(), b"persisted bytes");
    let record = reopened.get_record(link).unwrap();
    assert_eq!(record.database_id, card);
    assert_eq!(value(&record, field), Value::Blob(blob_ref));
}

#[test]
fn set_value_on_missing_record_errors() {
    let dir = tempfile::tempdir().unwrap();
    let mut store = Store::open(temp_store_path(&dir)).unwrap();
    let card = store.create_database("Card").unwrap();
    let field = store.add_field(card, "Name", FieldKind::Text).unwrap();

    let missing = Link::new();
    let err = store.set_value(missing, field, Value::Text("x".into())).unwrap_err();
    assert_eq!(err, DataLineError::RecordNotFound(missing));
}

#[test]
fn get_record_missing_errors() {
    let dir = tempfile::tempdir().unwrap();
    let store = Store::open(temp_store_path(&dir)).unwrap();
    let missing = Link::new();
    assert_eq!(store.get_record(missing).unwrap_err(), DataLineError::RecordNotFound(missing));
}

#[test]
fn delete_record_removes_it() {
    let dir = tempfile::tempdir().unwrap();
    let mut store = Store::open(temp_store_path(&dir)).unwrap();
    let card = store.create_database("Card").unwrap();
    let link = store.create_record(card).unwrap();

    store.delete_record(link).unwrap();

    assert_eq!(store.get_record(link).unwrap_err(), DataLineError::RecordNotFound(link));
    assert!(store.list_records(card).unwrap().is_empty());
}

#[test]
fn list_records_returns_every_record_in_the_database() {
    let dir = tempfile::tempdir().unwrap();
    let mut store = Store::open(temp_store_path(&dir)).unwrap();
    let card = store.create_database("Card").unwrap();
    let balance = store.create_database("Balance change").unwrap();

    let a = store.create_record(card).unwrap();
    let b = store.create_record(card).unwrap();
    store.create_record(balance).unwrap();

    let links: HashSet<Link> = store.list_records(card).unwrap().into_iter().map(|r| r.link).collect();
    assert_eq!(links, HashSet::from([a, b]));
}

#[test]
fn records_persist_across_reopen() {
    let dir = tempfile::tempdir().unwrap();
    let path = temp_store_path(&dir);

    let (card, link, field) = {
        let mut store = Store::open(&path).unwrap();
        let card = store.create_database("Card").unwrap();
        let field = store.add_field(card, "Name", FieldKind::Text).unwrap();
        let link = store.create_record(card).unwrap();
        store.set_value(link, field, Value::Text("Fireball".into())).unwrap();
        (card, link, field)
    };

    let reopened = Store::open(&path).unwrap();
    let record = reopened.get_record(link).unwrap();
    assert_eq!(record.database_id, card);
    assert_eq!(value(&record, field), Value::Text("Fireball".into()));
}

#[test]
fn find_by_value_returns_exact_matches_only() {
    let dir = tempfile::tempdir().unwrap();
    let mut store = Store::open(temp_store_path(&dir)).unwrap();
    let card = store.create_database("Card").unwrap();
    let name_field = store.add_field(card, "Name", FieldKind::Text).unwrap();

    let fireball = store.create_record(card).unwrap();
    store.set_value(fireball, name_field, Value::Text("Fireball".into())).unwrap();
    let frostbolt = store.create_record(card).unwrap();
    store.set_value(frostbolt, name_field, Value::Text("Frostbolt".into())).unwrap();
    let another_fireball = store.create_record(card).unwrap();
    store.set_value(another_fireball, name_field, Value::Text("Fireball".into())).unwrap();

    let matches = store.find_by_value(card, name_field, Value::Text("Fireball".into())).unwrap();
    let links: HashSet<Link> = matches.into_iter().map(|r| r.link).collect();
    assert_eq!(links, HashSet::from([fireball, another_fireball]));
}

#[test]
fn find_by_value_rejects_reference_field() {
    let dir = tempfile::tempdir().unwrap();
    let mut store = Store::open(temp_store_path(&dir)).unwrap();
    let card = store.create_database("Card").unwrap();
    let balance = store.create_database("Balance change").unwrap();
    let ref_field = store
        .add_field(card, "Balance change", FieldKind::Reference { target_database: balance, paired_field: None })
        .unwrap();

    let err = store.find_by_value(card, ref_field, Value::Reference(vec![])).unwrap_err();
    assert_eq!(err, DataLineError::UnsupportedFieldKindForValue { field: ref_field, kind: "reference" });
}

#[test]
fn find_by_value_missing_field_errors() {
    let dir = tempfile::tempdir().unwrap();
    let mut store = Store::open(temp_store_path(&dir)).unwrap();
    let card = store.create_database("Card").unwrap();
    let missing = FieldId::new();

    let err = store.find_by_value(card, missing, Value::Text("x".into())).unwrap_err();
    assert_eq!(err, DataLineError::FieldNotFound(missing));
}

#[test]
fn search_text_matches_case_insensitively_and_ignores_other_kinds() {
    let dir = tempfile::tempdir().unwrap();
    let mut store = Store::open(temp_store_path(&dir)).unwrap();
    let card = store.create_database("Card").unwrap();
    let name_field = store.add_field(card, "Name", FieldKind::Text).unwrap();
    let cost_field = store.add_field(card, "Cost", FieldKind::Number).unwrap();

    let fireball = store.create_record(card).unwrap();
    store.set_value(fireball, name_field, Value::Text("Fireball".into())).unwrap();
    store.set_value(fireball, cost_field, number(3.0)).unwrap();

    let frostbolt = store.create_record(card).unwrap();
    store.set_value(frostbolt, name_field, Value::Text("Frostbolt".into())).unwrap();

    let matches = store.search_text(card, "FIRE").unwrap();
    assert_eq!(matches.len(), 1);
    assert_eq!(matches[0].link, fireball);

    // A number field containing digits that happen to match the query text
    // should never match — only Text-kind field values are searched.
    assert!(store.search_text(card, "3").unwrap().is_empty());
}

#[test]
fn search_text_empty_query_returns_nothing() {
    let dir = tempfile::tempdir().unwrap();
    let mut store = Store::open(temp_store_path(&dir)).unwrap();
    let card = store.create_database("Card").unwrap();
    store.add_field(card, "Name", FieldKind::Text).unwrap();
    store.create_record(card).unwrap();

    assert!(store.search_text(card, "").unwrap().is_empty());
}

#[test]
fn related_records_flattens_across_multiple_reference_fields() {
    let dir = tempfile::tempdir().unwrap();
    let mut store = Store::open(temp_store_path(&dir)).unwrap();
    let card = store.create_database("Card").unwrap();
    let balance = store.create_database("Balance change").unwrap();
    let balance_field = store
        .add_field(card, "Balance change", FieldKind::Reference { target_database: balance, paired_field: None })
        .unwrap();
    let related_field = store
        .add_field(card, "Related Cards", FieldKind::Reference { target_database: card, paired_field: None })
        .unwrap();

    let fireball = store.create_record(card).unwrap();
    let firebolt = store.create_record(card).unwrap();
    let balance_entry = store.create_record(balance).unwrap();

    store.create_reference(fireball, balance_field, balance_entry).unwrap();
    store.create_reference(fireball, related_field, firebolt).unwrap();

    let related: HashSet<Link> = store.related_records(fireball).unwrap().into_iter().collect();
    assert_eq!(related, HashSet::from([balance_entry, firebolt]));
}

#[test]
fn related_records_missing_link_errors() {
    let dir = tempfile::tempdir().unwrap();
    let store = Store::open(temp_store_path(&dir)).unwrap();
    let missing = Link::new();
    assert_eq!(store.related_records(missing).unwrap_err(), DataLineError::RecordNotFound(missing));
}

#[test]
fn create_reference_is_readable_from_both_sides() {
    let dir = tempfile::tempdir().unwrap();
    let mut store = Store::open(temp_store_path(&dir)).unwrap();
    let card = store.create_database("Card").unwrap();
    let balance = store.create_database("Balance change").unwrap();
    let card_field = store
        .add_field(card, "Balance change", FieldKind::Reference { target_database: balance, paired_field: None })
        .unwrap();
    let balance_field = match &store.get_database(card).unwrap().field(card_field).unwrap().kind {
        FieldKind::Reference { paired_field: Some(p), .. } => *p,
        other => panic!("expected paired Reference, got {other:?}"),
    };

    let card_link = store.create_record(card).unwrap();
    let balance_link = store.create_record(balance).unwrap();

    let reference = store.create_reference(card_link, card_field, balance_link).unwrap();
    assert_eq!(reference.source_link, card_link);
    assert_eq!(reference.target_link, balance_link);

    let from_card = store.list_references(card_link, card_field).unwrap();
    assert_eq!(from_card.len(), 1);
    assert_eq!(from_card[0].id, reference.id);
    assert_eq!(from_card[0].target_link, balance_link);

    let from_balance = store.list_references(balance_link, balance_field).unwrap();
    assert_eq!(from_balance.len(), 1);
    assert_eq!(from_balance[0].id, reference.id);
    assert_eq!(from_balance[0].target_link, card_link, "querying from the back-reference side returns the original record");
}

#[test]
fn get_record_includes_reference_field_values() {
    let dir = tempfile::tempdir().unwrap();
    let mut store = Store::open(temp_store_path(&dir)).unwrap();
    let card = store.create_database("Card").unwrap();
    let balance = store.create_database("Balance change").unwrap();
    let card_field = store
        .add_field(card, "Balance change", FieldKind::Reference { target_database: balance, paired_field: None })
        .unwrap();

    let card_link = store.create_record(card).unwrap();
    let balance_link = store.create_record(balance).unwrap();
    store.create_reference(card_link, card_field, balance_link).unwrap();

    let record = store.get_record(card_link).unwrap();
    assert_eq!(value(&record, card_field), Value::Reference(vec![balance_link]));
}

#[test]
fn get_record_reference_field_defaults_to_empty_list() {
    let dir = tempfile::tempdir().unwrap();
    let mut store = Store::open(temp_store_path(&dir)).unwrap();
    let card = store.create_database("Card").unwrap();
    let balance = store.create_database("Balance change").unwrap();
    let card_field = store
        .add_field(card, "Balance change", FieldKind::Reference { target_database: balance, paired_field: None })
        .unwrap();

    let card_link = store.create_record(card).unwrap();

    let record = store.get_record(card_link).unwrap();
    assert_eq!(value(&record, card_field), Value::Reference(vec![]));
}

#[test]
fn self_referencing_reference_field_round_trips() {
    let dir = tempfile::tempdir().unwrap();
    let mut store = Store::open(temp_store_path(&dir)).unwrap();
    let card = store.create_database("Card").unwrap();
    let related_field = store
        .add_field(card, "Related Cards", FieldKind::Reference { target_database: card, paired_field: None })
        .unwrap();

    let a = store.create_record(card).unwrap();
    let b = store.create_record(card).unwrap();
    store.create_reference(a, related_field, b).unwrap();

    let from_a = store.list_references(a, related_field).unwrap();
    assert_eq!(from_a.len(), 1);
    assert_eq!(from_a[0].target_link, b);

    // The back-reference field is a *different* field on the same database —
    // querying b through it should show a, even though both fields live here.
    let back_field = match &store.get_database(card).unwrap().field(related_field).unwrap().kind {
        FieldKind::Reference { paired_field: Some(p), .. } => *p,
        other => panic!("expected paired Reference, got {other:?}"),
    };
    let from_b = store.list_references(b, back_field).unwrap();
    assert_eq!(from_b.len(), 1);
    assert_eq!(from_b[0].target_link, a);
}

#[test]
fn create_reference_rejects_wrong_target_database() {
    let dir = tempfile::tempdir().unwrap();
    let mut store = Store::open(temp_store_path(&dir)).unwrap();
    let card = store.create_database("Card").unwrap();
    let balance = store.create_database("Balance change").unwrap();
    let other = store.create_database("Other").unwrap();
    let card_field = store
        .add_field(card, "Balance change", FieldKind::Reference { target_database: balance, paired_field: None })
        .unwrap();

    let card_link = store.create_record(card).unwrap();
    let wrong_link = store.create_record(other).unwrap();

    let err = store.create_reference(card_link, card_field, wrong_link).unwrap_err();
    assert_eq!(
        err,
        DataLineError::ReferenceTargetDatabaseMismatch { field: card_field, expected: balance, actual: other }
    );
}

#[test]
fn delete_reference_removes_it_from_both_sides() {
    let dir = tempfile::tempdir().unwrap();
    let mut store = Store::open(temp_store_path(&dir)).unwrap();
    let card = store.create_database("Card").unwrap();
    let balance = store.create_database("Balance change").unwrap();
    let card_field = store
        .add_field(card, "Balance change", FieldKind::Reference { target_database: balance, paired_field: None })
        .unwrap();
    let balance_field = match &store.get_database(card).unwrap().field(card_field).unwrap().kind {
        FieldKind::Reference { paired_field: Some(p), .. } => *p,
        other => panic!("expected paired Reference, got {other:?}"),
    };

    let card_link = store.create_record(card).unwrap();
    let balance_link = store.create_record(balance).unwrap();
    let reference = store.create_reference(card_link, card_field, balance_link).unwrap();

    store.delete_reference(reference.id, card_field).unwrap();

    assert!(store.list_references(card_link, card_field).unwrap().is_empty());
    assert!(store.list_references(balance_link, balance_field).unwrap().is_empty());
}

#[test]
fn delete_reference_missing_errors() {
    let dir = tempfile::tempdir().unwrap();
    let mut store = Store::open(temp_store_path(&dir)).unwrap();
    let card = store.create_database("Card").unwrap();
    let balance = store.create_database("Balance change").unwrap();
    let card_field = store
        .add_field(card, "Balance change", FieldKind::Reference { target_database: balance, paired_field: None })
        .unwrap();

    let missing = ReferenceId::new();
    let err = store.delete_reference(missing, card_field).unwrap_err();
    assert_eq!(err, DataLineError::ReferenceNotFound(missing));
}

#[test]
fn delete_record_cascades_to_remove_references() {
    let dir = tempfile::tempdir().unwrap();
    let mut store = Store::open(temp_store_path(&dir)).unwrap();
    let card = store.create_database("Card").unwrap();
    let balance = store.create_database("Balance change").unwrap();
    let card_field = store
        .add_field(card, "Balance change", FieldKind::Reference { target_database: balance, paired_field: None })
        .unwrap();
    let balance_field = match &store.get_database(card).unwrap().field(card_field).unwrap().kind {
        FieldKind::Reference { paired_field: Some(p), .. } => *p,
        other => panic!("expected paired Reference, got {other:?}"),
    };

    let card_link = store.create_record(card).unwrap();
    let balance_link = store.create_record(balance).unwrap();
    store.create_reference(card_link, card_field, balance_link).unwrap();

    store.delete_record(card_link).unwrap();

    // The balance record survives; only the relationship (and the card
    // record) should be gone.
    assert!(store.get_record(balance_link).is_ok());
    assert!(store.list_references(balance_link, balance_field).unwrap().is_empty());
}

#[test]
fn reference_join_table_is_dropped_when_the_field_pair_is_removed() {
    let dir = tempfile::tempdir().unwrap();
    let mut store = Store::open(temp_store_path(&dir)).unwrap();
    let card = store.create_database("Card").unwrap();
    let balance = store.create_database("Balance change").unwrap();
    let card_field = store
        .add_field(card, "Balance change", FieldKind::Reference { target_database: balance, paired_field: None })
        .unwrap();

    let table_name = reference_table_name(card_field, {
        match &store.get_database(card).unwrap().field(card_field).unwrap().kind {
            FieldKind::Reference { paired_field: Some(p), .. } => *p,
            other => panic!("expected paired Reference, got {other:?}"),
        }
    });
    assert!(table_exists(&store.conn, &table_name).unwrap());

    store.remove_field(card, card_field).unwrap();

    assert!(!table_exists(&store.conn, &table_name).unwrap());
}

#[test]
fn references_persist_across_reopen() {
    let dir = tempfile::tempdir().unwrap();
    let path = temp_store_path(&dir);

    let (card_link, balance_link, card_field, reference_id) = {
        let mut store = Store::open(&path).unwrap();
        let card = store.create_database("Card").unwrap();
        let balance = store.create_database("Balance change").unwrap();
        let card_field = store
            .add_field(card, "Balance change", FieldKind::Reference { target_database: balance, paired_field: None })
            .unwrap();
        let card_link = store.create_record(card).unwrap();
        let balance_link = store.create_record(balance).unwrap();
        let reference = store.create_reference(card_link, card_field, balance_link).unwrap();
        (card_link, balance_link, card_field, reference.id)
    };

    let reopened = Store::open(&path).unwrap();
    let refs = reopened.list_references(card_link, card_field).unwrap();
    assert_eq!(refs.len(), 1);
    assert_eq!(refs[0].id, reference_id);
    assert_eq!(refs[0].target_link, balance_link);
}

#[test]
fn create_database_creates_metadata_row_and_record_table() {
    let dir = tempfile::tempdir().unwrap();
    let path = temp_store_path(&dir);
    let mut store = Store::open(&path).unwrap();

    let card = store.create_database("Card").unwrap();

    let conn = Connection::open(&path).unwrap();
    let name: String = conn
        .query_row("SELECT name FROM databases WHERE id = ?1", [card.to_string()], |r| r.get(0))
        .unwrap();
    assert_eq!(name, "Card");

    let table_present = table_exists(&conn, &database_table_name(card)).unwrap();
    assert!(table_present, "per-database record table should exist");
}

#[test]
fn scalar_field_gets_a_real_column_reference_field_does_not() {
    let dir = tempfile::tempdir().unwrap();
    let mut store = Store::open(temp_store_path(&dir)).unwrap();

    let card = store.create_database("Card").unwrap();
    let balance = store.create_database("Balance change").unwrap();

    let name_field = store.add_field(card, "Name", FieldKind::Text).unwrap();
    let ref_field = store
        .add_field(card, "Balance change", FieldKind::Reference { target_database: balance, paired_field: None })
        .unwrap();

    let columns = table_columns(&store.conn, &database_table_name(card));
    assert!(columns.contains(&field_column_name(name_field)), "scalar field should have a column");
    assert!(
        !columns.contains(&field_column_name(ref_field)),
        "reference field should never get a column on the owning table"
    );
}

#[test]
fn reopening_rehydrates_schema_exactly() {
    let dir = tempfile::tempdir().unwrap();
    let path = temp_store_path(&dir);

    let (card, balance, name_field) = {
        let mut store = Store::open(&path).unwrap();
        let card = store.create_database("Card").unwrap();
        let balance = store.create_database("Balance change").unwrap();
        let name_field = store.add_field(card, "Name", FieldKind::Text).unwrap();
        store
            .add_field(card, "Balance change", FieldKind::Reference { target_database: balance, paired_field: None })
            .unwrap();
        (card, balance, name_field)
    };

    let reopened = Store::open(&path).unwrap();
    let card_db = reopened.get_database(card).unwrap();
    assert_eq!(card_db.fields.len(), 2);
    assert_eq!(card_db.field(name_field).unwrap().name, "Name");

    let balance_db = reopened.get_database(balance).unwrap();
    assert_eq!(balance_db.fields.len(), 1, "back-reference field should have persisted too");
    match &balance_db.fields[0].kind {
        FieldKind::Reference { target_database, .. } => assert_eq!(*target_database, card),
        other => panic!("expected Reference, got {other:?}"),
    }
}

#[test]
fn self_reference_survives_reopen() {
    let dir = tempfile::tempdir().unwrap();
    let path = temp_store_path(&dir);

    let card = {
        let mut store = Store::open(&path).unwrap();
        let card = store.create_database("Card").unwrap();
        store
            .add_field(card, "Related Cards", FieldKind::Reference { target_database: card, paired_field: None })
            .unwrap();
        card
    };

    let reopened = Store::open(&path).unwrap();
    let card_db = reopened.get_database(card).unwrap();
    assert_eq!(card_db.fields.len(), 2);
    for field in &card_db.fields {
        match &field.kind {
            FieldKind::Reference { target_database, .. } => assert_eq!(*target_database, card),
            other => panic!("expected Reference, got {other:?}"),
        }
    }
}

#[test]
fn remove_field_persists_cascading_removal_and_drops_column() {
    let dir = tempfile::tempdir().unwrap();
    let path = temp_store_path(&dir);
    let mut store = Store::open(&path).unwrap();

    let card = store.create_database("Card").unwrap();
    let balance = store.create_database("Balance change").unwrap();
    let forward_id = store
        .add_field(card, "Balance change", FieldKind::Reference { target_database: balance, paired_field: None })
        .unwrap();

    store.remove_field(card, forward_id).unwrap();

    assert!(store.get_database(card).unwrap().fields.is_empty());
    assert!(store.get_database(balance).unwrap().fields.is_empty());

    let reopened = Store::open(&path).unwrap();
    assert!(reopened.get_database(card).unwrap().fields.is_empty());
    assert!(reopened.get_database(balance).unwrap().fields.is_empty());
}

#[test]
fn remove_scalar_field_drops_its_column() {
    let dir = tempfile::tempdir().unwrap();
    let mut store = Store::open(temp_store_path(&dir)).unwrap();

    let card = store.create_database("Card").unwrap();
    let name_field = store.add_field(card, "Name", FieldKind::Text).unwrap();
    assert!(table_columns(&store.conn, &database_table_name(card)).contains(&field_column_name(name_field)));

    store.remove_field(card, name_field).unwrap();

    assert!(!table_columns(&store.conn, &database_table_name(card)).contains(&field_column_name(name_field)));
}

#[test]
fn delete_database_removes_it_and_its_table() {
    let dir = tempfile::tempdir().unwrap();
    let path = temp_store_path(&dir);
    let mut store = Store::open(&path).unwrap();

    let card = store.create_database("Card").unwrap();
    store.add_field(card, "Name", FieldKind::Text).unwrap();
    store.create_record(card).unwrap();

    store.delete_database(card).unwrap();

    assert_eq!(store.get_database(card).unwrap_err(), DataLineError::DatabaseNotFound(card));
    assert!(!table_exists(&store.conn, &database_table_name(card)).unwrap());

    let reopened = Store::open(&path).unwrap();
    assert_eq!(reopened.get_database(card).unwrap_err(), DataLineError::DatabaseNotFound(card));
}

#[test]
fn delete_database_removes_fields_referencing_it_from_surviving_databases() {
    let dir = tempfile::tempdir().unwrap();
    let path = temp_store_path(&dir);
    let mut store = Store::open(&path).unwrap();

    let card = store.create_database("Card").unwrap();
    let balance = store.create_database("Balance change").unwrap();
    store
        .add_field(card, "Balance change", FieldKind::Reference { target_database: balance, paired_field: None })
        .unwrap();

    store.delete_database(balance).unwrap();

    assert!(store.get_database(card).unwrap().fields.is_empty());

    let reopened = Store::open(&path).unwrap();
    assert!(reopened.get_database(card).unwrap().fields.is_empty());
}

#[test]
fn delete_missing_database_errors() {
    let dir = tempfile::tempdir().unwrap();
    let mut store = Store::open(temp_store_path(&dir)).unwrap();
    let missing = DatabaseId::new();
    assert_eq!(store.delete_database(missing).unwrap_err(), DataLineError::DatabaseNotFound(missing));
}

#[test]
fn retype_field_lossless_conversion_preserves_every_value() {
    let dir = tempfile::tempdir().unwrap();
    let mut store = Store::open(temp_store_path(&dir)).unwrap();
    let card = store.create_database("Card").unwrap();
    let cost_field = store.add_field(card, "Cost", FieldKind::Number).unwrap();

    let fireball = store.create_record(card).unwrap();
    store.set_value(fireball, cost_field, number(3.0)).unwrap();

    let report = store.retype_field(card, cost_field, FieldKind::Text).unwrap();

    assert!(report.cleared_links.is_empty());
    assert_eq!(store.get_database(card).unwrap().field(cost_field).unwrap().kind, FieldKind::Text);
    assert_eq!(value(&store.get_record(fireball).unwrap(), cost_field), Value::Text("3".into()));
}

/// An existing `Blob` field retypes onto a plugin-tagged `CustomBlob` kind
/// without losing or rewriting the bytes, just gaining a `kind_id` tag.
#[test]
fn retype_field_from_blob_to_custom_blob_is_lossless() {
    let dir = tempfile::tempdir().unwrap();
    let mut store = Store::open(temp_store_path(&dir)).unwrap();
    let card = store.create_database("Card").unwrap();
    let track_field = store.add_field(card, "Track", FieldKind::Blob).unwrap();
    let link = store.create_record(card).unwrap();
    let blob_ref = store.write_blob(b"real audio bytes", Some("song.mp3")).unwrap();
    store.set_value(link, track_field, Value::Blob(blob_ref.clone())).unwrap();

    let report = store
        .retype_field(card, track_field, FieldKind::CustomBlob { kind_id: "com.myline.music.value".into() })
        .unwrap();

    assert!(report.cleared_links.is_empty(), "retyping Blob->CustomBlob must never clear a value");
    assert_eq!(
        store.get_database(card).unwrap().field(track_field).unwrap().kind,
        FieldKind::CustomBlob { kind_id: "com.myline.music.value".into() }
    );
    assert_eq!(
        value(&store.get_record(link).unwrap(), track_field),
        Value::CustomBlob { kind_id: "com.myline.music.value".into(), blob: blob_ref }
    );
}

#[test]
fn retype_field_reports_records_it_had_to_clear() {
    let dir = tempfile::tempdir().unwrap();
    let mut store = Store::open(temp_store_path(&dir)).unwrap();
    let card = store.create_database("Card").unwrap();
    let name_field = store.add_field(card, "Name", FieldKind::Text).unwrap();

    let numeric = store.create_record(card).unwrap();
    store.set_value(numeric, name_field, Value::Text("3".into())).unwrap();
    let non_numeric = store.create_record(card).unwrap();
    store.set_value(non_numeric, name_field, Value::Text("Fireball".into())).unwrap();
    let already_empty = store.create_record(card).unwrap();

    let report = store.retype_field(card, name_field, FieldKind::Number).unwrap();

    assert_eq!(report.cleared_links, vec![non_numeric], "only the non-numeric value should be reported cleared");
    assert_eq!(value(&store.get_record(numeric).unwrap(), name_field), number(3.0));
    assert_eq!(value(&store.get_record(non_numeric).unwrap(), name_field), Value::Empty);
    assert_eq!(
        value(&store.get_record(already_empty).unwrap(), name_field),
        Value::Empty,
        "a value that was already empty isn't a data-loss event"
    );
}

#[test]
fn retype_field_narrowing_selection_options_clears_orphaned_selections() {
    let dir = tempfile::tempdir().unwrap();
    let mut store = Store::open(temp_store_path(&dir)).unwrap();
    let card = store.create_database("Card").unwrap();
    let rarity_field = store
        .add_field(
            card,
            "Rarity",
            FieldKind::Selection {
                multi: false,
                options: vec![
                    SelectionOption { name: "Common".into(), color: "gray".into() },
                    SelectionOption { name: "Rare".into(), color: "blue".into() },
                ],
            },
        )
        .unwrap();

    let rare_card = store.create_record(card).unwrap();
    store.set_value(rare_card, rarity_field, Value::Selection(vec!["Rare".into()])).unwrap();

    let report = store
        .retype_field(
            card,
            rarity_field,
            FieldKind::Selection {
                multi: false,
                options: vec![SelectionOption { name: "Common".into(), color: "gray".into() }],
            },
        )
        .unwrap();

    assert_eq!(report.cleared_links, vec![rare_card]);
    assert_eq!(value(&store.get_record(rare_card).unwrap(), rarity_field), Value::Empty);
}

#[test]
fn store_retype_field_rejects_reference_field() {
    let dir = tempfile::tempdir().unwrap();
    let mut store = Store::open(temp_store_path(&dir)).unwrap();
    let card = store.create_database("Card").unwrap();
    let balance = store.create_database("Balance change").unwrap();
    let ref_field = store
        .add_field(card, "Balance change", FieldKind::Reference { target_database: balance, paired_field: None })
        .unwrap();

    let err = store.retype_field(card, ref_field, FieldKind::Text).unwrap_err();
    assert_eq!(err, DataLineError::ReferenceFieldRetypeNotSupported(ref_field));
    // Untouched.
    assert!(matches!(
        store.get_database(card).unwrap().field(ref_field).unwrap().kind,
        FieldKind::Reference { .. }
    ));
}

#[test]
fn retype_field_missing_field_errors_and_leaves_store_untouched() {
    let dir = tempfile::tempdir().unwrap();
    let mut store = Store::open(temp_store_path(&dir)).unwrap();
    let card = store.create_database("Card").unwrap();
    let missing = FieldId::new();

    let err = store.retype_field(card, missing, FieldKind::Text).unwrap_err();
    assert_eq!(err, DataLineError::FieldNotFound(missing));
}

#[test]
fn retype_field_persists_across_reopen() {
    let dir = tempfile::tempdir().unwrap();
    let path = temp_store_path(&dir);

    let (card, field_id, fireball) = {
        let mut store = Store::open(&path).unwrap();
        let card = store.create_database("Card").unwrap();
        let field_id = store.add_field(card, "Cost", FieldKind::Number).unwrap();
        let fireball = store.create_record(card).unwrap();
        store.set_value(fireball, field_id, number(3.0)).unwrap();
        store.retype_field(card, field_id, FieldKind::Text).unwrap();
        (card, field_id, fireball)
    };

    let reopened = Store::open(&path).unwrap();
    assert_eq!(reopened.get_database(card).unwrap().field(field_id).unwrap().kind, FieldKind::Text);
    assert_eq!(value(&reopened.get_record(fireball).unwrap(), field_id), Value::Text("3".into()));
}

#[test]
fn duplicate_database_schema_persists_across_reopen() {
    let dir = tempfile::tempdir().unwrap();
    let path = temp_store_path(&dir);

    let duplicate = {
        let mut store = Store::open(&path).unwrap();
        let card = store.create_database("Card").unwrap();
        store.add_field(card, "Name", FieldKind::Text).unwrap();
        store.duplicate_database_schema(card, "Card Copy").unwrap()
    };

    let reopened = Store::open(&path).unwrap();
    let dup_db = reopened.get_database(duplicate).unwrap();
    assert_eq!(dup_db.name, "Card Copy");
    assert_eq!(dup_db.fields.len(), 1);
    assert_eq!(dup_db.fields[0].name, "Name");
}

#[test]
fn rename_field_persists_across_reopen() {
    let dir = tempfile::tempdir().unwrap();
    let path = temp_store_path(&dir);

    let (card, field_id) = {
        let mut store = Store::open(&path).unwrap();
        let card = store.create_database("Card").unwrap();
        let field_id = store.add_field(card, "Name", FieldKind::Text).unwrap();
        store.rename_field(card, field_id, "Title").unwrap();
        (card, field_id)
    };

    let reopened = Store::open(&path).unwrap();
    assert_eq!(reopened.get_database(card).unwrap().field(field_id).unwrap().name, "Title");
}

#[test]
fn mutation_error_does_not_touch_the_store_file() {
    let dir = tempfile::tempdir().unwrap();
    let path = temp_store_path(&dir);
    let mut store = Store::open(&path).unwrap();
    let card = store.create_database("Card").unwrap();

    let missing = DatabaseId::new();
    let err = store.add_field(card, "Broken", FieldKind::Reference { target_database: missing, paired_field: None });
    assert!(err.is_err());
    assert!(store.get_database(card).unwrap().fields.is_empty(), "failed mutation must not leave a partial field");

    let reopened = Store::open(&path).unwrap();
    assert!(reopened.get_database(card).unwrap().fields.is_empty());
}

#[test]
fn opening_a_v1_store_migrates_blobs_table_in_place() {
    let dir = tempfile::tempdir().unwrap();
    let path = temp_store_path(&dir);

    // Hand-build a v1 store (blobs table with no filename column,
    // schema_version 1) — what every store on disk before this
    // migration was shaped like.
    {
        let conn = Connection::open(&path).unwrap();
        conn.execute_batch(
            "CREATE TABLE _dataline_meta (key TEXT PRIMARY KEY, value TEXT NOT NULL);
             CREATE TABLE databases (id TEXT PRIMARY KEY, name TEXT NOT NULL);
             CREATE TABLE fields (
                 id TEXT PRIMARY KEY, database_id TEXT NOT NULL REFERENCES databases(id),
                 name TEXT NOT NULL, kind TEXT NOT NULL, selection_multi INTEGER,
                 selection_options TEXT, reference_target_database TEXT,
                 reference_paired_field TEXT, ordering INTEGER NOT NULL
             );
             CREATE TABLE links (link TEXT PRIMARY KEY, database_id TEXT NOT NULL REFERENCES databases(id));
             CREATE TABLE blobs (hash TEXT PRIMARY KEY, bytes BLOB NOT NULL, created_at TEXT NOT NULL);
             INSERT INTO _dataline_meta (key, value) VALUES ('schema_version', '1');",
        )
        .unwrap();
        conn.execute(
            "INSERT INTO blobs (hash, bytes, created_at) VALUES ('abc', X'01020304', '2024-01-01T00:00:00Z')",
            [],
        )
        .unwrap();
    }

    let mut store = Store::open(&path).unwrap();
    // The migrated column is usable — a fresh write with a filename
    // round-trips, and the pre-migration row (filename NULL) still reads
    // back fine as `None`.
    let blob_ref = store.write_blob(b"new bytes", Some("new.bin")).unwrap();
    assert_eq!(blob_ref.filename(), Some("new.bin"));

    let conn = Connection::open(&path).unwrap();
    let version: String =
        conn.query_row("SELECT value FROM _dataline_meta WHERE key = 'schema_version'", [], |row| row.get(0)).unwrap();
    assert_eq!(version, SCHEMA_VERSION.to_string());
}

#[test]
fn unsupported_schema_version_is_rejected() {
    let dir = tempfile::tempdir().unwrap();
    let path = temp_store_path(&dir);
    {
        let _store = Store::open(&path).unwrap();
    }

    let conn = Connection::open(&path).unwrap();
    conn.execute("UPDATE _dataline_meta SET value = '999' WHERE key = 'schema_version'", []).unwrap();
    drop(conn);

    match Store::open(&path) {
        Err(DataLineError::Storage(msg)) => assert!(msg.contains("999")),
        Err(other) => panic!("expected Storage error, got {other:?}"),
        Ok(_) => panic!("expected schema version mismatch to be rejected"),
    }
}

fn paired(store: &Store, database: DatabaseId, field: FieldId) -> FieldId {
    match &store.get_database(database).unwrap().field(field).unwrap().kind {
        FieldKind::Reference { paired_field: Some(p), .. } => *p,
        other => panic!("expected paired Reference, got {other:?}"),
    }
}

fn count(store: &Store, sql: &str) -> i64 {
    store.conn.query_row(sql, [], |row| row.get(0)).unwrap()
}

#[test]
fn a_failed_persist_takes_the_registry_back() {
    let mut store = dataline::Store::open(dataline::SchemaRegistry::new());
    let pending = store.create_database("Card");
    let card = *pending.value();
    assert!(store.get_database(card).is_ok());
    let result = store.settle(pending, Err("disk full".to_string()));
    assert_eq!(result, Err(DataLineError::Storage("disk full".to_string())));
    assert_eq!(store.get_database(card).unwrap_err(), DataLineError::DatabaseNotFound(card));
    assert!(store.list_databases().is_empty());
}

#[test]
fn a_failed_retype_changes_nothing() {
    let dir = tempfile::tempdir().unwrap();
    let mut store = Store::open(temp_store_path(&dir)).unwrap();
    let card = store.create_database("Card").unwrap();
    let field = store.add_field(card, "Released", FieldKind::Date).unwrap();
    let link = store.create_record(card).unwrap();
    let column = field_column_name(field);
    let table = database_table_name(card);
    store.conn.execute(&format!("UPDATE \"{table}\" SET \"{column}\" = 'soon'"), []).unwrap();

    let err = store.retype_field(card, field, FieldKind::Text).unwrap_err();
    assert_eq!(err, DataLineError::Storage("invalid stored date: soon".to_string()));
    assert_eq!(store.get_database(card).unwrap().field(field).unwrap().kind, FieldKind::Date);
    assert_eq!(store.get_record(link).unwrap_err(), err);
    assert_eq!(table_columns(&store.conn, &table), ["link", "created_at", "updated_at", column.as_str()]);
}

#[test]
fn retyping_to_the_same_custom_kind_keeps_the_data() {
    let dir = tempfile::tempdir().unwrap();
    let mut store = Store::open(temp_store_path(&dir)).unwrap();
    let card = store.create_database("Card").unwrap();
    let kind = FieldKind::Custom { kind_id: "com.example".into() };
    let field = store.add_field(card, "Track", kind.clone()).unwrap();
    let link = store.create_record(card).unwrap();
    let data = Value::Custom { kind_id: "com.example".into(), data: vec![1, 2, 3] };
    store.set_value(link, field, data.clone()).unwrap();

    assert!(store.retype_field(card, field, kind).unwrap().cleared_links.is_empty());
    assert_eq!(value(&store.get_record(link).unwrap(), field), data);

    let other = FieldKind::Custom { kind_id: "com.example.other".into() };
    assert_eq!(store.retype_field(card, field, other).unwrap().cleared_links, [link]);
    assert_eq!(value(&store.get_record(link).unwrap(), field), Value::Empty);
}

#[test]
fn a_selection_of_nothing_is_kept_by_a_retype() {
    let dir = tempfile::tempdir().unwrap();
    let mut store = Store::open(temp_store_path(&dir)).unwrap();
    let card = store.create_database("Card").unwrap();
    let kind = FieldKind::Selection { multi: true, options: vec![] };
    let field = store.add_field(card, "Tags", kind.clone()).unwrap();
    let link = store.create_record(card).unwrap();
    store.set_value(link, field, Value::Selection(vec![])).unwrap();

    assert!(store.retype_field(card, field, kind).unwrap().cleared_links.is_empty());
    assert_eq!(value(&store.get_record(link).unwrap(), field), Value::Selection(vec![]));
}

#[test]
fn what_is_not_a_number_cannot_be_held() {
    let dir = tempfile::tempdir().unwrap();
    let mut store = Store::open(temp_store_path(&dir)).unwrap();
    let card = store.create_database("Card").unwrap();
    let cost = store.add_field(card, "Cost", FieldKind::Number).unwrap();
    let name = store.add_field(card, "Name", FieldKind::Text).unwrap();
    let link = store.create_record(card).unwrap();
    store.set_value(link, cost, number(f64::NAN)).unwrap();
    store.set_value(link, name, Value::Text("NaN".into())).unwrap();
    assert_eq!(value(&store.get_record(link).unwrap(), cost), Value::Empty);

    let report = store.retype_field(card, name, FieldKind::Number).unwrap();
    assert_eq!(report.cleared_links, vec![link]);
    assert_eq!(value(&store.get_record(link).unwrap(), name), Value::Empty);
}

#[test]
fn zero_and_the_extremes_are_held() {
    let dir = tempfile::tempdir().unwrap();
    let mut store = Store::open(temp_store_path(&dir)).unwrap();
    let card = store.create_database("Card").unwrap();
    let cost = store.add_field(card, "Cost", FieldKind::Number).unwrap();
    let link = store.create_record(card).unwrap();
    for n in [0.0, -0.0, 1e300, -5e-324, f64::INFINITY, f64::NEG_INFINITY, 9007199254740993.0] {
        store.set_value(link, cost, number(n)).unwrap();
        assert_eq!(value(&store.get_record(link).unwrap(), cost), number(n));
    }
}

#[test]
fn a_numeric_text_is_not_converted_by_its_column() {
    let dir = tempfile::tempdir().unwrap();
    let mut store = Store::open(temp_store_path(&dir)).unwrap();
    let card = store.create_database("Card").unwrap();
    let name = store.add_field(card, "Name", FieldKind::Text).unwrap();
    let link = store.create_record(card).unwrap();
    store.set_value(link, name, Value::Text("0010".into())).unwrap();
    assert_eq!(value(&store.get_record(link).unwrap(), name), Value::Text("0010".into()));
}

#[test]
fn setting_a_value_changes_nothing_else() {
    let dir = tempfile::tempdir().unwrap();
    let mut store = Store::open(temp_store_path(&dir)).unwrap();
    let card = store.create_database("Card").unwrap();
    let name = store.add_field(card, "Name", FieldKind::Text).unwrap();
    let note = store.add_field(card, "Note", FieldKind::Text).unwrap();
    let a = store.create_record(card).unwrap();
    let b = store.create_record(card).unwrap();
    store.set_value(a, note, Value::Text("kept".into())).unwrap();
    store.set_value(b, name, Value::Text("other".into())).unwrap();
    let before = store.get_record(b).unwrap();

    store.set_value(a, name, Value::Text("new".into())).unwrap();
    let after = store.get_record(a).unwrap();
    assert_eq!(value(&after, note), Value::Text("kept".into()));
    assert!(after.created_at < after.updated_at);
    let other = store.get_record(b).unwrap();
    assert_eq!(value(&other, name), Value::Text("other".into()));
    assert_eq!(other.updated_at, before.updated_at);
}

#[test]
fn set_value_on_a_missing_field_errors() {
    let dir = tempfile::tempdir().unwrap();
    let mut store = Store::open(temp_store_path(&dir)).unwrap();
    let card = store.create_database("Card").unwrap();
    let link = store.create_record(card).unwrap();
    let missing = FieldId::new();
    let err = store.set_value(link, missing, Value::Empty).unwrap_err();
    assert_eq!(err, DataLineError::FieldNotFound(missing));
}

#[test]
fn create_record_in_a_missing_database_errors() {
    let dir = tempfile::tempdir().unwrap();
    let mut store = Store::open(temp_store_path(&dir)).unwrap();
    let missing = DatabaseId::new();
    assert_eq!(store.create_record(missing).unwrap_err(), DataLineError::DatabaseNotFound(missing));
    assert_eq!(store.list_records(missing).unwrap_err(), DataLineError::DatabaseNotFound(missing));
    let err = store.find_by_value(missing, FieldId::new(), Value::Empty).unwrap_err();
    assert_eq!(err, DataLineError::DatabaseNotFound(missing));
}

#[test]
fn references_through_a_scalar_field_are_refused() {
    let dir = tempfile::tempdir().unwrap();
    let mut store = Store::open(temp_store_path(&dir)).unwrap();
    let card = store.create_database("Card").unwrap();
    let name = store.add_field(card, "Name", FieldKind::Text).unwrap();
    let a = store.create_record(card).unwrap();
    let b = store.create_record(card).unwrap();
    let refused = DataLineError::UnsupportedFieldKindForValue { field: name, kind: "text" };
    assert_eq!(store.create_reference(a, name, b).unwrap_err(), refused);
    assert_eq!(store.list_references(a, name).unwrap_err(), refused);
    assert_eq!(store.delete_reference(ReferenceId::new(), name).unwrap_err(), refused);
    let missing = FieldId::new();
    assert_eq!(store.create_reference(a, missing, b).unwrap_err(), DataLineError::FieldNotFound(missing));
    assert_eq!(
        store.delete_reference(ReferenceId::new(), missing).unwrap_err(),
        DataLineError::FieldNotFound(missing)
    );
}

#[test]
fn either_field_of_the_pair_deletes_the_reference() {
    let dir = tempfile::tempdir().unwrap();
    let mut store = Store::open(temp_store_path(&dir)).unwrap();
    let card = store.create_database("Card").unwrap();
    let balance = store.create_database("Balance change").unwrap();
    let kind = FieldKind::Reference { target_database: balance, paired_field: None };
    let field = store.add_field(card, "Balance change", kind).unwrap();
    let back = paired(&store, card, field);
    let a = store.create_record(card).unwrap();
    let b = store.create_record(balance).unwrap();
    let first = store.create_reference(a, field, b).unwrap();
    let second = store.create_reference(b, back, a).unwrap();
    assert_eq!(second.target_field, field);

    store.delete_reference(first.id, back).unwrap();
    let left = store.list_references(a, field).unwrap();
    assert_eq!(left.len(), 1);
    assert_eq!(left[0].id, second.id);
    store.delete_reference(second.id, field).unwrap();
    assert!(store.list_references(b, back).unwrap().is_empty());
}

#[test]
fn deleting_a_record_leaves_no_dangling_row_on_either_side() {
    let dir = tempfile::tempdir().unwrap();
    let mut store = Store::open(temp_store_path(&dir)).unwrap();
    let card = store.create_database("Card").unwrap();
    let kind = FieldKind::Reference { target_database: card, paired_field: None };
    let field = store.add_field(card, "Related Cards", kind).unwrap();
    let back = paired(&store, card, field);
    let a = store.create_record(card).unwrap();
    let b = store.create_record(card).unwrap();
    let c = store.create_record(card).unwrap();
    store.create_reference(a, field, b).unwrap();
    store.create_reference(b, field, a).unwrap();
    store.create_reference(a, field, a).unwrap();
    store.create_reference(b, field, c).unwrap();

    store.delete_record(a).unwrap();
    let table = reference_table_name(field, back);
    assert_eq!(count(&store, &format!("SELECT count(*) FROM \"{table}\"")), 1);
    assert_eq!(value(&store.get_record(b).unwrap(), field), Value::Reference(vec![c]));
    assert_eq!(value(&store.get_record(c).unwrap(), back), Value::Reference(vec![b]));
}

#[test]
fn related_records_are_named_once() {
    let dir = tempfile::tempdir().unwrap();
    let mut store = Store::open(temp_store_path(&dir)).unwrap();
    let card = store.create_database("Card").unwrap();
    let kind = FieldKind::Reference { target_database: card, paired_field: None };
    let field = store.add_field(card, "Related Cards", kind).unwrap();
    let a = store.create_record(card).unwrap();
    let b = store.create_record(card).unwrap();
    store.create_reference(a, field, b).unwrap();
    store.create_reference(a, field, b).unwrap();
    store.create_reference(b, field, a).unwrap();
    assert_eq!(store.related_records(a).unwrap(), [b]);
    assert_eq!(store.related_records(b).unwrap(), [a]);
}

#[test]
fn records_are_listed_oldest_first() {
    let dir = tempfile::tempdir().unwrap();
    let mut store = Store::open(temp_store_path(&dir)).unwrap();
    let card = store.create_database("Card").unwrap();
    let links: Vec<Link> = (0..5).map(|_| store.create_record(card).unwrap()).collect();
    let listed: Vec<Link> = store.list_records(card).unwrap().iter().map(|record| record.link).collect();
    assert_eq!(listed, links);
}

#[test]
fn every_record_of_a_database_is_listed_once() {
    let dir = tempfile::tempdir().unwrap();
    let mut store = Store::open(temp_store_path(&dir)).unwrap();
    let card = store.create_database("Card").unwrap();
    let other = store.create_database("Other").unwrap();
    assert!(store.list_records(card).unwrap().is_empty());
    let a = store.create_record(card).unwrap();
    let elsewhere = store.create_record(other).unwrap();
    let b = store.create_record(card).unwrap();
    let c = store.create_record(card).unwrap();
    store.delete_record(b).unwrap();
    let records = store.list_records(card).unwrap();
    assert_eq!(records.iter().map(|record| record.link).collect::<Vec<_>>(), [a, c]);
    assert!(records[0].created_at <= records[1].created_at);
    assert_eq!(store.list_records(other).unwrap()[0].link, elsewhere);
    let missing = DatabaseId::new();
    assert_eq!(store.list_records(missing).unwrap_err(), DataLineError::DatabaseNotFound(missing));
}

#[test]
fn searching_folds_the_case_of_both_sides() {
    let dir = tempfile::tempdir().unwrap();
    let mut store = Store::open(temp_store_path(&dir)).unwrap();
    let card = store.create_database("Card").unwrap();
    let name = store.add_field(card, "Name", FieldKind::Text).unwrap();
    let kind = FieldKind::Selection { multi: false, options: vec![] };
    let rarity = store.add_field(card, "Rarity", kind).unwrap();
    let link = store.create_record(card).unwrap();
    store.set_value(link, name, Value::Text("ÉTOILE polaire".into())).unwrap();
    store.set_value(link, rarity, Value::Selection(vec!["Rare".into()])).unwrap();
    assert_eq!(store.search_text(card, "étoile P").unwrap().len(), 1);
    assert!(store.search_text(card, "étoilep").unwrap().is_empty());
    assert!(store.search_text(card, "Rare").unwrap().is_empty());
}

#[test]
fn find_by_value_finds_a_handle_without_its_filename() {
    let dir = tempfile::tempdir().unwrap();
    let mut store = Store::open(temp_store_path(&dir)).unwrap();
    let card = store.create_database("Card").unwrap();
    let art = store.add_field(card, "Art", FieldKind::Blob).unwrap();
    let link = store.create_record(card).unwrap();
    let blob = store.write_blob(b"art", Some("art.png")).unwrap();
    store.set_value(link, art, Value::Blob(blob.clone())).unwrap();
    let found = store.find_by_value(card, art, Value::Blob(BlobRef::from_hash(blob.hash()))).unwrap();
    assert_eq!(found.len(), 1);
    assert!(store.find_by_value(card, art, Value::Empty).unwrap().is_empty());
}

#[test]
fn every_handle_is_on_stored_bytes() {
    let dir = tempfile::tempdir().unwrap();
    let mut store = Store::open(temp_store_path(&dir)).unwrap();
    let card = store.create_database("Card").unwrap();
    let art = store.add_field(card, "Art", FieldKind::Text).unwrap();
    let a = store.create_record(card).unwrap();
    let blob = store.write_blob(b"art", None).unwrap();
    store.set_value(a, art, Value::Text(blob.hash().to_string())).unwrap();
    // Even the text of a hash that exists does not become a handle.
    assert_eq!(store.retype_field(card, art, FieldKind::Blob).unwrap().cleared_links, [a]);
    store.set_value(a, art, Value::Blob(blob.clone())).unwrap();
    let kind = FieldKind::CustomBlob { kind_id: "com.example".into() };
    assert!(store.retype_field(card, art, kind).unwrap().cleared_links.is_empty());
    match value(&store.get_record(a).unwrap(), art) {
        Value::CustomBlob { blob: held, .. } => assert_eq!(store.read_blob(&held).unwrap(), b"art"),
        other => panic!("expected CustomBlob, got {other:?}"),
    }
}

#[test]
fn reopening_gives_back_what_was_there_after_many_changes() {
    let dir = tempfile::tempdir().unwrap();
    let path = temp_store_path(&dir);
    let mut store = Store::open(&path).unwrap();
    let card = store.create_database("Card").unwrap();
    let balance = store.create_database("Balance change").unwrap();
    store.add_field(card, "Name", FieldKind::Text).unwrap();
    let gone = store.add_field(card, "Gone", FieldKind::Number).unwrap();
    let kind = FieldKind::Reference { target_database: balance, paired_field: None };
    store.add_field(card, "Balance change", kind).unwrap();
    let options = vec![SelectionOption { name: "so \"rare\"".into(), color: "blue".into() }];
    store.add_field(card, "Rarity", FieldKind::Selection { multi: true, options }).unwrap();
    store.remove_field(card, gone).unwrap();
    let copy = store.duplicate_database_schema(card, "Card Copy").unwrap();
    store.retype_field(copy, store.get_database(copy).unwrap().fields[0].id, FieldKind::Json).unwrap();

    let reopened = Store::open(&path).unwrap();
    for id in [card, balance, copy] {
        let before = store.get_database(id).unwrap();
        let after = reopened.get_database(id).unwrap();
        assert_eq!(after.name, before.name);
        assert_eq!(after.fields, before.fields);
    }
}

#[test]
fn reopening_gives_the_fields_back_in_their_order() {
    let dir = tempfile::tempdir().unwrap();
    let path = temp_store_path(&dir);
    let mut store = Store::open(&path).unwrap();
    let card = store.create_database("Card").unwrap();
    let other = store.create_database("Other").unwrap();
    let fields: Vec<FieldId> =
        (0..3).map(|i| store.add_field(card, &format!("F{i}"), FieldKind::Text).unwrap()).collect();
    store.remove_field(card, fields[0]).unwrap();
    store.remove_field(card, fields[1]).unwrap();
    let late = store.add_field(card, "Late", FieldKind::Text).unwrap();
    let list = |store: &Store| {
        store.get_database(card).unwrap().fields.iter().map(|f| (f.id, f.ordering)).collect::<Vec<_>>()
    };
    assert_eq!(list(&store), [(fields[2], 2), (late, 1)]);
    assert_eq!(list(&Store::open(&path).unwrap()), [(fields[2], 2), (late, 1)]);

    // The last row goes, and the next one is put in its place, in several databases and sessions.
    let mut store = Store::open(&path).unwrap();
    store.remove_field(card, late).unwrap();
    let kind = FieldKind::Reference { target_database: other, paired_field: None };
    store.add_field(card, "Other", kind).unwrap();
    store.add_field(other, "Name", FieldKind::Text).unwrap();
    let own = FieldKind::Reference { target_database: card, paired_field: None };
    store.add_field(card, "Own", own).unwrap();
    store.rename_field(card, fields[2], "First").unwrap();
    store.retype_field(card, fields[2], FieldKind::Json).unwrap();
    let copy = store.duplicate_database_schema(card, "Copy").unwrap();
    let mut reopened = Store::open(&path).unwrap();
    for id in [card, other, copy] {
        assert_eq!(reopened.get_database(id).unwrap(), store.get_database(id).unwrap());
    }
    reopened.add_field(card, "Last", FieldKind::Number).unwrap();
    let again = Store::open(&path).unwrap();
    assert_eq!(again.get_database(card).unwrap(), reopened.get_database(card).unwrap());
    assert_eq!(again.get_database(card).unwrap().fields.last().unwrap().name, "Last");
}

#[test]
fn deleting_a_database_takes_its_records_and_relationships_with_it() {
    let dir = tempfile::tempdir().unwrap();
    let mut store = Store::open(temp_store_path(&dir)).unwrap();
    let card = store.create_database("Card").unwrap();
    let balance = store.create_database("Balance change").unwrap();
    let kind = FieldKind::Reference { target_database: balance, paired_field: None };
    let field = store.add_field(card, "Balance change", kind).unwrap();
    let table = reference_table_name(field, paired(&store, card, field));
    let a = store.create_record(card).unwrap();
    let b = store.create_record(balance).unwrap();
    store.create_reference(a, field, b).unwrap();

    store.delete_database(balance).unwrap();
    assert!(!table_exists(&store.conn, &table).unwrap());
    assert_eq!(store.get_record(b).unwrap_err(), DataLineError::RecordNotFound(b));
    assert!(store.get_record(a).is_ok());
    assert_eq!(count(&store, "SELECT count(*) FROM links"), 1);
    assert_eq!(count(&store, "SELECT count(*) FROM fields"), 0);
}

#[test]
fn a_record_holds_a_value_under_every_field() {
    let dir = tempfile::tempdir().unwrap();
    let mut store = Store::open(temp_store_path(&dir)).unwrap();
    let card = store.create_database("Card").unwrap();
    store.add_field(card, "Name", FieldKind::Text).unwrap();
    let kind = FieldKind::Reference { target_database: card, paired_field: None };
    store.add_field(card, "Related Cards", kind).unwrap();
    let art = store.add_field(card, "Art", FieldKind::Blob).unwrap();
    let link = store.create_record(card).unwrap();
    let blob = store.write_blob(b"art", Some("art.png")).unwrap();
    store.set_value(link, art, Value::Blob(blob.clone())).unwrap();

    let record = store.get_record(link).unwrap();
    let held: HashSet<FieldId> = record.values.fields().into_iter().collect();
    let fields: HashSet<FieldId> = store.get_database(card).unwrap().fields.iter().map(|f| f.id).collect();
    assert_eq!(fields.len(), 4);
    assert_eq!(held, fields);
    assert_eq!(value(&record, art), Value::Blob(blob));
    let listed = store.list_records(card).unwrap();
    assert_eq!(listed.len(), 1);
    for field in fields {
        assert_eq!(value(&listed[0], field), value(&record, field));
    }
}

#[test]
fn being_related_is_mutual() {
    let dir = tempfile::tempdir().unwrap();
    let mut store = Store::open(temp_store_path(&dir)).unwrap();
    let card = store.create_database("Card").unwrap();
    let balance = store.create_database("Balance change").unwrap();
    let out = FieldKind::Reference { target_database: balance, paired_field: None };
    let out = store.add_field(card, "Balance change", out).unwrap();
    let own = FieldKind::Reference { target_database: card, paired_field: None };
    let own = store.add_field(card, "Related Cards", own).unwrap();
    let links = [
        store.create_record(card).unwrap(),
        store.create_record(card).unwrap(),
        store.create_record(balance).unwrap(),
        store.create_record(balance).unwrap(),
    ];
    store.create_reference(links[0], out, links[2]).unwrap();
    store.create_reference(links[0], own, links[1]).unwrap();
    store.create_reference(links[1], own, links[1]).unwrap();
    let related: Vec<Vec<Link>> = links.iter().map(|link| store.related_records(*link).unwrap()).collect();
    for (i, a) in links.iter().enumerate() {
        for (j, b) in links.iter().enumerate() {
            assert_eq!(related[i].contains(b), related[j].contains(a));
        }
    }
    assert!(related[0].contains(&links[1]) && related[0].contains(&links[2]));
    assert_eq!(related[0].len(), 2);
    assert!(related[1].contains(&links[1]));
    assert!(related[3].is_empty());
}

#[test]
fn a_listed_record_is_the_one_got_by_its_link() {
    let dir = tempfile::tempdir().unwrap();
    let mut store = Store::open(temp_store_path(&dir)).unwrap();
    let card = store.create_database("Card").unwrap();
    let name = store.add_field(card, "Name", FieldKind::Text).unwrap();
    let own = FieldKind::Reference { target_database: card, paired_field: None };
    let own = store.add_field(card, "Related Cards", own).unwrap();
    let a = store.create_record(card).unwrap();
    let b = store.create_record(card).unwrap();
    store.set_value(a, name, Value::Text("Ragewind".into())).unwrap();
    store.create_reference(a, own, b).unwrap();
    let fields: Vec<FieldId> = store.get_database(card).unwrap().fields.iter().map(|f| f.id).collect();
    let listed = store.list_records(card).unwrap();
    assert_eq!(listed.len(), 2);
    for record in listed {
        let got = store.get_record(record.link).unwrap();
        assert_eq!(got.link, record.link);
        assert_eq!(got.database_id, record.database_id);
        assert_eq!(got.created_at, record.created_at);
        assert_eq!(got.updated_at, record.updated_at);
        for field in &fields {
            assert_eq!(value(&got, *field), value(&record, *field));
        }
    }
}

#[test]
fn a_retype_names_each_record_that_lost_its_value_once() {
    let dir = tempfile::tempdir().unwrap();
    let mut store = Store::open(temp_store_path(&dir)).unwrap();
    let card = store.create_database("Card").unwrap();
    let cost = store.add_field(card, "Cost", FieldKind::Text).unwrap();
    let links: Vec<Link> = ["3", "NaN", "", "many", "-0", "inf"]
        .iter()
        .map(|text| {
            let link = store.create_record(card).unwrap();
            store.set_value(link, cost, Value::Text(text.to_string())).unwrap();
            link
        })
        .collect();
    let empty = store.create_record(card).unwrap();
    let lost = store.retype_field(card, cost, FieldKind::Number).unwrap().cleared_links;
    assert_eq!(lost.len(), 3);
    for (i, link) in links.iter().enumerate() {
        let now = value(&store.get_record(*link).unwrap(), cost);
        assert_eq!(now == Value::Empty, [1, 2, 3].contains(&i));
        assert_eq!(lost.contains(link), now == Value::Empty);
    }
    assert!(!lost.contains(&empty));
    assert_eq!(value(&store.get_record(links[0]).unwrap(), cost), number(3.0));
    assert_eq!(value(&store.get_record(links[4]).unwrap(), cost), number(0.0));
    assert_eq!(value(&store.get_record(links[5]).unwrap(), cost), number(f64::INFINITY));
}
