use dataline::blobs::{bytes_query, exists_query, filename_query};
use dataline::diff::persist_diff;
use dataline::naming::{
    canonical_pair, database_table_name, field_column_name, other_side, reference_side, reference_table_name,
    side_column, ReferenceSide,
};
use dataline::number::Number;
use dataline::opening::{check_schema_version, create_schema_tables, table_exists};
use dataline::queries::Query;
use dataline::sql::SqlValue;
use dataline::steps::{SchemaTable, Step, SCHEMA_VERSION};
use dataline::{
    BlobRef, DataLineError, DatabaseId, FieldDefinition, FieldId, FieldKind, Link, ReferenceId, SchemaRegistry,
    SelectionOption, Store,
};

const DB: DatabaseId = DatabaseId(0xdb);
const LOW: FieldId = FieldId(0xa);
const HIGH: FieldId = FieldId(0xb);
const LINK: Link = Link(0xc);

fn text(text: &str) -> SqlValue {
    SqlValue::Text(text.to_string())
}

fn id(last: &str) -> SqlValue {
    SqlValue::Text(format!("00000000-0000-0000-0000-0000000000{last}"))
}

fn sql(step: &Step) -> String {
    step.statement("").sql
}

fn params(step: &Step) -> Vec<SqlValue> {
    step.statement("").params
}

#[test]
fn tables_and_columns_are_named_by_their_ids() {
    let id = 0x0123_4567_89ab_cdef_fedc_ba98_7654_3210;
    assert_eq!(database_table_name(DatabaseId(id)), "db_0123456789abcdeffedcba9876543210");
    assert_eq!(field_column_name(FieldId(id)), "field_0123456789abcdeffedcba9876543210");
    assert_eq!(reference_table_name(FieldId(id), FieldId(u128::MAX)), "ref_0123456789abcdeffedcba9876543210");
    assert_eq!(reference_table_name(FieldId(u128::MAX), FieldId(id)), "ref_0123456789abcdeffedcba9876543210");
    assert_ne!(database_table_name(DatabaseId(1)), database_table_name(DatabaseId(2)));
    assert_ne!(field_column_name(FieldId(1)), field_column_name(FieldId(2)));
}

#[test]
fn both_fields_of_a_pair_agree_on_its_table() {
    assert_eq!(canonical_pair(LOW, HIGH), (LOW, HIGH));
    assert_eq!(canonical_pair(HIGH, LOW), (LOW, HIGH));
    assert_eq!(reference_side(LOW, HIGH), ReferenceSide::A);
    assert_eq!(reference_side(HIGH, LOW), ReferenceSide::B);
    assert_eq!(side_column(ReferenceSide::A), "link_a");
    assert_eq!(side_column(ReferenceSide::B), "link_b");
    assert_eq!(other_side(ReferenceSide::A), ReferenceSide::B);
    assert_eq!(other_side(ReferenceSide::B), ReferenceSide::A);
}

#[test]
fn a_new_store_gets_its_tables_and_its_version() {
    let steps = create_schema_tables();
    let all: Vec<String> = steps.iter().map(sql).collect();
    assert_eq!(
        all,
        [
            "CREATE TABLE _dataline_meta (key TEXT PRIMARY KEY, value TEXT NOT NULL)",
            "CREATE TABLE databases (id TEXT PRIMARY KEY, name TEXT NOT NULL)",
            "CREATE TABLE fields (id TEXT PRIMARY KEY, database_id TEXT NOT NULL REFERENCES databases(id), \
             name TEXT NOT NULL, kind TEXT NOT NULL, selection_multi INTEGER, selection_options TEXT, \
             reference_target_database TEXT, reference_paired_field TEXT, custom_kind_id TEXT, \
             ordering INTEGER NOT NULL)",
            "CREATE TABLE links (link TEXT PRIMARY KEY, database_id TEXT NOT NULL REFERENCES databases(id))",
            "CREATE TABLE blobs (hash TEXT PRIMARY KEY, bytes BLOB NOT NULL, filename TEXT, \
             created_at TEXT NOT NULL)",
            "INSERT INTO _dataline_meta (key, value) VALUES ('schema_version', ?1)",
        ]
    );
    assert!(steps[..5].iter().all(|step| params(step).is_empty()));
    assert_eq!(params(&steps[5]), [text("3")]);
    assert!(matches!(steps[3], Step::CreateSchemaTable(SchemaTable::Links)));
    assert!(table_exists(1));
    assert!(!table_exists(0));
}

#[test]
fn the_own_version_opens_without_a_change() {
    assert_eq!(SCHEMA_VERSION, 3);
    assert!(check_schema_version("3").unwrap().is_empty());
    assert!(check_schema_version("+3").unwrap().is_empty());
}

#[test]
fn older_versions_walk_forward_step_by_step() {
    let from = |version: &str| check_schema_version(version).unwrap().iter().map(sql).collect::<Vec<_>>();
    let filename = "ALTER TABLE blobs ADD COLUMN filename TEXT";
    let kind = "ALTER TABLE fields ADD COLUMN custom_kind_id TEXT";
    let version = "UPDATE _dataline_meta SET value = ?1 WHERE key = 'schema_version'";
    assert_eq!(from("1"), [filename, kind, version]);
    assert_eq!(from("2"), [kind, version]);
    assert_eq!(params(check_schema_version("2").unwrap().last().unwrap()), [text("3")]);
}

#[test]
fn versions_without_a_way_forward_are_refused() {
    let refused = |version: &str| match check_schema_version(version) {
        Err(DataLineError::Storage(message)) => message,
        other => panic!("expected a Storage error, got {other:?}"),
    };
    assert_eq!(refused("4"), "store schema version 4 is not supported by this build (expected 3)");
    assert_eq!(
        refused("0"),
        "store schema version 0 is not supported by this build (expected 3, no migration from 0)"
    );
    assert_eq!(
        refused("-9223372036854775808"),
        "store schema version -9223372036854775808 is not supported by this build \
         (expected 3, no migration from -9223372036854775808)"
    );
    assert_eq!(refused("three"), "invalid schema_version value: three");
    assert_eq!(refused(""), "invalid schema_version value: ");
    assert_eq!(refused(" 3"), "invalid schema_version value:  3");
    assert_eq!(refused("9223372036854775808"), "invalid schema_version value: 9223372036854775808");
}

#[test]
fn steps_for_records_name_their_table() {
    let step = Step::InsertLink { link: LINK, database_id: DB };
    assert_eq!(sql(&step), "INSERT INTO links (link, database_id) VALUES (?1, ?2)");
    assert_eq!(params(&step), [id("0c"), id("db")]);
    let step = Step::InsertRecord { database_id: DB, link: LINK, now: "noon".into() };
    assert_eq!(
        sql(&step),
        "INSERT INTO \"db_000000000000000000000000000000db\" (link, created_at, updated_at) VALUES (?1, ?2, ?2)"
    );
    assert_eq!(params(&step), [id("0c"), text("noon")]);
    let value = SqlValue::Real(Number::from_bits(1.5f64.to_bits()));
    let step = Step::SetValue { database_id: DB, field: LOW, value: value.clone(), now: "noon".into(), link: LINK };
    assert_eq!(
        sql(&step),
        "UPDATE \"db_000000000000000000000000000000db\" SET \"field_0000000000000000000000000000000a\" = ?1, \
         updated_at = ?2 WHERE link = ?3"
    );
    assert_eq!(params(&step), [value, text("noon"), id("0c")]);
    let step = Step::DeleteRecord { database_id: DB, link: LINK };
    assert_eq!(sql(&step), "DELETE FROM \"db_000000000000000000000000000000db\" WHERE link = ?1");
    let step = Step::DeleteLink { link: LINK };
    assert_eq!(sql(&step), "DELETE FROM links WHERE link = ?1");
    assert_eq!(params(&step), [id("0c")]);
}

#[test]
fn steps_for_relationships_name_the_lower_field() {
    let table = "\"ref_0000000000000000000000000000000a\"";
    let step = Step::InsertReference { field: HIGH, pair: LOW, id: ReferenceId(1), link_a: LINK, link_b: Link(2) };
    assert_eq!(sql(&step), format!("INSERT INTO {table} (id, link_a, link_b) VALUES (?1, ?2, ?3)"));
    assert_eq!(params(&step), [id("01"), id("0c"), id("02")]);
    for (field, pair) in [(LOW, HIGH), (HIGH, LOW)] {
        let step = Step::DeleteReference { field, pair, id: ReferenceId(1) };
        assert_eq!(sql(&step), format!("DELETE FROM {table} WHERE id = ?1"));
        assert_eq!(params(&step), [id("01")]);
    }
    let step = Step::DeleteReferencesOf { field: LOW, pair: HIGH, link: LINK };
    assert_eq!(sql(&step), format!("DELETE FROM {table} WHERE link_a = ?1"));
    let step = Step::DeleteReferencesOf { field: HIGH, pair: LOW, link: LINK };
    assert_eq!(sql(&step), format!("DELETE FROM {table} WHERE link_b = ?1"));
    assert_eq!(params(&step), [id("0c")]);
}

#[test]
fn steps_of_a_retype_replace_the_column() {
    let table = "\"db_000000000000000000000000000000db\"";
    let column = "field_0000000000000000000000000000000a";
    let step = Step::AddSpareColumn { database_id: DB, field: LOW, sql_type: "REAL" };
    assert_eq!(sql(&step), format!("ALTER TABLE {table} ADD COLUMN \"{column}_retype_tmp\" REAL"));
    let step = Step::SetSpareValue { database_id: DB, field: LOW, value: SqlValue::Null, link: "x".into() };
    assert_eq!(sql(&step), format!("UPDATE {table} SET \"{column}_retype_tmp\" = ?1 WHERE link = ?2"));
    assert_eq!(params(&step), [SqlValue::Null, text("x")]);
    let step = Step::DropColumn { database_id: DB, field: LOW };
    assert_eq!(sql(&step), format!("ALTER TABLE {table} DROP COLUMN \"{column}\""));
    let step = Step::RenameSpareColumn { database_id: DB, field: LOW };
    assert_eq!(sql(&step), format!("ALTER TABLE {table} RENAME COLUMN \"{column}_retype_tmp\" TO \"{column}\""));
    let step = Step::UpdateFieldKind { field: LOW, kind: FieldKind::Custom { kind_id: "k".into() } };
    assert_eq!(
        sql(&step),
        "UPDATE fields SET kind = ?1, selection_multi = ?2, selection_options = ?3, reference_target_database = ?4, \
         reference_paired_field = ?5, custom_kind_id = ?6 WHERE id = ?7"
    );
    assert_eq!(
        params(&step),
        [text("custom"), SqlValue::Null, SqlValue::Null, SqlValue::Null, SqlValue::Null, text("k"), id("0a")]
    );
}

#[test]
fn a_selection_is_stored_with_the_json_of_its_options() {
    let kind = FieldKind::Selection {
        multi: true,
        options: vec![SelectionOption { name: "Rare".into(), color: "blue".into() }],
    };
    let field = FieldDefinition { id: LOW, name: "Rarity".into(), kind, ordering: 4 };
    let step = Step::InsertField { database_id: DB, field };
    assert!(matches!(step.kind(), Some(FieldKind::Selection { multi: true, .. })));
    let statement = step.statement("the json");
    assert_eq!(
        statement.sql,
        "INSERT INTO fields (id, database_id, name, kind, selection_multi, selection_options, \
         reference_target_database, reference_paired_field, custom_kind_id, ordering) \
         VALUES (?1, ?2, ?3, ?4, ?5, ?6, ?7, ?8, ?9, ?10)"
    );
    assert_eq!(
        statement.params,
        [
            id("0a"),
            id("db"),
            text("Rarity"),
            text("selection"),
            SqlValue::Integer(1),
            text("the json"),
            SqlValue::Null,
            SqlValue::Null,
            SqlValue::Null,
            SqlValue::Integer(4)
        ]
    );
}

#[test]
fn blobs_are_stored_under_their_hash() {
    let store = Store::open(SchemaRegistry::new());
    let (hash, step) = store.write_blob(b"abc", Some("a.txt"), "noon");
    assert_eq!(hash, "ba7816bf8f01cfea414140de5dae2223b00361a396177a9cb410ff61f20015ad");
    assert_eq!(
        sql(&step),
        "INSERT OR IGNORE INTO blobs (hash, bytes, filename, created_at) VALUES (?1, ?2, ?3, ?4)"
    );
    assert_eq!(params(&step), [text(&hash), SqlValue::Blob(b"abc".to_vec()), text("a.txt"), text("noon")]);
    let (again, step) = store.write_blob(b"abc", None, "later");
    assert_eq!(again, hash);
    assert_eq!(params(&step)[2], SqlValue::Null);
}

#[test]
fn queries_are_exact() {
    let table = "\"db_000000000000000000000000000000db\"";
    let sql = |query: Query| query.statement().sql;
    assert_eq!(
        sql(Query::TableCount { name: "t".into() }),
        "SELECT count(*) FROM sqlite_master WHERE type = 'table' AND name = ?1"
    );
    assert_eq!(sql(Query::SchemaVersion), "SELECT value FROM _dataline_meta WHERE key = 'schema_version'");
    assert_eq!(sql(Query::Databases), "SELECT id, name FROM databases");
    assert_eq!(
        sql(Query::Fields { database_id: DB }),
        "SELECT id, name, kind, selection_multi, selection_options, reference_target_database, \
         reference_paired_field, custom_kind_id, ordering FROM fields WHERE database_id = ?1 ORDER BY rowid"
    );
    assert_eq!(sql(Query::DatabaseOf { link: LINK }), "SELECT database_id FROM links WHERE link = ?1");
    assert_eq!(
        sql(Query::RecordRow { database_id: DB, fields: vec![LOW, HIGH], link: LINK }),
        format!(
            "SELECT created_at, updated_at, \"field_0000000000000000000000000000000a\", \
             \"field_0000000000000000000000000000000b\" FROM {table} WHERE link = ?1"
        )
    );
    assert_eq!(
        sql(Query::RecordRows { database_id: DB, fields: vec![] }),
        format!("SELECT link, created_at, updated_at FROM {table} ORDER BY created_at")
    );
    let joint = "\"ref_0000000000000000000000000000000a\"";
    assert_eq!(
        sql(Query::References { field: LOW, pair: HIGH, link: LINK }),
        format!("SELECT id, link_b FROM {joint} WHERE link_a = ?1")
    );
    assert_eq!(
        sql(Query::References { field: HIGH, pair: LOW, link: LINK }),
        format!("SELECT id, link_a FROM {joint} WHERE link_b = ?1")
    );
    assert_eq!(
        sql(Query::FieldColumn { database_id: DB, field: LOW }),
        format!("SELECT link, \"field_0000000000000000000000000000000a\" FROM {table}")
    );
    let blob = BlobRef::from_hash("beef");
    assert_eq!(exists_query(&blob).statement().sql, "SELECT EXISTS(SELECT 1 FROM blobs WHERE hash = ?1)");
    assert_eq!(bytes_query(&blob).statement().sql, "SELECT bytes FROM blobs WHERE hash = ?1");
    assert_eq!(filename_query("beef").statement().sql, "SELECT filename FROM blobs WHERE hash = ?1");
    assert_eq!(filename_query("beef").statement().params, [text("beef")]);
}

#[test]
fn nothing_is_persisted_where_nothing_changed() {
    let mut registry = SchemaRegistry::new();
    let card = registry.create_database("Card");
    registry.add_field(card, "Name", FieldKind::Text).unwrap();
    assert!(persist_diff(&registry, &registry.clone()).is_empty());
}

#[test]
fn a_new_reference_gets_one_table_from_its_lower_side() {
    let mut registry = SchemaRegistry::new();
    registry.create_database_with_id(DatabaseId(1), "Card");
    registry.create_database_with_id(DatabaseId(2), "Balance change");
    let before = registry.clone();
    let kind = FieldKind::Reference { target_database: DatabaseId(2), paired_field: None };
    registry.add_field_with_ids(DatabaseId(1), "Balance change", kind, HIGH, LOW).unwrap();
    let steps = persist_diff(&before, &registry);
    let all: Vec<String> = steps.iter().map(sql).collect();
    let table = "ref_0000000000000000000000000000000a";
    assert_eq!(all.iter().filter(|sql| sql.starts_with("INSERT INTO fields")).count(), 2);
    assert_eq!(
        all.iter().filter(|sql| !sql.starts_with("INSERT INTO fields")).cloned().collect::<Vec<_>>(),
        [
            format!("CREATE TABLE \"{table}\" (id TEXT PRIMARY KEY, link_a TEXT NOT NULL, link_b TEXT NOT NULL)"),
            format!("CREATE INDEX \"{table}_link_a\" ON \"{table}\" (link_a)"),
            format!("CREATE INDEX \"{table}_link_b\" ON \"{table}\" (link_b)"),
        ]
    );
    let back = persist_diff(&registry, &before);
    let all: Vec<String> = back.iter().map(sql).collect();
    assert_eq!(all.iter().filter(|sql| *sql == "DELETE FROM fields WHERE id = ?1").count(), 2);
    assert_eq!(all.iter().filter(|sql| **sql == format!("DROP TABLE IF EXISTS \"{table}\"")).count(), 1);
    assert_eq!(all.len(), 3);
}

#[test]
fn a_removed_database_is_dropped_last() {
    let mut registry = SchemaRegistry::new();
    registry.create_database_with_id(DB, "Card");
    registry.add_field_with_ids(DB, "Name", FieldKind::Text, LOW, HIGH).unwrap();
    let before = registry.clone();
    registry.remove_database(DB).unwrap();
    let steps = persist_diff(&before, &registry);
    let all: Vec<String> = steps.iter().map(sql).collect();
    assert_eq!(
        all,
        [
            "DELETE FROM fields WHERE id = ?1",
            "DELETE FROM links WHERE database_id = ?1",
            "DELETE FROM databases WHERE id = ?1",
            "DROP TABLE IF EXISTS \"db_000000000000000000000000000000db\"",
        ]
    );
    assert_eq!(params(&steps[2]), [id("db")]);
    let again: Vec<String> = persist_diff(&registry, &before).iter().map(sql).collect();
    assert_eq!(
        again,
        [
            "INSERT INTO databases (id, name) VALUES (?1, ?2)",
            "CREATE TABLE \"db_000000000000000000000000000000db\" \
             (link TEXT PRIMARY KEY, created_at TEXT NOT NULL, updated_at TEXT NOT NULL)",
            "INSERT INTO fields (id, database_id, name, kind, selection_multi, selection_options, \
             reference_target_database, reference_paired_field, custom_kind_id, ordering) \
             VALUES (?1, ?2, ?3, ?4, ?5, ?6, ?7, ?8, ?9, ?10)",
            "ALTER TABLE \"db_000000000000000000000000000000db\" ADD COLUMN \
             \"field_0000000000000000000000000000000a\" TEXT",
        ]
    );
}

#[test]
fn a_renamed_field_is_updated_in_place() {
    let mut registry = SchemaRegistry::new();
    registry.create_database_with_id(DB, "Card");
    registry.add_field_with_ids(DB, "Name", FieldKind::Text, LOW, HIGH).unwrap();
    let before = registry.clone();
    registry.rename_field(DB, LOW, "Title").unwrap();
    let steps = persist_diff(&before, &registry);
    assert_eq!(steps.len(), 1);
    assert_eq!(sql(&steps[0]), "UPDATE fields SET name = ?1, ordering = ?2 WHERE id = ?3");
    assert_eq!(params(&steps[0]), [text("Title"), SqlValue::Integer(0), id("0a")]);
}
