use dataline::codec::{
    decode_scalar_value, encode_scalar_value, expect_blob, expect_integer, expect_real, expect_text,
};
use dataline::date::Date;
use dataline::digest::sha256_hex;
use dataline::hex::hex_text;
use dataline::kind::{decode_kind, encode_kind, kind_label, parse_uuid, reference_pairing, scalar_sql_type};
use dataline::number::Number;
use dataline::record::Values;
use dataline::records::{hydrate_blob_filename, parse_rfc3339};
use dataline::sql::{Cell, SqlValue};
use dataline::text::{join, same_text};
use dataline::timestamp::{Timestamp, FIRST_WRITTEN_SECOND, LAST_WRITTEN_SECOND};
use dataline::uuids::read_uuid;
use dataline::{
    BlobRef, DataLineError, DatabaseId, FieldDefinition, FieldId, FieldKind, Link, ReferenceId, SelectionOption, Value,
};

fn number(n: f64) -> Number {
    Number::from_bits(n.to_bits())
}

fn cell(value: SqlValue) -> Cell {
    let nearest = match &value {
        SqlValue::Integer(n) => *n as f64,
        _ => 0.0,
    };
    Cell { value, nearest: number(nearest), shown: "what was read".to_string() }
}

const ID: u128 = 0x0123_4567_89ab_cdef_fedc_ba98_7654_3210;

#[test]
fn ids_print_as_hyphenated_text() {
    let text = "01234567-89ab-cdef-fedc-ba9876543210";
    assert_eq!(DatabaseId::from_uuid(ID).to_string(), text);
    assert_eq!(FieldId::from_uuid(ID).to_string(), text);
    assert_eq!(Link::from_uuid(ID).to_string(), text);
    assert_eq!(ReferenceId::from_uuid(ID).to_string(), text);
    assert_eq!(Link::from_uuid(ID).as_uuid(), ID);
}

#[test]
fn fresh_ids_differ() {
    assert_ne!(DatabaseId::new(), DatabaseId::new());
    assert_ne!(FieldId::new(), FieldId::new());
    assert_ne!(Link::new(), Link::new());
    assert_ne!(ReferenceId::new(), ReferenceId::new());
}

#[test]
fn fresh_ids_are_uuids_of_version_four() {
    for _ in 0..64 {
        for text in [
            DatabaseId::new().to_string(),
            FieldId::new().to_string(),
            Link::new().to_string(),
            ReferenceId::new().to_string(),
        ] {
            let digits: Vec<char> = text.chars().collect();
            assert_eq!(digits[14], '4');
            assert!(['8', '9', 'a', 'b'].contains(&digits[19]));
        }
    }
}

#[test]
fn an_id_reads_back_from_its_text() {
    assert_eq!(read_uuid("01234567-89ab-cdef-fedc-ba9876543210"), Ok(ID));
    assert_eq!(parse_uuid("00000000-0000-0000-0000-000000000000"), Ok(0));
    assert_eq!(parse_uuid("ffffffff-ffff-ffff-ffff-ffffffffffff"), Ok(u128::MAX));
}

#[test]
fn other_notations_of_an_id_are_read_too() {
    assert_eq!(read_uuid("0123456789abcdeffedcba9876543210"), Ok(ID));
    assert_eq!(read_uuid("01234567-89AB-CDEF-FEDC-BA9876543210"), Ok(ID));
    assert_eq!(read_uuid("{01234567-89ab-cdef-fedc-ba9876543210}"), Ok(ID));
    assert_eq!(read_uuid("urn:uuid:01234567-89ab-cdef-fedc-ba9876543210"), Ok(ID));
}

#[test]
fn a_text_that_is_no_id_is_a_storage_error() {
    match parse_uuid("not-a-uuid") {
        Err(DataLineError::Storage(message)) => assert!(!message.is_empty()),
        other => panic!("expected a Storage error, got {other:?}"),
    }
    assert!(read_uuid("").is_err());
}

#[test]
fn bytes_print_as_lower_case_hex() {
    assert_eq!(hex_text(&[]), "");
    assert_eq!(hex_text(&[0x00, 0x0f, 0xa0, 0xff]), "000fa0ff");
}

#[test]
fn content_hashes_are_sha_256() {
    assert_eq!(sha256_hex(b"abc"), "ba7816bf8f01cfea414140de5dae2223b00361a396177a9cb410ff61f20015ad");
    assert_eq!(sha256_hex(b""), "e3b0c44298fc1c149afbf4c8996fb92427ae41e4649b934ca495991b7852b855");
}

#[test]
fn numbers_compare_as_doubles_do() {
    assert_eq!(number(1.5), number(1.5));
    assert_ne!(number(1.5), number(2.5));
    assert_eq!(number(0.0), number(-0.0));
    assert_ne!(number(f64::NAN), number(f64::NAN));
    assert_eq!(number(f64::INFINITY), number(f64::INFINITY));
    assert!(number(f64::NAN).is_nan());
    assert!(!number(f64::NEG_INFINITY).is_nan());
    assert!(number(-0.0).is_zero());
    assert!(!number(5e-324).is_zero());
    assert_eq!(Number::from_bool(true), number(1.0));
    assert_eq!(Number::from_bool(false), number(0.0));
    assert_eq!(number(3.5).to_bits(), 3.5f64.to_bits());
}

#[test]
fn only_dates_of_the_calendar_exist() {
    assert!(Date::from_ymd_opt(2024, 2, 29).is_some());
    assert!(Date::from_ymd_opt(2023, 2, 29).is_none());
    assert!(Date::from_ymd_opt(1900, 2, 29).is_none());
    assert!(Date::from_ymd_opt(2000, 2, 29).is_some());
    assert!(Date::from_ymd_opt(2024, 4, 31).is_none());
    assert!(Date::from_ymd_opt(2024, 0, 1).is_none());
    assert!(Date::from_ymd_opt(2024, 13, 1).is_none());
    assert!(Date::from_ymd_opt(2024, 1, 0).is_none());
    assert!(Date::from_ymd_opt(-262143, 1, 1).is_some());
    assert!(Date::from_ymd_opt(262142, 12, 31).is_some());
    assert!(Date::from_ymd_opt(-262144, 12, 31).is_none());
    assert!(Date::from_ymd_opt(262143, 1, 1).is_none());
}

#[test]
fn dates_print_in_iso_form() {
    assert_eq!(Date::from_ymd_opt(2024, 1, 5).unwrap().to_string(), "2024-01-05");
    assert_eq!(Date::from_ymd_opt(7, 12, 31).unwrap().to_string(), "0007-12-31");
    assert_eq!(Date::from_ymd_opt(0, 1, 1).unwrap().to_string(), "0000-01-01");
    assert_eq!(Date::from_ymd_opt(-1, 12, 31).unwrap().to_string(), "-0001-12-31");
    assert_eq!(Date::from_ymd_opt(9999, 12, 31).unwrap().to_string(), "9999-12-31");
    assert_eq!(Date::from_ymd_opt(10000, 1, 1).unwrap().to_string(), "+10000-01-01");
    assert_eq!(Date::from_ymd_opt(-262143, 1, 1).unwrap().to_string(), "-262143-01-01");
}

#[test]
fn a_date_reads_back_from_its_text() {
    for (year, month, day) in [
        (2024, 1, 15),
        (7, 12, 31),
        (0, 1, 1),
        (-1, 12, 31),
        (-10000, 6, 30),
        (10000, 1, 1),
        (-262143, 1, 1),
        (262142, 12, 31),
        (2024, 2, 29),
    ] {
        let date = Date::from_ymd_opt(year, month, day).unwrap();
        assert_eq!(Date::parse(&date.to_string()), Some(date));
        assert_eq!((date.year(), date.month(), date.day()), (year, month, day));
    }
    assert_eq!(Date::parse("2023-02-29"), None);
    assert_eq!(Date::parse("yesterday"), None);
}

#[test]
fn times_are_taken_to_universal_time() {
    let noon = Timestamp::parse("1970-01-02T02:00:01.5+02:00").unwrap();
    assert_eq!(noon.seconds(), 86_401);
    assert_eq!(noon.nanoseconds(), 500_000_000);
    assert_eq!(noon.to_rfc3339(), "1970-01-02T00:00:01.500+00:00");
    assert_eq!(parse_rfc3339("1969-12-31T23:59:59Z").unwrap().seconds(), -1);
    assert!(Timestamp::parse("1970-01-01T00:00:00Z").unwrap() < Timestamp::parse("1970-01-01T00:00:01Z").unwrap());
}

#[test]
fn a_leap_second_is_kept() {
    let leap = Timestamp::parse("2016-12-31T23:59:60Z").unwrap();
    assert_eq!(leap.nanoseconds(), 1_000_000_000);
    assert_eq!(leap.to_rfc3339(), "2016-12-31T23:59:60+00:00");
}

#[test]
fn a_bad_time_is_a_storage_error() {
    match parse_rfc3339("noon") {
        Err(DataLineError::Storage(message)) => assert!(!message.is_empty()),
        other => panic!("expected a Storage error, got {other:?}"),
    }
}

#[test]
fn texts_join_with_separators_between() {
    assert_eq!(join(&vec![], ", "), "");
    assert_eq!(join(&vec!["a".to_string()], ", "), "a");
    assert_eq!(join(&vec!["a".to_string(), String::new(), "c".to_string()], ", "), "a, , c");
    assert!(same_text("Straße", "Straße"));
    assert!(!same_text("a", "A"));
}

fn every_kind() -> Vec<FieldKind> {
    vec![
        FieldKind::Text,
        FieldKind::Number,
        FieldKind::Boolean,
        FieldKind::Date,
        FieldKind::Selection {
            multi: true,
            options: vec![SelectionOption { name: "Rare".into(), color: "blue".into() }],
        },
        FieldKind::Blob,
        FieldKind::Json,
        FieldKind::Custom { kind_id: "com.example.a".into() },
        FieldKind::CustomBlob { kind_id: "com.example.b".into() },
        FieldKind::Reference { target_database: DatabaseId(1), paired_field: Some(FieldId(2)) },
    ]
}

#[test]
fn kinds_have_labels_and_column_types() {
    let labels: Vec<&str> = every_kind().iter().map(kind_label).collect();
    assert_eq!(
        labels,
        ["text", "number", "boolean", "date", "selection", "blob", "json", "custom", "custom_blob", "reference"]
    );
    let types: Vec<Option<&str>> = every_kind().iter().map(scalar_sql_type).collect();
    assert_eq!(
        types,
        [
            Some("TEXT"),
            Some("REAL"),
            Some("INTEGER"),
            Some("TEXT"),
            Some("TEXT"),
            Some("TEXT"),
            Some("TEXT"),
            Some("BLOB"),
            Some("TEXT"),
            None
        ]
    );
}

#[test]
fn a_stored_kind_reads_back() {
    for kind in every_kind() {
        let options = match &kind {
            FieldKind::Selection { options, .. } => Some(Ok(options.clone())),
            _ => None,
        };
        let stored = encode_kind(&kind, "[]");
        assert_eq!(
            decode_kind(
                stored.kind_tag,
                stored.selection_multi,
                options,
                stored.reference_target_database,
                stored.reference_paired_field,
                stored.custom_kind_id,
            ),
            Ok(kind)
        );
    }
}

#[test]
fn a_stored_selection_without_columns_has_no_options() {
    assert_eq!(
        decode_kind("selection", None, None, None, None, None),
        Ok(FieldKind::Selection { multi: false, options: vec![] })
    );
    assert_eq!(
        decode_kind("selection", Some(7), Some(Ok(vec![])), None, None, None),
        Ok(FieldKind::Selection { multi: true, options: vec![] })
    );
}

#[test]
fn a_stored_kind_that_makes_no_sense_is_refused() {
    let error = |message: &str| Err(DataLineError::Storage(message.to_string()));
    assert_eq!(decode_kind("page", None, None, None, None, None), error("unknown field kind 'page' in store"));
    assert_eq!(
        decode_kind("reference", None, None, None, None, None),
        error("reference field missing target database")
    );
    assert_eq!(decode_kind("custom", None, None, None, None, None), error("custom field missing kind_id"));
    assert_eq!(decode_kind("custom_blob", None, None, None, None, None), error("custom_blob field missing kind_id"));
    assert_eq!(
        decode_kind("selection", None, Some(Err("bad options".to_string())), None, None, None),
        error("bad options")
    );
    assert!(decode_kind("reference", None, None, Some("x".to_string()), None, None).is_err());
    // What another kind's columns hold is not looked at.
    assert_eq!(
        decode_kind("text", None, Some(Err("bad options".to_string())), Some("x".to_string()), None, None),
        Ok(FieldKind::Text)
    );
}

#[test]
fn only_a_paired_reference_has_a_pairing() {
    let field = |kind: FieldKind| FieldDefinition { id: FieldId(ID), name: "F".into(), kind, ordering: 0 };
    let paired = FieldKind::Reference { target_database: DatabaseId(1), paired_field: Some(FieldId(2)) };
    assert_eq!(reference_pairing(&field(paired)), Ok((DatabaseId(1), FieldId(2))));
    let alone = FieldKind::Reference { target_database: DatabaseId(1), paired_field: None };
    assert_eq!(
        reference_pairing(&field(alone)),
        Err(DataLineError::Storage(
            "reference field 01234567-89ab-cdef-fedc-ba9876543210 is missing its paired field".to_string()
        ))
    );
    assert_eq!(
        reference_pairing(&field(FieldKind::Date)),
        Err(DataLineError::UnsupportedFieldKindForValue { field: FieldId(ID), kind: "date" })
    );
}

#[test]
fn values_are_written_in_their_columns_form() {
    let field = FieldId(ID);
    let selection = FieldKind::Selection { multi: true, options: vec![] };
    let custom = FieldKind::Custom { kind_id: "k".into() };
    let custom_blob = FieldKind::CustomBlob { kind_id: "k".into() };
    let blob = BlobRef::from_hash_and_filename("beef", Some("a.png".to_string()));
    for (kind, value, held) in [
        (FieldKind::Text, Value::Text("hi".into()), SqlValue::Text("hi".into())),
        (FieldKind::Number, Value::Number(number(2.5)), SqlValue::Real(number(2.5))),
        (FieldKind::Boolean, Value::Boolean(true), SqlValue::Integer(1)),
        (FieldKind::Boolean, Value::Boolean(false), SqlValue::Integer(0)),
        (
            FieldKind::Date,
            Value::Date(Date::from_ymd_opt(2024, 1, 15).unwrap()),
            SqlValue::Text("2024-01-15".into()),
        ),
        (
            selection,
            Value::Selection(vec!["Common".into(), "so \"rare\"".into()]),
            SqlValue::Text("[\"Common\",\"so \\\"rare\\\"\"]".into()),
        ),
        (FieldKind::Blob, Value::Blob(blob.clone()), SqlValue::Text("beef".into())),
        (FieldKind::Json, Value::Json("{ \"a\": 1 }".into()), SqlValue::Text("{ \"a\": 1 }".into())),
        (custom, Value::Custom { kind_id: "k".into(), data: vec![1, 2] }, SqlValue::Blob(vec![1, 2])),
        (custom_blob, Value::CustomBlob { kind_id: "k".into(), blob }, SqlValue::Text("beef".into())),
        (FieldKind::Text, Value::Empty, SqlValue::Null),
        (FieldKind::Number, Value::Empty, SqlValue::Null),
    ] {
        assert_eq!(encode_scalar_value(field, &kind, &value), Ok(held.clone()));
        let read = decode_scalar_value(&kind, &cell(held)).unwrap();
        let expected = match value {
            Value::Blob(blob) => Value::Blob(BlobRef::from_hash(blob.hash())),
            Value::CustomBlob { kind_id, blob } => {
                Value::CustomBlob { kind_id, blob: BlobRef::from_hash(blob.hash()) }
            }
            other => other,
        };
        assert_eq!(read, expected);
    }
}

#[test]
fn values_of_another_kind_are_refused() {
    let field = FieldId(ID);
    for kind in every_kind() {
        let refused = Err(DataLineError::ValueKindMismatch { field, expected: kind_label(&kind) });
        assert_eq!(encode_scalar_value(field, &kind, &Value::Reference(vec![Link(1)])), refused);
        assert_eq!(encode_scalar_value(field, &kind, &Value::Empty), Ok(SqlValue::Null));
        assert_eq!(
            encode_scalar_value(field, &kind, &Value::Custom { kind_id: "other".into(), data: vec![] }),
            refused
        );
    }
    assert_eq!(
        encode_scalar_value(
            field,
            &FieldKind::CustomBlob { kind_id: "a".into() },
            &Value::CustomBlob { kind_id: "b".into(), blob: BlobRef::from_hash("beef") }
        ),
        Err(DataLineError::ValueKindMismatch { field, expected: "custom_blob" })
    );
}

#[test]
fn malformed_json_is_named_in_the_error() {
    match encode_scalar_value(FieldId(ID), &FieldKind::Json, &Value::Json("not json".into())) {
        Err(DataLineError::Storage(message)) => {
            assert!(message.starts_with("invalid JSON value: "));
            assert!(message.len() > "invalid JSON value: ".len());
        }
        other => panic!("expected a Storage error, got {other:?}"),
    }
}

#[test]
fn columns_of_the_wrong_type_are_refused() {
    let error = |message: &str| DataLineError::Storage(message.to_string());
    let text = cell(SqlValue::Text("x".into()));
    let integer = cell(SqlValue::Integer(3));
    assert_eq!(expect_text(&text), Ok("x".to_string()));
    assert_eq!(expect_text(&integer).unwrap_err(), error("expected a TEXT column value, got what was read"));
    assert_eq!(expect_real(&integer), Ok(number(3.0)));
    assert_eq!(expect_real(&cell(SqlValue::Real(number(2.5)))), Ok(number(2.5)));
    assert_eq!(expect_real(&text).unwrap_err(), error("expected a REAL column value, got what was read"));
    assert_eq!(expect_integer(&integer), Ok(3));
    assert_eq!(expect_integer(&text).unwrap_err(), error("expected an INTEGER column value, got what was read"));
    assert_eq!(expect_blob(&cell(SqlValue::Blob(vec![9]))), Ok(vec![9]));
    assert_eq!(expect_blob(&text).unwrap_err(), error("expected a BLOB column value, got what was read"));
}

#[test]
fn columns_that_hold_nonsense_are_refused() {
    assert_eq!(
        decode_scalar_value(&FieldKind::Date, &cell(SqlValue::Text("soon".into()))),
        Err(DataLineError::Storage("invalid stored date: soon".to_string()))
    );
    let selection = FieldKind::Selection { multi: false, options: vec![] };
    assert!(matches!(
        decode_scalar_value(&selection, &cell(SqlValue::Text("{}".into()))),
        Err(DataLineError::Storage(_))
    ));
    assert_eq!(decode_scalar_value(&FieldKind::Boolean, &cell(SqlValue::Integer(-4))), Ok(Value::Boolean(true)));
    assert_eq!(decode_scalar_value(&FieldKind::Date, &cell(SqlValue::Null)), Ok(Value::Empty));
}

#[test]
fn values_hold_one_value_per_field() {
    let mut values = Values::new();
    assert_eq!(values.get(&FieldId(1)), None);
    values.insert(FieldId(1), Value::Text("a".into()));
    values.insert(FieldId(2), Value::Boolean(true));
    values.insert(FieldId(1), Value::Text("b".into()));
    assert_eq!(values.get(&FieldId(1)), Some(&Value::Text("b".into())));
    assert_eq!(values.get(&FieldId(2)), Some(&Value::Boolean(true)));
    let mut fields = values.fields();
    fields.sort();
    assert_eq!(fields, [FieldId(1), FieldId(2)]);
    assert_eq!(values.clone().get(&FieldId(2)), Some(&Value::Boolean(true)));
}

#[test]
fn only_handles_take_a_filename() {
    let mut blob = Value::Blob(BlobRef::from_hash("beef"));
    hydrate_blob_filename(&mut blob, Some("a.png".to_string()));
    assert_eq!(blob, Value::Blob(BlobRef::from_hash_and_filename("beef", Some("a.png".to_string()))));
    let mut text = Value::Text("beef".into());
    hydrate_blob_filename(&mut text, Some("a.png".to_string()));
    assert_eq!(text, Value::Text("beef".into()));
}

#[test]
fn handles_match_by_hash_alone() {
    let named = Value::Blob(BlobRef::from_hash_and_filename("beef", Some("a.png".to_string())));
    assert!(named.matches(&Value::Blob(BlobRef::from_hash("beef"))));
    assert!(!named.matches(&Value::Blob(BlobRef::from_hash("cafe"))));
    assert!(!named.matches(&Value::Text("beef".into())));
    assert!(!Value::Number(number(f64::NAN)).matches(&Value::Number(number(f64::NAN))));
    assert!(Value::Number(number(0.0)).matches(&Value::Number(number(-0.0))));
    assert!(Value::Empty.matches(&Value::Empty));
}

#[test]
fn a_handle_shows_its_hash() {
    let blob = BlobRef::from_hash_and_filename("beef", Some("a.png".to_string()));
    assert_eq!(blob.hash(), "beef");
    assert_eq!(blob.filename(), Some("a.png"));
    assert_eq!(blob.to_string(), "beef");
}

#[test]
fn errors_have_messages() {
    let field = FieldId(ID);
    let text = "01234567-89ab-cdef-fedc-ba9876543210";
    for (error, message) in [
        (DataLineError::DatabaseNotFound(DatabaseId(ID)), format!("database not found: {text}")),
        (DataLineError::FieldNotFound(field), format!("field not found: {text}")),
        (DataLineError::RecordNotFound(Link(ID)), format!("record not found: {text}")),
        (DataLineError::ReferenceNotFound(ReferenceId(ID)), format!("reference not found: {text}")),
        (DataLineError::BlobNotFound(BlobRef::from_hash("beef")), "blob not found: beef".to_string()),
        (
            DataLineError::ValueKindMismatch { field, expected: "text" },
            format!("value for field '{text}' does not match its kind (expected text)"),
        ),
        (
            DataLineError::UnsupportedFieldKindForValue { field, kind: "reference" },
            format!("field '{text}' has kind 'reference', which record value operations don't support yet"),
        ),
        (
            DataLineError::ReferenceTargetDatabaseMismatch { field, expected: DatabaseId(ID), actual: DatabaseId(0) },
            format!(
                "field '{text}' points at database {text}, but the given record belongs to \
                 00000000-0000-0000-0000-000000000000"
            ),
        ),
        (
            DataLineError::ReferenceFieldRetypeNotSupported(field),
            format!("field '{text}' is a reference field; retyping is only supported between scalar kinds"),
        ),
        (DataLineError::Storage("disk full".to_string()), "storage error: disk full".to_string()),
    ] {
        assert_eq!(error.to_string(), message);
    }
}

#[test]
fn an_instant_reads_back_from_its_text() {
    for text in [
        "0000-01-01T00:00:00+00:00",
        "9999-12-31T23:59:59.999999999+00:00",
        "2024-05-06T07:08:09.120+00:00",
        "2024-05-06T07:08:09.000012+00:00",
        "2016-12-31T23:59:60.500+00:00",
        "1969-12-31T23:59:59.000000001+00:00",
    ] {
        let instant = Timestamp::parse(text).unwrap();
        assert_eq!(instant.to_rfc3339(), text);
        assert_eq!(Timestamp::parse(&instant.to_rfc3339()), Ok(instant));
    }
    let first = Timestamp::parse("0000-01-01T00:00:00Z").unwrap();
    assert_eq!(first.seconds(), FIRST_WRITTEN_SECOND);
    let last = Timestamp::parse("9999-12-31T23:59:59Z").unwrap();
    assert_eq!(last.seconds(), LAST_WRITTEN_SECOND);
    // Taking the last hours to universal time may leave the years of four digits.
    let later = Timestamp::parse("9999-12-31T23:59:59-01:00").unwrap();
    assert_eq!(later.to_rfc3339(), "+10000-01-01T00:59:59+00:00");
    assert!(Timestamp::parse(&later.to_rfc3339()).is_err());
}

#[test]
fn the_texts_of_instants_sort_by_time() {
    let texts = [
        "0000-01-01T00:00:00+00:00",
        "0999-12-31T23:59:59.999999999+00:00",
        "1969-12-31T23:59:59.999+00:00",
        "1970-01-01T00:00:00+00:00",
        "1970-01-01T00:00:00.000000001+00:00",
        "1970-01-01T00:00:00.000001+00:00",
        "1970-01-01T00:00:00.001+00:00",
        "1970-01-01T00:00:00.001000001+00:00",
        "1970-01-01T00:00:00.001001+00:00",
        "1970-01-01T00:00:00.999999999+00:00",
        "1970-01-01T00:00:01+00:00",
        "2016-12-31T23:59:59.999999999+00:00",
        "2016-12-31T23:59:60+00:00",
        "2016-12-31T23:59:60.500+00:00",
        "2017-01-01T00:00:00+00:00",
        "9999-12-31T23:59:59.999999999+00:00",
    ];
    let instants: Vec<Timestamp> = texts.iter().map(|text| Timestamp::parse(text).unwrap()).collect();
    for (i, a) in instants.iter().enumerate() {
        assert_eq!(a.to_rfc3339(), texts[i]);
        for b in &instants[i + 1..] {
            assert!(a < b);
            assert!(a.to_rfc3339() < b.to_rfc3339());
        }
    }
}
