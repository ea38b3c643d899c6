use dataline::ffi::dataline_version;
use dataline::ffi::error::{error_from_core, DataLineError};
use dataline::ffi::parse::{parse_database_id, parse_field_id, parse_link, parse_reference_id};
use dataline::ffi::types::{
    database_from_core, field_kind_from_core, field_kind_to_core, record_from_core, reference_from_core,
    retype_report_from_core, value_from_core, value_to_core, FieldKind, Value,
};

#[test]
fn parsing_an_invalid_id_string_errors_clearly_instead_of_panicking() {
    match parse_database_id("not-a-uuid") {
        Err(DataLineError::Storage { message }) => assert!(message.contains("not-a-uuid")),
        other => panic!("expected a Storage error naming the bad id, got {other:?}"),
    }
}

const ID: u128 = 0x0123_4567_89ab_cdef_fedc_ba98_7654_3210;
const TEXT: &str = "01234567-89ab-cdef-fedc-ba9876543210";

#[test]
fn ids_are_read_from_their_text() {
    assert_eq!(parse_database_id(TEXT), Ok(dataline::DatabaseId(ID)));
    assert_eq!(parse_field_id(TEXT), Ok(dataline::FieldId(ID)));
    assert_eq!(parse_link(TEXT), Ok(dataline::Link(ID)));
    assert_eq!(parse_reference_id(TEXT), Ok(dataline::ReferenceId(ID)));
    assert!(parse_link("x").is_err());
}

#[test]
fn errors_say_the_same_as_text() {
    let field = dataline::FieldId(ID);
    for error in [
        dataline::DataLineError::DatabaseNotFound(dataline::DatabaseId(ID)),
        dataline::DataLineError::FieldNotFound(field),
        dataline::DataLineError::RecordNotFound(dataline::Link(ID)),
        dataline::DataLineError::ReferenceNotFound(dataline::ReferenceId(ID)),
        dataline::DataLineError::BlobNotFound(dataline::BlobRef::from_hash("beef")),
        dataline::DataLineError::ValueKindMismatch { field, expected: "text" },
        dataline::DataLineError::UnsupportedFieldKindForValue { field, kind: "reference" },
        dataline::DataLineError::ReferenceTargetDatabaseMismatch {
            field,
            expected: dataline::DatabaseId(1),
            actual: dataline::DatabaseId(2),
        },
        dataline::DataLineError::ReferenceFieldRetypeNotSupported(field),
        dataline::DataLineError::Storage("disk full".to_string()),
    ] {
        let message = error.to_string();
        assert_eq!(error_from_core(error).to_string(), message);
    }
    assert_eq!(
        error_from_core(dataline::DataLineError::FieldNotFound(field)),
        DataLineError::FieldNotFound { id: TEXT.to_string() }
    );
}

#[test]
fn kinds_come_back_without_their_pairing() {
    let own = dataline::FieldKind::Reference {
        target_database: dataline::DatabaseId(ID),
        paired_field: Some(dataline::FieldId(1)),
    };
    let shown = field_kind_from_core(own);
    assert_eq!(
        shown,
        FieldKind::Reference {
            target_database: TEXT.to_string(),
            paired_field: Some("00000000-0000-0000-0000-000000000001".to_string()),
        }
    );
    assert_eq!(
        field_kind_to_core(shown),
        Ok(dataline::FieldKind::Reference { target_database: dataline::DatabaseId(ID), paired_field: None })
    );
    for kind in [
        dataline::FieldKind::Text,
        dataline::FieldKind::Json,
        dataline::FieldKind::Custom { kind_id: "k".into() },
        dataline::FieldKind::CustomBlob { kind_id: "k".into() },
        dataline::FieldKind::Selection {
            multi: true,
            options: vec![dataline::SelectionOption { name: "Rare".into(), color: "blue".into() }],
        },
    ] {
        assert_eq!(field_kind_to_core(field_kind_from_core(kind.clone())), Ok(kind));
    }
    let bad = FieldKind::Reference { target_database: "x".to_string(), paired_field: None };
    assert!(field_kind_to_core(bad).is_err());
}

#[test]
fn values_come_back_without_filenames() {
    let date = dataline::date::Date::from_ymd_opt(2024, 1, 15).unwrap();
    assert_eq!(value_from_core(dataline::Value::Date(date)), Value::Date("2024-01-15".to_string()));
    assert_eq!(
        value_from_core(dataline::Value::Reference(vec![dataline::Link(ID)])),
        Value::Reference(vec![TEXT.to_string()])
    );
    for value in [
        dataline::Value::Text("a".into()),
        dataline::Value::Boolean(true),
        dataline::Value::Selection(vec!["a".into()]),
        dataline::Value::Date(date),
        dataline::Value::Reference(vec![dataline::Link(ID)]),
        dataline::Value::Blob(dataline::BlobRef::from_hash("beef")),
        dataline::Value::Json("{}".into()),
        dataline::Value::Custom { kind_id: "k".into(), data: vec![1] },
        dataline::Value::Empty,
    ] {
        assert_eq!(value_to_core(value_from_core(value.clone())), Ok(value));
    }
    let named = dataline::BlobRef::from_hash_and_filename("beef", Some("a.png".to_string()));
    assert_eq!(
        value_to_core(value_from_core(dataline::Value::Blob(named))),
        Ok(dataline::Value::Blob(dataline::BlobRef::from_hash("beef")))
    );
    assert_eq!(
        value_to_core(Value::Date("soon".to_string())),
        Err(DataLineError::Storage { message: "invalid date: soon".to_string() })
    );
    assert!(value_to_core(Value::Reference(vec!["x".to_string()])).is_err());
}

#[test]
fn a_record_shows_its_times_and_values() {
    let mut values = dataline::record::Values::new();
    values.insert(dataline::FieldId(ID), dataline::Value::Boolean(true));
    let at = dataline::timestamp::Timestamp::parse("2024-01-15T12:30:00+02:00").unwrap();
    let record = dataline::Record {
        link: dataline::Link(1),
        database_id: dataline::DatabaseId(2),
        values,
        created_at: at,
        updated_at: at,
    };
    let shown = record_from_core(record);
    assert_eq!(shown.link, "00000000-0000-0000-0000-000000000001");
    assert_eq!(shown.database_id, "00000000-0000-0000-0000-000000000002");
    assert_eq!(shown.created_at, "2024-01-15T10:30:00+00:00");
    assert_eq!(shown.values, [(TEXT.to_string(), Value::Boolean(true))]);
}

#[test]
fn schemas_references_and_reports_show_their_ids() {
    let field = dataline::FieldDefinition {
        id: dataline::FieldId(ID),
        name: "Name".to_string(),
        kind: dataline::FieldKind::Text,
        ordering: 3,
    };
    let database = dataline::Database { id: dataline::DatabaseId(1), name: "Card".to_string(), fields: vec![field] };
    let shown = database_from_core(&database);
    assert_eq!(shown.id, "00000000-0000-0000-0000-000000000001");
    assert_eq!(shown.name, "Card");
    assert_eq!(shown.fields[0].id, TEXT);
    assert_eq!(shown.fields[0].ordering, 3);
    let reference = reference_from_core(dataline::Reference {
        id: dataline::ReferenceId(ID),
        source_link: dataline::Link(1),
        source_field: dataline::FieldId(2),
        target_link: dataline::Link(3),
        target_field: dataline::FieldId(4),
    });
    assert_eq!(reference.id, TEXT);
    assert_eq!(reference.target_field, "00000000-0000-0000-0000-000000000004");
    let report = retype_report_from_core(dataline::RetypeReport { cleared_links: vec![dataline::Link(ID)] });
    assert_eq!(report.cleared_links, [TEXT]);
    assert_eq!(dataline_version(), "0.1.0");
}
