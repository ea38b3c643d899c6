use dataline::codec::{
    coerce_value as coerce_prepared, decode_scalar_value, encode_scalar_value, number_to_print, number_to_read,
    read_boolean,
};
use dataline::date::Date;
use dataline::number::Number;
use dataline::sql::{Cell, SqlValue};
use dataline::{BlobRef, DatabaseId, FieldId, FieldKind, SelectionOption, Value};

fn number(n: f64) -> Value {
    Value::Number(Number::from_bits(n.to_bits()))
}

/// Coerces with the numbers read and printed as the standard library does.
fn coerce_value(value: &Value, target: &FieldKind) -> Value {
    let read = number_to_read(value, target)
        .and_then(|text| text.parse::<f64>().ok())
        .map(|n| Number::from_bits(n.to_bits()));
    let printed = number_to_print(value, target)
        .map(|n| f64::from_bits(n.to_bits()).to_string())
        .unwrap_or_default();
    coerce_prepared(value, target, read, &printed)
}

#[test]
fn empty_always_stays_empty() {
    for kind in [FieldKind::Text, FieldKind::Number, FieldKind::Boolean, FieldKind::Date, FieldKind::Blob] {
        assert_eq!(coerce_value(&Value::Empty, &kind), Value::Empty);
    }
}

#[test]
fn same_kind_passes_through_unchanged() {
    assert_eq!(coerce_value(&Value::Text("hi".into()), &FieldKind::Text), Value::Text("hi".into()));
    assert_eq!(coerce_value(&number(3.0), &FieldKind::Number), number(3.0));
    assert_eq!(coerce_value(&Value::Boolean(true), &FieldKind::Boolean), Value::Boolean(true));
}

#[test]
fn text_to_number_parses_or_clears() {
    assert_eq!(coerce_value(&Value::Text("3.5".into()), &FieldKind::Number), number(3.5));
    assert_eq!(coerce_value(&Value::Text("not a number".into()), &FieldKind::Number), Value::Empty);
}

#[test]
fn text_to_boolean_only_accepts_true_false_case_insensitive() {
    assert_eq!(coerce_value(&Value::Text("TRUE".into()), &FieldKind::Boolean), Value::Boolean(true));
    assert_eq!(coerce_value(&Value::Text("false".into()), &FieldKind::Boolean), Value::Boolean(false));
    assert_eq!(coerce_value(&Value::Text("yes".into()), &FieldKind::Boolean), Value::Empty);
}

#[test]
fn text_to_date_parses_iso_or_clears() {
    assert_eq!(
        coerce_value(&Value::Text("2024-01-15".into()), &FieldKind::Date),
        Value::Date(Date::from_ymd_opt(2024, 1, 15).unwrap())
    );
    assert_eq!(coerce_value(&Value::Text("not a date".into()), &FieldKind::Date), Value::Empty);
}

#[test]
fn text_to_selection_only_matches_an_existing_option() {
    let options = vec![
        SelectionOption { name: "Common".into(), color: "gray".into() },
        SelectionOption { name: "Rare".into(), color: "blue".into() },
    ];
    let kind = FieldKind::Selection { multi: false, options: options.clone() };
    assert_eq!(coerce_value(&Value::Text("Rare".into()), &kind), Value::Selection(vec!["Rare".into()]));
    assert_eq!(coerce_value(&Value::Text("Mythic".into()), &kind), Value::Empty);
}

#[test]
fn number_to_text_and_boolean() {
    assert_eq!(coerce_value(&number(3.0), &FieldKind::Text), Value::Text("3".into()));
    assert_eq!(coerce_value(&number(0.0), &FieldKind::Boolean), Value::Boolean(false));
    assert_eq!(coerce_value(&number(1.0), &FieldKind::Boolean), Value::Boolean(true));
}

#[test]
fn number_to_date_or_blob_is_not_representable() {
    assert_eq!(coerce_value(&number(3.0), &FieldKind::Date), Value::Empty);
    assert_eq!(coerce_value(&number(3.0), &FieldKind::Blob), Value::Empty);
}

#[test]
fn boolean_to_text_and_number() {
    assert_eq!(coerce_value(&Value::Boolean(true), &FieldKind::Text), Value::Text("true".into()));
    assert_eq!(coerce_value(&Value::Boolean(true), &FieldKind::Number), number(1.0));
    assert_eq!(coerce_value(&Value::Boolean(false), &FieldKind::Number), number(0.0));
}

#[test]
fn selection_to_text_joins_every_selected_name() {
    let value = Value::Selection(vec!["Common".into(), "Rare".into()]);
    assert_eq!(coerce_value(&value, &FieldKind::Text), Value::Text("Common, Rare".into()));
}

#[test]
fn selection_to_number_parses_first_name_or_clears() {
    assert_eq!(coerce_value(&Value::Selection(vec!["3".into()]), &FieldKind::Number), number(3.0));
    assert_eq!(coerce_value(&Value::Selection(vec!["Rare".into()]), &FieldKind::Number), Value::Empty);
}

#[test]
fn selection_narrowed_options_drops_values_that_no_longer_match() {
    // Same field, same kind, but an option was removed — the
    // Selection -> Selection branch, not a cross-kind conversion.
    let narrowed = FieldKind::Selection {
        multi: true,
        options: vec![SelectionOption { name: "Common".into(), color: "gray".into() }],
    };
    assert_eq!(
        coerce_value(&Value::Selection(vec!["Common".into(), "Rare".into()]), &narrowed),
        Value::Selection(vec!["Common".into()]),
        "Rare should be dropped, Common kept"
    );
    assert_eq!(
        coerce_value(&Value::Selection(vec!["Rare".into()]), &narrowed),
        Value::Empty,
        "nothing left selected once the only match is removed"
    );
}

#[test]
fn date_to_text_and_everything_else_not_representable() {
    let date = Date::from_ymd_opt(2024, 1, 15).unwrap();
    assert_eq!(coerce_value(&Value::Date(date), &FieldKind::Text), Value::Text("2024-01-15".into()));
    assert_eq!(coerce_value(&Value::Date(date), &FieldKind::Number), Value::Empty);
}

#[test]
fn blob_never_coerces_into_anything_else() {
    let blob = Value::Blob(BlobRef::from_hash("deadbeef"));
    assert_eq!(coerce_value(&blob, &FieldKind::Text), Value::Empty);
    assert_eq!(coerce_value(&blob, &FieldKind::Number), Value::Empty);
}

#[test]
fn nothing_ever_coerces_into_blob() {
    assert_eq!(coerce_value(&Value::Text("deadbeef".into()), &FieldKind::Blob), Value::Empty);
    assert_eq!(coerce_value(&number(1.0), &FieldKind::Blob), Value::Empty);
}

fn sample_values() -> Vec<(FieldKind, Value)> {
    let option = |name: &str| SelectionOption { name: name.into(), color: "gray".into() };
    let kind_id = "com.example".to_string();
    let blob = BlobRef::from_hash("beef");
    vec![
        (FieldKind::Text, Value::Text("true".into())),
        (FieldKind::Text, Value::Text("{\"a\":1}".into())),
        (FieldKind::Number, number(2.5)),
        (FieldKind::Boolean, Value::Boolean(true)),
        (FieldKind::Date, Value::Date(Date::from_ymd_opt(2024, 1, 15).unwrap())),
        (
            FieldKind::Selection { multi: true, options: vec![option("7"), option("Rare")] },
            Value::Selection(vec!["7".into(), "Rare".into()]),
        ),
        (FieldKind::Blob, Value::Blob(blob.clone())),
        (FieldKind::Json, Value::Json("[]".into())),
        (FieldKind::Custom { kind_id: kind_id.clone() }, Value::Custom { kind_id: kind_id.clone(), data: vec![1] }),
        (FieldKind::CustomBlob { kind_id: kind_id.clone() }, Value::CustomBlob { kind_id, blob }),
    ]
}

#[test]
fn a_kind_keeps_the_values_that_it_can_represent() {
    for (kind, value) in sample_values() {
        assert_eq!(coerce_value(&value, &kind), value);
    }
}

#[test]
fn what_a_value_becomes_is_accepted_by_the_new_kind() {
    for (_, value) in sample_values() {
        for (kind, _) in sample_values() {
            let coerced = coerce_value(&value, &kind);
            assert!(encode_scalar_value(FieldId(1), &kind, &coerced).is_ok());
        }
    }
}

#[test]
fn a_blob_gains_and_loses_a_tag_without_loss() {
    let blob = Value::Blob(BlobRef::from_hash_and_filename("beef", Some("a.png".to_string())));
    let tagged = coerce_value(&blob, &FieldKind::CustomBlob { kind_id: "com.example".into() });
    assert!(matches!(tagged, Value::CustomBlob { .. }));
    let retagged = coerce_value(&tagged, &FieldKind::CustomBlob { kind_id: "com.other".into() });
    assert!(matches!(&retagged, Value::CustomBlob { kind_id, .. } if kind_id == "com.other"));
    assert_eq!(coerce_value(&retagged, &FieldKind::Blob), blob);
}

#[test]
fn text_to_json_and_back() {
    assert_eq!(coerce_value(&Value::Text("[1, 2]".into()), &FieldKind::Json), Value::Json("[1, 2]".into()));
    assert_eq!(coerce_value(&Value::Text("[1, 2".into()), &FieldKind::Json), Value::Empty);
    assert_eq!(coerce_value(&Value::Json("[1, 2]".into()), &FieldKind::Text), Value::Text("[1, 2]".into()));
}

#[test]
fn numbers_that_are_not_zero_are_true() {
    assert_eq!(coerce_value(&number(f64::NAN), &FieldKind::Boolean), Value::Boolean(true));
    assert_eq!(coerce_value(&number(-0.0), &FieldKind::Boolean), Value::Boolean(false));
    assert_eq!(coerce_value(&number(1e21), &FieldKind::Text), Value::Text("1000000000000000000000".into()));
}

#[test]
fn a_selection_of_nothing_has_no_number() {
    assert_eq!(coerce_value(&Value::Selection(vec![]), &FieldKind::Number), Value::Empty);
    assert_eq!(coerce_value(&Value::Selection(vec![]), &FieldKind::Text), Value::Text("".into()));
}

#[test]
fn a_text_that_reads_as_nan_is_not_representable() {
    for text in ["NaN", "nan", "-NaN", "+nan"] {
        assert!(text.parse::<f64>().unwrap().is_nan());
        assert_eq!(coerce_value(&Value::Text(text.into()), &FieldKind::Number), Value::Empty);
        assert_eq!(coerce_value(&Value::Selection(vec![text.into()]), &FieldKind::Number), Value::Empty);
    }
    assert_eq!(coerce_value(&Value::Text("inf".into()), &FieldKind::Number), number(f64::INFINITY));
}

#[test]
fn only_the_two_words_name_truth_values() {
    assert_eq!(read_boolean("true"), Some(true));
    assert_eq!(read_boolean("false"), Some(false));
    for text in ["", "True", "FALSE", "truee", "tru", "1", "yes", " true"] {
        assert_eq!(read_boolean(text), None);
    }
}

#[test]
fn the_case_of_a_truth_value_does_not_matter() {
    for text in ["True", "tRUE", "TRUE", "true"] {
        assert_eq!(coerce_value(&Value::Text(text.into()), &FieldKind::Boolean), Value::Boolean(true));
    }
    assert_eq!(coerce_value(&Value::Text("FaLsE".into()), &FieldKind::Boolean), Value::Boolean(false));
    // Neither of these has a lower-case form that is one of the words.
    assert_eq!(coerce_value(&Value::Text("TRÜE".into()), &FieldKind::Boolean), Value::Empty);
    assert_eq!(coerce_value(&Value::Text("ＴＲＵＥ".into()), &FieldKind::Boolean), Value::Empty);
}

fn there_and_back(value: Value, there: FieldKind, back: FieldKind) {
    assert_eq!(coerce_value(&coerce_value(&value, &there), &back), value);
}

#[test]
fn values_come_back_as_they_were() {
    for b in [true, false] {
        there_and_back(Value::Boolean(b), FieldKind::Text, FieldKind::Boolean);
        there_and_back(Value::Boolean(b), FieldKind::Number, FieldKind::Boolean);
    }
    for n in [0.0, -0.0, 1.5, -2.25, 0.1, 1e300, 5e-324, f64::INFINITY, f64::NEG_INFINITY] {
        there_and_back(number(n), FieldKind::Text, FieldKind::Number);
    }
    for (year, month, day) in [(2024, 2, 29), (1, 1, 1), (-44, 3, 15), (12024, 12, 31)] {
        there_and_back(
            Value::Date(Date::from_ymd_opt(year, month, day).unwrap()),
            FieldKind::Text,
            FieldKind::Date,
        );
    }
    there_and_back(Value::Json("{\"a\": [1, null]}".into()), FieldKind::Text, FieldKind::Json);
    let blob = BlobRef::from_hash_and_filename("abc", Some("a.png".to_string()));
    let tagged = FieldKind::CustomBlob { kind_id: "art".into() };
    there_and_back(Value::Blob(blob.clone()), tagged.clone(), FieldKind::Blob);
    there_and_back(Value::CustomBlob { kind_id: "art".into(), blob }, FieldKind::Blob, tagged);
}

#[test]
fn null_is_empty_under_every_kind() {
    let null = Cell { value: SqlValue::Null, nearest: Number::from_bits(0), shown: "Null".into() };
    for kind in [
        FieldKind::Text,
        FieldKind::Number,
        FieldKind::Boolean,
        FieldKind::Date,
        FieldKind::Selection { multi: true, options: vec![] },
        FieldKind::Blob,
        FieldKind::Json,
        FieldKind::Custom { kind_id: "a".into() },
        FieldKind::CustomBlob { kind_id: "b".into() },
        FieldKind::Reference { target_database: DatabaseId::new(), paired_field: None },
    ] {
        assert_eq!(decode_scalar_value(&kind, &null).unwrap(), Value::Empty);
    }
}
