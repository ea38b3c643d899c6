use dataline::opening::load_registry;
use dataline::{DataLineError, Database, DatabaseId, FieldDefinition, FieldId, FieldKind, SchemaRegistry};

#[test]
fn create_database_and_add_scalar_fields() {
    let mut registry = SchemaRegistry::new();
    let card = registry.create_database("Card");

    registry.add_field(card, "Name", FieldKind::Text).unwrap();
    registry.add_field(card, "Cost", FieldKind::Number).unwrap();

    let db = registry.get_database(card).unwrap();
    assert_eq!(db.fields.len(), 2);
    assert_eq!(db.fields[0].name, "Name");
    assert_eq!(db.fields[0].ordering, 0);
    assert_eq!(db.fields[1].ordering, 1);
}

#[test]
fn add_reference_field_creates_paired_back_reference() {
    let mut registry = SchemaRegistry::new();
    let card = registry.create_database("Card");
    let balance = registry.create_database("Balance change");

    let forward_id = registry
        .add_field(card, "Balance change", FieldKind::Reference { target_database: balance, paired_field: None })
        .unwrap();

    let card_db = registry.get_database(card).unwrap();
    let balance_db = registry.get_database(balance).unwrap();

    assert_eq!(balance_db.fields.len(), 1);
    let back_field = &balance_db.fields[0];
    assert_eq!(back_field.name, "Card (via Balance change)");

    match &back_field.kind {
        FieldKind::Reference { target_database, paired_field } => {
            assert_eq!(*target_database, card);
            assert_eq!(*paired_field, Some(forward_id));
        }
        other => panic!("expected Reference, got {other:?}"),
    }

    match &card_db.field(forward_id).unwrap().kind {
        FieldKind::Reference { target_database, paired_field } => {
            assert_eq!(*target_database, balance);
            assert_eq!(*paired_field, Some(back_field.id));
        }
        other => panic!("expected Reference, got {other:?}"),
    }
}

#[test]
fn add_reference_field_ignores_caller_supplied_paired_field() {
    let mut registry = SchemaRegistry::new();
    let card = registry.create_database("Card");
    let balance = registry.create_database("Balance change");

    let bogus = FieldId::new();
    let forward_id = registry
        .add_field(card, "Balance change", FieldKind::Reference { target_database: balance, paired_field: Some(bogus) })
        .unwrap();

    let card_db = registry.get_database(card).unwrap();
    match &card_db.field(forward_id).unwrap().kind {
        FieldKind::Reference { paired_field, .. } => assert_ne!(*paired_field, Some(bogus)),
        other => panic!("expected Reference, got {other:?}"),
    }
}

#[test]
fn remove_reference_field_removes_paired_field() {
    let mut registry = SchemaRegistry::new();
    let card = registry.create_database("Card");
    let balance = registry.create_database("Balance change");

    let forward_id = registry
        .add_field(card, "Balance change", FieldKind::Reference { target_database: balance, paired_field: None })
        .unwrap();

    registry.remove_field(card, forward_id).unwrap();

    assert!(registry.get_database(card).unwrap().fields.is_empty());
    assert!(registry.get_database(balance).unwrap().fields.is_empty());
}

#[test]
fn self_referencing_reference_field() {
    let mut registry = SchemaRegistry::new();
    let card = registry.create_database("Card");

    let forward_id = registry
        .add_field(card, "Related Cards", FieldKind::Reference { target_database: card, paired_field: None })
        .unwrap();

    let card_db = registry.get_database(card).unwrap();
    assert_eq!(card_db.fields.len(), 2, "forward and back field both land on the same database");

    let forward = card_db.field(forward_id).unwrap();
    let back_id = match &forward.kind {
        FieldKind::Reference { paired_field: Some(id), .. } => *id,
        other => panic!("expected paired Reference, got {other:?}"),
    };
    let back = card_db.field(back_id).unwrap();
    match &back.kind {
        FieldKind::Reference { paired_field, .. } => assert_eq!(*paired_field, Some(forward_id)),
        other => panic!("expected Reference, got {other:?}"),
    }
}

#[test]
fn self_referencing_field_removal_cleans_up_both_sides() {
    let mut registry = SchemaRegistry::new();
    let card = registry.create_database("Card");

    let forward_id = registry
        .add_field(card, "Related Cards", FieldKind::Reference { target_database: card, paired_field: None })
        .unwrap();

    registry.remove_field(card, forward_id).unwrap();
    assert!(registry.get_database(card).unwrap().fields.is_empty());
}

#[test]
fn duplicate_database_schema_copies_scalar_fields_and_repairs_external_references() {
    let mut registry = SchemaRegistry::new();
    let card = registry.create_database("Card");
    let balance = registry.create_database("Balance change");

    registry.add_field(card, "Name", FieldKind::Text).unwrap();
    registry
        .add_field(card, "Balance change", FieldKind::Reference { target_database: balance, paired_field: None })
        .unwrap();

    let duplicate = registry.duplicate_database_schema(card, "Card Copy").unwrap();
    let dup_db = registry.get_database(duplicate).unwrap();

    assert_eq!(dup_db.fields.len(), 2);
    assert_eq!(dup_db.fields[0].name, "Name");

    match &dup_db.fields[1].kind {
        FieldKind::Reference { target_database, .. } => assert_eq!(*target_database, balance),
        other => panic!("expected Reference, got {other:?}"),
    }

    // Balance change now has two independent back-reference fields: one for
    // the original Card database, one for the duplicate.
    let balance_db = registry.get_database(balance).unwrap();
    assert_eq!(balance_db.fields.len(), 2);
}

#[test]
fn duplicate_database_schema_remaps_self_reference_to_the_new_database() {
    let mut registry = SchemaRegistry::new();
    let card = registry.create_database("Card");
    registry
        .add_field(card, "Related Cards", FieldKind::Reference { target_database: card, paired_field: None })
        .unwrap();

    let duplicate = registry.duplicate_database_schema(card, "Card Copy").unwrap();
    let dup_db = registry.get_database(duplicate).unwrap();

    assert_eq!(dup_db.fields.len(), 2, "duplicate gets its own self-referencing pair, not a link back to the original");
    for field in &dup_db.fields {
        match &field.kind {
            FieldKind::Reference { target_database, .. } => assert_eq!(*target_database, duplicate),
            other => panic!("expected Reference, got {other:?}"),
        }
    }

    // The original Card database is untouched.
    assert_eq!(registry.get_database(card).unwrap().fields.len(), 2);
}

#[test]
fn add_field_to_missing_database_errors() {
    let mut registry = SchemaRegistry::new();
    let missing = DatabaseId::new();
    let err = registry.add_field(missing, "Name", FieldKind::Text).unwrap_err();
    assert_eq!(err, DataLineError::DatabaseNotFound(missing));
}

#[test]
fn add_reference_field_to_missing_target_errors() {
    let mut registry = SchemaRegistry::new();
    let card = registry.create_database("Card");
    let missing = DatabaseId::new();

    let err = registry
        .add_field(card, "Broken", FieldKind::Reference { target_database: missing, paired_field: None })
        .unwrap_err();
    assert_eq!(err, DataLineError::DatabaseNotFound(missing));
    assert!(registry.get_database(card).unwrap().fields.is_empty(), "no partial field left behind");
}

#[test]
fn remove_database_removes_it() {
    let mut registry = SchemaRegistry::new();
    let card = registry.create_database("Card");
    registry.remove_database(card).unwrap();
    assert_eq!(registry.get_database(card).unwrap_err(), DataLineError::DatabaseNotFound(card));
}

#[test]
fn remove_database_removes_fields_referencing_it_from_other_databases() {
    let mut registry = SchemaRegistry::new();
    let card = registry.create_database("Card");
    let balance = registry.create_database("Balance change");
    registry
        .add_field(card, "Balance change", FieldKind::Reference { target_database: balance, paired_field: None })
        .unwrap();

    registry.remove_database(balance).unwrap();

    assert!(registry.get_database(card).unwrap().fields.is_empty(), "the paired back-reference field on the surviving database is gone too");
}

#[test]
fn remove_database_with_self_reference_leaves_no_trace() {
    let mut registry = SchemaRegistry::new();
    let card = registry.create_database("Card");
    registry
        .add_field(card, "Related Cards", FieldKind::Reference { target_database: card, paired_field: None })
        .unwrap();

    registry.remove_database(card).unwrap();
    assert_eq!(registry.list_databases().len(), 0);
}

#[test]
fn remove_missing_database_errors() {
    let mut registry = SchemaRegistry::new();
    let missing = DatabaseId::new();
    assert_eq!(registry.remove_database(missing).unwrap_err(), DataLineError::DatabaseNotFound(missing));
}

#[test]
fn get_database_missing_errors() {
    let registry = SchemaRegistry::new();
    let missing = DatabaseId::new();
    assert_eq!(registry.get_database(missing).unwrap_err(), DataLineError::DatabaseNotFound(missing));
}

#[test]
fn rename_field_updates_name_only() {
    let mut registry = SchemaRegistry::new();
    let card = registry.create_database("Card");
    let field_id = registry.add_field(card, "Name", FieldKind::Text).unwrap();

    registry.rename_field(card, field_id, "Title").unwrap();

    assert_eq!(registry.get_database(card).unwrap().field(field_id).unwrap().name, "Title");
}

#[test]
fn retype_field_changes_kind_leaves_id_name_ordering_alone() {
    let mut registry = SchemaRegistry::new();
    let card = registry.create_database("Card");
    let field_id = registry.add_field(card, "Cost", FieldKind::Number).unwrap();

    registry.retype_field(card, field_id, FieldKind::Text).unwrap();

    let field = registry.get_database(card).unwrap().field(field_id).unwrap();
    assert_eq!(field.kind, FieldKind::Text);
    assert_eq!(field.id, field_id);
    assert_eq!(field.name, "Cost");
    assert_eq!(field.ordering, 0);
}

#[test]
fn schema_retype_field_rejects_reference_field() {
    let mut registry = SchemaRegistry::new();
    let card = registry.create_database("Card");
    let balance = registry.create_database("Balance change");
    let ref_field = registry
        .add_field(card, "Balance change", FieldKind::Reference { target_database: balance, paired_field: None })
        .unwrap();

    let err = registry.retype_field(card, ref_field, FieldKind::Text).unwrap_err();
    assert_eq!(err, DataLineError::ReferenceFieldRetypeNotSupported(ref_field));
}

#[test]
fn retype_field_rejects_retyping_into_reference() {
    let mut registry = SchemaRegistry::new();
    let card = registry.create_database("Card");
    let balance = registry.create_database("Balance change");
    let field_id = registry.add_field(card, "Name", FieldKind::Text).unwrap();

    let err = registry
        .retype_field(card, field_id, FieldKind::Reference { target_database: balance, paired_field: None })
        .unwrap_err();
    assert_eq!(err, DataLineError::ReferenceFieldRetypeNotSupported(field_id));

    // Untouched — the field is still Text, not left in some half-migrated state.
    assert_eq!(registry.get_database(card).unwrap().field(field_id).unwrap().kind, FieldKind::Text);
}

#[test]
fn retype_field_missing_field_errors() {
    let mut registry = SchemaRegistry::new();
    let card = registry.create_database("Card");
    let missing = FieldId::new();

    let err = registry.retype_field(card, missing, FieldKind::Text).unwrap_err();
    assert_eq!(err, DataLineError::FieldNotFound(missing));
}

fn lone_reference(target: DatabaseId) -> SchemaRegistry {
    let field = FieldDefinition {
        id: FieldId(5),
        name: "Lost".to_string(),
        kind: FieldKind::Reference { target_database: target, paired_field: None },
        ordering: 0,
    };
    load_registry(vec![Database { id: DatabaseId(1), name: "Card".to_string(), fields: vec![field] }])
}

#[test]
fn a_duplication_that_fails_leaves_nothing_behind() {
    let missing = DatabaseId(9);
    let mut registry = lone_reference(missing);
    let err = registry.duplicate_database_schema(DatabaseId(1), "Card Copy").unwrap_err();
    assert_eq!(err, DataLineError::DatabaseNotFound(missing));
    assert_eq!(registry.list_databases().len(), 1);
    assert_eq!(registry.get_database(DatabaseId(1)).unwrap().fields.len(), 1);
}

#[test]
fn duplicating_a_missing_database_errors() {
    let mut registry = SchemaRegistry::new();
    let missing = DatabaseId::new();
    let err = registry.duplicate_database_schema(missing, "Copy").unwrap_err();
    assert_eq!(err, DataLineError::DatabaseNotFound(missing));
    assert!(registry.list_databases().is_empty());
}

#[test]
fn removing_a_field_without_a_pair_removes_just_it() {
    let mut registry = lone_reference(DatabaseId(9));
    registry.remove_field(DatabaseId(1), FieldId(5)).unwrap();
    assert!(registry.get_database(DatabaseId(1)).unwrap().fields.is_empty());
    let err = registry.remove_field(DatabaseId(1), FieldId(5)).unwrap_err();
    assert_eq!(err, DataLineError::FieldNotFound(FieldId(5)));
    let err = registry.remove_field(DatabaseId(2), FieldId(5)).unwrap_err();
    assert_eq!(err, DataLineError::DatabaseNotFound(DatabaseId(2)));
}

#[test]
fn renaming_what_is_missing_errors() {
    let mut registry = lone_reference(DatabaseId(1));
    let err = registry.rename_field(DatabaseId(1), FieldId(6), "Title").unwrap_err();
    assert_eq!(err, DataLineError::FieldNotFound(FieldId(6)));
    let err = registry.rename_field(DatabaseId(2), FieldId(5), "Title").unwrap_err();
    assert_eq!(err, DataLineError::DatabaseNotFound(DatabaseId(2)));
    let err = registry.retype_field(DatabaseId(2), FieldId(5), FieldKind::Text).unwrap_err();
    assert_eq!(err, DataLineError::DatabaseNotFound(DatabaseId(2)));
}

/// Every reference field names a counterpart that names it back.
fn assert_paired(registry: &SchemaRegistry) {
    for database in registry.list_databases() {
        for field in &database.fields {
            if let FieldKind::Reference { target_database, paired_field } = &field.kind {
                let target = registry.get_database(*target_database).unwrap();
                let pair = target.field(paired_field.unwrap()).unwrap();
                let back = FieldKind::Reference { target_database: database.id, paired_field: Some(field.id) };
                assert_eq!(pair.kind, back);
                assert_ne!(pair.id, field.id);
            }
        }
    }
}

#[test]
fn references_stay_paired_through_every_change() {
    let mut registry = SchemaRegistry::new();
    let card = registry.create_database("Card");
    let balance = registry.create_database("Balance change");
    let to = |target: DatabaseId| FieldKind::Reference { target_database: target, paired_field: None };
    let name = registry.add_field(card, "Name", FieldKind::Text).unwrap();
    let first = registry.add_field(card, "Balance change", to(balance)).unwrap();
    assert_paired(&registry);
    registry.add_field(card, "Related Cards", to(card)).unwrap();
    registry.add_field(balance, "Main card", to(card)).unwrap();
    assert_paired(&registry);
    let copy = registry.duplicate_database_schema(card, "Card Copy").unwrap();
    assert_paired(&registry);
    assert_eq!(registry.get_database(copy).unwrap().fields.len(), 5);
    registry.rename_field(card, first, "Changes").unwrap();
    registry.retype_field(card, name, FieldKind::Json).unwrap();
    assert_paired(&registry);
    registry.remove_field(card, first).unwrap();
    assert_paired(&registry);
    registry.remove_database(balance).unwrap();
    assert_paired(&registry);
    assert_eq!(registry.list_databases().len(), 2);
}

#[test]
fn a_field_is_found_wherever_it_is() {
    let mut registry = SchemaRegistry::new();
    let card = registry.create_database("Card");
    let name = registry.add_field(card, "Name", FieldKind::Text).unwrap();
    let (owner, field) = registry.find_field(name).unwrap();
    assert_eq!(owner, card);
    assert_eq!(field.name, "Name");
    assert!(registry.find_field(FieldId::new()).is_none());
}

#[test]
fn a_database_under_an_id_that_is_taken_replaces_the_other() {
    let mut registry = SchemaRegistry::new();
    registry.create_database_with_id(DatabaseId(1), "Card");
    registry.create_database_with_id(DatabaseId(1), "Deck");
    assert_eq!(registry.list_databases().len(), 1);
    assert_eq!(registry.get_database(DatabaseId(1)).unwrap().name, "Deck");
}

fn snapshot(registry: &SchemaRegistry) -> Vec<Database> {
    registry.list_databases().into_iter().cloned().collect()
}

#[test]
fn removing_a_field_just_added_undoes_adding_it() {
    let mut registry = SchemaRegistry::new();
    let card = registry.create_database("Card");
    let balance = registry.create_database("Balance change");
    registry.add_field(card, "Name", FieldKind::Text).unwrap();
    registry.add_field(card, "Related", FieldKind::Reference { target_database: card, paired_field: None }).unwrap();
    let before = snapshot(&registry);

    let plain = registry.add_field(card, "Cost", FieldKind::Number).unwrap();
    registry.remove_field(card, plain).unwrap();
    assert_eq!(snapshot(&registry), before);

    for target in [balance, card] {
        let kind = FieldKind::Reference { target_database: target, paired_field: None };
        let field = registry.add_field(card, "Ref", kind.clone()).unwrap();
        registry.remove_field(card, field).unwrap();
        assert_eq!(snapshot(&registry), before);

        registry.add_field(card, "Ref", kind).unwrap();
        let back = registry.get_database(target).unwrap().fields.last().unwrap().id;
        registry.remove_field(target, back).unwrap();
        assert_eq!(snapshot(&registry), before);
    }
}

#[test]
fn the_list_of_databases_keeps_count() {
    let mut registry = SchemaRegistry::new();
    assert!(registry.list_databases().is_empty());
    let card = registry.create_database("Card");
    let balance = registry.create_database("Balance change");
    assert_eq!(registry.list_databases().len(), 2);
    assert!(registry.remove_database(DatabaseId::new()).is_err());
    assert_eq!(registry.list_databases().len(), 2);
    registry.remove_database(card).unwrap();
    assert_eq!(registry.list_databases().len(), 1);
    assert_eq!(registry.list_databases()[0].id, balance);
}

#[test]
fn a_field_just_added_is_found_under_its_name() {
    let mut registry = SchemaRegistry::new();
    let card = registry.create_database("Card");
    let id = registry.add_field(card, "Cost", FieldKind::Number).unwrap();
    let (owner, field) = registry.find_field(id).unwrap();
    assert_eq!(owner, card);
    assert_eq!(field.name, "Cost");
    assert!(registry.find_field(FieldId::new()).is_none());
}

#[test]
fn a_failed_duplication_names_the_missing_database() {
    let missing = DatabaseId::new();
    let mut registry = lone_reference(missing);
    let source = registry.list_databases()[0].id;
    let error = registry.duplicate_database_schema(source, "Copy").unwrap_err();
    assert_eq!(error, DataLineError::DatabaseNotFound(missing));
}
