//! How a field's kind is labelled and stored.

use vstd::prelude::*;
use vstd::string::StringExecFns;

use crate::error::{outcome, DataLineError, ErrorView, Result};
use crate::ids::{DatabaseId, FieldId};
use crate::schema::{
    FieldDefinition, FieldKind, FieldKindView, FieldView, SelectionOption, SelectionOptionView,
};
use crate::text::{same_text, view_of, views};
use crate::uuids::{read_uuid, uuid_reading, uuid_text, uuid_text_reads_back};

verus! {

/// The word that stands for a kind.
pub open spec fn label_of(kind: FieldKindView) -> Seq<char> {
    match kind {
        FieldKindView::Text => "text"@,
        FieldKindView::Number => "number"@,
        FieldKindView::Boolean => "boolean"@,
        FieldKindView::Date => "date"@,
        FieldKindView::Selection { .. } => "selection"@,
        FieldKindView::Blob => "blob"@,
        FieldKindView::Json => "json"@,
        FieldKindView::Custom { .. } => "custom"@,
        FieldKindView::CustomBlob { .. } => "custom_blob"@,
        FieldKindView::Reference { .. } => "reference"@,
    }
}

/// The word that stands for a kind.
pub fn kind_label(kind: &FieldKind) -> (label: &'static str)
    ensures
        label@ == label_of(kind@),
{
    match kind {
        FieldKind::Text => "text",
        FieldKind::Number => "number",
        FieldKind::Boolean => "boolean",
        FieldKind::Date => "date",
        FieldKind::Selection { .. } => "selection",
        FieldKind::Blob => "blob",
        FieldKind::Json => "json",
        FieldKind::Custom { .. } => "custom",
        FieldKind::CustomBlob { .. } => "custom_blob",
        FieldKind::Reference { .. } => "reference",
    }
}

/// The type of the column that holds values of a kind; a reference has none.
pub open spec fn column_type(kind: FieldKindView) -> Option<Seq<char>> {
    match kind {
        FieldKindView::Text => Some("TEXT"@),
        FieldKindView::Number => Some("REAL"@),
        FieldKindView::Boolean => Some("INTEGER"@),
        FieldKindView::Date => Some("TEXT"@),
        FieldKindView::Blob => Some("TEXT"@),
        FieldKindView::Selection { .. } => Some("TEXT"@),
        FieldKindView::Json => Some("TEXT"@),
        FieldKindView::Custom { .. } => Some("BLOB"@),
        FieldKindView::CustomBlob { .. } => Some("TEXT"@),
        FieldKindView::Reference { .. } => None,
    }
}

/// The type of the column that holds values of a kind; a reference has none.
/// A blob's column holds its hash, not its bytes.
pub fn scalar_sql_type(kind: &FieldKind) -> (sql_type: Option<&'static str>)
    ensures
        view_of(sql_type) == column_type(kind@),
{
    match kind {
        FieldKind::Text => Some("TEXT"),
        FieldKind::Number => Some("REAL"),
        FieldKind::Boolean => Some("INTEGER"),
        FieldKind::Date => Some("TEXT"),
        FieldKind::Blob => Some("TEXT"),
        FieldKind::Selection { .. } => Some("TEXT"),
        FieldKind::Json => Some("TEXT"),
        FieldKind::Custom { .. } => Some("BLOB"),
        FieldKind::CustomBlob { .. } => Some("TEXT"),
        FieldKind::Reference { .. } => None,
    }
}

/// What a reference field points at and is paired with, or why there is no
/// such thing.
pub open spec fn pairing_of(field: FieldView) -> core::result::Result<
    (DatabaseId, FieldId),
    ErrorView,
> {
    match field.kind {
        FieldKindView::Reference { target_database, paired_field: Some(pair) } => Ok(
            (target_database, pair),
        ),
        FieldKindView::Reference { paired_field: None, .. } => Err(
            ErrorView::Storage(
                "reference field "@ + uuid_text(field.id.0) + " is missing its paired field"@,
            ),
        ),
        _ => Err(
            ErrorView::UnsupportedFieldKindForValue { field: field.id, kind: label_of(field.kind) },
        ),
    }
}

/// What a reference field points at and is paired with, or why there is no
/// such thing.
pub fn reference_pairing(field: &FieldDefinition) -> (pairing: Result<(DatabaseId, FieldId)>)
    ensures
        match pairing {
            Ok(pairing) => pairing_of(field@) == Ok::<(DatabaseId, FieldId), ErrorView>(pairing),
            Err(error) => pairing_of(field@) == Err::<(DatabaseId, FieldId), ErrorView>(error@),
        },
{
    match &field.kind {
        FieldKind::Reference { target_database, paired_field } => match paired_field {
            Some(pair) => Ok((*target_database, *pair)),
            None => Err(
                DataLineError::Storage(
                    "reference field ".to_string().concat(field.id.to_string().as_str()).concat(
                        " is missing its paired field",
                    ),
                ),
            ),
        },
        other => Err(
            DataLineError::UnsupportedFieldKindForValue { field: field.id, kind: kind_label(other) },
        ),
    }
}

/// A kind as it is stored: its label and what it carries.
#[derive(Debug)]
pub struct EncodedKind {
    pub kind_tag: &'static str,
    pub selection_multi: Option<i64>,
    pub selection_options: Option<String>,
    pub reference_target_database: Option<String>,
    pub reference_paired_field: Option<String>,
    pub custom_kind_id: Option<String>,
}

/// A kind as it is stored: its label and what it carries.
pub ghost struct EncodedKindView {
    pub kind_tag: Seq<char>,
    pub selection_multi: Option<i64>,
    pub selection_options: Option<Seq<char>>,
    pub reference_target_database: Option<Seq<char>>,
    pub reference_paired_field: Option<Seq<char>>,
    pub custom_kind_id: Option<Seq<char>>,
}

impl View for EncodedKind {
    type V = EncodedKindView;

    open spec fn view(&self) -> EncodedKindView {
        EncodedKindView {
            kind_tag: self.kind_tag@,
            selection_multi: self.selection_multi,
            selection_options: view_of(self.selection_options),
            reference_target_database: view_of(self.reference_target_database),
            reference_paired_field: view_of(self.reference_paired_field),
            custom_kind_id: view_of(self.custom_kind_id),
        }
    }
}

/// How a kind is stored, where `options_json` is the JSON text of its options.
pub open spec fn encoded_kind(kind: FieldKindView, options_json: Seq<char>) -> EncodedKindView {
    let empty = EncodedKindView {
        kind_tag: label_of(kind),
        selection_multi: None,
        selection_options: None,
        reference_target_database: None,
        reference_paired_field: None,
        custom_kind_id: None,
    };
    match kind {
        FieldKindView::Selection { multi, .. } => EncodedKindView {
            selection_multi: Some(
                if multi {
                    1i64
                } else {
                    0i64
                },
            ),
            selection_options: Some(options_json),
            ..empty
        },
        FieldKindView::Reference { target_database, paired_field } => EncodedKindView {
            reference_target_database: Some(uuid_text(target_database.0)),
            reference_paired_field: match paired_field {
                Some(pair) => Some(uuid_text(pair.0)),
                None => None,
            },
            ..empty
        },
        FieldKindView::Custom { kind_id } => EncodedKindView {
            custom_kind_id: Some(kind_id),
            ..empty
        },
        FieldKindView::CustomBlob { kind_id } => EncodedKindView {
            custom_kind_id: Some(kind_id),
            ..empty
        },
        _ => empty,
    }
}

/// How a kind is stored. `options_json` is the JSON text of the options of a
/// selection; for other kinds it is not looked at.
pub fn encode_kind(kind: &FieldKind, options_json: &str) -> (encoded: EncodedKind)
    ensures
        encoded@ == encoded_kind(kind@, options_json@),
{
    let kind_tag = kind_label(kind);
    let mut encoded = EncodedKind {
        kind_tag,
        selection_multi: None,
        selection_options: None,
        reference_target_database: None,
        reference_paired_field: None,
        custom_kind_id: None,
    };
    match kind {
        FieldKind::Selection { multi, .. } => {
            encoded.selection_multi = Some(
                if *multi {
                    1
                } else {
                    0
                },
            );
            encoded.selection_options = Some(options_json.to_string());
        },
        FieldKind::Reference { target_database, paired_field } => {
            encoded.reference_target_database = Some(target_database.to_string());
            match paired_field {
                Some(pair) => {
                    encoded.reference_paired_field = Some(pair.to_string());
                },
                None => {},
            }
        },
        FieldKind::Custom { kind_id } => {
            encoded.custom_kind_id = Some(kind_id.clone());
        },
        FieldKind::CustomBlob { kind_id } => {
            encoded.custom_kind_id = Some(kind_id.clone());
        },
        _ => {},
    }
    encoded
}

/// The options of a selection as they were read from JSON, or what was wrong
/// with the JSON.
pub type ReadOptions = core::result::Result<Vec<SelectionOption>, String>;

/// What was read of a selection's options.
pub open spec fn options_read(options: Option<ReadOptions>) -> Option<
    core::result::Result<Seq<SelectionOptionView>, Seq<char>>,
> {
    match options {
        Some(Ok(options)) => Some(Ok(views(options@))),
        Some(Err(message)) => Some(Err(message@)),
        None => None,
    }
}

/// The identifier that a stored text stands for.
pub open spec fn parsed_uuid(text: Seq<char>) -> core::result::Result<u128, ErrorView> {
    match uuid_reading(text) {
        Ok(id) => Ok(id),
        Err(message) => Err(ErrorView::Storage(message)),
    }
}

/// The identifier that a stored text stands for.
pub fn parse_uuid(text: &str) -> (id: Result<u128>)
    ensures
        outcome(id) == parsed_uuid(text@),
{
    match read_uuid(text) {
        Ok(id) => Ok(id),
        Err(message) => Err(DataLineError::Storage(message)),
    }
}

/// The kind that a label and what goes with it stand for. `options` is what
/// was read of the options, where any were stored.
pub open spec fn decoded_kind(
    stored: EncodedKindView,
    options: Option<core::result::Result<Seq<SelectionOptionView>, Seq<char>>>,
) -> core::result::Result<FieldKindView, ErrorView> {
    if stored.kind_tag == "text"@ {
        Ok(FieldKindView::Text)
    } else if stored.kind_tag == "number"@ {
        Ok(FieldKindView::Number)
    } else if stored.kind_tag == "boolean"@ {
        Ok(FieldKindView::Boolean)
    } else if stored.kind_tag == "date"@ {
        Ok(FieldKindView::Date)
    } else if stored.kind_tag == "blob"@ {
        Ok(FieldKindView::Blob)
    } else if stored.kind_tag == "json"@ {
        Ok(FieldKindView::Json)
    } else if stored.kind_tag == "selection"@ {
        let multi = match stored.selection_multi {
            Some(n) => n != 0,
            None => false,
        };
        match options {
            Some(Ok(options)) => Ok(FieldKindView::Selection { multi, options }),
            Some(Err(message)) => Err(ErrorView::Storage(message)),
            None => Ok(FieldKindView::Selection { multi, options: Seq::empty() }),
        }
    } else if stored.kind_tag == "reference"@ {
        match stored.reference_target_database {
            Some(target) => match parsed_uuid(target) {
                Ok(target) => match stored.reference_paired_field {
                    Some(pair) => match parsed_uuid(pair) {
                        Ok(pair) => Ok(
                            FieldKindView::Reference {
                                target_database: DatabaseId(target),
                                paired_field: Some(FieldId(pair)),
                            },
                        ),
                        Err(error) => Err(error),
                    },
                    None => Ok(
                        FieldKindView::Reference {
                            target_database: DatabaseId(target),
                            paired_field: None,
                        },
                    ),
                },
                Err(error) => Err(error),
            },
            None => Err(ErrorView::Storage("reference field missing target database"@)),
        }
    } else if stored.kind_tag == "custom"@ {
        match stored.custom_kind_id {
            Some(kind_id) => Ok(FieldKindView::Custom { kind_id }),
            None => Err(ErrorView::Storage("custom field missing kind_id"@)),
        }
    } else if stored.kind_tag == "custom_blob"@ {
        match stored.custom_kind_id {
            Some(kind_id) => Ok(FieldKindView::CustomBlob { kind_id }),
            None => Err(ErrorView::Storage("custom_blob field missing kind_id"@)),
        }
    } else {
        Err(ErrorView::Storage("unknown field kind '"@ + stored.kind_tag + "' in store"@))
    }
}

/// The kind that a label and what goes with it stand for.
pub fn decode_kind(
    tag: &str,
    selection_multi: Option<i64>,
    selection_options: Option<ReadOptions>,
    reference_target_database: Option<String>,
    reference_paired_field: Option<String>,
    custom_kind_id: Option<String>,
) -> (kind: Result<FieldKind>)
    ensures
        forall|json: Option<Seq<char>>|
            outcome(kind) == #[trigger] decoded_kind(
                EncodedKindView {
                    kind_tag: tag@,
                    selection_multi,
                    selection_options: json,
                    reference_target_database: view_of(reference_target_database),
                    reference_paired_field: view_of(reference_paired_field),
                    custom_kind_id: view_of(custom_kind_id),
                },
                options_read(selection_options),
            ),
{
    if same_text(tag, "text") {
        Ok(FieldKind::Text)
    } else if same_text(tag, "number") {
        Ok(FieldKind::Number)
    } else if same_text(tag, "boolean") {
        Ok(FieldKind::Boolean)
    } else if same_text(tag, "date") {
        Ok(FieldKind::Date)
    } else if same_text(tag, "blob") {
        Ok(FieldKind::Blob)
    } else if same_text(tag, "json") {
        Ok(FieldKind::Json)
    } else if same_text(tag, "selection") {
        let multi = match selection_multi {
            Some(n) => n != 0,
            None => false,
        };
        match selection_options {
            Some(Ok(options)) => Ok(FieldKind::Selection { multi, options }),
            Some(Err(message)) => Err(DataLineError::Storage(message)),
            None => {
                let options: Vec<SelectionOption> = Vec::new();
                assert(views(options@) =~= Seq::<SelectionOptionView>::empty());
                Ok(FieldKind::Selection { multi, options })
            },
        }
    } else if same_text(tag, "reference") {
        let target = match reference_target_database {
            Some(target) => match parse_uuid(target.as_str()) {
                Ok(target) => target,
                Err(error) => {
                    return Err(error);
                },
            },
            None => {
                return Err(
                    DataLineError::Storage("reference field missing target database".to_string()),
                );
            },
        };
        let target_database = DatabaseId::from_uuid(target);
        match reference_paired_field {
            Some(pair) => match parse_uuid(pair.as_str()) {
                Ok(pair) => Ok(
                    FieldKind::Reference {
                        target_database,
                        paired_field: Some(FieldId::from_uuid(pair)),
                    },
                ),
                Err(error) => Err(error),
            },
            None => Ok(FieldKind::Reference { target_database, paired_field: None }),
        }
    } else if same_text(tag, "custom") {
        match custom_kind_id {
            Some(kind_id) => Ok(FieldKind::Custom { kind_id }),
            None => Err(DataLineError::Storage("custom field missing kind_id".to_string())),
        }
    } else if same_text(tag, "custom_blob") {
        match custom_kind_id {
            Some(kind_id) => Ok(FieldKind::CustomBlob { kind_id }),
            None => Err(DataLineError::Storage("custom_blob field missing kind_id".to_string())),
        }
    } else {
        Err(
            DataLineError::Storage(
                "unknown field kind '".to_string().concat(tag).concat("' in store"),
            ),
        )
    }
}

/// Different kinds have different labels.
pub(crate) proof fn labels_differ()
    ensures
        "text"@ != "number"@,
        "text"@ != "boolean"@,
        "text"@ != "date"@,
        "text"@ != "blob"@,
        "text"@ != "json"@,
        "text"@ != "selection"@,
        "text"@ != "reference"@,
        "text"@ != "custom"@,
        "text"@ != "custom_blob"@,
        "number"@ != "boolean"@,
        "number"@ != "date"@,
        "number"@ != "blob"@,
        "number"@ != "json"@,
        "number"@ != "selection"@,
        "number"@ != "reference"@,
        "number"@ != "custom"@,
        "number"@ != "custom_blob"@,
        "boolean"@ != "date"@,
        "boolean"@ != "blob"@,
        "boolean"@ != "json"@,
        "boolean"@ != "selection"@,
        "boolean"@ != "reference"@,
        "boolean"@ != "custom"@,
        "boolean"@ != "custom_blob"@,
        "date"@ != "blob"@,
        "date"@ != "json"@,
        "date"@ != "selection"@,
        "date"@ != "reference"@,
        "date"@ != "custom"@,
        "date"@ != "custom_blob"@,
        "blob"@ != "json"@,
        "blob"@ != "selection"@,
        "blob"@ != "reference"@,
        "blob"@ != "custom"@,
        "blob"@ != "custom_blob"@,
        "json"@ != "selection"@,
        "json"@ != "reference"@,
        "json"@ != "custom"@,
        "json"@ != "custom_blob"@,
        "selection"@ != "reference"@,
        "selection"@ != "custom"@,
        "selection"@ != "custom_blob"@,
        "reference"@ != "custom"@,
        "reference"@ != "custom_blob"@,
        "custom"@ != "custom_blob"@,
{
    reveal_strlit("text");
    reveal_strlit("number");
    reveal_strlit("boolean");
    reveal_strlit("date");
    reveal_strlit("blob");
    reveal_strlit("json");
    reveal_strlit("selection");
    reveal_strlit("reference");
    reveal_strlit("custom");
    reveal_strlit("custom_blob");
    assert("text"@[0] != "number"@[0]);
    assert("text"@.len() == 4 && "date"@.len() == 4 && "blob"@.len() == 4 && "json"@.len() == 4);
    assert("text"@[0] == 't' && "date"@[0] == 'd' && "blob"@[0] == 'b' && "json"@[0] == 'j');
    assert("number"@.len() == 6 && "custom"@.len() == 6);
    assert("number"@[0] == 'n' && "custom"@[0] == 'c');
    assert("boolean"@.len() == 7 && "custom_blob"@.len() == 11);
    assert("selection"@.len() == 9 && "reference"@.len() == 9);
    assert("selection"@[0] == 's' && "reference"@[0] == 'r');
}

/// A stored kind is read back as what it was, when its options are.
pub proof fn stored_kind_reads_back(kind: FieldKindView, json: Seq<char>)
    ensures
        decoded_kind(
            encoded_kind(kind, json),
            match kind {
                FieldKindView::Selection { options, .. } => Some(Ok(options)),
                _ => None,
            },
        ) == Ok::<FieldKindView, ErrorView>(kind),
{
    labels_differ();
    match kind {
        FieldKindView::Reference { target_database, paired_field } => {
            uuid_text_reads_back(target_database.0);
            match paired_field {
                Some(pair) => {
                    uuid_text_reads_back(pair.0);
                },
                None => {},
            }
        },
        _ => {},
    }
}

} // verus!
