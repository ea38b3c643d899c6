//! Errors with every id and hash as text.

use vstd::prelude::*;
use vstd::string::StringExecFns;

use crate::error::ErrorView;
use crate::uuids::uuid_text;

verus! {

/// Why an operation was refused or failed.
#[allow(inconsistent_fields)]
#[derive(Debug, PartialEq, Eq)]
pub enum DataLineError {
    DatabaseNotFound { id: String },
    FieldNotFound { id: String },
    RecordNotFound { id: String },
    ReferenceNotFound { id: String },
    BlobNotFound { hash: String },
    ValueKindMismatch { field: String, expected: String },
    UnsupportedFieldKindForValue { field: String, kind: String },
    ReferenceTargetDatabaseMismatch { field: String, expected: String, actual: String },
    ReferenceFieldRetypeNotSupported { field: String },
    Storage { message: String },
}

/// Why an operation was refused or failed.
#[allow(inconsistent_fields)]
pub ghost enum TextErrorView {
    DatabaseNotFound { id: Seq<char> },
    FieldNotFound { id: Seq<char> },
    RecordNotFound { id: Seq<char> },
    ReferenceNotFound { id: Seq<char> },
    BlobNotFound { hash: Seq<char> },
    ValueKindMismatch { field: Seq<char>, expected: Seq<char> },
    UnsupportedFieldKindForValue { field: Seq<char>, kind: Seq<char> },
    ReferenceTargetDatabaseMismatch { field: Seq<char>, expected: Seq<char>, actual: Seq<char> },
    ReferenceFieldRetypeNotSupported { field: Seq<char> },
    Storage { message: Seq<char> },
}

impl View for DataLineError {
    type V = TextErrorView;

    open spec fn view(&self) -> TextErrorView {
        match self {
            DataLineError::DatabaseNotFound { id } => TextErrorView::DatabaseNotFound { id: id@ },
            DataLineError::FieldNotFound { id } => TextErrorView::FieldNotFound { id: id@ },
            DataLineError::RecordNotFound { id } => TextErrorView::RecordNotFound { id: id@ },
            DataLineError::ReferenceNotFound { id } => TextErrorView::ReferenceNotFound { id: id@ },
            DataLineError::BlobNotFound { hash } => TextErrorView::BlobNotFound { hash: hash@ },
            DataLineError::ValueKindMismatch { field, expected } =>
                TextErrorView::ValueKindMismatch { field: field@, expected: expected@ },
            DataLineError::UnsupportedFieldKindForValue { field, kind } =>
                TextErrorView::UnsupportedFieldKindForValue { field: field@, kind: kind@ },
            DataLineError::ReferenceTargetDatabaseMismatch { field, expected, actual } =>
                TextErrorView::ReferenceTargetDatabaseMismatch {
                field: field@,
                expected: expected@,
                actual: actual@,
            },
            DataLineError::ReferenceFieldRetypeNotSupported { field } =>
                TextErrorView::ReferenceFieldRetypeNotSupported { field: field@ },
            DataLineError::Storage { message } => TextErrorView::Storage { message: message@ },
        }
    }
}

/// An error with every id and hash as text.
pub open spec fn error_shown(error: ErrorView) -> TextErrorView {
    match error {
        ErrorView::DatabaseNotFound(id) => TextErrorView::DatabaseNotFound { id: uuid_text(id.0) },
        ErrorView::FieldNotFound(id) => TextErrorView::FieldNotFound { id: uuid_text(id.0) },
        ErrorView::RecordNotFound(link) => TextErrorView::RecordNotFound { id: uuid_text(link.0) },
        ErrorView::ReferenceNotFound(id) => TextErrorView::ReferenceNotFound {
            id: uuid_text(id.0),
        },
        ErrorView::BlobNotFound(blob) => TextErrorView::BlobNotFound { hash: blob.hash },
        ErrorView::ValueKindMismatch { field, expected } => TextErrorView::ValueKindMismatch {
            field: uuid_text(field.0),
            expected,
        },
        ErrorView::UnsupportedFieldKindForValue { field, kind } =>
            TextErrorView::UnsupportedFieldKindForValue { field: uuid_text(field.0), kind },
        ErrorView::ReferenceTargetDatabaseMismatch { field, expected, actual } =>
            TextErrorView::ReferenceTargetDatabaseMismatch {
            field: uuid_text(field.0),
            expected: uuid_text(expected.0),
            actual: uuid_text(actual.0),
        },
        ErrorView::ReferenceFieldRetypeNotSupported(field) =>
            TextErrorView::ReferenceFieldRetypeNotSupported { field: uuid_text(field.0) },
        ErrorView::Storage(message) => TextErrorView::Storage { message },
    }
}

impl TextErrorView {
    /// The message that tells a reader what went wrong.
    pub open spec fn message(self) -> Seq<char> {
        match self {
            TextErrorView::DatabaseNotFound { id } => "database not found: "@ + id,
            TextErrorView::FieldNotFound { id } => "field not found: "@ + id,
            TextErrorView::RecordNotFound { id } => "record not found: "@ + id,
            TextErrorView::ReferenceNotFound { id } => "reference not found: "@ + id,
            TextErrorView::BlobNotFound { hash } => "blob not found: "@ + hash,
            TextErrorView::ValueKindMismatch { field, expected } => "value for field '"@ + field
                + "' does not match its kind (expected "@ + expected + ")"@,
            TextErrorView::UnsupportedFieldKindForValue { field, kind } => "field '"@ + field
                + "' has kind '"@ + kind + "', which record value operations don't support yet"@,
            TextErrorView::ReferenceTargetDatabaseMismatch { field, expected, actual } =>
                "field '"@ + field + "' points at database "@ + expected
                + ", but the given record belongs to "@ + actual,
            TextErrorView::ReferenceFieldRetypeNotSupported { field } => "field '"@ + field
                + "' is a reference field; retyping is only supported between scalar kinds"@,
            TextErrorView::Storage { message } => "storage error: "@ + message,
        }
    }
}

/// An error says the same whether its ids are text or not.
pub proof fn same_message(error: ErrorView)
    ensures
        error_shown(error).message() == error.message(),
{
}

impl DataLineError {
    /// The message that tells a reader what went wrong.
    pub fn to_string(&self) -> (text: String)
        ensures
            text@ == self@.message(),
    {
        match self {
            DataLineError::DatabaseNotFound { id } => "database not found: ".to_string().concat(
                id.as_str(),
            ),
            DataLineError::FieldNotFound { id } => "field not found: ".to_string().concat(
                id.as_str(),
            ),
            DataLineError::RecordNotFound { id } => "record not found: ".to_string().concat(
                id.as_str(),
            ),
            DataLineError::ReferenceNotFound { id } => "reference not found: ".to_string().concat(
                id.as_str(),
            ),
            DataLineError::BlobNotFound { hash } => "blob not found: ".to_string().concat(
                hash.as_str(),
            ),
            DataLineError::ValueKindMismatch { field, expected } => "value for field '".to_string()
                .concat(field.as_str())
                .concat("' does not match its kind (expected ")
                .concat(expected.as_str())
                .concat(")"),
            DataLineError::UnsupportedFieldKindForValue { field, kind } => "field '".to_string()
                .concat(field.as_str())
                .concat("' has kind '")
                .concat(kind.as_str())
                .concat("', which record value operations don't support yet"),
            DataLineError::ReferenceTargetDatabaseMismatch { field, expected, actual } => "field '"
                .to_string()
                .concat(field.as_str())
                .concat("' points at database ")
                .concat(expected.as_str())
                .concat(", but the given record belongs to ")
                .concat(actual.as_str()),
            DataLineError::ReferenceFieldRetypeNotSupported { field } => "field '".to_string()
                .concat(field.as_str())
                .concat("' is a reference field; retyping is only supported between scalar kinds"),
            DataLineError::Storage { message } => "storage error: ".to_string().concat(
                message.as_str(),
            ),
        }
    }
}

/// An error with every id and hash as text.
pub fn error_from_core(error: crate::error::DataLineError) -> (shown: DataLineError)
    ensures
        shown@ == error_shown(error@),
{
    match error {
        crate::error::DataLineError::DatabaseNotFound(id) => DataLineError::DatabaseNotFound {
            id: id.to_string(),
        },
        crate::error::DataLineError::FieldNotFound(id) => DataLineError::FieldNotFound {
            id: id.to_string(),
        },
        crate::error::DataLineError::RecordNotFound(link) => DataLineError::RecordNotFound {
            id: link.to_string(),
        },
        crate::error::DataLineError::ReferenceNotFound(id) => DataLineError::ReferenceNotFound {
            id: id.to_string(),
        },
        crate::error::DataLineError::BlobNotFound(blob) => DataLineError::BlobNotFound {
            hash: blob.hash().to_string(),
        },
        crate::error::DataLineError::ValueKindMismatch { field, expected } =>
            DataLineError::ValueKindMismatch {
            field: field.to_string(),
            expected: expected.to_string(),
        },
        crate::error::DataLineError::UnsupportedFieldKindForValue { field, kind } =>
            DataLineError::UnsupportedFieldKindForValue {
            field: field.to_string(),
            kind: kind.to_string(),
        },
        crate::error::DataLineError::ReferenceTargetDatabaseMismatch { field, expected, actual } =>
            DataLineError::ReferenceTargetDatabaseMismatch {
            field: field.to_string(),
            expected: expected.to_string(),
            actual: actual.to_string(),
        },
        crate::error::DataLineError::ReferenceFieldRetypeNotSupported(field) =>
            DataLineError::ReferenceFieldRetypeNotSupported { field: field.to_string() },
        crate::error::DataLineError::Storage(message) => DataLineError::Storage { message },
    }
}

} // verus!
