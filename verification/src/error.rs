//! What can go wrong.

use vstd::prelude::*;
use vstd::string::StringExecFns;

use crate::ids::{DatabaseId, FieldId, Link, ReferenceId};
use crate::record::{BlobRef, BlobRefView};
use crate::uuids::uuid_text;

verus! {

/// Why an operation was refused or failed.
#[allow(inconsistent_fields)]
#[derive(Debug, PartialEq, Eq)]
pub enum DataLineError {
    DatabaseNotFound(DatabaseId),
    FieldNotFound(FieldId),
    RecordNotFound(Link),
    ReferenceNotFound(ReferenceId),
    BlobNotFound(BlobRef),
    ValueKindMismatch { field: FieldId, expected: &'static str },
    UnsupportedFieldKindForValue { field: FieldId, kind: &'static str },
    ReferenceTargetDatabaseMismatch { field: FieldId, expected: DatabaseId, actual: DatabaseId },
    ReferenceFieldRetypeNotSupported(FieldId),
    /// Carries the message of the storage layer as plain text, so that errors
    /// stay comparable.
    Storage(String),
}

/// Why an operation was refused or failed.
#[allow(inconsistent_fields)]
pub ghost enum ErrorView {
    DatabaseNotFound(DatabaseId),
    FieldNotFound(FieldId),
    RecordNotFound(Link),
    ReferenceNotFound(ReferenceId),
    BlobNotFound(BlobRefView),
    ValueKindMismatch { field: FieldId, expected: Seq<char> },
    UnsupportedFieldKindForValue { field: FieldId, kind: Seq<char> },
    ReferenceTargetDatabaseMismatch { field: FieldId, expected: DatabaseId, actual: DatabaseId },
    ReferenceFieldRetypeNotSupported(FieldId),
    Storage(Seq<char>),
}

impl View for DataLineError {
    type V = ErrorView;

    open spec fn view(&self) -> ErrorView {
        match self {
            DataLineError::DatabaseNotFound(id) => ErrorView::DatabaseNotFound(*id),
            DataLineError::FieldNotFound(id) => ErrorView::FieldNotFound(*id),
            DataLineError::RecordNotFound(link) => ErrorView::RecordNotFound(*link),
            DataLineError::ReferenceNotFound(id) => ErrorView::ReferenceNotFound(*id),
            DataLineError::BlobNotFound(blob) => ErrorView::BlobNotFound(blob@),
            DataLineError::ValueKindMismatch { field, expected } => ErrorView::ValueKindMismatch {
                field: *field,
                expected: expected@,
            },
            DataLineError::UnsupportedFieldKindForValue {
                field,
                kind,
            } => ErrorView::UnsupportedFieldKindForValue { field: *field, kind: kind@ },
            DataLineError::ReferenceTargetDatabaseMismatch {
                field,
                expected,
                actual,
            } => ErrorView::ReferenceTargetDatabaseMismatch {
                field: *field,
                expected: *expected,
                actual: *actual,
            },
            DataLineError::ReferenceFieldRetypeNotSupported(
                id,
            ) => ErrorView::ReferenceFieldRetypeNotSupported(*id),
            DataLineError::Storage(message) => ErrorView::Storage(message@),
        }
    }
}

impl ErrorView {
    /// The message that tells a reader what went wrong.
    pub open spec fn message(self) -> Seq<char> {
        match self {
            ErrorView::DatabaseNotFound(id) => "database not found: "@ + uuid_text(id.0),
            ErrorView::FieldNotFound(id) => "field not found: "@ + uuid_text(id.0),
            ErrorView::RecordNotFound(link) => "record not found: "@ + uuid_text(link.0),
            ErrorView::ReferenceNotFound(id) => "reference not found: "@ + uuid_text(id.0),
            ErrorView::BlobNotFound(blob) => "blob not found: "@ + blob.hash,
            ErrorView::ValueKindMismatch { field, expected } => "value for field '"@ + uuid_text(
                field.0,
            ) + "' does not match its kind (expected "@ + expected + ")"@,
            ErrorView::UnsupportedFieldKindForValue { field, kind } => "field '"@ + uuid_text(
                field.0,
            ) + "' has kind '"@ + kind + "', which record value operations don't support yet"@,
            ErrorView::ReferenceTargetDatabaseMismatch { field, expected, actual } => "field '"@
                + uuid_text(field.0) + "' points at database "@ + uuid_text(expected.0)
                + ", but the given record belongs to "@ + uuid_text(actual.0),
            ErrorView::ReferenceFieldRetypeNotSupported(id) => "field '"@ + uuid_text(id.0)
                + "' is a reference field; retyping is only supported between scalar kinds"@,
            ErrorView::Storage(message) => "storage error: "@ + message,
        }
    }
}

impl DataLineError {
    /// The message that tells a reader what went wrong.
    pub fn to_string(&self) -> (text: String)
        ensures
            text@ == self@.message(),
    {
        match self {
            DataLineError::DatabaseNotFound(id) => "database not found: ".to_string().concat(
                id.to_string().as_str(),
            ),
            DataLineError::FieldNotFound(id) => "field not found: ".to_string().concat(
                id.to_string().as_str(),
            ),
            DataLineError::RecordNotFound(link) => "record not found: ".to_string().concat(
                link.to_string().as_str(),
            ),
            DataLineError::ReferenceNotFound(id) => "reference not found: ".to_string().concat(
                id.to_string().as_str(),
            ),
            DataLineError::BlobNotFound(blob) => "blob not found: ".to_string().concat(blob.hash()),
            DataLineError::ValueKindMismatch { field, expected } => "value for field '".to_string()
                .concat(field.to_string().as_str())
                .concat("' does not match its kind (expected ")
                .concat(expected)
                .concat(")"),
            DataLineError::UnsupportedFieldKindForValue { field, kind } => "field '".to_string()
                .concat(field.to_string().as_str())
                .concat("' has kind '")
                .concat(kind)
                .concat("', which record value operations don't support yet"),
            DataLineError::ReferenceTargetDatabaseMismatch { field, expected, actual } => "field '"
                .to_string()
                .concat(field.to_string().as_str())
                .concat("' points at database ")
                .concat(expected.to_string().as_str())
                .concat(", but the given record belongs to ")
                .concat(actual.to_string().as_str()),
            DataLineError::ReferenceFieldRetypeNotSupported(id) => "field '".to_string()
                .concat(id.to_string().as_str())
                .concat("' is a reference field; retyping is only supported between scalar kinds"),
            DataLineError::Storage(message) => "storage error: ".to_string().concat(
                message.as_str(),
            ),
        }
    }
}

/// A result of the store.
pub type Result<T> = core::result::Result<T, DataLineError>;

/// A result with its value and its error as plain mathematical values.
pub open spec fn outcome<T: View>(result: Result<T>) -> core::result::Result<T::V, ErrorView> {
    match result {
        Ok(value) => Ok(value@),
        Err(error) => Err(error@),
    }
}

} // verus!
