//! A typed, schema-driven store: databases with fields, records with values,
//! and references that always have two sides.

pub mod agreement_laws;
pub mod blob_laws;
pub mod blobs;
pub mod boundary_laws;
pub mod catalogue_laws;
pub mod cell_laws;
pub mod change_laws;
pub mod codec;
pub mod codec_laws;
pub mod date;
pub mod diff;
pub mod digest;
pub mod error;
pub mod ffi;
pub mod hex;
pub mod history_laws;
pub mod ids;
pub mod json;
pub mod kind;
pub mod linking_laws;
pub mod listing_laws;
pub mod naming;
pub mod number;
pub mod opening;
pub mod order_laws;
pub mod persist_laws;
pub mod queries;
pub mod record;
pub mod record_laws;
pub mod records;
pub mod reference;
pub mod registry;
pub mod registry_laws;
pub mod relation_laws;
pub mod relations;
pub mod reopen_laws;
pub mod retype_laws;
pub mod schema;
pub mod schema_laws;
pub mod search;
pub mod search_laws;
pub mod setting_laws;
pub mod sql;
pub mod statement_laws;
pub mod steps;
pub mod storage_laws;
pub mod store;
pub mod store_laws;
pub mod tables;
pub mod text;
pub mod timestamp;
pub mod uuids;
pub mod value_laws;

pub use error::{DataLineError, Result};
pub use ids::{DatabaseId, FieldId, Link, ReferenceId};
pub use record::{BlobRef, Record, Value};
pub use reference::Reference;
pub use registry::SchemaRegistry;
pub use schema::{Database, FieldDefinition, FieldKind, SelectionOption};
pub use store::{RetypeReport, Store};
