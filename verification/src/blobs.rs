//! Blobs: bytes that are stored once, under the hash of their content.

use vstd::prelude::*;

use crate::digest::{sha256, sha256_hex};
use crate::error::{DataLineError, ErrorView, Result};
use crate::hex::bytes_text;
use crate::queries::{Query, QueryView};
use crate::record::{BlobRef, BlobRefView};
use crate::steps::{Step, StepView};
use crate::store::Store;
use crate::text::view_of;

verus! {

/// The hash that bytes are stored under.
pub open spec fn content_hash(bytes: Seq<u8>) -> Seq<char> {
    bytes_text(sha256(bytes))
}

/// The step that stores bytes.
pub open spec fn write_blob_step(
    bytes: Seq<u8>,
    filename: Option<Seq<char>>,
    now: Seq<char>,
) -> StepView {
    StepView::InsertBlob { hash: content_hash(bytes), bytes, filename, now }
}

/// The query for the filename that a blob is stored with.
pub fn filename_query(hash: &str) -> (query: Query)
    ensures
        query@ == (QueryView::BlobFilename { hash: hash@ }),
{
    Query::BlobFilename { hash: hash.to_string() }
}

/// The query for whether a blob exists.
pub fn exists_query(blob: &BlobRef) -> (query: Query)
    ensures
        query@ == (QueryView::BlobExists { hash: blob@.hash }),
{
    Query::BlobExists { hash: blob.hash().to_string() }
}

/// The query for the bytes of a blob.
pub fn bytes_query(blob: &BlobRef) -> (query: Query)
    ensures
        query@ == (QueryView::BlobBytes { hash: blob@.hash }),
{
    Query::BlobBytes { hash: blob.hash().to_string() }
}

/// The handle on the bytes that were written under a hash. `stored` is the
/// filename that they are stored with, which is that of the first to write
/// them.
pub fn blob_written(hash: &str, stored: Option<String>) -> (blob: BlobRef)
    ensures
        blob@ == (BlobRefView { hash: hash@, filename: view_of(stored) }),
{
    BlobRef::from_hash_and_filename(hash, stored)
}

impl Store {
    /// Stores bytes under their hash. Where they are there already, nothing
    /// changes, whatever their filename. `blob_written` gives the handle on
    /// them once that is done.
    pub fn write_blob(&self, bytes: &[u8], filename: Option<&str>, now: &str) -> (result: (
        String,
        Step,
    ))
        ensures
            result.0@ == content_hash(bytes@),
            result.1@ == write_blob_step(bytes@, view_of(filename), now@),
    {
        let hash = sha256_hex(bytes);
        let name = match filename {
            Some(filename) => Some(filename.to_string()),
            None => None,
        };
        let mut copy: Vec<u8> = Vec::new();
        copy.extend_from_slice(bytes);
        assert(copy@ =~= bytes@);
        let step = Step::InsertBlob {
            hash: hash.clone(),
            bytes: copy,
            filename: name,
            now: now.to_string(),
        };
        (hash, step)
    }

    /// The bytes of a blob, from the row of the query for them.
    pub fn read_blob(&self, blob: &BlobRef, row: Option<Vec<u8>>) -> (bytes: Result<Vec<u8>>)
        ensures
            match row {
                Some(stored) => bytes == Ok::<Vec<u8>, DataLineError>(stored),
                None => bytes matches Err(error) && error@ == ErrorView::BlobNotFound(blob@),
            },
    {
        match row {
            Some(stored) => Ok(stored),
            None => Err(DataLineError::BlobNotFound(blob.clone())),
        }
    }
}

} // verus!
