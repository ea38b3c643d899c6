//! Reading the ids that come in as text.

use vstd::prelude::*;
use vstd::string::StringExecFns;

use crate::ffi::error::{DataLineError, TextErrorView};
use crate::ids::{DatabaseId, FieldId, Link, ReferenceId};
use crate::record::{BlobRef, BlobRefView};
use crate::text::view_of;
use crate::uuids::{read_uuid, uuid_reading, uuid_text, uuid_text_reads_back};

verus! {

/// The complaint about a text that is no id.
pub open spec fn invalid_id(text: Seq<char>, fault: Seq<char>) -> TextErrorView {
    TextErrorView::Storage { message: "invalid id '"@ + text + "': "@ + fault }
}

/// The identifier that a text stands for, or the complaint about it.
pub open spec fn id_read(text: Seq<char>) -> Result<u128, TextErrorView> {
    match uuid_reading(text) {
        Ok(id) => Ok(id),
        Err(fault) => Err(invalid_id(text, fault)),
    }
}

/// An id's own text stands for it.
pub proof fn id_text_reads_back(id: u128)
    ensures
        id_read(uuid_text(id)) == Ok::<u128, TextErrorView>(id),
{
    uuid_text_reads_back(id);
}

/// The identifier that a text stands for.
pub fn parse_uuid(text: &str) -> (id: Result<u128, DataLineError>)
    ensures
        match id {
            Ok(id) => id_read(text@) == Ok::<u128, TextErrorView>(id),
            Err(error) => id_read(text@) == Err::<u128, TextErrorView>(error@),
        },
{
    match read_uuid(text) {
        Ok(id) => Ok(id),
        Err(fault) => Err(
            DataLineError::Storage {
                message: "invalid id '".to_string().concat(text).concat("': ").concat(
                    fault.as_str(),
                ),
            },
        ),
    }
}

/// The database id that a text stands for.
pub fn parse_database_id(text: &str) -> (id: Result<DatabaseId, DataLineError>)
    ensures
        match id {
            Ok(id) => id_read(text@) == Ok::<u128, TextErrorView>(id.0),
            Err(error) => id_read(text@) == Err::<u128, TextErrorView>(error@),
        },
{
    match parse_uuid(text) {
        Ok(id) => Ok(DatabaseId::from_uuid(id)),
        Err(error) => Err(error),
    }
}

/// The field id that a text stands for.
pub fn parse_field_id(text: &str) -> (id: Result<FieldId, DataLineError>)
    ensures
        match id {
            Ok(id) => id_read(text@) == Ok::<u128, TextErrorView>(id.0),
            Err(error) => id_read(text@) == Err::<u128, TextErrorView>(error@),
        },
{
    match parse_uuid(text) {
        Ok(id) => Ok(FieldId::from_uuid(id)),
        Err(error) => Err(error),
    }
}

/// The link that a text stands for.
pub fn parse_link(text: &str) -> (link: Result<Link, DataLineError>)
    ensures
        match link {
            Ok(link) => id_read(text@) == Ok::<u128, TextErrorView>(link.0),
            Err(error) => id_read(text@) == Err::<u128, TextErrorView>(error@),
        },
{
    match parse_uuid(text) {
        Ok(id) => Ok(Link::from_uuid(id)),
        Err(error) => Err(error),
    }
}

/// The reference id that a text stands for.
pub fn parse_reference_id(text: &str) -> (id: Result<ReferenceId, DataLineError>)
    ensures
        match id {
            Ok(id) => id_read(text@) == Ok::<u128, TextErrorView>(id.0),
            Err(error) => id_read(text@) == Err::<u128, TextErrorView>(error@),
        },
{
    match parse_uuid(text) {
        Ok(id) => Ok(ReferenceId::from_uuid(id)),
        Err(error) => Err(error),
    }
}

/// The handle on the blob with this hash.
pub fn blob_ref_from_hash(hash: String, filename: Option<String>) -> (blob: BlobRef)
    ensures
        blob@ == (BlobRefView { hash: hash@, filename: view_of(filename) }),
{
    BlobRef::from_hash_and_filename(hash.as_str(), filename)
}

} // verus!
