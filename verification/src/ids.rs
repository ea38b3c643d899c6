//! The identities that the store hands out.

use vstd::prelude::*;

use crate::uuids::{is_version_four, print_uuid, random_uuid};

verus! {

/// Identifies a database.
#[derive(Clone, Copy, Debug, PartialEq, Eq, Hash, PartialOrd, Ord, Structural)]
pub struct DatabaseId(pub u128);

/// Identifies a field.
#[derive(Clone, Copy, Debug, PartialEq, Eq, Hash, PartialOrd, Ord, Structural)]
pub struct FieldId(pub u128);

/// A record's stable identity, independent of its values.
#[derive(Clone, Copy, Debug, PartialEq, Eq, Hash, PartialOrd, Ord, Structural)]
pub struct Link(pub u128);

/// Identifies one reference relationship.
#[derive(Clone, Copy, Debug, PartialEq, Eq, Hash, PartialOrd, Ord, Structural)]
pub struct ReferenceId(pub u128);

impl DatabaseId {
    /// A fresh random identity, a UUID of version four.
    pub fn new() -> (id: Self)
        ensures
            is_version_four(id.0),
    {
        DatabaseId(random_uuid())
    }

    /// The identity with the given UUID.
    pub fn from_uuid(uuid: u128) -> (id: Self)
        ensures
            id == DatabaseId(uuid),
    {
        DatabaseId(uuid)
    }

    /// The UUID of this identity.
    pub fn as_uuid(&self) -> (uuid: u128)
        ensures
            uuid == self.0,
    {
        self.0
    }

    /// The hyphenated text of the UUID.
    pub fn to_string(&self) -> (text: String)
        ensures
            text@ == crate::uuids::uuid_text(self.0),
    {
        print_uuid(self.0)
    }
}

impl FieldId {
    /// A fresh random identity, a UUID of version four.
    pub fn new() -> (id: Self)
        ensures
            is_version_four(id.0),
    {
        FieldId(random_uuid())
    }

    /// The identity with the given UUID.
    pub fn from_uuid(uuid: u128) -> (id: Self)
        ensures
            id == FieldId(uuid),
    {
        FieldId(uuid)
    }

    /// The UUID of this identity.
    pub fn as_uuid(&self) -> (uuid: u128)
        ensures
            uuid == self.0,
    {
        self.0
    }

    /// The hyphenated text of the UUID.
    pub fn to_string(&self) -> (text: String)
        ensures
            text@ == crate::uuids::uuid_text(self.0),
    {
        print_uuid(self.0)
    }
}

impl Link {
    /// A fresh random identity, a UUID of version four.
    pub fn new() -> (id: Self)
        ensures
            is_version_four(id.0),
    {
        Link(random_uuid())
    }

    /// The identity with the given UUID.
    pub fn from_uuid(uuid: u128) -> (id: Self)
        ensures
            id == Link(uuid),
    {
        Link(uuid)
    }

    /// The UUID of this identity.
    pub fn as_uuid(&self) -> (uuid: u128)
        ensures
            uuid == self.0,
    {
        self.0
    }

    /// The hyphenated text of the UUID.
    pub fn to_string(&self) -> (text: String)
        ensures
            text@ == crate::uuids::uuid_text(self.0),
    {
        print_uuid(self.0)
    }
}

impl ReferenceId {
    /// A fresh random identity, a UUID of version four.
    pub fn new() -> (id: Self)
        ensures
            is_version_four(id.0),
    {
        ReferenceId(random_uuid())
    }

    /// The identity with the given UUID.
    pub fn from_uuid(uuid: u128) -> (id: Self)
        ensures
            id == ReferenceId(uuid),
    {
        ReferenceId(uuid)
    }

    /// The UUID of this identity.
    pub fn as_uuid(&self) -> (uuid: u128)
        ensures
            uuid == self.0,
    {
        self.0
    }

    /// The hyphenated text of the UUID.
    pub fn to_string(&self) -> (text: String)
        ensures
            text@ == crate::uuids::uuid_text(self.0),
    {
        print_uuid(self.0)
    }
}

} // verus!
