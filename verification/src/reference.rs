//! References between records.

use vstd::prelude::*;

use crate::ids::{FieldId, Link, ReferenceId};

verus! {

/// One relationship between two records, seen from one of them. Which end is
/// the source and which the target only says from where it was asked for: the
/// relationship itself has no direction.
#[derive(Clone, Copy, Debug, PartialEq, Eq, Structural)]
pub struct Reference {
    pub id: ReferenceId,
    pub source_link: Link,
    pub source_field: FieldId,
    pub target_link: Link,
    pub target_field: FieldId,
}

} // verus!
