//! The store as other languages see it: every id, hash, date and time is plain
//! text.

pub mod error;
pub mod parse;
pub mod types;

use vstd::prelude::*;

verus! {

/// The version of this library.
pub fn dataline_version() -> (version: String)
    ensures
        version@ == "0.1.0"@,
{
    "0.1.0".to_string()
}

} // verus!
