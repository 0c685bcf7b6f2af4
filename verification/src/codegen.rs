//! Classification shared with the derive-based convenience layer, which
//! generates insert, update and find-by-field helpers for annotated user
//! data structures on top of the [`Execute`](crate::execute::Execute)
//! capability.

use vstd::prelude::*;

verus! {

/// Which convenience derive is being expanded for a user type.
#[derive(Clone, Copy, Debug)]
pub enum Derive {
    /// A labelled graph node type.
    Label,
    /// A relationship type.
    Relation,
}

/// The shape of an annotated user data structure's fields.
#[derive(Clone, Copy, Debug)]
pub enum Style {
    /// Named fields.
    Struct,
    /// Many unnamed fields.
    Tuple,
    /// One unnamed field.
    Newtype,
    /// No fields.
    Unit,
}

} // verus!
