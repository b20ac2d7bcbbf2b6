//! Column access descriptors: which column a query touches, and how.

use vstd::prelude::*;

verus! {

/// One column of a query: the column's type identity and whether the query
/// writes it.
pub struct TypeAccess {
    pub is_mutable: bool,
    pub type_id: u64,
}

impl TypeAccess {
    /// Write access to the column holding the given type.
    pub fn mut_for(type_id: u64) -> (r: Self)
        ensures
            r.is_mutable,
            r.type_id == type_id,
    {
        TypeAccess { is_mutable: true, type_id }
    }

    /// Read-only access to the column holding the given type.
    pub fn ref_for(type_id: u64) -> (r: Self)
        ensures
            !r.is_mutable,
            r.type_id == type_id,
    {
        TypeAccess { is_mutable: false, type_id }
    }
}

} // verus!
