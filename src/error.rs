//! Errors of the resolver.
use vstd::prelude::*;

verus! {

/// Why a registry entry was not resolved to a new category.
#[derive(Clone, Copy, Debug, PartialEq, Eq, Structural)]
pub enum IdentificationError {
    /// The entry already carries its final category.
    AlreadyIdentified,
    /// The entry asks for identification but no identifier text was recorded
    /// at its start.
    NoIdentificationNeeded,
}

impl IdentificationError {
    /// A readable description of the error.
    pub fn message(&self) -> (r: &'static str)
        ensures
            *self == IdentificationError::AlreadyIdentified ==> r@ == "Item already identified"@,
            *self == IdentificationError::NoIdentificationNeeded ==> r@
                == "Item does not need identification"@,
    {
        match self {
            IdentificationError::AlreadyIdentified => "Item already identified",
            IdentificationError::NoIdentificationNeeded => "Item does not need identification",
        }
    }
}

} // verus!
