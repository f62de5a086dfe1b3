//! Binary (active/inactive) site-state representation.
use vstd::prelude::*;

verus! {

/// A site that is either Active or Inactive.
#[derive(Debug, Clone, Copy, PartialEq, Eq, Structural)]
pub enum Binary {
    Inactive,
    Active,
}

impl Binary {
    /// The state that `is_active` reports as `active`.
    pub open spec fn from_bool(active: bool) -> Binary {
        if active {
            Binary::Active
        } else {
            Binary::Inactive
        }
    }

    /// Whether the site is Active.
    pub fn is_active(self) -> (b: bool)
        ensures
            b == (self == Binary::Active),
    {
        match self {
            Binary::Active => true,
            Binary::Inactive => false,
        }
    }
}

} // verus!
