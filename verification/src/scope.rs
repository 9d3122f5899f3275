//! The regions a run covers.

use vstd::prelude::*;

verus! {

/// Whether a run covers the default region alone or every listed region.
#[derive(Clone, Copy, Debug, PartialEq, Eq, Structural)]
pub enum MultiRegionOption {
    /// The region the environment names.
    Single,
    /// Every region of the region list, one after another.
    Multiple,
}

impl MultiRegionOption {
    /// True for a run over the region list.
    pub fn is_multiple(&self) -> (multiple: bool)
        ensures
            multiple == (*self == MultiRegionOption::Multiple),
    {
        match self {
            MultiRegionOption::Single => false,
            MultiRegionOption::Multiple => true,
        }
    }
}

} // verus!
