//! Shared parameters of the update operations.

use vstd::prelude::*;

verus! {

/// How an update call treats the existing template: replacing it whole,
/// or merging the new content into it.
#[derive(Debug, Clone, Copy, PartialEq, Eq, Structural)]
pub enum UpdateType {
    Replace,
    Merge,
}

impl UpdateType {
    /// The wire value of the policy: replace is 0, merge is 1.
    pub fn value(self) -> (r: i32)
        ensures
            r == match self {
                UpdateType::Replace => 0int,
                UpdateType::Merge => 1int,
            },
    {
        match self {
            UpdateType::Replace => 0,
            UpdateType::Merge => 1,
        }
    }
}

} // verus!
