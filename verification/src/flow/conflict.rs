//! Resolution of conflicting values.

use vstd::prelude::*;

verus! {

/// Chooses the value that stands when a local and a remote value conflict.
pub trait ConflictResolver<T> {
    fn resolve(&self, local: &T, remote: &T) -> T;
}

/// The remote value wins.
pub struct LastWriteWins;

impl<T: Clone> ConflictResolver<T> for LastWriteWins {
    fn resolve(&self, local: &T, remote: &T) -> (r: T)
        ensures
            cloned(*remote, r),
    {
        remote.clone()
    }
}

} // verus!
