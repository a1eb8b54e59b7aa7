//! Choice of dissolution storage backends.

use vstd::prelude::*;

verus! {

/// Factory for dissolution storage backends.
pub struct DissolutionStorageFactory;

/// The characters of "sdyn_erasure".
pub open spec fn sdyn_erasure_name() -> Seq<char> {
    seq!['s', 'd', 'y', 'n', '_', 'e', 'r', 'a', 's', 'u', 'r', 'e']
}

/// The characters of "bcachefs".
pub open spec fn bcachefs_name() -> Seq<char> {
    seq!['b', 'c', 'a', 'c', 'h', 'e', 'f', 's']
}

/// The characters of "zfs".
pub open spec fn zfs_name() -> Seq<char> {
    seq!['z', 'f', 's']
}

impl DissolutionStorageFactory {
    /// The backends available: the built-in erasure backend always, then bcachefs and ZFS
    /// where their tools were found.
    pub fn available_backends(bcachefs_found: bool, zfs_found: bool) -> (r: Vec<String>)
        ensures
            r@.map_values(|s: String| s@) == seq![sdyn_erasure_name()] + (if bcachefs_found {
                seq![bcachefs_name()]
            } else {
                Seq::empty()
            }) + (if zfs_found {
                seq![zfs_name()]
            } else {
                Seq::empty()
            }),
    {
        proof {
            reveal_strlit("sdyn_erasure");
            reveal_strlit("bcachefs");
            reveal_strlit("zfs");
        }
        let mut backends: Vec<String> = Vec::new();
        let first = "sdyn_erasure".to_string();
        assert(first@ =~= sdyn_erasure_name());
        backends.push(first);
        if bcachefs_found {
            let b = "bcachefs".to_string();
            assert(b@ =~= bcachefs_name());
            backends.push(b);
        }
        if zfs_found {
            let z = "zfs".to_string();
            assert(z@ =~= zfs_name());
            backends.push(z);
        }
        assert(backends@.map_values(|s: String| s@) =~= seq![sdyn_erasure_name()] + (if bcachefs_found {
            seq![bcachefs_name()]
        } else {
            Seq::empty()
        }) + (if zfs_found {
            seq![zfs_name()]
        } else {
            Seq::empty()
        }));
        backends
    }
}

} // verus!
