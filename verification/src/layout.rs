//! How the indices are laid out in a durable key-value store: one tree per
//! index and DataCapsule, named by a prefix byte, seven zero bytes, and the
//! capsule's name.

use vstd::prelude::*;
use crate::crypto;

verus! {

/// `M`: DataCapsule metadata; this one tree is shared by all capsules and named
/// by its prefix alone.
pub const METADATA: u8 = 0x4d;

/// `H`: record headers.
pub const HEADERS: u8 = 0x48;

/// `B`: record bodies.
pub const BODIES: u8 = 0x42;

/// `R`: reverse pointers of the record store, or the parents of committed
/// records of the commit store.
pub const REVERSE_PTRS: u8 = 0x52;

/// `A`: heads and roots.
pub const MARKED: u8 = 0x41;

/// `W`: witnesses.
pub const WITNESSES: u8 = 0x57;

/// `N`: nodes of commit trees.
pub const NODES: u8 = 0x4e;

/// `O`: orphans.
pub const ORPHANS: u8 = 0x4f;

/// `D`: encrypted records of the commit store.
pub const DATA: u8 = 0x44;

/// The name of the tree of one index of one DataCapsule.
pub open spec fn spec_tree_name(prefix: u8, dc_name: crypto::Hash) -> Seq<u8> {
    seq![prefix] + Seq::new(7, |i: int| 0u8) + dc_name@
}

/// The name of the tree of one index of one DataCapsule.
pub fn tree_name(prefix: u8, dc_name: &crypto::Hash) -> (name: [u8; 40])
    ensures
        name@ == spec_tree_name(prefix, *dc_name),
{
    let mut name = [0u8;40];
    name[0] = prefix;
    let mut i: usize = 0;
    while i < 32
        invariant
            i <= 32,
            name@[0] == prefix,
            forall|j: int| 1 <= j < 8 ==> name@[j] == 0,
            forall|j: int| 0 <= j < i ==> name@[8 + j] == dc_name@[j],
        decreases 32 - i,
    {
        name[8 + i] = dc_name[i];
        i += 1;
    }
    assert(name@ =~= spec_tree_name(prefix, *dc_name));
    name
}

} // verus!
