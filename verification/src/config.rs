//! Tunable constants shared by clients and servers.

use vstd::prelude::*;

verus! {

/// Branching factor of the commit trees.
pub const FANOUT: usize = 4;

/// Number of slots in the direct-mapped part of the proof cache, and the
/// capacity of the proven-name cache.
pub const CACHE_SIZE: usize = 4096;

/// How many extra ancestor nodes a server may send in place of a signature.
pub const SIG_AVOID: usize = 2;

} // verus!
