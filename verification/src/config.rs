//! The choices that are fixed when the library is built.

use vstd::prelude::*;

verus! {

/// Whether leaves get a surface of their own, built apart from the terrain
/// and laid over it.
pub const MULTIPASS: bool = true;

/// Whether the surface of the leaves keeps one kernel size, whatever the
/// smoothness asked for.
pub const LOCK_LEAVES: bool = true;

} // verus!
