//! In-memory coordination core for a two-player room game: a registry of
//! rooms keyed by short join codes, with capacity-limited joins and
//! collision-checked code generation.

use vstd::prelude::*;

pub mod codes;
pub mod registry;

verus! {

/// Composition root: the freshly initialized, empty registry that the
/// process starts from and keeps for its whole lifetime. The surrounding
/// application owns the value this returns and routes every request to it.
pub fn rocket() -> (r: registry::Registry)
    ensures
        r.wf(),
        r@ =~= Seq::<registry::RoomView>::empty(),
{
    registry::Registry::new()
}

} // verus!
