use vstd::prelude::*;

use crate::block_state::BlockState;
use crate::text::str_eq;

verus! {

/// Block types that must rest on a flat surface.
pub open spec fn needs_support(block_type: Seq<char>) -> bool {
    block_type == "redstone_torch"@ || block_type == "redstone_wire"@ || block_type == "repeater"@
}

/// Block types whose top is a flat surface that other blocks can rest on.
pub open spec fn gives_support(block_type: Seq<char>) -> bool {
    block_type == "iron_block"@ || block_type == "sandstone"@
}

/// Whether a block in `state` may only be placed on top of a flat surface.
pub fn requires_flat_surface(state: &BlockState) -> (r: bool)
    ensures
        r == needs_support(state@.block_type),
{
    let t = state.block_type();
    str_eq(t, "redstone_torch") || str_eq(t, "redstone_wire") || str_eq(t, "repeater")
}

/// Whether a block in `state` provides a flat surface on top, legal for the
/// placement of blocks such as redstone wire: a full block, for example.
pub fn is_flat_surface(state: &BlockState) -> (r: bool)
    ensures
        r == gives_support(state@.block_type),
{
    let t = state.block_type();
    str_eq(t, "iron_block") || str_eq(t, "sandstone")
}

} // verus!
