use vstd::prelude::*;

use crate::behavior::{gives_support, is_flat_surface, needs_support, requires_flat_surface};
use crate::block_state::{BlockState, BlockStateView};
use crate::int_vec3::IntVec3;

verus! {

/// Lowest and highest corner of a box, both inclusive.
pub type Bounds = (IntVec3, IntVec3);

/// Why a placement was refused.
#[derive(Clone, Copy, Debug, PartialEq, Eq, Structural)]
pub enum InvalidPlacement {
    /// The position lies outside the world's bounds.
    OutOfBounds,
    /// A block already stands at the position.
    PositionOccupied,
    /// The block needs a flat surface below it and there is none.
    NotAFlatSurface,
}

/// The mathematical model of a [`WorldState`]: its bounds and its blocks in
/// the order they were placed.
pub struct WorldStateView {
    pub bounds: Bounds,
    pub blocks: Seq<(IntVec3, BlockStateView)>,
}

#[derive(Debug)]
struct WorldPosition {
    pos: IntVec3,
    state: BlockState,
}

/// The blocks placed in a bounded world, at most one at each position.
#[derive(Debug)]
pub struct WorldState {
    bounds: Bounds,
    positions: Vec<WorldPosition>,
}

impl View for WorldState {
    type V = WorldStateView;

    closed spec fn view(&self) -> WorldStateView {
        WorldStateView {
            bounds: self.bounds,
            blocks: self.positions@.map_values(|p: WorldPosition| (p.pos, p.state@)),
        }
    }
}

/// Whether `p` lies in the box, bounds included, on all three axes.
pub open spec fn in_bounds(b: Bounds, p: IntVec3) -> bool {
    &&& b.0.x <= p.x <= b.1.x
    &&& b.0.y <= p.y <= b.1.y
    &&& b.0.z <= p.z <= b.1.z
}

/// Whether `p` is the point `(x, y, z)`.
pub open spec fn at(p: IntVec3, x: int, y: int, z: int) -> bool {
    p.x == x && p.y == y && p.z == z
}

/// Some block stands at `(x, y, z)`.
pub open spec fn occupied(blocks: Seq<(IntVec3, BlockStateView)>, x: int, y: int, z: int) -> bool {
    exists|i: int| 0 <= i < blocks.len() && at(#[trigger] blocks[i].0, x, y, z)
}

/// A block that provides a flat surface stands directly below `p`.
pub open spec fn supported(blocks: Seq<(IntVec3, BlockStateView)>, p: IntVec3) -> bool {
    exists|i: int|
        0 <= i < blocks.len() && at(#[trigger] blocks[i].0, p.x as int, p.y - 1, p.z as int)
            && gives_support(blocks[i].1.block_type)
}

/// What placing a block in state `st` at `pos` answers. The checks run in a
/// fixed order and the first that fails is reported: bounds, then occupancy,
/// then support.
pub open spec fn placement_result(w: WorldStateView, pos: IntVec3, st: BlockStateView) -> Result<
    (),
    InvalidPlacement,
> {
    if !in_bounds(w.bounds, pos) {
        Err(InvalidPlacement::OutOfBounds)
    } else if occupied(w.blocks, pos.x as int, pos.y as int, pos.z as int) {
        Err(InvalidPlacement::PositionOccupied)
    } else if needs_support(st.block_type) && !supported(w.blocks, pos) {
        Err(InvalidPlacement::NotAFlatSurface)
    } else {
        Ok(())
    }
}

/// Every block lies within the bounds, and no two share a position.
pub open spec fn world_valid(w: WorldStateView) -> bool {
    &&& forall|i: int| 0 <= i < w.blocks.len() ==> in_bounds(w.bounds, #[trigger] w.blocks[i].0)
    &&& forall|i: int, j: int|
        0 <= i < j < w.blocks.len() ==> (#[trigger] w.blocks[i].0) != (#[trigger] w.blocks[j].0)
}

impl WorldState {
    pub open spec fn well_formed(&self) -> bool {
        world_valid(self@)
    }

    /// An empty world with fixed bounds.
    pub fn new(bounds: Bounds) -> (r: WorldState)
        ensures
            r@.bounds == bounds,
            r@.blocks.len() == 0,
            r.well_formed(),
    {
        let r = WorldState { bounds, positions: Vec::new() };
        assert(r@.blocks.len() == 0);
        r
    }

    /// The bounds of the world.
    pub fn bounds(&self) -> (r: Bounds)
        ensures
            r == self@.bounds,
    {
        self.bounds
    }

    /// The number of blocks placed.
    pub fn len(&self) -> (r: usize)
        ensures
            r == self@.blocks.len(),
    {
        self.positions.len()
    }

    fn is_in_bounds(&self, pos: IntVec3) -> (r: bool)
        ensures
            r == in_bounds(self@.bounds, pos),
    {
        let (low, high) = self.bounds;
        low.x <= pos.x && pos.x <= high.x && low.y <= pos.y && pos.y <= high.y && low.z <= pos.z
            && pos.z <= high.z
    }

    /// The index of the block at `(x, y, z)`, if one stands there.
    fn find(&self, x: i32, y: i32, z: i32) -> (r: Option<usize>)
        ensures
            match r {
                Some(i) => i < self@.blocks.len() && at(
                    self@.blocks[i as int].0,
                    x as int,
                    y as int,
                    z as int,
                ),
                None => !occupied(self@.blocks, x as int, y as int, z as int),
            },
    {
        let mut i: usize = 0;
        while i < self.positions.len()
            invariant
                i <= self@.blocks.len(),
                self@.blocks.len() == self.positions@.len(),
                forall|k: int|
                    0 <= k < i ==> !at(#[trigger] self@.blocks[k].0, x as int, y as int, z as int),
            decreases self.positions@.len() - i,
        {
            let p = self.positions[i].pos;
            assert(self@.blocks[i as int].0 == p);
            if p.x == x && p.y == y && p.z == z {
                return Some(i);
            }
            i += 1;
        }
        None
    }

    fn is_position_occupied(&self, pos: IntVec3) -> (r: bool)
        ensures
            r == occupied(self@.blocks, pos.x as int, pos.y as int, pos.z as int),
    {
        self.find(pos.x, pos.y, pos.z).is_some()
    }

    /// Whether a block that provides a flat surface stands directly below `pos`.
    fn is_flat_surface(&self, pos: IntVec3) -> (r: bool)
        requires
            self.well_formed(),
        ensures
            r == supported(self@.blocks, pos),
    {
        let ghost blocks = self@.blocks;
        if pos.y == i32::MIN {
            assert(!supported(blocks, pos)) by {
                assert forall|i: int| 0 <= i < blocks.len() implies !at(
                    #[trigger] blocks[i].0,
                    pos.x as int,
                    pos.y - 1,
                    pos.z as int,
                ) by {
                    assert(blocks[i].0.y >= i32::MIN);
                }
            }
            return false;
        }
        match self.find(pos.x, pos.y - 1, pos.z) {
            Some(i) => {
                let r = is_flat_surface(&self.positions[i].state);
                assert(blocks[i as int].1 == self.positions@[i as int].state@);
                proof {
                    if supported(blocks, pos) && !r {
                        let j = choose|j: int|
                            0 <= j < blocks.len() && at(
                                #[trigger] blocks[j].0,
                                pos.x as int,
                                pos.y - 1,
                                pos.z as int,
                            ) && gives_support(blocks[j].1.block_type);
                        assert(blocks[j].0 == blocks[i as int].0);
                        if j < i {
                            assert(blocks[j].0 != blocks[i as int].0);
                        } else if j > i {
                            assert(blocks[i as int].0 != blocks[j].0);
                        }
                    }
                }
                r
            },
            None => false,
        }
    }

    fn assert_valid_placement(&self, pos: IntVec3, state: &BlockState) -> (r: Result<
        (),
        InvalidPlacement,
    >)
        requires
            self.well_formed(),
        ensures
            r == placement_result(self@, pos, state@),
    {
        if !self.is_in_bounds(pos) {
            return Err(InvalidPlacement::OutOfBounds);
        }
        if self.is_position_occupied(pos) {
            return Err(InvalidPlacement::PositionOccupied);
        }
        if requires_flat_surface(state) && !self.is_flat_surface(pos) {
            return Err(InvalidPlacement::NotAFlatSurface);
        }
        Ok(())
    }

    /// Places a block in `state` at `pos` if that is legal: `pos` lies within
    /// the bounds, no block stands there, and a block that needs a flat
    /// surface has one directly below. The first check that fails is reported
    /// and the world is left unchanged.
    pub fn insert_block(&mut self, pos: IntVec3, state: BlockState) -> (r: Result<
        (),
        InvalidPlacement,
    >)
        requires
            old(self).well_formed(),
        ensures
            final(self).well_formed(),
            r == placement_result(old(self)@, pos, state@),
            r is Ok ==> final(self)@ == (WorldStateView {
                bounds: old(self)@.bounds,
                blocks: old(self)@.blocks.push((pos, state@)),
            }),
            r is Err ==> final(self)@ == old(self)@,
    {
        match self.assert_valid_placement(pos, &state) {
            Ok(()) => {},
            Err(e) => {
                return Err(e);
            },
        }
        let ghost before = self@.blocks;
        self.positions.push(WorldPosition { pos, state });
        assert(self@.blocks =~= before.push((pos, state@)));
        assert forall|i: int, j: int|
            0 <= i < j < self@.blocks.len() implies (#[trigger] self@.blocks[i].0) != (
            #[trigger] self@.blocks[j].0) by {
            if j == before.len() {
                assert(!at(before[i].0, pos.x as int, pos.y as int, pos.z as int));
            }
        }
        Ok(())
    }

    /// The block at `pos`, if one stands there.
    pub fn block_at(&self, pos: IntVec3) -> (r: Option<&BlockState>)
        ensures
            match r {
                Some(b) => exists|i: int|
                    0 <= i < self@.blocks.len() && #[trigger] self@.blocks[i].0 == pos
                        && self@.blocks[i].1 == b@,
                None => !occupied(self@.blocks, pos.x as int, pos.y as int, pos.z as int),
            },
    {
        match self.find(pos.x, pos.y, pos.z) {
            Some(i) => {
                assert(self@.blocks[i as int].1 == self.positions@[i as int].state@);
                Some(&self.positions[i].state)
            },
            None => None,
        }
    }

    /// Takes the block at `pos` out of the world, if one stands there.
    pub fn remove_block(&mut self, pos: IntVec3) -> (r: Option<BlockState>)
        requires
            old(self).well_formed(),
        ensures
            final(self).well_formed(),
            final(self)@.bounds == old(self)@.bounds,
            match r {
                Some(b) => exists|i: int|
                    0 <= i < old(self)@.blocks.len() && #[trigger] old(self)@.blocks[i].0 == pos
                        && old(self)@.blocks[i].1 == b@ && final(self)@.blocks == old(
                        self,
                    )@.blocks.remove(i),
                None => !occupied(old(self)@.blocks, pos.x as int, pos.y as int, pos.z as int)
                    && final(self)@ == old(self)@,
            },
    {
        match self.find(pos.x, pos.y, pos.z) {
            Some(i) => {
                let ghost before = self@.blocks;
                let removed = self.positions.remove(i);
                assert(self@.blocks =~= before.remove(i as int));
                assert(before[i as int].0 == pos);
                Some(removed.state)
            },
            None => None,
        }
    }
}

} // verus!
