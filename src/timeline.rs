use vstd::prelude::*;

use crate::block_state::BlockState;
use crate::int_vec3::IntVec3;
use crate::world_state::{
    placement_result, world_valid, Bounds, InvalidPlacement, WorldState, WorldStateView,
};

verus! {

/// A discrete point in time; 0 is the present.
pub type TimeIndex = i32;

/// The edge length, in blocks, of the default world.
pub const WORLD_SIZE: i32 = 16;

/// The mathematical model of a [`Timeline`].
pub struct TimelineView {
    pub bounds: Bounds,
    pub snapshots: Seq<(TimeIndex, WorldStateView)>,
}

/// Snapshots of the world indexed by time. Placement works on the snapshot
/// of the present, time 0.
#[derive(Debug)]
pub struct Timeline {
    bounds: Bounds,
    world_states: Vec<(TimeIndex, WorldState)>,
    random_seed: i32,
}

impl View for Timeline {
    type V = TimelineView;

    closed spec fn view(&self) -> TimelineView {
        TimelineView {
            bounds: self.bounds,
            snapshots: self.world_states@.map_values(|e: (TimeIndex, WorldState)| (e.0, e.1@)),
        }
    }
}

/// Time indices increase strictly, the present is among them, and every
/// snapshot is a valid world with the timeline's bounds.
pub open spec fn timeline_valid(t: TimelineView) -> bool {
    &&& forall|i: int, j: int|
        0 <= i < j < t.snapshots.len() ==> (#[trigger] t.snapshots[i]).0 < (
        #[trigger] t.snapshots[j]).0
    &&& exists|i: int| 0 <= i < t.snapshots.len() && (#[trigger] t.snapshots[i]).0 == 0
    &&& forall|i: int|
        0 <= i < t.snapshots.len() ==> world_valid((#[trigger] t.snapshots[i]).1)
            && t.snapshots[i].1.bounds == t.bounds
}

/// The position of the present among the snapshots.
pub open spec fn present_index(t: TimelineView) -> int {
    choose|i: int| 0 <= i < t.snapshots.len() && (#[trigger] t.snapshots[i]).0 == 0
}

/// The snapshot of the present.
pub open spec fn present(t: TimelineView) -> WorldStateView {
    t.snapshots[present_index(t)].1
}

impl Timeline {
    pub open spec fn well_formed(&self) -> bool {
        timeline_valid(self@)
    }

    /// A timeline whose only snapshot is an empty world at time 0.
    pub fn new(bounds: Bounds) -> (r: Timeline)
        ensures
            r.well_formed(),
            r@.bounds == bounds,
            r@.snapshots.len() == 1,
            r@.snapshots[0].0 == 0,
            r@.snapshots[0].1.bounds == bounds,
            r@.snapshots[0].1.blocks.len() == 0,
    {
        let mut world_states: Vec<(TimeIndex, WorldState)> = Vec::new();
        world_states.push((0, WorldState::new(bounds)));
        let r = Timeline { bounds, world_states, random_seed: 0 };
        assert(r@.snapshots[0].0 == 0);
        r
    }

    /// The snapshot at time `time`, if there is one.
    pub fn world_state(&self, time: TimeIndex) -> (r: Option<&WorldState>)
        ensures
            match r {
                Some(w) => exists|i: int|
                    0 <= i < self@.snapshots.len() && (#[trigger] self@.snapshots[i]).0 == time
                        && self@.snapshots[i].1 == w@,
                None => forall|i: int|
                    0 <= i < self@.snapshots.len() ==> (#[trigger] self@.snapshots[i]).0 != time,
            },
    {
        let mut i: usize = 0;
        while i < self.world_states.len()
            invariant
                i <= self@.snapshots.len(),
                self@.snapshots.len() == self.world_states@.len(),
                forall|k: int| 0 <= k < i ==> (#[trigger] self@.snapshots[k]).0 != time,
            decreases self.world_states@.len() - i,
        {
            assert(self@.snapshots[i as int] == (
                self.world_states@[i as int].0,
                self.world_states@[i as int].1@,
            ));
            if self.world_states[i].0 == time {
                return Some(&self.world_states[i].1);
            }
            i += 1;
        }
        None
    }

    /// Places a block in the present snapshot, on the terms of
    /// `WorldState::insert_block`, and answers as it does. The other
    /// snapshots are left as they are.
    pub fn insert_block(&mut self, pos: IntVec3, state: BlockState) -> (r: Result<
        (),
        InvalidPlacement,
    >)
        requires
            old(self).well_formed(),
        ensures
            final(self).well_formed(),
            r == placement_result(present(old(self)@), pos, state@),
            final(self)@.bounds == old(self)@.bounds,
            final(self)@.snapshots == old(self)@.snapshots.update(
                present_index(old(self)@),
                (
                    0,
                    if r is Ok {
                        WorldStateView {
                            bounds: present(old(self)@).bounds,
                            blocks: present(old(self)@).blocks.push((pos, state@)),
                        }
                    } else {
                        present(old(self)@)
                    },
                ),
            ),
    {
        let ghost t = self@;
        let n = self.world_states.len();
        let mut k: usize = 0;
        while k < n && self.world_states[k].0 != 0
            invariant
                n == self.world_states@.len(),
                self@ == t,
                timeline_valid(t),
                k <= n,
                forall|m: int| 0 <= m < k ==> (#[trigger] t.snapshots[m]).0 != 0,
            decreases n - k,
        {
            assert(t.snapshots[k as int].0 == self.world_states@[k as int].0);
            k += 1;
        }
        if k == n {
            // Never taken: a well-formed timeline always holds the present.
            proof {
                let w = choose|i: int| 0 <= i < t.snapshots.len() && (#[trigger] t.snapshots[i]).0 == 0;
                assert(t.snapshots[w].0 != 0);
            }
            return Err(InvalidPlacement::OutOfBounds);
        }
        proof {
            assert(t.snapshots[k as int].0 == self.world_states@[k as int].0);
            assert(t.snapshots[k as int].0 == 0);
            let p = present_index(t);
            if p < k {
                assert(t.snapshots[p].0 < t.snapshots[k as int].0);
            } else if p > k {
                assert(t.snapshots[k as int].0 < t.snapshots[p].0);
            }
            assert(p == k);
        }
        let (time, mut world) = self.world_states.remove(k);
        let r = world.insert_block(pos, state);
        self.world_states.insert(k, (time, world));
        proof {
            let s = self@.snapshots;
            assert(s =~= t.snapshots.update(k as int, (0, world@)));
            assert(world@.bounds == t.snapshots[k as int].1.bounds);
            assert(s[k as int].0 == 0);
            assert forall|i: int, j: int| 0 <= i < j < s.len() implies (#[trigger] s[i]).0 < (
            #[trigger] s[j]).0 by {
                assert(s[i].0 == t.snapshots[i].0 && s[j].0 == t.snapshots[j].0);
            }
            assert forall|i: int| 0 <= i < s.len() implies world_valid((#[trigger] s[i]).1)
                && s[i].1.bounds == self@.bounds by {
                if i != k {
                    assert(s[i] == t.snapshots[i]);
                }
            }
        }
        r
    }
}

impl Default for Timeline {
    /// A timeline for a world from the origin to `WORLD_SIZE` blocks along
    /// each axis, with no block placed yet.
    fn default() -> (r: Timeline)
        ensures
            r.well_formed(),
            r@.bounds == (IntVec3 { x: 0, y: 0, z: 0 }, IntVec3 {
                x: WORLD_SIZE,
                y: WORLD_SIZE,
                z: WORLD_SIZE,
            }),
            r@.snapshots.len() == 1,
            r@.snapshots[0].0 == 0,
            r@.snapshots[0].1.blocks.len() == 0,
    {
        let low = IntVec3::new(0, 0, 0);
        let high = IntVec3::new(1, 1, 1).mul(WORLD_SIZE);
        Timeline::new((low, high))
    }
}

} // verus!
