//! Block-state and world-placement validation for a voxel sandbox.
//!
//! The library models each block type's legal state space, resolves a block
//! state to the one visual variant that applies to it, and keeps a bounded
//! world in which placements are checked for bounds, occupancy and support.
pub mod behavior;
pub mod block_state;
pub mod int_vec3;
pub mod keys;
pub mod laws;
pub mod schema;
pub mod state_value;
pub mod text;
pub mod timeline;
pub mod variant;
pub mod world_state;

pub use behavior::{is_flat_surface, requires_flat_surface};
pub use block_state::{BlockFace, BlockState, InvalidStateTransition};
pub use int_vec3::IntVec3;
pub use schema::state_values_for;
pub use state_value::StateValue;
pub use timeline::{TimeIndex, Timeline, WORLD_SIZE};
pub use variant::{Condition, ModelProperties, Variant, VariantCase, VariantError, WhenClause};
pub use world_state::{InvalidPlacement, WorldState};
