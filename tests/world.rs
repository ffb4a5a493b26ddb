use redstone_core::{
    is_flat_surface, requires_flat_surface, BlockState, IntVec3, InvalidPlacement, Timeline,
    WorldState, WORLD_SIZE,
};

fn v(x: i32, y: i32, z: i32) -> IntVec3 {
    IntVec3::new(x, y, z)
}

fn block(block_type: &str) -> BlockState {
    BlockState::initial_state_for(block_type)
}

#[test]
fn occupancy_is_checked_before_support() {
    let mut world = WorldState::new((v(0, 0, 0), v(15, 1, 15)));
    assert_eq!(world.insert_block(v(3, 0, 3), block("sandstone")), Ok(()));
    assert_eq!(
        world.insert_block(v(3, 0, 3), block("redstone_wire")),
        Err(InvalidPlacement::PositionOccupied)
    );
    assert_eq!(world.len(), 1);
}

#[test]
fn support_below_the_bounds_is_missing() {
    let mut world = WorldState::new((v(0, 0, 0), v(15, 1, 15)));
    assert_eq!(
        world.insert_block(v(0, 0, 0), block("repeater")),
        Err(InvalidPlacement::NotAFlatSurface)
    );
    assert_eq!(world.len(), 0);
}

#[test]
fn bounds_are_inclusive() {
    let mut world = WorldState::new((v(0, 0, 0), v(16, 16, 16)));
    assert_eq!(
        world.insert_block(v(17, 0, 0), block("sandstone")),
        Err(InvalidPlacement::OutOfBounds)
    );
    assert_eq!(world.insert_block(v(16, 0, 0), block("sandstone")), Ok(()));
    assert_eq!(
        world.insert_block(v(0, -1, 0), block("sandstone")),
        Err(InvalidPlacement::OutOfBounds)
    );
    assert_eq!(
        world.insert_block(v(0, 0, 17), block("sandstone")),
        Err(InvalidPlacement::OutOfBounds)
    );
    assert_eq!(world.len(), 1);
}

#[test]
fn bounds_are_checked_first() {
    let mut world = WorldState::new((v(0, 0, 0), v(4, 4, 4)));
    assert_eq!(
        world.insert_block(v(5, 0, 0), block("repeater")),
        Err(InvalidPlacement::OutOfBounds)
    );
}

#[test]
fn a_flat_block_supports_redstone() {
    let mut world = WorldState::new((v(0, 0, 0), v(15, 15, 15)));
    assert_eq!(world.insert_block(v(5, 0, 5), block("iron_block")), Ok(()));
    assert_eq!(world.insert_block(v(5, 1, 5), block("repeater")), Ok(()));
    assert_eq!(
        world.insert_block(v(5, 2, 5), block("redstone_wire")),
        Err(InvalidPlacement::NotAFlatSurface)
    );
    assert_eq!(
        world.insert_block(v(6, 1, 5), block("redstone_torch")),
        Err(InvalidPlacement::NotAFlatSurface)
    );
    assert_eq!(world.len(), 2);
    assert_eq!(world.block_at(v(5, 1, 5)).map(|b| b.block_type()), Some("repeater"));
    assert!(world.block_at(v(5, 2, 5)).is_none());
}

#[test]
fn removing_a_block_frees_its_position() {
    let mut world = WorldState::new((v(0, 0, 0), v(15, 15, 15)));
    world.insert_block(v(1, 0, 1), block("sandstone")).unwrap();
    world.insert_block(v(1, 1, 1), block("redstone_wire")).unwrap();
    let removed = world.remove_block(v(1, 0, 1));
    assert_eq!(removed.map(|b| b.block_type), Some("sandstone".to_string()));
    assert!(world.remove_block(v(1, 0, 1)).is_none());
    assert_eq!(world.len(), 1);
    assert_eq!(world.insert_block(v(1, 0, 1), block("iron_block")), Ok(()));
    assert_eq!(world.bounds(), (v(0, 0, 0), v(15, 15, 15)));
}

#[test]
fn behaviour_table() {
    assert!(requires_flat_surface(&block("redstone_wire")));
    assert!(requires_flat_surface(&block("redstone_torch")));
    assert!(requires_flat_surface(&block("repeater")));
    assert!(!requires_flat_surface(&block("sandstone")));
    assert!(is_flat_surface(&block("iron_block")));
    assert!(is_flat_surface(&block("sandstone")));
    assert!(!is_flat_surface(&block("repeater")));
}

#[test]
fn timeline_places_in_the_present() {
    let mut timeline = Timeline::default();
    assert_eq!(WORLD_SIZE, 16);
    assert_eq!(
        timeline.insert_block(v(17, 0, 0), block("sandstone")),
        Err(InvalidPlacement::OutOfBounds)
    );
    assert_eq!(timeline.insert_block(v(16, 0, 0), block("sandstone")), Ok(()));
    assert_eq!(timeline.insert_block(v(16, 1, 0), block("repeater")), Ok(()));
    assert_eq!(
        timeline.insert_block(v(16, 1, 0), block("sandstone")),
        Err(InvalidPlacement::PositionOccupied)
    );
    let present = timeline.world_state(0).unwrap();
    assert_eq!(present.len(), 2);
    assert_eq!(present.bounds(), (v(0, 0, 0), v(16, 16, 16)));
    assert!(timeline.world_state(1).is_none());
}

#[test]
fn timeline_with_custom_bounds() {
    let mut timeline = Timeline::new((v(-2, -2, -2), v(2, 2, 2)));
    assert_eq!(timeline.insert_block(v(-2, -2, -2), block("iron_block")), Ok(()));
    assert_eq!(
        timeline.insert_block(v(-3, 0, 0), block("iron_block")),
        Err(InvalidPlacement::OutOfBounds)
    );
    assert_eq!(timeline.world_state(0).unwrap().len(), 1);
}

#[test]
fn vector_arithmetic() {
    assert_eq!(v(1, 2, 3).add(v(10, -20, 30)), v(11, -18, 33));
    assert_eq!(v(1, -2, 3).mul(4), v(4, -8, 12));
}
