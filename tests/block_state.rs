use redstone_core::{BlockFace, BlockState, InvalidStateTransition, StateValue};

fn text(s: &str) -> StateValue {
    StateValue::String(s.to_string())
}

fn expected_non_empty_state() -> BlockState {
    BlockState::with_values(
        "repeater",
        vec![
            ("delay".to_string(), text("2")),
            ("facing".to_string(), text("north")),
            ("locked".to_string(), StateValue::Bool(false)),
            ("powered".to_string(), StateValue::Bool(true)),
        ],
    )
}

#[test]
fn block_state_constructs_empty_state() {
    let state = BlockState::new("sandstone", "");
    assert_eq!(state.len(), 0);
}

#[test]
fn mod_constructs_empty_state() {
    let state = BlockState::new("sandstone", "");
    assert_eq!(state.len(), 0);
}

#[test]
fn block_state_constructs_non_empty_state() {
    let actual = BlockState::new("repeater", "delay=2,facing=north,locked=false,powered=true");
    assert_eq!(actual, expected_non_empty_state());
}

#[test]
fn mod_constructs_non_empty_state() {
    let actual = BlockState::new("repeater", "delay=2,facing=north,locked=false,powered=true");
    assert_eq!(actual, expected_non_empty_state());
    assert_eq!(actual.get("delay"), Some(&text("2")));
    assert_eq!(actual.get("facing"), Some(&text("north")));
    assert_eq!(actual.get("locked"), Some(&StateValue::Bool(false)));
    assert_eq!(actual.get("powered"), Some(&StateValue::Bool(true)));
}

#[test]
fn block_state_initial_state_for_repeater() {
    let state = BlockState::initial_state_for("repeater");
    let expected = BlockState::new("repeater", "delay=1,facing=south,locked=false,powered=false");
    assert_eq!(state, expected, "initial state for repeater");
}

#[test]
fn mod_initial_state_for_repeater() {
    let state = BlockState::initial_state_for("repeater");
    let expected = BlockState::new("repeater", "delay=1,facing=south,locked=false,powered=false");
    assert_eq!(state, expected, "initial state for repeater");
}

#[test]
fn block_state_sets_allowed_facing_value() {
    let mut state = BlockState::initial_state_for("repeater");
    assert_eq!(state.set_facing(BlockFace::West), Ok(()));
    assert_eq!(
        state.get("facing"),
        Some(&text("west")),
        "facing should be set to 'west'"
    );
}

#[test]
fn mod_sets_allowed_facing_value() {
    let mut state = BlockState::initial_state_for("repeater");
    assert_eq!(state.set_facing(BlockFace::West), Ok(()));
    assert_eq!(
        state.get("facing"),
        Some(&text("west")),
        "facing should be set to 'west'"
    );
    assert_eq!(state.get("delay"), Some(&text("1")));
    assert_eq!(state.get("locked"), Some(&StateValue::Bool(false)));
    assert_eq!(state.get("powered"), Some(&StateValue::Bool(false)));
    assert_eq!(state.serialize(), "delay=1,facing=west,locked=false,powered=false");
}

#[test]
fn block_state_does_not_set_disallowed_facing_value() {
    let mut state = BlockState::initial_state_for("repeater");
    let initial_face = state.get("facing").cloned();
    assert_eq!(
        state.set_facing(BlockFace::Up),
        Err(InvalidStateTransition::DisallowedValue)
    );
    assert_eq!(state.get("facing").cloned(), initial_face, "facing hasn't changed");
}

#[test]
fn mod_does_not_set_disallowed_facing_value() {
    let mut state = BlockState::initial_state_for("repeater");
    let initial_face = state.get("facing").cloned();
    assert!(state.set_facing(BlockFace::Up).is_err());
    assert_eq!(state.get("facing").cloned(), initial_face, "facing hasn't changed");
    assert_eq!(state.serialize(), "delay=1,facing=south,locked=false,powered=false");
}

#[test]
fn block_state_does_note_set_disallowed_state_property() {
    let mut state = BlockState::initial_state_for("repeater");
    assert_eq!(
        state.update("foo", StateValue::Bool(true)),
        Err(InvalidStateTransition::UnknownProperty)
    );
    assert_eq!(state.get("foo"), None, "facing hasn't changed");
}

#[test]
fn mod_does_note_set_disallowed_state_property() {
    let mut state = BlockState::initial_state_for("repeater");
    assert!(state.update("foo", StateValue::Bool(true)).is_err());
    assert_eq!(state.get("foo"), None, "facing hasn't changed");
    assert_eq!(state.len(), 4);
}

#[test]
fn initial_state_has_every_default() {
    let state = BlockState::initial_state_for("repeater");
    assert_eq!(state.len(), 4);
    assert_eq!(state.serialize(), "delay=1,facing=south,locked=false,powered=false");
    let torch = BlockState::initial_state_for("redstone_torch");
    assert_eq!(torch.serialize(), "lit=false");
    let sandstone = BlockState::initial_state_for("sandstone");
    assert_eq!(sandstone.len(), 0);
    assert_eq!(sandstone.serialize(), "");
}

#[test]
fn update_sets_an_allowed_value_and_nothing_else() {
    let mut state = BlockState::initial_state_for("repeater");
    assert_eq!(state.update("delay", text("3")), Ok(()));
    assert_eq!(state.get("delay"), Some(&text("3")));
    assert_eq!(state.serialize(), "delay=3,facing=south,locked=false,powered=false");
    assert_eq!(state.update("powered", StateValue::Bool(true)), Ok(()));
    assert_eq!(state.serialize(), "delay=3,facing=south,locked=false,powered=true");
}

#[test]
fn update_refuses_a_value_outside_the_list() {
    let mut state = BlockState::initial_state_for("repeater");
    assert_eq!(
        state.update("delay", text("5")),
        Err(InvalidStateTransition::DisallowedValue)
    );
    assert_eq!(
        state.update("locked", text("maybe")),
        Err(InvalidStateTransition::DisallowedValue)
    );
    assert_eq!(state.serialize(), "delay=1,facing=south,locked=false,powered=false");
}

#[test]
fn update_accepts_a_spelled_boolean() {
    let mut state = BlockState::initial_state_for("repeater");
    assert_eq!(state.update("locked", text("true")), Ok(()));
    assert_eq!(state.get("locked"), Some(&StateValue::Bool(true)));
    assert_eq!(state.serialize(), "delay=1,facing=south,locked=true,powered=false");
}

#[test]
fn update_on_a_block_without_properties_fails() {
    let mut state = BlockState::initial_state_for("sandstone");
    assert_eq!(
        state.set_facing(BlockFace::North),
        Err(InvalidStateTransition::UnknownProperty)
    );
    assert_eq!(state.len(), 0);
}

#[test]
fn parse_skips_malformed_and_empty_entries() {
    let state = BlockState::new("repeater", "delay,,facing=east,");
    assert_eq!(state.len(), 1);
    assert_eq!(state.get("facing"), Some(&text("east")));
    assert_eq!(state.get("delay"), None);
}

#[test]
fn parse_keeps_the_last_value_of_a_repeated_property() {
    let state = BlockState::new("repeater", "delay=1,facing=east,delay=4");
    assert_eq!(state.len(), 2);
    assert_eq!(state.serialize(), "delay=4,facing=east");
}

#[test]
fn parse_reads_the_value_up_to_a_second_equals_sign() {
    let state = BlockState::new("repeater", "delay=2=3");
    assert_eq!(state.serialize(), "delay=2");
}

#[test]
fn parse_round_trip_of_a_valid_state() {
    let mut state = BlockState::initial_state_for("repeater");
    state.set_facing(BlockFace::East).unwrap();
    state.update("powered", StateValue::Bool(true)).unwrap();
    let text_form = state.serialize();
    assert_eq!(text_form, "delay=1,facing=east,locked=false,powered=true");
    let back = BlockState::new("repeater", &text_form);
    assert_eq!(back, state);
}

#[test]
fn states_differ_in_a_value_or_a_type() {
    let a = BlockState::new("repeater", "delay=1");
    assert_ne!(a, BlockState::new("repeater", "delay=2"));
    assert_ne!(a, BlockState::new("comparator", "delay=1"));
    assert_ne!(a, BlockState::new("repeater", "delay=1,locked=true"));
}

#[test]
fn values_match_alternatives_and_spelled_booleans() {
    assert_eq!(text("north|south"), text("south"));
    assert_eq!(text("east"), text("west|east"));
    assert_ne!(text("north|south"), text("east"));
    assert_eq!(text("false"), StateValue::Bool(false));
    assert_eq!(StateValue::Bool(true), text("true"));
    assert_ne!(StateValue::Bool(true), StateValue::Bool(false));
    assert_ne!(text("yes"), StateValue::Bool(true));
}

#[test]
fn schema_lists_defaults_first() {
    let schema = redstone_core::state_values_for("repeater");
    assert_eq!(schema.len(), 4);
    assert_eq!(schema[0].0, "delay");
    assert_eq!(schema[0].1.len(), 4);
    assert_eq!(schema[1].0, "facing");
    assert_eq!(schema[1].1[0], text("south"));
    assert!(redstone_core::state_values_for("iron_block").is_empty());
}

#[test]
fn with_values_keeps_the_last_value_of_a_repeated_property() {
    let state = BlockState::with_values(
        "repeater",
        vec![("delay".to_string(), text("1")), ("delay".to_string(), text("2"))],
    );
    assert_eq!(state.len(), 1);
    assert_eq!(state.get("delay"), Some(&text("2")));
    assert_eq!(state.block_type(), "repeater");
}
