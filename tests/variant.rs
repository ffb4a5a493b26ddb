use redstone_core::{
    BlockState, Condition, ModelProperties, StateValue, Variant, VariantCase, VariantError,
    WhenClause,
};

fn text(s: &str) -> StateValue {
    StateValue::String(s.to_string())
}

fn model(name: &str, y: i32) -> Variant {
    Variant::Single(ModelProperties {
        model: name.to_string(),
        x: 0,
        y,
        uv_lock: false,
        weight: 1,
    })
}

fn condition(pairs: &[(&str, &str)]) -> Condition {
    Condition {
        and: pairs.iter().map(|(k, v)| (k.to_string(), text(v))).collect(),
    }
}

/// The cases of the repeater's block states, one per variant, as the asset
/// pack lists them.
fn repeater_rules() -> Vec<VariantCase> {
    let mut rules = Vec::new();
    for delay in 1..=4 {
        for (facing, y) in [("east", 270), ("north", 180), ("south", 0), ("west", 90)] {
            for locked in ["false", "true"] {
                for powered in ["false", "true"] {
                    let name = format!(
                        "minecraft:block/repeater_{}tick{}{}",
                        delay,
                        if powered == "true" { "_on" } else { "" },
                        if locked == "true" { "_locked" } else { "" },
                    );
                    let delay_text = delay.to_string();
                    rules.push(VariantCase {
                        when: Some(WhenClause::Single(condition(&[
                            ("delay", delay_text.as_str()),
                            ("facing", facing),
                            ("locked", locked),
                            ("powered", powered),
                        ]))),
                        apply: model(&name, y),
                    });
                }
            }
        }
    }
    rules
}

#[test]
fn block_state_selects_the_correct_variant() {
    let state = BlockState::new("repeater", "delay=2,facing=north,locked=false,powered=true");
    let variant = state.active_variant(repeater_rules());
    assert_eq!(
        variant,
        Ok(Variant::Single(ModelProperties {
            model: "minecraft:block/repeater_2tick_on".to_string(),
            x: 0,
            y: 180,
            uv_lock: false,
            weight: 1,
        }))
    );
}

#[test]
fn mod_selects_the_correct_variant() {
    let state = BlockState::new("repeater", "delay=2,facing=north,locked=false,powered=true");
    let variant = state.active_variant(repeater_rules());
    assert_eq!(
        variant,
        Ok(Variant::Single(ModelProperties {
            model: "minecraft:block/repeater_2tick_on".to_string(),
            x: 0,
            y: 180,
            uv_lock: false,
            weight: 1,
        }))
    );
}

#[test]
fn every_valid_repeater_state_has_exactly_one_variant() {
    let mut state = BlockState::initial_state_for("repeater");
    assert_eq!(
        state.active_variant(repeater_rules()),
        Ok(model("minecraft:block/repeater_1tick", 0))
    );
    state.update("locked", StateValue::Bool(true)).unwrap();
    state.update("delay", text("4")).unwrap();
    assert_eq!(
        state.active_variant(repeater_rules()),
        Ok(model("minecraft:block/repeater_4tick_locked", 0))
    );
}

#[test]
fn a_missing_case_is_reported() {
    let state = BlockState::new("repeater", "delay=2,facing=north,locked=false,powered=true");
    let rules: Vec<VariantCase> = repeater_rules()
        .into_iter()
        .filter(|c| !matches!(&c.apply, Variant::Single(m) if m.model == "minecraft:block/repeater_2tick_on" && m.y == 180))
        .collect();
    assert_eq!(rules.len(), 63);
    assert_eq!(state.active_variant(rules), Err(VariantError::NoMatchingVariant));
}

#[test]
fn an_ambiguous_table_is_reported() {
    let state = BlockState::new("repeater", "delay=2,facing=north,locked=false,powered=true");
    let mut rules = repeater_rules();
    rules.push(VariantCase {
        when: Some(WhenClause::Single(condition(&[("facing", "north")]))),
        apply: model("minecraft:block/other", 0),
    });
    assert_eq!(
        state.active_variant(rules),
        Err(VariantError::MultipleMatchingVariants)
    );
}

#[test]
fn a_case_without_clause_always_applies() {
    let state = BlockState::new("sandstone", "");
    let rules = vec![VariantCase {
        when: None,
        apply: model("minecraft:block/sandstone", 0),
    }];
    assert_eq!(
        state.active_variant(rules),
        Ok(model("minecraft:block/sandstone", 0))
    );
    assert_eq!(
        state.active_variant(Vec::new()),
        Err(VariantError::NoMatchingVariant)
    );
}

#[test]
fn conditions_match_alternatives_and_need_every_property() {
    let state = BlockState::new("redstone_wire", "east=side,north=none,power=3");
    assert!(condition(&[("east", "side|up")]).applies(&state));
    assert!(!condition(&[("east", "up")]).applies(&state));
    assert!(condition(&[("east", "side"), ("power", "3")]).applies(&state));
    assert!(!condition(&[("east", "side"), ("west", "none")]).applies(&state));
    let either = WhenClause::Or(vec![condition(&[("north", "up")]), condition(&[("power", "3")])]);
    assert!(either.applies(&state));
    let neither = WhenClause::Or(vec![condition(&[("north", "up")]), condition(&[("power", "4")])]);
    assert!(!neither.applies(&state));
}

#[test]
fn multipart_cases_with_boolean_conditions() {
    let state = BlockState::new("redstone_torch", "lit=true");
    let lit = VariantCase {
        when: Some(WhenClause::Single(Condition {
            and: vec![("lit".to_string(), StateValue::Bool(true))],
        })),
        apply: model("minecraft:block/redstone_torch", 0),
    };
    let unlit = VariantCase {
        when: Some(WhenClause::Single(Condition {
            and: vec![("lit".to_string(), StateValue::Bool(false))],
        })),
        apply: model("minecraft:block/redstone_torch_off", 0),
    };
    assert!(lit.applies(&state));
    assert!(!unlit.applies(&state));
    assert_eq!(
        state.active_variant(vec![unlit, lit]),
        Ok(model("minecraft:block/redstone_torch", 0))
    );
}
