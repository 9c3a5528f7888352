use fractal_tree::config::{Config, ConfigError};
use fractal_tree::driver::MainState;
use yaml_rust::YamlLoader;

#[test]
fn fields_in_range_are_accepted() {
    assert_eq!(
        Config::from_fields(Some(5), Some(2)),
        Ok(Config { iterations: 5, branches_per_iteration: 2 })
    );
    assert_eq!(
        Config::from_fields(Some(0), Some(9)),
        Ok(Config { iterations: 0, branches_per_iteration: 9 })
    );
}

#[test]
fn missing_fields_are_malformed() {
    assert_eq!(Config::from_fields(None, Some(3)), Err(ConfigError::ConfigMalformed));
    assert_eq!(Config::from_fields(Some(3), None), Err(ConfigError::ConfigMalformed));
    assert_eq!(Config::from_fields(None, None), Err(ConfigError::ConfigMalformed));
}

#[test]
fn negative_iterations_are_malformed() {
    assert_eq!(Config::from_fields(Some(-1), Some(3)), Err(ConfigError::ConfigMalformed));
    assert_eq!(Config::from_fields(Some(-1), Some(1)), Err(ConfigError::ConfigMalformed));
}

#[test]
fn fewer_than_two_branches_are_degenerate() {
    assert_eq!(Config::from_fields(Some(3), Some(1)), Err(ConfigError::DegenerateParameters));
    assert_eq!(Config::from_fields(Some(3), Some(0)), Err(ConfigError::DegenerateParameters));
    assert_eq!(Config::from_fields(Some(3), Some(-4)), Err(ConfigError::DegenerateParameters));
}

#[test]
fn yaml_hash_is_read_by_key() {
    let docs = YamlLoader::load_from_str(
        "start_angle: 0.4\niterations: 6\nbranches_per_iteration: 3\nline_thickness: 1.5\n",
    )
    .unwrap();
    assert_eq!(
        Config::from_yaml(&docs[0]),
        Ok(Config { iterations: 6, branches_per_iteration: 3 })
    );
}

#[test]
fn yaml_with_a_missing_or_mistyped_field_is_malformed() {
    let docs = YamlLoader::load_from_str("iterations: 6\n").unwrap();
    assert_eq!(Config::from_yaml(&docs[0]), Err(ConfigError::ConfigMalformed));
    let docs = YamlLoader::load_from_str("iterations: 6\nbranches_per_iteration: 2.5\n").unwrap();
    assert_eq!(Config::from_yaml(&docs[0]), Err(ConfigError::ConfigMalformed));
    let docs = YamlLoader::load_from_str("iterations: many\nbranches_per_iteration: 2\n").unwrap();
    assert_eq!(Config::from_yaml(&docs[0]), Err(ConfigError::ConfigMalformed));
    let docs = YamlLoader::load_from_str("- 6\n- 2\n").unwrap();
    assert_eq!(Config::from_yaml(&docs[0]), Err(ConfigError::ConfigMalformed));
}

#[test]
fn yaml_with_one_branch_is_degenerate() {
    let docs = YamlLoader::load_from_str("iterations: 6\nbranches_per_iteration: 1\n").unwrap();
    assert_eq!(Config::from_yaml(&docs[0]), Err(ConfigError::DegenerateParameters));
}

#[test]
fn state_starts_with_its_tree_grown() {
    let state = MainState::new(Config { iterations: 2, branches_per_iteration: 3 }).ok().unwrap();
    assert_eq!(state.config(), Config { iterations: 2, branches_per_iteration: 3 });
    assert_eq!(state.draw().len(), 13);
}

#[test]
fn state_turns_down_degenerate_settings() {
    let r = MainState::new(Config { iterations: 2, branches_per_iteration: 1 });
    assert!(matches!(r, Err(ConfigError::DegenerateParameters)));
}

#[test]
fn reload_takes_effect_at_the_next_update() {
    let mut state = MainState::new(Config { iterations: 2, branches_per_iteration: 3 }).ok().unwrap();
    let before = state.draw();
    assert_eq!(
        state.reload_config(Config { iterations: 3, branches_per_iteration: 2 }),
        Ok(())
    );
    assert_eq!(state.config(), Config { iterations: 3, branches_per_iteration: 2 });
    let in_flight = state.draw();
    assert_eq!(in_flight.len(), before.len());
    for (a, b) in in_flight.iter().zip(before.iter()) {
        assert_eq!((a.parent, a.generation, a.slot), (b.parent, b.generation, b.slot));
    }
    state.update();
    assert_eq!(state.draw().len(), 15);
}

#[test]
fn failed_reload_changes_nothing() {
    let mut state = MainState::new(Config { iterations: 2, branches_per_iteration: 3 }).ok().unwrap();
    let before = state.draw();
    assert_eq!(
        state.reload_config(Config { iterations: 5, branches_per_iteration: 0 }),
        Err(ConfigError::DegenerateParameters)
    );
    assert_eq!(state.config(), Config { iterations: 2, branches_per_iteration: 3 });
    state.gen_tree();
    assert_eq!(state.draw(), before);
}

#[test]
fn bare_root_is_drawn_at_a_third() {
    let state = MainState::new(Config { iterations: 0, branches_per_iteration: 2 }).ok().unwrap();
    let strokes = state.draw();
    assert_eq!(strokes.len(), 1);
    assert_eq!(strokes[0].shade.numerator * 3, strokes[0].shade.denominator);
}
