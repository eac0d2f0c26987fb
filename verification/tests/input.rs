use lawn_core::input::{matches_binding, Action, Binding, ControlMap, ACTION_COUNT};

fn key(name: &str) -> Binding {
    Binding::Key(name.to_string())
}

#[test]
fn default_controls_cover_every_shipping_action() {
    let controls = ControlMap::default();
    let steer_left = controls.get(Action::SteerLeft).unwrap();
    assert_eq!(steer_left.len(), 3);
    assert!(matches!(&steer_left[0], Binding::Key(k) if k == "KeyA"));
    assert!(matches!(&steer_left[2], Binding::GamepadAxis { axis, direction: -1 } if axis == "LeftStickX"));
    assert_eq!(controls.get(Action::Accelerate).unwrap().len(), 5);
    assert!(controls.get(Action::ToggleMower).is_none());
    assert!(controls.get(Action::Confirm).is_none());
    assert!(controls.get(Action::Cancel).is_none());
    let configured = (0..ACTION_COUNT)
        .filter(|index| controls.contains_key(Action::from_index(*index)))
        .count();
    assert_eq!(configured, 13);
}

#[test]
fn bindings_match_only_their_own_action() {
    let controls = ControlMap::default();
    assert!(matches_binding(&controls, Action::Pause, &key("Escape")));
    assert!(matches_binding(
        &controls,
        Action::Pause,
        &Binding::GamepadButton("Start".into())
    ));
    assert!(!matches_binding(&controls, Action::Boost, &key("Escape")));
    assert!(!matches_binding(&controls, Action::Confirm, &key("Enter")));
    assert!(!matches_binding(
        &controls,
        Action::SteerLeft,
        &Binding::GamepadAxis {
            axis: "LeftStickX".into(),
            direction: 1
        }
    ));
}

#[test]
fn migration_adds_missing_actions_without_replacing_explicit_bindings() {
    let mut controls = ControlMap::empty();
    controls.insert(Action::Boost, Vec::new());
    controls.insert(Action::ToggleMower, vec![key("KeyF")]);
    controls.migrate();
    assert!(controls.get(Action::Boost).unwrap().is_empty());
    let defaults = ControlMap::default();
    assert_eq!(
        controls.get(Action::Accelerate).unwrap().len(),
        defaults.get(Action::Accelerate).unwrap().len()
    );
    assert!(matches_binding(&controls, Action::CameraUp, &key("KeyI")));
    assert!(!controls.contains_key(Action::ToggleMower));
    assert!(!controls.contains_key(Action::Confirm));
}

#[test]
fn insert_and_remove_replace_whole_lists() {
    let mut controls = ControlMap::default();
    let previous = controls.insert(Action::Recover, vec![key("KeyX")]).unwrap();
    assert_eq!(previous.len(), 2);
    assert!(matches_binding(&controls, Action::Recover, &key("KeyX")));
    assert!(!matches_binding(&controls, Action::Recover, &key("KeyR")));
    assert_eq!(controls.remove(Action::Recover).unwrap().len(), 1);
    assert!(controls.remove(Action::Recover).is_none());
    assert!(key("KeyA").same_as(&key("KeyA")));
    assert!(!key("KeyA").same_as(&Binding::GamepadButton("KeyA".into())));
    for index in 0..ACTION_COUNT {
        assert_eq!(Action::from_index(index).index(), index);
    }
}

#[test]
fn cloned_controls_keep_every_list() {
    let mut controls = ControlMap::default();
    controls.insert(Action::Boost, Vec::new());
    controls.remove(Action::Pause);
    let copy = controls.clone();
    for index in 0..ACTION_COUNT {
        let action = Action::from_index(index);
        assert_eq!(copy.get(action).map(Vec::len), controls.get(action).map(Vec::len));
    }
    assert!(copy.get(Action::Boost).unwrap().is_empty());
    assert!(!copy.contains_key(Action::Pause));
    assert!(matches!(&copy.get(Action::SteerLeft).unwrap()[0], Binding::Key(k) if k == "KeyA"));
}

#[test]
fn left_stick_supplies_both_movement_axes() {
    let controls = ControlMap::default();
    let stick = |direction| Binding::GamepadAxis {
        axis: "LeftStickY".into(),
        direction,
    };
    // Pushing the left stick down brakes and reverses; up drives forward.
    assert!(matches_binding(&controls, Action::BrakeReverse, &stick(-1)));
    assert!(matches_binding(&controls, Action::Accelerate, &stick(1)));
    assert!(!matches_binding(&controls, Action::Accelerate, &stick(-1)));
    assert!(!matches_binding(&controls, Action::BrakeReverse, &stick(1)));
    // The horizontal axis steers.
    assert!(matches_binding(
        &controls,
        Action::SteerRight,
        &Binding::GamepadAxis { axis: "LeftStickX".into(), direction: 1 }
    ));
}
