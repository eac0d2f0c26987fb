use lawn_core::input::{Action, Binding, ControlMap};
use lawn_core::labels::{action_label, settings_binding_label};

fn axis(name: &str, direction: i8) -> Binding {
    Binding::GamepadAxis {
        axis: name.to_string(),
        direction,
    }
}

#[test]
fn settings_labels_name_keys_plainly() {
    assert_eq!(settings_binding_label(&Binding::Key("ShiftRight".into())), "Shift");
    assert_eq!(settings_binding_label(&Binding::Key("SuperLeft".into())), "Command");
    assert_eq!(settings_binding_label(&Binding::Key("ArrowLeft".into())), "Left arrow");
    assert_eq!(settings_binding_label(&Binding::Key("Escape".into())), "Esc");
    assert_eq!(settings_binding_label(&Binding::Key("KeyW".into())), "W");
    assert_eq!(settings_binding_label(&Binding::Key("Digit7".into())), "7");
    assert_eq!(settings_binding_label(&Binding::Key("Space".into())), "Space");
}

#[test]
fn settings_labels_name_mouse_and_gamepad_inputs() {
    assert_eq!(settings_binding_label(&Binding::MouseButton(2)), "Mouse 2");
    assert_eq!(settings_binding_label(&Binding::MouseButton(0)), "Mouse 0");
    assert_eq!(settings_binding_label(&Binding::MouseButton(255)), "Mouse 255");
    assert_eq!(
        settings_binding_label(&Binding::GamepadButton("South".into())),
        "A / Cross"
    );
    assert_eq!(
        settings_binding_label(&Binding::GamepadButton("Select".into())),
        "View / Share"
    );
    assert_eq!(
        settings_binding_label(&Binding::GamepadButton("Mode".into())),
        "Mode"
    );
    assert_eq!(settings_binding_label(&axis("LeftStickX", -1)), "Left stick left");
    assert_eq!(settings_binding_label(&axis("RightStickY", 1)), "Right stick up");
    assert_eq!(settings_binding_label(&axis("ButtonRightTrigger2", 1)), "RT / R2");
    assert_eq!(settings_binding_label(&axis("DPadX", -1)), "DPadX −");
    assert_eq!(settings_binding_label(&axis("DPadX", 0)), "DPadX +");
}

#[test]
fn hints_use_the_first_binding_of_the_device_in_use() {
    let controls = ControlMap::default();
    assert_eq!(action_label(&controls, Action::Pause, false), "Esc");
    assert_eq!(action_label(&controls, Action::Pause, true), "Menu");
    assert_eq!(action_label(&controls, Action::SteerLeft, false), "A");
    assert_eq!(action_label(&controls, Action::SteerLeft, true), "LS X −");
    assert_eq!(action_label(&controls, Action::Accelerate, true), "RT / R2 +");
    assert_eq!(action_label(&controls, Action::Boost, false), "Space");
    assert_eq!(action_label(&controls, Action::Boost, true), "A / ×");
    assert_eq!(action_label(&controls, Action::RecenterCamera, true), "RightThumb");
}

#[test]
fn hints_fall_back_to_a_dash() {
    let mut controls = ControlMap::default();
    assert_eq!(action_label(&controls, Action::Confirm, false), "—");
    controls.insert(Action::Boost, vec![Binding::MouseButton(3)]);
    assert_eq!(action_label(&controls, Action::Boost, false), "Mouse 3");
    assert_eq!(action_label(&controls, Action::Boost, true), "—");
    controls.insert(Action::Boost, Vec::new());
    assert_eq!(action_label(&controls, Action::Boost, false), "—");
}
