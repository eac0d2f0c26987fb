//! Human-readable names of input bindings, for the settings screen and for
//! on-screen key hints.

use vstd::prelude::*;
use crate::input::{binding_views, Action, Binding, BindingView, ControlMap};
use crate::text::{decimal_text, push_decimal, str_eq, strip_prefix, without_prefix};

verus! {

/// A key name without its `Key` or `Digit` prefix, if it has one.
pub open spec fn bare_key_name(key: Seq<char>) -> Seq<char> {
    match without_prefix(key, "Key"@) {
        Some(rest) => rest,
        None => match without_prefix(key, "Digit"@) {
            Some(rest) => rest,
            None => key,
        },
    }
}

/// Settings-screen name of a keyboard key.
pub open spec fn settings_key_label(key: Seq<char>) -> Seq<char> {
    if key == "ShiftLeft"@ || key == "ShiftRight"@ {
        "Shift"@
    } else if key == "ControlLeft"@ || key == "ControlRight"@ {
        "Ctrl"@
    } else if key == "AltLeft"@ || key == "AltRight"@ {
        "Alt"@
    } else if key == "SuperLeft"@ || key == "SuperRight"@ {
        "Command"@
    } else if key == "ArrowLeft"@ {
        "Left arrow"@
    } else if key == "ArrowRight"@ {
        "Right arrow"@
    } else if key == "ArrowUp"@ {
        "Up arrow"@
    } else if key == "ArrowDown"@ {
        "Down arrow"@
    } else if key == "Escape"@ {
        "Esc"@
    } else {
        bare_key_name(key)
    }
}

/// Settings-screen name of a gamepad button.
pub open spec fn settings_button_label(button: Seq<char>) -> Seq<char> {
    if button == "South"@ {
        "A / Cross"@
    } else if button == "East"@ {
        "B / Circle"@
    } else if button == "West"@ {
        "X / Square"@
    } else if button == "North"@ {
        "Y / Triangle"@
    } else if button == "LeftTrigger"@ {
        "LB / L1"@
    } else if button == "RightTrigger"@ {
        "RB / R1"@
    } else if button == "LeftTrigger2"@ {
        "LT / L2"@
    } else if button == "RightTrigger2"@ {
        "RT / R2"@
    } else if button == "LeftThumb"@ {
        "Left stick press"@
    } else if button == "RightThumb"@ {
        "Right stick press"@
    } else if button == "DPadLeft"@ {
        "D-pad left"@
    } else if button == "DPadRight"@ {
        "D-pad right"@
    } else if button == "DPadUp"@ {
        "D-pad up"@
    } else if button == "DPadDown"@ {
        "D-pad down"@
    } else if button == "Start"@ {
        "Menu"@
    } else if button == "Select"@ {
        "View / Share"@
    } else {
        button
    }
}

/// Settings-screen name of one direction of a gamepad axis.
pub open spec fn settings_axis_label(axis: Seq<char>, direction: i8) -> Seq<char> {
    let positive = direction >= 0;
    if axis == "LeftStickX"@ {
        "Left stick "@ + if positive {
            "right"@
        } else {
            "left"@
        }
    } else if axis == "LeftStickY"@ {
        "Left stick "@ + if positive {
            "up"@
        } else {
            "down"@
        }
    } else if axis == "RightStickX"@ {
        "Right stick "@ + if positive {
            "right"@
        } else {
            "left"@
        }
    } else if axis == "RightStickY"@ {
        "Right stick "@ + if positive {
            "up"@
        } else {
            "down"@
        }
    } else if axis == "LeftZ"@ || axis == "ButtonLeftTrigger2"@ {
        "LT / L2"@
    } else if axis == "RightZ"@ || axis == "ButtonRightTrigger2"@ {
        "RT / R2"@
    } else {
        axis + if positive {
            " +"@
        } else {
            " −"@
        }
    }
}

/// Settings-screen name of a binding.
pub open spec fn settings_label(binding: BindingView) -> Seq<char> {
    match binding {
        BindingView::Key(key) => settings_key_label(key),
        BindingView::MouseButton(button) => "Mouse "@ + decimal_text(button),
        BindingView::GamepadButton(button) => settings_button_label(button),
        BindingView::GamepadAxis(axis, direction) => settings_axis_label(axis, direction),
    }
}

fn stripped_key_name(key: &str) -> (name: String)
    ensures
        name@ == bare_key_name(key@),
{
    match strip_prefix(key, "Key") {
        Some(rest) => rest.to_owned(),
        None => match strip_prefix(key, "Digit") {
            Some(rest) => rest.to_owned(),
            None => key.to_owned(),
        },
    }
}

fn settings_key_text(key: &str) -> (label: String)
    ensures
        label@ == settings_key_label(key@),
{
    if str_eq(key, "ShiftLeft") || str_eq(key, "ShiftRight") {
        String::from_str("Shift")
    } else if str_eq(key, "ControlLeft") || str_eq(key, "ControlRight") {
        String::from_str("Ctrl")
    } else if str_eq(key, "AltLeft") || str_eq(key, "AltRight") {
        String::from_str("Alt")
    } else if str_eq(key, "SuperLeft") || str_eq(key, "SuperRight") {
        String::from_str("Command")
    } else if str_eq(key, "ArrowLeft") {
        String::from_str("Left arrow")
    } else if str_eq(key, "ArrowRight") {
        String::from_str("Right arrow")
    } else if str_eq(key, "ArrowUp") {
        String::from_str("Up arrow")
    } else if str_eq(key, "ArrowDown") {
        String::from_str("Down arrow")
    } else if str_eq(key, "Escape") {
        String::from_str("Esc")
    } else {
        stripped_key_name(key)
    }
}

fn settings_button_text(button: &str) -> (label: String)
    ensures
        label@ == settings_button_label(button@),
{
    if str_eq(button, "South") {
        String::from_str("A / Cross")
    } else if str_eq(button, "East") {
        String::from_str("B / Circle")
    } else if str_eq(button, "West") {
        String::from_str("X / Square")
    } else if str_eq(button, "North") {
        String::from_str("Y / Triangle")
    } else if str_eq(button, "LeftTrigger") {
        String::from_str("LB / L1")
    } else if str_eq(button, "RightTrigger") {
        String::from_str("RB / R1")
    } else if str_eq(button, "LeftTrigger2") {
        String::from_str("LT / L2")
    } else if str_eq(button, "RightTrigger2") {
        String::from_str("RT / R2")
    } else if str_eq(button, "LeftThumb") {
        String::from_str("Left stick press")
    } else if str_eq(button, "RightThumb") {
        String::from_str("Right stick press")
    } else if str_eq(button, "DPadLeft") {
        String::from_str("D-pad left")
    } else if str_eq(button, "DPadRight") {
        String::from_str("D-pad right")
    } else if str_eq(button, "DPadUp") {
        String::from_str("D-pad up")
    } else if str_eq(button, "DPadDown") {
        String::from_str("D-pad down")
    } else if str_eq(button, "Start") {
        String::from_str("Menu")
    } else if str_eq(button, "Select") {
        String::from_str("View / Share")
    } else {
        button.to_owned()
    }
}

fn settings_axis_text(axis: &str, direction: i8) -> (label: String)
    ensures
        label@ == settings_axis_label(axis@, direction),
{
    let positive = direction >= 0;
    if str_eq(axis, "LeftStickX") {
        String::from_str("Left stick ").concat(if positive { "right" } else { "left" })
    } else if str_eq(axis, "LeftStickY") {
        String::from_str("Left stick ").concat(if positive { "up" } else { "down" })
    } else if str_eq(axis, "RightStickX") {
        String::from_str("Right stick ").concat(if positive { "right" } else { "left" })
    } else if str_eq(axis, "RightStickY") {
        String::from_str("Right stick ").concat(if positive { "up" } else { "down" })
    } else if str_eq(axis, "LeftZ") || str_eq(axis, "ButtonLeftTrigger2") {
        String::from_str("LT / L2")
    } else if str_eq(axis, "RightZ") || str_eq(axis, "ButtonRightTrigger2") {
        String::from_str("RT / R2")
    } else {
        axis.to_owned().concat(if positive { " +" } else { " −" })
    }
}

/// The name of a binding on the settings screen, such as `Left arrow`,
/// `Mouse 2`, `A / Cross`, or `Left stick up`.
pub fn settings_binding_label(binding: &Binding) -> (label: String)
    ensures
        label@ == settings_label(binding@),
{
    match binding {
        Binding::Key(key) => settings_key_text(key.as_str()),
        Binding::MouseButton(button) => {
            let mut label = String::from_str("Mouse ");
            push_decimal(&mut label, *button);
            label
        },
        Binding::GamepadButton(button) => settings_button_text(button.as_str()),
        Binding::GamepadAxis { axis, direction } => settings_axis_text(axis.as_str(), *direction),
    }
}

/// Key-hint name of a keyboard key.
pub open spec fn hint_key_label(key: Seq<char>) -> Seq<char> {
    if key == "ShiftLeft"@ || key == "ShiftRight"@ {
        "Shift"@
    } else if key == "ControlLeft"@ || key == "ControlRight"@ {
        "Ctrl"@
    } else if key == "AltLeft"@ || key == "AltRight"@ {
        "Alt"@
    } else if key == "SuperLeft"@ || key == "SuperRight"@ {
        "Cmd"@
    } else if key == "ArrowLeft"@ {
        "←"@
    } else if key == "ArrowRight"@ {
        "→"@
    } else if key == "ArrowUp"@ {
        "↑"@
    } else if key == "ArrowDown"@ {
        "↓"@
    } else if key == "Escape"@ {
        "Esc"@
    } else if key == "Space"@ {
        "Space"@
    } else {
        bare_key_name(key)
    }
}

/// Key-hint name of a gamepad button.
pub open spec fn hint_button_label(button: Seq<char>) -> Seq<char> {
    if button == "South"@ {
        "A / ×"@
    } else if button == "East"@ {
        "B / ○"@
    } else if button == "West"@ {
        "X / □"@
    } else if button == "North"@ {
        "Y / △"@
    } else if button == "LeftTrigger"@ {
        "LB / L1"@
    } else if button == "RightTrigger"@ {
        "RB / R1"@
    } else if button == "LeftTrigger2"@ {
        "LT / L2"@
    } else if button == "RightTrigger2"@ {
        "RT / R2"@
    } else if button == "Start"@ {
        "Menu"@
    } else {
        button
    }
}

/// Key-hint name of a gamepad axis.
pub open spec fn hint_axis_name(axis: Seq<char>) -> Seq<char> {
    if axis == "LeftStickX"@ {
        "LS X"@
    } else if axis == "LeftStickY"@ {
        "LS Y"@
    } else if axis == "RightStickX"@ {
        "RS X"@
    } else if axis == "RightStickY"@ {
        "RS Y"@
    } else if axis == "LeftZ"@ {
        "LT / L2"@
    } else if axis == "RightZ"@ {
        "RT / R2"@
    } else {
        axis
    }
}

/// Key-hint name of a binding for the device in use, or `None` when the
/// binding belongs to the other kind of device.
pub open spec fn hint_label(binding: BindingView, gamepad: bool) -> Option<Seq<char>> {
    match binding {
        BindingView::Key(key) => if !gamepad {
            Some(hint_key_label(key))
        } else {
            None
        },
        BindingView::GamepadButton(button) => if gamepad {
            Some(hint_button_label(button))
        } else {
            None
        },
        BindingView::MouseButton(button) => if !gamepad {
            Some("Mouse "@ + decimal_text(button))
        } else {
            None
        },
        BindingView::GamepadAxis(axis, direction) => if gamepad {
            Some(
                hint_axis_name(axis) + " "@ + if direction >= 0 {
                    "+"@
                } else {
                    "−"@
                },
            )
        } else {
            None
        },
    }
}

/// The hint of the first binding in `bindings` that suits the device.
pub open spec fn first_hint(bindings: Seq<BindingView>, gamepad: bool) -> Option<Seq<char>>
    decreases bindings.len(),
{
    if bindings.len() == 0 {
        None
    } else {
        match hint_label(bindings[0], gamepad) {
            Some(label) => Some(label),
            None => first_hint(bindings.drop_first(), gamepad),
        }
    }
}

/// The on-screen hint for an action: its first binding for the device in
/// use, or `—` when it has none.
pub open spec fn action_hint(controls: Map<Action, Seq<BindingView>>, action: Action, gamepad: bool) -> Seq<char> {
    if controls.contains_key(action) {
        match first_hint(controls[action], gamepad) {
            Some(label) => label,
            None => "—"@,
        }
    } else {
        "—"@
    }
}

fn hint_key_text(key: &str) -> (label: String)
    ensures
        label@ == hint_key_label(key@),
{
    if str_eq(key, "ShiftLeft") || str_eq(key, "ShiftRight") {
        String::from_str("Shift")
    } else if str_eq(key, "ControlLeft") || str_eq(key, "ControlRight") {
        String::from_str("Ctrl")
    } else if str_eq(key, "AltLeft") || str_eq(key, "AltRight") {
        String::from_str("Alt")
    } else if str_eq(key, "SuperLeft") || str_eq(key, "SuperRight") {
        String::from_str("Cmd")
    } else if str_eq(key, "ArrowLeft") {
        String::from_str("←")
    } else if str_eq(key, "ArrowRight") {
        String::from_str("→")
    } else if str_eq(key, "ArrowUp") {
        String::from_str("↑")
    } else if str_eq(key, "ArrowDown") {
        String::from_str("↓")
    } else if str_eq(key, "Escape") {
        String::from_str("Esc")
    } else if str_eq(key, "Space") {
        String::from_str("Space")
    } else {
        stripped_key_name(key)
    }
}

fn hint_button_text(button: &str) -> (label: String)
    ensures
        label@ == hint_button_label(button@),
{
    if str_eq(button, "South") {
        String::from_str("A / ×")
    } else if str_eq(button, "East") {
        String::from_str("B / ○")
    } else if str_eq(button, "West") {
        String::from_str("X / □")
    } else if str_eq(button, "North") {
        String::from_str("Y / △")
    } else if str_eq(button, "LeftTrigger") {
        String::from_str("LB / L1")
    } else if str_eq(button, "RightTrigger") {
        String::from_str("RB / R1")
    } else if str_eq(button, "LeftTrigger2") {
        String::from_str("LT / L2")
    } else if str_eq(button, "RightTrigger2") {
        String::from_str("RT / R2")
    } else if str_eq(button, "Start") {
        String::from_str("Menu")
    } else {
        button.to_owned()
    }
}

fn hint_axis_text(axis: &str) -> (name: String)
    ensures
        name@ == hint_axis_name(axis@),
{
    if str_eq(axis, "LeftStickX") {
        String::from_str("LS X")
    } else if str_eq(axis, "LeftStickY") {
        String::from_str("LS Y")
    } else if str_eq(axis, "RightStickX") {
        String::from_str("RS X")
    } else if str_eq(axis, "RightStickY") {
        String::from_str("RS Y")
    } else if str_eq(axis, "LeftZ") {
        String::from_str("LT / L2")
    } else if str_eq(axis, "RightZ") {
        String::from_str("RT / R2")
    } else {
        axis.to_owned()
    }
}

fn binding_hint(binding: &Binding, gamepad: bool) -> (label: Option<String>)
    ensures
        match label {
            Some(text) => hint_label(binding@, gamepad) == Some(text@),
            None => hint_label(binding@, gamepad) is None,
        },
{
    match binding {
        Binding::Key(key) => if !gamepad {
            Some(hint_key_text(key.as_str()))
        } else {
            None
        },
        Binding::GamepadButton(button) => if gamepad {
            Some(hint_button_text(button.as_str()))
        } else {
            None
        },
        Binding::MouseButton(button) => if !gamepad {
            let mut label = String::from_str("Mouse ");
            push_decimal(&mut label, *button);
            Some(label)
        } else {
            None
        },
        Binding::GamepadAxis { axis, direction } => if gamepad {
            Some(
                hint_axis_text(axis.as_str()).concat(" ").concat(
                    if *direction >= 0 {
                        "+"
                    } else {
                        "−"
                    },
                ),
            )
        } else {
            None
        },
    }
}

proof fn lemma_first_hint_skips(bindings: Seq<BindingView>, gamepad: bool, i: int)
    requires
        0 <= i < bindings.len(),
        hint_label(bindings[i], gamepad) is None,
    ensures
        first_hint(bindings.skip(i), gamepad) == first_hint(bindings.skip(i + 1), gamepad),
{
    assert(bindings.skip(i)[0] == bindings[i]);
    assert(bindings.skip(i).drop_first() == bindings.skip(i + 1));
}

/// The on-screen hint for `action` on the device in use; see [`action_hint`].
pub fn action_label(controls: &ControlMap, action: Action, gamepad: bool) -> (label: String)
    ensures
        label@ == action_hint(controls.bindings_view(), action, gamepad),
{
    match controls.get(action) {
        None => String::from_str("—"),
        Some(list) => {
            let ghost views = binding_views(list@);
            let mut i: usize = 0;
            assert(views.skip(0) == views);
            while i < list.len()
                invariant
                    i <= list@.len(),
                    views == binding_views(list@),
                    controls.bindings_view().contains_key(action),
                    views == controls.bindings_view()[action],
                    first_hint(views.skip(i as int), gamepad) == first_hint(views, gamepad),
                decreases list@.len() - i,
            {
                match binding_hint(&list[i], gamepad) {
                    Some(text) => {
                        assert(views.skip(i as int)[0] == list@[i as int]@);
                        assert(views.skip(i as int).len() > 0);
                        return text;
                    },
                    None => {
                        proof {
                            lemma_first_hint_skips(views, gamepad, i as int);
                        }
                    },
                }
                i = i + 1;
            }
            assert(views.skip(i as int).len() == 0);
            String::from_str("—")
        },
    }
}

} // verus!
