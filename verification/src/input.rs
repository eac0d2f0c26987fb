//! Platform-independent action mappings.

use vstd::prelude::*;

verus! {

/// Something the player can do, independent of the device that does it.
#[derive(Clone, Copy, Debug, PartialEq, Eq, PartialOrd, Ord, Hash, Structural)]
pub enum Action {
    SteerLeft,
    SteerRight,
    Accelerate,
    BrakeReverse,
    Boost,
    /// Retained only so that profiles from the toggle-mower build still load.
    /// The shipping vehicle mows continuously.
    ToggleMower,
    LookBehind,
    Recover,
    CameraLeft,
    CameraRight,
    CameraUp,
    CameraDown,
    RecenterCamera,
    Pause,
    Confirm,
    Cancel,
}

/// Number of actions.
pub const ACTION_COUNT: usize = 16;

/// Position of an action in declaration (and sort) order.
pub open spec fn action_number(action: Action) -> nat {
    match action {
        Action::SteerLeft => 0,
        Action::SteerRight => 1,
        Action::Accelerate => 2,
        Action::BrakeReverse => 3,
        Action::Boost => 4,
        Action::ToggleMower => 5,
        Action::LookBehind => 6,
        Action::Recover => 7,
        Action::CameraLeft => 8,
        Action::CameraRight => 9,
        Action::CameraUp => 10,
        Action::CameraDown => 11,
        Action::RecenterCamera => 12,
        Action::Pause => 13,
        Action::Confirm => 14,
        Action::Cancel => 15,
    }
}

/// The action at position `n < 16` of declaration order.
pub open spec fn action_at(n: nat) -> Action {
    if n == 0 {
        Action::SteerLeft
    } else if n == 1 {
        Action::SteerRight
    } else if n == 2 {
        Action::Accelerate
    } else if n == 3 {
        Action::BrakeReverse
    } else if n == 4 {
        Action::Boost
    } else if n == 5 {
        Action::ToggleMower
    } else if n == 6 {
        Action::LookBehind
    } else if n == 7 {
        Action::Recover
    } else if n == 8 {
        Action::CameraLeft
    } else if n == 9 {
        Action::CameraRight
    } else if n == 10 {
        Action::CameraUp
    } else if n == 11 {
        Action::CameraDown
    } else if n == 12 {
        Action::RecenterCamera
    } else if n == 13 {
        Action::Pause
    } else if n == 14 {
        Action::Confirm
    } else {
        Action::Cancel
    }
}

/// Every action has one position, and every position one action.
pub proof fn law_action_numbering_is_a_bijection(action: Action, n: nat)
    ensures
        action_number(action) < ACTION_COUNT,
        action_at(action_number(action)) == action,
        n < ACTION_COUNT ==> action_number(action_at(n)) == n,
{
}

impl Action {
    /// Position of the action in declaration order.
    pub fn index(self) -> (index: usize)
        ensures
            index == action_number(self),
            index < ACTION_COUNT,
    {
        match self {
            Action::SteerLeft => 0,
            Action::SteerRight => 1,
            Action::Accelerate => 2,
            Action::BrakeReverse => 3,
            Action::Boost => 4,
            Action::ToggleMower => 5,
            Action::LookBehind => 6,
            Action::Recover => 7,
            Action::CameraLeft => 8,
            Action::CameraRight => 9,
            Action::CameraUp => 10,
            Action::CameraDown => 11,
            Action::RecenterCamera => 12,
            Action::Pause => 13,
            Action::Confirm => 14,
            Action::Cancel => 15,
        }
    }

    /// The action at a position of declaration order.
    pub fn from_index(index: usize) -> (action: Action)
        requires
            index < ACTION_COUNT,
        ensures
            action == action_at(index as nat),
            action_number(action) == index,
    {
        match index {
            0 => Action::SteerLeft,
            1 => Action::SteerRight,
            2 => Action::Accelerate,
            3 => Action::BrakeReverse,
            4 => Action::Boost,
            5 => Action::ToggleMower,
            6 => Action::LookBehind,
            7 => Action::Recover,
            8 => Action::CameraLeft,
            9 => Action::CameraRight,
            10 => Action::CameraUp,
            11 => Action::CameraDown,
            12 => Action::RecenterCamera,
            13 => Action::Pause,
            14 => Action::Confirm,
            _ => Action::Cancel,
        }
    }
}

/// A physical input bound to an action.
#[derive(Debug)]
pub enum Binding {
    Key(String),
    MouseButton(u8),
    GamepadButton(String),
    GamepadAxis { axis: String, direction: i8 },
}

/// A binding as a mathematical value.
pub enum BindingView {
    Key(Seq<char>),
    MouseButton(u8),
    GamepadButton(Seq<char>),
    GamepadAxis(Seq<char>, i8),
}

impl View for Binding {
    type V = BindingView;

    open spec fn view(&self) -> BindingView {
        match self {
            Binding::Key(key) => BindingView::Key(key@),
            Binding::MouseButton(button) => BindingView::MouseButton(*button),
            Binding::GamepadButton(button) => BindingView::GamepadButton(button@),
            Binding::GamepadAxis { axis, direction } => BindingView::GamepadAxis(axis@, *direction),
        }
    }
}

impl Clone for Binding {
    fn clone(&self) -> (copy: Self)
        ensures
            copy == *self,
    {
        match self {
            Binding::Key(key) => Binding::Key(key.clone()),
            Binding::MouseButton(button) => Binding::MouseButton(*button),
            Binding::GamepadButton(button) => Binding::GamepadButton(button.clone()),
            Binding::GamepadAxis { axis, direction } => Binding::GamepadAxis {
                axis: axis.clone(),
                direction: *direction,
            },
        }
    }
}

/// The views of a list of bindings.
pub open spec fn binding_views(bindings: Seq<Binding>) -> Seq<BindingView> {
    bindings.map_values(|binding: Binding| binding@)
}

impl Binding {
    /// Whether two bindings name the same input.
    pub fn same_as(&self, other: &Binding) -> (same: bool)
        ensures
            same == (self@ == other@),
    {
        match (self, other) {
            (Binding::Key(a), Binding::Key(b)) => a.eq(b),
            (Binding::MouseButton(a), Binding::MouseButton(b)) => *a == *b,
            (Binding::GamepadButton(a), Binding::GamepadButton(b)) => a.eq(b),
            (
                Binding::GamepadAxis { axis: a, direction: da },
                Binding::GamepadAxis { axis: b, direction: db },
            ) => a.eq(b) && *da == *db,
            _ => false,
        }
    }
}


fn key(name: &str) -> (binding: Binding)
    ensures
        binding@ == BindingView::Key(name@),
{
    Binding::Key(String::from_str(name))
}

fn button(name: &str) -> (binding: Binding)
    ensures
        binding@ == BindingView::GamepadButton(name@),
{
    Binding::GamepadButton(String::from_str(name))
}

fn axis(name: &str, direction: i8) -> (binding: Binding)
    ensures
        binding@ == BindingView::GamepadAxis(name@, direction),
{
    Binding::GamepadAxis { axis: String::from_str(name), direction }
}

/// The shipping control scheme: keyboard keys, gamepad buttons, and gamepad
/// axis directions for each action that has a default. The retired
/// `ToggleMower` and the menu actions `Confirm`/`Cancel` have none.
pub open spec fn default_bindings() -> Map<Action, Seq<BindingView>> {
    map![
        Action::SteerLeft => seq![
            BindingView::Key("KeyA"@),
            BindingView::Key("ArrowLeft"@),
            BindingView::GamepadAxis("LeftStickX"@, -1i8),
        ],
        Action::SteerRight => seq![
            BindingView::Key("KeyD"@),
            BindingView::Key("ArrowRight"@),
            BindingView::GamepadAxis("LeftStickX"@, 1i8),
        ],
        Action::Accelerate => seq![
            BindingView::Key("KeyW"@),
            BindingView::Key("ArrowUp"@),
            BindingView::GamepadAxis("RightZ"@, 1i8),
            BindingView::GamepadAxis("ButtonRightTrigger2"@, 1i8),
            BindingView::GamepadAxis("LeftStickY"@, 1i8),
        ],
        Action::BrakeReverse => seq![
            BindingView::Key("KeyS"@),
            BindingView::Key("ArrowDown"@),
            BindingView::GamepadAxis("LeftZ"@, 1i8),
            BindingView::GamepadAxis("ButtonLeftTrigger2"@, 1i8),
            BindingView::GamepadAxis("LeftStickY"@, -1i8),
        ],
        Action::Boost => seq![BindingView::Key("Space"@), BindingView::GamepadButton("South"@)],
        Action::LookBehind => seq![BindingView::Key("KeyQ"@), BindingView::GamepadButton("North"@)],
        Action::Recover => seq![BindingView::Key("KeyR"@), BindingView::GamepadButton("East"@)],
        Action::CameraLeft => seq![
            BindingView::Key("KeyJ"@),
            BindingView::GamepadAxis("RightStickX"@, -1i8),
        ],
        Action::CameraRight => seq![
            BindingView::Key("KeyL"@),
            BindingView::GamepadAxis("RightStickX"@, 1i8),
        ],
        Action::CameraUp => seq![
            BindingView::Key("KeyI"@),
            BindingView::GamepadAxis("RightStickY"@, 1i8),
        ],
        Action::CameraDown => seq![
            BindingView::Key("KeyK"@),
            BindingView::GamepadAxis("RightStickY"@, -1i8),
        ],
        Action::RecenterCamera => seq![
            BindingView::Key("KeyC"@),
            BindingView::GamepadButton("RightThumb"@),
        ],
        Action::Pause => seq![BindingView::Key("Escape"@), BindingView::GamepadButton("Start"@)],
    ]
}

/// The gamepad button that is a shipping default of `action`, if any: South
/// boosts, North looks behind, East recovers, the right-stick click
/// recenters the camera, and Start pauses.
pub open spec fn is_default_button_of(action: Action, button: BindingView) -> bool {
    ||| action == Action::Boost && button == BindingView::GamepadButton("South"@)
    ||| action == Action::LookBehind && button == BindingView::GamepadButton("North"@)
    ||| action == Action::Recover && button == BindingView::GamepadButton("East"@)
    ||| action == Action::RecenterCamera && button == BindingView::GamepadButton("RightThumb"@)
    ||| action == Action::Pause && button == BindingView::GamepadButton("Start"@)
}

/// The shipping controls follow the documented control table: WASD, the
/// arrow keys and the left stick move (the triggers also drive and brake);
/// Space and South boost; Q and North look behind; R and East recover;
/// I/J/K/L and the right stick turn the camera; C and the right-stick click
/// recenter it; Escape and Start pause. Every gamepad button default is one
/// of those five, and no button is the default of two actions. The retired
/// `ToggleMower` and the menu actions have no defaults.
pub proof fn law_default_controls_follow_the_control_table(action: Action, i: int, other: Action, j: int)
    ensures
        default_bindings()[Action::Accelerate].contains(BindingView::Key("KeyW"@)),
        default_bindings()[Action::Accelerate].contains(BindingView::Key("ArrowUp"@)),
        default_bindings()[Action::Accelerate].contains(BindingView::GamepadAxis("LeftStickY"@, 1i8)),
        default_bindings()[Action::Accelerate].contains(BindingView::GamepadAxis("RightZ"@, 1i8)),
        default_bindings()[Action::BrakeReverse].contains(BindingView::Key("KeyS"@)),
        default_bindings()[Action::BrakeReverse].contains(BindingView::Key("ArrowDown"@)),
        default_bindings()[Action::BrakeReverse].contains(BindingView::GamepadAxis("LeftStickY"@, -1i8)),
        default_bindings()[Action::BrakeReverse].contains(BindingView::GamepadAxis("LeftZ"@, 1i8)),
        default_bindings()[Action::SteerLeft].contains(BindingView::Key("KeyA"@)),
        default_bindings()[Action::SteerLeft].contains(BindingView::Key("ArrowLeft"@)),
        default_bindings()[Action::SteerLeft].contains(BindingView::GamepadAxis("LeftStickX"@, -1i8)),
        default_bindings()[Action::SteerRight].contains(BindingView::Key("KeyD"@)),
        default_bindings()[Action::SteerRight].contains(BindingView::Key("ArrowRight"@)),
        default_bindings()[Action::SteerRight].contains(BindingView::GamepadAxis("LeftStickX"@, 1i8)),
        default_bindings()[Action::Boost].contains(BindingView::Key("Space"@)),
        default_bindings()[Action::Boost].contains(BindingView::GamepadButton("South"@)),
        default_bindings()[Action::LookBehind].contains(BindingView::Key("KeyQ"@)),
        default_bindings()[Action::LookBehind].contains(BindingView::GamepadButton("North"@)),
        default_bindings()[Action::Recover].contains(BindingView::Key("KeyR"@)),
        default_bindings()[Action::Recover].contains(BindingView::GamepadButton("East"@)),
        default_bindings()[Action::CameraLeft].contains(BindingView::Key("KeyJ"@)),
        default_bindings()[Action::CameraRight].contains(BindingView::Key("KeyL"@)),
        default_bindings()[Action::CameraUp].contains(BindingView::Key("KeyI"@)),
        default_bindings()[Action::CameraDown].contains(BindingView::Key("KeyK"@)),
        default_bindings()[Action::RecenterCamera].contains(BindingView::Key("KeyC"@)),
        default_bindings()[Action::RecenterCamera].contains(BindingView::GamepadButton("RightThumb"@)),
        default_bindings()[Action::Pause].contains(BindingView::Key("Escape"@)),
        default_bindings()[Action::Pause].contains(BindingView::GamepadButton("Start"@)),
        !default_bindings().contains_key(Action::ToggleMower),
        !default_bindings().contains_key(Action::Confirm),
        !default_bindings().contains_key(Action::Cancel),
        default_bindings().contains_key(action) && 0 <= i < default_bindings()[action].len()
            && default_bindings()[action][i] is GamepadButton ==> is_default_button_of(action, default_bindings()[action][i]),
        default_bindings().contains_key(action) && 0 <= i < default_bindings()[action].len()
            && default_bindings().contains_key(other) && 0 <= j < default_bindings()[other].len()
            && default_bindings()[action][i] is GamepadButton && default_bindings()[action][i]
            == default_bindings()[other][j] ==> action == other,
{
    let d = default_bindings();
    assert(d[Action::Accelerate][0] == BindingView::Key("KeyW"@));
    assert(d[Action::Accelerate][1] == BindingView::Key("ArrowUp"@));
    assert(d[Action::Accelerate][2] == BindingView::GamepadAxis("RightZ"@, 1i8));
    assert(d[Action::Accelerate][4] == BindingView::GamepadAxis("LeftStickY"@, 1i8));
    assert(d[Action::BrakeReverse][0] == BindingView::Key("KeyS"@));
    assert(d[Action::BrakeReverse][1] == BindingView::Key("ArrowDown"@));
    assert(d[Action::BrakeReverse][2] == BindingView::GamepadAxis("LeftZ"@, 1i8));
    assert(d[Action::BrakeReverse][4] == BindingView::GamepadAxis("LeftStickY"@, -1i8));
    assert(d[Action::SteerLeft][0] == BindingView::Key("KeyA"@));
    assert(d[Action::SteerLeft][1] == BindingView::Key("ArrowLeft"@));
    assert(d[Action::SteerLeft][2] == BindingView::GamepadAxis("LeftStickX"@, -1i8));
    assert(d[Action::SteerRight][0] == BindingView::Key("KeyD"@));
    assert(d[Action::SteerRight][1] == BindingView::Key("ArrowRight"@));
    assert(d[Action::SteerRight][2] == BindingView::GamepadAxis("LeftStickX"@, 1i8));
    assert(d[Action::Boost][0] == BindingView::Key("Space"@));
    assert(d[Action::Boost][1] == BindingView::GamepadButton("South"@));
    assert(d[Action::LookBehind][0] == BindingView::Key("KeyQ"@));
    assert(d[Action::LookBehind][1] == BindingView::GamepadButton("North"@));
    assert(d[Action::Recover][0] == BindingView::Key("KeyR"@));
    assert(d[Action::Recover][1] == BindingView::GamepadButton("East"@));
    assert(d[Action::CameraLeft][0] == BindingView::Key("KeyJ"@));
    assert(d[Action::CameraRight][0] == BindingView::Key("KeyL"@));
    assert(d[Action::CameraUp][0] == BindingView::Key("KeyI"@));
    assert(d[Action::CameraDown][0] == BindingView::Key("KeyK"@));
    assert(d[Action::RecenterCamera][0] == BindingView::Key("KeyC"@));
    assert(d[Action::RecenterCamera][1] == BindingView::GamepadButton("RightThumb"@));
    assert(d[Action::Pause][0] == BindingView::Key("Escape"@));
    assert(d[Action::Pause][1] == BindingView::GamepadButton("Start"@));
    lemma_default_buttons(action, i);
    lemma_default_buttons(other, j);
    reveal_strlit("South");
    reveal_strlit("North");
    reveal_strlit("East");
    reveal_strlit("RightThumb");
    reveal_strlit("Start");
    assert("South"@[0] != "North"@[0]);
    assert("South"@.len() != "East"@.len());
    assert("South"@.len() != "RightThumb"@.len());
    assert("South"@[1] != "Start"@[1]);
    assert("North"@.len() != "East"@.len());
    assert("North"@.len() != "RightThumb"@.len());
    assert("North"@[0] != "Start"@[0]);
    assert("East"@.len() != "RightThumb"@.len());
    assert("East"@.len() != "Start"@.len());
    assert("RightThumb"@.len() != "Start"@.len());
}

proof fn lemma_default_buttons(action: Action, i: int)
    ensures
        default_bindings().contains_key(action) && 0 <= i < default_bindings()[action].len()
            && default_bindings()[action][i] is GamepadButton ==> is_default_button_of(action, default_bindings()[action][i]),
{
    let d = default_bindings();
    if d.contains_key(action) && 0 <= i < d[action].len() {
        match action {
            Action::SteerLeft => assert(0 <= i < 3),
            Action::SteerRight => assert(0 <= i < 3),
            Action::Accelerate => assert(0 <= i < 5),
            Action::BrakeReverse => assert(0 <= i < 5),
            Action::Boost => assert(0 <= i < 2),
            Action::LookBehind => assert(0 <= i < 2),
            Action::Recover => assert(0 <= i < 2),
            Action::CameraLeft => assert(0 <= i < 2),
            Action::CameraRight => assert(0 <= i < 2),
            Action::CameraUp => assert(0 <= i < 2),
            Action::CameraDown => assert(0 <= i < 2),
            Action::RecenterCamera => assert(0 <= i < 2),
            Action::Pause => assert(0 <= i < 2),
            _ => {},
        }
    }
}

/// The bindings of every action, with at most one list per action; an
/// action may be absent (never configured) or bound to an empty list
/// (explicitly unbound).
#[derive(Debug)]
pub struct ControlMap {
    slots: Vec<Option<Vec<Binding>>>,
}

/// A copy of a binding list, binding for binding.
fn copy_bindings(list: &Vec<Binding>) -> (copy: Vec<Binding>)
    ensures
        copy@ == list@,
{
    let mut copy: Vec<Binding> = Vec::new();
    let mut i: usize = 0;
    while i < list.len()
        invariant
            i <= list@.len(),
            copy@ == list@.take(i as int),
        decreases list@.len() - i,
    {
        copy.push(list[i].clone());
        i = i + 1;
    }
    assert(list@.take(list@.len() as int) == list@);
    copy
}

impl Clone for ControlMap {
    fn clone(&self) -> (copy: Self)
        ensures
            copy.bindings_view() == self.bindings_view(),
    {
        proof {
            use_type_invariant(self);
        }
        let mut slots: Vec<Option<Vec<Binding>>> = Vec::new();
        let mut i: usize = 0;
        while i < self.slots.len()
            invariant
                i <= self.slots@.len(),
                self.slots@.len() == ACTION_COUNT,
                slots@.len() == i,
                forall|j: int|
                    0 <= j < i ==> (#[trigger] slots@[j] is Some) == (self.slots@[j] is Some),
                forall|j: int|
                    0 <= j < i && self.slots@[j] is Some ==> (#[trigger] slots@[j])->0@ == self.slots@[j]->0@,
            decreases self.slots@.len() - i,
        {
            match &self.slots[i] {
                Some(list) => slots.push(Some(copy_bindings(list))),
                None => slots.push(None),
            }
            i = i + 1;
        }
        let copy = ControlMap { slots };
        assert(copy.bindings_view() =~= self.bindings_view());
        copy
    }
}

impl ControlMap {
    #[verifier::type_invariant]
    closed spec fn slot_per_action(&self) -> bool {
        self.slots@.len() == ACTION_COUNT
    }

    /// The bindings of each configured action.
    pub closed spec fn bindings_view(&self) -> Map<Action, Seq<BindingView>> {
        Map::new(
            |action: Action| self.slots@[action_number(action) as int] is Some,
            |action: Action| binding_views(self.slots@[action_number(action) as int]->0@),
        )
    }

    /// A map with no configured action.
    pub fn empty() -> (controls: Self)
        ensures
            controls.bindings_view() == Map::<Action, Seq<BindingView>>::empty(),
    {
        let mut slots: Vec<Option<Vec<Binding>>> = Vec::new();
        let mut i: usize = 0;
        while i < ACTION_COUNT
            invariant
                i <= ACTION_COUNT,
                slots@.len() == i,
                forall|j: int| 0 <= j < i ==> #[trigger] slots@[j] is None,
            decreases ACTION_COUNT - i,
        {
            slots.push(None);
            i = i + 1;
        }
        let controls = ControlMap { slots };
        assert(controls.bindings_view() =~= Map::<Action, Seq<BindingView>>::empty());
        controls
    }

    /// The bindings of `action`, if it is configured.
    pub fn get(&self, action: Action) -> (bindings: Option<&Vec<Binding>>)
        ensures
            match bindings {
                Some(list) => self.bindings_view().contains_key(action) && binding_views(list@)
                    == self.bindings_view()[action],
                None => !self.bindings_view().contains_key(action),
            },
    {
        proof {
            use_type_invariant(self);
        }
        match &self.slots[action.index()] {
            Some(list) => Some(list),
            None => None,
        }
    }

    /// Whether `action` is configured (possibly with no bindings).
    pub fn contains_key(&self, action: Action) -> (configured: bool)
        ensures
            configured == self.bindings_view().contains_key(action),
    {
        proof {
            use_type_invariant(self);
        }
        self.slots[action.index()].is_some()
    }

    /// Binds `action` to exactly `bindings`, returning its previous list.
    pub fn insert(&mut self, action: Action, bindings: Vec<Binding>) -> (previous: Option<Vec<Binding>>)
        ensures
            final(self).bindings_view() == old(self).bindings_view().insert(action, binding_views(bindings@)),
            match previous {
                Some(list) => old(self).bindings_view().contains_key(action) && binding_views(list@)
                    == old(self).bindings_view()[action],
                None => !old(self).bindings_view().contains_key(action),
            },
    {
        proof {
            use_type_invariant(&*self);
        }
        let index = action.index();
        let mut slot = Some(bindings);
        std::mem::swap(&mut slot, &mut self.slots[index]);
        assert(self.bindings_view() =~= old(self).bindings_view().insert(action, binding_views(bindings@)));
        slot
    }

    /// Removes `action`, returning its list if it was configured.
    pub fn remove(&mut self, action: Action) -> (previous: Option<Vec<Binding>>)
        ensures
            final(self).bindings_view() == old(self).bindings_view().remove(action),
            match previous {
                Some(list) => old(self).bindings_view().contains_key(action) && binding_views(list@)
                    == old(self).bindings_view()[action],
                None => !old(self).bindings_view().contains_key(action),
            },
    {
        proof {
            use_type_invariant(&*self);
        }
        let index = action.index();
        let mut slot = None;
        std::mem::swap(&mut slot, &mut self.slots[index]);
        assert(self.bindings_view() =~= old(self).bindings_view().remove(action));
        slot
    }
}


impl Default for ControlMap {
    /// The shipping control scheme, [`default_bindings`].
    fn default() -> (controls: Self)
        ensures
            controls.bindings_view() == default_bindings(),
    {
        let mut controls = ControlMap::empty();
        let list = vec![key("KeyA"), key("ArrowLeft"), axis("LeftStickX", -1)];
        assert(binding_views(list@) =~= seq![BindingView::Key("KeyA"@), BindingView::Key("ArrowLeft"@), BindingView::GamepadAxis("LeftStickX"@, -1i8)]);
        controls.insert(Action::SteerLeft, list);
        let list = vec![key("KeyD"), key("ArrowRight"), axis("LeftStickX", 1)];
        assert(binding_views(list@) =~= seq![BindingView::Key("KeyD"@), BindingView::Key("ArrowRight"@), BindingView::GamepadAxis("LeftStickX"@, 1i8)]);
        controls.insert(Action::SteerRight, list);
        let list = vec![
            key("KeyW"),
            key("ArrowUp"),
            axis("RightZ", 1),
            axis("ButtonRightTrigger2", 1),
            axis("LeftStickY", 1),
        ];
        assert(binding_views(list@) =~= seq![
            BindingView::Key("KeyW"@),
            BindingView::Key("ArrowUp"@),
            BindingView::GamepadAxis("RightZ"@, 1i8),
            BindingView::GamepadAxis("ButtonRightTrigger2"@, 1i8),
            BindingView::GamepadAxis("LeftStickY"@, 1i8),
        ]);
        controls.insert(Action::Accelerate, list);
        let list = vec![
            key("KeyS"),
            key("ArrowDown"),
            axis("LeftZ", 1),
            axis("ButtonLeftTrigger2", 1),
            axis("LeftStickY", -1),
        ];
        assert(binding_views(list@) =~= seq![
            BindingView::Key("KeyS"@),
            BindingView::Key("ArrowDown"@),
            BindingView::GamepadAxis("LeftZ"@, 1i8),
            BindingView::GamepadAxis("ButtonLeftTrigger2"@, 1i8),
            BindingView::GamepadAxis("LeftStickY"@, -1i8),
        ]);
        controls.insert(Action::BrakeReverse, list);
        let list = vec![key("Space"), button("South")];
        assert(binding_views(list@) =~= seq![BindingView::Key("Space"@), BindingView::GamepadButton("South"@)]);
        controls.insert(Action::Boost, list);
        let list = vec![key("KeyQ"), button("North")];
        assert(binding_views(list@) =~= seq![BindingView::Key("KeyQ"@), BindingView::GamepadButton("North"@)]);
        controls.insert(Action::LookBehind, list);
        let list = vec![key("KeyR"), button("East")];
        assert(binding_views(list@) =~= seq![BindingView::Key("KeyR"@), BindingView::GamepadButton("East"@)]);
        controls.insert(Action::Recover, list);
        let list = vec![key("KeyJ"), axis("RightStickX", -1)];
        assert(binding_views(list@) =~= seq![BindingView::Key("KeyJ"@), BindingView::GamepadAxis("RightStickX"@, -1i8)]);
        controls.insert(Action::CameraLeft, list);
        let list = vec![key("KeyL"), axis("RightStickX", 1)];
        assert(binding_views(list@) =~= seq![BindingView::Key("KeyL"@), BindingView::GamepadAxis("RightStickX"@, 1i8)]);
        controls.insert(Action::CameraRight, list);
        let list = vec![key("KeyI"), axis("RightStickY", 1)];
        assert(binding_views(list@) =~= seq![BindingView::Key("KeyI"@), BindingView::GamepadAxis("RightStickY"@, 1i8)]);
        controls.insert(Action::CameraUp, list);
        let list = vec![key("KeyK"), axis("RightStickY", -1)];
        assert(binding_views(list@) =~= seq![BindingView::Key("KeyK"@), BindingView::GamepadAxis("RightStickY"@, -1i8)]);
        controls.insert(Action::CameraDown, list);
        let list = vec![key("KeyC"), button("RightThumb")];
        assert(binding_views(list@) =~= seq![BindingView::Key("KeyC"@), BindingView::GamepadButton("RightThumb"@)]);
        controls.insert(Action::RecenterCamera, list);
        let list = vec![key("Escape"), button("Start")];
        assert(binding_views(list@) =~= seq![BindingView::Key("Escape"@), BindingView::GamepadButton("Start"@)]);
        controls.insert(Action::Pause, list);
        assert(controls.bindings_view() =~= default_bindings());
        controls
    }
}


/// Whether `candidate` is one of the bindings of `action`.
pub fn matches_binding(controls: &ControlMap, action: Action, candidate: &Binding) -> (matched: bool)
    ensures
        matched == (controls.bindings_view().contains_key(action) && controls.bindings_view()[action].contains(candidate@)),
{
    match controls.get(action) {
        None => false,
        Some(list) => {
            let mut i: usize = 0;
            while i < list.len()
                invariant
                    i <= list@.len(),
                    controls.bindings_view().contains_key(action),
                    binding_views(list@) == controls.bindings_view()[action],
                    forall|j: int| 0 <= j < i ==> list@[j]@ != candidate@,
                decreases list@.len() - i,
            {
                if list[i].same_as(candidate) {
                    assert(binding_views(list@)[i as int] == candidate@);
                    return true;
                }
                i = i + 1;
            }
            assert(!binding_views(list@).contains(candidate@)) by {
                if binding_views(list@).contains(candidate@) {
                    let j = choose|j: int| 0 <= j < binding_views(list@).len() && binding_views(list@)[j] == candidate@;
                    assert(list@[j]@ == candidate@);
                }
            }
            false
        },
    }
}

/// Control bindings after migrating an older profile: the retired
/// `ToggleMower` action is dropped, every explicitly configured action keeps
/// its list (even an empty one), and actions that were never configured get
/// their shipping defaults.
pub open spec fn migrated_bindings(m: Map<Action, Seq<BindingView>>) -> Map<Action, Seq<BindingView>> {
    Map::new(
        |action: Action| action != Action::ToggleMower && (m.contains_key(action)
            || default_bindings().contains_key(action)),
        |action: Action| if m.contains_key(action) {
            m[action]
        } else {
            default_bindings()[action]
        },
    )
}

impl ControlMap {
    /// Migrates bindings loaded from an older profile; see [`migrated_bindings`].
    pub fn migrate(&mut self)
        ensures
            final(self).bindings_view() == migrated_bindings(old(self).bindings_view()),
    {
        let ghost initial = self.bindings_view();
        self.remove(Action::ToggleMower);
        let defaults = ControlMap::default();
        let mut i: usize = 0;
        while i < ACTION_COUNT
            invariant
                i <= ACTION_COUNT,
                defaults.bindings_view() == default_bindings(),
                self.bindings_view() == Map::new(
                    |action: Action| action != Action::ToggleMower && (initial.contains_key(action)
                        || (action_number(action) < i && default_bindings().contains_key(action))),
                    |action: Action| if initial.contains_key(action) {
                        initial[action]
                    } else {
                        default_bindings()[action]
                    },
                ),
            decreases ACTION_COUNT - i,
        {
            let action = Action::from_index(i);
            let ghost before = self.bindings_view();
            if !self.contains_key(action) {
                match defaults.get(action) {
                    Some(list) => {
                        let copy = list.clone();
                        assert(copy@ =~= list@);
                        self.insert(action, copy);
                    },
                    None => {},
                }
            }
            assert(self.bindings_view() =~= Map::new(
                |a: Action| a != Action::ToggleMower && (initial.contains_key(a)
                    || (action_number(a) < i + 1 && default_bindings().contains_key(a))),
                |a: Action| if initial.contains_key(a) {
                    initial[a]
                } else {
                    default_bindings()[a]
                },
            ));
            i = i + 1;
        }
        assert(self.bindings_view() =~= migrated_bindings(initial));
    }
}

/// Migration is idempotent, and afterwards every action that has a default
/// is configured while the retired `ToggleMower` is not.
pub proof fn law_migration_is_idempotent_and_complete(m: Map<Action, Seq<BindingView>>, action: Action)
    ensures
        migrated_bindings(migrated_bindings(m)) == migrated_bindings(m),
        !migrated_bindings(m).contains_key(Action::ToggleMower),
        default_bindings().contains_key(action) ==> migrated_bindings(m).contains_key(action),
        m.contains_key(action) && action != Action::ToggleMower ==> migrated_bindings(m)[action]
            == m[action],
{
    assert(migrated_bindings(migrated_bindings(m)) =~= migrated_bindings(m));
}

} // verus!
