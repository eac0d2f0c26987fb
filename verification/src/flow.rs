//! Explicit top-level game state transitions.

use vstd::prelude::*;

verus! {

/// Top-level screen of the game.
#[derive(Clone, Copy, Debug, PartialEq, Eq, Structural)]
pub enum GameState {
    Boot,
    Title,
    WorldEditor,
    Loading,
    Playing,
    Paused,
    Results,
}

impl Default for GameState {
    fn default() -> (state: Self)
        ensures
            state == GameState::Boot,
    {
        GameState::Boot
    }
}

/// A request to move between top-level screens.
#[derive(Clone, Copy, Debug, PartialEq, Eq, Structural)]
pub enum FlowAction {
    BootComplete,
    OpenWorldEditor,
    StartLoading,
    LoadComplete,
    Pause,
    Resume,
    Finish,
    ReturnToWorldEditor,
    ReturnToTitle,
}

/// The legal transition table: the state reached from `from` by `action`,
/// or `None` when the edge does not exist.
pub open spec fn next_state(from: GameState, action: FlowAction) -> Option<GameState> {
    match (from, action) {
        (GameState::Boot, FlowAction::BootComplete) => Some(GameState::Title),
        (GameState::WorldEditor, FlowAction::ReturnToTitle) => Some(GameState::Title),
        (GameState::Results, FlowAction::ReturnToTitle) => Some(GameState::Title),
        (GameState::Title, FlowAction::OpenWorldEditor) => Some(GameState::WorldEditor),
        (GameState::Results, FlowAction::OpenWorldEditor) => Some(GameState::WorldEditor),
        (GameState::Paused, FlowAction::ReturnToWorldEditor) => Some(GameState::WorldEditor),
        (GameState::Playing, FlowAction::ReturnToWorldEditor) => Some(GameState::WorldEditor),
        (GameState::Results, FlowAction::ReturnToWorldEditor) => Some(GameState::WorldEditor),
        (GameState::WorldEditor, FlowAction::StartLoading) => Some(GameState::Loading),
        (GameState::Results, FlowAction::StartLoading) => Some(GameState::Loading),
        (GameState::Loading, FlowAction::LoadComplete) => Some(GameState::Playing),
        (GameState::Paused, FlowAction::Resume) => Some(GameState::Playing),
        (GameState::Playing, FlowAction::Pause) => Some(GameState::Paused),
        (GameState::Playing, FlowAction::Finish) => Some(GameState::Results),
        _ => None,
    }
}

/// The state machine that owns the current top-level screen.
#[derive(Clone, Debug)]
pub struct GameFlow {
    state: GameState,
}

/// An action that is not legal from the state it was applied to.
#[derive(Clone, Copy, Debug, PartialEq, Eq, Structural)]
pub struct InvalidTransition {
    pub from: GameState,
    pub action: FlowAction,
}

impl Default for GameFlow {
    fn default() -> (flow: Self)
        ensures
            flow.view() == GameState::Boot,
    {
        GameFlow { state: GameState::Boot }
    }
}

impl View for GameFlow {
    type V = GameState;

    closed spec fn view(&self) -> GameState {
        self.state
    }
}

impl GameFlow {
    /// The current top-level state.
    pub fn state(&self) -> (state: GameState)
        ensures
            state == self@,
    {
        self.state
    }

    /// Applies a legal top-level state transition. An illegal action is
    /// rejected with [`InvalidTransition`] and leaves the state unchanged.
    pub fn transition(&mut self, action: FlowAction) -> (result: Result<GameState, InvalidTransition>)
        ensures
            match next_state(old(self)@, action) {
                Some(next) => result == Ok::<GameState, InvalidTransition>(next) && final(self)@ == next,
                None => result == Err::<GameState, InvalidTransition>(
                    InvalidTransition { from: old(self)@, action },
                ) && final(self)@ == old(self)@,
            },
    {
        let next = match (self.state, action) {
            (GameState::Boot, FlowAction::BootComplete)
            | (GameState::WorldEditor, FlowAction::ReturnToTitle)
            | (GameState::Results, FlowAction::ReturnToTitle) => GameState::Title,
            (GameState::Title, FlowAction::OpenWorldEditor)
            | (GameState::Results, FlowAction::OpenWorldEditor)
            | (GameState::Paused, FlowAction::ReturnToWorldEditor)
            | (GameState::Playing, FlowAction::ReturnToWorldEditor)
            | (GameState::Results, FlowAction::ReturnToWorldEditor) => GameState::WorldEditor,
            (GameState::WorldEditor, FlowAction::StartLoading)
            | (GameState::Results, FlowAction::StartLoading) => GameState::Loading,
            (GameState::Loading, FlowAction::LoadComplete)
            | (GameState::Paused, FlowAction::Resume) => GameState::Playing,
            (GameState::Playing, FlowAction::Pause) => GameState::Paused,
            (GameState::Playing, FlowAction::Finish) => GameState::Results,
            _ => {
                return Err(InvalidTransition { from: self.state, action });
            },
        };
        self.state = next;
        Ok(next)
    }
}

/// No action ever leads back to the boot screen: booting happens once.
pub proof fn law_boot_is_never_reentered(from: GameState, action: FlowAction)
    ensures
        next_state(from, action) != Some(GameState::Boot),
{
}

/// The pause screen is entered only by pausing a game in progress, and
/// resuming from it always returns to that game.
pub proof fn law_pause_only_from_playing_and_resume_returns(from: GameState, action: FlowAction)
    ensures
        next_state(from, action) == Some(GameState::Paused) <==> (from == GameState::Playing
            && action == FlowAction::Pause),
        next_state(GameState::Paused, FlowAction::Resume) == Some(GameState::Playing),
{
}

/// Play starts only when loading completes or a paused game resumes.
pub proof fn law_play_entered_only_by_load_or_resume(from: GameState, action: FlowAction)
    ensures
        next_state(from, action) == Some(GameState::Playing) <==> ((from == GameState::Loading
            && action == FlowAction::LoadComplete) || (from == GameState::Paused && action
            == FlowAction::Resume)),
{
}

/// The title screen is reached by booting, or by returning to it from the
/// world editor or the results screen, and by nothing else; returning to the
/// title from any other screen is refused.
pub proof fn law_title_entered_by_boot_or_return(from: GameState, action: FlowAction)
    ensures
        next_state(from, action) == Some(GameState::Title) <==> ((from == GameState::Boot && action
            == FlowAction::BootComplete) || ((from == GameState::WorldEditor || from == GameState::Results)
            && action == FlowAction::ReturnToTitle)),
        next_state(from, FlowAction::ReturnToTitle) is Some <==> (from == GameState::WorldEditor || from
            == GameState::Results),
{
}

/// The world editor is opened from the title or the results screen, or
/// returned to from a game in progress, paused or finished.
pub proof fn law_world_editor_entered_from_menus_and_games(from: GameState, action: FlowAction)
    ensures
        next_state(from, action) == Some(GameState::WorldEditor) <==> ((action == FlowAction::OpenWorldEditor
            && (from == GameState::Title || from == GameState::Results)) || (action
            == FlowAction::ReturnToWorldEditor && (from == GameState::Playing || from == GameState::Paused
            || from == GameState::Results))),
{
}

/// Loading starts only from the world editor or the results screen, and only
/// completing it leaves it.
pub proof fn law_loading_entered_from_editor_or_results(from: GameState, action: FlowAction)
    ensures
        next_state(from, action) == Some(GameState::Loading) <==> (action == FlowAction::StartLoading && (from
            == GameState::WorldEditor || from == GameState::Results)),
        next_state(GameState::Loading, action) is Some <==> action == FlowAction::LoadComplete,
{
}

/// Results are reached only by finishing a game in progress.
pub proof fn law_results_only_by_finishing(from: GameState, action: FlowAction)
    ensures
        next_state(from, action) == Some(GameState::Results) <==> (from == GameState::Playing
            && action == FlowAction::Finish),
{
}

} // verus!
