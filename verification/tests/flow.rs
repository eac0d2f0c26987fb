use lawn_core::flow::{FlowAction, GameFlow, GameState, InvalidTransition};

#[test]
fn required_happy_path_and_pause_are_represented() {
    let mut flow = GameFlow::default();
    for action in [
        FlowAction::BootComplete,
        FlowAction::OpenWorldEditor,
        FlowAction::StartLoading,
        FlowAction::LoadComplete,
        FlowAction::Pause,
        FlowAction::Resume,
        FlowAction::Finish,
    ] {
        flow.transition(action).unwrap();
    }
    assert_eq!(flow.state(), GameState::Results);
}

#[test]
fn impossible_edges_are_rejected() {
    assert!(GameFlow::default().transition(FlowAction::Finish).is_err());
}

#[test]
fn rejected_transition_reports_the_edge_and_keeps_the_state() {
    let mut flow = GameFlow::default();
    flow.transition(FlowAction::BootComplete).unwrap();
    assert_eq!(
        flow.transition(FlowAction::Resume),
        Err(InvalidTransition {
            from: GameState::Title,
            action: FlowAction::Resume,
        })
    );
    assert_eq!(flow.state(), GameState::Title);
}

#[test]
fn boot_is_never_reentered_and_pause_resumes_play() {
    let mut flow = GameFlow::default();
    assert_eq!(flow.state(), GameState::Boot);
    for action in [
        FlowAction::BootComplete,
        FlowAction::OpenWorldEditor,
        FlowAction::StartLoading,
        FlowAction::LoadComplete,
    ] {
        flow.transition(action).unwrap();
    }
    assert_eq!(flow.transition(FlowAction::Pause), Ok(GameState::Paused));
    assert_eq!(flow.transition(FlowAction::Resume), Ok(GameState::Playing));
    assert_eq!(flow.transition(FlowAction::Finish), Ok(GameState::Results));
    assert_eq!(flow.transition(FlowAction::ReturnToTitle), Ok(GameState::Title));
    assert!(flow.transition(FlowAction::BootComplete).is_err());
}

#[test]
fn results_lead_back_to_the_editor_or_a_new_load() {
    let mut flow = GameFlow::default();
    for action in [
        FlowAction::BootComplete,
        FlowAction::OpenWorldEditor,
        FlowAction::StartLoading,
        FlowAction::LoadComplete,
        FlowAction::Finish,
    ] {
        flow.transition(action).unwrap();
    }
    let mut again = flow.clone();
    assert_eq!(flow.transition(FlowAction::StartLoading), Ok(GameState::Loading));
    assert_eq!(again.transition(FlowAction::ReturnToWorldEditor), Ok(GameState::WorldEditor));
    assert_eq!(GameState::default(), GameState::Boot);
}
