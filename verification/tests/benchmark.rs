use lawn_core::benchmark::{latch_first, resolution, BenchmarkOptionError, GpuFailure, Scene};

#[test]
fn gpu_failure_is_shared_and_keeps_the_first_error_latched() {
    let failure = GpuFailure::default();
    let callback_state = failure.clone();
    assert!(failure.message().is_none());
    callback_state.record("device lost".into());
    failure.record("later validation error".into());
    assert_eq!(failure.message().as_deref(), Some("device lost"));
    assert_eq!(callback_state.message().as_deref(), Some("device lost"));
}

#[test]
fn scene_and_resolution_options_are_explicit() {
    assert_eq!(Scene::parse("race").unwrap(), Scene::Race);
    assert_eq!(Scene::parse("stationary").unwrap(), Scene::Stationary);
    assert_eq!(Scene::parse("custom"), Err(BenchmarkOptionError::UnknownScene));
    for scene in [Scene::Stationary, Scene::Race] {
        assert_eq!(Scene::parse(scene.name()), Ok(scene));
    }
    assert_eq!(resolution("1440p"), Ok((2560, 1440)));
    assert_eq!(resolution("720p"), Ok((1280, 720)));
    assert_eq!(resolution("huge"), Err(BenchmarkOptionError::UnknownResolution));
}

#[test]
fn the_first_failure_wins_the_latch() {
    assert_eq!(latch_first(None, "lost".into()).as_deref(), Some("lost"));
    assert_eq!(
        latch_first(Some("first".into()), "second".into()).as_deref(),
        Some("first")
    );
}
