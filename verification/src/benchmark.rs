//! Renderer benchmark options and the shared latch for the first GPU failure.

use vstd::prelude::*;
use vstd::rwlock::{RwLock, RwLockPredicate};
use std::sync::Arc;
use crate::text::str_eq;

verus! {

/// Any stored failure message is acceptable.
pub struct AnyFailure;

impl RwLockPredicate<Option<String>> for AnyFailure {
    open spec fn inv(self, message: Option<String>) -> bool {
        true
    }
}

/// The failure that stays recorded after `message` is reported while
/// `current` was recorded: the first report wins.
pub fn latch_first(current: Option<String>, message: String) -> (kept: Option<String>)
    ensures
        kept == match current {
            Some(first) => Some(first),
            None => Some(message),
        },
{
    match current {
        Some(first) => Some(first),
        None => Some(message),
    }
}

/// A failure slot shared between the renderer and its device callbacks, which
/// may run on other threads. Clones share one slot. The first recorded
/// failure stays latched so a later callback cannot make the run valid again.
pub struct GpuFailure {
    slot: Arc<RwLock<Option<String>, AnyFailure>>,
}

impl GpuFailure {
    /// A slot with no failure recorded.
    pub fn new() -> Self {
        GpuFailure { slot: Arc::new(RwLock::new(None, Ghost(AnyFailure))) }
    }

    /// Records `message` unless a failure is already recorded.
    pub fn record(&self, message: String) {
        let (current, handle) = self.slot.acquire_write();
        handle.release_write(latch_first(current, message));
    }

    /// The first recorded failure, if any.
    pub fn message(&self) -> Option<String> {
        let handle = self.slot.acquire_read();
        let current = handle.borrow().clone();
        handle.release_read();
        current
    }
}

impl Clone for GpuFailure {
    fn clone(&self) -> Self {
        GpuFailure { slot: self.slot.clone() }
    }
}

impl Default for GpuFailure {
    fn default() -> Self {
        GpuFailure::new()
    }
}


/// Which scene the renderer benchmark draws.
#[derive(Clone, Copy, Debug, PartialEq, Eq, Structural)]
pub enum Scene {
    Stationary,
    Race,
}

/// Command-line name of a benchmark scene.
pub open spec fn scene_name(scene: Scene) -> Seq<char> {
    match scene {
        Scene::Stationary => "stationary"@,
        Scene::Race => "race"@,
    }
}

/// A benchmark option that names no known choice.
#[derive(Clone, Copy, Debug, PartialEq, Eq, Structural)]
pub enum BenchmarkOptionError {
    /// The scene must be `stationary` or `race`.
    UnknownScene,
    /// The resolution must be `720p` or `1440p`.
    UnknownResolution,
}

impl Scene {
    /// Reads a scene name.
    pub fn parse(value: &str) -> (scene: Result<Scene, BenchmarkOptionError>)
        ensures
            scene == if value@ == scene_name(Scene::Stationary) {
                Ok::<Scene, BenchmarkOptionError>(Scene::Stationary)
            } else if value@ == scene_name(Scene::Race) {
                Ok::<Scene, BenchmarkOptionError>(Scene::Race)
            } else {
                Err::<Scene, BenchmarkOptionError>(BenchmarkOptionError::UnknownScene)
            },
    {
        if str_eq(value, "stationary") {
            Ok(Scene::Stationary)
        } else if str_eq(value, "race") {
            Ok(Scene::Race)
        } else {
            Err(BenchmarkOptionError::UnknownScene)
        }
    }

    /// The scene's command-line name.
    pub fn name(self) -> (name: &'static str)
        ensures
            name@ == scene_name(self),
    {
        match self {
            Scene::Stationary => "stationary",
            Scene::Race => "race",
        }
    }
}

/// Scene names are distinct, so each reads back as the scene it names.
pub proof fn law_scene_names_round_trip(scene: Scene)
    ensures
        (if scene_name(scene) == scene_name(Scene::Stationary) {
            Scene::Stationary
        } else {
            Scene::Race
        }) == scene,
        scene_name(scene) == scene_name(Scene::Stationary) || scene_name(scene) == scene_name(Scene::Race),
{
    reveal_strlit("stationary");
    reveal_strlit("race");
    assert(scene_name(Scene::Stationary).len() != scene_name(Scene::Race).len());
}

/// Window size in pixels for a benchmark resolution name.
pub fn resolution(value: &str) -> (size: Result<(u32, u32), BenchmarkOptionError>)
    ensures
        size == if value@ == "720p"@ {
            Ok::<(u32, u32), BenchmarkOptionError>((1280, 720))
        } else if value@ == "1440p"@ {
            Ok::<(u32, u32), BenchmarkOptionError>((2560, 1440))
        } else {
            Err::<(u32, u32), BenchmarkOptionError>(BenchmarkOptionError::UnknownResolution)
        },
{
    if str_eq(value, "720p") {
        Ok((1280, 720))
    } else if str_eq(value, "1440p") {
        Ok((2560, 1440))
    } else {
        Err(BenchmarkOptionError::UnknownResolution)
    }
}

} // verus!
