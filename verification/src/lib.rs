//! Headless, deterministic gameplay core for Lawn Orbit.

use vstd::prelude::*;

pub mod benchmark;
pub mod cube_map;
pub mod flow;
pub mod input;
pub mod labels;
pub mod mowing;
pub mod planet;
pub mod profile;
pub mod regions;
pub mod run;
pub mod text;

verus! {

/// Fixed gameplay update frequency.
pub const SIMULATION_HZ: u32 = 120;

} // verus!
