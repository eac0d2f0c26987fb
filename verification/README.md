# lawn_core

The headless, deterministic core of Lawn Orbit, a tiny-planet hover-mowing
game, written in Verus. The functions in `src/` carry contracts that Verus
proves; the one exception is the benchmark's shared first-failure slot
(`GpuFailure::new`, `record` and `message`), whose contents across clones
are not stated (the latch rule it applies, `latch_first`, is).

## Layout

| Path | What it holds |
| --- | --- |
| `src/flow.rs` | The screen-flow state machine and its transition laws |
| `src/planet.rs` | Generator versions, world seeds and their text format, stage stream keys and random generators, noise lattice and fingerprint hashing |
| `src/cube_map.rs` | Cube-face numbering, flat cell indices, moves within a face, and the six-face grid |
| `src/regions.rs` | Breadth-first regions, rock distances, and nearest safe cells on the cell graph |
| `src/mowing.rs` | Packed mowing cells, cutting, coverage, dirty upload tiles (owned or staged in a reused buffer), snapshots |
| `src/input.rs` | Actions, bindings, the control map, its defaults and migration |
| `src/labels.rs` | Settings-screen and key-hint names of bindings |
| `src/profile.rs` | Recent seeds, favorites, and the integer profile repairs |
| `src/run.rs` | Tutorial progression and ticks, coverage milestones, submission, stars, race outcome and its latch |
| `src/benchmark.rs` | Benchmark options and the first-failure latch |
| `src/text.rs` | Small verified string helpers |
| `tests/` | Executable tests of the library |
| `app/` | A command-line front end: floating-point geometry, noise and planet generation, weighted mowing coverage, and the saved profile |

The library states its laws as public proof functions named `law_*`, next to
the functions they relate.

The floating-point parts that `app/` keeps (projection onto the cube, relief,
areas, weights) and the saved-profile file hand the library plain values and
take plain values back. The vehicle physics, camera, rendering, frame clock
and the run and race state they drive are not part of this crate; the library
holds their integer decisions (tutorial ticks, milestones, submission, stars,
race settling) as functions of plain values.
