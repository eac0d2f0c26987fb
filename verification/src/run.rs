//! Rules of an active run: game modes, the contextual tutorial, coverage
//! milestones, submission, and star ratings.

use vstd::prelude::*;

verus! {

/// How a run is played.
#[derive(Clone, Copy, Debug, PartialEq, Eq, Structural)]
pub enum GameMode {
    /// A timed job that is submitted and rated.
    Standard,
    /// Untimed mowing with no submission.
    FreeMow,
}

impl Default for GameMode {
    fn default() -> (mode: Self)
        ensures
            mode == GameMode::Standard,
    {
        GameMode::Standard
    }
}

/// Step of the first-play tutorial.
#[derive(Clone, Copy, Debug, PartialEq, Eq, Structural)]
pub enum TutorialStage {
    Drive,
    NoticeMowing,
    Boost,
    Rock,
    WaitForLocator,
    Recovery,
    Locator,
    Submit,
    Complete,
}

impl Default for TutorialStage {
    fn default() -> (stage: Self)
        ensures
            stage == TutorialStage::Drive,
    {
        TutorialStage::Drive
    }
}

/// The prompt shown during a tutorial stage, if any.
pub open spec fn stage_prompt(stage: TutorialStage) -> Option<Seq<char>> {
    match stage {
        TutorialStage::Drive => Some("Move in any direction to begin mowing"@),
        TutorialStage::NoticeMowing => Some("The always-on deck shortens grass and raises coverage"@),
        TutorialStage::Boost => Some("Hold Boost on a clear stretch"@),
        TutorialStage::Rock => Some("Rock cannot be mowed—route around steep faces"@),
        TutorialStage::WaitForLocator => None,
        TutorialStage::Complete => None,
        TutorialStage::Recovery => Some("Hold Recover if the mower becomes stuck"@),
        TutorialStage::Locator => Some("The locator points toward the largest uncut patch"@),
        TutorialStage::Submit => Some("Job complete: submit now or continue to 100%"@),
    }
}

impl TutorialStage {
    /// The instruction shown during this stage; waiting and completed stages
    /// show none.
    pub fn prompt(self) -> (prompt: Option<&'static str>)
        ensures
            match prompt {
                Some(text) => stage_prompt(self) == Some(text@),
                None => stage_prompt(self) is None,
            },
    {
        match self {
            TutorialStage::Drive => Some("Move in any direction to begin mowing"),
            TutorialStage::NoticeMowing => Some("The always-on deck shortens grass and raises coverage"),
            TutorialStage::Boost => Some("Hold Boost on a clear stretch"),
            TutorialStage::Rock => Some("Rock cannot be mowed—route around steep faces"),
            TutorialStage::WaitForLocator | TutorialStage::Complete => None,
            TutorialStage::Recovery => Some("Hold Recover if the mower becomes stuck"),
            TutorialStage::Locator => Some("The locator points toward the largest uncut patch"),
            TutorialStage::Submit => Some("Job complete: submit now or continue to 100%"),
        }
    }
}

/// What the tutorial observes about the current tick.
#[derive(Clone, Copy, Debug, PartialEq, Eq, Structural)]
pub struct TutorialFacts {
    /// The player is steering or driving.
    pub moving: bool,
    /// Some grass has been cut.
    pub cut_noticed: bool,
    /// The current stage has been shown for its minimum time.
    pub stage_shown_long_enough: bool,
    /// The mower is boosting.
    pub boosting: bool,
    /// Boost is enabled in the accessibility settings.
    pub boost_enabled: bool,
    /// The planet has no rock at all.
    pub fully_mowable: bool,
    /// Coverage reached the locator threshold.
    pub locator_reached: bool,
    /// The mower has been stuck for a while.
    pub stuck: bool,
    /// The mower scraped rock or collided this frame.
    pub hit_rock: bool,
    /// The mower has been recovered at least once.
    pub recovered: bool,
    /// The job can be submitted.
    pub completion_available: bool,
    /// The run is a Free Mow sandbox.
    pub free_mow: bool,
}

/// The stage the tutorial advances to from `stage`, or `None` to stay.
pub open spec fn tutorial_step(stage: TutorialStage, facts: TutorialFacts) -> Option<TutorialStage> {
    match stage {
        TutorialStage::Drive => if facts.moving {
            Some(TutorialStage::NoticeMowing)
        } else {
            None
        },
        TutorialStage::NoticeMowing => if facts.cut_noticed && facts.stage_shown_long_enough {
            Some(TutorialStage::Boost)
        } else {
            None
        },
        TutorialStage::Boost => if facts.boosting || !facts.boost_enabled {
            Some(
                if facts.fully_mowable {
                    TutorialStage::WaitForLocator
                } else {
                    TutorialStage::Rock
                },
            )
        } else {
            None
        },
        TutorialStage::Rock => if facts.locator_reached {
            Some(TutorialStage::Locator)
        } else if facts.stuck {
            Some(TutorialStage::Recovery)
        } else if facts.hit_rock {
            Some(TutorialStage::WaitForLocator)
        } else {
            None
        },
        TutorialStage::WaitForLocator => if facts.locator_reached {
            Some(TutorialStage::Locator)
        } else if facts.stuck {
            Some(TutorialStage::Recovery)
        } else {
            None
        },
        TutorialStage::Recovery => if facts.recovered {
            Some(TutorialStage::WaitForLocator)
        } else {
            None
        },
        TutorialStage::Locator => if facts.completion_available {
            Some(
                if facts.free_mow {
                    TutorialStage::Complete
                } else {
                    TutorialStage::Submit
                },
            )
        } else {
            None
        },
        TutorialStage::Submit => None,
        TutorialStage::Complete => None,
    }
}

/// Advances the contextual tutorial by at most one stage per tick.
pub fn next_tutorial_stage(stage: TutorialStage, facts: TutorialFacts) -> (next: Option<TutorialStage>)
    ensures
        next == tutorial_step(stage, facts),
{
    match stage {
        TutorialStage::Drive if facts.moving => Some(TutorialStage::NoticeMowing),
        TutorialStage::NoticeMowing if facts.cut_noticed && facts.stage_shown_long_enough => Some(
            TutorialStage::Boost,
        ),
        TutorialStage::Boost if facts.boosting || !facts.boost_enabled => Some(
            if facts.fully_mowable {
                TutorialStage::WaitForLocator
            } else {
                TutorialStage::Rock
            },
        ),
        TutorialStage::Rock if facts.locator_reached => Some(TutorialStage::Locator),
        TutorialStage::WaitForLocator if facts.locator_reached => Some(TutorialStage::Locator),
        TutorialStage::Rock if facts.stuck => Some(TutorialStage::Recovery),
        TutorialStage::WaitForLocator if facts.stuck => Some(TutorialStage::Recovery),
        TutorialStage::Rock if facts.hit_rock => Some(TutorialStage::WaitForLocator),
        TutorialStage::Recovery if facts.recovered => Some(TutorialStage::WaitForLocator),
        TutorialStage::Locator if facts.completion_available => Some(
            if facts.free_mow {
                TutorialStage::Complete
            } else {
                TutorialStage::Submit
            },
        ),
        _ => None,
    }
}

/// One tutorial update: the stage after this tick, and the stage it advanced
/// to, if it did. An advance is when the caller restarts its stage timer and
/// reports the new stage.
#[derive(Clone, Copy, Debug, PartialEq, Eq, Structural)]
pub struct TutorialTick {
    pub stage: TutorialStage,
    pub advanced: Option<TutorialStage>,
}

/// The tutorial update for one tick: nothing happens while the tutorial is
/// off or complete; otherwise the stage takes at most one step.
pub open spec fn tutorial_tick_spec(enabled: bool, stage: TutorialStage, facts: TutorialFacts) -> TutorialTick {
    if !enabled || stage == TutorialStage::Complete {
        TutorialTick { stage, advanced: None }
    } else {
        match tutorial_step(stage, facts) {
            Some(next) => TutorialTick { stage: next, advanced: Some(next) },
            None => TutorialTick { stage, advanced: None },
        }
    }
}

/// Runs one tutorial tick.
pub fn update_tutorial(enabled: bool, stage: TutorialStage, facts: TutorialFacts) -> (tick: TutorialTick)
    ensures
        tick == tutorial_tick_spec(enabled, stage, facts),
{
    if !enabled || stage == TutorialStage::Complete {
        return TutorialTick { stage, advanced: None };
    }
    match next_tutorial_stage(stage, facts) {
        Some(next) => TutorialTick { stage: next, advanced: Some(next) },
        None => TutorialTick { stage, advanced: None },
    }
}

/// A tick reports an advance exactly when it changes the stage, and then
/// reports the new stage; so the stage timer restarts on every change and
/// only then, and a disabled or finished tutorial never moves.
pub proof fn law_tutorial_advance_is_reported_with_each_change(
    enabled: bool,
    stage: TutorialStage,
    facts: TutorialFacts,
)
    ensures
        tutorial_tick_spec(enabled, stage, facts).advanced is Some <==> tutorial_tick_spec(enabled, stage, facts).stage
            != stage,
        tutorial_tick_spec(enabled, stage, facts).advanced is Some ==> tutorial_tick_spec(enabled, stage, facts).advanced
            == Some(tutorial_tick_spec(enabled, stage, facts).stage),
        !enabled ==> tutorial_tick_spec(enabled, stage, facts).stage == stage,
        tutorial_tick_spec(enabled, TutorialStage::Complete, facts).stage == TutorialStage::Complete,
{
}

/// Each tutorial prompt gives way to the next once its condition holds: moving
/// ends the driving prompt; a noticed cut, shown long enough, ends the mowing
/// prompt; boosting (or boost being off) leads to the rock lesson, or straight
/// to waiting for the locator on a planet without rock; during the rock lesson
/// or the wait, reaching the locator threshold leads to the locator, and
/// otherwise being stuck leads to the recovery prompt; a rock hit ends the rock
/// lesson; a recovery returns to the wait; a complete job leaves the locator
/// stage. Without its condition a stage stays.
pub proof fn law_tutorial_stages_follow_their_conditions(stage: TutorialStage, facts: TutorialFacts)
    ensures
        (tutorial_step(TutorialStage::Drive, facts) is Some) == facts.moving,
        facts.moving ==> tutorial_step(TutorialStage::Drive, facts) == Some(TutorialStage::NoticeMowing),
        (tutorial_step(TutorialStage::NoticeMowing, facts) is Some) == (facts.cut_noticed
            && facts.stage_shown_long_enough),
        facts.cut_noticed && facts.stage_shown_long_enough ==> tutorial_step(TutorialStage::NoticeMowing, facts)
            == Some(TutorialStage::Boost),
        (tutorial_step(TutorialStage::Boost, facts) is Some) == (facts.boosting || !facts.boost_enabled),
        (facts.boosting || !facts.boost_enabled) && facts.fully_mowable ==> tutorial_step(TutorialStage::Boost, facts)
            == Some(TutorialStage::WaitForLocator),
        (facts.boosting || !facts.boost_enabled) && !facts.fully_mowable ==> tutorial_step(TutorialStage::Boost, facts)
            == Some(TutorialStage::Rock),
        (stage == TutorialStage::Rock || stage == TutorialStage::WaitForLocator) && facts.locator_reached
            ==> tutorial_step(stage, facts) == Some(TutorialStage::Locator),
        (stage == TutorialStage::Rock || stage == TutorialStage::WaitForLocator) && !facts.locator_reached
            && facts.stuck ==> tutorial_step(stage, facts) == Some(TutorialStage::Recovery),
        !facts.locator_reached && !facts.stuck && facts.hit_rock ==> tutorial_step(TutorialStage::Rock, facts)
            == Some(TutorialStage::WaitForLocator),
        !facts.locator_reached && !facts.stuck && !facts.hit_rock ==> tutorial_step(TutorialStage::Rock, facts)
            is None,
        !facts.locator_reached && !facts.stuck ==> tutorial_step(TutorialStage::WaitForLocator, facts) is None,
        (tutorial_step(TutorialStage::Recovery, facts) is Some) == facts.recovered,
        facts.recovered ==> tutorial_step(TutorialStage::Recovery, facts) == Some(TutorialStage::WaitForLocator),
        (tutorial_step(TutorialStage::Locator, facts) is Some) == facts.completion_available,
{
}

/// The tutorial never restarts, ends in `Submit` (Standard jobs) or
/// `Complete` (Free Mow) and never leaves either, asks to submit only after
/// the locator stage once the job is complete, and never asks a Free Mow
/// player to submit.
pub proof fn law_tutorial_progresses_to_its_mode_end(stage: TutorialStage, facts: TutorialFacts)
    ensures
        tutorial_step(stage, facts) != Some(TutorialStage::Drive),
        tutorial_step(TutorialStage::Submit, facts) is None,
        tutorial_step(TutorialStage::Complete, facts) is None,
        tutorial_step(stage, facts) == Some(TutorialStage::Submit) ==> stage == TutorialStage::Locator
            && facts.completion_available && !facts.free_mow,
        facts.free_mow ==> tutorial_step(stage, facts) != Some(TutorialStage::Submit),
        tutorial_step(stage, facts) == Some(TutorialStage::Complete) ==> facts.free_mow,
{
}

/// Coverage milestone announced for a whole-percent coverage value.
pub open spec fn milestone_for(percent: u8) -> u8 {
    if percent == 100 {
        100
    } else if percent >= 95 {
        95
    } else if percent >= 75 {
        75
    } else if percent >= 50 {
        50
    } else if percent >= 25 {
        25
    } else {
        0
    }
}

/// The coverage milestone (0, 25, 50, 75, 95, or 100) reached at a
/// whole-percent coverage.
pub fn coverage_milestone(percent: u8) -> (milestone: u8)
    ensures
        milestone == milestone_for(percent),
{
    if percent == 100 {
        100
    } else if percent >= 95 {
        95
    } else if percent >= 75 {
        75
    } else if percent >= 50 {
        50
    } else if percent >= 25 {
        25
    } else {
        0
    }
}

/// The milestone to announce when coverage reaches `percent` after
/// `previous` was announced: only a higher milestone is announced.
pub fn milestone_reached(previous: u8, percent: u8) -> (announced: Option<u8>)
    ensures
        announced == if milestone_for(percent) > previous {
            Some(milestone_for(percent))
        } else {
            None::<u8>
        },
{
    let milestone = coverage_milestone(percent);
    if milestone > previous {
        Some(milestone)
    } else {
        None
    }
}

/// The milestone at a coverage below 100% is the largest of 0, 25, 50, 75
/// and 95 that the coverage has reached; full coverage is the 100%
/// milestone. Each milestone is thus reached exactly at its own percentage.
pub proof fn law_milestone_is_the_largest_reached(percent: u8)
    ensures
        percent == 100 ==> milestone_for(percent) == 100,
        percent < 100 ==> {
            let m = milestone_for(percent);
            &&& m == 0 || m == 25 || m == 50 || m == 75 || m == 95
            &&& m <= percent
            &&& (25 <= percent ==> 25 <= m)
            &&& (50 <= percent ==> 50 <= m)
            &&& (75 <= percent ==> 75 <= m)
            &&& (95 <= percent ==> 95 <= m)
        },
        percent > 100 ==> milestone_for(percent) == 95,
{
}

/// Announced milestones strictly increase and are always one of the five
/// named milestones.
pub proof fn law_milestones_increase(previous: u8, percent: u8)
    ensures
        milestone_for(percent) > previous ==> ({
            let m = milestone_for(percent);
            m == 25 || m == 50 || m == 75 || m == 95 || m == 100
        }),
{
}

/// Whether a run may be submitted for rating: only Standard jobs, once the
/// completion threshold was reached.
pub fn can_submit(mode: GameMode, completion_available: bool) -> (allowed: bool)
    ensures
        allowed == (mode == GameMode::Standard && completion_available),
{
    mode == GameMode::Standard && completion_available
}

/// The facts a job's star rating is decided from.
#[derive(Clone, Copy, Debug, PartialEq, Eq, Structural)]
pub struct StarCriteria {
    /// Coverage reached the completion threshold.
    pub completed: bool,
    /// Coverage reached the three-star threshold.
    pub three_star_coverage: bool,
    /// Elapsed time is within the two-star limit.
    pub within_two_star_time: bool,
    /// Substantial collisions during the run.
    pub collisions: u32,
    /// Recoveries during the run.
    pub recoveries: u32,
    /// Most collisions a two-star run may have.
    pub two_star_max_collisions: u32,
}

/// Stars for a finished job.
pub open spec fn stars_for(c: StarCriteria) -> u8 {
    if !c.completed {
        0
    } else if c.three_star_coverage && c.collisions == 0 && c.recoveries == 0 {
        3
    } else if c.within_two_star_time && c.collisions <= c.two_star_max_collisions {
        2
    } else {
        1
    }
}

/// One to three stars for a completed job, none otherwise.
pub fn star_rating(criteria: StarCriteria) -> (stars: u8)
    ensures
        stars == stars_for(criteria),
{
    if !criteria.completed {
        0
    } else if criteria.three_star_coverage && criteria.collisions == 0 && criteria.recoveries == 0 {
        3
    } else if criteria.within_two_star_time && criteria.collisions
        <= criteria.two_star_max_collisions {
        2
    } else {
        1
    }
}

/// Completing a job always earns at least one star and at most three; an
/// incomplete job earns none; three stars require a clean, thorough run.
pub proof fn law_completion_earns_one_to_three_stars(c: StarCriteria)
    ensures
        c.completed <==> stars_for(c) >= 1,
        stars_for(c) <= 3,
        stars_for(c) == 3 ==> c.collisions == 0 && c.recoveries == 0 && c.three_star_coverage,
{
}

/// Result of a two-mower turf race.
#[derive(Clone, Copy, Debug, PartialEq, Eq, Structural)]
pub enum RaceOutcome {
    PlayerWon,
    RivalWon,
    Draw,
}

/// The race result once a mower owns more than half of the grass, or a
/// draw once all grass is owned without a majority.
pub fn race_outcome(player_majority: bool, rival_majority: bool, all_owned: bool) -> (outcome: Option<RaceOutcome>)
    ensures
        outcome == if player_majority {
            Some(RaceOutcome::PlayerWon)
        } else if rival_majority {
            Some(RaceOutcome::RivalWon)
        } else if all_owned {
            Some(RaceOutcome::Draw)
        } else {
            None::<RaceOutcome>
        },
{
    if player_majority {
        Some(RaceOutcome::PlayerWon)
    } else if rival_majority {
        Some(RaceOutcome::RivalWon)
    } else if all_owned {
        Some(RaceOutcome::Draw)
    } else {
        None
    }
}

/// The race result after one more score update: a decided race keeps its
/// result; an undecided one is decided as [`race_outcome`] says.
pub open spec fn settled_race(
    previous: Option<RaceOutcome>,
    player_majority: bool,
    rival_majority: bool,
    all_owned: bool,
) -> Option<RaceOutcome> {
    match previous {
        Some(outcome) => Some(outcome),
        None => if player_majority {
            Some(RaceOutcome::PlayerWon)
        } else if rival_majority {
            Some(RaceOutcome::RivalWon)
        } else if all_owned {
            Some(RaceOutcome::Draw)
        } else {
            None
        },
    }
}

/// Updates a race result with this frame's ownership: once decided, the
/// result never changes.
pub fn settle_race(
    previous: Option<RaceOutcome>,
    player_majority: bool,
    rival_majority: bool,
    all_owned: bool,
) -> (outcome: Option<RaceOutcome>)
    ensures
        outcome == settled_race(previous, player_majority, rival_majority, all_owned),
{
    match previous {
        Some(outcome) => Some(outcome),
        None => race_outcome(player_majority, rival_majority, all_owned),
    }
}

/// A decided race stays decided with the same result whatever the later
/// ownership, and a race that is not yet decided is decided by
/// [`race_outcome`]'s rule.
pub proof fn law_race_outcome_is_latched(
    previous: Option<RaceOutcome>,
    first: (bool, bool, bool),
    second: (bool, bool, bool),
)
    ensures
        previous is Some ==> settled_race(previous, first.0, first.1, first.2) == previous,
        settled_race(previous, first.0, first.1, first.2) is Some ==> settled_race(
            settled_race(previous, first.0, first.1, first.2),
            second.0,
            second.1,
            second.2,
        ) == settled_race(previous, first.0, first.1, first.2),
        previous is None && first.0 ==> settled_race(previous, first.0, first.1, first.2) == Some(RaceOutcome::PlayerWon),
        previous is None && !first.0 && !first.1 && !first.2 ==> settled_race(previous, first.0, first.1, first.2) is None,
{
}

} // verus!
