use lawn_core::run::{
    can_submit, coverage_milestone, milestone_reached, next_tutorial_stage, race_outcome,
    settle_race, star_rating, update_tutorial, GameMode, RaceOutcome, StarCriteria,
    TutorialFacts, TutorialStage, TutorialTick,
};

fn quiet() -> TutorialFacts {
    TutorialFacts {
        moving: false,
        cut_noticed: false,
        stage_shown_long_enough: false,
        boosting: false,
        boost_enabled: true,
        fully_mowable: false,
        locator_reached: false,
        stuck: false,
        hit_rock: false,
        recovered: false,
        completion_available: false,
        free_mow: false,
    }
}

#[test]
fn sandbox_tutorial_finishes_without_a_submission_step() {
    let facts = TutorialFacts {
        completion_available: true,
        free_mow: true,
        ..quiet()
    };
    assert_eq!(
        next_tutorial_stage(TutorialStage::Locator, facts),
        Some(TutorialStage::Complete)
    );
}

#[test]
fn contextual_tutorial_prompts_wait_for_their_conditions() {
    let noticed = TutorialFacts {
        cut_noticed: true,
        ..quiet()
    };
    assert_eq!(next_tutorial_stage(TutorialStage::NoticeMowing, noticed), None);
    let shown = TutorialFacts {
        stage_shown_long_enough: true,
        ..noticed
    };
    assert_eq!(
        next_tutorial_stage(TutorialStage::NoticeMowing, shown),
        Some(TutorialStage::Boost)
    );
    assert_eq!(next_tutorial_stage(TutorialStage::Locator, quiet()), None);
    let complete = TutorialFacts {
        completion_available: true,
        ..quiet()
    };
    assert_eq!(
        next_tutorial_stage(TutorialStage::Locator, complete),
        Some(TutorialStage::Submit)
    );
    assert_eq!(next_tutorial_stage(TutorialStage::Submit, complete), None);
}

#[test]
fn recovery_instruction_is_an_optional_stuck_branch() {
    let stuck = TutorialFacts {
        stuck: true,
        ..quiet()
    };
    assert_eq!(
        next_tutorial_stage(TutorialStage::WaitForLocator, stuck),
        Some(TutorialStage::Recovery)
    );
    let recovered = TutorialFacts {
        recovered: true,
        ..quiet()
    };
    assert_eq!(
        next_tutorial_stage(TutorialStage::Recovery, recovered),
        Some(TutorialStage::WaitForLocator)
    );
}

#[test]
fn boost_and_rock_stages_branch_on_the_planet() {
    let disabled = TutorialFacts {
        boost_enabled: false,
        ..quiet()
    };
    assert_eq!(
        next_tutorial_stage(TutorialStage::Boost, disabled),
        Some(TutorialStage::Rock)
    );
    let smooth = TutorialFacts {
        boosting: true,
        fully_mowable: true,
        ..quiet()
    };
    assert_eq!(
        next_tutorial_stage(TutorialStage::Boost, smooth),
        Some(TutorialStage::WaitForLocator)
    );
    let scraped = TutorialFacts {
        hit_rock: true,
        ..quiet()
    };
    assert_eq!(
        next_tutorial_stage(TutorialStage::Rock, scraped),
        Some(TutorialStage::WaitForLocator)
    );
    assert_eq!(next_tutorial_stage(TutorialStage::WaitForLocator, scraped), None);
    let moving = TutorialFacts {
        moving: true,
        ..quiet()
    };
    assert_eq!(
        next_tutorial_stage(TutorialStage::Drive, moving),
        Some(TutorialStage::NoticeMowing)
    );
}

#[test]
fn prompts_exist_for_instruction_stages_only() {
    assert_eq!(
        TutorialStage::Drive.prompt(),
        Some("Move in any direction to begin mowing")
    );
    assert_eq!(
        TutorialStage::Rock.prompt(),
        Some("Rock cannot be mowed—route around steep faces")
    );
    assert_eq!(TutorialStage::WaitForLocator.prompt(), None);
    assert_eq!(TutorialStage::Complete.prompt(), None);
    assert_eq!(TutorialStage::default(), TutorialStage::Drive);
}

#[test]
fn milestones_are_announced_once_in_increasing_order() {
    assert_eq!(coverage_milestone(0), 0);
    assert_eq!(coverage_milestone(24), 0);
    assert_eq!(coverage_milestone(25), 25);
    assert_eq!(coverage_milestone(74), 50);
    assert_eq!(coverage_milestone(99), 95);
    assert_eq!(coverage_milestone(100), 100);
    assert_eq!(milestone_reached(0, 30), Some(25));
    assert_eq!(milestone_reached(25, 49), None);
    assert_eq!(milestone_reached(50, 100), Some(100));
    assert_eq!(milestone_reached(100, 100), None);
}

fn criteria() -> StarCriteria {
    StarCriteria {
        completed: true,
        three_star_coverage: true,
        within_two_star_time: true,
        collisions: 0,
        recoveries: 0,
        two_star_max_collisions: 2,
    }
}

#[test]
fn completion_always_awards_at_least_one_star() {
    // 10 000 s, 98% coverage (the completion threshold), 20 collisions, 3 recoveries.
    let slow = StarCriteria {
        completed: true,
        three_star_coverage: false,
        within_two_star_time: false,
        collisions: 20,
        recoveries: 3,
        two_star_max_collisions: 2,
    };
    assert_eq!(star_rating(slow), 1);
}

#[test]
fn strict_three_star_rules_are_separate_and_visible() {
    // 700 s at 99.7% coverage with no collisions and no recoveries.
    let clean = StarCriteria {
        completed: true,
        three_star_coverage: true,
        within_two_star_time: false,
        collisions: 0,
        recoveries: 0,
        two_star_max_collisions: 2,
    };
    assert_eq!(star_rating(clean), 3);
}

#[test]
fn star_tiers_follow_control_and_time() {
    assert_eq!(star_rating(criteria()), 3);
    assert_eq!(star_rating(StarCriteria { collisions: 2, ..criteria() }), 2);
    assert_eq!(star_rating(StarCriteria { recoveries: 1, ..criteria() }), 2);
    assert_eq!(star_rating(StarCriteria { collisions: 3, ..criteria() }), 1);
    assert_eq!(
        star_rating(StarCriteria { collisions: 1, within_two_star_time: false, ..criteria() }),
        1
    );
    assert_eq!(star_rating(StarCriteria { completed: false, ..criteria() }), 0);
}

#[test]
fn only_completed_standard_jobs_are_submitted() {
    assert!(can_submit(GameMode::Standard, true));
    assert!(!can_submit(GameMode::Standard, false));
    assert!(!can_submit(GameMode::FreeMow, true));
    assert_eq!(GameMode::default(), GameMode::Standard);
}

#[test]
fn race_majority_wins_before_a_draw() {
    assert_eq!(race_outcome(true, false, true), Some(RaceOutcome::PlayerWon));
    assert_eq!(race_outcome(false, true, false), Some(RaceOutcome::RivalWon));
    assert_eq!(race_outcome(false, false, true), Some(RaceOutcome::Draw));
    assert_eq!(race_outcome(false, false, false), None);
}

#[test]
fn contextual_tutorial_prompts_cannot_be_skipped_within_one_render_frame() {
    // Grass is cut, but the mowing prompt has not been shown long enough.
    let cut_early = TutorialFacts {
        cut_noticed: true,
        ..quiet()
    };
    assert_eq!(next_tutorial_stage(TutorialStage::NoticeMowing, cut_early), None);
    let cut_later = TutorialFacts {
        cut_noticed: true,
        stage_shown_long_enough: true,
        ..quiet()
    };
    assert_eq!(
        next_tutorial_stage(TutorialStage::NoticeMowing, cut_later),
        Some(TutorialStage::Boost)
    );
    // The locator prompt waits for completion, then asks to submit, once.
    assert_eq!(next_tutorial_stage(TutorialStage::Locator, quiet()), None);
    let complete = TutorialFacts {
        completion_available: true,
        ..quiet()
    };
    assert_eq!(
        next_tutorial_stage(TutorialStage::Locator, complete),
        Some(TutorialStage::Submit)
    );
    assert_eq!(next_tutorial_stage(TutorialStage::Submit, complete), None);
}

#[test]
fn tutorial_ticks_report_each_advance_once() {
    let moving = TutorialFacts {
        moving: true,
        ..quiet()
    };
    assert_eq!(
        update_tutorial(true, TutorialStage::Drive, moving),
        TutorialTick {
            stage: TutorialStage::NoticeMowing,
            advanced: Some(TutorialStage::NoticeMowing),
        }
    );
    assert_eq!(
        update_tutorial(true, TutorialStage::NoticeMowing, moving),
        TutorialTick {
            stage: TutorialStage::NoticeMowing,
            advanced: None,
        }
    );
    assert_eq!(
        update_tutorial(false, TutorialStage::Drive, moving),
        TutorialTick {
            stage: TutorialStage::Drive,
            advanced: None,
        }
    );
    let done = TutorialFacts {
        completion_available: true,
        free_mow: true,
        ..quiet()
    };
    assert_eq!(
        update_tutorial(true, TutorialStage::Complete, done),
        TutorialTick {
            stage: TutorialStage::Complete,
            advanced: None,
        }
    );
}

#[test]
fn a_decided_race_keeps_its_result() {
    assert_eq!(settle_race(None, false, false, false), None);
    assert_eq!(settle_race(None, false, true, false), Some(RaceOutcome::RivalWon));
    assert_eq!(settle_race(None, false, false, true), Some(RaceOutcome::Draw));
    let decided = settle_race(None, true, false, false);
    assert_eq!(decided, Some(RaceOutcome::PlayerWon));
    assert_eq!(settle_race(decided, false, true, true), Some(RaceOutcome::PlayerWon));
    assert_eq!(
        settle_race(Some(RaceOutcome::Draw), true, false, false),
        Some(RaceOutcome::Draw)
    );
}
