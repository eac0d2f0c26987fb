use std::collections::BTreeSet;

use lawn_core::planet::{GeneratorVersion, WorldSeed};
use lawn_core::profile::{
    check_profile_version, dedupe_recent_seeds, record_seed, sanitize_msaa_samples,
    sanitized_rating, toggle_favorite, NewerProfileVersion, RecordKey, PROFILE_VERSION, RECENT_SEED_LIMIT,
};

fn key(seed: u64) -> RecordKey {
    RecordKey {
        version: GeneratorVersion(2),
        seed: WorldSeed(seed),
    }
}

#[test]
fn recording_a_seed_moves_it_to_the_front_once() {
    let mut recent = vec![key(1), key(2), key(3)];
    record_seed(&mut recent, key(2));
    assert_eq!(recent, vec![key(2), key(1), key(3)]);
    record_seed(&mut recent, key(9));
    assert_eq!(recent, vec![key(9), key(2), key(1), key(3)]);
}

#[test]
fn recent_seeds_are_capped() {
    let mut recent = Vec::new();
    for seed in 0..30 {
        record_seed(&mut recent, key(seed));
    }
    assert_eq!(recent.len(), RECENT_SEED_LIMIT);
    assert_eq!(recent[0], key(29));
    assert_eq!(recent[19], key(10));
}

#[test]
fn duplicated_recent_seeds_are_repaired() {
    let mut recent = vec![key(7); 30];
    dedupe_recent_seeds(&mut recent);
    assert_eq!(recent, vec![key(7)]);
    let mut mixed = vec![key(1), key(2), key(1), key(3), key(2)];
    dedupe_recent_seeds(&mut mixed);
    assert_eq!(mixed, vec![key(1), key(2), key(3)]);
    let mut long: Vec<RecordKey> = (0..25).map(key).collect();
    dedupe_recent_seeds(&mut long);
    assert_eq!(long.len(), 20);
}

#[test]
fn toggling_a_favorite_twice_restores_it() {
    let mut favorites = BTreeSet::new();
    favorites.insert((3, u64::MAX));
    assert!(toggle_favorite(&mut favorites, GeneratorVersion(2), WorldSeed(5)));
    assert!(favorites.contains(&(2, 5)));
    assert!(!toggle_favorite(&mut favorites, GeneratorVersion(2), WorldSeed(5)));
    assert_eq!(favorites, BTreeSet::from([(3, u64::MAX)]));
}

#[test]
fn msaa_and_version_checks() {
    assert_eq!(sanitize_msaa_samples(1), 1);
    assert_eq!(sanitize_msaa_samples(2), 2);
    assert_eq!(sanitize_msaa_samples(4), 4);
    assert_eq!(sanitize_msaa_samples(8), 4);
    assert_eq!(sanitize_msaa_samples(0), 4);
    assert_eq!(check_profile_version(PROFILE_VERSION), Ok(()));
    assert_eq!(check_profile_version(0), Ok(()));
    assert_eq!(
        check_profile_version(PROFILE_VERSION + 1),
        Err(NewerProfileVersion {
            found: PROFILE_VERSION + 1,
            supported: PROFILE_VERSION
        })
    );
}

#[test]
fn saved_ratings_are_capped_at_three_stars() {
    assert_eq!(sanitized_rating(255), 3);
    assert_eq!(sanitized_rating(4), 3);
    assert_eq!(sanitized_rating(3), 3);
    assert_eq!(sanitized_rating(0), 0);
}
