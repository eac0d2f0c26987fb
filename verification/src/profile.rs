//! Versioned local profile rules: the recent-seed list, favorites, and the
//! integer settings that profile migration repairs.

use vstd::prelude::*;
use std::collections::BTreeSet;
use crate::planet::{GeneratorVersion, WorldSeed};
use crate::input::{default_bindings, migrated_bindings, law_migration_is_idempotent_and_complete, Action, BindingView};

verus! {

broadcast use vstd::laws_cmp::group_laws_cmp;

/// Version of the profile format written by this build.
pub const PROFILE_VERSION: u32 = 5;

/// Most recent seeds kept in a profile.
pub const RECENT_SEED_LIMIT: usize = 20;

/// Rendering quality preset.
#[derive(Clone, Copy, Debug, PartialEq, Eq, Structural)]
pub enum QualityPreset {
    Low,
    Standard,
    High,
}

/// Identity of a world for records: generator version and seed.
#[derive(Clone, Copy, Debug, PartialEq, Eq, Hash, Structural)]
pub struct RecordKey {
    pub version: GeneratorVersion,
    pub seed: WorldSeed,
}

/// `s` with every occurrence of `key` removed, order kept.
pub open spec fn without(s: Seq<RecordKey>, key: RecordKey) -> Seq<RecordKey>
    decreases s.len(),
{
    if s.len() == 0 {
        s
    } else if s.last() == key {
        without(s.drop_last(), key)
    } else {
        without(s.drop_last(), key).push(s.last())
    }
}

/// At most the first `RECENT_SEED_LIMIT` entries of `s`.
pub open spec fn capped(s: Seq<RecordKey>) -> Seq<RecordKey> {
    if s.len() > RECENT_SEED_LIMIT {
        s.take(RECENT_SEED_LIMIT as int)
    } else {
        s
    }
}

/// The recent-seed list after playing `key`: `key` moves to the front, any
/// older entry for it is dropped, and the list keeps at most 20 entries.
pub open spec fn recent_after_playing(recent: Seq<RecordKey>, key: RecordKey) -> Seq<RecordKey> {
    capped(seq![key] + without(recent, key))
}

/// `s` with only the first occurrence of each key kept, order kept.
pub open spec fn first_occurrences(s: Seq<RecordKey>) -> Seq<RecordKey>
    decreases s.len(),
{
    if s.len() == 0 {
        s
    } else if first_occurrences(s.drop_last()).contains(s.last()) {
        first_occurrences(s.drop_last())
    } else {
        first_occurrences(s.drop_last()).push(s.last())
    }
}

/// Whether no key occurs twice.
pub open spec fn no_duplicates(s: Seq<RecordKey>) -> bool {
    forall|i: int, j: int| 0 <= i < j < s.len() ==> s[i] != s[j]
}

proof fn lemma_without_facts(s: Seq<RecordKey>, key: RecordKey)
    ensures
        !without(s, key).contains(key),
        without(s, key).len() <= s.len(),
        forall|k: RecordKey| #[trigger] without(s, key).contains(k) ==> s.contains(k),
        no_duplicates(s) ==> no_duplicates(without(s, key)),
    decreases s.len(),
{
    if s.len() > 0 {
        let rest = s.drop_last();
        lemma_without_facts(rest, key);
        assert forall|k: RecordKey| #[trigger] without(s, key).contains(k) implies s.contains(k) by {
            if without(rest, key).contains(k) {
                let i = choose|i: int| 0 <= i < rest.len() && rest[i] == k;
                assert(s[i] == k);
            } else {
                assert(k == s.last());
                assert(s[s.len() - 1] == k);
            }
        }
        if no_duplicates(s) && s.last() != key {
            assert(no_duplicates(rest)) by {
                assert forall|i: int, j: int| 0 <= i < j < rest.len() implies rest[i] != rest[j] by {
                    assert(rest[i] == s[i] && rest[j] == s[j]);
                }
            }
            assert(!rest.contains(s.last())) by {
                if rest.contains(s.last()) {
                    let i = choose|i: int| 0 <= i < rest.len() && rest[i] == s.last();
                    assert(s[i] == s[s.len() - 1]);
                }
            }
            assert(!without(rest, key).contains(s.last()));
        }
        if no_duplicates(s) && s.last() == key {
            assert(no_duplicates(rest)) by {
                assert forall|i: int, j: int| 0 <= i < j < rest.len() implies rest[i] != rest[j] by {
                    assert(rest[i] == s[i] && rest[j] == s[j]);
                }
            }
        }
    }
}

proof fn lemma_first_occurrences_facts(s: Seq<RecordKey>)
    ensures
        no_duplicates(first_occurrences(s)),
        first_occurrences(s).len() <= s.len(),
        forall|k: RecordKey| #[trigger] s.contains(k) <==> first_occurrences(s).contains(k),
    decreases s.len(),
{
    if s.len() > 0 {
        let rest = s.drop_last();
        let last = s.last();
        let fr = first_occurrences(rest);
        lemma_first_occurrences_facts(rest);
        assert forall|k: RecordKey| #[trigger] s.contains(k) <==> (rest.contains(k) || k == last) by {
            if s.contains(k) {
                let i = choose|i: int| 0 <= i < s.len() && s[i] == k;
                if i < s.len() - 1 {
                    assert(rest[i] == k);
                }
            }
            if rest.contains(k) {
                let i = choose|i: int| 0 <= i < rest.len() && rest[i] == k;
                assert(s[i] == k);
            }
            if k == last {
                assert(s[s.len() - 1] == k);
            }
        }
        if !fr.contains(last) {
            let pushed = fr.push(last);
            assert forall|k: RecordKey| #[trigger] pushed.contains(k) <==> (fr.contains(k) || k == last) by {
                if pushed.contains(k) {
                    let i = choose|i: int| 0 <= i < pushed.len() && pushed[i] == k;
                    if i < fr.len() {
                        assert(fr[i] == k);
                    }
                }
                if fr.contains(k) {
                    let i = choose|i: int| 0 <= i < fr.len() && fr[i] == k;
                    assert(pushed[i] == k);
                }
                if k == last {
                    assert(pushed[fr.len() as int] == k);
                }
            }
            assert forall|i: int, j: int| 0 <= i < j < pushed.len() implies pushed[i] != pushed[j] by {
                if j == fr.len() {
                    assert(pushed[i] == fr[i]);
                    assert(fr.contains(fr[i]));
                } else {
                    assert(pushed[i] == fr[i] && pushed[j] == fr[j]);
                }
            }
        }
    }
}

/// Records that `key` was played most recently; see [`recent_after_playing`].
pub fn record_seed(recent: &mut Vec<RecordKey>, key: RecordKey)
    ensures
        final(recent)@ == recent_after_playing(old(recent)@, key),
{
    let ghost initial = recent@;
    let mut updated: Vec<RecordKey> = Vec::new();
    updated.push(key);
    let mut i: usize = 0;
    while i < recent.len()
        invariant
            recent@ == initial,
            i <= recent@.len(),
            updated@ == seq![key] + without(initial.take(i as int), key),
        decreases recent@.len() - i,
    {
        let entry = recent[i];
        assert(initial.take(i + 1).drop_last() == initial.take(i as int));
        if entry != key {
            updated.push(entry);
        }
        i = i + 1;
    }
    assert(initial.take(initial.len() as int) == initial);
    if updated.len() > RECENT_SEED_LIMIT {
        updated.truncate(RECENT_SEED_LIMIT);
    }
    *recent = updated;
}

/// Drops repeated recent-seed entries (keeping each key's first, most recent
/// occurrence) and caps the list at 20 entries.
pub fn dedupe_recent_seeds(recent: &mut Vec<RecordKey>)
    ensures
        final(recent)@ == capped(first_occurrences(old(recent)@)),
{
    let ghost initial = recent@;
    let mut kept: Vec<RecordKey> = Vec::new();
    let mut i: usize = 0;
    while i < recent.len()
        invariant
            recent@ == initial,
            i <= recent@.len(),
            kept@ == first_occurrences(initial.take(i as int)),
        decreases recent@.len() - i,
    {
        let entry = recent[i];
        assert(initial.take(i + 1).drop_last() == initial.take(i as int));
        let mut seen = false;
        let mut j: usize = 0;
        while j < kept.len()
            invariant
                j <= kept@.len(),
                seen <==> exists|t: int| 0 <= t < j && kept@[t] == entry,
            decreases kept@.len() - j,
        {
            if kept[j] == entry {
                seen = true;
            }
            j = j + 1;
        }
        assert(seen == kept@.contains(entry));
        if !seen {
            kept.push(entry);
        }
        i = i + 1;
    }
    assert(initial.take(initial.len() as int) == initial);
    if kept.len() > RECENT_SEED_LIMIT {
        kept.truncate(RECENT_SEED_LIMIT);
    }
    *recent = kept;
}

/// Playing a seed puts it first, keeps it unique, keeps the list within its
/// limit, and keeps a duplicate-free list duplicate-free.
pub proof fn law_recent_seeds_stay_unique_and_bounded(recent: Seq<RecordKey>, key: RecordKey)
    ensures
        recent_after_playing(recent, key)[0] == key,
        recent_after_playing(recent, key).len() <= RECENT_SEED_LIMIT,
        recent_after_playing(recent, key).len() >= 1,
        no_duplicates(recent) ==> no_duplicates(recent_after_playing(recent, key)),
{
    lemma_without_facts(recent, key);
    let all = seq![key] + without(recent, key);
    assert(all[0] == key);
    if no_duplicates(recent) {
        assert(no_duplicates(all)) by {
            assert forall|i: int, j: int| 0 <= i < j < all.len() implies all[i] != all[j] by {
                if i == 0 {
                    assert(all[j] == without(recent, key)[j - 1]);
                    assert(without(recent, key).contains(all[j]));
                } else {
                    assert(all[i] == without(recent, key)[i - 1]);
                    assert(all[j] == without(recent, key)[j - 1]);
                }
            }
        }
        if all.len() > RECENT_SEED_LIMIT {
            let c = all.take(RECENT_SEED_LIMIT as int);
            assert forall|i: int, j: int| 0 <= i < j < c.len() implies c[i] != c[j] by {
                assert(c[i] == all[i] && c[j] == all[j]);
            }
        }
    }
}

/// Deduplication leaves no repeated key and never lengthens the list.
pub proof fn law_dedupe_removes_all_repeats(recent: Seq<RecordKey>)
    ensures
        no_duplicates(capped(first_occurrences(recent))),
        capped(first_occurrences(recent)).len() <= RECENT_SEED_LIMIT,
        capped(first_occurrences(recent)).len() <= recent.len(),
{
    lemma_first_occurrences_facts(recent);
    let d = first_occurrences(recent);
    if d.len() > RECENT_SEED_LIMIT {
        let c = d.take(RECENT_SEED_LIMIT as int);
        assert forall|i: int, j: int| 0 <= i < j < c.len() implies c[i] != c[j] by {
            assert(c[i] == d[i] && c[j] == d[j]);
        }
    }
}

/// Adds the world to the favorites, or removes it if it was a favorite.
/// Returns whether it is a favorite afterwards.
pub fn toggle_favorite(favorites: &mut BTreeSet<(u32, u64)>, version: GeneratorVersion, seed: WorldSeed) -> (favorite: bool)
    ensures
        favorite == !old(favorites)@.contains((version.0, seed.0)),
        final(favorites)@ == if favorite {
            old(favorites)@.insert((version.0, seed.0))
        } else {
            old(favorites)@.remove((version.0, seed.0))
        },
{
    let key = (version.0, seed.0);
    if favorites.remove(&key) {
        false
    } else {
        favorites.insert(key);
        true
    }
}

/// Toggling a favorite twice restores the favorites.
pub proof fn law_favorite_toggle_is_an_involution(favorites: Set<(u32, u64)>, key: (u32, u64))
    ensures
        ({
            let once = if favorites.contains(key) {
                favorites.remove(key)
            } else {
                favorites.insert(key)
            };
            let twice = if once.contains(key) {
                once.remove(key)
            } else {
                once.insert(key)
            };
            twice == favorites
        }),
{
    let once = if favorites.contains(key) {
        favorites.remove(key)
    } else {
        favorites.insert(key)
    };
    let twice = if once.contains(key) {
        once.remove(key)
    } else {
        once.insert(key)
    };
    assert(twice =~= favorites);
}

/// Multisample count of a profile: 1, 2, and 4 are kept; anything else
/// becomes the default, 4.
pub open spec fn msaa_samples_after_repair(samples: u32) -> u32 {
    if samples == 1 || samples == 2 || samples == 4 {
        samples
    } else {
        4
    }
}

/// A saved star rating after repair: at most three stars.
pub open spec fn rating_after_repair(rating: u8) -> u8 {
    if rating > 3 {
        3
    } else {
        rating
    }
}

/// Multisample count of a profile: 1, 2, and 4 are kept; anything else
/// becomes the default, 4.
pub fn sanitize_msaa_samples(samples: u32) -> (sanitized: u32)
    ensures
        sanitized == msaa_samples_after_repair(samples),
{
    if samples == 1 || samples == 2 || samples == 4 {
        samples
    } else {
        4
    }
}

/// A saved star rating: at most three stars.
pub fn sanitized_rating(rating: u8) -> (sanitized: u8)
    ensures
        sanitized == rating_after_repair(rating),
{
    if rating > 3 {
        3
    } else {
        rating
    }
}

proof fn lemma_unique_lists_are_their_first_occurrences(s: Seq<RecordKey>)
    requires
        no_duplicates(s),
    ensures
        first_occurrences(s) == s,
    decreases s.len(),
{
    if s.len() > 0 {
        let rest = s.drop_last();
        assert(no_duplicates(rest)) by {
            assert forall|i: int, j: int| 0 <= i < j < rest.len() implies rest[i] != rest[j] by {
                assert(rest[i] == s[i] && rest[j] == s[j]);
            }
        }
        lemma_unique_lists_are_their_first_occurrences(rest);
        assert(!rest.contains(s.last())) by {
            if rest.contains(s.last()) {
                let i = choose|i: int| 0 <= i < rest.len() && rest[i] == s.last();
                assert(s[i] == s[s.len() - 1]);
            }
        }
        assert(rest.push(s.last()) =~= s);
    }
}

/// Repairing a loaded profile's integer settings is sound and idempotent:
/// afterwards the retired `ToggleMower` action is unbound and every action
/// with a default is bound, the multisample count is 1, 2 or 4, the recent
/// seeds hold at most 20 distinct keys, and a record rating is at most three
/// stars; repairing the repaired values again changes none of them.
pub proof fn law_profile_repair_is_sound_and_idempotent(
    bindings: Map<Action, Seq<BindingView>>,
    samples: u32,
    recent: Seq<RecordKey>,
    rating: u8,
    action: Action,
)
    ensures
        !migrated_bindings(bindings).contains_key(Action::ToggleMower),
        default_bindings().contains_key(action) ==> migrated_bindings(bindings).contains_key(action),
        migrated_bindings(migrated_bindings(bindings)) == migrated_bindings(bindings),
        msaa_samples_after_repair(samples) == 1 || msaa_samples_after_repair(samples) == 2
            || msaa_samples_after_repair(samples) == 4,
        msaa_samples_after_repair(msaa_samples_after_repair(samples)) == msaa_samples_after_repair(samples),
        no_duplicates(capped(first_occurrences(recent))),
        capped(first_occurrences(recent)).len() <= RECENT_SEED_LIMIT,
        capped(first_occurrences(capped(first_occurrences(recent)))) == capped(first_occurrences(recent)),
        rating_after_repair(rating) <= 3,
        rating_after_repair(rating_after_repair(rating)) == rating_after_repair(rating),
{
    law_migration_is_idempotent_and_complete(bindings, action);
    law_dedupe_removes_all_repeats(recent);
    let once = capped(first_occurrences(recent));
    lemma_unique_lists_are_their_first_occurrences(once);
}

/// A profile written by a newer build than this one.
#[derive(Clone, Copy, Debug, PartialEq, Eq, Structural)]
pub struct NewerProfileVersion {
    pub found: u32,
    pub supported: u32,
}

/// Accepts profiles of this build's format version or older.
pub fn check_profile_version(version: u32) -> (result: Result<(), NewerProfileVersion>)
    ensures
        result == if version > PROFILE_VERSION {
            Err::<(), NewerProfileVersion>(NewerProfileVersion { found: version, supported: PROFILE_VERSION })
        } else {
            Ok::<(), NewerProfileVersion>(())
        },
{
    if version > PROFILE_VERSION {
        Err(NewerProfileVersion { found: version, supported: PROFILE_VERSION })
    } else {
        Ok(())
    }
}

} // verus!
