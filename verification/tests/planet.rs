use lawn_core::planet::{
    current_generator_version, fnv1a, fnv1a_continue, lattice_bits, seed_from_clock, splitmix64, stage_rng, stage_seed_bytes, stream_key,
    tutorial_seed, GeneratorVersion, SeedParseError, SurfaceMaterial, WorldSeed,
};
use rand_chacha::rand_core::{RngCore, SeedableRng};
use rand_chacha::ChaCha8Rng;

#[test]
fn phrase_seeds_are_stable_and_nonempty() {
    assert_eq!(
        "cozy planet".parse::<WorldSeed>().unwrap(),
        "cozy planet".parse().unwrap()
    );
    assert!("".parse::<WorldSeed>().is_err());
}

#[test]
fn decimal_and_prefixed_hex_seeds_are_unambiguous_and_round_trip() {
    assert_eq!("10".parse::<WorldSeed>().unwrap(), WorldSeed(10));
    assert_eq!("0x10".parse::<WorldSeed>().unwrap(), WorldSeed(16));
    let seed = WorldSeed(0x1234_5678_90AB_CDEF);
    assert_eq!(seed.to_string().parse::<WorldSeed>().unwrap(), seed);
}

#[test]
fn seed_text_is_zero_padded_upper_case_hex() {
    assert_eq!(WorldSeed(0).to_string(), "0x0000000000000000");
    assert_eq!(WorldSeed(0x1234_5678_90AB_CDEF).to_string(), "0x1234567890ABCDEF");
    assert_eq!(WorldSeed(u64::MAX).to_string(), "0xFFFFFFFFFFFFFFFF");
    for value in [0, 1, 42, 0xC0FF_EE42, u64::MAX - 1, u64::MAX] {
        assert_eq!(WorldSeed::parse(&WorldSeed(value).to_string()), Ok(WorldSeed(value)));
    }
}

#[test]
fn seed_text_edge_cases() {
    assert_eq!(WorldSeed::parse("   "), Err(SeedParseError));
    assert_eq!(WorldSeed::parse("\t 42 \n"), Ok(WorldSeed(42)));
    assert_eq!(WorldSeed::parse("0XfF"), Ok(WorldSeed(255)));
    assert_eq!(WorldSeed::parse("0x+ff"), Ok(WorldSeed(255)));
    assert_eq!(WorldSeed::parse("+7"), Ok(WorldSeed(7)));
    assert_eq!(WorldSeed::parse("0x"), Err(SeedParseError));
    assert_eq!(WorldSeed::parse("0xg"), Err(SeedParseError));
    assert_eq!(WorldSeed::parse("0x1_0000_0000_0000_0000"), Err(SeedParseError));
    assert_eq!(WorldSeed::parse("0x10000000000000000"), Err(SeedParseError));
    assert_eq!(
        WorldSeed::parse("18446744073709551615"),
        Ok(WorldSeed(u64::MAX))
    );
    // Too large for a u64: read as a phrase instead.
    assert_eq!(
        WorldSeed::parse("18446744073709551616"),
        Ok(WorldSeed(fnv1a(b"18446744073709551616")))
    );
    assert_eq!(WorldSeed::parse("+"), Ok(WorldSeed(fnv1a(b"+"))));
    assert_eq!(WorldSeed::parse("-5"), Ok(WorldSeed(fnv1a(b"-5"))));
    assert_eq!(
        WorldSeed::parse("\u{3000}cozy planet\u{a0}"),
        Ok(WorldSeed(fnv1a("cozy planet".as_bytes())))
    );
    assert_eq!(
        WorldSeed::parse("mowed lawn ✂"),
        Ok(WorldSeed(fnv1a("mowed lawn ✂".as_bytes())))
    );
}

#[test]
fn fnv1a_matches_reference_values() {
    assert_eq!(fnv1a(b""), 0xcbf2_9ce4_8422_2325);
    assert_eq!(fnv1a(b"a"), 0xaf63_dc4c_8601_ec8c);
    assert_eq!(fnv1a(b"foobar"), 0x85944171f73967e8);
}

#[test]
fn splitmix64_matches_reference_values() {
    assert_eq!(splitmix64(0), 0xe220_a839_7b1d_cdaf);
    assert_eq!(splitmix64(0xe220_a839_7b1d_cdaf) != splitmix64(0), true);
}

fn reference_stream_key(version: GeneratorVersion, seed: WorldSeed, attempt: u32, stage: u64) -> u64 {
    splitmix64(
        seed.0
            ^ u64::from(version.0).rotate_left(17)
            ^ u64::from(attempt).rotate_left(33)
            ^ stage.wrapping_mul(0xD6E8_FEB8_6659_FD93),
    )
}

#[test]
fn stream_keys_and_stage_seeds_are_keyed_by_every_input() {
    let version = current_generator_version();
    assert_eq!(version, GeneratorVersion(2));
    for attempt in [0, 1, 7, u32::MAX] {
        for stage in [1, 2, 3, 10, 11] {
            let seed = WorldSeed(0xA17C_9E37_5EED_1234);
            assert_eq!(
                stream_key(version, seed, attempt, stage),
                reference_stream_key(version, seed, attempt, stage)
            );
        }
    }
    let key = stream_key(version, WorldSeed(7), 0, 1);
    let bytes = stage_seed_bytes(version, WorldSeed(7), 0, 1);
    let mut value = key;
    let mut expected = [0_u8; 32];
    for chunk in expected.chunks_exact_mut(8) {
        value = splitmix64(value);
        chunk.copy_from_slice(&value.to_le_bytes());
    }
    assert_eq!(bytes, expected);
    assert_ne!(stage_seed_bytes(version, WorldSeed(7), 0, 2), bytes);
    assert_ne!(stage_seed_bytes(version, WorldSeed(8), 0, 1), bytes);
}

#[test]
fn fixed_identities() {
    assert_eq!(tutorial_seed(), WorldSeed(0x4c41_574e_4f52_4249));
    assert_eq!(WorldSeed::default(), WorldSeed(0));
    assert_eq!(SurfaceMaterial::default(), SurfaceMaterial::Grass);
}

#[test]
fn stage_generators_are_seeded_by_their_stage_seed() {
    let version = current_generator_version();
    let rng = stage_rng(version, WorldSeed(7), 0, 1);
    assert_eq!(rng, ChaCha8Rng::from_seed(stage_seed_bytes(version, WorldSeed(7), 0, 1)));
    let mut first = stage_rng(version, WorldSeed(7), 0, 1);
    let mut again = stage_rng(version, WorldSeed(7), 0, 1);
    let mut other = stage_rng(version, WorldSeed(7), 0, 2);
    let a: Vec<u64> = (0..4).map(|_| first.next_u64()).collect();
    let b: Vec<u64> = (0..4).map(|_| again.next_u64()).collect();
    let c: Vec<u64> = (0..4).map(|_| other.next_u64()).collect();
    assert_eq!(a, b);
    assert_ne!(a, c);
}

fn reference_lattice_bits(x: i32, y: i32, z: i32, seed: u64) -> u32 {
    let mut hash = seed;
    hash ^= (i64::from(x) as u64).wrapping_mul(0x9E37_79B9_7F4A_7C15);
    hash = splitmix64(hash ^ (i64::from(y) as u64).rotate_left(21));
    hash = splitmix64(hash ^ (i64::from(z) as u64).rotate_left(42));
    (hash >> 40) as u32
}

#[test]
fn lattice_bits_hash_every_coordinate() {
    for (x, y, z) in [(0, 0, 0), (-1, 2, -3), (i32::MIN, i32::MAX, 7), (5, -5, 5)] {
        for seed in [0, 1, u64::MAX] {
            let bits = lattice_bits(x, y, z, seed);
            assert_eq!(bits, reference_lattice_bits(x, y, z, seed));
            assert!(bits < 1 << 24);
        }
    }
    assert_ne!(lattice_bits(1, 0, 0, 9), lattice_bits(0, 1, 0, 9));
    assert_ne!(lattice_bits(0, 0, 1, 9), lattice_bits(0, 0, 1, 10));
}

#[test]
fn hashing_in_pieces_is_hashing_the_whole() {
    let whole = b"cozy planet";
    let (first, rest) = whole.split_at(4);
    assert_eq!(fnv1a_continue(fnv1a(first), rest), fnv1a(whole));
    assert_eq!(fnv1a_continue(0xcbf2_9ce4_8422_2325, whole), fnv1a(whole));
    assert_eq!(fnv1a_continue(7, &[]), 7);
    assert_ne!(fnv1a_continue(7, b"a"), 7);
}

#[test]
fn clock_seeds_mix_both_halves_of_the_count() {
    assert_eq!(seed_from_clock(0), WorldSeed(0xA17C_9E37_5EED_1234));
    assert_eq!(seed_from_clock(1), WorldSeed(0xA17C_9E37_5EED_1235));
    assert_eq!(seed_from_clock(1 << 64), WorldSeed(0xA17C_9E37_5EED_1235));
    assert_eq!(seed_from_clock((1 << 64) | 1), WorldSeed(0xA17C_9E37_5EED_1234));
}
