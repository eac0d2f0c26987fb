//! Planet identity: generator versions, world seeds, the seed text format,
//! the deterministic integer streams and random generators that every
//! generation stage is keyed by, and the hashing behind value noise and the
//! planet fingerprint.

use vstd::prelude::*;
use vstd::utf8::encode_utf8;
use crate::text::chars_of;

verus! {

/// Version of the deterministic planet generator.
#[derive(Clone, Copy, Debug, PartialEq, Eq, Hash, Structural)]
pub struct GeneratorVersion(pub u32);

/// A 64-bit world seed.
#[derive(Clone, Copy, Debug, PartialEq, Eq, Hash, Structural)]
pub struct WorldSeed(pub u64);

impl Default for GeneratorVersion {
    fn default() -> (version: Self)
        ensures
            version.0 == 0,
    {
        GeneratorVersion(0)
    }
}

impl Default for WorldSeed {
    fn default() -> (seed: Self)
        ensures
            seed.0 == 0,
    {
        WorldSeed(0)
    }
}

/// The generator version that new worlds are created with.
pub fn current_generator_version() -> (version: GeneratorVersion)
    ensures
        version.0 == 2,
{
    GeneratorVersion(2)
}

/// The fixed seed of the first-play tutorial world.
pub fn tutorial_seed() -> (seed: WorldSeed)
    ensures
        seed.0 == 0x4c41_574e_4f52_4249,
{
    WorldSeed(0x4c41_574e_4f52_4249)
}

/// Seed text that is empty (or only whitespace), or a malformed `0x` number.
#[derive(Clone, Copy, Debug, PartialEq, Eq, Structural)]
pub struct SeedParseError;

/// Surface classification of a terrain cell.
#[derive(Clone, Copy, Debug, PartialEq, Eq, Structural)]
pub enum SurfaceMaterial {
    Grass,
    Rock,
}

impl Default for SurfaceMaterial {
    fn default() -> (material: Self)
        ensures
            material == SurfaceMaterial::Grass,
    {
        SurfaceMaterial::Grass
    }
}

// ---------------------------------------------------------------------------
// Integer mixing functions.
// ---------------------------------------------------------------------------

/// One step of the SplitMix64 generator, with 64-bit wrapping arithmetic.
pub open spec fn spec_splitmix64(value: u64) -> u64 {
    let a = value.wrapping_add(0x9E37_79B9_7F4A_7C15);
    let b = (a ^ (a >> 30u64)).wrapping_mul(0xBF58_476D_1CE4_E5B9);
    let c = (b ^ (b >> 27u64)).wrapping_mul(0x94D0_49BB_1331_11EB);
    c ^ (c >> 31u64)
}

/// SplitMix64 finalizer used to derive every independent random stream.
pub fn splitmix64(value: u64) -> (mixed: u64)
    ensures
        mixed == spec_splitmix64(value),
{
    let a = value.wrapping_add(0x9E37_79B9_7F4A_7C15);
    let b = (a ^ (a >> 30u64)).wrapping_mul(0xBF58_476D_1CE4_E5B9);
    let c = (b ^ (b >> 27u64)).wrapping_mul(0x94D0_49BB_1331_11EB);
    c ^ (c >> 31u64)
}

/// Bitwise left rotation of a 64-bit word by `amount` (0 < amount < 64).
pub open spec fn spec_rotate_left(value: u64, amount: u64) -> u64
    recommends
        0 < amount < 64,
{
    (value << amount) | (value >> (64 - amount) as u64)
}

fn rotate_left(value: u64, amount: u64) -> (rotated: u64)
    requires
        0 < amount < 64,
    ensures
        rotated == spec_rotate_left(value, amount),
{
    (value << amount) | (value >> (64 - amount))
}

/// Key of the random stream for one generation stage of one attempt.
pub open spec fn spec_stream_key(version: GeneratorVersion, seed: WorldSeed, attempt: u32, stage: u64) -> u64 {
    spec_splitmix64(
        seed.0 ^ spec_rotate_left(version.0 as u64, 17) ^ spec_rotate_left(attempt as u64, 33)
            ^ stage.wrapping_mul(0xD6E8_FEB8_6659_FD93),
    )
}

/// Derives the key of an independent random stream for a generation stage.
pub fn stream_key(version: GeneratorVersion, seed: WorldSeed, attempt: u32, stage: u64) -> (key: u64)
    ensures
        key == spec_stream_key(version, seed, attempt, stage),
{
    splitmix64(
        seed.0 ^ rotate_left(version.0 as u64, 17) ^ rotate_left(attempt as u64, 33)
            ^ stage.wrapping_mul(0xD6E8_FEB8_6659_FD93),
    )
}

/// The `i`-th 64-bit word of a stage's random-generator seed: SplitMix64
/// applied `i + 1` times to the stream key.
pub open spec fn stage_seed_word(key: u64, i: nat) -> u64
    decreases i,
{
    if i == 0 {
        spec_splitmix64(key)
    } else {
        spec_splitmix64(stage_seed_word(key, (i - 1) as nat))
    }
}

/// Little-endian byte `j` (0 <= j < 8) of a 64-bit word.
pub open spec fn le_byte(word: u64, j: nat) -> u8 {
    ((word >> (8 * j) as u64) & 0xff) as u8
}

/// The 32-byte seed of the random generator used by one generation stage:
/// four successive SplitMix64 words of the stream key, little-endian.
pub open spec fn stage_seed(version: GeneratorVersion, seed: WorldSeed, attempt: u32, stage: u64) -> Seq<u8> {
    Seq::new(
        32,
        |i: int|
            le_byte(
                stage_seed_word(spec_stream_key(version, seed, attempt, stage), (i / 8) as nat),
                (i % 8) as nat,
            ),
    )
}

/// The seed bytes of one generation stage; see [`stage_seed`].
pub fn stage_seed_bytes(version: GeneratorVersion, seed: WorldSeed, attempt: u32, stage: u64) -> (bytes: [u8; 32])
    ensures
        bytes@ == stage_seed(version, seed, attempt, stage),
        forall|i: int|
            #![trigger bytes@[i]]
            0 <= i < 32 ==> bytes@[i] == le_byte(
                stage_seed_word(spec_stream_key(version, seed, attempt, stage), (i / 8) as nat),
                (i % 8) as nat,
            ),
{
    let key = stream_key(version, seed, attempt, stage);
    let mut bytes = [0u8; 32];
    let mut value = key;
    let mut chunk: usize = 0;
    while chunk < 4
        invariant
            chunk <= 4,
            chunk > 0 ==> value == stage_seed_word(key, (chunk - 1) as nat),
            chunk == 0 ==> value == key,
            key == spec_stream_key(version, seed, attempt, stage),
            forall|i: int|
                #![trigger bytes@[i]]
                0 <= i < 8 * chunk ==> bytes@[i] == le_byte(
                    stage_seed_word(key, (i / 8) as nat),
                    (i % 8) as nat,
                ),
        decreases 4 - chunk,
    {
        value = splitmix64(value);
        assert(value == stage_seed_word(key, chunk as nat));
        let mut j: usize = 0;
        while j < 8
            invariant
                chunk < 4,
                j <= 8,
                value == stage_seed_word(key, chunk as nat),
                forall|i: int|
                    #![trigger bytes@[i]]
                    0 <= i < 8 * chunk + j ==> bytes@[i] == le_byte(
                        stage_seed_word(key, (i / 8) as nat),
                        (i % 8) as nat,
                    ),
            decreases 8 - j,
        {
            let byte = ((value >> (8 * j as u64)) & 0xff) as u8;
            bytes[8 * chunk + j] = byte;
            assert((8 * chunk + j) / 8 == chunk as int && (8 * chunk + j) % 8 == j as int);
            j = j + 1;
        }
        chunk = chunk + 1;
    }
    assert(bytes@ =~= stage_seed(version, seed, attempt, stage));
    bytes
}

/// The ChaCha generator with eight rounds, from `rand_chacha`.
#[verifier::external_type_specification]
#[verifier::external_body]
pub struct ExChaCha8Rng(rand_chacha::ChaCha8Rng);

/// The generator that `rand_chacha` builds from a 32-byte seed; it depends
/// on the seed alone.
pub uninterp spec fn chacha8_from_seed(seed: Seq<u8>) -> rand_chacha::ChaCha8Rng;

/// `ChaCha8Rng::from_seed` (through `SeedableRng`): the generator is a
/// function of the seed bytes and nothing else, so this claims only that
/// it equals [`chacha8_from_seed`] of them.
#[verifier::external_body]
fn chacha8_seeded(seed: [u8; 32]) -> (rng: rand_chacha::ChaCha8Rng)
    ensures
        rng == chacha8_from_seed(seed@),
{
    <rand_chacha::ChaCha8Rng as rand_chacha::rand_core::SeedableRng>::from_seed(seed)
}

/// The independent random generator of one generation stage of one
/// attempt, seeded with [`stage_seed`].
pub fn stage_rng(version: GeneratorVersion, seed: WorldSeed, attempt: u32, stage: u64) -> (rng: rand_chacha::ChaCha8Rng)
    ensures
        rng == chacha8_from_seed(stage_seed(version, seed, attempt, stage)),
{
    chacha8_seeded(stage_seed_bytes(version, seed, attempt, stage))
}

/// 64-bit FNV-1a hash of a byte string.
pub open spec fn spec_fnv1a(bytes: Seq<u8>) -> u64
    decreases bytes.len(),
{
    if bytes.len() == 0 {
        0xcbf2_9ce4_8422_2325
    } else {
        (spec_fnv1a(bytes.drop_last()) ^ (bytes.last() as u64)).wrapping_mul(0x0000_0100_0000_01B3)
    }
}

/// FNV-1a over bytes; stable across platforms and releases.
pub fn fnv1a(bytes: &[u8]) -> (hash: u64)
    ensures
        hash == spec_fnv1a(bytes@),
{
    let mut hash: u64 = 0xcbf2_9ce4_8422_2325;
    let mut i: usize = 0;
    while i < bytes.len()
        invariant
            i <= bytes.len(),
            hash == spec_fnv1a(bytes@.take(i as int)),
        decreases bytes.len() - i,
    {
        assert(bytes@.take(i + 1).drop_last() == bytes@.take(i as int));
        hash = (hash ^ (bytes[i] as u64)).wrapping_mul(0x0000_0100_0000_01B3);
        i = i + 1;
    }
    assert(bytes@.take(bytes.len() as int) == bytes@);
    hash
}

/// FNV-1a continued from `hash` over more bytes.
pub open spec fn spec_fnv1a_continue(hash: u64, bytes: Seq<u8>) -> u64
    decreases bytes.len(),
{
    if bytes.len() == 0 {
        hash
    } else {
        (spec_fnv1a_continue(hash, bytes.drop_last()) ^ (bytes.last() as u64)).wrapping_mul(
            0x0000_0100_0000_01B3,
        )
    }
}

/// Feeds more bytes into a running FNV-1a hash, as the planet fingerprint
/// does field by field.
pub fn fnv1a_continue(hash: u64, bytes: &[u8]) -> (next: u64)
    ensures
        next == spec_fnv1a_continue(hash, bytes@),
{
    let mut next: u64 = hash;
    let mut i: usize = 0;
    while i < bytes.len()
        invariant
            i <= bytes.len(),
            next == spec_fnv1a_continue(hash, bytes@.take(i as int)),
        decreases bytes.len() - i,
    {
        assert(bytes@.take(i + 1).drop_last() == bytes@.take(i as int));
        next = (next ^ (bytes[i] as u64)).wrapping_mul(0x0000_0100_0000_01B3);
        i = i + 1;
    }
    assert(bytes@.take(bytes.len() as int) == bytes@);
    next
}

/// The seed of a freshly rolled random world, from the nanoseconds of the
/// wall clock: both halves of the count, mixed with a fixed pattern.
pub fn seed_from_clock(nanos: u128) -> (seed: WorldSeed)
    ensures
        seed.0 == (nanos as u64) ^ ((nanos >> 64u128) as u64) ^ 0xA17C_9E37_5EED_1234u64,
{
    WorldSeed((nanos as u64) ^ ((nanos >> 64) as u64) ^ 0xA17C_9E37_5EED_1234)
}

/// Hashing in pieces is hashing the whole: FNV-1a of `first + rest` is FNV-1a
/// of `first` continued over `rest`.
pub proof fn law_fnv1a_streams(first: Seq<u8>, rest: Seq<u8>)
    ensures
        spec_fnv1a(first + rest) == spec_fnv1a_continue(spec_fnv1a(first), rest),
        spec_fnv1a_continue(0xcbf2_9ce4_8422_2325, rest) == spec_fnv1a(rest),
    decreases rest.len(),
{
    if rest.len() > 0 {
        law_fnv1a_streams(first, rest.drop_last());
        assert((first + rest).drop_last() == first + rest.drop_last());
        assert((first + rest).last() == rest.last());
    } else {
        assert(first + rest == first);
    }
}

/// The 24 high bits of the hash of integer lattice point `(x, y, z)` under
/// a noise seed; value noise maps them onto `[-1, 1]`.
pub open spec fn spec_lattice_bits(x: i32, y: i32, z: i32, seed: u64) -> u32 {
    let h0 = seed ^ ((x as i64) as u64).wrapping_mul(0x9E37_79B9_7F4A_7C15);
    let h1 = spec_splitmix64(h0 ^ spec_rotate_left((y as i64) as u64, 21));
    let h2 = spec_splitmix64(h1 ^ spec_rotate_left((z as i64) as u64, 42));
    (h2 >> 40u64) as u32
}

/// Hash bits of a noise lattice point; see [`spec_lattice_bits`].
pub fn lattice_bits(x: i32, y: i32, z: i32, seed: u64) -> (bits: u32)
    ensures
        bits == spec_lattice_bits(x, y, z, seed),
        bits < 0x100_0000,
{
    let h0 = seed ^ ((x as i64) as u64).wrapping_mul(0x9E37_79B9_7F4A_7C15);
    let h1 = splitmix64(h0 ^ rotate_left((y as i64) as u64, 21));
    let h2 = splitmix64(h1 ^ rotate_left((z as i64) as u64, 42));
    assert(h2 >> 40u64 < 0x100_0000) by (bit_vector);
    (h2 >> 40) as u32
}

// ---------------------------------------------------------------------------
// Seed text format.
// ---------------------------------------------------------------------------

/// Unicode `White_Space`: the characters that `str::trim` removes.
pub open spec fn is_whitespace(c: char) -> bool {
    let v = c as u32;
    ||| 0x09 <= v <= 0x0d
    ||| v == 0x20
    ||| v == 0x85
    ||| v == 0xa0
    ||| v == 0x1680
    ||| 0x2000 <= v <= 0x200a
    ||| v == 0x2028
    ||| v == 0x2029
    ||| v == 0x202f
    ||| v == 0x205f
    ||| v == 0x3000
}

fn char_is_whitespace(c: char) -> (ws: bool)
    ensures
        ws == is_whitespace(c),
{
    let v = c as u32;
    (0x09 <= v && v <= 0x0d) || v == 0x20 || v == 0x85 || v == 0xa0 || v == 0x1680 || (0x2000
        <= v && v <= 0x200a) || v == 0x2028 || v == 0x2029 || v == 0x202f || v == 0x205f || v
        == 0x3000
}

/// Text with leading whitespace removed.
pub open spec fn trim_start(s: Seq<char>) -> Seq<char>
    decreases s.len(),
{
    if s.len() > 0 && is_whitespace(s[0]) {
        trim_start(s.drop_first())
    } else {
        s
    }
}

/// Text with trailing whitespace removed.
pub open spec fn trim_end(s: Seq<char>) -> Seq<char>
    decreases s.len(),
{
    if s.len() > 0 && is_whitespace(s.last()) {
        trim_end(s.drop_last())
    } else {
        s
    }
}

/// Text with leading and trailing whitespace removed.
pub open spec fn trim(s: Seq<char>) -> Seq<char> {
    trim_end(trim_start(s))
}

/// Value of a digit character in radix 10 or 16 (either letter case).
pub open spec fn digit_value(c: char, radix: nat) -> Option<nat> {
    let v = c as u32;
    if 0x30 <= v <= 0x39 {
        Some((v - 0x30) as nat)
    } else if radix == 16 && 0x61 <= v <= 0x66 {
        Some((v - 0x61 + 10) as nat)
    } else if radix == 16 && 0x41 <= v <= 0x46 {
        Some((v - 0x41 + 10) as nat)
    } else {
        None
    }
}

/// Mathematical value of a string of digits, or `None` if a character is
/// not a digit of the radix. The empty string has value zero.
pub open spec fn digits_value(d: Seq<char>, radix: nat) -> Option<nat>
    decreases d.len(),
{
    if d.len() == 0 {
        Some(0)
    } else {
        match (digits_value(d.drop_last(), radix), digit_value(d.last(), radix)) {
            (Some(prefix), Some(digit)) => Some(prefix * radix + digit),
            _ => None,
        }
    }
}

/// Unsigned 64-bit integer text in the given radix, as `u64::from_str_radix`
/// reads it: an optional leading `+`, then at least one digit, with a value
/// that fits in 64 bits.
pub open spec fn parse_radix(d: Seq<char>, radix: nat) -> Option<u64> {
    if d.len() == 0 || (d.len() == 1 && (d[0] == '+' || d[0] == '-')) {
        None
    } else {
        let body = if d[0] == '+' {
            d.drop_first()
        } else {
            d
        };
        match digits_value(body, radix) {
            Some(v) => if v <= u64::MAX {
                Some(v as u64)
            } else {
                None
            },
            None => None,
        }
    }
}

/// Whether trimmed seed text starts with the `0x` or `0X` hexadecimal prefix.
pub open spec fn has_hex_prefix(t: Seq<char>) -> bool {
    t.len() >= 2 && t[0] == '0' && (t[1] == 'x' || t[1] == 'X')
}

/// The seed that text denotes. After trimming whitespace: empty text is
/// rejected; `0x`/`0X` text must be a hexadecimal `u64`; decimal `u64` text
/// is its value; any other phrase is the FNV-1a hash of its UTF-8 bytes.
pub open spec fn parse_seed(text: Seq<char>) -> Result<WorldSeed, SeedParseError> {
    let t = trim(text);
    if t.len() == 0 {
        Err(SeedParseError)
    } else if has_hex_prefix(t) {
        match parse_radix(t.skip(2), 16) {
            Some(v) => Ok(WorldSeed(v)),
            None => Err(SeedParseError),
        }
    } else {
        match parse_radix(t, 10) {
            Some(v) => Ok(WorldSeed(v)),
            None => Ok(WorldSeed(spec_fnv1a(encode_utf8(t)))),
        }
    }
}

proof fn lemma_trim_start_skips(s: Seq<char>, i: int)
    requires
        0 <= i <= s.len(),
        forall|j: int| 0 <= j < i ==> is_whitespace(#[trigger] s[j]),
    ensures
        trim_start(s) == trim_start(s.subrange(i, s.len() as int)),
    decreases i,
{
    if i > 0 {
        lemma_trim_start_skips(s.drop_first(), i - 1);
        assert(s.drop_first().subrange(i - 1, s.len() - 1) == s.subrange(i, s.len() as int));
    } else {
        assert(s.subrange(0, s.len() as int) == s);
    }
}

proof fn lemma_trim_end_skips(s: Seq<char>, k: int)
    requires
        0 <= k <= s.len(),
        forall|j: int| k <= j < s.len() ==> is_whitespace(#[trigger] s[j]),
    ensures
        trim_end(s) == trim_end(s.subrange(0, k)),
    decreases s.len() - k,
{
    if k < s.len() {
        lemma_trim_end_skips(s.drop_last(), k);
        assert(s.drop_last().subrange(0, k) == s.subrange(0, k));
    } else {
        assert(s.subrange(0, k) == s);
    }
}

/// Bounds `[start, end)` of the trimmed part of `chars`.
fn trim_bounds(chars: &Vec<char>) -> (bounds: (usize, usize))
    ensures
        bounds.0 <= bounds.1 <= chars@.len(),
        chars@.subrange(bounds.0 as int, bounds.1 as int) == trim(chars@),
{
    let n = chars.len();
    let mut start: usize = 0;
    while start < n && char_is_whitespace(chars[start])
        invariant
            start <= n == chars@.len(),
            forall|j: int| 0 <= j < start ==> is_whitespace(#[trigger] chars@[j]),
        decreases n - start,
    {
        start = start + 1;
    }
    proof {
        lemma_trim_start_skips(chars@, start as int);
        let rest = chars@.subrange(start as int, n as int);
        assert(trim_start(rest) == rest);
    }
    let mut end: usize = n;
    while end > start && char_is_whitespace(chars[end - 1])
        invariant
            start <= end <= n == chars@.len(),
            forall|j: int| end <= j < n ==> is_whitespace(#[trigger] chars@[j]),
        decreases end,
    {
        end = end - 1;
    }
    proof {
        let rest = chars@.subrange(start as int, n as int);
        assert forall|j: int| end - start <= j < rest.len() implies is_whitespace(#[trigger] rest[j]) by {
            assert(rest[j] == chars@[start + j]);
        }
        lemma_trim_end_skips(rest, end - start);
        assert(rest.subrange(0, end - start) == chars@.subrange(start as int, end as int));
        let kept = chars@.subrange(start as int, end as int);
        assert(trim_end(kept) == kept);
    }
    (start, end)
}

/// The value of `c` as a digit of radix 10 or 16.
fn char_digit(c: char, radix: u32) -> (digit: Option<u32>)
    requires
        radix == 10 || radix == 16,
    ensures
        match digit {
            Some(v) => digit_value(c, radix as nat) == Some(v as nat) && v < radix,
            None => digit_value(c, radix as nat) is None,
        },
{
    let v = c as u32;
    if 0x30 <= v && v <= 0x39 {
        Some(v - 0x30)
    } else if radix == 16 && 0x61 <= v && v <= 0x66 {
        Some(v - 0x61 + 10)
    } else if radix == 16 && 0x41 <= v && v <= 0x46 {
        Some(v - 0x41 + 10)
    } else {
        None
    }
}

/// Reads `chars[start..end)` as `u64::from_str_radix` does.
fn parse_unsigned(chars: &Vec<char>, start: usize, end: usize, radix: u32) -> (value: Option<u64>)
    requires
        start <= end <= chars@.len(),
        radix == 10 || radix == 16,
    ensures
        value == parse_radix(chars@.subrange(start as int, end as int), radix as nat),
{
    let ghost d = chars@.subrange(start as int, end as int);
    if start == end {
        return None;
    }
    if end - start == 1 && (chars[start] == '+' || chars[start] == '-') {
        return None;
    }
    let first = if chars[start] == '+' {
        start + 1
    } else {
        start
    };
    let ghost body = chars@.subrange(first as int, end as int);
    assert(body == if d[0] == '+' {
        d.drop_first()
    } else {
        d
    });
    let mut acc: u64 = 0;
    let mut overflow = false;
    let mut i = first;
    while i < end
        invariant
            first <= i <= end <= chars@.len(),
            radix == 10 || radix == 16,
            body == chars@.subrange(first as int, end as int),
            d == chars@.subrange(start as int, end as int),
            d.len() > 0,
            !(d.len() == 1 && (d[0] == '+' || d[0] == '-')),
            body == (if d[0] == '+' {
                d.drop_first()
            } else {
                d
            }),
            digits_value(chars@.subrange(first as int, i as int), radix as nat) is Some,
            match digits_value(chars@.subrange(first as int, i as int), radix as nat) {
                Some(v) => if overflow {
                    v > u64::MAX
                } else {
                    v == acc
                },
                None => true,
            },
        decreases end - i,
    {
        let ghost prefix = chars@.subrange(first as int, i as int);
        let ghost next = chars@.subrange(first as int, i + 1);
        assert(next.drop_last() == prefix);
        assert(next.last() == chars@[i as int]);
        match char_digit(chars[i], radix) {
            None => {
                proof {
                    assert(body[i - first] == chars@[i as int]);
                    lemma_digits_invalid_extends(body, (i - first) as int, radix as nat);
                }
                return None;
            },
            Some(digit) => {
                proof {
                    if radix == 10 {
                        assert(digits_value(prefix, 10) matches Some(v) ==> digits_value(next, 10) == Some(v * 10 + digit as nat));
                    } else {
                        assert(digits_value(prefix, 16) matches Some(v) ==> digits_value(next, 16) == Some(v * 16 + digit as nat));
                    }
                }
                if !overflow {
                    match acc.checked_mul(radix as u64) {
                        Some(scaled) => match scaled.checked_add(digit as u64) {
                            Some(sum) => {
                                acc = sum;
                            },
                            None => {
                                overflow = true;
                            },
                        },
                        None => {
                            overflow = true;
                        },
                    }
                }
            },
        }
        i = i + 1;
    }
    assert(chars@.subrange(first as int, i as int) == body);
    assert(overflow ==> (digits_value(body, radix as nat) matches Some(v) ==> v > u64::MAX));
    assert(d.len() > 0);
    assert(!(d.len() == 1 && (d[0] == '+' || d[0] == '-')));
    if overflow {
        None
    } else {
        Some(acc)
    }
}

/// Once a prefix contains an invalid digit, every extension does too.
proof fn lemma_digits_invalid_extends(d: Seq<char>, k: int, radix: nat)
    requires
        0 <= k < d.len(),
        digit_value(d[k], radix) is None,
    ensures
        digits_value(d, radix) is None,
    decreases d.len(),
{
    if k < d.len() - 1 {
        lemma_digits_invalid_extends(d.drop_last(), k, radix);
    }
}

impl WorldSeed {
    /// Parses seed text: `0x`/`0X` hexadecimal, plain decimal, or any other
    /// phrase, which is hashed. Surrounding whitespace is ignored; empty text
    /// and malformed hexadecimal are rejected.
    pub fn parse(text: &str) -> (seed: Result<WorldSeed, SeedParseError>)
        ensures
            seed == parse_seed(text@),
    {
        let chars = chars_of(text);
        let (start, end) = trim_bounds(&chars);
        let ghost t = trim(text@);
        if start == end {
            return Err(SeedParseError);
        }
        if end - start >= 2 && chars[start] == '0' && (chars[start + 1] == 'x' || chars[start
            + 1] == 'X') {
            assert(chars@.subrange(start + 2, end as int) == t.skip(2));
            return match parse_unsigned(&chars, start + 2, end, 16) {
                Some(v) => Ok(WorldSeed(v)),
                None => Err(SeedParseError),
            };
        }
        match parse_unsigned(&chars, start, end, 10) {
            Some(v) => Ok(WorldSeed(v)),
            None => {
                let trimmed = text.substring_char(start, end);
                Ok(WorldSeed(fnv1a(trimmed.as_bytes())))
            },
        }
    }
}

/// `16^k`.
pub open spec fn pow16(k: nat) -> nat
    decreases k,
{
    if k == 0 {
        1
    } else {
        16 * pow16((k - 1) as nat)
    }
}

/// Upper-case hexadecimal digit for `n < 16`.
pub open spec fn hex_upper_char(n: nat) -> char {
    if n < 10 {
        ((0x30 + n) as u32) as char
    } else {
        ((0x41 + n - 10) as u32) as char
    }
}

/// The sixteen upper-case hexadecimal digits of `v`, most significant first.
pub open spec fn hex_digits16(v: u64) -> Seq<char> {
    Seq::new(16, |i: int| hex_upper_char(((v as nat) / pow16((15 - i) as nat)) % 16))
}

/// The canonical text of a seed: `0x` and sixteen upper-case hex digits.
pub open spec fn seed_text(seed: WorldSeed) -> Seq<char> {
    seq!['0', 'x'] + hex_digits16(seed.0)
}

/// The one-character string of a hexadecimal digit.
fn hex_digit_str(n: u64) -> (digit: &'static str)
    requires
        n < 16,
    ensures
        digit@ == seq![hex_upper_char(n as nat)],
{
    match n {
        0 => { proof { reveal_strlit("0"); } "0" },
        1 => { proof { reveal_strlit("1"); } "1" },
        2 => { proof { reveal_strlit("2"); } "2" },
        3 => { proof { reveal_strlit("3"); } "3" },
        4 => { proof { reveal_strlit("4"); } "4" },
        5 => { proof { reveal_strlit("5"); } "5" },
        6 => { proof { reveal_strlit("6"); } "6" },
        7 => { proof { reveal_strlit("7"); } "7" },
        8 => { proof { reveal_strlit("8"); } "8" },
        9 => { proof { reveal_strlit("9"); } "9" },
        10 => { proof { reveal_strlit("A"); } "A" },
        11 => { proof { reveal_strlit("B"); } "B" },
        12 => { proof { reveal_strlit("C"); } "C" },
        13 => { proof { reveal_strlit("D"); } "D" },
        14 => { proof { reveal_strlit("E"); } "E" },
        _ => { proof { reveal_strlit("F"); } "F" },
    }
}

impl WorldSeed {
    /// Canonical text of the seed, `0x` followed by sixteen upper-case
    /// hexadecimal digits; [`WorldSeed::parse`] reads it back exactly.
    pub fn to_string(&self) -> (text: String)
        ensures
            text@ == seed_text(*self),
    {
        proof {
            reveal_strlit("0x");
            reveal_with_fuel(pow16, 16);
        }
        let mut text = String::from_str("0x");
        let mut divisor: u64 = 0x1000_0000_0000_0000;
        let mut i: usize = 0;
        while i < 16
            invariant
                i <= 16,
                i < 16 ==> divisor as nat == pow16((15 - i) as nat),
                text@ == seq!['0', 'x'] + hex_digits16(self.0).take(i as int),
            decreases 16 - i,
        {
            proof {
                lemma_pow16_positive((15 - i) as nat);
            }
            let digit = (self.0 / divisor) % 16;
            text.append(hex_digit_str(digit));
            assert(hex_digits16(self.0).take(i + 1) == hex_digits16(self.0).take(i as int).push(
                hex_upper_char(digit as nat),
            ));
            if i < 15 {
                proof {
                    assert(pow16((15 - i) as nat) == 16 * pow16((14 - i) as nat));
                    vstd::arithmetic::div_mod::lemma_div_by_multiple(pow16((14 - i) as nat) as int, 16);
                }
                divisor = divisor / 16;
            }
            i = i + 1;
        }
        assert(hex_digits16(self.0).take(16) == hex_digits16(self.0));
        text
    }
}

proof fn lemma_hex_digit_value(n: nat)
    requires
        n < 16,
    ensures
        digit_value(hex_upper_char(n), 16) == Some(n),
        !is_whitespace(hex_upper_char(n)),
        hex_upper_char(n) != '+',
        hex_upper_char(n) != '-',
{
}

proof fn lemma_hex_digits_value(v: u64, k: nat)
    requires
        k <= 16,
    ensures
        digits_value(hex_digits16(v).take(k as int), 16) == Some((v as nat) / pow16((16 - k) as nat)),
    decreases k,
{
    let d = hex_digits16(v);
    if k == 0 {
        assert(d.take(0).len() == 0);
        assert(pow16(16) == 0x1_0000_0000_0000_0000) by {
            reveal_with_fuel(pow16, 17);
        }
        assert((v as nat) / pow16(16) == 0) by {
            vstd::arithmetic::div_mod::lemma_basic_div(v as int, pow16(16) as int);
        }
    } else {
        lemma_hex_digits_value(v, (k - 1) as nat);
        let p = pow16((16 - k) as nat);
        let x = v as nat;
        assert(d.take(k as int).drop_last() == d.take(k - 1));
        assert(d.take(k as int).last() == hex_upper_char((x / p) % 16));
        lemma_pow16_positive((16 - k) as nat);
        assert((x / p) % 16 < 16) by {
            vstd::arithmetic::div_mod::lemma_mod_bound((x / p) as int, 16);
        }
        lemma_hex_digit_value((x / p) % 16);
        assert(pow16((16 - (k - 1)) as nat) == p * 16);
        assert(x / (p * 16) == (x / p) / 16) by {
            vstd::arithmetic::div_mod::lemma_div_denominator(x as int, p as int, 16);
        }
        assert(((x / p) / 16) * 16 + (x / p) % 16 == x / p) by {
            vstd::arithmetic::div_mod::lemma_fundamental_div_mod((x / p) as int, 16);
        }
    }
}

proof fn lemma_pow16_positive(k: nat)
    ensures
        pow16(k) > 0,
    decreases k,
{
    if k > 0 {
        lemma_pow16_positive((k - 1) as nat);
    }
}

/// Seed text round-trips: parsing the canonical text of any seed gives back
/// exactly that seed.
pub proof fn law_seed_text_round_trips(seed: WorldSeed)
    ensures
        parse_seed(seed_text(seed)) == Ok::<WorldSeed, SeedParseError>(seed),
{
    let t = seed_text(seed);
    let d = hex_digits16(seed.0);
    lemma_pow16_positive(15);
    assert((seed.0 as nat / pow16(15)) % 16 < 16) by {
        vstd::arithmetic::div_mod::lemma_mod_bound((seed.0 as nat / pow16(15)) as int, 16);
    }
    assert((seed.0 as nat / pow16(0)) % 16 < 16) by {
        vstd::arithmetic::div_mod::lemma_mod_bound((seed.0 as nat / pow16(0)) as int, 16);
    }
    lemma_hex_digit_value((seed.0 as nat / pow16(15)) % 16);
    lemma_hex_digit_value((seed.0 as nat / pow16(0)) % 16);
    assert(t[0] == '0');
    assert(trim_start(t) == t);
    assert(t.last() == d[15]);
    assert(trim_end(t) == t);
    assert(trim(t) == t);
    assert(has_hex_prefix(t));
    assert(t.skip(2) == d);
    lemma_hex_digits_value(seed.0, 16);
    assert(d.take(16) == d);
    assert(pow16(0) == 1);
    assert(seed.0 as nat / 1 == seed.0 as nat);
    assert(d[0] != '+' && d[0] != '-');
}

impl core::str::FromStr for WorldSeed {
    type Err = SeedParseError;

    fn from_str(text: &str) -> (seed: Result<WorldSeed, SeedParseError>)
        ensures
            seed == parse_seed(text@),
    {
        WorldSeed::parse(text)
    }
}

} // verus!
