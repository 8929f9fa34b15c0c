//! An explicitly seeded random generator, used to draw temporary file names
//! from a restricted alphabet.

use vstd::prelude::*;

verus! {

/// The character is one the generated file names may hold: an ASCII letter,
/// a digit, an underscore or a dash.
pub open spec fn is_filename_char(c: char) -> bool {
    ||| (97 <= c as u32 && c as u32 <= 122)
    ||| (65 <= c as u32 && c as u32 <= 90)
    ||| (48 <= c as u32 && c as u32 <= 57)
    ||| c as u32 == 95
    ||| c as u32 == 45
}

/// The byte is one the generated file names may hold.
pub open spec fn is_filename_byte(b: u8) -> bool {
    ||| (97 <= b && b <= 122)
    ||| (65 <= b && b <= 90)
    ||| (48 <= b && b <= 57)
    ||| b == 95
    ||| b == 45
}

#[verifier::external_type_specification]
#[verifier::external_body]
pub struct ExStdRng(rand::rngs::StdRng);

/// Relies on rand's `StdRng` and `SeedableRng::seed_from_u64`: a generator
/// deterministically seeded from the word; nothing is assumed of the values
/// it will yield.
#[verifier::external_body]
fn std_rng_from_seed(seed: u64) -> rand::rngs::StdRng {
    <rand::rngs::StdRng as rand::SeedableRng>::seed_from_u64(seed)
}

/// Relies on rand's `RngExt::random_range`: a value sampled from `0..bound`;
/// an empty range would make the call panic, so the bound must be positive.
#[verifier::external_body]
fn random_below(rng: &mut rand::rngs::StdRng, bound: usize) -> (r: usize)
    requires
        bound > 0,
    ensures
        r < bound,
{
    rand::RngExt::random_range(rng, 0..bound)
}

/// Relies on `String::from_utf8`: bytes below 128 are ASCII, which is valid
/// UTF-8 and decodes to the characters of the same code points, one each.
#[verifier::external_body]
fn string_from_ascii(bytes: Vec<u8>) -> (r: String)
    requires
        forall|i: int| 0 <= i < bytes@.len() ==> bytes@[i] < 128,
    ensures
        r@.len() == bytes@.len(),
        forall|i: int| 0 <= i < bytes@.len() ==> (#[trigger] r@[i]) as u32 == bytes@[i] as u32,
{
    String::from_utf8(bytes).unwrap_or_default()
}

/// The character is the alphabet's entry at some index: what every drawn
/// name is made of.
pub open spec fn from_alphabet(c: char) -> bool {
    exists|idx: int| 0 <= idx < 64 && c as u32 == alphabet_of(idx) as u32
}

/// The byte the alphabet holds at each index, in the fixed order:
/// lower-case letters, upper-case letters, digits, underscore, dash.
pub open spec fn alphabet_of(idx: int) -> u8 {
    if idx < 26 {
        (97 + idx) as u8
    } else if idx < 52 {
        (65 + (idx - 26)) as u8
    } else if idx < 62 {
        (48 + (idx - 52)) as u8
    } else if idx == 62 {
        95
    } else {
        45
    }
}

/// The alphabet of the generated names: each index maps to exactly one byte.
pub fn alphabet_byte(idx: usize) -> (b: u8)
    requires
        idx < 64,
    ensures
        b == alphabet_of(idx as int),
        is_filename_byte(b),
        b < 128,
{
    if idx < 26 {
        97 + (idx as u8)
    } else if idx < 52 {
        65 + (idx as u8 - 26)
    } else if idx < 62 {
        48 + (idx as u8 - 52)
    } else if idx == 62 {
        95
    } else {
        45
    }
}

/// A random generator with an explicit, injectable seed, so tests can be
/// deterministic.
pub struct EasyRandom {
    rng: rand::rngs::StdRng,
}

impl EasyRandom {
    /// A generator seeded from the given word.
    pub fn new(seed: u64) -> EasyRandom {
        EasyRandom { rng: std_rng_from_seed(seed) }
    }

    /// A file name part of `n` characters, each the alphabet's byte for a
    /// drawn index: deterministic in the drawn indices, which come from the
    /// seeded generator.
    pub fn make_random_file_string(&mut self, n: usize) -> (r: String)
        ensures
            r@.len() == n,
            forall|i: int| 0 <= i < n ==> from_alphabet(#[trigger] r@[i]),
            forall|i: int| 0 <= i < n ==> is_filename_char(#[trigger] r@[i]),
    {
        let mut bytes: Vec<u8> = Vec::new();
        let mut i: usize = 0;
        while i < n
            invariant
                0 <= i <= n,
                bytes@.len() == i,
                forall|k: int|
                    0 <= k < i ==> is_filename_byte(#[trigger] bytes@[k]) && bytes@[k] < 128,
                forall|k: int|
                    0 <= k < i ==> exists|idx: int|
                        0 <= idx < 64 && #[trigger] bytes@[k] == alphabet_of(idx),
            decreases n - i,
        {
            let idx = random_below(&mut self.rng, 64);
            let b = alphabet_byte(idx);
            proof {
                assert(0 <= idx < 64 && b == alphabet_of(idx as int));
            }
            bytes.push(b);
            i += 1;
        }
        let r = string_from_ascii(bytes);
        proof {
            assert forall|k: int|
                0 <= k < n implies is_filename_char(#[trigger] r@[k]) && from_alphabet(r@[k]) by {
                assert(r@[k] as u32 == bytes@[k] as u32);
                assert(is_filename_byte(bytes@[k]));
                let idx = choose|idx: int| 0 <= idx < 64 && bytes@[k] == alphabet_of(idx);
                assert(r@[k] as u32 == alphabet_of(idx) as u32);
            }
        }
        r
    }
}

} // verus!
