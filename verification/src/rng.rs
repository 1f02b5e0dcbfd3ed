//! Random draws. The process-wide random source and the ChaCha stream sit
//! behind trusted wrappers; seed derivation and the weighted selection curve
//! are the library's own and are verified.

use vstd::prelude::*;
use vstd::string::StrSliceExecFns;

verus! {

/// Relies on rand's `thread_rng` and `Rng::gen_range` over an inclusive
/// range: the result lies in `[min, max]`; the call panics only when the
/// range is empty, which the precondition rules out.
#[verifier::external_body]
pub fn random_inclusive(min: i64, max: i64) -> (r: i64)
    requires
        min <= max,
    ensures
        min <= r <= max,
{
    rand::Rng::gen_range(&mut rand::thread_rng(), min..=max)
}

/// The first 64-bit word of the ChaCha8 stream for a given seed.
pub uninterp spec fn chacha8_word_of(seed: u64) -> u64;

/// Relies on rand_chacha's `ChaCha8Rng`: `seed_from_u64` expands the seed
/// deterministically (rand_core documents it as reproducible), and
/// `next_u64` yields the stream's first word, a pure function of the seed
/// that is identical across platforms.
#[verifier::external_body]
pub fn chacha8_word(seed: u64) -> (r: u64)
    ensures
        r == chacha8_word_of(seed),
{
    let mut rng: rand_chacha::ChaCha8Rng = rand::SeedableRng::seed_from_u64(seed);
    rand::RngCore::next_u64(&mut rng)
}

/// Relies on nanoid's `format` with its URL-safe alphabet (64 one-byte
/// characters) and default random source: the result is exactly `21`
/// characters long.
#[verifier::external_body]
pub fn fresh_id() -> (r: String)
    ensures
        r@.len() == 21,
{
    nanoid::format(nanoid::rngs::default, &nanoid::alphabet::SAFE, 21)
}

pub const FNV_OFFSET: u64 = 0xcbf29ce484222325;

pub const FNV_PRIME: u64 = 0x100000001b3;

/// FNV-1a over a character sequence, starting from `acc`.
pub open spec fn spec_fnv1a(s: Seq<char>, acc: u64) -> u64
    decreases s.len(),
{
    if s.len() == 0 {
        acc
    } else {
        spec_fnv1a(
            s.drop_first(),
            vstd::wrapping::u64_specs::wrapping_mul(acc ^ (s.first() as u64), FNV_PRIME),
        )
    }
}

/// The seed that a context string and the process base seed derive:
/// FNV-1a over the context, continued over the base seed.
pub open spec fn spec_derived_seed(context: Seq<char>, base: Seq<char>) -> u64 {
    spec_fnv1a(base, spec_fnv1a(context, FNV_OFFSET))
}

fn fnv1a_from(s: &str, acc0: u64) -> (r: u64)
    ensures
        r == spec_fnv1a(s@, acc0),
{
    let n = s.unicode_len();
    let mut acc: u64 = acc0;
    let mut i: usize = 0;
    proof {
        assert(s@.skip(0) =~= s@);
    }
    while i < n
        invariant
            0 <= i <= n,
            n == s@.len(),
            spec_fnv1a(s@, acc0) == spec_fnv1a(s@.skip(i as int), acc),
        decreases n - i,
    {
        let c = s.get_char(i);
        let ghost pre = s@.skip(i as int);
        acc = (acc ^ (c as u64)).wrapping_mul(FNV_PRIME);
        proof {
            assert(pre.first() == s@[i as int]);
            assert(pre.drop_first() =~= s@.skip(i + 1));
        }
        i += 1;
    }
    proof {
        assert(s@.skip(n as int) =~= Seq::<char>::empty());
    }
    acc
}

/// Derive a 64-bit seed from a context string and the process base seed.
/// Equal inputs always derive the same seed.
pub fn derive_seed(context: &str, base_seed: &str) -> (r: u64)
    ensures
        r == spec_derived_seed(context@, base_seed@),
{
    let first = fnv1a_from(context, FNV_OFFSET);
    fnv1a_from(base_seed, first)
}

/// The draw a seeded generator makes for a context string: the first ChaCha8
/// word under the derived seed.
pub open spec fn spec_seeded_word(context: Seq<char>, base: Seq<char>) -> u64 {
    chacha8_word_of(spec_derived_seed(context, base))
}

/// A deterministic value in `[min, max]`, derived from the seed strings
/// alone: equal inputs always yield the same result.
pub fn seeded_random_inclusive(min: i64, max: i64, seed: &str, base_seed: &str) -> (r: i64)
    requires
        min <= max,
    ensures
        r == min + (spec_seeded_word(seed@, base_seed@) as int % (max - min + 1)),
        min <= r <= max,
{
    let w = chacha8_word(derive_seed(seed, base_seed));
    let span: u128 = (max as i128 - min as i128 + 1) as u128;
    let off: u128 = (w as u128) % span;
    proof {
        assert(span == max - min + 1);
        assert(off == w as int % (max - min + 1)) by {
            assert((w as u128) as int == w as int);
        }
        assert(0 <= off < span);
    }
    let r = ((min as i128) + (off as i128)) as i64;
    r
}

/// The weighted selection curve: for a 64-bit draw `w` standing for the
/// fraction `w / 2^64` in `[0, 1)`, the value `max / ((w/2^64)*max + min)`
/// rounded to the nearest integer. Lower values are much likelier than
/// higher ones.
pub open spec fn spec_weighted_value(w: u64, min: int, max: int) -> int {
    (2 * max * 0x10000000000000000 + (w * max + min * 0x10000000000000000)) / (2 * (w * max + min
        * 0x10000000000000000))
}

/// A deterministic weighted draw in `[min, max]`, biased toward `min`,
/// derived from the seed strings alone.
pub fn seeded_weighted_random(min: i64, max: i64, seed: &str, base_seed: &str) -> (r: i64)
    requires
        1 <= min <= max <= 0x10000,
    ensures
        r == spec_weighted_value(spec_seeded_word(seed@, base_seed@), min as int, max as int),
        1 <= r <= max,
{
    let w = chacha8_word(derive_seed(seed, base_seed));
    let unit: u128 = 0x10000000000000000;
    let wu: u128 = w as u128;
    let maxu: u128 = max as u128;
    let minu: u128 = min as u128;
    proof {
        assert(wu * maxu < 0x100000000000000000000) by (nonlinear_arith)
            requires
                wu < 0x10000000000000000,
                maxu <= 0x10000,
        ;
        assert(minu * 0x10000000000000000 <= 0x100000000000000000000) by (nonlinear_arith)
            requires
                minu <= 0x10000,
        ;
        assert(maxu * 0x10000000000000000 <= 0x100000000000000000000) by (nonlinear_arith)
            requires
                maxu <= 0x10000,
        ;
    }
    let den: u128 = wu * maxu + minu * unit;
    let num: u128 = 2 * (maxu * unit);
    let v: u128 = (num + den) / (2 * den);
    proof {
        lemma_weighted_value_bounds(w, min as int, max as int);
        assert(v == spec_weighted_value(w, min as int, max as int));
    }
    v as i64
}

/// The rounded curve stays within `[1, max]` whenever `1 <= min <= max`.
proof fn lemma_weighted_value_bounds(w: u64, min: int, max: int)
    requires
        1 <= min <= max <= 0x10000,
    ensures
        1 <= spec_weighted_value(w, min, max) <= max,
{
    let unit = 0x10000000000000000int;
    let den = w * max + min * unit;
    let num = 2 * max * unit;
    assert(den >= unit) by (nonlinear_arith)
        requires
            den == w * max + min * unit,
            unit == 0x10000000000000000int,
            0 <= w,
            1 <= min <= max,
    ;
    assert(den < (max + min) * unit) by (nonlinear_arith)
        requires
            den == w * max + min * unit,
            unit == 0x10000000000000000int,
            0 <= w < unit,
            1 <= min <= max,
    ;
    assert(num + den >= 2 * den) by (nonlinear_arith)
        requires
            num == 2 * max * unit,
            den < (max + min) * unit,
            unit == 0x10000000000000000int,
            1 <= min <= max,
    ;
    assert((num + den) / (2 * den) >= 1) by (nonlinear_arith)
        requires
            num + den >= 2 * den,
            den >= 1,
    ;
    assert(num + den < 2 * den * (max + 1)) by (nonlinear_arith)
        requires
            num == 2 * max * unit,
            den >= min * unit,
            unit == 0x10000000000000000int,
            1 <= min <= max,
    ;
    assert((num + den) / (2 * den) <= max) by (nonlinear_arith)
        requires
            num + den < 2 * den * (max + 1),
            den >= 1,
    ;
}

} // verus!
