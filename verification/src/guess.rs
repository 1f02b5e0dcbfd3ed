//! The daily number-guessing rules: a guess between 1 and 100 is held
//! against a deterministic daily magic number, and the first matching rule
//! decides the reward.

use vstd::prelude::*;
use vstd::string::StringExecFns;

use crate::rng::{seeded_random_inclusive, spec_seeded_word};

verus! {

pub const MAGIC_NUMBER_REWARD: i64 = 1000;

pub const MAGIC_NUMBER_RANGE: i64 = 3;

pub const RANGE_REWARD: i64 = 30;

pub const LAST_DIGIT_REWARD: i64 = 10;

pub const PAIRWISE_REWARD: i64 = 250;

/// A guess is "within range" of the target when it differs from it by at
/// most `range` in either direction.
pub fn is_within(num: i64, target: i64, range: i64) -> (r: bool)
    requires
        i64::MIN <= target - range <= i64::MAX,
        i64::MIN <= target + range <= i64::MAX,
    ensures
        r == (target - range <= num <= target + range),
{
    num >= target - range && num <= target + range
}

pub fn last_digit(num: i64) -> (r: i64)
    requires
        num >= 0,
    ensures
        r == num % 10,
{
    num % 10
}

/// A magic pair forms a Gauss sum: the two numbers add up to 101.
pub fn is_magic_pair(a: i64, b: i64) -> (r: bool)
    requires
        i64::MIN + 101 < a,
    ensures
        r == (101 - a == b),
{
    101 - a == b
}

#[derive(Debug, Clone, Copy, PartialEq, Eq, Structural)]
pub enum GuessRule {
    /// The guess equals the magic number.
    Exact,
    /// The guess and the magic number form a Gauss sum of 101.
    MagicPair,
    /// The guess is within three of the magic number.
    NearMatch,
    /// The guess shares its last digit with the magic number.
    LastDigit,
}

pub open spec fn spec_rule_reward(rule: GuessRule) -> int {
    match rule {
        GuessRule::Exact => 1000,
        GuessRule::MagicPair => 250,
        GuessRule::NearMatch => 30,
        GuessRule::LastDigit => 10,
    }
}

pub fn rule_reward(rule: GuessRule) -> (r: i64)
    ensures
        r == spec_rule_reward(rule),
{
    match rule {
        GuessRule::Exact => MAGIC_NUMBER_REWARD,
        GuessRule::MagicPair => PAIRWISE_REWARD,
        GuessRule::NearMatch => RANGE_REWARD,
        GuessRule::LastDigit => LAST_DIGIT_REWARD,
    }
}

/// The first rule, in precedence order, that a guess matches against the
/// answer.
pub open spec fn spec_guess_rule(answer: int, guess: int) -> Option<GuessRule> {
    if answer == guess {
        Some(GuessRule::Exact)
    } else if 101 - answer == guess {
        Some(GuessRule::MagicPair)
    } else if answer - 3 <= guess <= answer + 3 {
        Some(GuessRule::NearMatch)
    } else if answer % 10 == guess % 10 {
        Some(GuessRule::LastDigit)
    } else {
        None
    }
}

/// Hold a guess against the answer: the first matching rule wins, or none.
pub fn evaluate_guess(answer: i64, guess: i64) -> (r: Option<GuessRule>)
    requires
        1 <= answer <= 100,
        1 <= guess <= 100,
    ensures
        r == spec_guess_rule(answer as int, guess as int),
{
    if answer == guess {
        Some(GuessRule::Exact)
    } else if is_magic_pair(answer, guess) {
        Some(GuessRule::MagicPair)
    } else if is_within(guess, answer, MAGIC_NUMBER_RANGE) {
        Some(GuessRule::NearMatch)
    } else if last_digit(answer) == last_digit(guess) {
        Some(GuessRule::LastDigit)
    } else {
        None
    }
}

/// The daily magic number for a member: a deterministic draw in [1, 100]
/// seeded by "{member}:{day}" and the process base seed. The same member
/// and day always draw the same number.
pub fn magic_number_for(member_name: &str, day: &str, base_seed: &str) -> (r: i64)
    ensures
        1 <= r <= 100,
        r == 1 + (spec_seeded_word(member_name@ + seq![':'] + day@, base_seed@) as int % 100),
{
    let mut seed = member_name.to_owned();
    proof {
        reveal_strlit(":");
        assert(":"@ =~= seq![':']);
    }
    seed.append(":");
    seed.append(day);
    proof {
        assert(seed@ =~= member_name@ + seq![':'] + day@);
    }
    seeded_random_inclusive(1, 100, seed.as_str(), base_seed)
}

} // verus!
