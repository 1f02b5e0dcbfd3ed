//! Dice notation: a string "NdX" names N dice of size X. The parser
//! accepts exactly one run of digits, a literal 'd', and a second run of
//! digits, with both values fitting in 32 bits and a non-zero size.

use vstd::prelude::*;
use vstd::string::StrSliceExecFns;

use crate::rng::random_inclusive;

verus! {

#[derive(Debug, Clone, Copy, PartialEq, Eq, Structural)]
pub enum DiceError {
    /// `roll` was handed an empty string.
    MissingInput,
    /// The string is not digits, 'd', digits — or a value does not fit.
    InvalidFormat,
    /// The die size parsed as zero.
    ZeroSize,
}

#[derive(Debug, Clone, Copy, PartialEq, Eq, Structural)]
pub struct DiceRoll {
    pub count: u32,
    pub size: u32,
}

pub open spec fn is_digit(c: char) -> bool {
    48 <= c as u32 <= 57
}

pub open spec fn all_digits(s: Seq<char>) -> bool {
    forall|i: int| 0 <= i < s.len() ==> is_digit(#[trigger] s[i])
}

/// The value of a run of decimal digits.
pub open spec fn digits_val(s: Seq<char>) -> int
    decreases s.len(),
{
    if s.len() == 0 {
        0
    } else {
        digits_val(s.drop_last()) * 10 + (s.last() as u32 - 48)
    }
}

/// Position `i` splits `s` into digits, 'd', digits.
pub open spec fn dice_split_at(s: Seq<char>, i: int) -> bool {
    &&& 1 <= i < s.len() - 1
    &&& s[i] == 'd'
    &&& all_digits(s.take(i))
    &&& all_digits(s.skip(i + 1))
}

/// The string is well-formed dice notation.
pub open spec fn is_dice_format(s: Seq<char>) -> bool {
    exists|i: int| #[trigger] dice_split_at(s, i)
}

/// The count a well-formed dice string names.
pub open spec fn spec_dice_count(s: Seq<char>) -> int {
    digits_val(s.take(choose|i: int| #[trigger] dice_split_at(s, i)))
}

/// The die size a well-formed dice string names.
pub open spec fn spec_dice_size(s: Seq<char>) -> int {
    digits_val(s.skip((choose|i: int| #[trigger] dice_split_at(s, i)) + 1))
}

/// Digit runs only grow in value as they extend.
proof fn lemma_digits_val_prefix_le(s: Seq<char>, i: int)
    requires
        all_digits(s),
        0 <= i <= s.len(),
    ensures
        digits_val(s.take(i)) <= digits_val(s),
        digits_val(s) >= 0,
    decreases s.len() - i,
{
    if i == s.len() {
        assert(s.take(i) =~= s);
        lemma_digits_val_nonneg(s);
    } else {
        lemma_digits_val_prefix_le(s, i + 1);
        assert(s.take(i + 1).drop_last() =~= s.take(i));
        lemma_digits_val_nonneg(s.take(i));
        assert(digits_val(s.take(i + 1)) == digits_val(s.take(i)) * 10 + (s[i] as u32 - 48));
        assert(digits_val(s.take(i)) * 10 >= digits_val(s.take(i))) by (nonlinear_arith)
            requires
                digits_val(s.take(i)) >= 0,
        ;
    }
}

proof fn lemma_digits_val_nonneg(s: Seq<char>)
    requires
        all_digits(s),
    ensures
        digits_val(s) >= 0,
    decreases s.len(),
{
    if s.len() > 0 {
        assert(all_digits(s.drop_last()));
        lemma_digits_val_nonneg(s.drop_last());
        assert(is_digit(s.last()));
        assert(digits_val(s.drop_last()) * 10 >= 0) by (nonlinear_arith)
            requires
                digits_val(s.drop_last()) >= 0,
        ;
    }
}

/// A dice split is unique: digits are never 'd', so only one position can
/// carry the separator.
proof fn lemma_dice_split_unique(s: Seq<char>, i: int, j: int)
    requires
        dice_split_at(s, i),
        dice_split_at(s, j),
    ensures
        i == j,
{
    if i < j {
        assert(s.take(j)[i] == s[i]);
        assert(is_digit(s[i]));
        assert('d' as u32 == 100);
        assert(!is_digit('d'));
    }
    if j < i {
        assert(s.take(i)[j] == s[j]);
        assert(is_digit(s[j]));
        assert('d' as u32 == 100);
        assert(!is_digit('d'));
    }
}

/// Parse a run of digits into a value, rejecting anything that does not
/// fit in 32 bits.
fn parse_digits(s: &str, from: usize, to: usize) -> (r: Option<u32>)
    requires
        from <= to <= s@.len(),
        all_digits(s@.subrange(from as int, to as int)),
    ensures
        match r {
            Some(v) => v == digits_val(s@.subrange(from as int, to as int)),
            None => digits_val(s@.subrange(from as int, to as int)) > u32::MAX,
        },
{
    let ghost seg = s@.subrange(from as int, to as int);
    let mut val: u32 = 0;
    let mut i: usize = from;
    while i < to
        invariant
            from <= i <= to <= s@.len(),
            seg == s@.subrange(from as int, to as int),
            all_digits(seg),
            val == digits_val(seg.take(i - from)),
        decreases to - i,
    {
        let c = s.get_char(i);
        proof {
            assert(seg[i - from] == s@[i as int]);
            assert(is_digit(c));
            assert(seg.take(i - from + 1).drop_last() =~= seg.take(i - from));
        }
        let d: u32 = (c as u32) - 48;
        if val > (u32::MAX - d) / 10 {
            proof {
                assert(digits_val(seg.take(i - from + 1)) == val * 10 + d);
                assert(val * 10 + d > u32::MAX) by (nonlinear_arith)
                    requires
                        val > (u32::MAX - d) / 10,
                        0 <= d <= 9,
                ;
                lemma_digits_val_prefix_le(seg, i - from + 1);
            }
            return None;
        }
        proof {
            assert(val * 10 + d <= u32::MAX) by (nonlinear_arith)
                requires
                    val <= (u32::MAX - d) / 10,
                    0 <= d <= 9,
            ;
        }
        val = val * 10 + d;
        i += 1;
    }
    proof {
        assert(seg.take(to - from) =~= seg);
    }
    Some(val)
}

/// Parse dice notation like "3d6". Exactly the strings of the form
/// digits-'d'-digits are accepted, provided both values fit in 32 bits;
/// a zero die size is rejected on its own.
pub fn parse_dice(dice: &str) -> (r: Result<DiceRoll, DiceError>)
    ensures
        match r {
            Ok(d) => is_dice_format(dice@) && d.count == spec_dice_count(dice@) && d.size
                == spec_dice_size(dice@) && d.size > 0 && spec_dice_count(dice@) <= u32::MAX
                && spec_dice_size(dice@) <= u32::MAX,
            Err(e) => e != DiceError::MissingInput && (e == DiceError::ZeroSize <==> (
            is_dice_format(dice@) && spec_dice_count(dice@) <= u32::MAX && spec_dice_size(dice@)
                <= u32::MAX && spec_dice_size(dice@) == 0)) && (e == DiceError::InvalidFormat
                <==> !(is_dice_format(dice@) && spec_dice_count(dice@) <= u32::MAX
                && spec_dice_size(dice@) <= u32::MAX)),
        },
{
    let n = dice.unicode_len();
    // Find the first 'd'; any valid split can only sit there.
    let mut sep: usize = 0;
    let mut found = false;
    let mut i: usize = 0;
    while i < n
        invariant
            0 <= i <= n,
            n == dice@.len(),
            !found ==> forall|j: int| 0 <= j < i ==> dice@[j] != 'd',
            found ==> sep < i && dice@[sep as int] == 'd' && forall|j: int|
                0 <= j < sep ==> dice@[j] != 'd',
        decreases n - i,
    {
        if !found && dice.get_char(i) == 'd' {
            sep = i;
            found = true;
        }
        i += 1;
    }
    if !found || sep == 0 || sep + 1 >= n {
        proof {
            if exists|k: int| #[trigger] dice_split_at(dice@, k) {
                let k = choose|k: int| #[trigger] dice_split_at(dice@, k);
                if !found {
                    assert(dice@[k] == 'd');
                } else {
                    if k < sep {
                        assert(dice@[k] == 'd');
                    } else if k > sep {
                        assert(dice@.take(k)[sep as int] == dice@[sep as int]);
                        assert(is_digit(dice@[sep as int]));
                        assert('d' as u32 == 100);
        assert(!is_digit('d'));
                    }
                }
            }
        }
        return Err(DiceError::InvalidFormat);
    }
    // Check that both segments are digit runs.
    let mut all_ok = true;
    let mut j: usize = 0;
    while j < n
        invariant
            0 <= j <= n,
            n == dice@.len(),
            sep < n,
            all_ok ==> forall|k: int| 0 <= k < j && k != sep ==> is_digit(#[trigger] dice@[k]),
            !all_ok ==> exists|k: int| 0 <= k < n && k != sep && !is_digit(#[trigger] dice@[k]),
        decreases n - j,
    {
        if j != sep {
            let c = dice.get_char(j);
            if c < '0' || c > '9' {
                proof {
                    assert(!is_digit(dice@[j as int]));
                }
                all_ok = false;
            }
        }
        j += 1;
    }
    if !all_ok {
        proof {
            let k = choose|k: int| 0 <= k < n && k != sep && !is_digit(#[trigger] dice@[k]);
            if exists|m: int| #[trigger] dice_split_at(dice@, m) {
                let m = choose|m: int| #[trigger] dice_split_at(dice@, m);
                assert(m == sep) by {
                    if m < sep {
                        assert(dice@[m] == 'd');
                    } else if m > sep {
                        assert(dice@.take(m)[sep as int] == dice@[sep as int]);
                        assert(is_digit(dice@[sep as int]));
                        assert('d' as u32 == 100);
        assert(!is_digit('d'));
                    }
                }
                if k < sep {
                    assert(dice@.take(sep as int)[k] == dice@[k]);
                } else {
                    assert(dice@.skip(sep + 1)[k - sep - 1] == dice@[k]);
                }
            }
        }
        return Err(DiceError::InvalidFormat);
    }
    proof {
        assert forall|k: int| 0 <= k < dice@.take(sep as int).len() implies is_digit(
            #[trigger] dice@.take(sep as int)[k],
        ) by {
            assert(dice@.take(sep as int)[k] == dice@[k]);
        }
        assert forall|k: int| 0 <= k < dice@.skip(sep + 1).len() implies is_digit(
            #[trigger] dice@.skip(sep + 1)[k],
        ) by {
            assert(dice@.skip(sep + 1)[k] == dice@[k + sep + 1]);
        }
        assert(dice_split_at(dice@, sep as int));
        let m = choose|m: int| #[trigger] dice_split_at(dice@, m);
        lemma_dice_split_unique(dice@, m, sep as int);
        assert(dice@.take(sep as int) =~= dice@.subrange(0, sep as int));
        assert(dice@.skip(sep + 1) =~= dice@.subrange(sep + 1, n as int));
    }
    let count = match parse_digits(dice, 0, sep) {
        Some(v) => v,
        None => {
            return Err(DiceError::InvalidFormat);
        },
    };
    let size = match parse_digits(dice, sep + 1, n) {
        Some(v) => v,
        None => {
            return Err(DiceError::InvalidFormat);
        },
    };
    if size == 0 {
        return Err(DiceError::ZeroSize);
    }
    Ok(DiceRoll { count, size })
}

/// Roll dice from a notation string. An empty string is its own error;
/// otherwise the notation is parsed and each die yields a value between 1
/// and the die size.
pub fn roll(dice: &str) -> (r: Result<Vec<u32>, DiceError>)
    ensures
        dice@.len() == 0 ==> (r matches Err(e) && e == DiceError::MissingInput),
        dice@.len() > 0 ==> match r {
            Ok(v) => is_dice_format(dice@) && spec_dice_size(dice@) > 0 && v@.len()
                == spec_dice_count(dice@) && forall|i: int|
                0 <= i < v@.len() ==> 1 <= #[trigger] v@[i] <= spec_dice_size(dice@),
            Err(e) => e != DiceError::MissingInput,
        },
{
    if dice.is_empty() {
        return Err(DiceError::MissingInput);
    }
    let parsed = match parse_dice(dice) {
        Ok(p) => p,
        Err(e) => {
            return Err(e);
        },
    };
    let mut results: Vec<u32> = Vec::new();
    let mut i: u32 = 0;
    while i < parsed.count
        invariant
            0 <= i <= parsed.count,
            parsed.size >= 1,
            results@.len() == i,
            parsed.count == spec_dice_count(dice@),
            parsed.size == spec_dice_size(dice@),
            forall|j: int| 0 <= j < results@.len() ==> 1 <= #[trigger] results@[j] <= parsed.size,
        decreases parsed.count - i,
    {
        let v = random_inclusive(1, parsed.size as i64);
        results.push(v as u32);
        i += 1;
    }
    Ok(results)
}

} // verus!
