//! Civil dates in a named time zone. The zone arithmetic itself comes from
//! the time-zone database; the daily-limit comparison and the date
//! formatting are verified over the resulting (year, month, day) triple.

use vstd::prelude::*;
use vstd::string::StringExecFns;

use crate::text::{dec_digits, dec_int, u64_string};

verus! {

/// The civil (year, month, day) a time zone assigns to an epoch instant;
/// `None` when the zone name is unknown or the instant unrepresentable.
/// The zone database is compiled in, so this is a function of the
/// arguments alone.
pub uninterp spec fn civil_date(tz: Seq<char>, epoch_seconds: int) -> Option<(i32, u32, u32)>;

/// Relies on chrono-tz's `Tz` zone lookup and chrono's timestamp
/// conversion and `Datelike` accessors: the civil date of an instant in a
/// zone, with month in [1, 12] and day in [1, 31].
#[verifier::external_body]
pub fn civil_date_of(tz: &str, epoch_seconds: i64) -> (r: Option<(i32, u32, u32)>)
    ensures
        r == civil_date(tz@, epoch_seconds as int),
        r matches Some(d) ==> 1 <= d.1 <= 12 && 1 <= d.2 <= 31,
{
    let zone: chrono_tz::Tz = match tz.parse() {
        Ok(z) => z,
        Err(_) => {
            return None;
        },
    };
    match chrono::TimeZone::timestamp_opt(&zone, epoch_seconds, 0) {
        chrono::offset::LocalResult::Single(t) => Some((
            chrono::Datelike::year(&t),
            chrono::Datelike::month(&t),
            chrono::Datelike::day(&t),
        )),
        _ => None,
    }
}

/// Whether two instants fall on the same civil day of a zone; false when
/// the zone is unknown or either instant unrepresentable.
pub fn is_today(tz: &str, now_epoch: i64, then_epoch: i64) -> (r: bool)
    ensures
        r == (civil_date(tz@, now_epoch as int) is Some && civil_date(tz@, now_epoch as int)
            == civil_date(tz@, then_epoch as int)),
{
    let a = civil_date_of(tz, now_epoch);
    let b = civil_date_of(tz, then_epoch);
    match (a, b) {
        (Some(d1), Some(d2)) => d1.0 == d2.0 && d1.1 == d2.1 && d1.2 == d2.2,
        _ => false,
    }
}

/// `n` in decimal, left-padded with zeros to at least two digits.
pub open spec fn spec_pad2(n: int) -> Seq<char> {
    if n < 10 {
        seq!['0'] + dec_digits(n)
    } else {
        dec_digits(n)
    }
}

/// `y` in decimal, left-padded with zeros to four digits when it has
/// fewer; years outside [0, 9999] render unpadded.
pub open spec fn spec_pad4(y: int) -> Seq<char> {
    if 0 <= y < 10 {
        seq!['0', '0', '0'] + dec_digits(y)
    } else if 10 <= y < 100 {
        seq!['0', '0'] + dec_digits(y)
    } else if 100 <= y < 1000 {
        seq!['0'] + dec_digits(y)
    } else {
        dec_int(y)
    }
}

/// The "YYYY-MM-DD" rendering of a civil date.
pub open spec fn spec_day_string(y: int, m: int, d: int) -> Seq<char> {
    spec_pad4(y) + seq!['-'] + spec_pad2(m) + seq!['-'] + spec_pad2(d)
}

pub fn pad2(n: u64) -> (r: String)
    ensures
        r@ == spec_pad2(n as int),
{
    let mut s = String::new();
    proof {
        reveal_strlit("0");
        assert("0"@ =~= seq!['0']);
    }
    if n < 10 {
        s.append("0");
    }
    s.append(u64_string(n).as_str());
    proof {
        assert(s@ =~= spec_pad2(n as int));
    }
    s
}

/// Format an instant as "YYYY-MM-DD" in the given zone; `None` when the
/// zone is unknown or the instant unrepresentable.
pub fn day_string(tz: &str, epoch_seconds: i64) -> (r: Option<String>)
    ensures
        match r {
            Some(s) => civil_date(tz@, epoch_seconds as int) matches Some(d) && s@
                == spec_day_string(d.0 as int, d.1 as int, d.2 as int),
            None => civil_date(tz@, epoch_seconds as int) is None,
        },
{
    match civil_date_of(tz, epoch_seconds) {
        Some((y, m, d)) => {
            proof {
                reveal_strlit("0");
                reveal_strlit("-");
                assert("0"@ =~= seq!['0']);
                assert("-"@ =~= seq!['-']);
            }
            let mut s = String::new();
            if y >= 0 {
                if y < 10 {
                    s.append("0");
                    s.append("0");
                    s.append("0");
                } else if y < 100 {
                    s.append("0");
                    s.append("0");
                } else if y < 1000 {
                    s.append("0");
                }
            }
            s.append(crate::text::i64_string(y as i64).as_str());
            proof {
                assert(s@ =~= spec_pad4(y as int));
            }
            s.append("-");
            s.append(pad2(m as u64).as_str());
            s.append("-");
            s.append(pad2(d as u64).as_str());
            proof {
                assert(s@ =~= spec_day_string(y as int, m as int, d as int));
            }
            Some(s)
        },
        None => None,
    }
}

} // verus!
