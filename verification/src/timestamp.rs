//! Conversion of the exchange's ISO-8601 timestamps — `2014-11-07T08:19:27.028459Z`
//! — to wall-clock milliseconds since the Unix epoch.

use vstd::prelude::*;
use crate::digits::{digit_val, digits_val, is_digit, char_digit};
use vstd::string::StrSliceExecFns;

verus! {

/// Leap years of the Gregorian calendar.
pub open spec fn is_leap_year(y: int) -> bool {
    (y % 4 == 0 && y % 100 != 0) || y % 400 == 0
}

/// Days in a month.
pub open spec fn days_in_month(y: int, m: int) -> int {
    if m == 2 {
        if is_leap_year(y) {
            29
        } else {
            28
        }
    } else if m == 4 || m == 6 || m == 9 || m == 11 {
        30
    } else {
        31
    }
}

/// Days from the civil epoch 1970-01-01 to `y-m-d`, counting in eras of
/// 400 years (146097 days); sound for dates at or after the epoch.
pub open spec fn days_from_civil(y: int, m: int, d: int) -> int {
    let yy = if m <= 2 {
        y - 1
    } else {
        y
    };
    let era = yy / 400;
    let yoe = yy - era * 400;
    let mp = if m > 2 {
        m - 3
    } else {
        m + 9
    };
    let doy = (153 * mp + 2) / 5 + d - 1;
    let doe = yoe * 365 + yoe / 4 - yoe / 100 + doy;
    era * 146097 + doe - 719468
}

/// The characters of `s` between `a` and `b` are all digits.
pub open spec fn digits_at(s: Seq<char>, a: int, b: int) -> bool {
    forall|i: int| a <= i < b ==> is_digit(#[trigger] s[i])
}

/// The number the digits of `s` between `a` and `b` spell.
pub open spec fn field_val(s: Seq<char>, a: int, b: int) -> int {
    digits_val(s.subrange(a, b))
}

/// The shape `YYYY-MM-DDTHH:MM:SS`, optionally `.f+`, then `Z`, with
/// every field in range and the date at or after the Unix epoch.
pub open spec fn iso_shape(s: Seq<char>) -> bool {
    &&& s.len() >= 20
    &&& digits_at(s, 0, 4) && s[4] == '-'
    &&& digits_at(s, 5, 7) && s[7] == '-'
    &&& digits_at(s, 8, 10) && s[10] == 'T'
    &&& digits_at(s, 11, 13) && s[13] == ':'
    &&& digits_at(s, 14, 16) && s[16] == ':'
    &&& digits_at(s, 17, 19)
    &&& s[s.len() - 1] == 'Z'
    &&& (s.len() == 20 || (s.len() >= 22 && s[19] == '.' && digits_at(s, 20, s.len() - 1)))
    &&& 1970 <= field_val(s, 0, 4)
    &&& 1 <= field_val(s, 5, 7) <= 12
    &&& 1 <= field_val(s, 8, 10) <= days_in_month(field_val(s, 0, 4), field_val(s, 5, 7))
    &&& field_val(s, 11, 13) <= 23
    &&& field_val(s, 14, 16) <= 59
    &&& field_val(s, 17, 19) <= 59
}

/// The milliseconds the fraction contributes: its first three digits,
/// taken as zero where the fraction is shorter.
pub open spec fn frac_ms(s: Seq<char>) -> int {
    if s.len() == 20 {
        0
    } else {
        let fl = s.len() - 21;
        let d1 = digit_val(s[20]);
        let d2 = if fl >= 2 {
            digit_val(s[21])
        } else {
            0
        };
        let d3 = if fl >= 3 {
            digit_val(s[22])
        } else {
            0
        };
        d1 * 100 + d2 * 10 + d3
    }
}

/// The milliseconds since the Unix epoch an ISO-8601 timestamp denotes, or
/// `None` when the text is not one or names a date before the epoch.
#[verifier::opaque]
pub open spec fn sp_iso_ms(s: Seq<char>) -> Option<u64> {
    if !iso_shape(s) {
        None
    } else {
        let days = days_from_civil(field_val(s, 0, 4), field_val(s, 5, 7), field_val(s, 8, 10));
        if days < 0 {
            None
        } else {
            let ms = days * 86400000 + field_val(s, 11, 13) * 3600000 + field_val(s, 14, 16)
                * 60000 + field_val(s, 17, 19) * 1000 + frac_ms(s);
            Some(ms as u64)
        }
    }
}

/// Reads the digits of `s` between `a` and `b` (at most four of them).
fn read_field(s: &str, n: usize, a: usize, b: usize) -> (r: Option<u64>)
    requires
        n == s@.len(),
        a <= b <= n,
        b - a <= 4,
    ensures
        match r {
            Some(v) => digits_at(s@, a as int, b as int) && v == field_val(s@, a as int, b as int)
                && v < 10000,
            None => !digits_at(s@, a as int, b as int),
        },
{
    let mut i: usize = a;
    let mut acc: u64 = 0;
    while i < b
        invariant
            a <= i <= b,
            b <= n,
            n == s@.len(),
            b - a <= 4,
            digits_at(s@, a as int, i as int),
            acc == field_val(s@, a as int, i as int),
            acc < 10000,
        decreases b - i,
    {
        let c = s.get_char(i);
        let d = match char_digit(c) {
            Some(d) => d,
            None => {
                return None;
            },
        };
        proof {
            assert(s@.subrange(a as int, i as int + 1) =~= s@.subrange(a as int, i as int).push(
                s@[i as int],
            ));
            crate::digits::lemma_digits_val_snoc(s@.subrange(a as int, i as int), s@[i as int]);
            crate::digits::lemma_digits_val_bounds(s@.subrange(a as int, i as int + 1));
            crate::digits::lemma_pow10_mono((i + 1 - a) as nat, 4);
            assert(crate::digits::pow10(4) == 10000) by {
                reveal_with_fuel(crate::digits::pow10, 6);
            }
        }
        acc = acc * 10 + (d as u64);
        i = i + 1;
    }
    Some(acc)
}

/// The character at `i` of `s`.
fn char_at(s: &str, n: usize, i: usize) -> (c: char)
    requires
        n == s@.len(),
        i < n,
    ensures
        c == s@[i as int],
{
    s.get_char(i)
}

/// Days in a month, executable.
fn days_in_month_x(y: u64, m: u64) -> (r: u64)
    requires
        1 <= m <= 12,
    ensures
        r == days_in_month(y as int, m as int),
{
    if m == 2 {
        if (y % 4 == 0 && y % 100 != 0) || y % 400 == 0 {
            29
        } else {
            28
        }
    } else if m == 4 || m == 6 || m == 9 || m == 11 {
        30
    } else {
        31
    }
}

/// Converts an ISO-8601 timestamp to milliseconds since the Unix epoch, as
/// [`sp_iso_ms`] says; `None` for anything else.
#[verifier::rlimit(100)]
#[verifier::spinoff_prover]
pub fn iso_to_ms(s: &str) -> (r: Option<u64>)
    ensures
        r == sp_iso_ms(s@),
{
    proof {
        reveal(sp_iso_ms);
    }
    let n = s.unicode_len();
    if n < 20 {
        return None;
    }
    if char_at(s, n, 4) != '-' || char_at(s, n, 7) != '-' || char_at(s, n, 10) != 'T' || char_at(
        s,
        n,
        13,
    ) != ':' || char_at(s, n, 16) != ':' || char_at(s, n, n - 1) != 'Z' {
        return None;
    }
    let y = match read_field(s, n, 0, 4) {
        Some(v) => v,
        None => {
            return None;
        },
    };
    let mo = match read_field(s, n, 5, 7) {
        Some(v) => v,
        None => {
            return None;
        },
    };
    let d = match read_field(s, n, 8, 10) {
        Some(v) => v,
        None => {
            return None;
        },
    };
    let h = match read_field(s, n, 11, 13) {
        Some(v) => v,
        None => {
            return None;
        },
    };
    let mi = match read_field(s, n, 14, 16) {
        Some(v) => v,
        None => {
            return None;
        },
    };
    let sec = match read_field(s, n, 17, 19) {
        Some(v) => v,
        None => {
            return None;
        },
    };
    if y < 1970 || mo < 1 || mo > 12 || h > 23 || mi > 59 || sec > 59 {
        return None;
    }
    if d < 1 || d > days_in_month_x(y, mo) {
        return None;
    }
    // the fraction: a dot, then at least one digit, all digits up to the Z
    let mut fms: u64 = 0;
    if n > 20 {
        if n < 22 || char_at(s, n, 19) != '.' {
            return None;
        }
        let mut i: usize = 20;
        while i < n - 1
            invariant
                20 <= i <= n - 1,
                n == s@.len(),
                22 <= n,
                digits_at(s@, 20, i as int),
            decreases n - i,
        {
            let c = s.get_char(i);
            if char_digit(c).is_none() {
                proof {
                    reveal(sp_iso_ms);
                    assert(!is_digit(s@[i as int]));
                    assert(!digits_at(s@, 20, s@.len() - 1));
                    assert(!iso_shape(s@));
                }
                return None;
            }
            i = i + 1;
        }
        let d1 = match read_field(s, n, 20, 21) {
            Some(v) => v,
            None => {
                return None;
            },
        };
        proof {
            assert(s@.subrange(20, 21) =~= seq![s@[20]]);
            assert(seq![s@[20]].drop_last() =~= Seq::<char>::empty());
            assert(seq![s@[20]].last() == s@[20]);
            assert(digits_val(Seq::<char>::empty()) == 0);
            assert(digits_val(seq![s@[20]]) == digit_val(s@[20]));
            assert(d1 == digit_val(s@[20]));
        }
        fms = d1 * 100;
        if n - 21 >= 2 {
            let d2 = match read_field(s, n, 21, 22) {
                Some(v) => v,
                None => {
                    return None;
                },
            };
            proof {
                assert(s@.subrange(21, 22) =~= seq![s@[21]]);
                assert(seq![s@[21]].drop_last() =~= Seq::<char>::empty());
                assert(seq![s@[21]].last() == s@[21]);
                assert(digits_val(Seq::<char>::empty()) == 0);
                assert(digits_val(seq![s@[21]]) == digit_val(s@[21]));
                assert(d2 == digit_val(s@[21]));
            }
            fms = fms + d2 * 10;
        }
        if n - 21 >= 3 {
            let d3 = match read_field(s, n, 22, 23) {
                Some(v) => v,
                None => {
                    return None;
                },
            };
            proof {
                assert(s@.subrange(22, 23) =~= seq![s@[22]]);
                assert(seq![s@[22]].drop_last() =~= Seq::<char>::empty());
                assert(seq![s@[22]].last() == s@[22]);
                assert(digits_val(Seq::<char>::empty()) == 0);
                assert(digits_val(seq![s@[22]]) == digit_val(s@[22]));
                assert(d3 == digit_val(s@[22]));
            }
            fms = fms + d3;
        }
        proof {
            assert(fms == frac_ms(s@));
        }
    }
    // the calendar arithmetic of `days_from_civil`, bounded by the four
    // digit year
    let yy: u64 = if mo <= 2 {
        y - 1
    } else {
        y
    };
    let era: u64 = yy / 400;
    let yoe: u64 = yy - era * 400;
    let mp: u64 = if mo > 2 {
        mo - 3
    } else {
        mo + 9
    };
    let doy: u64 = (153 * mp + 2) / 5 + d - 1;
    let doe: u64 = yoe * 365 + yoe / 4 - yoe / 100 + doy;
    let big: u64 = era * 146097 + doe;
    if big < 719468 {
        // a day count before the epoch: rejected, like a year below 1970
        return None;
    }
    let days: u64 = big - 719468;
    proof {
        assert(field_val(s@, 0, 4) == y);
        assert(field_val(s@, 5, 7) == mo);
        assert(field_val(s@, 8, 10) == d);
        assert(field_val(s@, 11, 13) == h);
        assert(field_val(s@, 14, 16) == mi);
        assert(field_val(s@, 17, 19) == sec);
        assert(frac_ms(s@) == fms);
        assert(days_from_civil(y as int, mo as int, d as int) == days);
    }
    let ms: u64 = days * 86400000 + h * 3600000 + mi * 60000 + sec * 1000 + fms;
    Some(ms)
}

} // verus!
