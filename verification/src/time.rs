//! Civil UTC timestamps as plain calendar fields.
//!
//! The store keys its documents by calendar date and second-of-day, so a
//! timestamp here is the seven civil fields themselves, not an opaque
//! clock value: year, month, day, hour, minute, second and nanoseconds.
//! The module gives the validity predicate for those fields, truncation to
//! whole seconds, a total order, and the fixed-width textual interchange
//! form (RFC 3339 at second resolution, UTC offset) that the store writes
//! and reads back.

use vstd::prelude::*;
use crate::text::is_digit;
use crate::text::spec_digit_char;
use crate::text::spec_digit_val;
use crate::text::spec_pad2;
use crate::text::spec_pad4;
use crate::text::push_pad2;
use crate::text::push_pad4;
use crate::text::chars_to_string;
use vstd::string::*;

verus! {

/// A point in civil time on the UTC timeline, to nanosecond resolution.
#[derive(Clone, Copy, Debug, PartialEq, Eq, Structural)]
pub struct UtcTime {
    pub year: u16,
    pub month: u8,
    pub day: u8,
    pub hour: u8,
    pub minute: u8,
    pub second: u8,
    pub nanos: u32,
}

/// Gregorian leap-year rule.
pub open spec fn is_leap_year(y: int) -> bool {
    (y % 4 == 0 && y % 100 != 0) || y % 400 == 0
}

/// Days in a month of the Gregorian calendar.
pub open spec fn days_in_month(y: int, m: int) -> int {
    if m == 2 {
        if is_leap_year(y) {
            29
        } else {
            28
        }
    } else if m == 4 || m == 6 || m == 9 || m == 11 {
        30
    } else {
        31
    }
}

/// Gregorian leap-year rule.
pub fn leap_year(y: u16) -> (r: bool)
    ensures
        r == is_leap_year(y as int),
{
    (y % 4 == 0 && y % 100 != 0) || y % 400 == 0
}

/// Days in a month of the Gregorian calendar.
pub fn month_days(y: u16, m: u8) -> (r: u8)
    ensures
        r as int == days_in_month(y as int, m as int),
{
    if m == 2 {
        if leap_year(y) {
            29
        } else {
            28
        }
    } else if m == 4 || m == 6 || m == 9 || m == 11 {
        30
    } else {
        31
    }
}

impl UtcTime {
    /// The fields name a real calendar instant, in a year the fixed
    /// four-digit text form can carry.
    pub open spec fn wf(self) -> bool {
        &&& self.year <= 9999
        &&& 1 <= self.month <= 12
        &&& 1 <= self.day <= days_in_month(self.year as int, self.month as int)
        &&& self.hour < 24
        &&& self.minute < 60
        &&& self.second < 60
        &&& self.nanos < 1_000_000_000
    }

    /// The same instant with the sub-second component dropped.
    pub open spec fn truncated(self) -> UtcTime {
        UtcTime {
            year: self.year,
            month: self.month,
            day: self.day,
            hour: self.hour,
            minute: self.minute,
            second: self.second,
            nanos: 0,
        }
    }

    /// Build a timestamp from its fields, if they name a real instant.
    pub fn new(year: u16, month: u8, day: u8, hour: u8, minute: u8, second: u8, nanos: u32) -> (r:
        Option<UtcTime>)
        ensures
            ({
                let t = UtcTime { year, month, day, hour, minute, second, nanos };
                match r {
                    Some(u) => u == t && t.wf(),
                    None => !t.wf(),
                }
            }),
    {
        if year <= 9999 && 1 <= month && month <= 12 && 1 <= day && day <= month_days(year, month)
            && hour < 24 && minute < 60 && second < 60 && nanos < 1_000_000_000 {
            Some(UtcTime { year, month, day, hour, minute, second, nanos })
        } else {
            None
        }
    }

    /// Drop sub-second precision: the store keeps one-second resolution.
    pub fn truncate_subsec(self) -> (t: UtcTime)
        ensures
            t == self.truncated(),
    {
        UtcTime {
            year: self.year,
            month: self.month,
            day: self.day,
            hour: self.hour,
            minute: self.minute,
            second: self.second,
            nanos: 0,
        }
    }
}

/// A single integer that orders timestamps chronologically: later civil
/// fields give a strictly larger key.
pub open spec fn time_key(t: UtcTime) -> int {
    (((((t.year * 13 + t.month) * 32 + t.day) * 24 + t.hour) * 60 + t.minute) * 60 + t.second)
        * 1_000_000_000 + t.nanos
}

/// On valid timestamps the ordering key determines the fields.
pub proof fn lemma_time_key_injective(a: UtcTime, b: UtcTime)
    requires
        a.wf(),
        b.wf(),
        time_key(a) == time_key(b),
    ensures
        a == b,
{
}

/// The textual interchange form the store writes: RFC 3339 at second
/// resolution with an explicit UTC offset, `YYYY-MM-DDTHH:MM:SS+00:00`.
pub open spec fn spec_rfc3339(t: UtcTime) -> Seq<char> {
    spec_pad4(t.year as int) + seq!['-'] + spec_pad2(t.month as int) + seq!['-'] + spec_pad2(
        t.day as int,
    ) + seq!['T'] + spec_pad2(t.hour as int) + seq![':'] + spec_pad2(t.minute as int) + seq![':']
        + spec_pad2(t.second as int) + seq!['+', '0', '0', ':', '0', '0']
}

/// The same instant with the offset written as `Z`, the other spelling of
/// UTC the store accepts on read.
pub open spec fn spec_rfc3339_z(t: UtcTime) -> Seq<char> {
    spec_pad4(t.year as int) + seq!['-'] + spec_pad2(t.month as int) + seq!['-'] + spec_pad2(
        t.day as int,
    ) + seq!['T'] + spec_pad2(t.hour as int) + seq![':'] + spec_pad2(t.minute as int) + seq![':']
        + spec_pad2(t.second as int) + seq!['Z']
}

/// `s` is the interchange text of some valid whole-second instant.
pub open spec fn rfc_parseable(s: Seq<char>) -> bool {
    exists|t: UtcTime| t.wf() && t.nanos == 0 && (s == spec_rfc3339(t) || s == spec_rfc3339_z(t))
}

/// Append the interchange text of `t`, with the `+00:00` offset.
#[verifier::rlimit(60)]
#[verifier::spinoff_prover]
pub fn push_rfc3339(v: &mut Vec<char>, t: UtcTime)
    requires
        t.wf(),
    ensures
        final(v)@ == old(v)@ + spec_rfc3339(t),
{
    push_pad4(v, t.year);
    v.push('-');
    push_pad2(v, t.month);
    v.push('-');
    push_pad2(v, t.day);
    v.push('T');
    push_pad2(v, t.hour);
    v.push(':');
    push_pad2(v, t.minute);
    v.push(':');
    push_pad2(v, t.second);
    v.push('+');
    v.push('0');
    v.push('0');
    v.push(':');
    v.push('0');
    v.push('0');
    assert(v@ =~= old(v)@ + spec_rfc3339(t));
}

/// The interchange text of `t`, with the `+00:00` offset.
pub fn rfc3339_string(t: &UtcTime) -> (s: String)
    requires
        t.wf(),
    ensures
        s@ == spec_rfc3339(*t),
{
    let mut v: Vec<char> = Vec::new();
    push_rfc3339(&mut v, *t);
    chars_to_string(&v)
}

/// A four-digit number splits into its decimal digits in exactly one way.
pub proof fn lemma_digits4(n: int)
    requires
        0 <= n < 10000,
    ensures
        n / 1000 % 10 == n / 1000,
        n / 1000 % 10 * 1000 + n / 100 % 10 * 100 + n / 10 % 10 * 10 + n % 10 == n,
{
    vstd::arithmetic::div_mod::lemma_fundamental_div_mod(n, 10);
    vstd::arithmetic::div_mod::lemma_mod_bound(n, 10);
    vstd::arithmetic::div_mod::lemma_fundamental_div_mod(n / 10, 10);
    vstd::arithmetic::div_mod::lemma_mod_bound(n / 10, 10);
    vstd::arithmetic::div_mod::lemma_fundamental_div_mod(n / 100, 10);
    vstd::arithmetic::div_mod::lemma_mod_bound(n / 100, 10);
    vstd::arithmetic::div_mod::lemma_div_denominator(n, 10, 10);
    vstd::arithmetic::div_mod::lemma_div_denominator(n, 100, 10);
    vstd::arithmetic::div_mod::lemma_div_is_ordered(0, n, 1000);
    vstd::arithmetic::div_mod::lemma_div_is_ordered(n, 9999, 1000);
    vstd::arithmetic::div_mod::lemma_small_mod((n / 1000) as nat, 10);
}

/// A two-digit number splits into its decimal digits in exactly one way.
pub proof fn lemma_digits2(n: int)
    requires
        0 <= n < 100,
    ensures
        n / 10 % 10 == n / 10,
        n / 10 % 10 * 10 + n % 10 == n,
{
    vstd::arithmetic::div_mod::lemma_fundamental_div_mod(n, 10);
    vstd::arithmetic::div_mod::lemma_mod_bound(n, 10);
    vstd::arithmetic::div_mod::lemma_div_is_ordered(0, n, 10);
    vstd::arithmetic::div_mod::lemma_div_is_ordered(n, 99, 10);
    vstd::arithmetic::div_mod::lemma_small_mod((n / 10) as nat, 10);
}

/// A digit character is recovered from its value.
proof fn lemma_digit_val_char(c: char)
    requires
        is_digit(c),
    ensures
        spec_digit_char(spec_digit_val(c)) == c,
{
}

/// Everything the interchange text of a valid instant determines: its
/// length, its separator and digit positions, and the civil fields that
/// its digits recompose to.
proof fn rfc_witness_facts(s: Seq<char>, t: UtcTime)
    requires
        t.wf(),
        t.nanos == 0,
        s == spec_rfc3339(t) || s == spec_rfc3339_z(t),
    ensures
        s.len() == 25 || s.len() == 20,
        s.len() == 25 ==> s == spec_rfc3339(t),
        s.len() == 20 ==> s == spec_rfc3339_z(t),
        is_digit(s[0]) && is_digit(s[1]) && is_digit(s[2]) && is_digit(s[3]),
        is_digit(s[5]) && is_digit(s[6]),
        is_digit(s[8]) && is_digit(s[9]),
        is_digit(s[11]) && is_digit(s[12]),
        is_digit(s[14]) && is_digit(s[15]),
        is_digit(s[17]) && is_digit(s[18]),
        s[4] == '-' && s[7] == '-' && s[10] == 'T' && s[13] == ':' && s[16] == ':',
        s.len() == 25 ==> s[19] == '+' && s[20] == '0' && s[21] == '0' && s[22] == ':' && s[23]
            == '0' && s[24] == '0',
        s.len() == 20 ==> s[19] == 'Z',
        spec_digit_val(s[0]) * 1000 + spec_digit_val(s[1]) * 100 + spec_digit_val(s[2]) * 10
            + spec_digit_val(s[3]) == t.year,
        spec_digit_val(s[5]) * 10 + spec_digit_val(s[6]) == t.month,
        spec_digit_val(s[8]) * 10 + spec_digit_val(s[9]) == t.day,
        spec_digit_val(s[11]) * 10 + spec_digit_val(s[12]) == t.hour,
        spec_digit_val(s[14]) * 10 + spec_digit_val(s[15]) == t.minute,
        spec_digit_val(s[17]) * 10 + spec_digit_val(s[18]) == t.second,
{
    lemma_digits4(t.year as int);
    lemma_digits2(t.month as int);
    lemma_digits2(t.day as int);
    lemma_digits2(t.hour as int);
    lemma_digits2(t.minute as int);
    lemma_digits2(t.second as int);
    assert(s[0] == spec_digit_char(t.year as int / 1000 % 10));
    assert(s[1] == spec_digit_char(t.year as int / 100 % 10));
    assert(s[2] == spec_digit_char(t.year as int / 10 % 10));
    assert(s[3] == spec_digit_char(t.year as int % 10));
    assert(s[5] == spec_digit_char(t.month as int / 10 % 10));
    assert(s[6] == spec_digit_char(t.month as int % 10));
    assert(s[8] == spec_digit_char(t.day as int / 10 % 10));
    assert(s[9] == spec_digit_char(t.day as int % 10));
    assert(s[11] == spec_digit_char(t.hour as int / 10 % 10));
    assert(s[12] == spec_digit_char(t.hour as int % 10));
    assert(s[14] == spec_digit_char(t.minute as int / 10 % 10));
    assert(s[15] == spec_digit_char(t.minute as int % 10));
    assert(s[17] == spec_digit_char(t.second as int / 10 % 10));
    assert(s[18] == spec_digit_char(t.second as int % 10));
}

/// Read the two-digit number at position `i`.
fn two_digits(s: &str, i: usize) -> (r: Option<u8>)
    requires
        i + 2 <= s@.len() <= usize::MAX,
    ensures
        match r {
            Some(d) => {
                &&& d < 100
                &&& is_digit(s@[i as int]) && is_digit(s@[i + 1])
                &&& d as int == spec_digit_val(s@[i as int]) * 10 + spec_digit_val(s@[i + 1])
            },
            None => !is_digit(s@[i as int]) || !is_digit(s@[i + 1]),
        },
{
    let hi = crate::text::digit_val(s.get_char(i));
    let lo = crate::text::digit_val(s.get_char(i + 1));
    match (hi, lo) {
        (Some(h), Some(l)) => Some(h * 10 + l),
        _ => None,
    }
}

/// Read the four-digit number at position `i`.
fn four_digits(s: &str, i: usize) -> (r: Option<u16>)
    requires
        i + 4 <= s@.len() <= usize::MAX,
    ensures
        match r {
            Some(d) => {
                &&& d < 10000
                &&& is_digit(s@[i as int]) && is_digit(s@[i + 1]) && is_digit(s@[i + 2])
                    && is_digit(s@[i + 3])
                &&& d as int == spec_digit_val(s@[i as int]) * 1000 + spec_digit_val(s@[i + 1])
                    * 100 + spec_digit_val(s@[i + 2]) * 10 + spec_digit_val(s@[i + 3])
            },
            None => !is_digit(s@[i as int]) || !is_digit(s@[i + 1]) || !is_digit(s@[i + 2])
                || !is_digit(s@[i + 3]),
        },
{
    let a = crate::text::digit_val(s.get_char(i));
    let b = crate::text::digit_val(s.get_char(i + 1));
    let c = crate::text::digit_val(s.get_char(i + 2));
    let d = crate::text::digit_val(s.get_char(i + 3));
    match (a, b, c, d) {
        (Some(a), Some(b), Some(c), Some(d)) => Some(
            (a as u16) * 1000 + (b as u16) * 100 + (c as u16) * 10 + (d as u16),
        ),
        _ => None,
    }
}

/// Interchange text is recovered from the fields its digits spell: when
/// every separator, suffix and digit position of `s` agrees with the
/// fields of `t`, then `s` is the interchange text of `t`.
#[verifier::rlimit(100)]
#[verifier::spinoff_prover]
proof fn rfc_reconstruct(s: Seq<char>, t: UtcTime)
    requires
        t.wf(),
        t.nanos == 0,
        s.len() == 25 || s.len() == 20,
        is_digit(s[0]) && is_digit(s[1]) && is_digit(s[2]) && is_digit(s[3]),
        is_digit(s[5]) && is_digit(s[6]),
        is_digit(s[8]) && is_digit(s[9]),
        is_digit(s[11]) && is_digit(s[12]),
        is_digit(s[14]) && is_digit(s[15]),
        is_digit(s[17]) && is_digit(s[18]),
        s[4] == '-' && s[7] == '-' && s[10] == 'T' && s[13] == ':' && s[16] == ':',
        s.len() == 25 ==> s[19] == '+' && s[20] == '0' && s[21] == '0' && s[22] == ':' && s[23]
            == '0' && s[24] == '0',
        s.len() == 20 ==> s[19] == 'Z',
        spec_digit_val(s[0]) * 1000 + spec_digit_val(s[1]) * 100 + spec_digit_val(s[2]) * 10
            + spec_digit_val(s[3]) == t.year,
        spec_digit_val(s[5]) * 10 + spec_digit_val(s[6]) == t.month,
        spec_digit_val(s[8]) * 10 + spec_digit_val(s[9]) == t.day,
        spec_digit_val(s[11]) * 10 + spec_digit_val(s[12]) == t.hour,
        spec_digit_val(s[14]) * 10 + spec_digit_val(s[15]) == t.minute,
        spec_digit_val(s[17]) * 10 + spec_digit_val(s[18]) == t.second,
    ensures
        s.len() == 25 ==> s == spec_rfc3339(t),
        s.len() == 20 ==> s == spec_rfc3339_z(t),
{
    lemma_digits4(t.year as int);
    lemma_digits2(t.month as int);
    lemma_digits2(t.day as int);
    lemma_digits2(t.hour as int);
    lemma_digits2(t.minute as int);
    lemma_digits2(t.second as int);
    lemma_digit_val_char(s[0]);
    lemma_digit_val_char(s[1]);
    lemma_digit_val_char(s[2]);
    lemma_digit_val_char(s[3]);
    lemma_digit_val_char(s[5]);
    lemma_digit_val_char(s[6]);
    lemma_digit_val_char(s[8]);
    lemma_digit_val_char(s[9]);
    lemma_digit_val_char(s[11]);
    lemma_digit_val_char(s[12]);
    lemma_digit_val_char(s[14]);
    lemma_digit_val_char(s[15]);
    lemma_digit_val_char(s[17]);
    lemma_digit_val_char(s[18]);
    assert(s[0] == spec_digit_char(t.year as int / 1000 % 10));
    assert(s[1] == spec_digit_char(t.year as int / 100 % 10));
    assert(s[2] == spec_digit_char(t.year as int / 10 % 10));
    assert(s[3] == spec_digit_char(t.year as int % 10));
    assert(s[5] == spec_digit_char(t.month as int / 10 % 10));
    assert(s[6] == spec_digit_char(t.month as int % 10));
    assert(s[8] == spec_digit_char(t.day as int / 10 % 10));
    assert(s[9] == spec_digit_char(t.day as int % 10));
    assert(s[11] == spec_digit_char(t.hour as int / 10 % 10));
    assert(s[12] == spec_digit_char(t.hour as int % 10));
    assert(s[14] == spec_digit_char(t.minute as int / 10 % 10));
    assert(s[15] == spec_digit_char(t.minute as int % 10));
    assert(s[17] == spec_digit_char(t.second as int / 10 % 10));
    assert(s[18] == spec_digit_char(t.second as int % 10));
    if s.len() == 25 {
        assert(s =~= spec_rfc3339(t));
    } else {
        assert(s =~= spec_rfc3339_z(t));
    }
}

/// Parse interchange text back into a timestamp, exactly: the result is
/// `Some` for precisely the texts of valid whole-second instants with a
/// UTC offset, written either `+00:00` or `Z`.
#[verifier::rlimit(60)]
pub fn parse_rfc3339(s: &str) -> (r: Option<UtcTime>)
    ensures
        match r {
            Some(t) => t.wf() && t.nanos == 0 && (s@ == spec_rfc3339(t) || s@ == spec_rfc3339_z(
                t,
            )),
            None => !rfc_parseable(s@),
        },
{
    let n = s.unicode_len();
    if n != 20 && n != 25 {
        proof {
            if rfc_parseable(s@) {
                let t = choose|t: UtcTime|
                    t.wf() && t.nanos == 0 && (s@ == spec_rfc3339(t) || s@ == spec_rfc3339_z(t));
                rfc_witness_facts(s@, t);
                assert(false);
            }
        }
        return None;
    }
    let sep_ok = s.get_char(4) == '-' && s.get_char(7) == '-' && s.get_char(10) == 'T'
        && s.get_char(13) == ':' && s.get_char(16) == ':';
    let suffix_ok = if n == 25 {
        s.get_char(19) == '+' && s.get_char(20) == '0' && s.get_char(21) == '0' && s.get_char(22)
            == ':' && s.get_char(23) == '0' && s.get_char(24) == '0'
    } else {
        s.get_char(19) == 'Z'
    };
    let year = four_digits(s, 0);
    let month = two_digits(s, 5);
    let day = two_digits(s, 8);
    let hour = two_digits(s, 11);
    let minute = two_digits(s, 14);
    let second = two_digits(s, 17);
    if !sep_ok || !suffix_ok || year.is_none() || month.is_none() || day.is_none()
        || hour.is_none() || minute.is_none() || second.is_none() {
        proof {
            if rfc_parseable(s@) {
                let t = choose|t: UtcTime|
                    t.wf() && t.nanos == 0 && (s@ == spec_rfc3339(t) || s@ == spec_rfc3339_z(t));
                rfc_witness_facts(s@, t);
                assert(false);
            }
        }
        return None;
    }
    match UtcTime::new(
        year.unwrap(),
        month.unwrap(),
        day.unwrap(),
        hour.unwrap(),
        minute.unwrap(),
        second.unwrap(),
        0,
    ) {
        Some(t) => {
            proof {
                rfc_reconstruct(s@, t);
            }
            Some(t)
        },
        None => {
            proof {
                if rfc_parseable(s@) {
                    let t = choose|t: UtcTime|
                        t.wf() && t.nanos == 0 && (s@ == spec_rfc3339(t) || s@ == spec_rfc3339_z(
                            t,
                        ));
                    rfc_witness_facts(s@, t);
                    assert(false);
                }
            }
            None
        },
    }
}

} // verus!
