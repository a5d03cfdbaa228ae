//! Decimal and JSON text helpers.
//!
//! The store talks to its backing engine in plain text: bucket names and
//! document identities are fixed-width decimal stamps, request bodies are
//! JSON built by hand, and temperatures come back as decimal number text.
//! This module holds the character-level building blocks: digit characters,
//! fixed-width zero padding, unbounded decimal rendering, JSON string
//! escaping, and an exact parser for decimal number text into millidegrees.

use vstd::prelude::*;
use vstd::string::*;

verus! {

/// The character for one decimal digit.
pub open spec fn spec_digit_char(d: int) -> char {
    if d == 0 {
        '0'
    } else if d == 1 {
        '1'
    } else if d == 2 {
        '2'
    } else if d == 3 {
        '3'
    } else if d == 4 {
        '4'
    } else if d == 5 {
        '5'
    } else if d == 6 {
        '6'
    } else if d == 7 {
        '7'
    } else if d == 8 {
        '8'
    } else {
        '9'
    }
}

/// The value of one decimal digit character, or -1 for any other character.
pub open spec fn spec_digit_val(c: char) -> int {
    if c == '0' {
        0
    } else if c == '1' {
        1
    } else if c == '2' {
        2
    } else if c == '3' {
        3
    } else if c == '4' {
        4
    } else if c == '5' {
        5
    } else if c == '6' {
        6
    } else if c == '7' {
        7
    } else if c == '8' {
        8
    } else if c == '9' {
        9
    } else {
        -1
    }
}

/// Decimal digit characters are exactly the characters with a digit value.
pub open spec fn is_digit(c: char) -> bool {
    spec_digit_val(c) >= 0
}

/// Reading a digit character back gives the digit.
pub proof fn lemma_digit_char_val(d: int)
    requires
        0 <= d < 10,
    ensures
        spec_digit_val(spec_digit_char(d)) == d,
{
}

/// The character for one decimal digit.
pub fn digit_char(d: u8) -> (c: char)
    requires
        d < 10,
    ensures
        c == spec_digit_char(d as int),
{
    match d {
        0 => '0',
        1 => '1',
        2 => '2',
        3 => '3',
        4 => '4',
        5 => '5',
        6 => '6',
        7 => '7',
        8 => '8',
        _ => '9',
    }
}

/// The value of one decimal digit character, if it is one.
pub fn digit_val(c: char) -> (r: Option<u8>)
    ensures
        match r {
            Some(d) => d < 10 && spec_digit_val(c) == d as int,
            None => spec_digit_val(c) == -1,
        },
{
    match c {
        '0' => Some(0),
        '1' => Some(1),
        '2' => Some(2),
        '3' => Some(3),
        '4' => Some(4),
        '5' => Some(5),
        '6' => Some(6),
        '7' => Some(7),
        '8' => Some(8),
        '9' => Some(9),
        _ => None,
    }
}

/// Unbounded decimal rendering of a natural number, most significant digit
/// first, with no leading zeros (a single zero for zero).
pub open spec fn spec_dec_digits(n: nat) -> Seq<char>
    decreases n,
{
    if n < 10 {
        seq![spec_digit_char(n as int)]
    } else {
        spec_dec_digits(n / 10) + seq![spec_digit_char((n % 10) as int)]
    }
}

/// Two-digit zero-padded decimal rendering.
pub open spec fn spec_pad2(n: int) -> Seq<char> {
    seq![spec_digit_char(n / 10 % 10), spec_digit_char(n % 10)]
}

/// Three-digit zero-padded decimal rendering.
pub open spec fn spec_pad3(n: int) -> Seq<char> {
    seq![spec_digit_char(n / 100 % 10), spec_digit_char(n / 10 % 10), spec_digit_char(n % 10)]
}

/// Four-digit zero-padded decimal rendering.
pub open spec fn spec_pad4(n: int) -> Seq<char> {
    seq![
        spec_digit_char(n / 1000 % 10),
        spec_digit_char(n / 100 % 10),
        spec_digit_char(n / 10 % 10),
        spec_digit_char(n % 10),
    ]
}

/// Append the unbounded decimal rendering of `n`.
pub fn push_dec_u64(v: &mut Vec<char>, n: u64)
    ensures
        final(v)@ == old(v)@ + spec_dec_digits(n as nat),
    decreases n,
{
    if n < 10 {
        v.push(digit_char(n as u8));
        assert(v@ =~= old(v)@ + spec_dec_digits(n as nat));
    } else {
        push_dec_u64(v, n / 10);
        v.push(digit_char((n % 10) as u8));
        assert(v@ =~= old(v)@ + spec_dec_digits(n as nat));
    }
}

/// Append the two-digit zero-padded rendering of `n`.
pub fn push_pad2(v: &mut Vec<char>, n: u8)
    requires
        n < 100,
    ensures
        final(v)@ == old(v)@ + spec_pad2(n as int),
{
    v.push(digit_char(n / 10));
    v.push(digit_char(n % 10));
    assert(n / 10 % 10 == n / 10);
    assert(v@ =~= old(v)@ + spec_pad2(n as int));
}

/// Append the three-digit zero-padded rendering of `n`.
pub fn push_pad3(v: &mut Vec<char>, n: u16)
    requires
        n < 1000,
    ensures
        final(v)@ == old(v)@ + spec_pad3(n as int),
{
    v.push(digit_char((n / 100) as u8));
    v.push(digit_char((n / 10 % 10) as u8));
    v.push(digit_char((n % 10) as u8));
    assert(n / 100 % 10 == n / 100);
    assert(v@ =~= old(v)@ + spec_pad3(n as int));
}

/// Append the four-digit zero-padded rendering of `n`.
pub fn push_pad4(v: &mut Vec<char>, n: u16)
    requires
        n < 10000,
    ensures
        final(v)@ == old(v)@ + spec_pad4(n as int),
{
    v.push(digit_char((n / 1000) as u8));
    v.push(digit_char((n / 100 % 10) as u8));
    v.push(digit_char((n / 10 % 10) as u8));
    v.push(digit_char((n % 10) as u8));
    assert(n / 1000 % 10 == n / 1000);
    assert(v@ =~= old(v)@ + spec_pad4(n as int));
}

/// Append every character of `s`.
pub fn push_str_chars(v: &mut Vec<char>, s: &str)
    ensures
        final(v)@ == old(v)@ + s@,
{
    let n = s.unicode_len();
    let mut i: usize = 0;
    while i < n
        invariant
            n == s@.len(),
            i <= n,
            v@ == old(v)@ + s@.take(i as int),
        decreases n - i,
    {
        v.push(s.get_char(i));
        assert(s@.take(i + 1) =~= s@.take(i as int).push(s@[i as int]));
        i += 1;
    }
    assert(s@.take(n as int) =~= s@);
}

/// Powers of ten.
pub open spec fn pow10(n: nat) -> int
    decreases n,
{
    if n == 0 {
        1
    } else {
        10 * pow10((n - 1) as nat)
    }
}

pub proof fn lemma_pow10_pos(n: nat)
    ensures
        pow10(n) >= 1,
    decreases n,
{
    if n > 0 {
        lemma_pow10_pos((n - 1) as nat);
    }
}

pub proof fn lemma_pow10_mono(a: nat, b: nat)
    requires
        a <= b,
    ensures
        pow10(a) <= pow10(b),
    decreases b,
{
    if a < b {
        lemma_pow10_mono(a, (b - 1) as nat);
        lemma_pow10_pos((b - 1) as nat);
    }
}

pub proof fn lemma_pow10_vals()
    ensures
        pow10(3) == 1000,
        pow10(14) == 100_000_000_000_000,
        pow10(15) == 1_000_000_000_000_000,
{
    reveal_with_fuel(pow10, 17);
}

/// Every character of `s` is a decimal digit.
pub open spec fn all_digits(s: Seq<char>) -> bool {
    forall|i: int| 0 <= i < s.len() ==> is_digit(#[trigger] s[i])
}

/// The numeric value of a digit string, most significant digit first.
pub open spec fn digits_val(s: Seq<char>) -> int
    decreases s.len(),
{
    if s.len() == 0 {
        0
    } else {
        digits_val(s.drop_last()) * 10 + spec_digit_val(s.last())
    }
}

pub proof fn lemma_digits_val_bound(s: Seq<char>)
    requires
        all_digits(s),
    ensures
        0 <= digits_val(s) < pow10(s.len()),
    decreases s.len(),
{
    if s.len() == 0 {
    } else {
        assert(all_digits(s.drop_last()));
        lemma_digits_val_bound(s.drop_last());
        assert(is_digit(s.last()));
    }
}

/// The digit string of a fractional part, scaled to thousandths: one digit
/// stands for hundreds of thousandths, two for tens, and digits beyond the
/// third are below the store's resolution and truncated away.
pub open spec fn frac_milli(fp: Seq<char>) -> int {
    if fp.len() == 1 {
        digits_val(fp) * 100
    } else if fp.len() == 2 {
        digits_val(fp) * 10
    } else {
        digits_val(fp.take(3))
    }
}

/// The text of a decimal number: optional minus sign, integer digits, and
/// an optional dot followed by fractional digits.
pub open spec fn decimal_text(neg: bool, ip: Seq<char>, fp: Seq<char>) -> Seq<char> {
    (if neg {
        seq!['-']
    } else {
        Seq::<char>::empty()
    }) + ip + (if fp.len() > 0 {
        seq!['.'] + fp
    } else {
        Seq::<char>::empty()
    })
}

/// The decompositions this store reads back: at least one and at most
/// fifteen integer digits, and when a fraction is present, one to twelve
/// fractional digits.
pub open spec fn decimal_shape_ok(ip: Seq<char>, fp: Seq<char>) -> bool {
    &&& 1 <= ip.len() <= 15
    &&& all_digits(ip)
    &&& (fp.len() == 0 || (1 <= fp.len() <= 12 && all_digits(fp)))
}

/// The value of a decomposed decimal number, in thousandths.
pub open spec fn decimal_milli_val(neg: bool, ip: Seq<char>, fp: Seq<char>) -> int {
    let m = digits_val(ip) * 1000 + (if fp.len() > 0 {
        frac_milli(fp)
    } else {
        0
    });
    if neg {
        -m
    } else {
        m
    }
}

/// `s` is decimal number text whose value in thousandths is `m`.
pub open spec fn decimal_matches(s: Seq<char>, m: int) -> bool {
    exists|neg: bool, ip: Seq<char>, fp: Seq<char>|
        decimal_shape_ok(ip, fp) && s == decimal_text(neg, ip, fp) && m == decimal_milli_val(
            neg,
            ip,
            fp,
        )
}

/// `s` is decimal number text of an accepted shape.
pub open spec fn decimal_parseable(s: Seq<char>) -> bool {
    exists|neg: bool, ip: Seq<char>, fp: Seq<char>|
        decimal_shape_ok(ip, fp) && s == decimal_text(neg, ip, fp)
}

/// Decimal number text decomposes in exactly one way: the sign is the
/// leading character, the integer digits are the maximal digit run after
/// it, and the fraction is whatever follows the dot.
pub proof fn lemma_decimal_decomposition(s: Seq<char>, neg: bool, ip: Seq<char>, fp: Seq<char>)
    requires
        decimal_shape_ok(ip, fp),
        s == decimal_text(neg, ip, fp),
    ensures
        s.len() >= 1,
        neg == (s[0] == '-'),
        ({
            let st: int = if neg {
                1
            } else {
                0
            };
            &&& st + ip.len() <= s.len()
            &&& (forall|i: int| st <= i < st + ip.len() ==> is_digit(#[trigger] s[i]))
            &&& (fp.len() == 0 ==> s.len() == st + ip.len())
            &&& (fp.len() > 0 ==> {
                &&& s.len() == st + ip.len() + 1 + fp.len()
                &&& s[st + ip.len()] == '.'
                &&& !is_digit(s[st + ip.len()])
                &&& fp == s.subrange(st + ip.len() + 1, s.len() as int)
            })
            &&& ip == s.subrange(st, st + ip.len())
        }),
{
    let st: int = if neg {
        1
    } else {
        0
    };
    assert forall|i: int| st <= i < st + ip.len() implies is_digit(#[trigger] s[i]) by {
        assert(s[i] == ip[i - st]);
    }
    if neg {
        assert(s[0] == '-');
    } else {
        assert(s[0] == ip[0]);
        assert(is_digit(s[0]));
        assert(s[0] != '-');
    }
    if fp.len() > 0 {
        assert(s[st + ip.len()] == '.');
        assert(fp =~= s.subrange(st + ip.len() + 1, s.len() as int));
    }
    assert(ip =~= s.subrange(st, st + ip.len()));
}

/// Read the value of the digit run `s[from..to]`.
fn digits_value(s: &str, from: usize, to: usize) -> (val: u64)
    requires
        from <= to <= s@.len(),
        to - from <= 15,
        forall|t: int| from <= t < to ==> is_digit(#[trigger] s@[t]),
    ensures
        val == digits_val(s@.subrange(from as int, to as int)),
        0 <= val < pow10((to - from) as nat),
{
    proof {
        lemma_pow10_vals();
    }
    let mut val: u64 = 0;
    let mut idx: usize = from;
    while idx < to
        invariant
            from <= idx <= to <= s@.len(),
            to - from <= 15,
            forall|t: int| from <= t < to ==> is_digit(#[trigger] s@[t]),
            val == digits_val(s@.subrange(from as int, idx as int)),
            val < pow10((idx - from) as nat),
            pow10(15) == 1_000_000_000_000_000,
        decreases to - idx,
    {
        let c = s.get_char(idx);
        let dopt = digit_val(c);
        if dopt.is_none() {
            proof {
                assert(is_digit(s@[idx as int]));
                assert(false);
            }
        }
        let d = dopt.unwrap();
        proof {
            lemma_pow10_mono(((idx - from) + 1) as nat, 15);
            lemma_pow10_pos((idx - from) as nat);
            assert(s@.subrange(from as int, idx + 1).drop_last() =~= s@.subrange(
                from as int,
                idx as int,
            ));
            assert(s@.subrange(from as int, idx + 1).last() == s@[idx as int]);
        }
        val = val * 10 + (d as u64);
        idx += 1;
    }
    proof {
        lemma_pow10_mono((to - from) as nat, 15);
    }
    val
}

/// Parse decimal number text into thousandths, exactly: the result is
/// `Some` for precisely the strings of the accepted shape, and carries the
/// value the text denotes.
pub fn parse_decimal_milli(s: &str) -> (r: Option<i64>)
    ensures
        match r {
            Some(m) => decimal_matches(s@, m as int),
            None => !decimal_parseable(s@),
        },
{
    proof {
        lemma_pow10_vals();
    }
    let n = s.unicode_len();
    if n == 0 {
        proof {
            if decimal_parseable(s@) {
                let (neg2, ip2, fp2) = choose|neg2: bool, ip2: Seq<char>, fp2: Seq<char>|
                    decimal_shape_ok(ip2, fp2) && s@ == decimal_text(neg2, ip2, fp2);
                lemma_decimal_decomposition(s@, neg2, ip2, fp2);
                assert(false);
            }
        }
        return None;
    }
    let neg = s.get_char(0) == '-';
    let start: usize = if neg {
        1
    } else {
        0
    };
    let mut j: usize = start;
    loop
        invariant
            start <= j <= n,
            n == s@.len(),
            start == if neg { 1int } else { 0int },
            neg == (s@[0] == '-'),
            forall|t: int| start <= t < j ==> is_digit(#[trigger] s@[t]),
        ensures
            start <= j <= n,
            forall|t: int| start <= t < j ==> is_digit(#[trigger] s@[t]),
            j == n || !is_digit(s@[j as int]),
        decreases n - j,
    {
        if j == n {
            break ;
        }
        if digit_val(s.get_char(j)).is_none() {
            break ;
        }
        j += 1;
    }
    let ip_len = j - start;
    if ip_len == 0 || ip_len > 15 {
        proof {
            if decimal_parseable(s@) {
                let (neg2, ip2, fp2) = choose|neg2: bool, ip2: Seq<char>, fp2: Seq<char>|
                    decimal_shape_ok(ip2, fp2) && s@ == decimal_text(neg2, ip2, fp2);
                lemma_decimal_decomposition(s@, neg2, ip2, fp2);
                let st: int = if neg2 {
                    1
                } else {
                    0
                };
                assert(st == start);
                if ip_len == 0 {
                    if j == n {
                        assert(st + ip2.len() > n);
                        assert(false);
                    } else {
                        assert(is_digit(s@[st]));
                        assert(false);
                    }
                } else {
                    assert(ip2.len() <= 15 < ip_len);
                    if fp2.len() == 0 {
                        assert(s@.len() == st + ip2.len());
                        assert(st + ip2.len() < j);
                        assert(false);
                    } else {
                        assert(!is_digit(s@[st + ip2.len()]));
                        assert(is_digit(s@[st + ip2.len()]));
                        assert(false);
                    }
                }
            }
        }
        return None;
    }
    let mut fp_from: usize = n;
    let mut fp_to: usize = n;
    if j < n {
        if s.get_char(j) != '.' {
            proof {
                if decimal_parseable(s@) {
                    let (neg2, ip2, fp2) = choose|neg2: bool, ip2: Seq<char>, fp2: Seq<char>|
                        decimal_shape_ok(ip2, fp2) && s@ == decimal_text(neg2, ip2, fp2);
                    lemma_decimal_decomposition(s@, neg2, ip2, fp2);
                    let st: int = if neg2 {
                        1
                    } else {
                        0
                    };
                    assert(st == start);
                    if st + ip2.len() < j {
                        if fp2.len() == 0 {
                            assert(false);
                        } else {
                            assert(!is_digit(s@[st + ip2.len()]));
                            assert(false);
                        }
                    } else if st + ip2.len() > j {
                        assert(is_digit(s@[j as int]));
                        assert(false);
                    } else {
                        if fp2.len() == 0 {
                            assert(s@.len() == j);
                            assert(false);
                        } else {
                            assert(s@[j as int] == '.');
                            assert(false);
                        }
                    }
                }
            }
            return None;
        }
        let mut k: usize = j + 1;
        loop
            invariant
                j + 1 <= k <= n,
                n == s@.len(),
                forall|t: int| j + 1 <= t < k ==> is_digit(#[trigger] s@[t]),
            ensures
                j + 1 <= k <= n,
                forall|t: int| j + 1 <= t < k ==> is_digit(#[trigger] s@[t]),
                k == n || !is_digit(s@[k as int]),
            decreases n - k,
        {
            if k == n {
                break ;
            }
            if digit_val(s.get_char(k)).is_none() {
                break ;
            }
            k += 1;
        }
        let fp_len = n - (j + 1);
        if k < n || fp_len == 0 || fp_len > 12 {
            proof {
                if decimal_parseable(s@) {
                    let (neg2, ip2, fp2) = choose|neg2: bool, ip2: Seq<char>, fp2: Seq<char>|
                        decimal_shape_ok(ip2, fp2) && s@ == decimal_text(neg2, ip2, fp2);
                    lemma_decimal_decomposition(s@, neg2, ip2, fp2);
                    let st: int = if neg2 {
                        1
                    } else {
                        0
                    };
                    assert(st == start);
                    if st + ip2.len() < j {
                        if fp2.len() == 0 {
                            assert(false);
                        } else {
                            assert(!is_digit(s@[st + ip2.len()]));
                            assert(false);
                        }
                    } else if st + ip2.len() > j {
                        assert(is_digit(s@[j as int]));
                        assert(false);
                    }
                    assert(st + ip2.len() == j);
                    assert(fp2.len() > 0);
                    assert(s@.len() == j + 1 + fp2.len());
                    assert(fp2 == s@.subrange(j + 1, n as int));
                    if fp_len == 0 || fp_len > 12 {
                        assert(false);
                    } else {
                        assert(k < n);
                        assert(is_digit(s@[k as int]));
                        assert(false);
                    }
                }
            }
            return None;
        }
        fp_from = j + 1;
        fp_to = n;
    }
    let ival = digits_value(s, start, j);
    proof {
        lemma_pow10_mono((j - start) as nat, 15);
    }
    let mut milli: u64 = ival * 1000;
    if fp_from < fp_to {
        let frac_digits: usize = if fp_to - fp_from > 3 {
            3
        } else {
            fp_to - fp_from
        };
        let fval = digits_value(s, fp_from, fp_from + frac_digits);
        proof {
            lemma_pow10_mono(frac_digits as nat, 3);
        }
        let scaled: u64 = if frac_digits == 1 {
            fval * 100
        } else if frac_digits == 2 {
            fval * 10
        } else {
            fval
        };
        milli = milli + scaled;
    }
    let m: i64 = if neg {
        -(milli as i64)
    } else {
        milli as i64
    };
    proof {
        let st = start as int;
        let ipw = s@.subrange(st, j as int);
        let fpw = if fp_from < fp_to {
            s@.subrange(fp_from as int, fp_to as int)
        } else {
            Seq::<char>::empty()
        };
        if fp_to - fp_from >= 3 {
            assert(fpw.take(3) =~= s@.subrange(fp_from as int, fp_from as int + 3));
        }
        assert(decimal_shape_ok(ipw, fpw));
        assert(s@ =~= decimal_text(neg, ipw, fpw));
        assert(m as int == decimal_milli_val(neg, ipw, fpw));
        assert(decimal_shape_ok(ipw, fpw) && s@ == decimal_text(neg, ipw, fpw) && m as int
            == decimal_milli_val(neg, ipw, fpw));
        assert(decimal_matches(s@, m as int));
    }
    Some(m)
}

/// Relies on `String`'s `FromIterator<char>` implementation: collecting an
/// iterator of characters yields the string holding exactly those
/// characters, in order.
#[verifier::external_body]
pub(crate) fn chars_to_string(v: &Vec<char>) -> (s: String)
    ensures
        s@ == v@,
{
    v.iter().collect()
}

/// The character for one hexadecimal digit, lower case.
pub open spec fn spec_hex_char(d: int) -> char {
    if d < 10 {
        spec_digit_char(d)
    } else if d == 10 {
        'a'
    } else if d == 11 {
        'b'
    } else if d == 12 {
        'c'
    } else if d == 13 {
        'd'
    } else if d == 14 {
        'e'
    } else {
        'f'
    }
}

/// The character for one hexadecimal digit, lower case.
pub fn hex_char(d: u32) -> (c: char)
    requires
        d < 16,
    ensures
        c == spec_hex_char(d as int),
{
    if d < 10 {
        digit_char(d as u8)
    } else if d == 10 {
        'a'
    } else if d == 11 {
        'b'
    } else if d == 12 {
        'c'
    } else if d == 13 {
        'd'
    } else if d == 14 {
        'e'
    } else {
        'f'
    }
}

/// How one character is written inside a JSON string literal: quote and
/// backslash get a backslash escape, control characters get a `\u00XX`
/// escape, and everything else stands for itself.
pub open spec fn esc_char(c: char) -> Seq<char> {
    if c == '"' {
        seq!['\\', '"']
    } else if c == '\\' {
        seq!['\\', '\\']
    } else if (c as u32) < 32 {
        seq!['\\', 'u', '0', '0', spec_hex_char(c as int / 16), spec_hex_char(c as int % 16)]
    } else {
        seq![c]
    }
}

/// The JSON string-literal encoding of a character sequence.
pub open spec fn spec_json_escape(s: Seq<char>) -> Seq<char>
    decreases s.len(),
{
    if s.len() == 0 {
        Seq::empty()
    } else {
        esc_char(s[0]) + spec_json_escape(s.skip(1))
    }
}

/// Escaping one more character extends the encoding at the end.
pub proof fn lemma_json_escape_push(s: Seq<char>, c: char)
    ensures
        spec_json_escape(s.push(c)) == spec_json_escape(s) + esc_char(c),
    decreases s.len(),
{
    if s.len() == 0 {
        assert(s.push(c).len() == 1);
        assert(s.push(c)[0] == c);
        assert(s.push(c).skip(1) =~= Seq::<char>::empty());
        assert(spec_json_escape(s.push(c)) == esc_char(c) + spec_json_escape(s.push(c).skip(1)));
        assert(spec_json_escape(Seq::<char>::empty()) == Seq::<char>::empty());
        assert(s =~= Seq::<char>::empty());
        assert(spec_json_escape(s.push(c)) =~= spec_json_escape(s) + esc_char(c));
    } else {
        assert(s.push(c)[0] == s[0]);
        assert(s.push(c).skip(1) =~= s.skip(1).push(c));
        lemma_json_escape_push(s.skip(1), c);
        assert(spec_json_escape(s.push(c)) == esc_char(s[0]) + spec_json_escape(
            s.skip(1).push(c),
        ));
        assert(spec_json_escape(s.skip(1).push(c)) == spec_json_escape(s.skip(1)) + esc_char(c));
        assert(spec_json_escape(s) == esc_char(s[0]) + spec_json_escape(s.skip(1)));
        assert(esc_char(s[0]) + (spec_json_escape(s.skip(1)) + esc_char(c)) =~= (esc_char(s[0])
            + spec_json_escape(s.skip(1))) + esc_char(c));
    }
}

/// Append the JSON string-literal encoding of `s`.
pub fn push_json_escaped(v: &mut Vec<char>, s: &str)
    ensures
        final(v)@ == old(v)@ + spec_json_escape(s@),
{
    let n = s.unicode_len();
    let mut i: usize = 0;
    while i < n
        invariant
            n == s@.len(),
            i <= n,
            v@ == old(v)@ + spec_json_escape(s@.take(i as int)),
        decreases n - i,
    {
        let c = s.get_char(i);
        if c == '"' {
            v.push('\\');
            v.push('"');
        } else if c == '\\' {
            v.push('\\');
            v.push('\\');
        } else if (c as u32) < 32 {
            let u = c as u32;
            v.push('\\');
            v.push('u');
            v.push('0');
            v.push('0');
            v.push(hex_char(u / 16));
            v.push(hex_char(u % 16));
        } else {
            v.push(c);
        }
        proof {
            lemma_json_escape_push(s@.take(i as int), s@[i as int]);
            assert(s@.take(i + 1) =~= s@.take(i as int).push(s@[i as int]));
            assert(v@ =~= old(v)@ + spec_json_escape(s@.take(i + 1)));
        }
        i += 1;
    }
    assert(s@.take(n as int) =~= s@);
}

} // verus!
