//! Newtype wrappers for type-safe Celsius and Fahrenheit readings.
//!
//! Temperatures are carried as signed fixed-point values in thousandths of a
//! degree (millidegrees), so that calibration arithmetic and the Celsius to
//! Fahrenheit conversion are exact integer operations. The wrappers keep the
//! two units apart: values of different units are never combined directly,
//! and conversion is explicit.

use vstd::prelude::*;

verus! {

/// Magnitude bound (in millidegrees) under which conversion arithmetic is
/// proved free of overflow. One thousand billion degrees: far beyond any
/// reading, but small enough that a value times nine stays inside `i64`.
pub const MILLI_BOUND: i64 = 1_000_000_000_000_000;

/// Millidegree values on which unit conversion is defined.
pub open spec fn in_milli_range(m: int) -> bool {
    -MILLI_BOUND <= m <= MILLI_BOUND
}

/// Exact Celsius-to-Fahrenheit conversion on millidegrees:
/// `F = C * 9/5 + 32`, with the division rounding the magnitude down.
pub open spec fn c_to_f_milli(c: int) -> int {
    if c >= 0 {
        c * 9 / 5 + 32000
    } else {
        -((-c) * 9 / 5) + 32000
    }
}

/// Exact Fahrenheit-to-Celsius conversion on millidegrees:
/// `C = (F - 32) * 5/9`, with the division rounding the magnitude down.
pub open spec fn f_to_c_milli(f: int) -> int {
    let d = f - 32000;
    if d >= 0 {
        d * 5 / 9
    } else {
        -((-d) * 5 / 9)
    }
}

/// Temperature, in millidegrees Celsius.
#[derive(Clone, Copy, Debug, PartialEq, Eq, Structural)]
pub struct Celsius(pub i64);

/// Temperature, in millidegrees Fahrenheit.
#[derive(Clone, Copy, Debug, PartialEq, Eq, Structural)]
pub struct Fahrenheit(pub i64);

impl Celsius {
    /// Mark a millidegree value as being a reading in Celsius.
    pub fn from_milli(m: i64) -> (c: Celsius)
        ensures
            c.0 == m,
    {
        Celsius(m)
    }

    /// Get the millidegree value back from this Celsius reading.
    pub fn value(&self) -> (m: i64)
        ensures
            m == self.0,
    {
        self.0
    }

    /// Add two Celsius readings together. This is how a per-device
    /// calibration adjustment, itself stored in Celsius, is applied.
    pub fn plus(self, rhs: Celsius) -> (sum: Celsius)
        requires
            i64::MIN <= self.0 + rhs.0 <= i64::MAX,
        ensures
            sum.0 == self.0 + rhs.0,
    {
        Celsius(self.0 + rhs.0)
    }

    /// Convert this Celsius reading to Fahrenheit.
    pub fn to_fahrenheit(self) -> (f: Fahrenheit)
        requires
            in_milli_range(self.0 as int),
        ensures
            f.0 == c_to_f_milli(self.0 as int),
    {
        if self.0 >= 0 {
            let m: u64 = self.0 as u64;
            let scaled: u64 = m * 9 / 5;
            Fahrenheit((scaled as i64) + 32000)
        } else {
            let m: u64 = (-self.0) as u64;
            let scaled: u64 = m * 9 / 5;
            Fahrenheit(-(scaled as i64) + 32000)
        }
    }
}

impl Fahrenheit {
    /// Mark a millidegree value as being a reading in Fahrenheit.
    pub fn from_milli(m: i64) -> (f: Fahrenheit)
        ensures
            f.0 == m,
    {
        Fahrenheit(m)
    }

    /// Get the millidegree value back from this Fahrenheit reading.
    pub fn value(&self) -> (m: i64)
        ensures
            m == self.0,
    {
        self.0
    }

    /// Convert this Fahrenheit reading to Celsius.
    pub fn to_celsius(self) -> (c: Celsius)
        requires
            in_milli_range(self.0 as int),
        ensures
            c.0 == f_to_c_milli(self.0 as int),
    {
        if self.0 >= 32000 {
            let m: u64 = (self.0 - 32000) as u64;
            let scaled: u64 = m * 5 / 9;
            Celsius(scaled as i64)
        } else {
            let m: u64 = (32000 - self.0) as u64;
            let scaled: u64 = m * 5 / 9;
            Celsius(-(scaled as i64))
        }
    }
}

/// Freezing point: zero degrees Celsius converts to exactly 32 Fahrenheit.
pub proof fn lemma_zero_celsius_is_32_fahrenheit()
    ensures
        c_to_f_milli(0) == 32000,
{
}

/// Unit round trip, Fahrenheit side: converting a Fahrenheit reading to
/// Celsius and back returns the same reading, whenever the conversion is
/// exact, that is whenever the distance from 32 Fahrenheit is a whole
/// multiple of nine millidegrees.
pub proof fn lemma_unit_round_trip(f: int)
    requires
        in_milli_range(f),
        (f - 32000) % 9 == 0,
    ensures
        c_to_f_milli(f_to_c_milli(f)) == f,
{
    let d = f - 32000;
    let k = d / 9;
    assert(d == 9 * k) by (nonlinear_arith)
        requires
            d % 9 == 0,
            k == d / 9,
    ;
    if d >= 0 {
        assert((9 * k) * 5 / 9 == 5 * k) by (nonlinear_arith)
            requires
                k >= 0,
        ;
        assert((5 * k) * 9 / 5 == 9 * k) by (nonlinear_arith)
            requires
                k >= 0,
        ;
    } else {
        assert((-(9 * k)) * 5 / 9 == -(5 * k)) by (nonlinear_arith)
            requires
                k < 0,
        ;
        assert((-(5 * k)) * 9 / 5 == -(9 * k)) by (nonlinear_arith)
            requires
                k < 0,
        ;
    }
}

/// Unit round trip, in tolerance form: on any reading in range, converting
/// a Fahrenheit value to Celsius and back lands within two millidegrees of
/// where it started. The fixed-point divisions each round the magnitude
/// down, so the trip can lose, never gain.
pub proof fn lemma_unit_round_trip_tolerance(f: int)
    requires
        in_milli_range(f),
    ensures
        -2 <= c_to_f_milli(f_to_c_milli(f)) - f <= 2,
{
    let d = f - 32000;
    if d >= 0 {
        let c = d * 5 / 9;
        vstd::arithmetic::div_mod::lemma_fundamental_div_mod(d * 5, 9);
        vstd::arithmetic::div_mod::lemma_mod_bound(d * 5, 9);
        vstd::arithmetic::div_mod::lemma_div_is_ordered(0, d * 5, 9);
        let b = c * 9 / 5;
        vstd::arithmetic::div_mod::lemma_fundamental_div_mod(c * 9, 5);
        vstd::arithmetic::div_mod::lemma_mod_bound(c * 9, 5);
        assert(f_to_c_milli(f) == c);
        assert(c_to_f_milli(c) == b + 32000);
        assert(5 * (d - b) == d * 5 % 9 + c * 9 % 5);
    } else {
        let m = -d;
        let c = m * 5 / 9;
        vstd::arithmetic::div_mod::lemma_fundamental_div_mod(m * 5, 9);
        vstd::arithmetic::div_mod::lemma_mod_bound(m * 5, 9);
        vstd::arithmetic::div_mod::lemma_div_is_ordered(0, m * 5, 9);
        let b = c * 9 / 5;
        vstd::arithmetic::div_mod::lemma_fundamental_div_mod(c * 9, 5);
        vstd::arithmetic::div_mod::lemma_mod_bound(c * 9, 5);
        assert(f_to_c_milli(f) == -c);
        if c == 0 {
            assert(b == 0);
            assert(c_to_f_milli(0) == 32000);
        } else {
            assert(c_to_f_milli(-c) == -b + 32000);
        }
        assert(5 * (m - b) == m * 5 % 9 + c * 9 % 5);
    }
}

/// Unit round trip, Celsius side: converting a Celsius reading to Fahrenheit
/// and back returns the same reading, whenever the reading is a whole
/// multiple of five millidegrees.
pub proof fn lemma_unit_round_trip_celsius(c: int)
    requires
        in_milli_range(c),
        c % 5 == 0,
    ensures
        f_to_c_milli(c_to_f_milli(c)) == c,
{
    let k = c / 5;
    assert(c == 5 * k) by (nonlinear_arith)
        requires
            c % 5 == 0,
            k == c / 5,
    ;
    if c >= 0 {
        assert((5 * k) * 9 / 5 == 9 * k) by (nonlinear_arith)
            requires
                k >= 0,
        ;
        assert((9 * k) * 5 / 9 == 5 * k) by (nonlinear_arith)
            requires
                k >= 0,
        ;
    } else {
        assert((-(5 * k)) * 9 / 5 == -(9 * k)) by (nonlinear_arith)
            requires
                k < 0,
        ;
        assert((-(9 * k)) * 5 / 9 == -(5 * k)) by (nonlinear_arith)
            requires
                k < 0,
        ;
    }
}

} // verus!
