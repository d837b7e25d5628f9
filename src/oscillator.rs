//! The astable timer oscillator: frequency as a function of capacitance and trim.
//!
//! With R1 = 1000 ohms, R2 = 10000 ohms + trim and capacitance C, the output
//! frequency is 1 / (0.693 * C * (R1 + 2 * R2)). A capacitance is
//! (magnitude / 10) * decade * unit farads, and a trim is counted in tenths of
//! an ohm, so the frequency is exactly
//!
//!     unit_numerator / (693 * magnitude * decade * (210000 + 2 * trim))
//!
//! hertz, with unit_numerator 10^11, 10^14 or 10^17 for micro, nano and pico.
//! Everything here computes with that fraction exactly.
use vstd::prelude::*;
use crate::tables::{BASE_COUNT, BASE_TENTHS, base_tenths, lemma_base_bounds};
use vstd::arithmetic::div_mod::{
    lemma_div_is_ordered, lemma_div_is_ordered_by_denominator, lemma_div_multiples_vanish,
    lemma_div_pos_is_pos, lemma_fundamental_div_mod, lemma_mod_pos_bound,
};

verus! {

/// Largest trim offset, in tenths of an ohm (1000 ohms).
pub const TRIM_LIMIT: i32 = 10000;

/// The power-of-ten unit a capacitor value is written in.
#[derive(Clone, Copy, PartialEq, Eq, Structural, Debug)]
pub enum UnitScale {
    Micro,
    Nano,
    Pico,
}

/// The extra factor of 1, 10 or 100 on a base magnitude.
#[derive(Clone, Copy, PartialEq, Eq, Structural, Debug)]
pub enum Decade {
    One,
    Ten,
    Hundred,
}

/// One end of the trim resistor's travel.
#[derive(Clone, Copy, PartialEq, Eq, Structural, Debug)]
pub enum TrimEnd {
    /// Trim at -1000 ohms: the highest frequency.
    Low,
    /// Trim at +1000 ohms: the lowest frequency.
    High,
}

impl UnitScale {
    /// 10^5 divided by the unit in farads.
    pub open spec fn numerator(self) -> nat {
        match self {
            UnitScale::Micro => 100_000_000_000,
            UnitScale::Nano => 100_000_000_000_000,
            UnitScale::Pico => 100_000_000_000_000_000,
        }
    }

    pub fn exec_numerator(self) -> (r: u128)
        ensures
            r == self.numerator(),
    {
        match self {
            UnitScale::Micro => 100_000_000_000,
            UnitScale::Nano => 100_000_000_000_000,
            UnitScale::Pico => 100_000_000_000_000_000,
        }
    }
}

impl UnitScale {
    pub open spec fn spec_letter(self) -> char {
        match self {
            UnitScale::Micro => 'u',
            UnitScale::Nano => 'n',
            UnitScale::Pico => 'p',
        }
    }

    /// The unit's letter in a capacitor value: u, n or p.
    pub fn letter(self) -> (r: char)
        ensures
            r == self.spec_letter(),
    {
        match self {
            UnitScale::Micro => 'u',
            UnitScale::Nano => 'n',
            UnitScale::Pico => 'p',
        }
    }
}

impl Decade {
    pub open spec fn factor(self) -> nat {
        match self {
            Decade::One => 1,
            Decade::Ten => 10,
            Decade::Hundred => 100,
        }
    }

    pub fn exec_factor(self) -> (r: u64)
        ensures
            r == self.factor(),
    {
        match self {
            Decade::One => 1,
            Decade::Ten => 10,
            Decade::Hundred => 100,
        }
    }
}

impl TrimEnd {
    pub open spec fn spec_trim(self) -> int {
        match self {
            TrimEnd::Low => -TRIM_LIMIT,
            TrimEnd::High => TRIM_LIMIT as int,
        }
    }

    /// The trim, in tenths of an ohm, at this end of the travel.
    pub fn trim(self) -> (r: i32)
        ensures
            r == self.spec_trim(),
    {
        match self {
            TrimEnd::Low => -TRIM_LIMIT,
            TrimEnd::High => TRIM_LIMIT,
        }
    }
}

/// A capacitance given by its three generating factors: the index of a base
/// magnitude, a unit and a decade.
#[derive(Clone, Copy, PartialEq, Eq, Structural, Debug)]
pub struct Capacitance {
    pub base: usize,
    pub unit: UnitScale,
    pub decade: Decade,
}

/// A trim inside the resistor's travel of -1000 to +1000 ohms.
pub open spec fn in_travel(trim: int) -> bool {
    -TRIM_LIMIT <= trim <= TRIM_LIMIT
}

/// Ten times R1 + 2 * R2, in ohms, for a trim in tenths of an ohm.
pub open spec fn span(trim: int) -> int {
    210000 + 2 * trim
}

impl Capacitance {
    pub open spec fn wf(self) -> bool {
        self.base < BASE_COUNT
    }

    /// 693 * magnitude * decade: the capacitance's share of the denominator.
    pub open spec fn factor(self) -> int {
        693 * base_tenths(self.base as int) * self.decade.factor()
    }

    /// The frequency at `trim` is `numerator() / denominator(trim)` hertz.
    pub open spec fn numerator(self) -> int {
        self.unit.numerator() as int
    }

    pub open spec fn denominator(self, trim: int) -> int {
        self.factor() * span(trim)
    }

    pub fn exec_factor(self) -> (r: u128)
        requires
            self.wf(),
        ensures
            r == self.factor(),
            6930 <= r <= 6306300,
    {
        proof {
            lemma_base_bounds();
        }
        let b = BASE_TENTHS[self.base];
        let m = self.decade.exec_factor();
        proof {
            lemma_product_bounds(b as int, m as int);
        }
        693 * (b as u128) * (m as u128)
    }
}

pub fn exec_span(trim: i32) -> (r: u128)
    requires
        in_travel(trim as int),
    ensures
        r == span(trim as int),
        190000 <= r <= 230000,
{
    (210000 + 2 * (trim as i64)) as u128
}

proof fn lemma_product_bounds(b: int, m: int)
    requires
        10 <= b <= 91,
        1 <= m <= 100,
    ensures
        6930 <= 693 * b * m <= 6306300,
{
    assert(10 * m <= b * m <= 91 * m) by (nonlinear_arith)
        requires
            10 <= b <= 91,
            1 <= m,
    ;
    assert(693 * b * m == 693 * (b * m)) by (nonlinear_arith);
}

/// Bounds on the exact frequency fraction over the whole travel.
pub proof fn lemma_fraction_bounds(c: Capacitance, trim: int)
    requires
        c.wf(),
        in_travel(trim),
    ensures
        6930 <= c.factor() <= 6306300,
        1316700000 <= c.denominator(trim) <= 1450449000000,
        100_000_000_000 <= c.numerator() <= 100_000_000_000_000_000,
{
    lemma_base_bounds();
    let b = base_tenths(c.base as int) as int;
    let m = c.decade.factor() as int;
    lemma_product_bounds(b, m);
    let k = c.factor();
    let s = span(trim);
    assert(1316700000 <= k * s <= 1450449000000) by (nonlinear_arith)
        requires
            6930 <= k <= 6306300,
            190000 <= s <= 230000,
    ;
}

/// The frequency in hundredths of a hertz, rounded half up.
pub open spec fn rounded_centi_hz(c: Capacitance, trim: int) -> int {
    (200 * c.numerator() + c.denominator(trim)) / (2 * c.denominator(trim))
}

/// A frequency of `p / q` hertz lies in the closed interval that the trim
/// travel reaches: from the frequency at +1000 ohms up to the one at -1000 ohms.
pub open spec fn in_interval(c: Capacitance, p: int, q: int) -> bool {
    &&& q * c.numerator() <= p * c.denominator(TRIM_LIMIT as int)
    &&& p * c.denominator(-TRIM_LIMIT) <= q * c.numerator()
}

/// A target of `centi_hz` hundredths of a hertz lies in the reachable interval.
pub open spec fn in_range(c: Capacitance, centi_hz: int) -> bool {
    in_interval(c, centi_hz, 100)
}

/// The oscillator's frequency for capacitance `cap` and `trim` tenths of an
/// ohm, in hundredths of a hertz, rounded half up.
pub fn frequency(cap: Capacitance, trim: i32) -> (r: u64)
    requires
        cap.wf(),
        in_travel(trim as int),
    ensures
        r == rounded_centi_hz(cap, trim as int),
{
    proof {
        lemma_fraction_bounds(cap, trim as int);
    }
    let num = cap.unit.exec_numerator();
    let den = cap.exec_factor() * exec_span(trim);
    let top = 200 * num + den;
    proof {
        lemma_div_is_ordered_by_denominator(
            top as int,
            2633400000int,
            2 * den as int,
        );
        assert(top <= 200 * 100_000_000_000_000_000 + 1450449000000);
    }
    (top / (2 * den)) as u64
}

/// The frequency at one end of the trim travel, in hundredths of a hertz.
pub fn boundary_frequency(cap: Capacitance, end: TrimEnd) -> (r: u64)
    requires
        cap.wf(),
    ensures
        r == rounded_centi_hz(cap, end.spec_trim()),
{
    frequency(cap, end.trim())
}

/// Whether a target of `centi_hz` hundredths of a hertz lies inside the
/// closed interval that the trim travel reaches for `cap`. The comparison is
/// exact; both ends are included.
pub fn in_reach(cap: Capacitance, centi_hz: u64) -> (r: bool)
    requires
        cap.wf(),
    ensures
        r == in_range(cap, centi_hz as int),
{
    proof {
        lemma_fraction_bounds(cap, TRIM_LIMIT as int);
        lemma_fraction_bounds(cap, -TRIM_LIMIT);
    }
    let num = cap.unit.exec_numerator();
    let k = cap.exec_factor();
    let low_den = k * exec_span(TRIM_LIMIT);
    let high_den = k * exec_span(-TRIM_LIMIT);
    let h = centi_hz as u128;
    proof {
        assert(h * low_den <= 18446744073709551615 * 1450449000000) by (nonlinear_arith)
            requires
                h <= 18446744073709551615,
                low_den <= 1450449000000,
        ;
        assert(h * high_den <= 18446744073709551615 * 1450449000000) by (nonlinear_arith)
            requires
                h <= 18446744073709551615,
                high_den <= 1450449000000,
        ;
    }
    100 * num <= h * low_den && h * high_den <= 100 * num
}

/// A higher trim gives a strictly lower exact frequency, and a rounded
/// frequency that is no higher.
pub proof fn lemma_frequency_decreasing(c: Capacitance, t1: int, t2: int)
    requires
        c.wf(),
        in_travel(t1),
        in_travel(t2),
        t1 < t2,
    ensures
        c.numerator() * c.denominator(t1) < c.numerator() * c.denominator(t2),
        rounded_centi_hz(c, t2) <= rounded_centi_hz(c, t1),
{
    lemma_fraction_bounds(c, t1);
    lemma_fraction_bounds(c, t2);
    let n = c.numerator();
    let k = c.factor();
    let d1 = c.denominator(t1);
    let d2 = c.denominator(t2);
    assert(d1 < d2) by (nonlinear_arith)
        requires
            d1 == k * span(t1),
            d2 == k * span(t2),
            k > 0,
            span(t1) < span(t2),
    ;
    assert(n * d1 < n * d2) by (nonlinear_arith)
        requires
            n > 0,
            d1 < d2,
    ;
    let x1 = 200 * n + d1;
    let x2 = 200 * n + d2;
    let a2 = x2 / (2 * d2);
    if a2 > 0 {
        lemma_fundamental_div_mod(x2, 2 * d2);
        lemma_mod_pos_bound(x2, 2 * d2);
        assert((2 * d1) * a2 <= x1) by (nonlinear_arith)
            requires
                (2 * d2) * a2 <= x2,
                x1 == 200 * n + d1,
                x2 == 200 * n + d2,
                a2 >= 1,
                0 < d1 < d2,
        ;
        lemma_div_is_ordered((2 * d1) * a2, x1, 2 * d1);
        lemma_div_multiples_vanish(a2, 2 * d1);
    } else {
        lemma_div_pos_is_pos(x1, 2 * d1);
    }
}

/// Both ends of the reachable interval belong to it: a target equal to the
/// frequency at either end of the travel is accepted.
pub proof fn lemma_endpoints_in_interval(c: Capacitance)
    requires
        c.wf(),
    ensures
        in_interval(c, c.numerator(), c.denominator(TRIM_LIMIT as int)),
        in_interval(c, c.numerator(), c.denominator(-TRIM_LIMIT)),
{
    lemma_frequency_decreasing(c, -TRIM_LIMIT, TRIM_LIMIT as int);
    let n = c.numerator();
    let lo = c.denominator(-TRIM_LIMIT);
    let hi = c.denominator(TRIM_LIMIT as int);
    assert(lo * n == n * lo && hi * n == n * hi) by (nonlinear_arith);
}

} // verus!
