//! The trim sweep: from +1000 ohms down to -1000 ohms in steps of 0.1 ohm,
//! stopping at the first trim whose frequency is within 0.005 Hz of the
//! target, and otherwise keeping the first trim of smallest error.
use vstd::prelude::*;
use crate::oscillator::{
    Capacitance, TRIM_LIMIT, exec_span, frequency, in_travel, lemma_fraction_bounds,
    rounded_centi_hz, span,
};

verus! {

/// The outcome of a sweep: a trim in tenths of an ohm and the frequency it
/// gives, in hundredths of a hertz.
#[derive(Clone, Copy, PartialEq, Eq, Structural, Debug)]
pub struct TrimMatch {
    pub trim: i32,
    pub frequency: u64,
}

/// `|f - centi_hz / 100|` at `trim` is `error_num(..) / (100 * denominator(trim))` hertz.
pub open spec fn error_num(c: Capacitance, centi_hz: int, trim: int) -> int {
    let d = 100 * c.numerator() - centi_hz * c.denominator(trim);
    if d >= 0 {
        d
    } else {
        -d
    }
}

/// The frequency at `trim` is within 0.005 Hz of the target.
pub open spec fn within_tolerance(c: Capacitance, centi_hz: int, trim: int) -> bool {
    2 * error_num(c, centi_hz, trim) <= c.denominator(trim)
}

/// The error at `a` is strictly smaller than the error at `b`.
pub open spec fn closer(c: Capacitance, centi_hz: int, a: int, b: int) -> bool {
    error_num(c, centi_hz, a) * c.denominator(b) < error_num(c, centi_hz, b) * c.denominator(a)
}

/// `trim` is what the sweep settles on: no trim before it in the sweep (a
/// higher one) is within tolerance, each of them has a larger error, and
/// `trim` itself is either within tolerance or of smallest error over the
/// whole travel.
pub open spec fn is_best_trim(c: Capacitance, centi_hz: int, trim: int) -> bool {
    &&& in_travel(trim)
    &&& forall|s: int|
        #![trigger within_tolerance(c, centi_hz, s)]
        #![trigger closer(c, centi_hz, trim, s)]
        trim < s <= TRIM_LIMIT ==> !within_tolerance(c, centi_hz, s) && closer(
            c,
            centi_hz,
            trim,
            s,
        )
    &&& within_tolerance(c, centi_hz, trim) || forall|s: int|
        in_travel(s) ==> !#[trigger] closer(c, centi_hz, s, trim)
}

/// The trim that the sweep settles on.
pub open spec fn best_trim(c: Capacitance, centi_hz: int) -> int {
    choose|t: int| is_best_trim(c, centi_hz, t)
}

/// At most one trim is what the sweep settles on.
pub proof fn lemma_best_trim_unique(c: Capacitance, centi_hz: int, t1: int, t2: int)
    requires
        is_best_trim(c, centi_hz, t1),
        is_best_trim(c, centi_hz, t2),
    ensures
        t1 == t2,
{
    if t1 < t2 {
        assert(closer(c, centi_hz, t1, t2));
    } else if t2 < t1 {
        assert(closer(c, centi_hz, t2, t1));
    }
}

proof fn lemma_ratio_chain(e1: int, d1: int, e2: int, d2: int, e3: int, d3: int)
    requires
        d1 > 0,
        d2 > 0,
        d3 > 0,
        e1 * d2 < e2 * d1,
        e2 * d3 <= e3 * d2,
    ensures
        e1 * d3 < e3 * d1,
{
    assert(e1 * d2 * d3 < e2 * d1 * d3) by (nonlinear_arith)
        requires
            e1 * d2 < e2 * d1,
            d3 > 0,
    ;
    assert(e2 * d3 * d1 <= e3 * d2 * d1) by (nonlinear_arith)
        requires
            e2 * d3 <= e3 * d2,
            d1 > 0,
    ;
    assert(e1 * d3 * d2 < e3 * d1 * d2) by (nonlinear_arith)
        requires
            e1 * d2 * d3 < e2 * d1 * d3,
            e2 * d3 * d1 <= e3 * d2 * d1,
    ;
    assert(e1 * d3 < e3 * d1) by (nonlinear_arith)
        requires
            e1 * d3 * d2 < e3 * d1 * d2,
            d2 > 0,
    ;
}

/// The capacitance's factor cancels when two errors are compared.
proof fn lemma_closer_by_spans(c: Capacitance, centi_hz: int, a: int, b: int)
    requires
        c.wf(),
        in_travel(a),
        in_travel(b),
    ensures
        closer(c, centi_hz, a, b) == (error_num(c, centi_hz, a) * span(b) < error_num(
            c,
            centi_hz,
            b,
        ) * span(a)),
{
    lemma_fraction_bounds(c, a);
    let k = c.factor();
    let ea = error_num(c, centi_hz, a);
    let eb = error_num(c, centi_hz, b);
    assert(ea * (k * span(b)) == k * (ea * span(b))) by (nonlinear_arith);
    assert(eb * (k * span(a)) == k * (eb * span(a))) by (nonlinear_arith);
    assert((k * (ea * span(b)) < k * (eb * span(a))) == (ea * span(b) < eb * span(a)))
        by (nonlinear_arith)
        requires
            k > 0,
    ;
}

/// A trim within tolerance is closer than any trim that is not.
proof fn lemma_within_beats_outside(c: Capacitance, centi_hz: int, a: int, b: int)
    requires
        c.wf(),
        in_travel(a),
        in_travel(b),
        within_tolerance(c, centi_hz, a),
        !within_tolerance(c, centi_hz, b),
    ensures
        closer(c, centi_hz, a, b),
{
    lemma_fraction_bounds(c, a);
    lemma_fraction_bounds(c, b);
    let ea = error_num(c, centi_hz, a);
    let eb = error_num(c, centi_hz, b);
    let da = c.denominator(a);
    let db = c.denominator(b);
    assert(ea * db < eb * da) by (nonlinear_arith)
        requires
            2 * ea <= da,
            2 * eb > db,
            da > 0,
            db > 0,
    ;
}

/// The error numerator at `trim` and the span there.
fn error_parts(cap: Capacitance, centi_hz: u64, trim: i32) -> (r: (u128, u128))
    requires
        cap.wf(),
        in_travel(trim as int),
    ensures
        r.0 == error_num(cap, centi_hz as int, trim as int),
        r.1 == span(trim as int),
        r.0 <= 18446744073709551615 * 1450449000000,
{
    proof {
        lemma_fraction_bounds(cap, trim as int);
    }
    let num = cap.unit.exec_numerator();
    let w = exec_span(trim);
    let den = cap.exec_factor() * w;
    let h = centi_hz as u128;
    proof {
        assert(h * den <= 18446744073709551615 * 1450449000000) by (nonlinear_arith)
            requires
                h <= 18446744073709551615,
                den <= 1450449000000,
        ;
    }
    let a = 100 * num;
    let b = h * den;
    if a >= b {
        (a - b, w)
    } else {
        (b - a, w)
    }
}

/// Sweeps the trim of `cap` from +1000 ohms down to -1000 ohms in steps of
/// 0.1 ohm for the target frequency `centi_hz` (hundredths of a hertz), and
/// returns the trim it settles on with its rounded frequency.
pub fn best_trim_for(cap: Capacitance, centi_hz: u64) -> (r: TrimMatch)
    requires
        cap.wf(),
    ensures
        is_best_trim(cap, centi_hz as int, r.trim as int),
        r.trim == best_trim(cap, centi_hz as int),
        r.frequency == rounded_centi_hz(cap, r.trim as int),
{
    let ghost h = centi_hz as int;
    let k = cap.exec_factor();
    let mut t: i32 = TRIM_LIMIT;
    let first = error_parts(cap, centi_hz, TRIM_LIMIT);
    let mut best_t: i32 = TRIM_LIMIT;
    let mut best_e: u128 = first.0;
    let mut best_w: u128 = first.1;
    while t >= -TRIM_LIMIT
        invariant_except_break
            -TRIM_LIMIT - 1 <= t <= TRIM_LIMIT,
            t <= best_t <= TRIM_LIMIT,
            best_t == t ==> t == TRIM_LIMIT,
            best_e == error_num(cap, h, best_t as int),
            best_w == span(best_t as int),
            best_e <= 18446744073709551615 * 1450449000000,
            190000 <= best_w <= 230000,
            forall|s: int| t < s <= TRIM_LIMIT ==> !#[trigger] within_tolerance(cap, h, s),
            forall|s: int| best_t < s <= TRIM_LIMIT ==> #[trigger] closer(cap, h, best_t as int, s),
            forall|s: int| t < s <= TRIM_LIMIT ==> !#[trigger] closer(cap, h, s, best_t as int),
        invariant
            cap.wf(),
            h == centi_hz,
            k == cap.factor(),
            6930 <= k <= 6306300,
        ensures
            is_best_trim(cap, h, best_t as int),
        decreases t + TRIM_LIMIT + 1,
    {
        let parts = error_parts(cap, centi_hz, t);
        let e = parts.0;
        let w = parts.1;
        proof {
            assert(e * best_w <= 18446744073709551615 * 1450449000000 * 230000) by (nonlinear_arith)
                requires
                    e <= 18446744073709551615 * 1450449000000,
                    best_w <= 230000,
            ;
            assert(best_e * w <= 18446744073709551615 * 1450449000000 * 230000) by (nonlinear_arith)
                requires
                    best_e <= 18446744073709551615 * 1450449000000,
                    w <= 230000,
            ;
            lemma_closer_by_spans(cap, h, t as int, best_t as int);
        }
        if e * best_w < best_e * w {
            proof {
                assert forall|s: int| t < s <= TRIM_LIMIT implies closer(cap, h, t as int, s) by {
                    lemma_fraction_bounds(cap, t as int);
                    lemma_fraction_bounds(cap, s);
                    lemma_fraction_bounds(cap, best_t as int);
                    if s != best_t {
                        assert(!closer(cap, h, s, best_t as int));
                        lemma_ratio_chain(
                            error_num(cap, h, t as int),
                            cap.denominator(t as int),
                            error_num(cap, h, best_t as int),
                            cap.denominator(best_t as int),
                            error_num(cap, h, s),
                            cap.denominator(s),
                        );
                    }
                }
                assert forall|s: int| t - 1 < s <= TRIM_LIMIT implies !closer(
                    cap,
                    h,
                    s,
                    t as int,
                ) by {
                    lemma_fraction_bounds(cap, t as int);
                    lemma_fraction_bounds(cap, s);
                    if s != t {
                        lemma_fraction_bounds(cap, best_t as int);
                        assert(!closer(cap, h, s, best_t as int));
                        if closer(cap, h, s, t as int) {
                            lemma_ratio_chain(
                                error_num(cap, h, s),
                                cap.denominator(s),
                                error_num(cap, h, t as int),
                                cap.denominator(t as int),
                                error_num(cap, h, best_t as int),
                                cap.denominator(best_t as int),
                            );
                        }
                    }
                }
            }
            best_t = t;
            best_e = e;
            best_w = w;
        }
        proof {
            assert(k * w <= 6306300 * 230000) by (nonlinear_arith)
                requires
                    k <= 6306300,
                    w <= 230000,
            ;
        }
        if 2 * e <= k * w {
            proof {
                if best_t != t {
                    lemma_within_beats_outside(cap, h, t as int, best_t as int);
                }
            }
            break;
        }
        t = t - 1;
    }
    proof {
        let b = best_trim(cap, h);
        lemma_best_trim_unique(cap, h, b, best_t as int);
    }
    TrimMatch { trim: best_t, frequency: frequency(cap, best_t) }
}

} // verus!
