//! Numbers of the language: fractions over 128-bit integers, with the
//! infinities and the not-a-number value that division by zero produces.
//! Arithmetic never fails: it is exact wherever the exact result fits in 128
//! bits, and otherwise rounds to a nearby fraction that fits, or to an
//! infinity when the magnitude itself is too large.
use vstd::prelude::*;
use vstd::arithmetic::div_mod::{lemma_fundamental_div_mod, lemma_fundamental_div_mod_converse, lemma_mod_multiples_basic};

verus! {

/// A numeric value. A `Ratio` stands for `num / den` and is well formed when
/// `den > 0`; arithmetic keeps its results in lowest terms.
#[derive(Debug, Clone, Copy, PartialEq, Eq, Structural)]
pub enum Number {
    Ratio { num: i128, den: i128 },
    Infinity { negative: bool },
    NaN,
}

impl Number {
    pub open spec fn wf(self) -> bool {
        match self {
            Number::Ratio { den, .. } => den > 0,
            _ => true,
        }
    }

    pub fn is_well_formed(&self) -> (r: bool)
        ensures
            r == self.wf(),
    {
        match self {
            Number::Ratio { den, .. } => *den > 0,
            _ => true,
        }
    }
}

pub open spec fn fits(x: int) -> bool {
    i128::MIN <= x <= i128::MAX
}

/// The greatest common divisor of `a` and `b`, by Euclid's algorithm.
pub open spec fn gcd(a: nat, b: nat) -> nat
    decreases b,
{
    if b == 0 {
        a
    } else {
        gcd(b, a % b)
    }
}

/// The fraction `n / d` (with `d > 0`) in lowest terms.
pub open spec fn reduce(n: int, d: int) -> Number {
    let g = gcd(abs(n), d as nat);
    let q = abs(n) / g;
    Number::Ratio {
        num: (if n < 0 { -(q as int) } else { q as int }) as i128,
        den: ((d as nat) / g) as i128,
    }
}

/// The fraction `n / d` in lowest terms, when both parts fit in 128 bits.
pub open spec fn ratio(n: int, d: int) -> Option<Number> {
    if fits(n) && fits(d) {
        Some(reduce(n, d))
    } else {
        None
    }
}

pub proof fn lemma_gcd(a: nat, b: nat)
    requires
        b > 0,
    ensures
        gcd(a, b) >= 1,
        gcd(a, b) <= b,
        a % gcd(a, b) == 0,
        b % gcd(a, b) == 0,
    decreases b,
{
    let r = a % b;
    if r == 0 {
        assert(gcd(b, 0) == b);
        assert(gcd(a, b) == b);
        assert(a % gcd(a, b) == 0);
        lemma_mod_multiples_basic(1, b as int);
    } else {
        lemma_gcd(b, r);
        let g = gcd(b, r);
        lemma_fundamental_div_mod(b as int, g as int);
        lemma_fundamental_div_mod(r as int, g as int);
        lemma_fundamental_div_mod(a as int, b as int);
        let s = b / g;
        let t = r / g;
        assert(a == g * (s * (a / b) + t)) by (nonlinear_arith)
            requires a == b * (a / b) + r, b == g * s, r == g * t;
        lemma_mod_multiples_basic((s * (a / b) + t) as int, g as int);
        assert(r < b);
    }
}

/// A fraction in lowest terms has the value of the fraction it came from.
pub proof fn lemma_reduce(n: int, d: int)
    requires
        d > 0,
        fits(n),
        fits(d),
    ensures
        reduce(n, d) matches Number::Ratio { num, den } && den > 0 && num * d == n * den
            && num as int == (if n < 0 { -((abs(n) / gcd(abs(n), d as nat)) as int) } else { (abs(n) / gcd(abs(n), d as nat)) as int })
            && den as int == (d as nat) / gcd(abs(n), d as nat),
{
    let a = abs(n);
    lemma_gcd(a, d as nat);
    let g = gcd(a, d as nat);
    lemma_fundamental_div_mod(a as int, g as int);
    lemma_fundamental_div_mod(d, g as int);
    let q = a / g;
    let e = (d as nat) / g;
    assert(a == g * q);
    assert(d == g * e);
    assert(q <= a) by (nonlinear_arith)
        requires a == g * q, g >= 1, q >= 0;
    assert(e <= d && e > 0) by (nonlinear_arith)
        requires d == g * e, g >= 1, d > 0;
    let m = if n < 0 { -(q as int) } else { q as int };
    assert(m * d == n * e) by (nonlinear_arith)
        requires a == g * q, d == g * e, m == (if n < 0 { -(q as int) } else { q as int }),
            a == (if n < 0 { -n } else { n });
}

fn gcd_u128(a: u128, b: u128) -> (g: u128)
    ensures
        g == gcd(a as nat, b as nat),
{
    let mut x = a;
    let mut y = b;
    while y != 0
        invariant
            gcd(x as nat, y as nat) == gcd(a as nat, b as nat),
        decreases y,
    {
        let t = x % y;
        x = y;
        y = t;
    }
    x
}

/// The fraction `n / d` in lowest terms.
pub fn make_ratio(n: i128, d: i128) -> (r: Number)
    requires
        d > 0,
    ensures
        r == reduce(n as int, d as int),
        r.wf(),
{
    proof {
        lemma_reduce(n as int, d as int);
    }
    let a: u128 = if n < 0 {
        ((-(n + 1)) as u128) + 1
    } else {
        n as u128
    };
    let g = gcd_u128(a, d as u128);
    proof {
        lemma_gcd(a as nat, d as nat);
    }
    let q = a / g;
    let e = (d as u128) / g;
    let num: i128 = if n < 0 {
        if q > i128::MAX as u128 {
            i128::MIN
        } else {
            -(q as i128)
        }
    } else {
        q as i128
    };
    Number::Ratio { num, den: e as i128 }
}

/// Sum, or `None` where a 128-bit intermediate overflows.
pub open spec fn add_spec(a: Number, b: Number) -> Option<Number> {
    match (a, b) {
        (Number::NaN, _) => Some(Number::NaN),
        (_, Number::NaN) => Some(Number::NaN),
        (Number::Infinity { negative: x }, Number::Infinity { negative: y }) => {
            if x == y { Some(a) } else { Some(Number::NaN) }
        },
        (Number::Infinity { .. }, _) => Some(a),
        (_, Number::Infinity { .. }) => Some(b),
        (Number::Ratio { num: n1, den: d1 }, Number::Ratio { num: n2, den: d2 }) => {
            if d1 == d2 {
                ratio(n1 + n2, d1 as int)
            } else if fits(n1 * d2) && fits(n2 * d1) {
                ratio(n1 * d2 + n2 * d1, d1 * d2)
            } else {
                None
            }
        },
    }
}

/// Difference, or `None` where a 128-bit intermediate overflows.
pub open spec fn sub_spec(a: Number, b: Number) -> Option<Number> {
    match (a, b) {
        (Number::NaN, _) => Some(Number::NaN),
        (_, Number::NaN) => Some(Number::NaN),
        (Number::Infinity { negative: x }, Number::Infinity { negative: y }) => {
            if x != y { Some(a) } else { Some(Number::NaN) }
        },
        (Number::Infinity { .. }, _) => Some(a),
        (_, Number::Infinity { negative }) => Some(Number::Infinity { negative: !negative }),
        (Number::Ratio { num: n1, den: d1 }, Number::Ratio { num: n2, den: d2 }) => {
            if d1 == d2 {
                ratio(n1 - n2, d1 as int)
            } else if fits(n1 * d2) && fits(n2 * d1) {
                ratio(n1 * d2 - n2 * d1, d1 * d2)
            } else {
                None
            }
        },
    }
}

/// Product, or `None` where a 128-bit intermediate overflows.
pub open spec fn mul_spec(a: Number, b: Number) -> Option<Number> {
    match (a, b) {
        (Number::NaN, _) => Some(Number::NaN),
        (_, Number::NaN) => Some(Number::NaN),
        (Number::Infinity { negative: x }, Number::Infinity { negative: y }) => Some(
            Number::Infinity { negative: x != y },
        ),
        (Number::Infinity { negative: x }, Number::Ratio { num, .. }) => {
            if num == 0 { Some(Number::NaN) } else { Some(Number::Infinity { negative: x != (num < 0) }) }
        },
        (Number::Ratio { num, .. }, Number::Infinity { negative: y }) => {
            if num == 0 { Some(Number::NaN) } else { Some(Number::Infinity { negative: y != (num < 0) }) }
        },
        (Number::Ratio { num: n1, den: d1 }, Number::Ratio { num: n2, den: d2 }) => ratio(n1 * n2, d1 * d2),
    }
}

/// Quotient, or `None` where a 128-bit intermediate overflows. Dividing a
/// non-zero number by zero gives an infinity, zero by zero gives `NaN`.
pub open spec fn div_spec(a: Number, b: Number) -> Option<Number> {
    match (a, b) {
        (Number::NaN, _) => Some(Number::NaN),
        (_, Number::NaN) => Some(Number::NaN),
        (Number::Infinity { .. }, Number::Infinity { .. }) => Some(Number::NaN),
        (Number::Infinity { negative: x }, Number::Ratio { num, .. }) => Some(
            Number::Infinity { negative: x != (num < 0) },
        ),
        (Number::Ratio { .. }, Number::Infinity { .. }) => Some(Number::Ratio { num: 0, den: 1 }),
        (Number::Ratio { num: n1, den: d1 }, Number::Ratio { num: n2, den: d2 }) => {
            if n2 == 0 {
                if n1 == 0 { Some(Number::NaN) } else { Some(Number::Infinity { negative: n1 < 0 }) }
            } else if n2 > 0 {
                ratio(n1 * d2, d1 * n2)
            } else if fits(-n2) {
                ratio(n1 * (-d2), d1 * (-n2))
            } else {
                None
            }
        },
    }
}

pub fn number_add(a: Number, b: Number) -> (r: Option<Number>)
    requires
        a.wf(),
        b.wf(),
    ensures
        r == add_spec(a, b),
        r matches Some(n) ==> n.wf(),
{
    match (a, b) {
        (Number::NaN, _) => Some(Number::NaN),
        (_, Number::NaN) => Some(Number::NaN),
        (Number::Infinity { negative: x }, Number::Infinity { negative: y }) => {
            if x == y { Some(a) } else { Some(Number::NaN) }
        },
        (Number::Infinity { .. }, _) => Some(a),
        (_, Number::Infinity { .. }) => Some(b),
        (Number::Ratio { num: n1, den: d1 }, Number::Ratio { num: n2, den: d2 }) => {
            if d1 == d2 {
                match n1.checked_add(n2) {
                    Some(n) => Some(make_ratio(n, d1)),
                    None => None,
                }
            } else {
                let p = n1.checked_mul(d2);
                let q = n2.checked_mul(d1);
                match (p, q) {
                    (Some(p), Some(q)) => {
                        let n = p.checked_add(q);
                        let d = d1.checked_mul(d2);
                        match (n, d) {
                            (Some(n), Some(d)) => {
                                assert(d1 * d2 > 0) by (nonlinear_arith)
                                    requires d1 > 0, d2 > 0;
                                Some(make_ratio(n, d))
                            },
                            _ => None,
                        }
                    },
                    _ => None,
                }
            }
        },
    }
}

pub fn number_sub(a: Number, b: Number) -> (r: Option<Number>)
    requires
        a.wf(),
        b.wf(),
    ensures
        r == sub_spec(a, b),
        r matches Some(n) ==> n.wf(),
{
    match (a, b) {
        (Number::NaN, _) => Some(Number::NaN),
        (_, Number::NaN) => Some(Number::NaN),
        (Number::Infinity { negative: x }, Number::Infinity { negative: y }) => {
            if x != y { Some(a) } else { Some(Number::NaN) }
        },
        (Number::Infinity { .. }, _) => Some(a),
        (_, Number::Infinity { negative }) => Some(Number::Infinity { negative: !negative }),
        (Number::Ratio { num: n1, den: d1 }, Number::Ratio { num: n2, den: d2 }) => {
            if d1 == d2 {
                match n1.checked_sub(n2) {
                    Some(n) => Some(make_ratio(n, d1)),
                    None => None,
                }
            } else {
                let p = n1.checked_mul(d2);
                let q = n2.checked_mul(d1);
                match (p, q) {
                    (Some(p), Some(q)) => {
                        let n = p.checked_sub(q);
                        let d = d1.checked_mul(d2);
                        match (n, d) {
                            (Some(n), Some(d)) => {
                                assert(d1 * d2 > 0) by (nonlinear_arith)
                                    requires d1 > 0, d2 > 0;
                                Some(make_ratio(n, d))
                            },
                            _ => None,
                        }
                    },
                    _ => None,
                }
            }
        },
    }
}

pub fn number_mul(a: Number, b: Number) -> (r: Option<Number>)
    requires
        a.wf(),
        b.wf(),
    ensures
        r == mul_spec(a, b),
        r matches Some(n) ==> n.wf(),
{
    match (a, b) {
        (Number::NaN, _) => Some(Number::NaN),
        (_, Number::NaN) => Some(Number::NaN),
        (Number::Infinity { negative: x }, Number::Infinity { negative: y }) => Some(
            Number::Infinity { negative: x != y },
        ),
        (Number::Infinity { negative: x }, Number::Ratio { num, .. }) => {
            if num == 0 { Some(Number::NaN) } else { Some(Number::Infinity { negative: x != (num < 0) }) }
        },
        (Number::Ratio { num, .. }, Number::Infinity { negative: y }) => {
            if num == 0 { Some(Number::NaN) } else { Some(Number::Infinity { negative: y != (num < 0) }) }
        },
        (Number::Ratio { num: n1, den: d1 }, Number::Ratio { num: n2, den: d2 }) => {
            let n = n1.checked_mul(n2);
            let d = d1.checked_mul(d2);
            match (n, d) {
                (Some(n), Some(d)) => {
                    assert(d1 * d2 > 0) by (nonlinear_arith)
                        requires d1 > 0, d2 > 0;
                    Some(make_ratio(n, d))
                },
                _ => None,
            }
        },
    }
}

pub fn number_div(a: Number, b: Number) -> (r: Option<Number>)
    requires
        a.wf(),
        b.wf(),
    ensures
        r == div_spec(a, b),
        r matches Some(n) ==> n.wf(),
{
    match (a, b) {
        (Number::NaN, _) => Some(Number::NaN),
        (_, Number::NaN) => Some(Number::NaN),
        (Number::Infinity { .. }, Number::Infinity { .. }) => Some(Number::NaN),
        (Number::Infinity { negative: x }, Number::Ratio { num, .. }) => Some(
            Number::Infinity { negative: x != (num < 0) },
        ),
        (Number::Ratio { .. }, Number::Infinity { .. }) => Some(Number::Ratio { num: 0, den: 1 }),
        (Number::Ratio { num: n1, den: d1 }, Number::Ratio { num: n2, den: d2 }) => {
            if n2 == 0 {
                if n1 == 0 { Some(Number::NaN) } else { Some(Number::Infinity { negative: n1 < 0 }) }
            } else {
                let (m2, e2) = if n2 > 0 {
                    (Some(n2), Some(d2))
                } else {
                    (0i128.checked_sub(n2), Some(-d2))
                };
                match (m2, e2) {
                    (Some(m2), Some(e2)) => {
                        let n = n1.checked_mul(e2);
                        let d = d1.checked_mul(m2);
                        match (n, d) {
                            (Some(n), Some(d)) => {
                                assert(d1 * m2 > 0) by (nonlinear_arith)
                                    requires d1 > 0, m2 > 0;
                                Some(make_ratio(n, d))
                            },
                            _ => None,
                        }
                    },
                    _ => None,
                }
            }
        },
    }
}

/// The size of a number's denominator (0 for the non-finite values).
pub open spec fn den_of(n: Number) -> nat {
    match n {
        Number::Ratio { den, .. } => if den > 0 { den as nat } else { 0 },
        _ => 0,
    }
}

/// The size of a number's numerator (0 for the non-finite values).
pub open spec fn num_of(n: Number) -> nat {
    match n {
        Number::Ratio { num, .. } => abs(num as int),
        _ => 0,
    }
}

/// `x / 2`, rounded towards zero.
pub open spec fn half(x: int) -> int {
    if x < 0 { -((-x) / 2) } else { x / 2 }
}

/// A coarser fraction of about the same value: numerator and denominator
/// halved, rounding towards zero.
pub open spec fn shrink(n: Number) -> Number {
    match n {
        Number::Ratio { num, den } => Number::Ratio {
            num: half(num as int) as i128,
            den: (den / 2) as i128,
        },
        _ => n,
    }
}

/// The sum, which never fails: the exact sum where it fits in 128 bits;
/// otherwise the operand with the larger denominator is made coarser and
/// the sum tried again, and a sum of two integers that does not fit is an
/// infinity.
pub open spec fn num_sum(a: Number, b: Number) -> Number
    decreases den_of(a) + den_of(b),
{
    match add_spec(a, b) {
        Some(r) => r,
        None => match (a, b) {
            (Number::Ratio { num: n1, den: d1 }, Number::Ratio { den: d2, .. }) => {
                if d1 >= d2 && d1 >= 2 {
                    num_sum(shrink(a), b)
                } else if d2 >= 2 {
                    num_sum(a, shrink(b))
                } else {
                    Number::Infinity { negative: n1 < 0 }
                }
            },
            _ => Number::NaN,
        },
    }
}

/// The difference, which never fails, in the way of `num_sum`.
pub open spec fn num_diff(a: Number, b: Number) -> Number
    decreases den_of(a) + den_of(b),
{
    match sub_spec(a, b) {
        Some(r) => r,
        None => match (a, b) {
            (Number::Ratio { num: n1, den: d1 }, Number::Ratio { den: d2, .. }) => {
                if d1 >= d2 && d1 >= 2 {
                    num_diff(shrink(a), b)
                } else if d2 >= 2 {
                    num_diff(a, shrink(b))
                } else {
                    Number::Infinity { negative: n1 < 0 }
                }
            },
            _ => Number::NaN,
        },
    }
}

/// The product, which never fails, in the way of `num_sum`.
pub open spec fn num_prod(a: Number, b: Number) -> Number
    decreases den_of(a) + den_of(b),
{
    match mul_spec(a, b) {
        Some(r) => r,
        None => match (a, b) {
            (Number::Ratio { num: n1, den: d1 }, Number::Ratio { num: n2, den: d2 }) => {
                if d1 >= d2 && d1 >= 2 {
                    num_prod(shrink(a), b)
                } else if d2 >= 2 {
                    num_prod(a, shrink(b))
                } else {
                    Number::Infinity { negative: (n1 < 0) != (n2 < 0) }
                }
            },
            _ => Number::NaN,
        },
    }
}

/// The quotient, which never fails: the exact quotient where it fits;
/// otherwise the operand with the larger denominator is made coarser, and
/// for two integers both are halved; a quotient that still does not fit is
/// an infinity.
pub open spec fn num_quot(a: Number, b: Number) -> Number
    decreases den_of(a) + den_of(b) + num_of(b),
{
    match div_spec(a, b) {
        Some(r) => r,
        None => match (a, b) {
            (Number::Ratio { num: n1, den: d1 }, Number::Ratio { num: n2, den: d2 }) => {
                if d1 >= d2 && d1 >= 2 {
                    num_quot(shrink(a), b)
                } else if d2 >= 2 {
                    num_quot(a, shrink(b))
                } else if d1 == 1 && d2 == 1 && abs(n2 as int) >= 2 {
                    num_quot(
                        Number::Ratio { num: half(n1 as int) as i128, den: 1 },
                        Number::Ratio { num: half(n2 as int) as i128, den: 1 },
                    )
                } else {
                    Number::Infinity { negative: (n1 < 0) != (n2 < 0) }
                }
            },
            _ => Number::NaN,
        },
    }
}

fn half_of(x: i128) -> (r: i128)
    ensures
        r == half(x as int),
{
    if x >= 0 {
        x / 2
    } else {
        let a: u128 = ((-(x + 1)) as u128) + 1;
        let h = a / 2;
        -(h as i128)
    }
}

fn shrink_number(n: Number) -> (r: Number)
    requires
        n matches Number::Ratio { den, .. } && den >= 2,
    ensures
        r == shrink(n),
        r.wf(),
        den_of(r) < den_of(n),
        num_of(r) <= num_of(n),
{
    match n {
        Number::Ratio { num, den } => Number::Ratio { num: half_of(num), den: den / 2 },
        _ => n,
    }
}

/// The sum of two numbers; see `num_sum`.
pub fn number_sum(a: Number, b: Number) -> (r: Number)
    requires
        a.wf(),
        b.wf(),
    ensures
        r == num_sum(a, b),
        r.wf(),
{
    let mut x = a;
    let mut y = b;
    loop
        invariant
            x.wf(),
            y.wf(),
            num_sum(x, y) == num_sum(a, b),
        decreases den_of(x) + den_of(y),
    {
        match number_add(x, y) {
            Some(r) => {
                return r;
            },
            None => {},
        }
        match (x, y) {
            (Number::Ratio { num: n1, den: d1 }, Number::Ratio { den: d2, .. }) => {
                if d1 >= d2 && d1 >= 2 {
                    x = shrink_number(x);
                } else if d2 >= 2 {
                    y = shrink_number(y);
                } else {
                    return Number::Infinity { negative: n1 < 0 };
                }
            },
            _ => {
                return Number::NaN;
            },
        }
    }
}

/// The difference of two numbers; see `num_diff`.
pub fn number_diff(a: Number, b: Number) -> (r: Number)
    requires
        a.wf(),
        b.wf(),
    ensures
        r == num_diff(a, b),
        r.wf(),
{
    let mut x = a;
    let mut y = b;
    loop
        invariant
            x.wf(),
            y.wf(),
            num_diff(x, y) == num_diff(a, b),
        decreases den_of(x) + den_of(y),
    {
        match number_sub(x, y) {
            Some(r) => {
                return r;
            },
            None => {},
        }
        match (x, y) {
            (Number::Ratio { num: n1, den: d1 }, Number::Ratio { den: d2, .. }) => {
                if d1 >= d2 && d1 >= 2 {
                    x = shrink_number(x);
                } else if d2 >= 2 {
                    y = shrink_number(y);
                } else {
                    return Number::Infinity { negative: n1 < 0 };
                }
            },
            _ => {
                return Number::NaN;
            },
        }
    }
}

/// The product of two numbers; see `num_prod`.
pub fn number_prod(a: Number, b: Number) -> (r: Number)
    requires
        a.wf(),
        b.wf(),
    ensures
        r == num_prod(a, b),
        r.wf(),
{
    let mut x = a;
    let mut y = b;
    loop
        invariant
            x.wf(),
            y.wf(),
            num_prod(x, y) == num_prod(a, b),
        decreases den_of(x) + den_of(y),
    {
        match number_mul(x, y) {
            Some(r) => {
                return r;
            },
            None => {},
        }
        match (x, y) {
            (Number::Ratio { num: n1, den: d1 }, Number::Ratio { num: n2, den: d2 }) => {
                if d1 >= d2 && d1 >= 2 {
                    x = shrink_number(x);
                } else if d2 >= 2 {
                    y = shrink_number(y);
                } else {
                    return Number::Infinity { negative: (n1 < 0) != (n2 < 0) };
                }
            },
            _ => {
                return Number::NaN;
            },
        }
    }
}

/// The quotient of two numbers; see `num_quot`.
pub fn number_quot(a: Number, b: Number) -> (r: Number)
    requires
        a.wf(),
        b.wf(),
    ensures
        r == num_quot(a, b),
        r.wf(),
{
    let mut x = a;
    let mut y = b;
    loop
        invariant
            x.wf(),
            y.wf(),
            num_quot(x, y) == num_quot(a, b),
        decreases den_of(x) + den_of(y) + num_of(y),
    {
        match number_div(x, y) {
            Some(r) => {
                return r;
            },
            None => {},
        }
        match (x, y) {
            (Number::Ratio { num: n1, den: d1 }, Number::Ratio { num: n2, den: d2 }) => {
                if d1 >= d2 && d1 >= 2 {
                    x = shrink_number(x);
                } else if d2 >= 2 {
                    y = shrink_number(y);
                } else if d1 == 1 && d2 == 1 && (n2 >= 2 || n2 <= -2) {
                    x = Number::Ratio { num: half_of(n1), den: 1 };
                    y = Number::Ratio { num: half_of(n2), den: 1 };
                } else {
                    return Number::Infinity { negative: (n1 < 0) != (n2 < 0) };
                }
            },
            _ => {
                return Number::NaN;
            },
        }
    }
}

/// The decimal digit `d`, for `0 <= d < 10`.
pub open spec fn digit_char(d: int) -> char {
    if d == 0 { '0' } else if d == 1 { '1' } else if d == 2 { '2' } else if d == 3 { '3' }
    else if d == 4 { '4' } else if d == 5 { '5' } else if d == 6 { '6' } else if d == 7 { '7' }
    else if d == 8 { '8' } else { '9' }
}

/// The decimal digits of `q`, without leading zeros.
pub open spec fn nat_digits(q: nat) -> Seq<char>
    decreases q,
{
    if q < 10 {
        seq![digit_char(q as int)]
    } else {
        nat_digits(q / 10).push(digit_char((q % 10) as int))
    }
}

/// Up to `k` significant decimal digits of the fraction `r / d` (with
/// `r < d`), stopping early when the expansion ends. Up to `z` zeros that
/// come before the first non-zero digit are written without counting.
pub open spec fn frac_digits(r: nat, d: nat, k: nat, z: nat) -> Seq<char>
    decreases k + z,
{
    if k == 0 || r == 0 || d == 0 {
        Seq::empty()
    } else {
        let x = 10 * (r as int);
        let q = x / (d as int);
        let rest = (x % (d as int)) as nat;
        if q == 0 && z > 0 {
            seq!['0'] + frac_digits(rest, d, k, (z - 1) as nat)
        } else {
            seq![digit_char(q)] + frac_digits(rest, d, (k - 1) as nat, 0)
        }
    }
}

/// How many significant fractional digits a number is written with at most.
pub const FRACTION_DIGITS: u64 = 16;

/// How many zeros may lead the fractional digits of a number below one
/// (a denominator below 2^127 needs fewer than 39).
pub const LEADING_ZEROS: u64 = 40;

pub open spec fn abs(x: int) -> nat {
    if x < 0 { (-x) as nat } else { x as nat }
}

/// The text of a number: an optional minus sign, the integer part, and the
/// fractional part when there is one; `inf`, `-inf` and `NaN` otherwise.
pub open spec fn num_text(n: Number) -> Seq<char> {
    match n {
        Number::NaN => seq!['N', 'a', 'N'],
        Number::Infinity { negative } => if negative { seq!['-', 'i', 'n', 'f'] } else { seq!['i', 'n', 'f'] },
        Number::Ratio { num, den } => {
            let a = abs(num as int);
            let q = a / (den as nat);
            let r = a % (den as nat);
            let sign = if num < 0 { seq!['-'] } else { Seq::<char>::empty() };
            let frac = if r == 0 {
                Seq::<char>::empty()
            } else {
                seq!['.'] + frac_digits(r, den as nat, FRACTION_DIGITS as nat, if q == 0 { LEADING_ZEROS as nat } else { 0 })
            };
            sign + nat_digits(q) + frac
        },
    }
}

fn digit(d: u128) -> (c: char)
    requires
        d < 10,
    ensures
        c == digit_char(d as int),
{
    if d == 0 { '0' } else if d == 1 { '1' } else if d == 2 { '2' } else if d == 3 { '3' }
    else if d == 4 { '4' } else if d == 5 { '5' } else if d == 6 { '6' } else if d == 7 { '7' }
    else if d == 8 { '8' } else { '9' }
}

fn push_digits(q: u128, out: &mut Vec<char>)
    ensures
        final(out)@ == old(out)@ + nat_digits(q as nat),
    decreases q,
{
    if q < 10 {
        out.push(digit(q));
        assert(final(out)@ =~= old(out)@ + nat_digits(q as nat));
    } else {
        push_digits(q / 10, out);
        out.push(digit(q % 10));
        assert(final(out)@ =~= old(out)@ + nat_digits(q as nat));
    }
}

/// One step of long division: the next digit of `r / d` and the remainder.
/// Works by repeated addition, so nothing leaves 128 bits.
fn next_digit(r: u128, d: u128) -> (res: (u128, u128))
    requires
        r < d,
    ensures
        res.0 == (10 * (r as int)) / (d as int),
        res.1 == (10 * (r as int)) % (d as int),
        res.0 < 10,
{
    let mut dig: u128 = 0;
    let mut rem: u128 = 0;
    let mut k: u128 = 0;
    while k < 10
        invariant
            r < d,
            k <= 10,
            rem < d,
            dig <= k,
            k * r == dig * d + rem,
        decreases 10 - k,
    {
        if rem >= d - r {
            rem = rem - (d - r);
            dig = dig + 1;
        } else {
            rem = rem + r;
        }
        assert((k + 1) * r == k * r + r) by (nonlinear_arith);
        assert((dig as int) * d == (dig - 1) * d + d) by (nonlinear_arith);
        k = k + 1;
    }
    proof {
        lemma_fundamental_div_mod_converse(10 * (r as int), d as int, dig as int, rem as int);
        assert(dig < 10) by (nonlinear_arith)
            requires 10 * r == dig * d + rem, r < d, rem >= 0;
    }
    (dig, rem)
}

fn push_fraction(r: u128, d: u128, k: u64, z: u64, out: &mut Vec<char>)
    requires
        r < d,
    ensures
        final(out)@ == old(out)@ + frac_digits(r as nat, d as nat, k as nat, z as nat),
    decreases k + z,
{
    if k == 0 || r == 0 {
        assert(final(out)@ =~= old(out)@ + frac_digits(r as nat, d as nat, k as nat, z as nat));
    } else {
        let (q, rem) = next_digit(r, d);
        out.push(digit(q));
        if q == 0 && z > 0 {
            push_fraction(rem, d, k, z - 1, out);
        } else {
            push_fraction(rem, d, k - 1, 0, out);
        }
        assert(final(out)@ =~= old(out)@ + frac_digits(r as nat, d as nat, k as nat, z as nat));
    }
}

/// The text of `n` as a sequence of characters.
pub fn number_text(n: Number) -> (r: Vec<char>)
    requires
        n.wf(),
    ensures
        r@ == num_text(n),
{
    let mut out: Vec<char> = Vec::new();
    match n {
        Number::NaN => {
            out.push('N');
            out.push('a');
            out.push('N');
        },
        Number::Infinity { negative } => {
            if negative {
                out.push('-');
            }
            out.push('i');
            out.push('n');
            out.push('f');
        },
        Number::Ratio { num, den } => {
            let a: u128 = if num < 0 {
                ((-(num + 1)) as u128) + 1
            } else {
                num as u128
            };
            let d: u128 = den as u128;
            if num < 0 {
                out.push('-');
            }
            let q = a / d;
            push_digits(q, &mut out);
            let r = a % d;
            if r != 0 {
                out.push('.');
                let z = if q == 0 { LEADING_ZEROS } else { 0 };
                push_fraction(r, d, FRACTION_DIGITS, z, &mut out);
            }
        },
    }
    proof {
        if let Number::Ratio { num, den } = n {
            let a = abs(num as int);
            let sign = if num < 0 { seq!['-'] } else { Seq::<char>::empty() };
            let r = a % (den as nat);
            let q = a / (den as nat);
            let frac = if r == 0 {
                Seq::<char>::empty()
            } else {
                seq!['.'] + frac_digits(r, den as nat, FRACTION_DIGITS as nat, if q == 0 { LEADING_ZEROS as nat } else { 0 })
            };
            assert(out@ =~= sign + nat_digits(a / (den as nat)) + frac);
        }
        assert(out@ =~= num_text(n));
    }
    out
}

pub open spec fn is_digit_char(c: char) -> bool {
    '0' <= c && c <= '9'
}

pub open spec fn digit_value(c: char) -> int {
    (c as u32) - ('0' as u32)
}

/// How many decimal points the first `n` characters of `t` hold.
pub open spec fn dots(t: Seq<char>, n: int) -> nat
    decreases n,
{
    if n <= 0 {
        0
    } else {
        dots(t, n - 1) + if t[n - 1] == '.' { 1nat } else { 0nat }
    }
}

/// A number literal: digits with at most one decimal point, and at least one digit.
pub open spec fn is_literal(t: Seq<char>) -> bool {
    &&& forall|i: int| 0 <= i < t.len() ==> is_digit_char(#[trigger] t[i]) || t[i] == '.'
    &&& dots(t, t.len() as int) <= 1
    &&& exists|i: int| 0 <= i < t.len() && is_digit_char(#[trigger] t[i])
}

/// The number `n` / 1.
pub open spec fn int_number(n: int) -> Number {
    Number::Ratio { num: n as i128, den: 1 }
}

/// The value read from the first `n` characters of a literal, and the scale
/// of its last fractional digit: each integer digit is taken as value times
/// ten plus the digit, each fractional digit adds the digit divided by the
/// next power of ten, all with the arithmetic that never fails.
pub open spec fn lit_fold(t: Seq<char>, n: int) -> (Number, Number)
    decreases n,
{
    if n <= 0 {
        (int_number(0), int_number(1))
    } else {
        let (v, sc) = lit_fold(t, n - 1);
        let c = t[n - 1];
        if !is_digit_char(c) {
            (v, sc)
        } else if dots(t, n - 1) == 0 {
            (num_sum(num_prod(v, int_number(10)), int_number(digit_value(c))), sc)
        } else {
            let sc2 = num_prod(sc, int_number(10));
            (num_sum(v, num_quot(int_number(digit_value(c)), sc2)), sc2)
        }
    }
}

/// The value of a number literal, when `t` is one.
pub open spec fn literal_value(t: Seq<char>) -> Option<Number> {
    if is_literal(t) {
        Some(lit_fold(t, t.len() as int).0)
    } else {
        None
    }
}

/// Whether `t` is a number literal.
pub fn check_literal(t: &Vec<char>) -> (r: bool)
    ensures
        r == is_literal(t@),
{
    let mut seen_dot: bool = false;
    let mut any_digit: bool = false;
    let mut i: usize = 0;
    let ghost s = t@;
    while i < t.len()
        invariant
            s == t@,
            i <= s.len(),
            seen_dot == (dots(s, i as int) > 0),
            dots(s, i as int) <= 1,
            forall|j: int| 0 <= j < i ==> is_digit_char(#[trigger] s[j]) || s[j] == '.',
            any_digit == (exists|j: int| 0 <= j < i && is_digit_char(#[trigger] s[j])),
        decreases s.len() - i,
    {
        let c = t[i];
        if '0' <= c && c <= '9' {
            any_digit = true;
        } else if c == '.' {
            if seen_dot {
                proof {
                    assert(dots(s, i + 1) == 2);
                    lemma_dots_grow(s, i + 1, s.len() as int);
                }
                return false;
            }
            seen_dot = true;
        } else {
            assert(!(is_digit_char(s[i as int]) || s[i as int] == '.'));
            return false;
        }
        i = i + 1;
    }
    any_digit
}

/// Reads a number literal: `None` when `t` is not one.
pub fn parse_literal(t: &Vec<char>) -> (r: Option<Number>)
    ensures
        r == literal_value(t@),
        r matches Some(n) ==> n.wf(),
{
    if !check_literal(t) {
        return None;
    }
    let ten = Number::Ratio { num: 10, den: 1 };
    let mut v = Number::Ratio { num: 0, den: 1 };
    let mut sc = Number::Ratio { num: 1, den: 1 };
    let mut seen_dot: bool = false;
    let mut i: usize = 0;
    let ghost s = t@;
    while i < t.len()
        invariant
            s == t@,
            i <= s.len(),
            (v, sc) == lit_fold(s, i as int),
            v.wf(),
            sc.wf(),
            seen_dot == (dots(s, i as int) > 0),
            ten == int_number(10),
        decreases s.len() - i,
    {
        let c = t[i];
        if '0' <= c && c <= '9' {
            let d = Number::Ratio { num: (c as u32 - '0' as u32) as i128, den: 1 };
            assert(d == int_number(digit_value(c)));
            if !seen_dot {
                v = number_sum(number_prod(v, ten), d);
            } else {
                sc = number_prod(sc, ten);
                v = number_sum(v, number_quot(d, sc));
            }
        } else if c == '.' {
            seen_dot = true;
        }
        i = i + 1;
    }
    Some(v)
}

proof fn lemma_dots_grow(t: Seq<char>, n: int, m: int)
    requires
        0 <= n <= m <= t.len(),
    ensures
        dots(t, n) <= dots(t, m),
    decreases m - n,
{
    if n < m {
        lemma_dots_grow(t, n, m - 1);
    }
}

} // verus!
