//! Decimal amounts and their normalization to four fractional digits.
use vstd::prelude::*;

verus! {

/// Number of fractional digits kept for every monetary value.
pub const PRECISION: u32 = 4;

/// A decimal number `mantissa * 10^(-scale)`, as read from input.
#[derive(Clone, Copy, Debug, PartialEq, Eq)]
pub struct Decimal {
    pub mantissa: i64,
    pub scale: u32,
}

pub open spec fn pow10(n: nat) -> nat
    decreases n,
{
    if n == 0 {
        1
    } else {
        10 * pow10((n - 1) as nat)
    }
}

/// `n / d` rounded to the nearest integer, halves away from zero.
pub open spec fn div_round_half_away(n: int, d: int) -> int
    recommends
        d > 0,
{
    if n >= 0 {
        (2 * n + d) / (2 * d)
    } else {
        -((2 * (-n) + d) / (2 * d))
    }
}

/// The amount `a`, rounded to four fractional digits, counted in units of `10^-4`.
pub open spec fn normalized_units(a: Decimal) -> int {
    if a.scale <= PRECISION {
        a.mantissa * pow10((PRECISION - a.scale) as nat)
    } else {
        div_round_half_away(a.mantissa as int, pow10((a.scale - PRECISION) as nat) as int)
    }
}

/// The exact value of `a` is at most `units * 10^-4`.
pub open spec fn at_most_units(a: Decimal, units: int) -> bool {
    a.mantissa * pow10(PRECISION as nat) <= units * pow10(a.scale as nat)
}

pub proof fn lemma_pow10_positive(n: nat)
    ensures
        pow10(n) >= 1,
    decreases n,
{
    if n > 0 {
        lemma_pow10_positive((n - 1) as nat);
    }
}

pub proof fn lemma_pow10_add(a: nat, b: nat)
    ensures
        pow10(a + b) == pow10(a) * pow10(b),
    decreases a,
{
    if a == 0 {
        assert(a + b == b);
        assert(pow10(a) == 1);
        assert(pow10(a + b) == pow10(a) * pow10(b));
    } else {
        let p = pow10((a - 1) as nat);
        let q = pow10(b);
        lemma_pow10_add((a - 1) as nat, b);
        assert(((a - 1) as nat + b) as nat == (a + b - 1) as nat);
        assert(pow10(a + b) == 10 * pow10((a + b - 1) as nat));
        assert(pow10(a) == 10 * p);
        assert(10 * (p * q) == (10 * p) * q) by (nonlinear_arith);
        assert(pow10(a + b) == pow10(a) * pow10(b));
    }
}

pub proof fn lemma_pow10_monotone(a: nat, b: nat)
    requires
        a <= b,
    ensures
        pow10(a) <= pow10(b),
{
    lemma_pow10_add(a, (b - a) as nat);
    lemma_pow10_positive((b - a) as nat);
    lemma_pow10_positive(a);
    assert(pow10(a) * 1 <= pow10(a) * pow10((b - a) as nat)) by (nonlinear_arith)
        requires
            pow10((b - a) as nat) >= 1,
            pow10(a) >= 1,
    ;
}

proof fn lemma_pow10_20()
    ensures
        pow10(20) == 100_000_000_000_000_000_000,
{
    reveal_with_fuel(pow10, 21);
}

/// `10^n` for `n <= 20`.
fn pow10_exec(n: u32) -> (r: i128)
    requires
        n <= 20,
    ensures
        r == pow10(n as nat),
{
    let mut r: i128 = 1;
    let mut i: u32 = 0;
    while i < n
        invariant
            i <= n <= 20,
            r == pow10(i as nat),
        decreases n - i,
    {
        proof {
            lemma_pow10_monotone(i as nat, 19);
            lemma_pow10_20();
        }
        r = r * 10;
        i = i + 1;
    }
    r
}

impl Decimal {
    /// The amount rounded to four fractional digits, counted in units of `10^-4`.
    pub fn normalize(&self) -> (r: i128)
        ensures
            r == normalized_units(*self),
    {
        if self.scale <= PRECISION {
            let f = pow10_exec(PRECISION - self.scale);
            proof {
                lemma_pow10_monotone((PRECISION - self.scale) as nat, 4);
                reveal_with_fuel(pow10, 5);
                assert(-9223372036854775808 * f <= self.mantissa * f <= 9223372036854775807 * f)
                    by (nonlinear_arith)
                    requires
                        f >= 0,
                        -9223372036854775808 <= self.mantissa <= 9223372036854775807,
                ;
            }
            self.mantissa as i128 * f
        } else if self.scale - PRECISION <= 19 {
            let d = pow10_exec(self.scale - PRECISION);
            proof {
                lemma_pow10_positive((self.scale - PRECISION) as nat);
                lemma_pow10_monotone((self.scale - PRECISION) as nat, 20);
                lemma_pow10_20();
            }
            let m = self.mantissa as i128;
            if m >= 0 {
                (2 * m + d) / (2 * d)
            } else {
                -((2 * (-m) + d) / (2 * d))
            }
        } else {
            proof {
                let d = pow10((self.scale - PRECISION) as nat) as int;
                lemma_pow10_monotone(20, (self.scale - PRECISION) as nat);
                lemma_pow10_20();
                let m = self.mantissa as int;
                if m >= 0 {
                    assert((2 * m + d) / (2 * d) == 0) by (nonlinear_arith)
                        requires
                            0 <= 2 * m + d < 2 * d,
                    ;
                } else {
                    assert((2 * (-m) + d) / (2 * d) == 0) by (nonlinear_arith)
                        requires
                            0 <= 2 * (-m) + d < 2 * d,
                    ;
                }
            }
            0
        }
    }
    /// Whether the exact value of this amount, before any rounding, is at most
    /// `units * 10^-4`.
    pub fn at_most(&self, units: i64) -> (r: bool)
        ensures
            r == at_most_units(*self, units as int),
    {
        let m = self.mantissa as i128;
        let u = units as i128;
        if self.scale <= PRECISION {
            let f = pow10_exec(PRECISION - self.scale);
            proof {
                let k = (PRECISION - self.scale) as nat;
                let t = pow10(self.scale as nat);
                lemma_pow10_add(k, self.scale as nat);
                assert(k + self.scale as nat == PRECISION as nat);
                lemma_pow10_positive(self.scale as nat);
                lemma_pow10_monotone(k, 4);
                reveal_with_fuel(pow10, 5);
                assert((m * (f * t) <= u * t) == (m * f <= u)) by (nonlinear_arith)
                    requires
                        t >= 1,
                ;
                assert(-9223372036854775808 * f <= m * f <= 9223372036854775807 * f)
                    by (nonlinear_arith)
                    requires
                        f >= 0,
                        -9223372036854775808 <= m <= 9223372036854775807,
                ;
                assert(pow10(PRECISION as nat) == f * t);
                assert(at_most_units(*self, units as int) == (m * f <= u));
            }
            m * f <= u
        } else if self.scale - PRECISION <= 19 {
            let d = pow10_exec(self.scale - PRECISION);
            proof {
                let k = (self.scale - PRECISION) as nat;
                let t = pow10(PRECISION as nat);
                lemma_pow10_add(PRECISION as nat, k);
                assert(PRECISION as nat + k == self.scale as nat);
                lemma_pow10_positive(PRECISION as nat);
                lemma_pow10_positive(k);
                lemma_pow10_monotone(k, 19);
                lemma_pow10_monotone(19, 20);
                lemma_pow10_20();
                assert((m * t <= u * (t * d)) == (m <= u * d)) by (nonlinear_arith)
                    requires
                        t >= 1,
                ;
                assert(-9223372036854775808 * d <= u * d <= 9223372036854775807 * d)
                    by (nonlinear_arith)
                    requires
                        d >= 0,
                        -9223372036854775808 <= u <= 9223372036854775807,
                ;
                assert(pow10(self.scale as nat) == t * d);
                assert(at_most_units(*self, units as int) == (m <= u * d));
            }
            m <= u * d
        } else {
            proof {
                let k = (self.scale - PRECISION) as nat;
                let t = pow10(PRECISION as nat);
                let d = pow10(k) as int;
                lemma_pow10_add(PRECISION as nat, k);
                assert(PRECISION as nat + k == self.scale as nat);
                lemma_pow10_positive(PRECISION as nat);
                lemma_pow10_monotone(20, k);
                lemma_pow10_20();
                assert((m * t <= u * (t * d)) == (m <= u * d)) by (nonlinear_arith)
                    requires
                        t >= 1,
                ;
                if u >= 1 {
                    assert(u * d >= d) by (nonlinear_arith)
                        requires
                            u >= 1,
                            d >= 0,
                    ;
                } else if u <= -1 {
                    assert(u * d <= -d) by (nonlinear_arith)
                        requires
                            u <= -1,
                            d >= 0,
                    ;
                } else {
                    assert(u * d == 0);
                }
                assert(pow10(self.scale as nat) == t * d);
                assert(at_most_units(*self, units as int) == (m <= u * d));
            }
            u > 0 || (u == 0 && m <= 0)
        }
    }
}

} // verus!
