//! Fractions in parts per billion, and the slashing severity formula.
use vstd::prelude::*;
use vstd::arithmetic::div_mod::{lemma_div_is_ordered, lemma_fundamental_div_mod};
use vstd::arithmetic::mul::lemma_mul_inequality;

verus! {

/// Parts in a whole.
pub const BILLION: u32 = 1_000_000_000;

/// A fraction in `[0, 1]`, held as parts per billion.
#[derive(Clone, Copy, Debug, PartialEq, Eq, Structural)]
pub struct Perbill {
    pub parts: u32,
}

impl Perbill {
    pub open spec fn wf(&self) -> bool {
        self.parts <= BILLION
    }

    /// The fraction `parts / 10^9`; more parts than a billion give the whole.
    pub fn from_parts(parts: u32) -> (r: Perbill)
        ensures
            r.wf(),
            r.parts == if parts <= BILLION { parts } else { BILLION },
    {
        if parts <= BILLION {
            Perbill { parts }
        } else {
            Perbill { parts: BILLION }
        }
    }

    /// The parts per billion of this fraction.
    pub fn deconstruct(&self) -> (r: u32)
        ensures
            r == self.parts,
    {
        self.parts
    }

    /// The whole.
    pub fn one() -> (r: Perbill)
        ensures
            r.parts == BILLION,
    {
        Perbill { parts: BILLION }
    }

    /// Nothing.
    pub fn zero() -> (r: Perbill)
        ensures
            r.parts == 0,
    {
        Perbill { parts: 0 }
    }

    /// `p / q` rounded down to a whole part, or the whole when `p >= q`.
    pub fn from_rational(p: u64, q: u64) -> (r: Perbill)
        requires
            q > 0,
        ensures
            r.wf(),
            r.parts == rational_parts(p as nat, q as nat),
    {
        if p >= q {
            Perbill { parts: BILLION }
        } else {
            proof {
                assert((p as u128) * (BILLION as u128) <= u64::MAX * 1_000_000_000u128)
                    by (nonlinear_arith);
            }
            let x: u128 = (p as u128) * (BILLION as u128) / (q as u128);
            proof {
                assert((p as u128) * (BILLION as u128) <= (q as u128) * (BILLION as u128))
                    by (nonlinear_arith)
                    requires
                        p < q,
                ;
                lemma_div_is_ordered(p * BILLION, q * BILLION, q as int);
                assert((q * BILLION) / (q as int) == BILLION) by (nonlinear_arith)
                    requires
                        q > 0,
                ;
            }
            Perbill { parts: x as u32 }
        }
    }

    /// The square of this fraction, rounded to the nearest part (halves down).
    pub fn square(&self) -> (r: Perbill)
        requires
            self.wf(),
        ensures
            r.wf(),
            r.parts == square_parts(self.parts as nat),
    {
        let x: u64 = self.parts as u64;
        proof {
            assert(x * x <= 1_000_000_000_000_000_000u64) by (nonlinear_arith)
                requires
                    x <= 1_000_000_000,
            ;
        }
        let y: u64 = (x * x + 499_999_999) / 1_000_000_000;
        proof {
            lemma_div_is_ordered(
                x * x + 499_999_999,
                1_000_000_000_000_000_000int + 499_999_999,
                1_000_000_000,
            );
        }
        Perbill { parts: y as u32 }
    }
}

/// Parts per billion of `p / q`, rounded down and capped at the whole.
pub open spec fn rational_parts(p: nat, q: nat) -> nat {
    if p >= q {
        BILLION as nat
    } else {
        (p * BILLION / (q as int)) as nat
    }
}

/// Parts per billion of `(x / 10^9)^2`, rounded to the nearest part, halves down.
pub open spec fn square_parts(x: nat) -> nat {
    (((x * x + 499_999_999) as int) / (BILLION as int)) as nat
}

/// Parts per billion of `min((3k / n)^2, 1)`: the share of its exposure that
/// each of `k` offenders out of `n` validators loses.
pub open spec fn severity(k: nat, n: nat) -> nat {
    square_parts(rational_parts(3 * k, n))
}

/// The severity of an offence by `offenders_count` of `validator_set_count`
/// validators: `min((3k / n)^2, 1)`.
pub fn slash_fraction(offenders_count: u32, validator_set_count: u32) -> (r: Perbill)
    requires
        validator_set_count > 0,
    ensures
        r.wf(),
        r.parts == severity(offenders_count as nat, validator_set_count as nat),
{
    let x = Perbill::from_rational(3 * (offenders_count as u64), validator_set_count as u64);
    x.square()
}

proof fn lemma_rational_monotonic(p1: nat, p2: nat, q: nat)
    requires
        p1 <= p2,
        q > 0,
    ensures
        rational_parts(p1, q) <= rational_parts(p2, q),
        rational_parts(p1, q) <= BILLION,
{
    if p1 < q {
        lemma_mul_inequality(p1 as int, q as int, BILLION as int);
        lemma_div_is_ordered(p1 * BILLION, q * BILLION, q as int);
        assert((q * BILLION) / (q as int) == BILLION) by (nonlinear_arith)
            requires
                q > 0,
        ;
        if p2 < q {
            lemma_mul_inequality(p1 as int, p2 as int, BILLION as int);
            lemma_div_is_ordered(p1 * BILLION, p2 * BILLION, q as int);
        }
    }
}

proof fn lemma_square_monotonic(x1: nat, x2: nat)
    requires
        x1 <= x2,
    ensures
        square_parts(x1) <= square_parts(x2),
{
    assert(x1 * x1 <= x2 * x2) by (nonlinear_arith)
        requires
            x1 <= x2,
    ;
    lemma_div_is_ordered(
        (x1 * x1 + 499_999_999) as int,
        (x2 * x2 + 499_999_999) as int,
        BILLION as int,
    );
}

/// More offenders never lessen the severity.
pub proof fn lemma_slash_fraction_monotonic(k1: nat, k2: nat, n: nat)
    requires
        k1 <= k2,
        n > 0,
    ensures
        severity(k1, n) <= severity(k2, n),
{
    lemma_rational_monotonic(3 * k1, 3 * k2, n);
    lemma_square_monotonic(rational_parts(3 * k1, n), rational_parts(3 * k2, n));
}

/// Once a third of the validators offend, the whole exposure is slashed.
pub proof fn lemma_slash_fraction_saturates(k: nat, n: nat)
    requires
        n > 0,
        3 * k >= n,
    ensures
        severity(k, n) == BILLION,
{
    assert(square_parts(BILLION as nat) == BILLION);
}

/// Below a third, each further offender raises the severity by at least one
/// part per billion, for validator sets of up to 94 867 members. In larger sets
/// one offender moves the unsquared fraction by fewer than 31 623 parts, and
/// rounding to whole parts can then hide the step.
pub proof fn lemma_slash_fraction_strictly_increasing(k1: nat, k2: nat, n: nat)
    requires
        k1 < k2,
        3 * k2 < n,
        n <= 94_867,
    ensures
        severity(k1, n) < severity(k2, n),
{
    let q = n as int;
    let a = 3 * k1 * BILLION;
    let b = 3 * k2 * BILLION;
    let x1 = rational_parts(3 * k1, n) as int;
    let x2 = rational_parts(3 * k2, n) as int;
    assert(x1 == a / q);
    assert(x2 == b / q);
    assert(b - a >= 3 * BILLION) by (nonlinear_arith)
        requires
            k1 < k2,
            a == 3 * k1 * BILLION,
            b == 3 * k2 * BILLION,
    ;
    lemma_fundamental_div_mod(a, q);
    lemma_fundamental_div_mod(b, q);
    assert(0 <= a % q < q && 0 <= b % q < q) by {
        vstd::arithmetic::div_mod::lemma_mod_bound(a, q);
        vstd::arithmetic::div_mod::lemma_mod_bound(b, q);
    }
    // q * (x2 - x1) = (b - a) - (b % q - a % q) > 3 * 10^9 - q
    let d = x2 - x1;
    assert(q * d > 3 * BILLION - q) by (nonlinear_arith)
        requires
            a == q * x1 + a % q,
            b == q * x2 + b % q,
            0 <= a % q < q,
            0 <= b % q < q,
            b - a >= 3 * BILLION,
            d == x2 - x1,
    ;
    assert(d >= 31_623) by (nonlinear_arith)
        requires
            q * d > 3 * BILLION - q,
            0 < q <= 94_867,
    ;
    assert(x2 * x2 >= x1 * x1 + BILLION) by (nonlinear_arith)
        requires
            x2 == x1 + d,
            d >= 31_623,
            x1 >= 0,
    ;
    lemma_div_is_ordered(
        x1 * x1 + 499_999_999 + BILLION,
        x2 * x2 + 499_999_999,
        BILLION as int,
    );
    assert((x1 * x1 + 499_999_999 + BILLION) / (BILLION as int) == (x1 * x1 + 499_999_999) / (
    BILLION as int) + 1) by {
        vstd::arithmetic::div_mod::lemma_div_plus_one(x1 * x1 + 499_999_999, BILLION as int);
    }
}

} // verus!
