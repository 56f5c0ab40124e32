//! Fixed-point fractions in parts per billion, used for the relayer's
//! reward share. The key operation is `mul_ceil`, which rounds the
//! fractional product up — the explicit tie-break that favours the
//! relayer on fractional fee splits.

use vstd::prelude::*;
use vstd::arithmetic::div_mod::{
    lemma_fundamental_div_mod, lemma_div_is_ordered, lemma_div_multiples_vanish_fancy,
    lemma_hoist_over_denominator, lemma_div_pos_is_pos,
};

verus! {

/// Denominator of every `RewardFraction`: one billion parts make a whole.
pub const BILLION: u32 = 1_000_000_000;

/// `ceil(amount * parts / BILLION)` as an exact integer.
pub open spec fn ceil_mul(amount: u128, parts: u32) -> int {
    (amount as int * parts as int + (BILLION - 1) as int) / (BILLION as int)
}

/// Fee split correctness: for a fee `amount` and a valid fraction, the
/// relayer's ceiling share is between zero and the whole fee, and it
/// and the treasury remainder sum to the fee exactly — no value is
/// created or destroyed by the split.
pub proof fn lemma_fee_split(amount: u128, fraction: RewardFraction)
    requires
        fraction.valid(),
    ensures
        0 <= ceil_mul(amount, fraction.spec_parts()),
        ceil_mul(amount, fraction.spec_parts()) <= amount,
        ceil_mul(amount, fraction.spec_parts()) + (amount - ceil_mul(
            amount,
            fraction.spec_parts(),
        )) == amount,
{
    let b = BILLION as int;
    let p = fraction.spec_parts() as int;
    let f = amount as int;
    lemma_div_pos_is_pos(f * p + b - 1, b);
    assert(f * p + b - 1 >= 0) by (nonlinear_arith)
        requires
            f >= 0,
            p >= 0,
            b >= 1;
    assert(f * p + b - 1 <= b * f + b - 1) by (nonlinear_arith)
        requires
            p <= b,
            f >= 0;
    lemma_div_is_ordered(f * p + b - 1, b * f + b - 1, b);
    lemma_div_multiples_vanish_fancy(f, b - 1, b);
}

/// A fraction in [0, 1], stored as parts per billion. Constructed only
/// through `from_parts`, which saturates at one, so the stored parts
/// never exceed `BILLION`.
#[derive(Clone, Copy, PartialEq, Eq, Structural, Debug)]
pub struct RewardFraction {
    parts: u32,
}

impl RewardFraction {
    /// The stored parts per billion.
    pub closed spec fn spec_parts(&self) -> u32 {
        self.parts
    }

    /// A fraction never exceeds one.
    pub open spec fn valid(&self) -> bool {
        self.spec_parts() <= BILLION
    }

    /// Build a fraction from parts per billion, saturating at one.
    pub fn from_parts(parts: u32) -> (r: RewardFraction)
        ensures
            r.valid(),
            r.spec_parts() == if parts <= BILLION {
                parts as int
            } else {
                BILLION as int
            },
    {
        if parts > BILLION {
            RewardFraction { parts: BILLION }
        } else {
            RewardFraction { parts }
        }
    }

    /// The stored parts per billion.
    pub fn parts(&self) -> (r: u32)
        ensures
            r == self.spec_parts(),
    {
        self.parts
    }

    /// Multiply `amount` by this fraction, rounding the result up.
    /// Because the fraction is at most one, the result never exceeds
    /// `amount`, so the computation cannot overflow.
    pub fn mul_ceil(&self, amount: u128) -> (r: u128)
        requires
            self.valid(),
        ensures
            r == ceil_mul(amount, self.spec_parts()),
            r <= amount,
    {
        let bill: u128 = BILLION as u128;
        let p: u128 = self.parts as u128;
        let q: u128 = amount / bill;
        let rem: u128 = amount % bill;
        proof {
            lemma_fundamental_div_mod(amount as int, bill as int);
            lemma_div_pos_is_pos(amount as int, bill as int);
        }
        assert(rem < bill && q as int == amount as int / bill as int);
        assert(rem as int * p as int <= 1000000000 * 1000000000) by (nonlinear_arith)
            requires
                rem < 1000000000,
                p <= 1000000000;
        let low: u128 = rem * p;
        let ceil_low: u128 = (low + (bill - 1)) / bill;
        proof {
            // ceil_low <= rem, since p <= bill
            assert(low as int + bill as int - 1 <= bill as int * rem as int + bill as int - 1)
                by (nonlinear_arith)
                requires
                    low as int == rem as int * p as int,
                    p <= bill,
                    rem >= 0;
            lemma_div_is_ordered(
                low as int + bill as int - 1,
                bill as int * rem as int + bill as int - 1,
                bill as int,
            );
            lemma_div_multiples_vanish_fancy(rem as int, bill as int - 1, bill as int);
            assert(ceil_low <= rem);
            // q * p <= q * bill <= amount
            assert(q as int * p as int <= q as int * bill as int) by (nonlinear_arith)
                requires
                    p <= bill,
                    q >= 0;
            assert(amount as int == bill as int * q as int + rem as int);
        }
        let r: u128 = q * p + ceil_low;
        proof {
            // amount * p + bill - 1 == (q * p) * bill + (rem * p + bill - 1)
            assert(amount as int * p as int == q as int * p as int * bill as int + rem as int
                * p as int) by (nonlinear_arith)
                requires
                    amount as int == bill as int * q as int + rem as int;
            lemma_hoist_over_denominator(
                rem as int * p as int + bill as int - 1,
                q as int * p as int,
                bill as nat,
            );
        }
        r
    }
}

} // verus!
