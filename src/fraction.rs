use vstd::prelude::*;

verus! {

/// Denominator of every cut: a cut of 250 is 2.5 %.
pub const BASIS_POINTS: u128 = 10_000;

/// `amount * bp / 10_000`, rounded down.
pub open spec fn bp_share(amount: int, bp: int) -> int {
    amount * bp / 10_000
}

pub proof fn lemma_bp_share_bounds(amount: int, bp: int)
    requires
        0 <= amount,
        0 <= bp <= 10_000,
    ensures
        0 <= bp_share(amount, bp) <= amount,
{
    assert(0 <= amount * bp <= amount * 10_000) by (nonlinear_arith)
        requires
            0 <= amount,
            0 <= bp <= 10_000,
    ;
    assert(amount * 10_000 / 10_000 == amount) by (nonlinear_arith);
    assert(0 <= amount * bp / 10_000 <= amount * 10_000 / 10_000) by (nonlinear_arith)
        requires
            0 <= amount * bp <= amount * 10_000,
    ;
}

/// The share of `amount` that `bp` basis points make, rounded down, computed
/// without an intermediate product that could leave `u128`.
pub fn bp_of(amount: u128, bp: u16) -> (r: u128)
    requires
        bp <= 10_000,
    ensures
        r == bp_share(amount as int, bp as int),
        r <= amount,
{
    let q = amount / BASIS_POINTS;
    let rem = amount % BASIS_POINTS;
    proof {
        let a = amount as int;
        let b = bp as int;
        assert(a == q * 10_000 + rem);
        assert(q * b <= q * 10_000) by (nonlinear_arith)
            requires
                0 <= q,
                b <= 10_000,
        ;
        assert(rem * b <= 9_999 * 10_000) by (nonlinear_arith)
            requires
                0 <= rem < 10_000,
                0 <= b <= 10_000,
        ;
        assert((q * 10_000 + rem) * b / 10_000 == q * b + rem * b / 10_000) by (nonlinear_arith)
            requires
                0 <= q,
                0 <= rem,
                0 <= b,
        ;
        lemma_bp_share_bounds(a, b);
    }
    q * (bp as u128) + rem * (bp as u128) / BASIS_POINTS
}

/// A fraction with denominator 10_000 and a numerator of at most 10_000.
#[derive(Clone, Copy, Debug, PartialEq, Eq, Structural)]
pub struct SafeFraction {
    pub numerator: u32,
}

impl SafeFraction {
    pub open spec fn wf(&self) -> bool {
        self.numerator <= 10_000
    }

    /// A fraction of `numerator / 10_000`; `None` for a numerator above
    /// 10_000.
    pub fn new(numerator: u32) -> (r: Option<SafeFraction>)
        ensures
            r is Some <==> numerator <= 10_000,
            r matches Some(f) ==> f.numerator == numerator && f.wf(),
    {
        if numerator <= 10_000 {
            Some(SafeFraction { numerator })
        } else {
            None
        }
    }

    /// The share of `value` that this fraction makes, rounded down.
    pub fn multiply_balance(&self, value: u128) -> (r: u128)
        requires
            self.wf(),
        ensures
            r == bp_share(value as int, self.numerator as int),
            r <= value,
    {
        bp_of(value, self.numerator as u16)
    }
}

} // verus!
