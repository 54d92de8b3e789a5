use vstd::prelude::*;
use crate::decimal::{DecimalU64, max_nat, pow10};
use crate::error::PoolError;

verus! {

/// A fee rate: a decimal in `[0, 1)`.
#[derive(Debug, Clone, Copy, PartialEq, Eq, Structural)]
pub struct PoolFee {
    pub rate: DecimalU64,
}

/// Whether two rates add up to less than one.
pub open spec fn fees_below_one(a: DecimalU64, b: DecimalU64) -> bool {
    let d = max_nat(a.decimals as nat, b.decimals as nat);
    a.at(d) + b.at(d) < pow10(d)
}

impl PoolFee {
    pub open spec fn wf(self) -> bool {
        self.rate.wf() && self.rate.below_one()
    }

    pub fn new(rate: DecimalU64) -> (r: Result<PoolFee, PoolError>)
        ensures
            (rate.wf() && rate.below_one()) ==> r == Ok::<PoolFee, PoolError>(PoolFee { rate }),
            !(rate.wf() && rate.below_one()) ==> r == Err::<PoolFee, PoolError>(PoolError::InvalidFeeInput),
    {
        if rate.decimals > crate::decimal::MAX_DECIMALS || !rate.is_below_one() {
            Err(PoolError::InvalidFeeInput)
        } else {
            Ok(PoolFee { rate })
        }
    }

    pub open spec fn spec_zero() -> PoolFee {
        PoolFee { rate: DecimalU64 { value: 0, decimals: 0 } }
    }

    /// The zero rate.
    pub fn zero() -> (r: PoolFee)
        ensures
            r == PoolFee::spec_zero(),
            r.wf(),
    {
        PoolFee { rate: DecimalU64 { value: 0, decimals: 0 } }
    }

    pub fn get(&self) -> (r: DecimalU64)
        ensures
            r == self.rate,
    {
        self.rate
    }
}

/// Whether `a + b < 1`, for two well-formed decimals.
pub fn fees_sum_below_one(a: &DecimalU64, b: &DecimalU64) -> (r: bool)
    requires
        a.wf(),
        b.wf(),
    ensures
        r == fees_below_one(*a, *b),
{
    let d = a.common_decimals(b);
    let x = a.aligned(d);
    let y = b.aligned(d);
    let one = crate::decimal::ten_to_the(d);
    proof {
        crate::decimal::lemma_pow10_monotone(d as nat, 19);
        crate::decimal::lemma_pow10_max();
    }
    if x >= one || y >= one {
        return false;
    }
    x + y < one
}

} // verus!

verus! {

/// Two rates that add up to less than one are each below one.
pub proof fn lemma_each_below_one(a: DecimalU64, b: DecimalU64)
    requires
        a.wf(),
        b.wf(),
        fees_below_one(a, b),
    ensures
        a.below_one(),
        b.below_one(),
{
    let d = max_nat(a.decimals as nat, b.decimals as nat);
    lemma_at_below(a, d);
    lemma_at_below(b, d);
}

proof fn lemma_at_below(a: DecimalU64, d: nat)
    requires
        a.decimals <= d,
        a.at(d) < pow10(d),
    ensures
        a.below_one(),
{
    let k = (d - a.decimals) as nat;
    crate::decimal::lemma_pow10_adds(a.decimals as nat, k);
    assert(a.decimals as nat + k == d);
    crate::decimal::lemma_pow10_positive(k);
    let p = pow10(a.decimals as nat) as int;
    let q = pow10(k) as int;
    assert(a.value * q < p * q);
    assert(a.value < p) by (nonlinear_arith)
        requires
            a.value * q < p * q,
            q >= 1,
    ;
}

/// Two zero rates add up to less than one.
pub proof fn lemma_zero_pair()
    ensures
        fees_below_one(PoolFee::spec_zero().rate, PoolFee::spec_zero().rate),
{
    assert(pow10(0) == 1);
}

} // verus!
