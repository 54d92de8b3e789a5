use vstd::prelude::*;
use crate::decimal::{pow10, ten_to_the, lemma_pow10_max, lemma_pow10_monotone, lemma_pow10_positive};
use crate::error::PoolError;

verus! {

/// `v` rescaled to the pool's common precision: `v * 10^e`.
pub open spec fn to_eq(v: int, e: nat) -> int {
    v * pow10(e)
}

/// `v` brought back from the common precision, rounding half up:
/// `(v + 5 * 10^(e-1)) / 10^e`.
pub open spec fn from_eq(v: int, e: nat) -> int {
    if e == 0 {
        v
    } else {
        (v + 5 * pow10((e - 1) as nat)) / (pow10(e) as int)
    }
}

/// Whether `from_equalized` succeeds on `v`: the rounding fits 128 bits and the
/// result fits 64.
pub open spec fn from_eq_ok(v: int, e: nat) -> bool {
    if e == 0 {
        v <= u64::MAX
    } else {
        v + 5 * pow10((e - 1) as nat) <= u128::MAX && from_eq(v, e) <= u64::MAX
    }
}

/// `v` brought back from the common precision, rounded down: what the pool owes.
pub open spec fn from_eq_down(v: int, e: nat) -> int {
    v / (pow10(e) as int)
}

/// `v` brought back from the common precision, rounded up: what the user owes.
pub open spec fn from_eq_up(v: int, e: nat) -> int {
    (v + pow10(e) - 1) / (pow10(e) as int)
}

/// Whether `from_equalized_down` succeeds on `v`.
pub open spec fn from_eq_down_ok(v: int, e: nat) -> bool {
    from_eq_down(v, e) <= u64::MAX
}

/// Whether `from_equalized_up` succeeds on `v`.
pub open spec fn from_eq_up_ok(v: int, e: nat) -> bool {
    v + pow10(e) - 1 <= u128::MAX && from_eq_up(v, e) <= u64::MAX
}

/// An amount owed by the pool, brought back from the common precision, rounded down.
pub fn from_equalized_down(v: u128, e: u8) -> (r: Result<u64, PoolError>)
    requires
        e <= 19,
    ensures
        match r {
            Ok(x) => x == from_eq_down(v as int, e as nat),
            Err(err) => err == PoolError::NumericOverflow,
        },
        r is Ok <==> from_eq_down_ok(v as int, e as nat),
{
    let t = ten_to_the(e);
    proof {
        lemma_pow10_positive(e as nat);
    }
    let q = v / t;
    if q > u64::MAX as u128 {
        Err(PoolError::NumericOverflow)
    } else {
        Ok(q as u64)
    }
}

/// An amount owed by the user, brought back from the common precision, rounded up.
pub fn from_equalized_up(v: u128, e: u8) -> (r: Result<u64, PoolError>)
    requires
        e <= 19,
    ensures
        match r {
            Ok(x) => x == from_eq_up(v as int, e as nat),
            Err(err) => err == PoolError::NumericOverflow,
        },
        r is Ok <==> from_eq_up_ok(v as int, e as nat),
{
    let t = ten_to_the(e);
    proof {
        lemma_pow10_positive(e as nat);
    }
    match v.checked_add(t - 1) {
        None => Err(PoolError::NumericOverflow),
        Some(s) => {
            let q = s / t;
            if q > u64::MAX as u128 {
                Err(PoolError::NumericOverflow)
            } else {
                Ok(q as u64)
            }
        },
    }
}

/// Each amount of `x` rescaled by its equalizer in `e`.
pub open spec fn equalized(x: Seq<u64>, e: Seq<u8>) -> Seq<u128> {
    Seq::new(x.len(), |i: int| to_eq(x[i] as int, e[i] as nat) as u128)
}

/// An amount rescaled to the common precision.
pub fn to_equalized(v: u64, e: u8) -> (r: u128)
    requires
        e <= 19,
    ensures
        r == to_eq(v as int, e as nat),
{
    let t = ten_to_the(e);
    proof {
        lemma_pow10_monotone(e as nat, 19);
        lemma_pow10_max();
        assert(v * t <= 0xffff_ffff_ffff_ffffint * 10_000_000_000_000_000_000int) by (nonlinear_arith)
            requires
                0 <= v <= 0xffff_ffff_ffff_ffffint,
                0 <= t <= 10_000_000_000_000_000_000int,
        ;
    }
    (v as u128) * t
}

/// An amount brought back from the common precision, rounding half up.
pub fn from_equalized(v: u128, e: u8) -> (r: Result<u64, PoolError>)
    requires
        e <= 19,
    ensures
        match r {
            Ok(x) => x == from_eq(v as int, e as nat),
            Err(err) => err == PoolError::NumericOverflow,
        },
        r is Ok <==> from_eq_ok(v as int, e as nat),
{
    if e == 0 {
        if v > u64::MAX as u128 {
            return Err(PoolError::NumericOverflow);
        }
        return Ok(v as u64);
    }
    proof {
        lemma_pow10_positive(e as nat);
        lemma_pow10_monotone((e - 1) as nat, 19);
        lemma_pow10_max();
    }
    let half = 5 * ten_to_the(e - 1);
    let t = ten_to_the(e);
    match v.checked_add(half) {
        None => Err(PoolError::NumericOverflow),
        Some(s) => {
            let q = s / t;
            if q > u64::MAX as u128 {
                Err(PoolError::NumericOverflow)
            } else {
                Ok(q as u64)
            }
        },
    }
}

/// Every amount of `x` rescaled by its equalizer.
pub fn equalize(x: &Vec<u64>, e: &Vec<u8>) -> (r: Vec<u128>)
    requires
        x.len() == e.len(),
        forall|i: int| 0 <= i < e.len() ==> e@[i] <= 19,
    ensures
        r@ == equalized(x@, e@),
{
    let mut r: Vec<u128> = Vec::new();
    let mut i: usize = 0;
    while i < x.len()
        invariant
            i <= x.len() == e.len(),
            forall|j: int| 0 <= j < e.len() ==> e@[j] <= 19,
            r@.len() == i,
            forall|j: int| 0 <= j < i ==> r@[j] == equalized(x@, e@)[j],
        decreases x.len() - i,
    {
        r.push(to_equalized(x[i], e[i]));
        i = i + 1;
    }
    assert(r@ =~= equalized(x@, e@));
    r
}

} // verus!
