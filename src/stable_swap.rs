use vstd::prelude::*;
use crate::amp_factor::in_amp_range;
use crate::decimal::{DecimalU64, max_nat, pow10, ten_to_the};
use crate::error::PoolError;

verus! {

/// How many Newton steps a solver takes before it gives up.
pub const MAX_ITERATIONS: u32 = 32;

/// Whether an error is one that the numeric kernel raises.
pub open spec fn is_numeric_error(e: PoolError) -> bool {
    e == PoolError::NumericOverflow || e == PoolError::DivByZero || e == PoolError::DidNotConverge
}

/// Whether an error is one that plain checked arithmetic raises.
pub open spec fn is_arith_error(e: PoolError) -> bool {
    e == PoolError::NumericOverflow || e == PoolError::DivByZero
}

/// `b^e`.
pub open spec fn npow(b: int, e: nat) -> int
    decreases e,
{
    if e == 0 {
        1
    } else {
        b * npow(b, (e - 1) as nat)
    }
}

/// The sum of `b[0..k]`, leaving out index `skip`.
pub open spec fn partial_sum(b: Seq<u128>, skip: int, k: nat) -> int
    decreases k,
{
    if k == 0 {
        0
    } else {
        partial_sum(b, skip, (k - 1) as nat) + if k - 1 == skip {
            0
        } else {
            b[k - 1] as int
        }
    }
}

/// `d^(m+1) / (n^m * prod b[i])` over the `m` indices below `k` other than `skip`,
/// rounded down after each factor.
pub open spec fn partial_product(b: Seq<u128>, skip: int, d: int, n: int, k: nat) -> int
    decreases k,
{
    if k == 0 {
        d
    } else {
        let p = partial_product(b, skip, d, n, (k - 1) as nat);
        if k - 1 == skip {
            p
        } else {
            p * d / (n * b[k - 1])
        }
    }
}

/// The amplification `an / ad` times `n^n`, numerator part.
pub open spec fn amp_num(amp: DecimalU64) -> int {
    amp.value as int
}

pub open spec fn amp_den(amp: DecimalU64) -> int {
    pow10(amp.decimals as nat) as int
}

/// One Newton step towards the depth `D` of balances `b`:
/// `((A n^n S + n Dp) D) / ((A n^n - 1) D + (n + 1) Dp)` with `Dp = D^(n+1) / (n^n prod b)`.
pub open spec fn depth_step(b: Seq<u128>, amp: DecimalU64, d: int) -> int {
    let n = b.len() as int;
    let nn = npow(n, n as nat);
    let an = amp_num(amp);
    let ad = amp_den(amp);
    let dp = partial_product(b, n, d, n, n as nat);
    ((an * nn * partial_sum(b, n, n as nat) + ad * n * dp) * d) / ((an * nn - ad) * d + ad * (n + 1) * dp)
}

/// One Newton step towards the balance `y` at index `k` that gives depth `d`
/// with the other balances of `b`: `(y^2 + c) / (2y + b' - d)`.
pub open spec fn balance_step(b: Seq<u128>, k: int, amp: DecimalU64, d: int, y: int) -> int {
    let n = b.len() as int;
    let nn = npow(n, n as nat);
    let an = amp_num(amp);
    let ad = amp_den(amp);
    let c = partial_product(b, k, d, n, n as nat) * d * ad / (n * an * nn);
    let bb = partial_sum(b, k, n as nat) + d * ad / (an * nn);
    (y * y + c) / (2 * y + bb - d)
}

/// A machine result read as an integer.
pub open spec fn lift(r: Result<u128, PoolError>) -> Result<int, PoolError> {
    match r {
        Ok(v) => Ok(v as int),
        Err(e) => Err(e),
    }
}

/// Checked `a * b` in 128 bits; the first error met, left to right, carries through.
pub open spec fn c_mul(a: Result<int, PoolError>, b: Result<int, PoolError>) -> Result<int, PoolError> {
    match a {
        Err(e) => Err(e),
        Ok(x) => match b {
            Err(e) => Err(e),
            Ok(y) => if x * y > u128::MAX {
                Err(PoolError::NumericOverflow)
            } else {
                Ok(x * y)
            },
        },
    }
}

/// Checked `a + b` in 128 bits.
pub open spec fn c_add(a: Result<int, PoolError>, b: Result<int, PoolError>) -> Result<int, PoolError> {
    match a {
        Err(e) => Err(e),
        Ok(x) => match b {
            Err(e) => Err(e),
            Ok(y) => if x + y > u128::MAX {
                Err(PoolError::NumericOverflow)
            } else {
                Ok(x + y)
            },
        },
    }
}

/// Checked `a - b`, refused below zero.
pub open spec fn c_sub(a: Result<int, PoolError>, b: Result<int, PoolError>) -> Result<int, PoolError> {
    match a {
        Err(e) => Err(e),
        Ok(x) => match b {
            Err(e) => Err(e),
            Ok(y) => if x < y {
                Err(PoolError::NumericOverflow)
            } else {
                Ok(x - y)
            },
        },
    }
}

/// Checked `a / b`, rounded down.
pub open spec fn c_div(a: Result<int, PoolError>, b: Result<int, PoolError>) -> Result<int, PoolError> {
    match a {
        Err(e) => Err(e),
        Ok(x) => match b {
            Err(e) => Err(e),
            Ok(y) => if y == 0 {
                Err(PoolError::DivByZero)
            } else {
                Ok(x / y)
            },
        },
    }
}

/// `npow(n, i)` in checked arithmetic.
pub open spec fn npow_c(n: int, i: nat) -> Result<int, PoolError>
    decreases i,
{
    if i == 0 {
        Ok(1)
    } else {
        c_mul(Ok(n), npow_c(n, (i - 1) as nat))
    }
}

/// `partial_sum` in checked arithmetic.
pub open spec fn sum_c(b: Seq<u128>, skip: int, k: nat) -> Result<int, PoolError>
    decreases k,
{
    if k == 0 {
        Ok(0)
    } else {
        let prev = sum_c(b, skip, (k - 1) as nat);
        if k - 1 == skip {
            prev
        } else {
            c_add(prev, Ok(b[k - 1] as int))
        }
    }
}

/// `partial_product` in checked arithmetic.
pub open spec fn product_c(b: Seq<u128>, skip: int, d: int, n: int, k: nat) -> Result<int, PoolError>
    decreases k,
{
    if k == 0 {
        Ok(d)
    } else {
        let prev = product_c(b, skip, d, n, (k - 1) as nat);
        if k - 1 == skip {
            prev
        } else {
            match prev {
                Err(e) => Err(e),
                Ok(p) => c_div(c_mul(Ok(p), Ok(d)), c_mul(Ok(n), Ok(b[k - 1] as int))),
            }
        }
    }
}

/// `depth_step` in checked arithmetic, evaluated in the solver's order.
pub open spec fn depth_step_c(b: Seq<u128>, amp: DecimalU64, d: int) -> Result<int, PoolError> {
    let n = b.len() as int;
    let an = amp_num(amp);
    let ad = amp_den(amp);
    match npow_c(n, n as nat) {
        Err(e) => Err(e),
        Ok(nn) => match sum_c(b, n, n as nat) {
            Err(e) => Err(e),
            Ok(s) => match product_c(b, n, d, n, n as nat) {
                Err(e) => Err(e),
                Ok(dp) => match c_mul(Ok(an), Ok(nn)) {
                    Err(e) => Err(e),
                    Ok(ann) => c_div(
                        c_mul(c_add(c_mul(Ok(ann), Ok(s)), c_mul(c_mul(Ok(ad), Ok(n)), Ok(dp))), Ok(d)),
                        c_add(c_mul(c_sub(Ok(ann), Ok(ad)), Ok(d)), c_mul(c_mul(Ok(ad), c_add(Ok(n), Ok(1))), Ok(dp))),
                    ),
                },
            },
        },
    }
}

/// `balance_step` in checked arithmetic, evaluated in the solver's order.
pub open spec fn balance_step_c(b: Seq<u128>, k: int, amp: DecimalU64, d: int, y: int) -> Result<int, PoolError> {
    let n = b.len() as int;
    let an = amp_num(amp);
    let ad = amp_den(amp);
    match npow_c(n, n as nat) {
        Err(e) => Err(e),
        Ok(nn) => match c_mul(Ok(an), Ok(nn)) {
            Err(e) => Err(e),
            Ok(ann) => match product_c(b, k, d, n, n as nat) {
                Err(e) => Err(e),
                Ok(pp) => match c_div(c_mul(c_mul(Ok(pp), Ok(d)), Ok(ad)), c_mul(c_mul(Ok(n), Ok(an)), Ok(nn))) {
                    Err(e) => Err(e),
                    Ok(c) => match sum_c(b, k, n as nat) {
                        Err(e) => Err(e),
                        Ok(s) => match c_add(Ok(s), c_div(c_mul(Ok(d), Ok(ad)), Ok(ann))) {
                            Err(e) => Err(e),
                            Ok(bb) => c_div(
                                c_add(c_mul(Ok(y), Ok(y)), Ok(c)),
                                c_sub(c_add(c_mul(Ok(2), Ok(y)), Ok(bb)), Ok(d)),
                            ),
                        },
                    },
                },
            },
        },
    }
}

/// The depth reached from `d` within `fuel` Newton steps: the first iterate whose
/// successor lies within one of it, or the larger of the two; `DidNotConverge`
/// if the steps run out first, or the error of a step that overflows.
pub open spec fn depth_iter(b: Seq<u128>, amp: DecimalU64, d: int, fuel: nat) -> Result<int, PoolError>
    decreases fuel,
{
    if fuel == 0 {
        Err(PoolError::DidNotConverge)
    } else {
        match depth_step_c(b, amp, d) {
            Err(e) => Err(e),
            Ok(next) => if -1 <= next - d <= 1 {
                Ok(if next > d { next } else { d })
            } else {
                depth_iter(b, amp, next, (fuel - 1) as nat)
            },
        }
    }
}

/// The depth of balances `b`: zero for an empty pool, else the Newton
/// iteration started at the sum of the balances.
pub open spec fn spec_depth(b: Seq<u128>, amp: DecimalU64) -> Result<int, PoolError> {
    match sum_c(b, b.len() as int, b.len()) {
        Err(e) => Err(e),
        Ok(s) => if s == 0 {
            Ok(0)
        } else {
            depth_iter(b, amp, s, MAX_ITERATIONS as nat)
        },
    }
}

/// The balance at `k` reached from `y` within `fuel` Newton steps.
pub open spec fn balance_iter(b: Seq<u128>, k: int, amp: DecimalU64, d: int, y: int, fuel: nat) -> Result<
    int,
    PoolError,
>
    decreases fuel,
{
    if fuel == 0 {
        Err(PoolError::DidNotConverge)
    } else {
        match balance_step_c(b, k, amp, d, y) {
            Err(e) => Err(e),
            Ok(next) => if -1 <= next - y <= 1 {
                Ok(if next > y { next } else { y })
            } else {
                balance_iter(b, k, amp, d, next, (fuel - 1) as nat)
            },
        }
    }
}

/// The balance at `k` that gives depth `d` with the other balances of `b`:
/// the Newton iteration started at `d`.
pub open spec fn spec_balance(b: Seq<u128>, k: int, amp: DecimalU64, d: int) -> Result<int, PoolError> {
    balance_iter(b, k, amp, d, d, MAX_ITERATIONS as nat)
}

proof fn lemma_npow_c(n: int, i: nat)
    requires
        n >= 0,
    ensures
        npow_c(n, i) is Ok ==> npow_c(n, i)->Ok_0 == npow(n, i),
    decreases i,
{
    if i > 0 {
        lemma_npow_c(n, (i - 1) as nat);
    }
}

proof fn lemma_sum_c(b: Seq<u128>, skip: int, k: nat)
    ensures
        sum_c(b, skip, k) is Ok ==> sum_c(b, skip, k)->Ok_0 == partial_sum(b, skip, k),
    decreases k,
{
    if k > 0 {
        lemma_sum_c(b, skip, (k - 1) as nat);
    }
}

proof fn lemma_product_c(b: Seq<u128>, skip: int, d: int, n: int, k: nat)
    ensures
        product_c(b, skip, d, n, k) is Ok ==> product_c(b, skip, d, n, k)->Ok_0 == partial_product(b, skip, d, n, k),
    decreases k,
{
    if k > 0 {
        lemma_product_c(b, skip, d, n, (k - 1) as nat);
    }
}

/// A step that does not overflow computes the Newton formula for the depth.
pub proof fn lemma_depth_step_c(b: Seq<u128>, amp: DecimalU64, d: int)
    ensures
        depth_step_c(b, amp, d) is Ok ==> depth_step_c(b, amp, d)->Ok_0 == depth_step(b, amp, d),
{
    let n = b.len() as int;
    lemma_npow_c(n, n as nat);
    lemma_sum_c(b, n, n as nat);
    lemma_product_c(b, n, d, n, n as nat);
}

/// A step that does not overflow computes the Newton formula for a balance.
pub proof fn lemma_balance_step_c(b: Seq<u128>, k: int, amp: DecimalU64, d: int, y: int)
    ensures
        balance_step_c(b, k, amp, d, y) is Ok ==> balance_step_c(b, k, amp, d, y)->Ok_0 == balance_step(
            b,
            k,
            amp,
            d,
            y,
        ),
{
    let n = b.len() as int;
    lemma_npow_c(n, n as nat);
    lemma_sum_c(b, k, n as nat);
    lemma_product_c(b, k, d, n, n as nat);
}

/// `r` closes an iteration: an iterate `p` and its successor `next` differ by at
/// most one, and `r` is the larger of the two.
pub open spec fn closes(p: int, next: int, r: int) -> bool {
    -1 <= next - p <= 1 && r == if next > p {
        next
    } else {
        p
    }
}

/// A depth reached by the iteration closes it: it is the larger of some iterate
/// and its successor, which lie within one of each other.
pub proof fn lemma_depth_closes(b: Seq<u128>, amp: DecimalU64, d: int, fuel: nat)
    requires
        depth_iter(b, amp, d, fuel) is Ok,
    ensures
        exists|p: int| closes(p, #[trigger] depth_step(b, amp, p), depth_iter(b, amp, d, fuel)->Ok_0),
    decreases fuel,
{
    lemma_depth_step_c(b, amp, d);
    let next = depth_step_c(b, amp, d)->Ok_0;
    if -1 <= next - d <= 1 {
        assert(closes(d, depth_step(b, amp, d), depth_iter(b, amp, d, fuel)->Ok_0));
    } else {
        lemma_depth_closes(b, amp, next, (fuel - 1) as nat);
    }
}

/// A balance reached by the iteration closes it in the same way.
pub proof fn lemma_balance_closes(b: Seq<u128>, k: int, amp: DecimalU64, d: int, y: int, fuel: nat)
    requires
        balance_iter(b, k, amp, d, y, fuel) is Ok,
    ensures
        exists|p: int| closes(p, #[trigger] balance_step(b, k, amp, d, p), balance_iter(b, k, amp, d, y, fuel)->Ok_0),
    decreases fuel,
{
    lemma_balance_step_c(b, k, amp, d, y);
    let next = balance_step_c(b, k, amp, d, y)->Ok_0;
    if -1 <= next - y <= 1 {
        assert(closes(y, balance_step(b, k, amp, d, y), balance_iter(b, k, amp, d, y, fuel)->Ok_0));
    } else {
        lemma_balance_closes(b, k, amp, d, next, (fuel - 1) as nat);
    }
}

/// Every depth the solver returns for balances with a positive sum closes a Newton iteration.
pub proof fn lemma_spec_depth_is_depth(b: Seq<u128>, amp: DecimalU64)
    requires
        spec_depth(b, amp) is Ok,
    ensures
        is_depth(b, amp, spec_depth(b, amp)->Ok_0),
{
    lemma_sum_c(b, b.len() as int, b.len());
    let s = sum_c(b, b.len() as int, b.len())->Ok_0;
    if s != 0 {
        lemma_depth_closes(b, amp, s, MAX_ITERATIONS as nat);
    }
}

/// Every balance the solver returns closes a Newton iteration.
pub proof fn lemma_spec_balance_is_balance(b: Seq<u128>, k: int, amp: DecimalU64, d: int)
    requires
        spec_balance(b, k, amp, d) is Ok,
    ensures
        is_balance(b, k, amp, d, spec_balance(b, k, amp, d)->Ok_0),
{
    lemma_balance_closes(b, k, amp, d, d, MAX_ITERATIONS as nat);
}

/// The imbalance of the depth equation `A n^n S + D = A n^n D + Dp` at `p`,
/// multiplied by the amplification's denominator, where `Dp` is the rounded
/// product term `p^(n+1) / (n^n prod b)`.
pub open spec fn depth_residual(b: Seq<u128>, amp: DecimalU64, p: int) -> int {
    let n = b.len() as int;
    let nn = npow(n, n as nat);
    let dp = partial_product(b, n, p, n, n as nat);
    amp_num(amp) * nn * partial_sum(b, n, n as nat) + amp_den(amp) * p - amp_num(amp) * nn * p - amp_den(amp) * dp
}

/// The denominator of the Newton step for the depth at `p`.
pub open spec fn depth_step_den(b: Seq<u128>, amp: DecimalU64, p: int) -> int {
    let n = b.len() as int;
    let nn = npow(n, n as nat);
    let dp = partial_product(b, n, p, n, n as nat);
    (amp_num(amp) * nn - amp_den(amp)) * p + amp_den(amp) * (n + 1) * dp
}

/// `p` nearly solves the depth equation: `p` times the imbalance lies within
/// `[-den, 2 den)` for the step's positive denominator `den`.
pub open spec fn near_root(b: Seq<u128>, amp: DecimalU64, p: int) -> bool {
    let den = depth_step_den(b, amp, p);
    den > 0 && -den <= p * depth_residual(b, amp, p) < 2 * den
}

proof fn lemma_npow_nonneg(n: int, i: nat)
    requires
        n >= 0,
    ensures
        npow(n, i) >= 0,
    decreases i,
{
    if i > 0 {
        lemma_npow_nonneg(n, (i - 1) as nat);
        assert(n * npow(n, (i - 1) as nat) >= 0) by (nonlinear_arith)
            requires
                n >= 0,
                npow(n, (i - 1) as nat) >= 0,
        ;
    }
}

proof fn lemma_product_c_nonneg(b: Seq<u128>, skip: int, d: int, n: int, k: nat)
    requires
        d >= 0,
        n >= 0,
        k <= b.len(),
    ensures
        product_c(b, skip, d, n, k) is Ok ==> product_c(b, skip, d, n, k)->Ok_0 >= 0,
    decreases k,
{
    if k > 0 {
        lemma_product_c_nonneg(b, skip, d, n, (k - 1) as nat);
        let prev = product_c(b, skip, d, n, (k - 1) as nat);
        if k - 1 != skip && prev is Ok {
            let p = prev->Ok_0;
            let x = b[k - 1] as int;
            assert(p * d >= 0) by (nonlinear_arith)
                requires
                    p >= 0,
                    d >= 0,
            ;
            assert(n * x >= 0) by (nonlinear_arith)
                requires
                    n >= 0,
                    x >= 0,
            ;
            if n * x > 0 {
                vstd::arithmetic::div_mod::lemma_div_pos_is_pos(p * d, n * x);
            }
        }
    }
}

/// A checked depth step from a non-negative iterate has a positive
/// denominator and a non-negative result, the floor of the step's fraction.
proof fn lemma_depth_step_den(b: Seq<u128>, amp: DecimalU64, d: int)
    requires
        d >= 0,
        depth_step_c(b, amp, d) is Ok,
    ensures
        depth_step_den(b, amp, d) > 0,
        depth_step_c(b, amp, d)->Ok_0 >= 0,
        depth_step_c(b, amp, d)->Ok_0 * depth_step_den(b, amp, d) <= d * depth_step_den(b, amp, d) + d
            * depth_residual(b, amp, d),
        d * depth_step_den(b, amp, d) + d * depth_residual(b, amp, d) < (depth_step_c(b, amp, d)->Ok_0 + 1)
            * depth_step_den(b, amp, d),
{
    let n = b.len() as int;
    lemma_npow_c(n, n as nat);
    lemma_sum_c(b, n, n as nat);
    lemma_product_c(b, n, d, n, n as nat);
    lemma_product_c_nonneg(b, n, d, n, n as nat);
    lemma_npow_nonneg(n, n as nat);
    let nn = npow(n, n as nat);
    let s = partial_sum(b, n, n as nat);
    let dp = partial_product(b, n, d, n, n as nat);
    let an = amp_num(amp);
    let ad = amp_den(amp);
    let ann = an * nn;
    assert(npow_c(n, n as nat) == Ok::<int, PoolError>(nn));
    assert(sum_c(b, n, n as nat) == Ok::<int, PoolError>(s));
    assert(product_c(b, n, d, n, n as nat) == Ok::<int, PoolError>(dp));
    let num = (ann * s + ad * n * dp) * d;
    let den = (ann - ad) * d + ad * (n + 1) * dp;
    assert(ann >= ad);
    assert(den == depth_step_den(b, amp, d));
    assert(depth_step_c(b, amp, d) == c_div(
        c_mul(c_add(c_mul(Ok(ann), Ok(s)), c_mul(c_mul(Ok(ad), Ok(n)), Ok(dp))), Ok(d)),
        c_add(c_mul(c_sub(Ok(ann), Ok(ad)), Ok(d)), c_mul(c_mul(Ok(ad), c_add(Ok(n), Ok(1))), Ok(dp))),
    ));
    assert(den != 0);
    assert(s >= 0) by {
        lemma_sum_nonneg(b, n, n as nat);
    }
    assert(an >= 0 && ad >= 1) by {
        crate::decimal::lemma_pow10_positive(amp.decimals as nat);
    }
    assert(den >= 0 && num >= 0) by (nonlinear_arith)
        requires
            ann >= ad,
            ad >= 1,
            d >= 0,
            dp >= 0,
            n >= 0,
            s >= 0,
            an >= 0,
            nn >= 0,
            ann == an * nn,
            den == (ann - ad) * d + ad * (n + 1) * dp,
            num == (ann * s + ad * n * dp) * d,
    ;
    let q = num / den;
    assert(depth_step_c(b, amp, d)->Ok_0 == q);
    vstd::arithmetic::div_mod::lemma_fundamental_div_mod(num, den);
    vstd::arithmetic::div_mod::lemma_div_pos_is_pos(num, den);
    let m = num % den;
    assert(num == d * den + d * depth_residual(b, amp, d)) by (nonlinear_arith)
        requires
            num == (ann * s + ad * n * dp) * d,
            den == (ann - ad) * d + ad * (n + 1) * dp,
            depth_residual(b, amp, d) == ann * s + ad * d - ann * d - ad * dp,
    ;
    assert(q * den <= num < (q + 1) * den) by (nonlinear_arith)
        requires
            num == den * q + m,
            0 <= m < den,
    ;
}

proof fn lemma_sum_nonneg(b: Seq<u128>, skip: int, k: nat)
    ensures
        partial_sum(b, skip, k) >= 0,
    decreases k,
{
    if k > 0 {
        lemma_sum_nonneg(b, skip, (k - 1) as nat);
    }
}

proof fn lemma_depth_iter_near_root(b: Seq<u128>, amp: DecimalU64, d: int, fuel: nat)
    requires
        d >= 0,
        depth_iter(b, amp, d, fuel) is Ok,
    ensures
        exists|p: int|
            -1 <= depth_iter(b, amp, d, fuel)->Ok_0 - p <= 1 && #[trigger] near_root(b, amp, p),
    decreases fuel,
{
    lemma_depth_step_den(b, amp, d);
    let den = depth_step_den(b, amp, d);
    let next = depth_step_c(b, amp, d)->Ok_0;
    let x = d * depth_residual(b, amp, d);
    if -1 <= next - d <= 1 {
        assert(-den <= x < 2 * den) by (nonlinear_arith)
            requires
                den > 0,
                next * den <= d * den + x,
                d * den + x < (next + 1) * den,
                -1 <= next - d <= 1,
        ;
        assert(near_root(b, amp, d));
    } else {
        lemma_depth_iter_near_root(b, amp, next, (fuel - 1) as nat);
    }
}

/// The depth the solver returns for balances with a positive sum lies within
/// one of a value that nearly solves the depth equation (see `near_root`).
pub proof fn lemma_spec_depth_near_root(b: Seq<u128>, amp: DecimalU64)
    requires
        spec_depth(b, amp) is Ok,
        spec_depth(b, amp)->Ok_0 != 0,
    ensures
        exists|p: int| -1 <= spec_depth(b, amp)->Ok_0 - p <= 1 && #[trigger] near_root(b, amp, p),
{
    let n = b.len() as int;
    lemma_sum_c(b, n, n as nat);
    lemma_sum_nonneg(b, n, n as nat);
    let s = sum_c(b, n, n as nat)->Ok_0;
    lemma_depth_iter_near_root(b, amp, s, MAX_ITERATIONS as nat);
}

/// `r` is a depth the solver may return for balances `b`.
pub open spec fn is_depth(b: Seq<u128>, amp: DecimalU64, r: int) -> bool {
    (partial_sum(b, b.len() as int, b.len()) == 0 && r == 0) || exists|p: int|
        closes(p, #[trigger] depth_step(b, amp, p), r)
}

/// `r` is a balance the solver may return at index `k`, for depth `d`.
pub open spec fn is_balance(b: Seq<u128>, k: int, amp: DecimalU64, d: int, r: int) -> bool {
    exists|p: int| closes(p, #[trigger] balance_step(b, k, amp, d, p), r)
}

/// The governance share of the depth gained beyond what the LP supply change accounts for:
/// `(supply * d_new - supply_new * d0) / d0 * g / (l + g)`, rounded down, or zero.
pub open spec fn governance_mint(supply: int, supply_new: int, d0: int, d_new: int, l: int, g: int) -> int {
    if g == 0 || supply * d_new <= supply_new * d0 {
        0
    } else {
        ((supply * d_new - supply_new * d0) * g) / (d0 * (l + g))
    }
}

/// `ceil(a / b)`.
pub open spec fn ceil_div(a: int, b: int) -> int {
    (a + b - 1) / b
}

/// The fee taken from an amount owed to the user: `ceil(x * t / den)`.
pub open spec fn fee_on(x: int, t: int, den: int) -> int {
    ceil_div(x * t, den)
}

/// The gross amount that leaves `x` once the fee is taken: `ceil(x * den / (den - t))`.
pub open spec fn gross_up(x: int, t: int, den: int) -> int {
    ceil_div(x * den, den - t)
}

/// The two fee rates written over a common denominator: `(lp, gov, den)`.
pub open spec fn fee_lp(lp: DecimalU64, gov: DecimalU64) -> int {
    lp.at(max_nat(lp.decimals as nat, gov.decimals as nat))
}

pub open spec fn fee_gov(lp: DecimalU64, gov: DecimalU64) -> int {
    gov.at(max_nat(lp.decimals as nat, gov.decimals as nat))
}

pub open spec fn fee_den(lp: DecimalU64, gov: DecimalU64) -> int {
    pow10(max_nat(lp.decimals as nat, gov.decimals as nat)) as int
}

/// What every solver entry point asks of its parameters.
pub open spec fn solver_params(amp: DecimalU64, lp: DecimalU64, gov: DecimalU64) -> bool {
    &&& in_amp_range(amp)
    &&& lp.wf()
    &&& gov.wf()
    &&& crate::pool_fee::fees_below_one(lp, gov)
}

/// The depth an operation starts from: the recorded one, or the one of the balances.
pub open spec fn start_depth_of(b: Seq<u128>, amp: DecimalU64, previous_depth: int) -> int {
    if previous_depth > 0 {
        previous_depth
    } else {
        spec_depth(b, amp)->Ok_0
    }
}

fn times(a: u128, b: u128) -> (r: Result<u128, PoolError>)
    ensures
        lift(r) == c_mul(Ok(a as int), Ok(b as int)),
        match r {
            Ok(v) => v == a * b,
            Err(e) => e == PoolError::NumericOverflow,
        },
{
    match a.checked_mul(b) {
        Some(v) => Ok(v),
        None => Err(PoolError::NumericOverflow),
    }
}

fn plus(a: u128, b: u128) -> (r: Result<u128, PoolError>)
    ensures
        lift(r) == c_add(Ok(a as int), Ok(b as int)),
        match r {
            Ok(v) => v == a + b,
            Err(e) => e == PoolError::NumericOverflow,
        },
{
    match a.checked_add(b) {
        Some(v) => Ok(v),
        None => Err(PoolError::NumericOverflow),
    }
}

fn minus(a: u128, b: u128) -> (r: Result<u128, PoolError>)
    ensures
        lift(r) == c_sub(Ok(a as int), Ok(b as int)),
        match r {
            Ok(v) => v == a - b,
            Err(e) => e == PoolError::NumericOverflow,
        },
{
    if a < b {
        Err(PoolError::NumericOverflow)
    } else {
        Ok(a - b)
    }
}

fn div(a: u128, b: u128) -> (r: Result<u128, PoolError>)
    ensures
        lift(r) == c_div(Ok(a as int), Ok(b as int)),
        match r {
            Ok(v) => b > 0 && v == a / b,
            Err(e) => e == PoolError::DivByZero,
        },
{
    if b == 0 {
        Err(PoolError::DivByZero)
    } else {
        Ok(a / b)
    }
}

fn div_up(a: u128, b: u128) -> (r: Result<u128, PoolError>)
    ensures
        b == 0 ==> r == Err::<u128, PoolError>(PoolError::DivByZero),
        b > 0 ==> lift(r) == c_div(c_add(Ok(a as int), Ok(b - 1)), Ok(b as int)),
        match r {
            Ok(v) => b > 0 && v == ceil_div(a as int, b as int),
            Err(e) => is_arith_error(e),
        },
{
    if b == 0 {
        return Err(PoolError::DivByZero);
    }
    let s = plus(a, b - 1)?;
    Ok(s / b)
}

/// `a * b / c`, rounded down.
fn mul_div(a: u128, b: u128, c: u128) -> (r: Result<u128, PoolError>)
    ensures
        lift(r) == mul_div_c(a as int, b as int, c as int),
        match r {
            Ok(v) => c > 0 && v == (a * b) / (c as int),
            Err(e) => is_arith_error(e),
        },
{
    let p = times(a, b)?;
    div(p, c)
}

/// `a * b / c`, rounded up.
fn mul_div_up(a: u128, b: u128, c: u128) -> (r: Result<u128, PoolError>)
    ensures
        lift(r) == mul_div_up_c(a as int, b as int, c as int),
        match r {
            Ok(v) => c > 0 && v == ceil_div(a * b, c as int),
            Err(e) => is_arith_error(e),
        },
{
    let p = times(a, b)?;
    div_up(p, c)
}

proof fn lemma_npow_c_err(n: int, i: nat, j: nat)
    requires
        i <= j,
        npow_c(n, i) is Err,
    ensures
        npow_c(n, j) == npow_c(n, i),
    decreases j,
{
    if j > i {
        lemma_npow_c_err(n, i, (j - 1) as nat);
    }
}

proof fn lemma_sum_c_err(b: Seq<u128>, skip: int, i: nat, j: nat)
    requires
        i <= j,
        sum_c(b, skip, i) is Err,
    ensures
        sum_c(b, skip, j) == sum_c(b, skip, i),
    decreases j,
{
    if j > i {
        lemma_sum_c_err(b, skip, i, (j - 1) as nat);
    }
}

proof fn lemma_product_c_err(b: Seq<u128>, skip: int, d: int, n: int, i: nat, j: nat)
    requires
        i <= j,
        product_c(b, skip, d, n, i) is Err,
    ensures
        product_c(b, skip, d, n, j) == product_c(b, skip, d, n, i),
    decreases j,
{
    if j > i {
        lemma_product_c_err(b, skip, d, n, i, (j - 1) as nat);
    }
}

/// `n^n`.
fn self_power(n: u128) -> (r: Result<u128, PoolError>)
    ensures
        lift(r) == npow_c(n as int, n as nat),
        r is Err ==> is_arith_error(r->Err_0),
{
    let mut p: u128 = 1;
    let mut i: u128 = 0;
    while i < n
        invariant
            i <= n,
            npow_c(n as int, i as nat) == Ok::<int, PoolError>(p as int),
        decreases n - i,
    {
        match times(n, p) {
            Ok(v) => {
                p = v;
            },
            Err(e) => {
                proof {
                    lemma_npow_c_err(n as int, (i + 1) as nat, n as nat);
                }
                return Err(e);
            },
        }
        i = i + 1;
    }
    Ok(p)
}

/// The sum of the balances other than the one at `skip`.
fn sum_except(b: &Vec<u128>, skip: usize) -> (r: Result<u128, PoolError>)
    ensures
        lift(r) == sum_c(b@, skip as int, b.len() as nat),
        match r {
            Ok(v) => v == partial_sum(b@, skip as int, b.len() as nat),
            Err(e) => e == PoolError::NumericOverflow,
        },
{
    let mut s: u128 = 0;
    let mut i: usize = 0;
    while i < b.len()
        invariant
            i <= b.len(),
            sum_c(b@, skip as int, i as nat) == Ok::<int, PoolError>(s as int),
            s == partial_sum(b@, skip as int, i as nat),
        decreases b.len() - i,
    {
        if i != skip {
            match plus(s, b[i]) {
                Ok(v) => {
                    s = v;
                },
                Err(e) => {
                    proof {
                        lemma_sum_c_err(b@, skip as int, (i + 1) as nat, b.len() as nat);
                    }
                    return Err(e);
                },
            }
        }
        i = i + 1;
    }
    Ok(s)
}

/// `partial_product` over the whole of `b`.
fn product_except(b: &Vec<u128>, skip: usize, d: u128, n: u128) -> (r: Result<u128, PoolError>)
    ensures
        lift(r) == product_c(b@, skip as int, d as int, n as int, b.len() as nat),
        r is Err ==> is_arith_error(r->Err_0),
{
    let mut p: u128 = d;
    let mut i: usize = 0;
    while i < b.len()
        invariant
            i <= b.len(),
            product_c(b@, skip as int, d as int, n as int, i as nat) == Ok::<int, PoolError>(p as int),
        decreases b.len() - i,
    {
        if i != skip {
            let step = match times(p, d) {
                Ok(num) => match times(n, b[i]) {
                    Ok(den) => div(num, den),
                    Err(e) => Err(e),
                },
                Err(e) => Err(e),
            };
            match step {
                Ok(v) => {
                    p = v;
                },
                Err(e) => {
                    proof {
                        lemma_product_c_err(b@, skip as int, d as int, n as int, (i + 1) as nat, b.len() as nat);
                    }
                    return Err(e);
                },
            }
        }
        i = i + 1;
    }
    Ok(p)
}

fn amp_parts(amp: &DecimalU64) -> (r: (u128, u128))
    requires
        in_amp_range(*amp),
    ensures
        r.0 == amp_num(*amp),
        r.1 == amp_den(*amp),
{
    (amp.value as u128, ten_to_the(amp.decimals))
}

fn depth_step_exec(b: &Vec<u128>, amp: &DecimalU64, d: u128) -> (r: Result<u128, PoolError>)
    requires
        in_amp_range(*amp),
    ensures
        lift(r) == depth_step_c(b@, *amp, d as int),
        r is Err ==> is_arith_error(r->Err_0),
{
    let (an, ad) = amp_parts(amp);
    let n = b.len() as u128;
    let nn = self_power(n)?;
    let s = sum_except(b, b.len())?;
    let dp = product_except(b, b.len(), d, n)?;
    let ann = times(an, nn)?;
    let num = times(plus(times(ann, s)?, times(times(ad, n)?, dp)?)?, d)?;
    let den = plus(times(minus(ann, ad)?, d)?, times(times(ad, plus(n, 1)?)?, dp)?)?;
    div(num, den)
}

fn balance_step_exec(b: &Vec<u128>, k: usize, amp: &DecimalU64, d: u128, y: u128) -> (r: Result<u128, PoolError>)
    requires
        in_amp_range(*amp),
    ensures
        lift(r) == balance_step_c(b@, k as int, *amp, d as int, y as int),
        r is Err ==> is_arith_error(r->Err_0),
{
    let (an, ad) = amp_parts(amp);
    let n = b.len() as u128;
    let nn = self_power(n)?;
    let ann = times(an, nn)?;
    let c = div(times(times(product_except(b, k, d, n)?, d)?, ad)?, times(times(n, an)?, nn)?)?;
    let bb = plus(sum_except(b, k)?, div(times(d, ad)?, ann)?)?;
    let num = plus(times(y, y)?, c)?;
    let den = minus(plus(times(2, y)?, bb)?, d)?;
    div(num, den)
}

/// The depth `D` of balances `b`: zero for an empty pool, else the end of a
/// Newton iteration from `D = sum(b)`.
pub fn compute_depth(b: &Vec<u128>, amp: &DecimalU64) -> (r: Result<u128, PoolError>)
    requires
        in_amp_range(*amp),
    ensures
        lift(r) == spec_depth(b@, *amp),
        r is Err ==> is_numeric_error(r->Err_0),
{
    let s = match sum_except(b, b.len()) {
        Ok(v) => v,
        Err(e) => return Err(e),
    };
    if s == 0 {
        return Ok(0);
    }
    let mut d = s;
    let mut i: u32 = 0;
    while i < MAX_ITERATIONS
        invariant
            in_amp_range(*amp),
            i <= MAX_ITERATIONS,
            s != 0,
            sum_c(b@, b.len() as int, b.len() as nat) == Ok::<int, PoolError>(s as int),
            depth_iter(b@, *amp, d as int, (MAX_ITERATIONS - i) as nat) == spec_depth(b@, *amp),
        decreases MAX_ITERATIONS - i,
    {
        let next = match depth_step_exec(b, amp, d) {
            Ok(v) => v,
            Err(e) => return Err(e),
        };
        let close = if next >= d {
            next - d <= 1
        } else {
            d - next <= 1
        };
        if close {
            let r = if next > d {
                next
            } else {
                d
            };
            return Ok(r);
        }
        d = next;
        i = i + 1;
    }
    Err(PoolError::DidNotConverge)
}

/// The balance at index `k` that, with the other balances of `b`, gives depth `d`:
/// the end of a Newton iteration from `y = d`.
pub fn compute_balance(b: &Vec<u128>, k: usize, amp: &DecimalU64, d: u128) -> (r: Result<u128, PoolError>)
    requires
        in_amp_range(*amp),
    ensures
        lift(r) == spec_balance(b@, k as int, *amp, d as int),
        r is Err ==> is_numeric_error(r->Err_0),
{
    let mut y = d;
    let mut i: u32 = 0;
    while i < MAX_ITERATIONS
        invariant
            in_amp_range(*amp),
            i <= MAX_ITERATIONS,
            balance_iter(b@, k as int, *amp, d as int, y as int, (MAX_ITERATIONS - i) as nat) == spec_balance(
                b@,
                k as int,
                *amp,
                d as int,
            ),
        decreases MAX_ITERATIONS - i,
    {
        let next = match balance_step_exec(b, k, amp, d, y) {
            Ok(v) => v,
            Err(e) => return Err(e),
        };
        let close = if next >= y {
            next - y <= 1
        } else {
            y - next <= 1
        };
        if close {
            let r = if next > y {
                next
            } else {
                y
            };
            return Ok(r);
        }
        y = next;
        i = i + 1;
    }
    Err(PoolError::DidNotConverge)
}

/// `b` with `x` added to (`up`) or taken from each entry, the entry at `skip` left as it is.
pub open spec fn shifted(b: Seq<u128>, x: Seq<u128>, skip: int, up: bool) -> Seq<u128> {
    Seq::new(
        b.len(),
        |i: int|
            if i == skip {
                b[i]
            } else if up {
                (b[i] + x[i]) as u128
            } else {
                (b[i] - x[i]) as u128
            },
    )
}

/// `|a - b|`.
pub open spec fn abs_diff(a: int, b: int) -> int {
    if a >= b {
        a - b
    } else {
        b - a
    }
}

/// The balances of a deposit, each less the fee on its distance from the
/// proportional share `b[i] * d_star / d0`.
pub open spec fn fee_adjusted(b: Seq<u128>, new_b: Seq<u128>, d0: int, d_star: int, t: int, den: int) -> Seq<u128> {
    Seq::new(
        b.len(),
        |i: int| (new_b[i] - fee_on(abs_diff(new_b[i] as int, b[i] * d_star / d0), t, den)) as u128,
    )
}

/// The part of `b_k` that leaves when the balance there is solved to be `y`
/// (never below one unit), before the fee.
pub open spec fn gross_out(bk: int, y: int) -> int {
    let residual = if y == 0 {
        1
    } else {
        y
    };
    if residual < bk {
        bk - residual
    } else {
        0
    }
}

/// `Ok((user_amount, governance_mint_amount, latest_depth))` of the operations.
pub type SolverResult = Result<(u128, u128, u128), PoolError>;

/// What a swap of exact inputs `x` for the token at `k` returns.
pub open spec fn swap_input_outcome(
    b: Seq<u128>,
    x: Seq<u128>,
    k: int,
    amp: DecimalU64,
    lp: DecimalU64,
    gov: DecimalU64,
    supply: int,
    previous_depth: int,
    r: (u128, u128, u128),
) -> bool {
    let t = fee_lp(lp, gov) + fee_gov(lp, gov);
    let d0 = start_depth_of(b, amp, previous_depth);
    let known = shifted(b, x, k, true);
    let gross = gross_out(b[k] as int, spec_balance(known, k, amp, d0)->Ok_0);
    &&& d0 > 0
    &&& r.0 == gross - fee_on(gross, t, fee_den(lp, gov))
    &&& r.0 <= b[k]
    &&& (b[k] > 0 ==> r.0 < b[k])
    &&& spec_depth(known.update(k, (b[k] - r.0) as u128), amp) == Ok::<int, PoolError>(r.2 as int)
    &&& r.1 == governance_mint(supply, supply, d0, r.2 as int, fee_lp(lp, gov), fee_gov(lp, gov))
}

/// What a swap of the token at `k` for exact outputs `x` returns.
pub open spec fn swap_output_outcome(
    b: Seq<u128>,
    x: Seq<u128>,
    k: int,
    amp: DecimalU64,
    lp: DecimalU64,
    gov: DecimalU64,
    supply: int,
    previous_depth: int,
    r: (u128, u128, u128),
) -> bool {
    let t = fee_lp(lp, gov) + fee_gov(lp, gov);
    let d0 = start_depth_of(b, amp, previous_depth);
    let known = shifted(b, x, k, false);
    let y = spec_balance(known, k, amp, d0)->Ok_0;
    let gross = if y > b[k] {
        y - b[k]
    } else {
        0
    };
    &&& r.0 == gross_up(gross, t, fee_den(lp, gov))
    &&& spec_depth(known.update(k, (b[k] + r.0) as u128), amp) == Ok::<int, PoolError>(r.2 as int)
    &&& r.1 == governance_mint(supply, supply, d0, r.2 as int, fee_lp(lp, gov), fee_gov(lp, gov))
}

/// What burning exactly `burn` LP units for the token at `k` returns.
pub open spec fn remove_burn_outcome(
    b: Seq<u128>,
    burn: int,
    k: int,
    amp: DecimalU64,
    lp: DecimalU64,
    gov: DecimalU64,
    supply: int,
    previous_depth: int,
    r: (u128, u128, u128),
) -> bool {
    let t = fee_lp(lp, gov) + fee_gov(lp, gov);
    let d0 = start_depth_of(b, amp, previous_depth);
    let target = ceil_div(d0 * (supply - burn), supply);
    let gross = gross_out(b[k] as int, spec_balance(b, k, amp, target)->Ok_0);
    &&& r.0 == gross - fee_on(gross, t, fee_den(lp, gov))
    &&& r.0 <= b[k]
    &&& (b[k] > 0 ==> r.0 < b[k])
    &&& spec_depth(b.update(k, (b[k] - r.0) as u128), amp) == Ok::<int, PoolError>(r.2 as int)
    &&& r.1 == governance_mint(supply, supply - burn, d0, r.2 as int, fee_lp(lp, gov), fee_gov(lp, gov))
}

/// What taking out exactly `x` returns.
pub open spec fn remove_output_outcome(
    b: Seq<u128>,
    x: Seq<u128>,
    amp: DecimalU64,
    lp: DecimalU64,
    gov: DecimalU64,
    supply: int,
    previous_depth: int,
    r: (u128, u128, u128),
) -> bool {
    let t = fee_lp(lp, gov) + fee_gov(lp, gov);
    let d0 = start_depth_of(b, amp, previous_depth);
    let d_new = r.2 as int;
    let gross = if d_new < d0 {
        ceil_div(supply * (d0 - d_new), d0)
    } else {
        0
    };
    &&& spec_depth(shifted(b, x, b.len() as int, false), amp) == Ok::<int, PoolError>(d_new)
    &&& r.0 == gross_up(gross, t, fee_den(lp, gov))
    &&& r.0 < supply
    &&& r.1 == governance_mint(supply, supply - r.0, d0, d_new, fee_lp(lp, gov), fee_gov(lp, gov))
}

/// What depositing `x` returns.
pub open spec fn add_outcome(
    b: Seq<u128>,
    x: Seq<u128>,
    amp: DecimalU64,
    lp: DecimalU64,
    gov: DecimalU64,
    supply: int,
    previous_depth: int,
    r: (u128, u128, u128),
) -> bool {
    let t = fee_lp(lp, gov) + fee_gov(lp, gov);
    let new_b = shifted(b, x, b.len() as int, true);
    let d_star = r.2 as int;
    let d0 = start_depth_of(b, amp, previous_depth);
    let d_adj = spec_depth(fee_adjusted(b, new_b, d0, d_star, t, fee_den(lp, gov)), amp)->Ok_0;
    &&& spec_depth(new_b, amp) == Ok::<int, PoolError>(d_star)
    &&& if supply == 0 {
        r.0 == d_star && r.1 == 0
    } else {
        &&& r.0 == (if d_adj > d0 {
            supply * (d_adj - d0) / d0
        } else {
            0
        })
        &&& r.1 == governance_mint(supply, supply + r.0, d0, d_star, fee_lp(lp, gov), fee_gov(lp, gov))
    }
}

/// A machine triple read as integers.
pub open spec fn lift3(r: SolverResult) -> Result<(int, int, int), PoolError> {
    match r {
        Ok(v) => Ok((v.0 as int, v.1 as int, v.2 as int)),
        Err(e) => Err(e),
    }
}

/// The start depth, in checked arithmetic: an empty pool has none.
pub open spec fn start_depth_c(b: Seq<u128>, amp: DecimalU64, previous_depth: int) -> Result<int, PoolError> {
    if previous_depth > 0 {
        Ok(previous_depth)
    } else {
        match spec_depth(b, amp) {
            Err(e) => Err(e),
            Ok(d) => if d == 0 {
                Err(PoolError::DivByZero)
            } else {
                Ok(d)
            },
        }
    }
}

/// Whether shifting entry `i` of `b` by `x[i]` leaves 128 bits (or goes below zero).
pub open spec fn shift_fails_at(b: Seq<u128>, x: Seq<u128>, i: int, up: bool) -> bool {
    if up {
        b[i] + x[i] > u128::MAX
    } else {
        b[i] < x[i]
    }
}

/// `shifted` in checked arithmetic.
pub open spec fn shifted_c(b: Seq<u128>, x: Seq<u128>, skip: int, up: bool) -> Result<Seq<u128>, PoolError> {
    if exists|i: int| 0 <= i < b.len() && i != skip && #[trigger] shift_fails_at(b, x, i, up) {
        Err(PoolError::NumericOverflow)
    } else {
        Ok(shifted(b, x, skip, up))
    }
}

/// `a * b / c` rounded down, in checked arithmetic.
pub open spec fn mul_div_c(a: int, b: int, c: int) -> Result<int, PoolError> {
    c_div(c_mul(Ok(a), Ok(b)), Ok(c))
}

/// `a * b / c` rounded up, in checked arithmetic.
pub open spec fn mul_div_up_c(a: int, b: int, c: int) -> Result<int, PoolError> {
    match c_mul(Ok(a), Ok(b)) {
        Err(e) => Err(e),
        Ok(p) => if c == 0 {
            Err(PoolError::DivByZero)
        } else {
            c_div(c_add(Ok(p), Ok(c - 1)), Ok(c))
        },
    }
}

/// `governance_mint` in checked arithmetic.
pub open spec fn governance_mint_c(supply: int, supply_new: int, d0: int, d_new: int, l: int, g: int) -> Result<
    int,
    PoolError,
> {
    if g == 0 {
        Ok(0)
    } else {
        match c_mul(Ok(supply), Ok(d_new)) {
            Err(e) => Err(e),
            Ok(gained) => match c_mul(Ok(supply_new), Ok(d0)) {
                Err(e) => Err(e),
                Ok(expected) => if gained <= expected {
                    Ok(0)
                } else {
                    c_div(c_mul(Ok(gained - expected), Ok(g)), c_mul(Ok(d0), c_add(Ok(l), Ok(g))))
                },
            },
        }
    }
}

/// What a swap of exact inputs `x` for the token at `k` returns or fails with.
pub open spec fn swap_input_result(
    b: Seq<u128>,
    x: Seq<u128>,
    k: int,
    amp: DecimalU64,
    lp: DecimalU64,
    gov: DecimalU64,
    supply: int,
    previous_depth: int,
) -> Result<(int, int, int), PoolError> {
    let l = fee_lp(lp, gov);
    let g = fee_gov(lp, gov);
    match start_depth_c(b, amp, previous_depth) {
        Err(e) => Err(e),
        Ok(d0) => match shifted_c(b, x, k, true) {
            Err(e) => Err(e),
            Ok(known) => match spec_balance(known, k, amp, d0) {
                Err(e) => Err(e),
                Ok(y) => {
                    let gross = gross_out(b[k] as int, y);
                    match mul_div_up_c(gross, l + g, fee_den(lp, gov)) {
                        Err(e) => Err(e),
                        Ok(fee) => match c_sub(Ok(gross), Ok(fee)) {
                            Err(e) => Err(e),
                            Ok(out) => match spec_depth(known.update(k, (b[k] - out) as u128), amp) {
                                Err(e) => Err(e),
                                Ok(d_new) => match governance_mint_c(supply, supply, d0, d_new, l, g) {
                                    Err(e) => Err(e),
                                    Ok(gm) => Ok((out, gm, d_new)),
                                },
                            },
                        },
                    }
                },
            },
        },
    }
}

/// What a swap of the token at `k` for exact outputs `x` returns or fails with.
pub open spec fn swap_output_result(
    b: Seq<u128>,
    x: Seq<u128>,
    k: int,
    amp: DecimalU64,
    lp: DecimalU64,
    gov: DecimalU64,
    supply: int,
    previous_depth: int,
) -> Result<(int, int, int), PoolError> {
    let l = fee_lp(lp, gov);
    let g = fee_gov(lp, gov);
    let den = fee_den(lp, gov);
    match start_depth_c(b, amp, previous_depth) {
        Err(e) => Err(e),
        Ok(d0) => match shifted_c(b, x, k, false) {
            Err(e) => Err(e),
            Ok(known) => match spec_balance(known, k, amp, d0) {
                Err(e) => Err(e),
                Ok(y) => {
                    let gross = if y > b[k] {
                        y - b[k]
                    } else {
                        0
                    };
                    match mul_div_up_c(gross, den, den - (l + g)) {
                        Err(e) => Err(e),
                        Ok(input) => match c_add(Ok(b[k] as int), Ok(input)) {
                            Err(e) => Err(e),
                            Ok(fin) => match spec_depth(known.update(k, fin as u128), amp) {
                                Err(e) => Err(e),
                                Ok(d_new) => match governance_mint_c(supply, supply, d0, d_new, l, g) {
                                    Err(e) => Err(e),
                                    Ok(gm) => Ok((input, gm, d_new)),
                                },
                            },
                        },
                    }
                },
            },
        },
    }
}

/// What burning exactly `burn` LP units for the token at `k` returns or fails with.
pub open spec fn remove_burn_result(
    b: Seq<u128>,
    burn: int,
    k: int,
    amp: DecimalU64,
    lp: DecimalU64,
    gov: DecimalU64,
    supply: int,
    previous_depth: int,
) -> Result<(int, int, int), PoolError> {
    let l = fee_lp(lp, gov);
    let g = fee_gov(lp, gov);
    match start_depth_c(b, amp, previous_depth) {
        Err(e) => Err(e),
        Ok(d0) => match mul_div_up_c(d0, supply - burn, supply) {
            Err(e) => Err(e),
            Ok(target) => match spec_balance(b, k, amp, target) {
                Err(e) => Err(e),
                Ok(y) => {
                    let gross = gross_out(b[k] as int, y);
                    match mul_div_up_c(gross, l + g, fee_den(lp, gov)) {
                        Err(e) => Err(e),
                        Ok(fee) => match c_sub(Ok(gross), Ok(fee)) {
                            Err(e) => Err(e),
                            Ok(out) => match spec_depth(b.update(k, (b[k] - out) as u128), amp) {
                                Err(e) => Err(e),
                                Ok(d_new) => match governance_mint_c(supply, supply - burn, d0, d_new, l, g) {
                                    Err(e) => Err(e),
                                    Ok(gm) => Ok((out, gm, d_new)),
                                },
                            },
                        },
                    }
                },
            },
        },
    }
}

/// What taking out exactly `x` returns or fails with.
pub open spec fn remove_output_result(
    b: Seq<u128>,
    x: Seq<u128>,
    amp: DecimalU64,
    lp: DecimalU64,
    gov: DecimalU64,
    supply: int,
    previous_depth: int,
) -> Result<(int, int, int), PoolError> {
    let l = fee_lp(lp, gov);
    let g = fee_gov(lp, gov);
    let den = fee_den(lp, gov);
    match start_depth_c(b, amp, previous_depth) {
        Err(e) => Err(e),
        Ok(d0) => match shifted_c(b, x, b.len() as int, false) {
            Err(e) => Err(e),
            Ok(fin) => match spec_depth(fin, amp) {
                Err(e) => Err(e),
                Ok(d_new) => match (if d_new < d0 {
                    mul_div_up_c(supply, d0 - d_new, d0)
                } else {
                    Ok(0)
                }) {
                    Err(e) => Err(e),
                    Ok(gross) => match mul_div_up_c(gross, den, den - (l + g)) {
                        Err(e) => Err(e),
                        Ok(burn) => if burn >= supply {
                            Err(PoolError::OutsideSpecifiedLimits)
                        } else {
                            match governance_mint_c(supply, supply - burn, d0, d_new, l, g) {
                                Err(e) => Err(e),
                                Ok(gm) => Ok((burn, gm, d_new)),
                            }
                        },
                    },
                },
            },
        },
    }
}

/// One entry of a fee-adjusted deposit, in checked arithmetic.
pub open spec fn adjust_at_c(b: Seq<u128>, new_b: Seq<u128>, d0: int, d_star: int, t: int, den: int, i: int) -> Result<
    int,
    PoolError,
> {
    match mul_div_c(b[i] as int, d_star, d0) {
        Err(e) => Err(e),
        Ok(ideal) => match mul_div_up_c(abs_diff(new_b[i] as int, ideal), t, den) {
            Err(e) => Err(e),
            Ok(fee) => c_sub(Ok(new_b[i] as int), Ok(fee)),
        },
    }
}

/// `fee_adjusted` in checked arithmetic.
pub open spec fn adjusted_c(b: Seq<u128>, new_b: Seq<u128>, d0: int, d_star: int, t: int, den: int) -> Result<
    Seq<u128>,
    PoolError,
> {
    if exists|i: int| 0 <= i < b.len() && #[trigger] adjust_at_c(b, new_b, d0, d_star, t, den, i) is Err {
        Err(PoolError::NumericOverflow)
    } else {
        Ok(fee_adjusted(b, new_b, d0, d_star, t, den))
    }
}

/// What depositing `x` returns or fails with.
pub open spec fn add_result(
    b: Seq<u128>,
    x: Seq<u128>,
    amp: DecimalU64,
    lp: DecimalU64,
    gov: DecimalU64,
    supply: int,
    previous_depth: int,
) -> Result<(int, int, int), PoolError> {
    let l = fee_lp(lp, gov);
    let g = fee_gov(lp, gov);
    match shifted_c(b, x, b.len() as int, true) {
        Err(e) => Err(e),
        Ok(new_b) => if supply == 0 {
            match spec_depth(new_b, amp) {
                Err(e) => Err(e),
                Ok(d) => Ok((d, 0, d)),
            }
        } else {
            match start_depth_c(b, amp, previous_depth) {
                Err(e) => Err(e),
                Ok(d0) => match spec_depth(new_b, amp) {
                    Err(e) => Err(e),
                    Ok(d_star) => match adjusted_c(b, new_b, d0, d_star, l + g, fee_den(lp, gov)) {
                        Err(e) => Err(e),
                        Ok(adjusted) => match spec_depth(adjusted, amp) {
                            Err(e) => Err(e),
                            Ok(d_adj) => match (if d_adj > d0 {
                                mul_div_c(supply, d_adj - d0, d0)
                            } else {
                                Ok(0)
                            }) {
                                Err(e) => Err(e),
                                Ok(mint) => match c_add(Ok(supply), Ok(mint)) {
                                    Err(e) => Err(e),
                                    Ok(supply_new) => match governance_mint_c(supply, supply_new, d0, d_star, l, g) {
                                        Err(e) => Err(e),
                                        Ok(gm) => Ok((mint, gm, d_star)),
                                    },
                                },
                            },
                        },
                    },
                },
            }
        },
    }
}

fn fee_parts(lp: &DecimalU64, gov: &DecimalU64) -> (r: (u128, u128, u128))
    requires
        lp.wf(),
        gov.wf(),
        crate::pool_fee::fees_below_one(*lp, *gov),
    ensures
        r.0 == fee_lp(*lp, *gov),
        r.1 == fee_gov(*lp, *gov),
        r.2 == fee_den(*lp, *gov),
        r.0 + r.1 < r.2,
{
    let d = lp.common_decimals(gov);
    (lp.aligned(d), gov.aligned(d), ten_to_the(d))
}

fn start_depth(b: &Vec<u128>, amp: &DecimalU64, previous_depth: u128) -> (r: Result<u128, PoolError>)
    requires
        in_amp_range(*amp),
    ensures
        match r {
            Ok(v) => v > 0 && v == start_depth_of(b@, *amp, previous_depth as int),
            Err(e) => is_numeric_error(e),
        },
        lift(r) == start_depth_c(b@, *amp, previous_depth as int),
{
    if previous_depth > 0 {
        return Ok(previous_depth);
    }
    let d = compute_depth(b, amp)?;
    if d == 0 {
        return Err(PoolError::DivByZero);
    }
    Ok(d)
}

fn shift(b: &Vec<u128>, x: &Vec<u128>, skip: usize, up: bool) -> (r: Result<Vec<u128>, PoolError>)
    requires
        b.len() == x.len(),
    ensures
        match r {
            Ok(v) => v@ == shifted(b@, x@, skip as int, up),
            Err(e) => e == PoolError::NumericOverflow,
        },
        match shifted_c(b@, x@, skip as int, up) {
            Ok(v) => r is Ok && r->Ok_0@ == v,
            Err(e) => r == Err::<Vec<u128>, PoolError>(e),
        },
{
    let mut v: Vec<u128> = Vec::new();
    let mut i: usize = 0;
    while i < b.len()
        invariant
            i <= b.len() == x.len(),
            v@.len() == i,
            forall|j: int| 0 <= j < i ==> v@[j] == shifted(b@, x@, skip as int, up)[j],
            forall|j: int| 0 <= j < i && j != skip ==> !#[trigger] shift_fails_at(b@, x@, j, up),
        decreases b.len() - i,
    {
        let e = if i == skip {
            b[i]
        } else if up {
            match plus(b[i], x[i]) {
                Ok(v) => v,
                Err(err) => {
                    assert(shift_fails_at(b@, x@, i as int, up));
                    return Err(err);
                },
            }
        } else {
            match minus(b[i], x[i]) {
                Ok(v) => v,
                Err(err) => {
                    assert(shift_fails_at(b@, x@, i as int, up));
                    return Err(err);
                },
            }
        };
        v.push(e);
        i = i + 1;
    }
    assert(v@ =~= shifted(b@, x@, skip as int, up));
    Ok(v)
}

/// The governance fee of an operation, in LP units.
pub fn governance_mint_amount(supply: u128, supply_new: u128, d0: u128, d_new: u128, l: u128, g: u128) -> (r: Result<u128, PoolError>)
    requires
        d0 > 0,
    ensures
        match r {
            Ok(v) => v == governance_mint(supply as int, supply_new as int, d0 as int, d_new as int, l as int, g as int),
            Err(e) => is_numeric_error(e),
        },
        lift(r) == governance_mint_c(supply as int, supply_new as int, d0 as int, d_new as int, l as int, g as int),
{
    if g == 0 {
        return Ok(0);
    }
    let gained = times(supply, d_new)?;
    let expected = times(supply_new, d0)?;
    if gained <= expected {
        return Ok(0);
    }
    div(times(gained - expected, g)?, times(d0, plus(l, g)?)?)
}

/// Swaps the exact `input_amounts` in for the token at `output_index`.
pub fn swap_exact_input(
    input_amounts: &Vec<u128>,
    output_index: usize,
    balances: &Vec<u128>,
    amp: &DecimalU64,
    lp_fee: &DecimalU64,
    gov_fee: &DecimalU64,
    supply: u128,
    previous_depth: u128,
) -> (r: SolverResult)
    requires
        balances.len() == input_amounts.len(),
        output_index < balances.len(),
        solver_params(*amp, *lp_fee, *gov_fee),
    ensures
        lift3(r) == swap_input_result(balances@, input_amounts@, output_index as int, *amp, *lp_fee, *gov_fee,
            supply as int, previous_depth as int),
        match r {
            Ok(v) => swap_input_outcome(balances@, input_amounts@, output_index as int, *amp, *lp_fee,
                    *gov_fee, supply as int, previous_depth as int, v),
            Err(e) => is_numeric_error(e),
        },
{
    let (l, g, den) = fee_parts(lp_fee, gov_fee);
    let d0 = match start_depth(balances, amp, previous_depth) {
        Ok(v) => v,
        Err(e) => return Err(e),
    };
    let mut known = match shift(balances, input_amounts, output_index, true) {
        Ok(v) => v,
        Err(e) => return Err(e),
    };
    let y = match compute_balance(&known, output_index, amp, d0) {
        Ok(v) => v,
        Err(e) => return Err(e),
    };
    let bk = balances[output_index];
    let residual = if y == 0 { 1 } else { y };
    let gross = if residual < bk { bk - residual } else { 0 };
    let fee = match mul_div_up(gross, l + g, den) {
        Ok(v) => v,
        Err(e) => return Err(e),
    };
    let out = match minus(gross, fee) {
        Ok(v) => v,
        Err(e) => return Err(e),
    };
    known.set(output_index, bk - out);
    let d_new = match compute_depth(&known, amp) {
        Ok(v) => v,
        Err(e) => return Err(e),
    };
    let gov_lp = match governance_mint_amount(supply, supply, d0, d_new, l, g) {
        Ok(v) => v,
        Err(e) => return Err(e),
    };
    let v = (out, gov_lp, d_new);
    assert(swap_input_outcome(balances@, input_amounts@, output_index as int, *amp, *lp_fee, *gov_fee,
        supply as int, previous_depth as int, v));
    Ok(v)
}

/// Swaps the token at `input_index` in for the exact `output_amounts`.
pub fn swap_exact_output(
    input_index: usize,
    output_amounts: &Vec<u128>,
    balances: &Vec<u128>,
    amp: &DecimalU64,
    lp_fee: &DecimalU64,
    gov_fee: &DecimalU64,
    supply: u128,
    previous_depth: u128,
) -> (r: SolverResult)
    requires
        balances.len() == output_amounts.len(),
        input_index < balances.len(),
        solver_params(*amp, *lp_fee, *gov_fee),
    ensures
        lift3(r) == swap_output_result(balances@, output_amounts@, input_index as int, *amp, *lp_fee, *gov_fee,
            supply as int, previous_depth as int),
        match r {
            Ok(v) => swap_output_outcome(balances@, output_amounts@, input_index as int, *amp, *lp_fee,
                    *gov_fee, supply as int, previous_depth as int, v),
            Err(e) => is_numeric_error(e),
        },
{
    let (l, g, den) = fee_parts(lp_fee, gov_fee);
    let d0 = match start_depth(balances, amp, previous_depth) {
        Ok(v) => v,
        Err(e) => return Err(e),
    };
    let mut known = match shift(balances, output_amounts, input_index, false) {
        Ok(v) => v,
        Err(e) => return Err(e),
    };
    let y = match compute_balance(&known, input_index, amp, d0) {
        Ok(v) => v,
        Err(e) => return Err(e),
    };
    let bk = balances[input_index];
    let gross = if y > bk { y - bk } else { 0 };
    let input = match mul_div_up(gross, den, den - (l + g)) {
        Ok(v) => v,
        Err(e) => return Err(e),
    };
    let fin = match plus(bk, input) {
        Ok(v) => v,
        Err(e) => return Err(e),
    };
    known.set(input_index, fin);
    let d_new = match compute_depth(&known, amp) {
        Ok(v) => v,
        Err(e) => return Err(e),
    };
    let gov_lp = match governance_mint_amount(supply, supply, d0, d_new, l, g) {
        Ok(v) => v,
        Err(e) => return Err(e),
    };
    let v = (input, gov_lp, d_new);
    assert(swap_output_outcome(balances@, output_amounts@, input_index as int, *amp, *lp_fee, *gov_fee,
        supply as int, previous_depth as int, v));
    Ok(v)
}

/// Burns exactly `burn` LP units for the token at `output_index`.
pub fn remove_exact_burn(
    burn: u128,
    output_index: usize,
    balances: &Vec<u128>,
    amp: &DecimalU64,
    lp_fee: &DecimalU64,
    gov_fee: &DecimalU64,
    supply: u128,
    previous_depth: u128,
) -> (r: SolverResult)
    requires
        output_index < balances.len(),
        0 < burn < supply,
        solver_params(*amp, *lp_fee, *gov_fee),
    ensures
        lift3(r) == remove_burn_result(balances@, burn as int, output_index as int, *amp, *lp_fee, *gov_fee,
            supply as int, previous_depth as int),
        match r {
            Ok(v) => remove_burn_outcome(balances@, burn as int, output_index as int, *amp, *lp_fee,
                    *gov_fee, supply as int, previous_depth as int, v),
            Err(e) => is_numeric_error(e),
        },
{
    let (l, g, den) = fee_parts(lp_fee, gov_fee);
    let d0 = match start_depth(balances, amp, previous_depth) {
        Ok(v) => v,
        Err(e) => return Err(e),
    };
    let target = match mul_div_up(d0, supply - burn, supply) {
        Ok(v) => v,
        Err(e) => return Err(e),
    };
    let y = match compute_balance(balances, output_index, amp, target) {
        Ok(v) => v,
        Err(e) => return Err(e),
    };
    let bk = balances[output_index];
    let residual = if y == 0 { 1 } else { y };
    let gross = if residual < bk { bk - residual } else { 0 };
    let fee = match mul_div_up(gross, l + g, den) {
        Ok(v) => v,
        Err(e) => return Err(e),
    };
    let out = match minus(gross, fee) {
        Ok(v) => v,
        Err(e) => return Err(e),
    };
    let mut fin = balances.clone();
    fin.set(output_index, bk - out);
    let d_new = match compute_depth(&fin, amp) {
        Ok(v) => v,
        Err(e) => return Err(e),
    };
    let gov_lp = match governance_mint_amount(supply, supply - burn, d0, d_new, l, g) {
        Ok(v) => v,
        Err(e) => return Err(e),
    };
    let v = (out, gov_lp, d_new);
    assert(fin@ == balances@.update(output_index as int, (bk - out) as u128));
    assert(remove_burn_outcome(balances@, burn as int, output_index as int, *amp, *lp_fee, *gov_fee,
        supply as int, previous_depth as int, v));
    Ok(v)
}

/// Takes out exactly `output_amounts`, burning what that costs in LP units.
pub fn remove_exact_output(
    output_amounts: &Vec<u128>,
    balances: &Vec<u128>,
    amp: &DecimalU64,
    lp_fee: &DecimalU64,
    gov_fee: &DecimalU64,
    supply: u128,
    previous_depth: u128,
) -> (r: SolverResult)
    requires
        balances.len() == output_amounts.len(),
        solver_params(*amp, *lp_fee, *gov_fee),
    ensures
        lift3(r) == remove_output_result(balances@, output_amounts@, *amp, *lp_fee, *gov_fee, supply as int,
            previous_depth as int),
        match r {
            Ok(v) => remove_output_outcome(balances@, output_amounts@, *amp, *lp_fee, *gov_fee,
                    supply as int, previous_depth as int, v),
            Err(e) => is_numeric_error(e) || e == PoolError::OutsideSpecifiedLimits,
        },
{
    let (l, g, den) = fee_parts(lp_fee, gov_fee);
    let d0 = match start_depth(balances, amp, previous_depth) {
        Ok(v) => v,
        Err(e) => return Err(e),
    };
    let fin = match shift(balances, output_amounts, balances.len(), false) {
        Ok(v) => v,
        Err(e) => return Err(e),
    };
    let d_new = match compute_depth(&fin, amp) {
        Ok(v) => v,
        Err(e) => return Err(e),
    };
    let gross = if d_new < d0 {
        match mul_div_up(supply, d0 - d_new, d0) {
            Ok(v) => v,
            Err(e) => return Err(e),
        }
    } else {
        0
    };
    let burn = match mul_div_up(gross, den, den - (l + g)) {
        Ok(v) => v,
        Err(e) => return Err(e),
    };
    if burn >= supply {
        return Err(PoolError::OutsideSpecifiedLimits);
    }
    let gov_lp = match governance_mint_amount(supply, supply - burn, d0, d_new, l, g) {
        Ok(v) => v,
        Err(e) => return Err(e),
    };
    let v = (burn, gov_lp, d_new);
    assert(remove_output_outcome(balances@, output_amounts@, *amp, *lp_fee, *gov_fee, supply as int,
        previous_depth as int, v));
    Ok(v)
}

/// Deposits `input_amounts`; into an empty pool the whole depth is minted.
pub fn add(
    input_amounts: &Vec<u128>,
    balances: &Vec<u128>,
    amp: &DecimalU64,
    lp_fee: &DecimalU64,
    gov_fee: &DecimalU64,
    supply: u128,
    previous_depth: u128,
) -> (r: SolverResult)
    requires
        balances.len() == input_amounts.len(),
        solver_params(*amp, *lp_fee, *gov_fee),
    ensures
        lift3(r) == add_result(balances@, input_amounts@, *amp, *lp_fee, *gov_fee, supply as int,
            previous_depth as int),
        match r {
            Ok(v) => add_outcome(balances@, input_amounts@, *amp, *lp_fee, *gov_fee, supply as int,
                    previous_depth as int, v),
            Err(e) => is_numeric_error(e),
        },
{
    let (l, g, den) = fee_parts(lp_fee, gov_fee);
    let new_b = match shift(balances, input_amounts, balances.len(), true) {
        Ok(v) => v,
        Err(e) => return Err(e),
    };
    if supply == 0 {
        let d = match compute_depth(&new_b, amp) {
            Ok(v) => v,
            Err(e) => return Err(e),
        };
        let v = (d, 0u128, d);
        assert(add_outcome(balances@, input_amounts@, *amp, *lp_fee, *gov_fee, supply as int,
            previous_depth as int, v));
        return Ok(v);
    }
    let d0 = match start_depth(balances, amp, previous_depth) {
        Ok(v) => v,
        Err(e) => return Err(e),
    };
    let d_star = match compute_depth(&new_b, amp) {
        Ok(v) => v,
        Err(e) => return Err(e),
    };
    let ghost t = (l + g) as int;
    let mut adjusted: Vec<u128> = Vec::new();
    let mut i: usize = 0;
    while i < balances.len()
        invariant
            i <= balances.len() == new_b.len(),
            new_b@ == shifted(balances@, input_amounts@, balances.len() as int, true),
            d0 > 0,
            t == l + g,
            l + g < den,
            supply != 0,
            l == fee_lp(*lp_fee, *gov_fee),
            g == fee_gov(*lp_fee, *gov_fee),
            den == fee_den(*lp_fee, *gov_fee),
            start_depth_c(balances@, *amp, previous_depth as int) == Ok::<int, PoolError>(d0 as int),
            spec_depth(new_b@, *amp) == Ok::<int, PoolError>(d_star as int),
            shifted_c(balances@, input_amounts@, balances.len() as int, true) == Ok::<Seq<u128>, PoolError>(
                new_b@,
            ),
            forall|j: int|
                0 <= j < i ==> (#[trigger] adjust_at_c(balances@, new_b@, d0 as int, d_star as int, t, den as int, j))
                    is Ok,
            adjusted@.len() == i,
            forall|j: int|
                0 <= j < i ==> adjusted@[j] == fee_adjusted(balances@, new_b@, d0 as int, d_star as int, t,
                    den as int)[j],
        decreases balances.len() - i,
    {
        let ghost at = adjust_at_c(balances@, new_b@, d0 as int, d_star as int, t, den as int, i as int);
        let ideal = match mul_div(balances[i], d_star, d0) {
            Ok(v) => v,
            Err(e) => {
                assert(at is Err);
                return Err(e);
            },
        };
        let nb = new_b[i];
        let diff = if nb >= ideal { nb - ideal } else { ideal - nb };
        let fee = match mul_div_up(diff, l + g, den) {
            Ok(v) => v,
            Err(e) => {
                assert(at is Err);
                return Err(e);
            },
        };
        let a = match minus(nb, fee) {
            Ok(v) => v,
            Err(e) => {
                assert(at is Err);
                return Err(e);
            },
        };
        assert(at == Ok::<int, PoolError>(a as int));
        adjusted.push(a);
        i = i + 1;
    }
    assert(adjusted@ =~= fee_adjusted(balances@, new_b@, d0 as int, d_star as int, t, den as int));
    assert(adjusted_c(balances@, new_b@, d0 as int, d_star as int, t, den as int) == Ok::<Seq<u128>, PoolError>(
        adjusted@,
    ));
    let d_adj = match compute_depth(&adjusted, amp) {
        Ok(v) => v,
        Err(e) => return Err(e),
    };
    let mint = if d_adj > d0 {
        match mul_div(supply, d_adj - d0, d0) {
            Ok(v) => v,
            Err(e) => return Err(e),
        }
    } else {
        0
    };
    let supply_new = match plus(supply, mint) {
        Ok(v) => v,
        Err(e) => return Err(e),
    };
    let gov_lp = match governance_mint_amount(supply, supply_new, d0, d_star, l, g) {
        Ok(v) => v,
        Err(e) => return Err(e),
    };
    let v = (mint, gov_lp, d_star);
    assert(add_outcome(balances@, input_amounts@, *amp, *lp_fee, *gov_fee, supply as int,
        previous_depth as int, v));
    Ok(v)
}

/// The share `floor(p * burn / supply)` of `p` that `burn` of `supply` LP units stand for.
pub open spec fn share_of(p: int, burn: int, supply: int) -> int {
    p * burn / supply
}

/// `floor(p * burn / supply)` for `burn <= supply`, without forming `p * burn`.
pub fn proportional_share(p: u128, burn: u64, supply: u64) -> (r: u128)
    requires
        0 < supply,
        burn <= supply,
    ensures
        r == share_of(p as int, burn as int, supply as int),
        r <= p,
{
    let s = supply as u128;
    let b = burn as u128;
    let q = p / s;
    let m = p % s;
    proof {
        vstd::arithmetic::div_mod::lemma_fundamental_div_mod(p as int, s as int);
        assert(q * b <= q * s) by (nonlinear_arith)
            requires
                0 <= q,
                b <= s,
        ;
        assert(m * b <= m * s) by (nonlinear_arith)
            requires
                0 <= m,
                b <= s,
        ;
        assert(m * s < 0x1_0000_0000_0000_0000int * 0x1_0000_0000_0000_0000int) by (nonlinear_arith)
            requires
                0 <= m < s,
                s < 0x1_0000_0000_0000_0000int,
        ;
        vstd::arithmetic::div_mod::lemma_hoist_over_denominator((m * b) as int, (q * b) as int, s as nat);
        assert(p * b == (m * b) + (q * b) * s) by (nonlinear_arith)
            requires
                p == s * q + m,
        ;
        vstd::arithmetic::div_mod::lemma_div_is_ordered((m * b) as int, (m * s) as int, s as int);
        vstd::arithmetic::div_mod::lemma_div_multiples_vanish(m as int, s as int);
        assert(m * s == s * m) by (nonlinear_arith);
        vstd::arithmetic::div_mod::lemma_div_pos_is_pos((m * b) as int, s as int);
        assert(q * s == s * q) by (nonlinear_arith);
        assert(p * b <= p * s) by (nonlinear_arith)
            requires
                0 <= p,
                b <= s,
        ;
        vstd::arithmetic::div_mod::lemma_div_is_ordered((p * b) as int, (p * s) as int, s as int);
        vstd::arithmetic::div_mod::lemma_div_multiples_vanish(p as int, s as int);
        assert(p * s == s * p) by (nonlinear_arith);
        assert((m * b) / (s as int) + q * b == (p * b) / (s as int));
    }
    q * b + (m * b) / s
}

/// Pays out `floor(b[i] * burn / supply)` of every token, with no fee; the
/// depth left is `previous_depth - floor(previous_depth * burn / supply)`.
pub fn remove_uniform(burn: u64, balances: &Vec<u64>, supply: u64, previous_depth: u128) -> (r: (
    Vec<u64>,
    u128,
))
    requires
        0 < burn <= supply,
    ensures
        r.0@.len() == balances.len(),
        forall|i: int|
            0 <= i < balances.len() ==> r.0@[i] == share_of(balances@[i] as int, burn as int, supply as int),
        r.1 == previous_depth - share_of(previous_depth as int, burn as int, supply as int),
{
    let mut out: Vec<u64> = Vec::new();
    let mut i: usize = 0;
    while i < balances.len()
        invariant
            0 < burn <= supply,
            i <= balances.len(),
            out@.len() == i,
            forall|j: int|
                0 <= j < i ==> out@[j] == share_of(balances@[j] as int, burn as int, supply as int),
        decreases balances.len() - i,
    {
        let x = proportional_share(balances[i] as u128, burn, supply);
        out.push(x as u64);
        i = i + 1;
    }
    let taken = proportional_share(previous_depth, burn, supply);
    (out, previous_depth - taken)
}

} // verus!
