use vstd::prelude::*;
use crate::decimal::{DecimalU64, MAX_DECIMALS, max_nat, pow10, lemma_pow10_adds, lemma_pow10_max,
    lemma_pow10_monotone, lemma_pow10_positive, ten_to_the};
use crate::error::PoolError;
use crate::stable_swap::proportional_share;

verus! {

pub const MIN_AMP_VALUE: u64 = 1;
pub const MAX_AMP_VALUE: u64 = 1_000_000;
/// The shortest ramp, in seconds.
pub const MIN_ADJUSTMENT_WINDOW: i64 = 86_400;
/// The largest ratio between the amplification now and a new target.
pub const MAX_RELATIVE_ADJUSTMENT: u64 = 10;

/// Whether a decimal lies in `[MIN_AMP_VALUE, MAX_AMP_VALUE]`.
pub open spec fn in_amp_range(v: DecimalU64) -> bool {
    v.wf() && MIN_AMP_VALUE * pow10(v.decimals as nat) <= v.value <= MAX_AMP_VALUE * pow10(v.decimals as nat)
}

/// A piecewise-linear amplification schedule from `(initial_ts, initial_value)`
/// to `(target_ts, target_value)`.
#[derive(Debug, Clone, Copy, PartialEq, Eq, Structural)]
pub struct AmpFactor {
    pub initial_value: DecimalU64,
    pub initial_ts: i64,
    pub target_value: DecimalU64,
    pub target_ts: i64,
}

/// The interpolated mantissa between `a` (at `t0`) and `b` (at `t1`) at time `t`,
/// rounded towards `a`.
pub open spec fn ramp(a: int, t0: int, b: int, t1: int, t: int) -> int {
    if t >= t1 {
        b
    } else if t <= t0 {
        a
    } else if b >= a {
        a + (b - a) * (t - t0) / (t1 - t0)
    } else {
        a - (a - b) * (t - t0) / (t1 - t0)
    }
}

/// `m` written with `d` fractional digits, its last digits dropped until the
/// mantissa fits 64 bits.
pub open spec fn fit(m: int, d: nat) -> DecimalU64
    decreases d,
{
    if m <= u64::MAX || d == 0 {
        DecimalU64 { value: m as u64, decimals: d as u8 }
    } else {
        fit(m / 10, (d - 1) as nat)
    }
}

impl AmpFactor {
    pub open spec fn wf(self) -> bool {
        &&& in_amp_range(self.initial_value)
        &&& in_amp_range(self.target_value)
        &&& self.initial_ts <= self.target_ts
        &&& (self.initial_ts < self.target_ts || self.initial_value == self.target_value)
    }

    /// The number of fractional digits the ramp is computed with.
    pub open spec fn common(self) -> nat {
        max_nat(self.initial_value.decimals as nat, self.target_value.decimals as nat)
    }

    /// The exact interpolated mantissa at time `t`, with `common()` fractional digits.
    pub open spec fn value_at(self, t: int) -> int {
        let d = self.common();
        ramp(self.initial_value.at(d), self.initial_ts as int, self.target_value.at(d), self.target_ts as int, t)
    }

    /// The amplification at time `t`: the end values as they were set, and in
    /// between the interpolation, fitted to a 64-bit mantissa.
    pub open spec fn spec_get(self, t: int) -> DecimalU64 {
        if t >= self.target_ts {
            self.target_value
        } else if t <= self.initial_ts {
            self.initial_value
        } else {
            fit(self.value_at(t), self.common())
        }
    }

    /// A constant schedule at `value`.
    pub fn new(value: DecimalU64) -> (r: Result<AmpFactor, PoolError>)
        ensures
            in_amp_range(value) ==> r == Ok::<AmpFactor, PoolError>(
                AmpFactor { initial_value: value, initial_ts: 0, target_value: value, target_ts: 0 },
            ),
            !in_amp_range(value) ==> r == Err::<AmpFactor, PoolError>(PoolError::InvalidAmpFactorValue),
            r is Ok ==> r->Ok_0.wf(),
    {
        if !is_in_amp_range(&value) {
            return Err(PoolError::InvalidAmpFactorValue);
        }
        Ok(AmpFactor { initial_value: value, initial_ts: 0, target_value: value, target_ts: 0 })
    }

    /// The amplification at time `ts`.
    pub fn get(&self, ts: i64) -> (r: DecimalU64)
        requires
            self.wf(),
        ensures
            r == self.spec_get(ts as int),
            in_amp_range(r),
    {
        if ts >= self.target_ts {
            return self.target_value;
        }
        if ts <= self.initial_ts {
            return self.initial_value;
        }
        let d = self.initial_value.common_decimals(&self.target_value);
        proof {
            lemma_aligned_range(self.initial_value, d as nat);
            lemma_aligned_range(self.target_value, d as nat);
            lemma_pow10_monotone(d as nat, 19);
            lemma_pow10_max();
            assert(MAX_AMP_VALUE * pow10(d as nat) <= 1_000_000 * 10_000_000_000_000_000_000int) by (nonlinear_arith)
                requires
                    pow10(d as nat) <= 10_000_000_000_000_000_000int,
                    MAX_AMP_VALUE == 1_000_000,
            ;
        }
        let a = self.initial_value.aligned(d);
        let b = self.target_value.aligned(d);
        let elapsed = (ts as i128 - self.initial_ts as i128) as u64;
        let span = (self.target_ts as i128 - self.initial_ts as i128) as u64;
        let mut m: u128 = if b >= a {
            a + proportional_share(b - a, elapsed, span)
        } else {
            a - proportional_share(a - b, elapsed, span)
        };
        let mut dd: u8 = d;
        proof {
            lemma_ramp_between(a as int, self.initial_ts as int, b as int, self.target_ts as int, ts as int);
            assert(m == self.value_at(ts as int));
        }
        while m > u64::MAX as u128 && dd > 0
            invariant
                dd <= 19,
                fit(m as int, dd as nat) == fit(self.value_at(ts as int), d as nat),
                pow10(dd as nat) <= m <= MAX_AMP_VALUE * pow10(dd as nat),
            decreases dd,
        {
            proof {
                lemma_div10_range(m as int, dd as nat);
            }
            m = m / 10;
            dd = dd - 1;
        }
        proof {
            lemma_pow10_positive(0);
            assert(pow10(0) == 1);
            lemma_fit_range(m as int, dd as nat);
        }
        DecimalU64 { value: m as u64, decimals: dd }
    }

    /// The schedule after a retarget at `now` towards `value`, reached at
    /// `target_ts`, or the reason it is refused.
    pub open spec fn spec_retarget(self, now: int, value: DecimalU64, target_ts: int) -> Result<AmpFactor, PoolError> {
        let cur = self.spec_get(now);
        let d = max_nat(cur.decimals as nat, value.decimals as nat);
        if !in_amp_range(value) {
            Err(PoolError::InvalidAmpFactorValue)
        } else if target_ts < now + MIN_ADJUSTMENT_WINDOW {
            Err(PoolError::InvalidAmpFactorTimestamp)
        } else if value.at(d) > MAX_RELATIVE_ADJUSTMENT * cur.at(d) || cur.at(d) > MAX_RELATIVE_ADJUSTMENT
            * value.at(d) {
            Err(PoolError::AmpJumpTooLarge)
        } else {
            Ok(AmpFactor { initial_value: cur, initial_ts: now as i64, target_value: value, target_ts: target_ts as i64 })
        }
    }

    /// Retargets the schedule: from the amplification at `now` towards `value`, reached at `target_ts`.
    pub fn set_target(&mut self, now: i64, value: DecimalU64, target_ts: i64) -> (r: Result<(), PoolError>)
        requires
            old(self).wf(),
        ensures
            match old(self).spec_retarget(now as int, value, target_ts as int) {
                Ok(a) => r is Ok && *final(self) == a,
                Err(e) => r == Err::<(), PoolError>(e) && *final(self) == *old(self),
            },
            final(self).wf(),
    {
        if !is_in_amp_range(&value) {
            return Err(PoolError::InvalidAmpFactorValue);
        }
        if (target_ts as i128) < now as i128 + MIN_ADJUSTMENT_WINDOW as i128 {
            return Err(PoolError::InvalidAmpFactorTimestamp);
        }
        let cur = self.get(now);
        let d = cur.common_decimals(&value);
        proof {
            lemma_aligned_range(cur, d as nat);
            lemma_aligned_range(value, d as nat);
            lemma_pow10_monotone(d as nat, 19);
            lemma_pow10_max();
            assert(MAX_AMP_VALUE * pow10(d as nat) <= 1_000_000 * 10_000_000_000_000_000_000int) by (nonlinear_arith)
                requires
                    pow10(d as nat) <= 10_000_000_000_000_000_000int,
                    MAX_AMP_VALUE == 1_000_000,
            ;
        }
        let c = cur.aligned(d);
        let v = value.aligned(d);
        if v > 10 * c || c > 10 * v {
            return Err(PoolError::AmpJumpTooLarge);
        }
        self.initial_value = cur;
        self.initial_ts = now;
        self.target_value = value;
        self.target_ts = target_ts;
        Ok(())
    }
}

/// Whether a decimal lies in the amplification range.
pub fn is_in_amp_range(v: &DecimalU64) -> (r: bool)
    ensures
        r == in_amp_range(*v),
{
    if v.decimals > MAX_DECIMALS {
        return false;
    }
    let t = ten_to_the(v.decimals);
    proof {
        lemma_pow10_monotone(v.decimals as nat, 19);
        lemma_pow10_max();
    }
    assert(MAX_AMP_VALUE * t <= 1_000_000 * 10_000_000_000_000_000_000int) by (nonlinear_arith)
        requires
            0 <= t <= 10_000_000_000_000_000_000int,
            MAX_AMP_VALUE == 1_000_000,
    ;
    t <= v.value as u128 && v.value as u128 <= MAX_AMP_VALUE as u128 * t
}

/// Dropping a digit keeps a mantissa in the amplification range.
proof fn lemma_div10_range(m: int, d: nat)
    requires
        d > 0,
        pow10(d) <= m <= MAX_AMP_VALUE * pow10(d),
    ensures
        pow10((d - 1) as nat) <= m / 10 <= MAX_AMP_VALUE * pow10((d - 1) as nat),
{
    let x = pow10((d - 1) as nat) as int;
    assert(pow10(d) == 10 * x);
    vstd::arithmetic::div_mod::lemma_div_is_ordered(10 * x, m, 10);
    vstd::arithmetic::div_mod::lemma_div_is_ordered(m, 10 * (MAX_AMP_VALUE * x), 10);
    assert(MAX_AMP_VALUE * (10 * x) == 10 * (MAX_AMP_VALUE * x)) by (nonlinear_arith);
    vstd::arithmetic::div_mod::lemma_div_multiples_vanish(x, 10);
    vstd::arithmetic::div_mod::lemma_div_multiples_vanish(MAX_AMP_VALUE * x, 10);
}

/// A fitted mantissa in the amplification range stays in it.
proof fn lemma_fit_range(m: int, d: nat)
    requires
        d <= 19,
        pow10(d) <= m <= MAX_AMP_VALUE * pow10(d),
    ensures
        in_amp_range(fit(m, d)),
        m <= u64::MAX ==> fit(m, d) == (DecimalU64 { value: m as u64, decimals: d as u8 }),
    decreases d,
{
    if m <= u64::MAX || d == 0 {
        assert(pow10(0) == 1);
        assert(d == 0 ==> m <= u64::MAX);
    } else {
        lemma_div10_range(m, d);
        lemma_fit_range(m / 10, (d - 1) as nat);
    }
}

/// The ramp lies between its two end values.
proof fn lemma_ramp_between(a: int, t0: int, b: int, t1: int, t: int)
    requires
        t0 <= t1,
        a >= 0,
        b >= 0,
    ensures
        a <= b ==> a <= ramp(a, t0, b, t1, t) <= b,
        b < a ==> b <= ramp(a, t0, b, t1, t) <= a,
{
    if t < t1 && t > t0 {
        let x = if b >= a { b - a } else { a - b };
        assert(x * (t - t0) <= x * (t1 - t0)) by (nonlinear_arith)
            requires
                0 <= x,
                t - t0 < t1 - t0,
        ;
        assert(0 <= x * (t - t0)) by (nonlinear_arith)
            requires
                0 <= x,
                0 < t - t0,
        ;
        vstd::arithmetic::div_mod::lemma_div_is_ordered(x * (t - t0), x * (t1 - t0), t1 - t0);
        vstd::arithmetic::div_mod::lemma_div_multiples_vanish(x, t1 - t0);
        assert(x * (t1 - t0) == (t1 - t0) * x) by (nonlinear_arith);
        vstd::arithmetic::div_mod::lemma_div_pos_is_pos(x * (t - t0), t1 - t0);
    }
}

proof fn lemma_aligned_range(v: DecimalU64, d: nat)
    requires
        in_amp_range(v),
        v.decimals <= d <= 19,
    ensures
        pow10(d) <= v.at(d) <= MAX_AMP_VALUE * pow10(d),
{
    let k = (d - v.decimals) as nat;
    lemma_pow10_adds(v.decimals as nat, k);
    assert(v.decimals as nat + k == d);
    let p = pow10(v.decimals as nat) as int;
    let q = pow10(k) as int;
    lemma_pow10_positive(k);
    assert(p * q <= v.value * q <= MAX_AMP_VALUE * (p * q)) by (nonlinear_arith)
        requires
            p <= v.value <= MAX_AMP_VALUE * p,
            q >= 1,
    ;
    assert(v.at(d) == v.value * q);
    assert(pow10(d) == p * q);
}

/// `A(t)` is the target value from `target_ts` on and the initial value up to
/// `initial_ts`; in between, the exact interpolation moves monotonically from one
/// to the other, and `A(t)` is that interpolation wherever it fits a 64-bit mantissa.
pub proof fn lemma_ramp_clamp_and_monotone(amp: AmpFactor, t1: int, t2: int)
    requires
        amp.wf(),
        t1 <= t2,
    ensures
        t1 >= amp.target_ts ==> amp.spec_get(t1) == amp.target_value,
        t1 <= amp.initial_ts ==> amp.spec_get(t1) == amp.initial_value,
        amp.initial_value.at(amp.common()) <= amp.target_value.at(amp.common()) ==> amp.value_at(t1) <= amp.value_at(t2),
        amp.initial_value.at(amp.common()) >= amp.target_value.at(amp.common()) ==> amp.value_at(t1) >= amp.value_at(t2),
        amp.value_at(t1) <= u64::MAX ==> amp.spec_get(t1).at(amp.common()) == amp.value_at(t1),
{
    let d = amp.common();
    let a = amp.initial_value.at(d);
    let b = amp.target_value.at(d);
    let t0 = amp.initial_ts as int;
    let tt = amp.target_ts as int;
    lemma_aligned_range(amp.initial_value, d);
    lemma_aligned_range(amp.target_value, d);
    lemma_ramp_between(a, t0, b, tt, t1);
    lemma_ramp_between(a, t0, b, tt, t2);
    if t0 < t1 && t2 < tt {
        let x = if b >= a { b - a } else { a - b };
        assert(x * (t1 - t0) <= x * (t2 - t0)) by (nonlinear_arith)
            requires
                0 <= x,
                t1 - t0 <= t2 - t0,
        ;
        vstd::arithmetic::div_mod::lemma_div_is_ordered(x * (t1 - t0), x * (t2 - t0), tt - t0);
    }
    if t0 < t1 && t1 < tt {
        assert(d <= 19);
        lemma_fit_range(amp.value_at(t1), d);
        assert(pow10(0) == 1);
        if amp.value_at(t1) <= u64::MAX {
            let f = fit(amp.value_at(t1), d);
            assert(f.decimals as nat == d);
            assert(f.value as int == amp.value_at(t1));
            assert(f.at(d) == f.value * pow10(0));
        }
    }
    if t1 >= tt {
        assert(amp.value_at(t1) == b);
    } else if t1 <= t0 {
        assert(amp.value_at(t1) == a);
    }
}

} // verus!
