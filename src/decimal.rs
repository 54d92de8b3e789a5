use vstd::prelude::*;
use crate::error::PoolError;

verus! {

/// The largest number of fractional digits a `DecimalU64` may carry.
pub const MAX_DECIMALS: u8 = 19;

/// Ten to the power `n`.
pub open spec fn pow10(n: nat) -> nat
    decreases n,
{
    if n == 0 {
        1
    } else {
        10 * pow10((n - 1) as nat)
    }
}

pub proof fn lemma_pow10_positive(n: nat)
    ensures
        pow10(n) >= 1,
    decreases n,
{
    if n > 0 {
        lemma_pow10_positive((n - 1) as nat);
    }
}

pub proof fn lemma_pow10_monotone(a: nat, b: nat)
    requires
        a <= b,
    ensures
        pow10(a) <= pow10(b),
    decreases b,
{
    if a < b {
        lemma_pow10_monotone(a, (b - 1) as nat);
    }
}

pub proof fn lemma_pow10_adds(a: nat, b: nat)
    ensures
        pow10(a + b) == pow10(a) * pow10(b),
    decreases b,
{
    if b > 0 {
        lemma_pow10_adds(a, (b - 1) as nat);
        assert((a + b - 1) as nat == a + (b - 1) as nat);
        assert(pow10(a + b) == 10 * pow10((a + b - 1) as nat));
        let p = pow10(a);
        let q = pow10((b - 1) as nat);
        assert(pow10(b) == 10 * q);
        assert(10 * (p * q) == p * (10 * q)) by (nonlinear_arith);
        assert(pow10(a + b) == p * pow10(b));
    } else {
        assert(pow10(0) == 1);
        assert(a + b == a);
        assert(pow10(a) * 1 == pow10(a));
    }
}

pub proof fn lemma_pow10_max()
    ensures
        pow10(19) == 10_000_000_000_000_000_000,
{
    reveal_with_fuel(pow10, 20);
}

/// `pow10(k)` as a machine integer.
pub fn ten_to_the(k: u8) -> (r: u128)
    requires
        k <= MAX_DECIMALS,
    ensures
        r == pow10(k as nat),
{
    let mut r: u128 = 1;
    let mut i: u8 = 0;
    while i < k
        invariant
            i <= k <= MAX_DECIMALS,
            r == pow10(i as nat),
        decreases k - i,
    {
        proof {
            lemma_pow10_monotone((i + 1) as nat, 19);
            lemma_pow10_max();
        }
        r = r * 10;
        i = i + 1;
    }
    r
}

/// An unsigned decimal: `value * 10^-decimals`.
#[derive(Debug, Clone, Copy, PartialEq, Eq, Structural)]
pub struct DecimalU64 {
    pub value: u64,
    pub decimals: u8,
}

pub open spec fn max_nat(a: nat, b: nat) -> nat {
    if a >= b {
        a
    } else {
        b
    }
}

impl DecimalU64 {
    pub open spec fn wf(self) -> bool {
        self.decimals <= MAX_DECIMALS
    }

    /// The mantissa of the same number written with `d >= self.decimals` fractional digits.
    pub open spec fn at(self, d: nat) -> int {
        self.value * pow10((d - self.decimals) as nat)
    }

    /// The integer part.
    pub open spec fn floor(self) -> int {
        self.value as int / pow10(self.decimals as nat) as int
    }

    pub open spec fn cmp_left(self, other: DecimalU64) -> int {
        self.value * pow10(other.decimals as nat)
    }

    pub open spec fn spec_less(self, other: DecimalU64) -> bool {
        self.cmp_left(other) < other.cmp_left(self)
    }

    pub open spec fn spec_same(self, other: DecimalU64) -> bool {
        self.cmp_left(other) == other.cmp_left(self)
    }

    /// Whether the number is strictly below one.
    pub open spec fn below_one(self) -> bool {
        self.value < pow10(self.decimals as nat)
    }

    pub fn new(value: u64, decimals: u8) -> (r: Result<DecimalU64, PoolError>)
        ensures
            decimals <= MAX_DECIMALS ==> r == Ok::<DecimalU64, PoolError>(DecimalU64 { value, decimals }),
            decimals > MAX_DECIMALS ==> r == Err::<DecimalU64, PoolError>(PoolError::NumericOverflow),
    {
        if decimals > MAX_DECIMALS {
            Err(PoolError::NumericOverflow)
        } else {
            Ok(DecimalU64 { value, decimals })
        }
    }

    pub fn from_u64(value: u64) -> (r: DecimalU64)
        ensures
            r.wf(),
            r.value == value,
            r.decimals == 0,
    {
        DecimalU64 { value, decimals: 0 }
    }

    pub fn is_zero(&self) -> (r: bool)
        ensures
            r == (self.value == 0),
    {
        self.value == 0
    }

    /// The mantissa written with `d` fractional digits.
    pub fn aligned(&self, d: u8) -> (r: u128)
        requires
            self.decimals <= d <= MAX_DECIMALS,
        ensures
            r == self.at(d as nat),
    {
        let t = ten_to_the(d - self.decimals);
        proof {
            lemma_pow10_monotone((d - self.decimals) as nat, 19);
            lemma_pow10_max();
            let v = self.value as int;
            assert(v * t <= 0xffff_ffff_ffff_ffffint * 10_000_000_000_000_000_000int) by (nonlinear_arith)
                requires
                    0 <= v <= 0xffff_ffff_ffff_ffffint,
                    0 <= t <= 10_000_000_000_000_000_000int,
            ;
        }
        (self.value as u128) * t
    }

    pub fn common_decimals(&self, other: &DecimalU64) -> (r: u8)
        ensures
            r == max_nat(self.decimals as nat, other.decimals as nat),
    {
        if self.decimals >= other.decimals {
            self.decimals
        } else {
            other.decimals
        }
    }

    /// Checked sum, written with the larger number of fractional digits.
    pub fn checked_add(&self, other: &DecimalU64) -> (r: Result<DecimalU64, PoolError>)
        requires
            self.wf(),
            other.wf(),
        ensures
            ({
                let d = max_nat(self.decimals as nat, other.decimals as nat);
                match r {
                    Ok(s) => s.wf() && s.decimals == d && s.value == self.at(d) + other.at(d),
                    Err(e) => e == PoolError::NumericOverflow && self.at(d) + other.at(d) > u64::MAX,
                }
            }),
    {
        let d = self.common_decimals(other);
        let a = self.aligned(d);
        let b = other.aligned(d);
        if a > u64::MAX as u128 || b > u64::MAX as u128 {
            return Err(PoolError::NumericOverflow);
        }
        let s = a + b;
        if s > u64::MAX as u128 {
            return Err(PoolError::NumericOverflow);
        }
        Ok(DecimalU64 { value: s as u64, decimals: d })
    }

    /// Checked difference, written with the larger number of fractional digits.
    pub fn checked_sub(&self, other: &DecimalU64) -> (r: Result<DecimalU64, PoolError>)
        requires
            self.wf(),
            other.wf(),
        ensures
            ({
                let d = max_nat(self.decimals as nat, other.decimals as nat);
                match r {
                    Ok(s) => s.wf() && s.decimals == d && s.value == self.at(d) - other.at(d),
                    Err(e) => e == PoolError::NumericOverflow && (self.at(d) < other.at(d) || self.at(d)
                        - other.at(d) > u64::MAX),
                }
            }),
    {
        let d = self.common_decimals(other);
        let a = self.aligned(d);
        let b = other.aligned(d);
        if a < b || a - b > u64::MAX as u128 {
            return Err(PoolError::NumericOverflow);
        }
        Ok(DecimalU64 { value: (a - b) as u64, decimals: d })
    }

    fn cross(&self, other: &DecimalU64) -> (r: u128)
        requires
            other.wf(),
        ensures
            r == self.cmp_left(*other),
    {
        let t = ten_to_the(other.decimals);
        proof {
            lemma_pow10_monotone(other.decimals as nat, 19);
            lemma_pow10_max();
            let v = self.value as int;
            assert(v * t <= 0xffff_ffff_ffff_ffffint * 10_000_000_000_000_000_000int) by (nonlinear_arith)
                requires
                    0 <= v <= 0xffff_ffff_ffff_ffffint,
                    0 <= t <= 10_000_000_000_000_000_000int,
            ;
        }
        (self.value as u128) * t
    }

    /// Numeric comparison, whatever the two numbers of fractional digits.
    pub fn is_less_than(&self, other: &DecimalU64) -> (r: bool)
        requires
            self.wf(),
            other.wf(),
        ensures
            r == self.spec_less(*other),
    {
        self.cross(other) < other.cross(self)
    }

    /// Numeric equality, whatever the two numbers of fractional digits.
    pub fn is_same_as(&self, other: &DecimalU64) -> (r: bool)
        requires
            self.wf(),
            other.wf(),
        ensures
            r == self.spec_same(*other),
    {
        self.cross(other) == other.cross(self)
    }

    /// The number rounded down to an integer.
    pub fn trunc(&self) -> (r: u64)
        requires
            self.wf(),
        ensures
            r == self.floor(),
    {
        let t = ten_to_the(self.decimals);
        proof {
            lemma_pow10_positive(self.decimals as nat);
            vstd::arithmetic::div_mod::lemma_div_is_ordered_by_denominator(self.value as int, 1, t as int);
        }
        ((self.value as u128) / t) as u64
    }

    /// Checked product: the exact product with its digits past the 64-bit
    /// mantissa (or past `MAX_DECIMALS` fractional digits) truncated.
    pub fn checked_mul(&self, other: &DecimalU64) -> (r: Result<DecimalU64, PoolError>)
        requires
            self.wf(),
            other.wf(),
        ensures
            ({
                let p = self.value * other.value;
                let e0 = (self.decimals + other.decimals) as nat;
                match r {
                    Ok(m) => {
                        &&& m.wf()
                        &&& m.decimals <= e0
                        &&& m.value == p / (pow10((e0 - m.decimals) as nat) as int)
                        &&& m.decimals < e0 ==> (m.decimals == MAX_DECIMALS || p / (pow10(
                            (e0 - m.decimals - 1) as nat,
                        ) as int) > u64::MAX)
                    },
                    Err(e) => e == PoolError::NumericOverflow && p / (pow10(e0) as int) > u64::MAX,
                }
            }),
    {
        proof {
            let a = self.value as int;
            let b = other.value as int;
            assert(a * b <= 0xffff_ffff_ffff_ffffint * 0xffff_ffff_ffff_ffffint) by (nonlinear_arith)
                requires
                    0 <= a <= 0xffff_ffff_ffff_ffffint,
                    0 <= b <= 0xffff_ffff_ffff_ffffint,
            ;
        }
        let full = (self.value as u128) * (other.value as u128);
        let e0 = self.decimals + other.decimals;
        let mut m = full;
        let mut e: u8 = e0;
        proof {
            assert(pow10(0) == 1);
            assert((e0 - e) as nat == 0);
            assert(full as int / 1 == full as int);
        }
        while (m > u64::MAX as u128 || e > MAX_DECIMALS) && e > 0
            invariant
                e <= e0 <= 38,
                full == self.value * other.value,
                m as int == full as int / (pow10((e0 - e) as nat) as int),
                e < e0 ==> (e + 1 > MAX_DECIMALS || full as int / (pow10((e0 - e - 1) as nat) as int) > u64::MAX),
            decreases e,
        {
            proof {
                lemma_pow10_positive((e0 - e) as nat);
                vstd::arithmetic::div_mod::lemma_div_denominator(full as int, pow10((e0 - e) as nat) as int, 10);
                assert(pow10((e0 - e + 1) as nat) == 10 * pow10((e0 - e) as nat));
                assert(pow10((e0 - e) as nat) * 10 == 10 * pow10((e0 - e) as nat));
            }
            m = m / 10;
            e = e - 1;
        }
        if m > u64::MAX as u128 {
            return Err(PoolError::NumericOverflow);
        }
        Ok(DecimalU64 { value: m as u64, decimals: e })
    }

    /// The quotient `self / other` written with `d` fractional digits, rounded down.
    pub open spec fn quotient_at(self, other: DecimalU64, d: nat) -> int {
        (self.value * pow10(other.decimals as nat + d)) / (other.value * pow10(self.decimals as nat))
    }

    /// Checked quotient, rounded down: the most fractional digits (up to
    /// `MAX_DECIMALS`) whose mantissa fits 64 bits.
    pub fn checked_div(&self, other: &DecimalU64) -> (r: Result<DecimalU64, PoolError>)
        requires
            self.wf(),
            other.wf(),
        ensures
            other.value == 0 ==> r == Err::<DecimalU64, PoolError>(PoolError::DivByZero),
            other.value != 0 ==> (r is Ok <==> self.quotient_at(*other, 0) <= u64::MAX),
            r is Err && other.value != 0 ==> r == Err::<DecimalU64, PoolError>(PoolError::NumericOverflow),
            r is Ok ==> {
                let q = r->Ok_0;
                &&& q.wf()
                &&& q.value == self.quotient_at(*other, q.decimals as nat)
                &&& (q.decimals == MAX_DECIMALS || self.quotient_at(*other, q.decimals as nat + 1) > u64::MAX)
            },
    {
        if other.value == 0 {
            return Err(PoolError::DivByZero);
        }
        let ta = ten_to_the(self.decimals);
        let tb = ten_to_the(other.decimals);
        proof {
            lemma_pow10_monotone(self.decimals as nat, 19);
            lemma_pow10_monotone(other.decimals as nat, 19);
            lemma_pow10_positive(self.decimals as nat);
            lemma_pow10_max();
            let v = other.value as int;
            let u = self.value as int;
            assert(v * ta <= 0xffff_ffff_ffff_ffffint * 10_000_000_000_000_000_000int) by (nonlinear_arith)
                requires
                    0 <= v <= 0xffff_ffff_ffff_ffffint,
                    0 <= ta <= 10_000_000_000_000_000_000int,
            ;
            assert(u * tb <= 0xffff_ffff_ffff_ffffint * 10_000_000_000_000_000_000int) by (nonlinear_arith)
                requires
                    0 <= u <= 0xffff_ffff_ffff_ffffint,
                    0 <= tb <= 10_000_000_000_000_000_000int,
            ;
            assert(v * ta > 0) by (nonlinear_arith)
                requires
                    v > 0,
                    ta >= 1,
            ;
        }
        let num = (self.value as u128) * tb;
        let den = (other.value as u128) * ta;
        let mut q = num / den;
        let mut rem = num % den;
        proof {
            vstd::arithmetic::div_mod::lemma_fundamental_div_mod(num as int, den as int);
            assert(pow10(0) == 1);
            assert(num * pow10(0) == num);
            assert(other.decimals as nat + 0 == other.decimals as nat);
            assert(num as int == q * den + rem) by (nonlinear_arith)
                requires
                    num as int == den * (num as int / den as int) + (num as int % den as int),
                    q == num as int / den as int,
                    rem == num as int % den as int,
            ;
            assert(q == self.quotient_at(*other, 0));
        }
        if q > u64::MAX as u128 {
            return Err(PoolError::NumericOverflow);
        }
        let mut e: u8 = 0;
        loop
            invariant
                e <= MAX_DECIMALS,
                den > 0,
                num == self.value * pow10(other.decimals as nat),
                den == other.value * pow10(self.decimals as nat),
                num * pow10(e as nat) == q * den + rem,
                rem < den,
                q <= u64::MAX,
                q == self.quotient_at(*other, e as nat),
                self.quotient_at(*other, 0) <= u64::MAX,
            decreases MAX_DECIMALS - e,
        {
            if e == MAX_DECIMALS {
                return Ok(DecimalU64 { value: q as u64, decimals: e });
            }
            // the next digit: 10 * rem = digit * den + acc, without forming 10 * rem
            let mut digit: u128 = 0;
            let mut acc: u128 = 0;
            let mut i: u8 = 0;
            while i < 10
                invariant
                    i <= 10,
                    rem < den,
                    acc < den,
                    digit <= i,
                    i * rem == digit * den + acc,
                decreases 10 - i,
            {
                let ghost old_acc = acc as int;
                let ghost old_digit = digit as int;
                if acc >= den - rem {
                    acc = acc - (den - rem);
                    digit = digit + 1;
                } else {
                    acc = acc + rem;
                }
                proof {
                    assert((i + 1) * rem == i * rem + rem) by (nonlinear_arith);
                    assert(digit * den + acc == old_digit * den + old_acc + rem) by (nonlinear_arith)
                        requires
                            (digit == old_digit + 1 && acc == old_acc + rem - den) || (digit == old_digit && acc
                                == old_acc + rem),
                    ;
                }
                i = i + 1;
            }
            let next = q * 10 + digit;
            proof {
                let k = e as nat;
                lemma_pow10_adds(other.decimals as nat, k);
                lemma_pow10_adds(other.decimals as nat, k + 1);
                assert(pow10(k + 1) == 10 * pow10(k));
                assert(num * pow10(k + 1) == next * den + acc) by (nonlinear_arith)
                    requires
                        num * pow10(k) == q * den + rem,
                        10 * rem == digit * den + acc,
                        pow10(k + 1) == 10 * pow10(k),
                        next == q * 10 + digit,
                ;
                assert(self.value * pow10(other.decimals as nat + (k + 1)) == num * pow10(k + 1)) by (nonlinear_arith)
                    requires
                        num == self.value * pow10(other.decimals as nat),
                        pow10(other.decimals as nat + (k + 1)) == pow10(other.decimals as nat) * pow10(k + 1),
                ;
                vstd::arithmetic::div_mod::lemma_fundamental_div_mod_converse(
                    num * pow10(k + 1),
                    den as int,
                    next as int,
                    acc as int,
                );
            }
            if next > u64::MAX as u128 {
                return Ok(DecimalU64 { value: q as u64, decimals: e });
            }
            q = next;
            rem = acc;
            e = e + 1;
        }
    }

    /// The same number with its trailing zero digits stripped.
    pub fn normalized(&self) -> (r: DecimalU64)
        requires
            self.wf(),
        ensures
            r.wf(),
            r.decimals <= self.decimals,
            r.at(self.decimals as nat) == self.value,
            r.decimals == 0 || r.value % 10 != 0,
    {
        let mut v = self.value;
        let mut d = self.decimals;
        proof {
            assert(pow10(0) == 1);
            assert((self.decimals - d) as nat == 0);
            assert(self.value == self.value * 1);
        }
        while d > 0 && v % 10 == 0
            invariant
                d <= self.decimals <= MAX_DECIMALS,
                self.value == v * pow10((self.decimals - d) as nat),
            decreases d,
        {
            proof {
                let k = (self.decimals - d) as nat;
                assert(pow10(k + 1) == 10 * pow10(k));
                let w = v as int;
                let q = w / 10;
                assert(w == 10 * q) by {
                    vstd::arithmetic::div_mod::lemma_fundamental_div_mod(w, 10);
                }
                assert(w * pow10(k) == q * (10 * pow10(k))) by (nonlinear_arith)
                    requires
                        w == 10 * q,
                ;
            }
            v = v / 10;
            d = d - 1;
        }
        DecimalU64 { value: v, decimals: d }
    }

    /// Whether the number is below one.
    pub fn is_below_one(&self) -> (r: bool)
        requires
            self.wf(),
        ensures
            r == self.below_one(),
    {
        (self.value as u128) < ten_to_the(self.decimals)
    }
}

} // verus!
