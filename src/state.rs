use vstd::prelude::*;
use crate::amp_factor::AmpFactor;
use crate::pool_fee::{PoolFee, fees_below_one};

verus! {

broadcast use vstd::array::group_array_axioms;

/// An account address.
#[derive(Debug, Clone, Copy, PartialEq, Eq)]
pub struct Key {
    pub bytes: [u8; 32],
}

impl Key {
    pub open spec fn spec_is_zero(self) -> bool {
        forall|i: int| 0 <= i < 32 ==> #[trigger] self.bytes@[i] == 0
    }

    /// The address that stands for "no account".
    pub fn zero() -> (r: Key)
        ensures
            r.spec_is_zero(),
            r == Key::spec_zero(),
    {
        let r = Key { bytes: [0u8; 32] };
        assert(r.bytes@ =~= Key::spec_zero().bytes@);
        r
    }

    pub open spec fn spec_zero() -> Key {
        Key { bytes: vstd::array::spec_array_fill_for_copy_type(0u8) }
    }

    pub fn is_zero(&self) -> (r: bool)
        ensures
            r == self.spec_is_zero(),
    {
        let mut i: usize = 0;
        while i < 32
            invariant
                i <= 32,
                forall|j: int| 0 <= j < i ==> #[trigger] self.bytes@[j] == 0,
            decreases 32 - i,
        {
            if self.bytes[i] != 0 {
                return false;
            }
            i = i + 1;
        }
        true
    }

    pub fn same(&self, other: &Key) -> (r: bool)
        ensures
            r == (*self == *other),
    {
        let mut i: usize = 0;
        while i < 32
            invariant
                i <= 32,
                forall|j: int| 0 <= j < i ==> #[trigger] self.bytes@[j] == other.bytes@[j],
            decreases 32 - i,
        {
            if self.bytes[i] != other.bytes[i] {
                return false;
            }
            i = i + 1;
        }
        assert(self.bytes@ =~= other.bytes@);
        assert(self.bytes =~= other.bytes);
        true
    }
}

/// Whether two rates are each well formed and add up to less than one.
fn fee_pair_ok(a: &PoolFee, b: &PoolFee) -> (r: bool)
    ensures
        r == (a.wf() && b.wf() && fees_below_one(a.rate, b.rate)),
{
    if a.rate.decimals > crate::decimal::MAX_DECIMALS || b.rate.decimals > crate::decimal::MAX_DECIMALS {
        return false;
    }
    a.rate.is_below_one() && b.rate.is_below_one() && crate::pool_fee::fees_sum_below_one(&a.rate, &b.rate)
}

/// The largest spread between the decimals of the pool's mints.
pub const MAX_DECIMAL_DIFFERENCE: u8 = 8;

/// The persistent record of one pool.
#[derive(Debug, Clone)]
pub struct PoolState {
    pub nonce: u8,
    pub is_paused: bool,
    pub amp_factor: AmpFactor,
    pub lp_fee: PoolFee,
    pub governance_fee: PoolFee,
    pub lp_mint_key: Key,
    pub lp_decimal_equalizer: u8,
    pub token_mint_keys: Vec<Key>,
    pub token_decimal_equalizers: Vec<u8>,
    pub token_keys: Vec<Key>,
    pub governance_key: Key,
    pub governance_fee_key: Key,
    pub prepared_governance_key: Key,
    pub governance_transition_ts: i64,
    pub prepared_lp_fee: PoolFee,
    pub prepared_governance_fee: PoolFee,
    pub fee_transition_ts: i64,
    pub previous_depth: u128,
}

impl PoolState {
    /// The record's invariant, for a pool of `n` tokens.
    pub open spec fn wf(&self, n: nat) -> bool {
        &&& self.amp_factor.wf()
        &&& self.lp_fee.wf()
        &&& self.governance_fee.wf()
        &&& fees_below_one(self.lp_fee.rate, self.governance_fee.rate)
        &&& self.governance_fee.rate.value != 0 ==> !self.governance_fee_key.spec_is_zero()
        &&& self.prepared_lp_fee.wf()
        &&& self.prepared_governance_fee.wf()
        &&& fees_below_one(self.prepared_lp_fee.rate, self.prepared_governance_fee.rate)
        &&& self.lp_decimal_equalizer <= MAX_DECIMAL_DIFFERENCE
        &&& self.token_mint_keys@.len() == n
        &&& self.token_decimal_equalizers@.len() == n
        &&& self.token_keys@.len() == n
        &&& forall|i: int| 0 <= i < n ==> self.token_decimal_equalizers@[i] <= MAX_DECIMAL_DIFFERENCE
    }

    /// Whether the record has been written by an initialization.
    pub open spec fn spec_is_initialized(&self) -> bool {
        !self.lp_mint_key.spec_is_zero()
    }

    /// Whether the record holds its invariant for a pool of `n` tokens.
    pub fn check_wf(&self, n: usize) -> (r: bool)
        ensures
            r == self.wf(n as nat),
    {
        let amp = &self.amp_factor;
        if !crate::amp_factor::is_in_amp_range(&amp.initial_value) || !crate::amp_factor::is_in_amp_range(
            &amp.target_value,
        ) || amp.initial_ts > amp.target_ts || (amp.initial_ts == amp.target_ts
            && amp.initial_value != amp.target_value) {
            return false;
        }
        if !fee_pair_ok(&self.lp_fee, &self.governance_fee) || !fee_pair_ok(
            &self.prepared_lp_fee,
            &self.prepared_governance_fee,
        ) {
            return false;
        }
        if self.governance_fee.rate.value != 0 && self.governance_fee_key.is_zero() {
            return false;
        }
        if self.lp_decimal_equalizer > MAX_DECIMAL_DIFFERENCE || self.token_mint_keys.len() != n
            || self.token_decimal_equalizers.len() != n || self.token_keys.len() != n {
            return false;
        }
        let mut i: usize = 0;
        while i < n
            invariant
                i <= n == self.token_decimal_equalizers@.len(),
                forall|j: int| 0 <= j < i ==> #[trigger] self.token_decimal_equalizers@[j] <= MAX_DECIMAL_DIFFERENCE,
            decreases n - i,
        {
            if self.token_decimal_equalizers[i] > MAX_DECIMAL_DIFFERENCE {
                return false;
            }
            i = i + 1;
        }
        true
    }

    pub fn is_initialized(&self) -> (r: bool)
        ensures
            r == self.spec_is_initialized(),
    {
        !self.lp_mint_key.is_zero()
    }
}

} // verus!
