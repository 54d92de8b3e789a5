use vstd::prelude::*;
use crate::amp_factor::{AmpFactor, in_amp_range};
use crate::authority::program_address;
use crate::decimal::{DecimalU64, MAX_DECIMALS};
use crate::error::PoolError;
use crate::pool_fee::{PoolFee, fees_below_one, fees_sum_below_one};
use crate::processor::{Processor, TokenAccountInfo};
use crate::state::{Key, MAX_DECIMAL_DIFFERENCE, PoolState};

verus! {

/// A mint as the ledger reports it.
#[derive(Debug, Clone, Copy)]
pub struct MintInfo {
    pub key: Key,
    pub supply: u64,
    pub decimals: u8,
    pub mint_authority: Option<Key>,
    pub has_freeze_authority: bool,
}

/// The accounts that an initialization names, in the order they are handed over.
pub struct InitAccounts {
    pub pool_key: Key,
    pub pool_is_rent_exempt: bool,
    pub pool_is_initialized: bool,
    pub lp_mint: MintInfo,
    pub token_mints: Vec<MintInfo>,
    pub token_accounts: Vec<TokenAccountInfo>,
    pub governance_key: Key,
    pub governance_fee_key: Key,
    /// The mint of the governance fee account's tokens, where it is a token account.
    pub governance_fee_mint: Option<Key>,
}

/// Every key of the initialization, in order.
pub open spec fn init_keys(acc: InitAccounts) -> Seq<Key> {
    seq![acc.pool_key, acc.lp_mint.key] + acc.token_mints@.map_values(|m: MintInfo| m.key) + acc.token_accounts@.map_values(
        |t: TokenAccountInfo| t.key,
    ) + seq![acc.governance_key, acc.governance_fee_key]
}

/// No non-zero key appears twice.
pub open spec fn nonzero_unique(keys: Seq<Key>) -> bool {
    forall|i: int, j: int|
        0 <= i < j < keys.len() && !keys[i].spec_is_zero() ==> #[trigger] keys[i] != #[trigger] keys[j]
}

/// The largest of `first` and the decimals of `mints[0..k]`.
pub open spec fn max_decimals(first: u8, mints: Seq<MintInfo>, k: nat) -> u8
    decreases k,
{
    if k == 0 {
        first
    } else {
        let m = max_decimals(first, mints, (k - 1) as nat);
        if mints[k - 1].decimals > m {
            mints[k - 1].decimals
        } else {
            m
        }
    }
}

/// The smallest of `first` and the decimals of `mints[0..k]`.
pub open spec fn min_decimals(first: u8, mints: Seq<MintInfo>, k: nat) -> u8
    decreases k,
{
    if k == 0 {
        first
    } else {
        let m = min_decimals(first, mints, (k - 1) as nat);
        if mints[k - 1].decimals < m {
            mints[k - 1].decimals
        } else {
            m
        }
    }
}

/// Whether a vault fails its checks, and with which error.
pub open spec fn vault_error(t: TokenAccountInfo, mint: Key, authority: Key) -> Option<PoolError> {
    if t.mint != mint {
        Some(PoolError::MintMismatch)
    } else if t.owner != authority {
        Some(PoolError::OwnerMismatch)
    } else if t.amount != 0 {
        Some(PoolError::TokenAccountHasBalance)
    } else if t.has_delegate {
        Some(PoolError::TokenAccountHasDelegate)
    } else if t.has_close_authority {
        Some(PoolError::TokenAccountHasCloseAuthority)
    } else {
        None
    }
}

/// The first vault that fails its checks, among the first `k`.
pub open spec fn first_vault_error(acc: InitAccounts, authority: Key, k: nat) -> Option<PoolError>
    decreases k,
{
    if k == 0 {
        None
    } else {
        match first_vault_error(acc, authority, (k - 1) as nat) {
            Some(e) => Some(e),
            None => vault_error(acc.token_accounts@[k - 1], acc.token_mints@[k - 1].key, authority),
        }
    }
}

/// Why an initialization is refused, if it is.
pub open spec fn init_error(
    nonce: u8,
    amp_factor: DecimalU64,
    lp_fee: DecimalU64,
    governance_fee: DecimalU64,
    program_id: Key,
    acc: InitAccounts,
) -> Option<PoolError> {
    let n = acc.token_mints@.len();
    let hi = max_decimals(acc.lp_mint.decimals, acc.token_mints@, n);
    let lo = min_decimals(acc.lp_mint.decimals, acc.token_mints@, n);
    if !(lp_fee.wf() && governance_fee.wf() && fees_below_one(lp_fee, governance_fee)) {
        Some(PoolError::InvalidFeeInput)
    } else if !acc.pool_is_rent_exempt {
        Some(PoolError::AccountNotRentExempt)
    } else if acc.pool_is_initialized {
        Some(PoolError::AccountAlreadyInitialized)
    } else {
        match program_address(acc.pool_key, nonce, program_id) {
            None => Some(PoolError::IncorrectProgramId),
            Some(authority) => if !nonzero_unique(init_keys(acc).subrange(0, 2)) {
                Some(PoolError::DuplicateAccount)
            } else if acc.lp_mint.supply != 0 {
                Some(PoolError::MintHasBalance)
            } else if acc.lp_mint.mint_authority != Some(authority) {
                Some(PoolError::InvalidMintAuthority)
            } else if acc.lp_mint.has_freeze_authority {
                Some(PoolError::MintHasFreezeAuthority)
            } else if !nonzero_unique(init_keys(acc).subrange(0, 2 + 2 * (n as int))) {
                Some(PoolError::DuplicateAccount)
            } else if hi - lo > MAX_DECIMAL_DIFFERENCE {
                Some(PoolError::MaxDecimalDifferenceExceeded)
            } else if first_vault_error(acc, authority, n) is Some {
                first_vault_error(acc, authority, n)
            } else if !nonzero_unique(init_keys(acc)) {
                Some(PoolError::DuplicateAccount)
            } else if governance_fee.value != 0 && acc.governance_fee_key.spec_is_zero() {
                Some(PoolError::InvalidGovernanceFeeAccount)
            } else if (governance_fee.value != 0 || !acc.governance_fee_key.spec_is_zero())
                && acc.governance_fee_mint != Some(acc.lp_mint.key) {
                Some(PoolError::MintMismatch)
            } else if !in_amp_range(amp_factor) {
                Some(PoolError::InvalidAmpFactorValue)
            } else {
                None
            },
        }
    }
}

/// The record an initialization writes.
pub open spec fn initial_state(
    nonce: u8,
    amp_factor: DecimalU64,
    lp_fee: DecimalU64,
    governance_fee: DecimalU64,
    acc: InitAccounts,
    s: PoolState,
) -> bool {
    let n = acc.token_mints@.len();
    let hi = max_decimals(acc.lp_mint.decimals, acc.token_mints@, n);
    &&& s.nonce == nonce
    &&& !s.is_paused
    &&& s.amp_factor == (AmpFactor { initial_value: amp_factor, initial_ts: 0, target_value: amp_factor, target_ts: 0 })
    &&& s.lp_fee == PoolFee { rate: lp_fee }
    &&& s.governance_fee == PoolFee { rate: governance_fee }
    &&& s.lp_mint_key == acc.lp_mint.key
    &&& s.lp_decimal_equalizer == hi - acc.lp_mint.decimals
    &&& s.token_mint_keys@ == acc.token_mints@.map_values(|m: MintInfo| m.key)
    &&& s.token_decimal_equalizers@ == acc.token_mints@.map_values(|m: MintInfo| (hi - m.decimals) as u8)
    &&& s.token_keys@ == acc.token_accounts@.map_values(|t: TokenAccountInfo| t.key)
    &&& s.governance_key == acc.governance_key
    &&& s.governance_fee_key == acc.governance_fee_key
    &&& s.prepared_governance_key == Key::spec_zero()
    &&& s.governance_transition_ts == 0
    &&& s.prepared_lp_fee == PoolFee::spec_zero()
    &&& s.prepared_governance_fee == PoolFee::spec_zero()
    &&& s.fee_transition_ts == 0
    &&& s.previous_depth == 0
}

fn find_duplicate(keys: &Vec<Key>) -> (r: bool)
    ensures
        r == !nonzero_unique(keys@),
{
    let mut i: usize = 0;
    while i < keys.len()
        invariant
            i <= keys.len(),
            forall|a: int, b: int|
                0 <= a < i && a < b < keys.len() && !keys@[a].spec_is_zero() ==> #[trigger] keys@[a]
                    != #[trigger] keys@[b],
        decreases keys.len() - i,
    {
        if !keys[i].is_zero() {
            let mut j: usize = i + 1;
            while j < keys.len()
                invariant
                    i < keys.len(),
                    i < j <= keys.len(),
                    !keys@[i as int].spec_is_zero(),
                    forall|a: int, b: int|
                        0 <= a < i && a < b < keys.len() && !keys@[a].spec_is_zero() ==> #[trigger] keys@[a]
                            != #[trigger] keys@[b],
                    forall|b: int| i < b < j ==> keys@[i as int] != #[trigger] keys@[b],
                decreases keys.len() - j,
            {
                if keys[i].same(&keys[j]) {
                    return true;
                }
                j = j + 1;
            }
        }
        i = i + 1;
    }
    false
}

impl<const TOKEN_COUNT: usize> Processor<TOKEN_COUNT> {
    /// The first check of an initialization: the two fee rates add up to less than one.
    pub fn check_init_fees(lp_fee: &DecimalU64, governance_fee: &DecimalU64) -> (r: Result<(), PoolError>)
        ensures
            (lp_fee.wf() && governance_fee.wf() && fees_below_one(*lp_fee, *governance_fee)) ==> r is Ok,
            !(lp_fee.wf() && governance_fee.wf() && fees_below_one(*lp_fee, *governance_fee)) ==> r
                == Err::<(), PoolError>(PoolError::InvalidFeeInput),
    {
        if lp_fee.decimals > MAX_DECIMALS || governance_fee.decimals > MAX_DECIMALS || !fees_sum_below_one(
            lp_fee,
            governance_fee,
        ) {
            return Err(PoolError::InvalidFeeInput);
        }
        Ok(())
    }

    /// Validates a new pool's accounts and writes its first record.
    #[verifier::rlimit(40)]
    pub fn process_init(
        nonce: u8,
        amp_factor: DecimalU64,
        lp_fee: DecimalU64,
        governance_fee: DecimalU64,
        program_id: &Key,
        accounts: &InitAccounts,
    ) -> (r: Result<PoolState, PoolError>)
        requires
            accounts.token_mints.len() == TOKEN_COUNT,
            accounts.token_accounts.len() == TOKEN_COUNT,
        ensures
            match init_error(nonce, amp_factor, lp_fee, governance_fee, *program_id, *accounts) {
                Some(e) => r == Err::<PoolState, PoolError>(e),
                None => r is Ok && initial_state(nonce, amp_factor, lp_fee, governance_fee, *accounts, r->Ok_0)
                    && r->Ok_0.wf(TOKEN_COUNT as nat),
            },
    {
        if lp_fee.decimals > MAX_DECIMALS || governance_fee.decimals > MAX_DECIMALS || !fees_sum_below_one(
            &lp_fee,
            &governance_fee,
        ) {
            return Err(PoolError::InvalidFeeInput);
        }
        proof {
            crate::pool_fee::lemma_each_below_one(lp_fee, governance_fee);
        }
        if !accounts.pool_is_rent_exempt {
            return Err(PoolError::AccountNotRentExempt);
        }
        if accounts.pool_is_initialized {
            return Err(PoolError::AccountAlreadyInitialized);
        }
        let mut keys: Vec<Key> = Vec::new();
        keys.push(accounts.pool_key);
        keys.push(accounts.lp_mint.key);
        let mut mint_keys: Vec<Key> = Vec::new();
        let mut i: usize = 0;
        while i < TOKEN_COUNT
            invariant
                i <= TOKEN_COUNT == accounts.token_mints.len(),
                mint_keys@ == accounts.token_mints@.subrange(0, i as int).map_values(|m: MintInfo| m.key),
            decreases TOKEN_COUNT - i,
        {
            mint_keys.push(accounts.token_mints[i].key);
            assert(accounts.token_mints@.subrange(0, i + 1) =~= accounts.token_mints@.subrange(0, i as int).push(
                accounts.token_mints@[i as int],
            ));
            i = i + 1;
        }
        assert(accounts.token_mints@.subrange(0, TOKEN_COUNT as int) =~= accounts.token_mints@);
        let mut vault_keys: Vec<Key> = Vec::new();
        let mut i: usize = 0;
        while i < TOKEN_COUNT
            invariant
                i <= TOKEN_COUNT == accounts.token_accounts.len(),
                vault_keys@ == accounts.token_accounts@.subrange(0, i as int).map_values(
                    |t: TokenAccountInfo| t.key,
                ),
            decreases TOKEN_COUNT - i,
        {
            vault_keys.push(accounts.token_accounts[i].key);
            assert(accounts.token_accounts@.subrange(0, i + 1) =~= accounts.token_accounts@.subrange(
                0,
                i as int,
            ).push(accounts.token_accounts@[i as int]));
            i = i + 1;
        }
        assert(accounts.token_accounts@.subrange(0, TOKEN_COUNT as int) =~= accounts.token_accounts@);
        let mut all = keys;
        let mut i: usize = 0;
        while i < mint_keys.len()
            invariant
                i <= mint_keys.len(),
                all@ == seq![accounts.pool_key, accounts.lp_mint.key] + mint_keys@.subrange(0, i as int),
            decreases mint_keys.len() - i,
        {
            all.push(mint_keys[i]);
            assert(mint_keys@.subrange(0, i + 1) =~= mint_keys@.subrange(0, i as int).push(mint_keys@[i as int]));
            i = i + 1;
        }
        let mut i: usize = 0;
        while i < vault_keys.len()
            invariant
                i <= vault_keys.len(),
                all@ == seq![accounts.pool_key, accounts.lp_mint.key] + mint_keys@ + vault_keys@.subrange(
                    0,
                    i as int,
                ),
            decreases vault_keys.len() - i,
        {
            all.push(vault_keys[i]);
            assert(vault_keys@.subrange(0, i + 1) =~= vault_keys@.subrange(0, i as int).push(vault_keys@[i as int]));
            i = i + 1;
        }
        assert(mint_keys@.subrange(0, mint_keys.len() as int) =~= mint_keys@);
        assert(vault_keys@.subrange(0, vault_keys.len() as int) =~= vault_keys@);
        assert(all@ =~= init_keys(*accounts).subrange(0, 2 + 2 * TOKEN_COUNT));
        let dup_mid = find_duplicate(&all);
        all.push(accounts.governance_key);
        all.push(accounts.governance_fee_key);
        assert(all@ =~= init_keys(*accounts));
        let dup_all = find_duplicate(&all);
        let first_two = vec![accounts.pool_key, accounts.lp_mint.key];
        assert(first_two@ =~= init_keys(*accounts).subrange(0, 2));
        let dup_first = find_duplicate(&first_two);
        let authority = Self::get_pool_authority(&accounts.pool_key, nonce, program_id)?;
        if dup_first {
            return Err(PoolError::DuplicateAccount);
        }
        let lp = &accounts.lp_mint;
        if lp.supply != 0 {
            return Err(PoolError::MintHasBalance);
        }
        match lp.mint_authority {
            None => {
                return Err(PoolError::InvalidMintAuthority);
            },
            Some(a) => {
                if !a.same(&authority) {
                    return Err(PoolError::InvalidMintAuthority);
                }
            },
        }
        if lp.has_freeze_authority {
            return Err(PoolError::MintHasFreezeAuthority);
        }
        if dup_mid {
            return Err(PoolError::DuplicateAccount);
        }
        let mut hi: u8 = lp.decimals;
        let mut lo: u8 = lp.decimals;
        let mut i: usize = 0;
        while i < TOKEN_COUNT
            invariant
                i <= TOKEN_COUNT == accounts.token_mints.len(),
                hi == max_decimals(accounts.lp_mint.decimals, accounts.token_mints@, i as nat),
                lo == min_decimals(accounts.lp_mint.decimals, accounts.token_mints@, i as nat),
                lo <= hi,
            decreases TOKEN_COUNT - i,
        {
            let d = accounts.token_mints[i].decimals;
            if d > hi {
                hi = d;
            }
            if d < lo {
                lo = d;
            }
            i = i + 1;
        }
        if hi - lo > MAX_DECIMAL_DIFFERENCE {
            return Err(PoolError::MaxDecimalDifferenceExceeded);
        }
        let mut i: usize = 0;
        while i < TOKEN_COUNT
            invariant
                i <= TOKEN_COUNT == accounts.token_mints.len() == accounts.token_accounts.len(),
                first_vault_error(*accounts, authority, i as nat) is None,
                lp_fee.wf() && governance_fee.wf() && fees_below_one(lp_fee, governance_fee),
                accounts.pool_is_rent_exempt && !accounts.pool_is_initialized,
                nonzero_unique(init_keys(*accounts).subrange(0, 2)),
                nonzero_unique(init_keys(*accounts).subrange(0, 2 + 2 * TOKEN_COUNT)),
                program_address(accounts.pool_key, nonce, *program_id) == Some(authority),
                accounts.lp_mint.supply == 0,
                accounts.lp_mint.mint_authority == Some(authority),
                !accounts.lp_mint.has_freeze_authority,
                hi == max_decimals(accounts.lp_mint.decimals, accounts.token_mints@, TOKEN_COUNT as nat),
                lo == min_decimals(accounts.lp_mint.decimals, accounts.token_mints@, TOKEN_COUNT as nat),
                hi - lo <= MAX_DECIMAL_DIFFERENCE,
            decreases TOKEN_COUNT - i,
        {
            let t = &accounts.token_accounts[i];
            proof {
                lemma_first_vault_error(*accounts, authority, i as nat, TOKEN_COUNT as nat);
            }
            if !t.mint.same(&accounts.token_mints[i].key) {
                return Err(PoolError::MintMismatch);
            }
            if !t.owner.same(&authority) {
                return Err(PoolError::OwnerMismatch);
            }
            if t.amount != 0 {
                return Err(PoolError::TokenAccountHasBalance);
            }
            if t.has_delegate {
                return Err(PoolError::TokenAccountHasDelegate);
            }
            if t.has_close_authority {
                return Err(PoolError::TokenAccountHasCloseAuthority);
            }
            i = i + 1;
        }
        if dup_all {
            return Err(PoolError::DuplicateAccount);
        }
        if governance_fee.value != 0 && accounts.governance_fee_key.is_zero() {
            return Err(PoolError::InvalidGovernanceFeeAccount);
        }
        if governance_fee.value != 0 || !accounts.governance_fee_key.is_zero() {
            match accounts.governance_fee_mint {
                None => {
                    return Err(PoolError::MintMismatch);
                },
                Some(m) => {
                    if !m.same(&lp.key) {
                        return Err(PoolError::MintMismatch);
                    }
                },
            }
        }
        let amp = AmpFactor::new(amp_factor)?;
        assert(init_error(nonce, amp_factor, lp_fee, governance_fee, *program_id, *accounts) is None);
        let mut equalizers: Vec<u8> = Vec::new();
        let mut i: usize = 0;
        while i < TOKEN_COUNT
            invariant
                i <= TOKEN_COUNT == accounts.token_mints.len(),
                hi == max_decimals(accounts.lp_mint.decimals, accounts.token_mints@, TOKEN_COUNT as nat),
                lo == min_decimals(accounts.lp_mint.decimals, accounts.token_mints@, TOKEN_COUNT as nat),
                hi - lo <= MAX_DECIMAL_DIFFERENCE,
                equalizers@ == accounts.token_mints@.subrange(0, i as int).map_values(
                    |m: MintInfo| (hi - m.decimals) as u8,
                ),
                forall|j: int| 0 <= j < i ==> #[trigger] equalizers@[j] <= MAX_DECIMAL_DIFFERENCE,
            decreases TOKEN_COUNT - i,
        {
            proof {
                lemma_decimals_in_range(accounts.lp_mint.decimals, accounts.token_mints@, TOKEN_COUNT as nat, i as int);
            }
            equalizers.push(hi - accounts.token_mints[i].decimals);
            assert(accounts.token_mints@.subrange(0, i + 1) =~= accounts.token_mints@.subrange(0, i as int).push(
                accounts.token_mints@[i as int],
            ));
            i = i + 1;
        }
        assert(accounts.token_mints@.subrange(0, TOKEN_COUNT as int) =~= accounts.token_mints@);
        proof {
            lemma_decimals_in_range(accounts.lp_mint.decimals, accounts.token_mints@, TOKEN_COUNT as nat, -1);
        }
        let state = PoolState {
            nonce,
            is_paused: false,
            amp_factor: amp,
            lp_fee: PoolFee { rate: lp_fee },
            governance_fee: PoolFee { rate: governance_fee },
            lp_mint_key: lp.key,
            lp_decimal_equalizer: hi - lp.decimals,
            token_mint_keys: mint_keys,
            token_decimal_equalizers: equalizers,
            token_keys: vault_keys,
            governance_key: accounts.governance_key,
            governance_fee_key: accounts.governance_fee_key,
            prepared_governance_key: Key::zero(),
            governance_transition_ts: 0,
            prepared_lp_fee: PoolFee::zero(),
            prepared_governance_fee: PoolFee::zero(),
            fee_transition_ts: 0,
            previous_depth: 0,
        };
        proof {
            crate::pool_fee::lemma_zero_pair();
            assert(state.token_decimal_equalizers@.len() == TOKEN_COUNT);
            assert(state.lp_decimal_equalizer <= MAX_DECIMAL_DIFFERENCE);
            assert(state.wf(TOKEN_COUNT as nat));
            assert(initial_state(nonce, amp_factor, lp_fee, governance_fee, *accounts, state));
        }
        Ok(state)
    }
}

/// Once the vaults below `i` pass, the first error among the first `k > i` is
/// that of vault `i`, if it has one.
proof fn lemma_first_vault_error(acc: InitAccounts, authority: Key, i: nat, k: nat)
    requires
        i < k,
        first_vault_error(acc, authority, i) is None,
    ensures
        vault_error(acc.token_accounts@[i as int], acc.token_mints@[i as int].key, authority) is Some
            ==> first_vault_error(acc, authority, k) == vault_error(
            acc.token_accounts@[i as int],
            acc.token_mints@[i as int].key,
            authority,
        ),
    decreases k,
{
    if k > i + 1 {
        lemma_first_vault_error(acc, authority, i, (k - 1) as nat);
    }
}

/// Every decimal lies between the minimum and the maximum (index `-1` stands for `first`).
proof fn lemma_decimals_in_range(first: u8, mints: Seq<MintInfo>, k: nat, i: int)
    requires
        k <= mints.len(),
        -1 <= i < k,
    ensures
        min_decimals(first, mints, k) <= (if i < 0 { first } else { mints[i].decimals }) <= max_decimals(
            first,
            mints,
            k,
        ),
    decreases k,
{
    if k > 0 && i < k - 1 {
        lemma_decimals_in_range(first, mints, (k - 1) as nat, i);
    }
}

} // verus!
