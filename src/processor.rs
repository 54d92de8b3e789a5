use vstd::prelude::*;
use crate::decimal::DecimalU64;
use crate::error::PoolError;
use crate::authority::{derive_program_address, program_address};
use crate::defi::{
    DeFiReport, add_report, all_zero, any_at_or_above, any_zero, array_to_vec, has_at_or_above, has_zero, is_all_zero,
    add_status, remove_burn_status, remove_output_status, swap_input_status, swap_output_status, uniform_status,
    process_add, process_remove_exact_burn, process_remove_exact_output, process_remove_uniform,
    process_swap_exact_input, process_swap_exact_output, remove_burn_report, remove_output_report, swap_input_report,
    swap_output_report, uniform_report,
};
use crate::instruction::{DeFiInstruction, GovernanceInstruction};
use crate::pool_fee::{PoolFee, fees_below_one, fees_sum_below_one};
use crate::state::{Key, PoolState};

verus! {

/// The wait between preparing and enacting a governance change, in seconds.
pub const ENACT_DELAY: i64 = 3 * 86400;
/// The latest time at which an operation can run.
pub const MAX_TIMESTAMP: i64 = 9_223_372_036_854_775_807 - ENACT_DELAY;

/// A token account as the ledger reports it.
#[derive(Debug, Clone, Copy)]
pub struct TokenAccountInfo {
    pub key: Key,
    pub mint: Key,
    pub owner: Key,
    pub amount: u64,
    pub has_delegate: bool,
    pub has_close_authority: bool,
}

/// The accounts that a DeFi operation names.
pub struct DeFiAccounts {
    pub pool_key: Key,
    pub pool_authority: Key,
    pub pool_token_accounts: Vec<Key>,
    pub lp_mint: Key,
    pub governance_fee_account: Key,
}

/// Why the accounts handed to a DeFi operation are refused, if they are.
pub open spec fn account_error(uniform: bool, s: PoolState, acc: DeFiAccounts, program_id: Key) -> Option<PoolError> {
    if s.is_paused && !uniform {
        Some(PoolError::PoolIsPaused)
    } else {
        match program_address(acc.pool_key, s.nonce, program_id) {
            None => Some(PoolError::IncorrectProgramId),
            Some(a) => if a != acc.pool_authority {
                Some(PoolError::InvalidPoolAuthorityAccount)
            } else if acc.pool_token_accounts@ != s.token_keys@ {
                Some(PoolError::PoolTokenAccountExpected)
            } else if acc.lp_mint != s.lp_mint_key {
                Some(PoolError::InvalidMintAccount)
            } else if acc.governance_fee_account != s.governance_fee_key {
                Some(PoolError::InvalidGovernanceFeeAccount)
            } else {
                None
            },
        }
    }
}

/// Why the inputs of a DeFi operation are refused, if they are.
pub open spec fn input_error<const N: usize>(ix: DeFiInstruction<N>, balances: Seq<u64>, supply: int) -> Option<PoolError> {
    let bad = Some(PoolError::InvalidInstructionData);
    match ix {
        DeFiInstruction::Add { input_amounts, minimum_mint_amount } => {
            if all_zero(input_amounts@) {
                bad
            } else if supply == 0 && any_zero(input_amounts@) {
                Some(PoolError::AddRequiresAllTokens)
            } else {
                None
            }
        },
        DeFiInstruction::SwapExactInput { exact_input_amounts, output_token_index, minimum_output_amount } => {
            if all_zero(exact_input_amounts@) || output_token_index >= N || exact_input_amounts@[output_token_index as int]
                != 0 {
                bad
            } else {
                None
            }
        },
        DeFiInstruction::SwapExactOutput { maximum_input_amount, input_token_index, exact_output_amounts } => {
            if all_zero(exact_output_amounts@) || input_token_index >= N || exact_output_amounts@[input_token_index as int]
                != 0 || any_at_or_above(exact_output_amounts@, balances) {
                bad
            } else {
                None
            }
        },
        DeFiInstruction::RemoveUniform { exact_burn_amount, minimum_output_amounts } => {
            if exact_burn_amount == 0 || exact_burn_amount > supply {
                bad
            } else {
                None
            }
        },
        DeFiInstruction::RemoveExactBurn { exact_burn_amount, output_token_index, minimum_output_amount } => {
            if output_token_index >= N || exact_burn_amount == 0 || exact_burn_amount >= supply {
                bad
            } else {
                None
            }
        },
        DeFiInstruction::RemoveExactOutput { maximum_burn_amount, exact_output_amounts } => {
            if all_zero(exact_output_amounts@) || maximum_burn_amount == 0 || any_at_or_above(
                exact_output_amounts@,
                balances,
            ) {
                bad
            } else {
                None
            }
        },
    }
}

pub open spec fn is_uniform<const N: usize>(ix: DeFiInstruction<N>) -> bool {
    ix is RemoveUniform
}

/// Why a DeFi operation is refused before any computation, if it is.
pub open spec fn defi_precheck<const N: usize>(
    ix: DeFiInstruction<N>,
    s: PoolState,
    acc: DeFiAccounts,
    program_id: Key,
    balances: Seq<u64>,
    supply: int,
) -> Option<PoolError> {
    match account_error(is_uniform(ix), s, acc, program_id) {
        Some(e) => Some(e),
        None => input_error(ix, balances, supply),
    }
}

/// Whether a DeFi operation that passed its checks goes through, or why not.
pub open spec fn defi_status<const N: usize>(
    ix: DeFiInstruction<N>,
    s: PoolState,
    amp: DecimalU64,
    balances: Seq<u64>,
    supply: int,
) -> Result<(), PoolError> {
    match ix {
        DeFiInstruction::Add { input_amounts, minimum_mint_amount } => add_status(
            s,
            amp,
            balances,
            supply,
            input_amounts@,
            minimum_mint_amount as int,
        ),
        DeFiInstruction::SwapExactInput { exact_input_amounts, output_token_index, minimum_output_amount } =>
            swap_input_status(
            s,
            amp,
            balances,
            supply,
            exact_input_amounts@,
            output_token_index as int,
            minimum_output_amount as int,
        ),
        DeFiInstruction::SwapExactOutput { maximum_input_amount, input_token_index, exact_output_amounts } =>
            swap_output_status(
            s,
            amp,
            balances,
            supply,
            maximum_input_amount as int,
            input_token_index as int,
            exact_output_amounts@,
        ),
        DeFiInstruction::RemoveUniform { exact_burn_amount, minimum_output_amounts } => uniform_status(
            balances,
            supply,
            exact_burn_amount as int,
            minimum_output_amounts@,
        ),
        DeFiInstruction::RemoveExactBurn { exact_burn_amount, output_token_index, minimum_output_amount } =>
            remove_burn_status(
            s,
            amp,
            balances,
            supply,
            exact_burn_amount as int,
            output_token_index as int,
            minimum_output_amount as int,
        ),
        DeFiInstruction::RemoveExactOutput { maximum_burn_amount, exact_output_amounts } => remove_output_status(
            s,
            amp,
            balances,
            supply,
            maximum_burn_amount as int,
            exact_output_amounts@,
        ),
    }
}

/// What a DeFi operation that passed its checks reports.
pub open spec fn defi_report<const N: usize>(
    ix: DeFiInstruction<N>,
    s: PoolState,
    amp: DecimalU64,
    balances: Seq<u64>,
    supply: int,
    rep: DeFiReport,
) -> bool {
    match ix {
        DeFiInstruction::Add { input_amounts, minimum_mint_amount } => add_report(
            s,
            amp,
            balances,
            supply,
            input_amounts@,
            minimum_mint_amount as int,
            rep,
        ),
        DeFiInstruction::SwapExactInput { exact_input_amounts, output_token_index, minimum_output_amount } =>
            swap_input_report(
            s,
            amp,
            balances,
            supply,
            exact_input_amounts@,
            output_token_index as int,
            minimum_output_amount as int,
            rep,
        ),
        DeFiInstruction::SwapExactOutput { maximum_input_amount, input_token_index, exact_output_amounts } =>
            swap_output_report(
            s,
            amp,
            balances,
            supply,
            maximum_input_amount as int,
            input_token_index as int,
            exact_output_amounts@,
            rep,
        ),
        DeFiInstruction::RemoveUniform { exact_burn_amount, minimum_output_amounts } => uniform_report(
            s,
            balances,
            supply,
            exact_burn_amount as int,
            minimum_output_amounts@,
            rep,
        ),
        DeFiInstruction::RemoveExactBurn { exact_burn_amount, output_token_index, minimum_output_amount } =>
            remove_burn_report(
            s,
            amp,
            balances,
            supply,
            exact_burn_amount as int,
            output_token_index as int,
            minimum_output_amount as int,
            rep,
        ),
        DeFiInstruction::RemoveExactOutput { maximum_burn_amount, exact_output_amounts } => remove_output_report(
            s,
            amp,
            balances,
            supply,
            maximum_burn_amount as int,
            exact_output_amounts@,
            rep,
        ),
    }
}

/// The pool's operations, over a fixed number of tokens.
pub struct Processor<const TOKEN_COUNT: usize>;

pub open spec fn zero_fee() -> PoolFee {
    PoolFee { rate: DecimalU64 { value: 0, decimals: 0 } }
}

pub open spec fn zero_key() -> Key {
    Key::spec_zero()
}

/// The outcome of a governance instruction: what it returns, and the record afterwards.
pub open spec fn governance_transition<const N: usize>(
    s: PoolState,
    ix: GovernanceInstruction<N>,
    signer: Key,
    is_signer: bool,
    now: int,
    fee_account: Option<TokenAccountInfo>,
) -> (Result<(), PoolError>, PoolState) {
    if signer != s.governance_key {
        (Err(PoolError::InvalidGovernanceAccount), s)
    } else if !is_signer {
        (Err(PoolError::MissingRequiredSignature), s)
    } else {
        match ix {
            GovernanceInstruction::PrepareFeeChange { lp_fee, governance_fee } => {
                if !(lp_fee.wf() && governance_fee.wf() && fees_below_one(lp_fee, governance_fee)) {
                    (Err(PoolError::InvalidFeeInput), s)
                } else {
                    (
                        Ok(()),
                        PoolState {
                            prepared_lp_fee: PoolFee { rate: lp_fee },
                            prepared_governance_fee: PoolFee { rate: governance_fee },
                            fee_transition_ts: (now + ENACT_DELAY) as i64,
                            ..s
                        },
                    )
                }
            },
            GovernanceInstruction::EnactFeeChange {  } => {
                if s.fee_transition_ts == 0 {
                    (Err(PoolError::InvalidEnact), s)
                } else if s.fee_transition_ts > now {
                    (Err(PoolError::InsufficientDelay), s)
                } else if s.prepared_governance_fee.rate.value > 0 && s.governance_fee_key.spec_is_zero() {
                    (Err(PoolError::InvalidGovernanceFeeAccount), s)
                } else {
                    (
                        Ok(()),
                        PoolState {
                            lp_fee: s.prepared_lp_fee,
                            governance_fee: s.prepared_governance_fee,
                            prepared_lp_fee: zero_fee(),
                            prepared_governance_fee: zero_fee(),
                            fee_transition_ts: 0,
                            ..s
                        },
                    )
                }
            },
            GovernanceInstruction::PrepareGovernanceTransition { upcoming_governance_key } => {
                (
                    Ok(()),
                    PoolState {
                        prepared_governance_key: upcoming_governance_key,
                        governance_transition_ts: (now + ENACT_DELAY) as i64,
                        ..s
                    },
                )
            },
            GovernanceInstruction::EnactGovernanceTransition {  } => {
                if s.governance_transition_ts == 0 {
                    (Err(PoolError::InvalidEnact), s)
                } else if s.governance_transition_ts > now {
                    (Err(PoolError::InsufficientDelay), s)
                } else {
                    (
                        Ok(()),
                        PoolState {
                            governance_key: s.prepared_governance_key,
                            prepared_governance_key: zero_key(),
                            governance_transition_ts: 0,
                            ..s
                        },
                    )
                }
            },
            GovernanceInstruction::ChangeGovernanceFeeAccount { governance_fee_key } => {
                if !governance_fee_key.spec_is_zero() {
                    match fee_account {
                        None => (Err(PoolError::InvalidGovernanceFeeAccount), s),
                        Some(acc) => if acc.key != governance_fee_key {
                            (Err(PoolError::InvalidGovernanceFeeAccount), s)
                        } else if acc.mint != s.lp_mint_key {
                            (Err(PoolError::MintMismatch), s)
                        } else {
                            (Ok(()), PoolState { governance_fee_key, ..s })
                        },
                    }
                } else if s.governance_fee.rate.value != 0 {
                    (Err(PoolError::InvalidGovernanceFeeAccount), s)
                } else {
                    (Ok(()), PoolState { governance_fee_key, ..s })
                }
            },
            GovernanceInstruction::AdjustAmpFactor { target_ts, target_value } => {
                match s.amp_factor.spec_retarget(now, target_value, target_ts as int) {
                    Ok(a) => (Ok(()), PoolState { amp_factor: a, ..s }),
                    Err(e) => (Err(e), s),
                }
            },
            GovernanceInstruction::SetPaused { paused } => {
                (Ok(()), PoolState { is_paused: paused, ..s })
            },
        }
    }
}

impl<const TOKEN_COUNT: usize> Processor<TOKEN_COUNT> {
    /// The pool's authority: the address derived from the pool's key and nonce.
    pub fn get_pool_authority(pool_key: &Key, nonce: u8, program_id: &Key) -> (r: Result<Key, PoolError>)
        ensures
            match program_address(*pool_key, nonce, *program_id) {
                Some(a) => r == Ok::<Key, PoolError>(a),
                None => r == Err::<Key, PoolError>(PoolError::IncorrectProgramId),
            },
    {
        match derive_program_address(pool_key, nonce, program_id) {
            Some(a) => Ok(a),
            None => Err(PoolError::IncorrectProgramId),
        }
    }

    fn check_accounts(uniform: bool, state: &PoolState, accounts: &DeFiAccounts, program_id: &Key) -> (r: Result<
        (),
        PoolError,
    >)
        requires
            state.token_keys.len() == accounts.pool_token_accounts.len(),
        ensures
            match account_error(uniform, *state, *accounts, *program_id) {
                Some(e) => r == Err::<(), PoolError>(e),
                None => r is Ok,
            },
    {
        if state.is_paused && !uniform {
            return Err(PoolError::PoolIsPaused);
        }
        let authority = Self::get_pool_authority(&accounts.pool_key, state.nonce, program_id)?;
        if !authority.same(&accounts.pool_authority) {
            return Err(PoolError::InvalidPoolAuthorityAccount);
        }
        let mut i: usize = 0;
        while i < state.token_keys.len()
            invariant
                i <= state.token_keys.len() == accounts.pool_token_accounts.len(),
                forall|j: int| 0 <= j < i ==> #[trigger] accounts.pool_token_accounts@[j] == state.token_keys@[j],
                !(state.is_paused && !uniform),
                program_address(accounts.pool_key, state.nonce, *program_id) == Some(accounts.pool_authority),
            decreases state.token_keys.len() - i,
        {
            if !accounts.pool_token_accounts[i].same(&state.token_keys[i]) {
                assert(accounts.pool_token_accounts@[i as int] != state.token_keys@[i as int]);
                return Err(PoolError::PoolTokenAccountExpected);
            }
            i = i + 1;
        }
        assert(accounts.pool_token_accounts@ =~= state.token_keys@);
        if !accounts.lp_mint.same(&state.lp_mint_key) {
            return Err(PoolError::InvalidMintAccount);
        }
        if !accounts.governance_fee_account.same(&state.governance_fee_key) {
            return Err(PoolError::InvalidGovernanceFeeAccount);
        }
        Ok(())
    }

    /// Runs a liquidity or swap operation against the pool's balances and LP supply
    /// at time `now`; on success the record keeps the new depth and the report
    /// lists the ledger movements to make, in order.
    pub fn process_defi_instruction(
        ix: DeFiInstruction<TOKEN_COUNT>,
        program_id: &Key,
        state: &mut PoolState,
        accounts: &DeFiAccounts,
        pool_balances: &Vec<u64>,
        lp_total_supply: u64,
        now: i64,
    ) -> (r: Result<DeFiReport, PoolError>)
        requires
            old(state).wf(TOKEN_COUNT as nat),
            pool_balances.len() == TOKEN_COUNT,
            accounts.pool_token_accounts.len() == TOKEN_COUNT,
        ensures
            match defi_precheck(ix, *old(state), *accounts, *program_id, pool_balances@, lp_total_supply as int) {
                Some(e) => r == Err::<DeFiReport, PoolError>(e),
                None => {
                    &&& match defi_status(
                        ix,
                        *old(state),
                        old(state).amp_factor.spec_get(now as int),
                        pool_balances@,
                        lp_total_supply as int,
                    ) {
                        Err(e) => r == Err::<DeFiReport, PoolError>(e),
                        Ok(_) => r is Ok,
                    }
                    &&& r is Ok ==> {
                        &&& defi_report(
                            ix,
                            *old(state),
                            old(state).amp_factor.spec_get(now as int),
                            pool_balances@,
                            lp_total_supply as int,
                            r->Ok_0,
                        )
                        &&& *final(state) == PoolState { previous_depth: r->Ok_0.latest_depth, ..*old(state) }
                    }
                },
            },
            r is Err ==> *final(state) == *old(state),
    {
        let uniform = match ix {
            DeFiInstruction::RemoveUniform { .. } => true,
            _ => false,
        };
        Self::check_accounts(uniform, state, accounts, program_id)?;
        let amp = state.amp_factor.get(now);
        let supply = lp_total_supply;
        let report = match ix {
            DeFiInstruction::Add { input_amounts, minimum_mint_amount } => {
                let x = array_to_vec(&input_amounts);
                if is_all_zero(&x) {
                    return Err(PoolError::InvalidInstructionData);
                }
                if supply == 0 && has_zero(&x) {
                    return Err(PoolError::AddRequiresAllTokens);
                }
                process_add(state, &amp, pool_balances, supply, &x, minimum_mint_amount)
            },
            DeFiInstruction::SwapExactInput { exact_input_amounts, output_token_index, minimum_output_amount } => {
                let x = array_to_vec(&exact_input_amounts);
                let k = output_token_index as usize;
                if is_all_zero(&x) || k >= TOKEN_COUNT || x[k] != 0 {
                    return Err(PoolError::InvalidInstructionData);
                }
                process_swap_exact_input(state, &amp, pool_balances, supply, &x, k, minimum_output_amount)
            },
            DeFiInstruction::SwapExactOutput { maximum_input_amount, input_token_index, exact_output_amounts } => {
                let x = array_to_vec(&exact_output_amounts);
                let k = input_token_index as usize;
                if is_all_zero(&x) || k >= TOKEN_COUNT || x[k] != 0 || has_at_or_above(&x, pool_balances) {
                    return Err(PoolError::InvalidInstructionData);
                }
                process_swap_exact_output(state, &amp, pool_balances, supply, maximum_input_amount, k, &x)
            },
            DeFiInstruction::RemoveUniform { exact_burn_amount, minimum_output_amounts } => {
                if exact_burn_amount == 0 || exact_burn_amount > supply {
                    return Err(PoolError::InvalidInstructionData);
                }
                let mins = array_to_vec(&minimum_output_amounts);
                process_remove_uniform(state, pool_balances, supply, exact_burn_amount, &mins)
            },
            DeFiInstruction::RemoveExactBurn { exact_burn_amount, output_token_index, minimum_output_amount } => {
                let k = output_token_index as usize;
                if k >= TOKEN_COUNT || exact_burn_amount == 0 || exact_burn_amount >= supply {
                    return Err(PoolError::InvalidInstructionData);
                }
                process_remove_exact_burn(state, &amp, pool_balances, supply, exact_burn_amount, k, minimum_output_amount)
            },
            DeFiInstruction::RemoveExactOutput { maximum_burn_amount, exact_output_amounts } => {
                let x = array_to_vec(&exact_output_amounts);
                if is_all_zero(&x) || maximum_burn_amount == 0 || has_at_or_above(&x, pool_balances) {
                    return Err(PoolError::InvalidInstructionData);
                }
                process_remove_exact_output(state, &amp, pool_balances, supply, maximum_burn_amount, &x)
            },
        };
        let report = match report {
            Ok(rep) => rep,
            Err(e) => return Err(e),
        };
        state.previous_depth = report.latest_depth;
        Ok(report)
    }

    /// Checks that `signer` is the pool's governance key and signed the operation.
    pub fn verify_governance_signature(signer: &Key, is_signer: bool, state: &PoolState) -> (r: Result<
        (),
        PoolError,
    >)
        ensures
            *signer != state.governance_key ==> r == Err::<(), PoolError>(PoolError::InvalidGovernanceAccount),
            *signer == state.governance_key && !is_signer ==> r == Err::<(), PoolError>(
                PoolError::MissingRequiredSignature,
            ),
            *signer == state.governance_key && is_signer ==> r is Ok,
    {
        if !signer.same(&state.governance_key) {
            return Err(PoolError::InvalidGovernanceAccount);
        }
        if !is_signer {
            return Err(PoolError::MissingRequiredSignature);
        }
        Ok(())
    }

    /// Applies a governance instruction, signed by `signer`, at time `now`;
    /// `fee_account` is the account that a new governance fee key names.
    pub fn process_governance_instruction(
        ix: GovernanceInstruction<TOKEN_COUNT>,
        state: &mut PoolState,
        signer: Key,
        is_signer: bool,
        now: i64,
        fee_account: Option<TokenAccountInfo>,
    ) -> (r: Result<(), PoolError>)
        requires
            old(state).wf(TOKEN_COUNT as nat),
            0 < now <= MAX_TIMESTAMP,
        ensures
            (r, *final(state)) == governance_transition(*old(state), ix, signer, is_signer, now as int, fee_account),
            final(state).wf(TOKEN_COUNT as nat),
    {
        Self::verify_governance_signature(&signer, is_signer, state)?;
        match ix {
            GovernanceInstruction::PrepareFeeChange { lp_fee, governance_fee } => {
                if lp_fee.decimals > crate::decimal::MAX_DECIMALS || governance_fee.decimals
                    > crate::decimal::MAX_DECIMALS || !fees_sum_below_one(&lp_fee, &governance_fee) {
                    return Err(PoolError::InvalidFeeInput);
                }
                proof {
                    crate::pool_fee::lemma_each_below_one(lp_fee, governance_fee);
                }
                state.prepared_lp_fee = PoolFee { rate: lp_fee };
                state.prepared_governance_fee = PoolFee { rate: governance_fee };
                state.fee_transition_ts = now + ENACT_DELAY;
            },
            GovernanceInstruction::EnactFeeChange {  } => {
                if state.fee_transition_ts == 0 {
                    return Err(PoolError::InvalidEnact);
                }
                if state.fee_transition_ts > now {
                    return Err(PoolError::InsufficientDelay);
                }
                if state.prepared_governance_fee.rate.value > 0 && state.governance_fee_key.is_zero() {
                    return Err(PoolError::InvalidGovernanceFeeAccount);
                }
                state.lp_fee = state.prepared_lp_fee;
                state.governance_fee = state.prepared_governance_fee;
                state.prepared_lp_fee = PoolFee::zero();
                state.prepared_governance_fee = PoolFee::zero();
                state.fee_transition_ts = 0;
                proof {
                    crate::pool_fee::lemma_zero_pair();
                }
            },
            GovernanceInstruction::PrepareGovernanceTransition { upcoming_governance_key } => {
                state.prepared_governance_key = upcoming_governance_key;
                state.governance_transition_ts = now + ENACT_DELAY;
            },
            GovernanceInstruction::EnactGovernanceTransition {  } => {
                if state.governance_transition_ts == 0 {
                    return Err(PoolError::InvalidEnact);
                }
                if state.governance_transition_ts > now {
                    return Err(PoolError::InsufficientDelay);
                }
                state.governance_key = state.prepared_governance_key;
                state.prepared_governance_key = Key::zero();
                state.governance_transition_ts = 0;
            },
            GovernanceInstruction::ChangeGovernanceFeeAccount { governance_fee_key } => {
                if !governance_fee_key.is_zero() {
                    match fee_account {
                        None => {
                            return Err(PoolError::InvalidGovernanceFeeAccount);
                        },
                        Some(acc) => {
                            if !acc.key.same(&governance_fee_key) {
                                return Err(PoolError::InvalidGovernanceFeeAccount);
                            }
                            if !acc.mint.same(&state.lp_mint_key) {
                                return Err(PoolError::MintMismatch);
                            }
                        },
                    }
                } else if state.governance_fee.rate.value != 0 {
                    return Err(PoolError::InvalidGovernanceFeeAccount);
                }
                state.governance_fee_key = governance_fee_key;
            },
            GovernanceInstruction::AdjustAmpFactor { target_ts, target_value } => {
                state.amp_factor.set_target(now, target_value, target_ts)?;
            },
            GovernanceInstruction::SetPaused { paused } => {
                state.is_paused = paused;
            },
        }
        Ok(())
    }
}

} // verus!
