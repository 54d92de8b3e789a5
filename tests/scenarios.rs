use stable_pool::decimal::DecimalU64;
use stable_pool::defi::{DeFiReport, LedgerEffect};
use stable_pool::error::PoolError;
use stable_pool::init::{InitAccounts, MintInfo};
use stable_pool::instruction::{DeFiInstruction, GovernanceInstruction};
use stable_pool::processor::{DeFiAccounts, Processor, TokenAccountInfo, ENACT_DELAY};
use stable_pool::state::{Key, PoolState};

type P = Processor<3>;

const NOW: i64 = 1_700_000_000;

fn key(b: u8) -> Key {
    Key { bytes: [b; 32] }
}

fn dec(value: u64, decimals: u8) -> DecimalU64 {
    DecimalU64 { value, decimals }
}

struct Pool {
    program: Key,
    pool: Key,
    authority: Key,
    state: PoolState,
    balances: Vec<u64>,
    supply: u64,
    user_lp: u64,
    governance_lp: u64,
}

fn find_nonce(pool: &Key, program: &Key) -> (u8, Key) {
    let mut nonce: u8 = 255;
    loop {
        if let Ok(a) = P::get_pool_authority(pool, nonce, program) {
            return (nonce, a);
        }
        nonce -= 1;
    }
}

fn mint(k: u8, decimals: u8, authority: Option<Key>) -> MintInfo {
    MintInfo { key: key(k), supply: 0, decimals, mint_authority: authority, has_freeze_authority: false }
}

fn vault(k: u8, mint: u8, owner: Key) -> TokenAccountInfo {
    TokenAccountInfo { key: key(k), mint: key(mint), owner, amount: 0, has_delegate: false, has_close_authority: false }
}

fn init_accounts(pool: &Key, authority: Key) -> InitAccounts {
    InitAccounts {
        pool_key: *pool,
        pool_is_rent_exempt: true,
        pool_is_initialized: false,
        lp_mint: mint(10, 6, Some(authority)),
        token_mints: vec![mint(11, 6, None), mint(12, 6, None), mint(13, 6, None)],
        token_accounts: vec![vault(21, 11, authority), vault(22, 12, authority), vault(23, 13, authority)],
        governance_key: key(30),
        governance_fee_key: key(31),
        governance_fee_mint: Some(key(10)),
    }
}

fn new_pool(amp: u64, lp_fee: DecimalU64, governance_fee: DecimalU64) -> Pool {
    let program = key(7);
    let pool = key(1);
    let (nonce, authority) = find_nonce(&pool, &program);
    let accounts = init_accounts(&pool, authority);
    let state = P::process_init(nonce, dec(amp, 0), lp_fee, governance_fee, &program, &accounts).unwrap();
    Pool { program, pool, authority, state, balances: vec![0, 0, 0], supply: 0, user_lp: 0, governance_lp: 0 }
}

fn defi_accounts(p: &Pool) -> DeFiAccounts {
    DeFiAccounts {
        pool_key: p.pool,
        pool_authority: p.authority,
        pool_token_accounts: vec![key(21), key(22), key(23)],
        lp_mint: key(10),
        governance_fee_account: key(31),
    }
}

/// Runs an operation and applies its ledger movements to the pool's books.
fn run(p: &mut Pool, ix: DeFiInstruction<3>, now: i64) -> Result<DeFiReport, PoolError> {
    let accounts = defi_accounts(p);
    let report = P::process_defi_instruction(ix, &p.program, &mut p.state, &accounts, &p.balances, p.supply, now)?;
    for e in &report.effects {
        match *e {
            LedgerEffect::TransferIn { token_index, amount } => p.balances[token_index] += amount,
            LedgerEffect::TransferOut { token_index, amount } => p.balances[token_index] -= amount,
            LedgerEffect::MintToUser { amount } => {
                p.supply += amount;
                p.user_lp += amount;
            }
            LedgerEffect::BurnFromUser { amount } => {
                p.supply -= amount;
                p.user_lp -= amount;
            }
            LedgerEffect::MintToGovernance { amount } => {
                p.supply += amount;
                p.governance_lp += amount;
            }
        }
    }
    Ok(report)
}

fn set_fees(p: &mut Pool, lp_fee: DecimalU64, governance_fee: DecimalU64) {
    let gov = p.state.governance_key;
    P::process_governance_instruction(
        GovernanceInstruction::PrepareFeeChange { lp_fee, governance_fee },
        &mut p.state,
        gov,
        true,
        NOW,
        None,
    )
    .unwrap();
    P::process_governance_instruction(
        GovernanceInstruction::EnactFeeChange {},
        &mut p.state,
        gov,
        true,
        NOW + ENACT_DELAY,
        None,
    )
    .unwrap();
}

fn after_s1() -> Pool {
    let mut p = new_pool(1000, dec(0, 0), dec(0, 0));
    run(&mut p, DeFiInstruction::Add { input_amounts: [1_000_000; 3], minimum_mint_amount: 0 }, NOW).unwrap();
    p
}

fn after_s2() -> Pool {
    let mut p = after_s1();
    set_fees(&mut p, dec(3, 4), dec(1, 4));
    run(
        &mut p,
        DeFiInstruction::SwapExactInput { exact_input_amounts: [100, 0, 0], output_token_index: 1, minimum_output_amount: 0 },
        NOW + ENACT_DELAY,
    )
    .unwrap();
    p
}

#[test]
fn empty_deposit_mints_the_depth() {
    let mut p = new_pool(1000, dec(0, 0), dec(0, 0));
    let r = run(&mut p, DeFiInstruction::Add { input_amounts: [1_000_000; 3], minimum_mint_amount: 0 }, NOW).unwrap();
    assert_eq!(
        r.effects,
        vec![
            LedgerEffect::TransferIn { token_index: 0, amount: 1_000_000 },
            LedgerEffect::TransferIn { token_index: 1, amount: 1_000_000 },
            LedgerEffect::TransferIn { token_index: 2, amount: 1_000_000 },
            LedgerEffect::MintToUser { amount: 3_000_000 },
        ]
    );
    assert_eq!(p.governance_lp, 0);
    assert_eq!(p.state.previous_depth, 3_000_000);
}

#[test]
fn small_swap_pays_about_one_to_one() {
    let mut p = after_s1();
    set_fees(&mut p, dec(3, 4), dec(1, 4));
    let before = p.state.previous_depth;
    let r = run(
        &mut p,
        DeFiInstruction::SwapExactInput { exact_input_amounts: [100, 0, 0], output_token_index: 1, minimum_output_amount: 0 },
        NOW + ENACT_DELAY,
    )
    .unwrap();
    let out = 1_000_000 - p.balances[1];
    assert!(out >= 99 && out <= 100, "out = {}", out);
    assert!(p.state.previous_depth > before);
    assert_eq!(r.latest_depth, p.state.previous_depth);
    // governance gets a quarter (0.0001 of 0.0004) of the LP value of the depth gained
    let gained = (p.state.previous_depth - before) as u128;
    let expected = 3_000_000u128 * gained * 1 / (before as u128 * 4);
    assert_eq!(p.governance_lp as u128, expected);
}

#[test]
fn larger_swap_mints_governance_fee() {
    let mut p = after_s1();
    set_fees(&mut p, dec(3, 4), dec(1, 4));
    let before = p.state.previous_depth;
    run(
        &mut p,
        DeFiInstruction::SwapExactInput { exact_input_amounts: [100_000, 0, 0], output_token_index: 2, minimum_output_amount: 0 },
        NOW + ENACT_DELAY,
    )
    .unwrap();
    let out = 1_000_000 - p.balances[2];
    assert!(out >= 99_900 && out < 100_000, "out = {}", out);
    assert!(p.governance_lp >= 1, "governance mint = {}", p.governance_lp);
    let gained = (p.state.previous_depth - before) as u128;
    assert_eq!(p.governance_lp as u128, 3_000_000u128 * gained / (before as u128 * 4));
}

#[test]
fn withdraw_one_converges() {
    let mut p = after_s2();
    let before = p.balances[0];
    run(
        &mut p,
        DeFiInstruction::RemoveExactBurn { exact_burn_amount: 1_000_000, output_token_index: 0, minimum_output_amount: 0 },
        NOW + ENACT_DELAY,
    )
    .unwrap();
    let out = before - p.balances[0];
    assert!(out >= 990_000 && out <= 1_010_000, "out = {}", out);
    assert!(p.balances.iter().all(|b| *b > 0));
}

#[test]
fn uniform_remove_while_paused() {
    let mut p = after_s1();
    let gov = p.state.governance_key;
    P::process_governance_instruction(GovernanceInstruction::SetPaused { paused: true }, &mut p.state, gov, true, NOW, None)
        .unwrap();
    run(&mut p, DeFiInstruction::RemoveUniform { exact_burn_amount: 1_500_000, minimum_output_amounts: [0; 3] }, NOW)
        .unwrap();
    assert_eq!(p.balances, vec![500_000, 500_000, 500_000]);
    assert_eq!(p.state.previous_depth, 1_500_000);
    let r = run(&mut p, DeFiInstruction::Add { input_amounts: [10, 10, 10], minimum_mint_amount: 0 }, NOW);
    assert_eq!(r.unwrap_err(), PoolError::PoolIsPaused);
}

#[test]
fn fee_change_waits_for_the_delay() {
    let mut p = after_s1();
    let gov = p.state.governance_key;
    P::process_governance_instruction(
        GovernanceInstruction::PrepareFeeChange { lp_fee: dec(1, 3), governance_fee: dec(1, 3) },
        &mut p.state,
        gov,
        true,
        NOW,
        None,
    )
    .unwrap();
    let early = P::process_governance_instruction(
        GovernanceInstruction::EnactFeeChange {},
        &mut p.state,
        gov,
        true,
        NOW + ENACT_DELAY - 1,
        None,
    );
    assert_eq!(early, Err(PoolError::InsufficientDelay));
    assert_eq!(p.state.lp_fee.rate, dec(0, 0));
    P::process_governance_instruction(
        GovernanceInstruction::EnactFeeChange {},
        &mut p.state,
        gov,
        true,
        NOW + ENACT_DELAY,
        None,
    )
    .unwrap();
    assert_eq!(p.state.lp_fee.rate, dec(1, 3));
    assert_eq!(p.state.governance_fee.rate, dec(1, 3));
    assert_eq!(p.state.fee_transition_ts, 0);
}

#[test]
fn amp_jump_over_ten_times_is_refused() {
    let mut p = new_pool(100, dec(0, 0), dec(0, 0));
    let gov = p.state.governance_key;
    let r = P::process_governance_instruction(
        GovernanceInstruction::AdjustAmpFactor { target_ts: NOW + 86_400, target_value: dec(1_001, 0) },
        &mut p.state,
        gov,
        true,
        NOW,
        None,
    );
    assert_eq!(r, Err(PoolError::AmpJumpTooLarge));
    let ok = P::process_governance_instruction(
        GovernanceInstruction::AdjustAmpFactor { target_ts: NOW + 86_400, target_value: dec(1_000, 0) },
        &mut p.state,
        gov,
        true,
        NOW,
        None,
    );
    assert_eq!(ok, Ok(()));
}

#[test]
fn zero_fee_unbalanced_add_then_uniform_remove_keeps_value() {
    let mut p = after_s1();
    let supply_before = p.supply;
    let lp_before = p.user_lp;
    run(&mut p, DeFiInstruction::Add { input_amounts: [300_000, 200_000, 100_000], minimum_mint_amount: 0 }, NOW)
        .unwrap();
    let minted = p.user_lp - lp_before;
    assert!(minted > 0);
    let balances_before = p.balances.clone();
    run(&mut p, DeFiInstruction::RemoveUniform { exact_burn_amount: minted, minimum_output_amounts: [0; 3] }, NOW)
        .unwrap();
    // a uniform removal pays pro rata, so an unbalanced deposit comes back spread
    // over all tokens, its total within the curve's price spread of what went in
    let total_back: u64 = (0..3).map(|i| balances_before[i] - p.balances[i]).sum();
    assert!(total_back <= 600_001 && total_back >= 599_000, "{}", total_back);
    assert_eq!(p.supply, supply_before);
}

#[test]
fn zero_fee_balanced_add_then_uniform_remove_returns_each_amount() {
    let mut p = after_s1();
    let lp_before = p.user_lp;
    run(&mut p, DeFiInstruction::Add { input_amounts: [250_000; 3], minimum_mint_amount: 0 }, NOW).unwrap();
    let minted = p.user_lp - lp_before;
    let before = p.balances.clone();
    run(&mut p, DeFiInstruction::RemoveUniform { exact_burn_amount: minted, minimum_output_amounts: [0; 3] }, NOW)
        .unwrap();
    for i in 0..3 {
        let back = before[i] - p.balances[i];
        assert!(back + 1 >= 250_000 && back <= 250_001, "token {}: {}", i, back);
    }
}

#[test]
fn zero_fee_swap_and_inverse_agree() {
    let mut a = after_s1();
    run(
        &mut a,
        DeFiInstruction::SwapExactInput { exact_input_amounts: [5_000, 0, 0], output_token_index: 1, minimum_output_amount: 0 },
        NOW,
    )
    .unwrap();
    let out = 1_000_000 - a.balances[1];
    let mut b = after_s1();
    run(
        &mut b,
        DeFiInstruction::SwapExactOutput { maximum_input_amount: 5_001, input_token_index: 0, exact_output_amounts: [0, out, 0] },
        NOW,
    )
    .unwrap();
    let input = b.balances[0] - 1_000_000;
    assert!(input <= 5_001 && input + 1 >= 5_000, "in = {}, out = {}", input, out);
}

#[test]
fn fee_bearing_ops_grow_the_depth_per_share() {
    let mut p = after_s2();
    let d0 = p.state.previous_depth as u128;
    let s0 = p.supply as u128;
    run(
        &mut p,
        DeFiInstruction::RemoveExactOutput { maximum_burn_amount: 1_000_000, exact_output_amounts: [0, 0, 10_000] },
        NOW + ENACT_DELAY,
    )
    .unwrap();
    let d1 = p.state.previous_depth as u128;
    let s1 = p.supply as u128;
    assert!(d1 * s0 >= d0 * s1, "depth {} -> {}, supply {} -> {}", d0, d1, s0, s1);
    assert!(p.balances.iter().all(|b| *b > 0));
}

#[test]
fn paused_pool_refuses_swaps() {
    let mut p = after_s1();
    let gov = p.state.governance_key;
    P::process_governance_instruction(GovernanceInstruction::SetPaused { paused: true }, &mut p.state, gov, true, NOW, None)
        .unwrap();
    let r = run(
        &mut p,
        DeFiInstruction::SwapExactInput { exact_input_amounts: [1, 0, 0], output_token_index: 1, minimum_output_amount: 0 },
        NOW,
    );
    assert_eq!(r.unwrap_err(), PoolError::PoolIsPaused);
    let r = run(&mut p, DeFiInstruction::RemoveExactBurn { exact_burn_amount: 1, output_token_index: 0, minimum_output_amount: 0 }, NOW);
    assert_eq!(r.unwrap_err(), PoolError::PoolIsPaused);
}

#[test]
fn governance_transition_waits_for_the_delay() {
    let mut p = after_s1();
    let gov = p.state.governance_key;
    P::process_governance_instruction(
        GovernanceInstruction::PrepareGovernanceTransition { upcoming_governance_key: key(40) },
        &mut p.state,
        gov,
        true,
        NOW,
        None,
    )
    .unwrap();
    let early = P::process_governance_instruction(
        GovernanceInstruction::EnactGovernanceTransition {},
        &mut p.state,
        gov,
        true,
        NOW + ENACT_DELAY - 1,
        None,
    );
    assert_eq!(early, Err(PoolError::InsufficientDelay));
    P::process_governance_instruction(
        GovernanceInstruction::EnactGovernanceTransition {},
        &mut p.state,
        gov,
        true,
        NOW + ENACT_DELAY,
        None,
    )
    .unwrap();
    assert_eq!(p.state.governance_key, key(40));
}

#[test]
fn defi_errors() {
    let mut p = after_s1();
    let add_zero = run(&mut p, DeFiInstruction::Add { input_amounts: [0; 3], minimum_mint_amount: 0 }, NOW);
    assert_eq!(add_zero.unwrap_err(), PoolError::InvalidInstructionData);
    let too_much = run(&mut p, DeFiInstruction::Add { input_amounts: [10, 10, 10], minimum_mint_amount: 1_000 }, NOW);
    assert_eq!(too_much.unwrap_err(), PoolError::OutsideSpecifiedLimits);
    let same_token = run(
        &mut p,
        DeFiInstruction::SwapExactInput { exact_input_amounts: [0, 5, 0], output_token_index: 1, minimum_output_amount: 0 },
        NOW,
    );
    assert_eq!(same_token.unwrap_err(), PoolError::InvalidInstructionData);
    let drain = run(
        &mut p,
        DeFiInstruction::SwapExactOutput { maximum_input_amount: u64::MAX, input_token_index: 0, exact_output_amounts: [0, 1_000_000, 0] },
        NOW,
    );
    assert_eq!(drain.unwrap_err(), PoolError::InvalidInstructionData);
    let supply = p.supply;
    let burn_all = run(
        &mut p,
        DeFiInstruction::RemoveExactBurn { exact_burn_amount: supply, output_token_index: 0, minimum_output_amount: 0 },
        NOW,
    );
    assert_eq!(burn_all.unwrap_err(), PoolError::InvalidInstructionData);

    let mut empty = new_pool(1000, dec(0, 0), dec(0, 0));
    let partial = run(&mut empty, DeFiInstruction::Add { input_amounts: [5, 0, 5], minimum_mint_amount: 0 }, NOW);
    assert_eq!(partial.unwrap_err(), PoolError::AddRequiresAllTokens);
}

#[test]
fn defi_account_errors() {
    let mut p = after_s1();
    let ix = DeFiInstruction::Add { input_amounts: [1, 1, 1], minimum_mint_amount: 0 };
    let mut acc = defi_accounts(&p);
    acc.pool_authority = key(99);
    let r = P::process_defi_instruction(ix, &p.program, &mut p.state, &acc, &p.balances, p.supply, NOW);
    assert_eq!(r.unwrap_err(), PoolError::InvalidPoolAuthorityAccount);
    let mut acc = defi_accounts(&p);
    acc.pool_token_accounts[2] = key(98);
    let r = P::process_defi_instruction(ix, &p.program, &mut p.state, &acc, &p.balances, p.supply, NOW);
    assert_eq!(r.unwrap_err(), PoolError::PoolTokenAccountExpected);
    let mut acc = defi_accounts(&p);
    acc.lp_mint = key(97);
    let r = P::process_defi_instruction(ix, &p.program, &mut p.state, &acc, &p.balances, p.supply, NOW);
    assert_eq!(r.unwrap_err(), PoolError::InvalidMintAccount);
    let mut acc = defi_accounts(&p);
    acc.governance_fee_account = key(96);
    let r = P::process_defi_instruction(ix, &p.program, &mut p.state, &acc, &p.balances, p.supply, NOW);
    assert_eq!(r.unwrap_err(), PoolError::InvalidGovernanceFeeAccount);
    assert_eq!(p.state.previous_depth, 3_000_000);
}

#[test]
fn governance_errors() {
    let mut p = after_s1();
    let gov = p.state.governance_key;
    let pause = GovernanceInstruction::SetPaused { paused: true };
    assert_eq!(
        P::process_governance_instruction(pause, &mut p.state, key(55), true, NOW, None),
        Err(PoolError::InvalidGovernanceAccount)
    );
    assert_eq!(
        P::process_governance_instruction(pause, &mut p.state, gov, false, NOW, None),
        Err(PoolError::MissingRequiredSignature)
    );
    assert_eq!(
        P::process_governance_instruction(GovernanceInstruction::EnactFeeChange {}, &mut p.state, gov, true, NOW, None),
        Err(PoolError::InvalidEnact)
    );
    assert_eq!(
        P::process_governance_instruction(
            GovernanceInstruction::PrepareFeeChange { lp_fee: dec(6, 1), governance_fee: dec(4, 1) },
            &mut p.state,
            gov,
            true,
            NOW,
            None
        ),
        Err(PoolError::InvalidFeeInput)
    );
    assert_eq!(
        P::process_governance_instruction(
            GovernanceInstruction::AdjustAmpFactor { target_ts: NOW + 86_399, target_value: dec(1_000, 0) },
            &mut p.state,
            gov,
            true,
            NOW,
            None
        ),
        Err(PoolError::InvalidAmpFactorTimestamp)
    );
    assert_eq!(
        P::process_governance_instruction(
            GovernanceInstruction::AdjustAmpFactor { target_ts: NOW + 86_400, target_value: dec(0, 0) },
            &mut p.state,
            gov,
            true,
            NOW,
            None
        ),
        Err(PoolError::InvalidAmpFactorValue)
    );
    let wrong_mint = TokenAccountInfo {
        key: key(60),
        mint: key(11),
        owner: key(61),
        amount: 0,
        has_delegate: false,
        has_close_authority: false,
    };
    assert_eq!(
        P::process_governance_instruction(
            GovernanceInstruction::ChangeGovernanceFeeAccount { governance_fee_key: key(60) },
            &mut p.state,
            gov,
            true,
            NOW,
            Some(wrong_mint)
        ),
        Err(PoolError::MintMismatch)
    );
    let right = TokenAccountInfo { mint: key(10), ..wrong_mint };
    assert_eq!(
        P::process_governance_instruction(
            GovernanceInstruction::ChangeGovernanceFeeAccount { governance_fee_key: key(60) },
            &mut p.state,
            gov,
            true,
            NOW,
            Some(right)
        ),
        Ok(())
    );
    assert_eq!(p.state.governance_fee_key, key(60));
}

#[test]
fn init_errors() {
    let program = key(7);
    let pool = key(1);
    let (nonce, authority) = find_nonce(&pool, &program);
    let amp = dec(1000, 0);
    let zero = dec(0, 0);
    let check = |acc: InitAccounts, lp: DecimalU64| P::process_init(nonce, amp, lp, zero, &program, &acc).map(|_| ());

    assert_eq!(check(init_accounts(&pool, authority), dec(1, 0)), Err(PoolError::InvalidFeeInput));
    let mut a = init_accounts(&pool, authority);
    a.pool_is_rent_exempt = false;
    assert_eq!(check(a, zero), Err(PoolError::AccountNotRentExempt));
    let mut a = init_accounts(&pool, authority);
    a.pool_is_initialized = true;
    assert_eq!(check(a, zero), Err(PoolError::AccountAlreadyInitialized));
    let mut a = init_accounts(&pool, authority);
    a.governance_key = key(12);
    assert_eq!(check(a, zero), Err(PoolError::DuplicateAccount));
    let mut a = init_accounts(&pool, authority);
    a.lp_mint.supply = 5;
    assert_eq!(check(a, zero), Err(PoolError::MintHasBalance));
    // the mint is checked before the later accounts are compared
    let mut a = init_accounts(&pool, authority);
    a.lp_mint.supply = 5;
    a.token_accounts[2].key = key(21);
    assert_eq!(check(a, zero), Err(PoolError::MintHasBalance));
    let mut a = init_accounts(&pool, authority);
    a.lp_mint.key = pool;
    assert_eq!(check(a, zero), Err(PoolError::DuplicateAccount));
    let mut a = init_accounts(&pool, authority);
    a.lp_mint.mint_authority = Some(key(50));
    assert_eq!(check(a, zero), Err(PoolError::InvalidMintAuthority));
    let mut a = init_accounts(&pool, authority);
    a.lp_mint.has_freeze_authority = true;
    assert_eq!(check(a, zero), Err(PoolError::MintHasFreezeAuthority));
    let mut a = init_accounts(&pool, authority);
    a.token_mints[1].decimals = 15;
    assert_eq!(check(a, zero), Err(PoolError::MaxDecimalDifferenceExceeded));
    let mut a = init_accounts(&pool, authority);
    a.token_accounts[0].mint = key(12);
    assert_eq!(check(a, zero), Err(PoolError::MintMismatch));
    let mut a = init_accounts(&pool, authority);
    a.token_accounts[0].owner = key(50);
    assert_eq!(check(a, zero), Err(PoolError::OwnerMismatch));
    let mut a = init_accounts(&pool, authority);
    a.token_accounts[1].amount = 1;
    assert_eq!(check(a, zero), Err(PoolError::TokenAccountHasBalance));
    let mut a = init_accounts(&pool, authority);
    a.token_accounts[1].has_delegate = true;
    assert_eq!(check(a, zero), Err(PoolError::TokenAccountHasDelegate));
    let mut a = init_accounts(&pool, authority);
    a.token_accounts[2].has_close_authority = true;
    assert_eq!(check(a, zero), Err(PoolError::TokenAccountHasCloseAuthority));
    let mut a = init_accounts(&pool, authority);
    a.governance_fee_mint = Some(key(11));
    assert_eq!(check(a, zero), Err(PoolError::MintMismatch));
    let mut a = init_accounts(&pool, authority);
    a.governance_fee_key = Key { bytes: [0; 32] };
    let r = P::process_init(nonce, amp, zero, dec(1, 4), &program, &a).map(|_| ());
    assert_eq!(r, Err(PoolError::InvalidGovernanceFeeAccount));
    assert_eq!(P::check_init_fees(&dec(6, 1), &dec(4, 1)), Err(PoolError::InvalidFeeInput));
    let bad_amp = P::process_init(nonce, dec(0, 0), zero, zero, &program, &init_accounts(&pool, authority));
    assert_eq!(bad_amp.map(|_| ()), Err(PoolError::InvalidAmpFactorValue));
}

#[test]
fn init_equalizes_decimals() {
    let program = key(7);
    let pool = key(1);
    let (nonce, authority) = find_nonce(&pool, &program);
    let mut a = init_accounts(&pool, authority);
    a.token_mints[0].decimals = 9;
    a.token_mints[2].decimals = 2;
    let s = P::process_init(nonce, dec(1000, 0), dec(0, 0), dec(0, 0), &program, &a).unwrap();
    assert_eq!(s.token_decimal_equalizers, vec![0, 3, 7]);
    assert_eq!(s.lp_decimal_equalizer, 3);
    assert_eq!(s.previous_depth, 0);
    assert_eq!(s.nonce, nonce);
    assert!(!s.is_paused);
}

#[test]
fn pool_authority_is_derived_not_echoed() {
    let program = key(7);
    let pool = key(1);
    let (nonce, authority) = find_nonce(&pool, &program);
    assert_ne!(authority, pool);
    assert_ne!(authority, program);
    assert_eq!(P::get_pool_authority(&pool, nonce, &program), Ok(authority));
}
