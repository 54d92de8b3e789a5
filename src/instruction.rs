use vstd::prelude::*;
use crate::decimal::DecimalU64;
use crate::state::Key;

verus! {

/// The liquidity and swap operations.
#[derive(Debug, Clone, Copy, PartialEq, Eq)]
pub enum DeFiInstruction<const TOKEN_COUNT: usize> {
    /// Deposits `input_amounts` for at least `minimum_mint_amount` LP tokens.
    Add { input_amounts: [u64; TOKEN_COUNT], minimum_mint_amount: u64 },
    /// Swaps in exactly `exact_input_amounts` for at least `minimum_output_amount`
    /// of the token at `output_token_index`.
    SwapExactInput {
        exact_input_amounts: [u64; TOKEN_COUNT],
        output_token_index: u8,
        minimum_output_amount: u64,
    },
    /// Swaps in at most `maximum_input_amount` of the token at `input_token_index`
    /// for exactly `exact_output_amounts`.
    SwapExactOutput {
        maximum_input_amount: u64,
        input_token_index: u8,
        exact_output_amounts: [u64; TOKEN_COUNT],
    },
    /// Burns `exact_burn_amount` LP tokens for a proportional share of every token.
    RemoveUniform { exact_burn_amount: u64, minimum_output_amounts: [u64; TOKEN_COUNT] },
    /// Burns `exact_burn_amount` LP tokens for at least `minimum_output_amount` of one token.
    RemoveExactBurn { exact_burn_amount: u64, output_token_index: u8, minimum_output_amount: u64 },
    /// Takes out exactly `exact_output_amounts`, burning at most `maximum_burn_amount` LP tokens.
    RemoveExactOutput { maximum_burn_amount: u64, exact_output_amounts: [u64; TOKEN_COUNT] },
}

/// The governance operations.
#[derive(Debug, Clone, Copy, PartialEq, Eq)]
pub enum GovernanceInstruction<const TOKEN_COUNT: usize> {
    /// Stages new fee rates, enactable after the delay.
    PrepareFeeChange { lp_fee: DecimalU64, governance_fee: DecimalU64 },
    /// Commits the staged fee rates.
    EnactFeeChange {},
    /// Stages a new governance key, enactable after the delay.
    PrepareGovernanceTransition { upcoming_governance_key: Key },
    /// Commits the staged governance key.
    EnactGovernanceTransition {},
    /// Sets the account that receives the governance fee.
    ChangeGovernanceFeeAccount { governance_fee_key: Key },
    /// Starts a ramp of the amplification towards `target_value`, reached at `target_ts`.
    AdjustAmpFactor { target_ts: i64, target_value: DecimalU64 },
    /// Pauses or resumes the pool.
    SetPaused { paused: bool },
}

/// Every instruction the pool takes.
#[derive(Debug, Clone, Copy, PartialEq, Eq)]
pub enum PoolInstruction<const TOKEN_COUNT: usize> {
    /// Creates a pool.
    Init { nonce: u8, amp_factor: DecimalU64, lp_fee: DecimalU64, governance_fee: DecimalU64 },
    DeFiInstruction(DeFiInstruction<TOKEN_COUNT>),
    GovernanceInstruction(GovernanceInstruction<TOKEN_COUNT>),
}

/// One account slot of an instruction.
#[derive(Debug, Clone, Copy)]
pub struct AccountSlot {
    pub key: Key,
    pub is_signer: bool,
    pub is_writable: bool,
}

pub open spec fn slot(key: Key, is_signer: bool, is_writable: bool) -> AccountSlot {
    AccountSlot { key, is_signer, is_writable }
}

pub open spec fn read_only_slots(keys: Seq<Key>) -> Seq<AccountSlot> {
    keys.map_values(|k: Key| slot(k, false, false))
}

pub open spec fn writable_slots(keys: Seq<Key>) -> Seq<AccountSlot> {
    keys.map_values(|k: Key| slot(k, false, true))
}

/// Appends one slot per key, all with the same flags.
pub fn push_slots(slots: &mut Vec<AccountSlot>, keys: &Vec<Key>, is_writable: bool)
    ensures
        final(slots)@ == old(slots)@ + keys@.map_values(|k: Key| slot(k, false, is_writable)),
{
    let mut i: usize = 0;
    while i < keys.len()
        invariant
            i <= keys.len(),
            slots@ == old(slots)@ + keys@.subrange(0, i as int).map_values(|k: Key| slot(k, false, is_writable)),
        decreases keys.len() - i,
    {
        slots.push(AccountSlot { key: keys[i], is_signer: false, is_writable });
        assert(keys@.subrange(0, i + 1) =~= keys@.subrange(0, i as int).push(keys@[i as int]));
        assert(slots@ =~= old(slots)@ + keys@.subrange(0, i + 1).map_values(|k: Key| slot(k, false, is_writable)));
        i = i + 1;
    }
    assert(keys@.subrange(0, keys.len() as int) =~= keys@);
}

/// The account slots of an initialization, in the order the pool reads them.
pub fn init_account_slots(
    pool: &Key,
    lp_mint: &Key,
    token_mints: &Vec<Key>,
    token_accounts: &Vec<Key>,
    governance_account: &Key,
    governance_fee_account: &Key,
) -> (r: Vec<AccountSlot>)
    ensures
        r@ == seq![slot(*pool, false, true), slot(*lp_mint, false, false)] + read_only_slots(token_mints@)
            + read_only_slots(token_accounts@) + seq![
            slot(*governance_account, false, false),
            slot(*governance_fee_account, false, false),
        ],
{
    let mut r: Vec<AccountSlot> = Vec::new();
    r.push(AccountSlot { key: *pool, is_signer: false, is_writable: true });
    r.push(AccountSlot { key: *lp_mint, is_signer: false, is_writable: false });
    push_slots(&mut r, token_mints, false);
    push_slots(&mut r, token_accounts, false);
    r.push(AccountSlot { key: *governance_account, is_signer: false, is_writable: false });
    r.push(AccountSlot { key: *governance_fee_account, is_signer: false, is_writable: false });
    assert(r@ =~= seq![slot(*pool, false, true), slot(*lp_mint, false, false)] + read_only_slots(token_mints@)
        + read_only_slots(token_accounts@) + seq![
        slot(*governance_account, false, false),
        slot(*governance_fee_account, false, false),
    ]);
    r
}

/// The account slots of a liquidity or swap operation; the user's transfer
/// authority signs unless it is the pool authority itself, and the user's LP
/// account comes last where the operation mints or burns.
pub fn defi_account_slots(
    pool_is_writable: bool,
    pool: &Key,
    authority: &Key,
    pool_token_accounts: &Vec<Key>,
    lp_mint: &Key,
    governance_fee_account: &Key,
    user_transfer_authority: &Key,
    user_token_accounts: &Vec<Key>,
    token_program_account: &Key,
    user_lp_token_account: Option<Key>,
) -> (r: Vec<AccountSlot>)
    ensures
        r@ == seq![slot(*pool, false, pool_is_writable), slot(*authority, false, false)] + writable_slots(
            pool_token_accounts@,
        ) + seq![
            slot(*lp_mint, false, true),
            slot(*governance_fee_account, false, true),
            slot(*user_transfer_authority, *authority != *user_transfer_authority, false),
        ] + writable_slots(user_token_accounts@) + seq![slot(*token_program_account, false, false)] + match user_lp_token_account {
            Some(k) => seq![slot(k, false, true)],
            None => Seq::empty(),
        },
{
    let mut r: Vec<AccountSlot> = Vec::new();
    r.push(AccountSlot { key: *pool, is_signer: false, is_writable: pool_is_writable });
    r.push(AccountSlot { key: *authority, is_signer: false, is_writable: false });
    push_slots(&mut r, pool_token_accounts, true);
    r.push(AccountSlot { key: *lp_mint, is_signer: false, is_writable: true });
    r.push(AccountSlot { key: *governance_fee_account, is_signer: false, is_writable: true });
    let signs = !authority.same(user_transfer_authority);
    r.push(AccountSlot { key: *user_transfer_authority, is_signer: signs, is_writable: false });
    push_slots(&mut r, user_token_accounts, true);
    r.push(AccountSlot { key: *token_program_account, is_signer: false, is_writable: false });
    match user_lp_token_account {
        Some(k) => r.push(AccountSlot { key: k, is_signer: false, is_writable: true }),
        None => {},
    }
    assert(r@ =~= seq![slot(*pool, false, pool_is_writable), slot(*authority, false, false)] + writable_slots(
        pool_token_accounts@,
    ) + seq![
        slot(*lp_mint, false, true),
        slot(*governance_fee_account, false, true),
        slot(*user_transfer_authority, *authority != *user_transfer_authority, false),
    ] + writable_slots(user_token_accounts@) + seq![slot(*token_program_account, false, false)] + match user_lp_token_account {
        Some(k) => seq![slot(k, false, true)],
        None => Seq::empty(),
    });
    r
}

/// The account slots of a governance operation: the pool, the signing
/// governance key, and the new fee account where one is named.
pub fn governance_account_slots(pool: &Key, governance_account: &Key, governance_fee_account: Option<Key>) -> (r: Vec<
    AccountSlot,
>)
    ensures
        r@ == seq![slot(*pool, false, true), slot(*governance_account, true, false)] + match governance_fee_account {
            Some(k) => seq![slot(k, false, false)],
            None => Seq::empty(),
        },
{
    let mut r: Vec<AccountSlot> = Vec::new();
    r.push(AccountSlot { key: *pool, is_signer: false, is_writable: true });
    r.push(AccountSlot { key: *governance_account, is_signer: true, is_writable: false });
    match governance_fee_account {
        Some(k) => r.push(AccountSlot { key: k, is_signer: false, is_writable: false }),
        None => {},
    }
    assert(r@ =~= seq![slot(*pool, false, true), slot(*governance_account, true, false)] + match governance_fee_account {
        Some(k) => seq![slot(k, false, false)],
        None => Seq::empty(),
    });
    r
}

} // verus!
