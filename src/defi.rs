use vstd::prelude::*;
use crate::decimal::{DecimalU64, lemma_pow10_positive, pow10};
use crate::equalizer::{
    equalize, equalized, from_eq, from_eq_down, from_eq_down_ok, from_eq_ok, from_eq_up, from_eq_up_ok, from_equalized,
    from_equalized_down, from_equalized_up, to_eq, to_equalized,
};
use crate::error::PoolError;
use crate::amp_factor::in_amp_range;
use crate::stable_swap::{
    remove_exact_burn, remove_exact_output, remove_uniform, swap_exact_input, swap_exact_output,
    add_outcome, add_result, remove_burn_result, remove_output_result, swap_input_result, swap_output_result,
    remove_burn_outcome, remove_output_outcome, share_of, swap_input_outcome, swap_output_outcome,
    is_numeric_error,
};
use crate::state::PoolState;

verus! {

broadcast use vstd::array::group_array_axioms;

/// One movement of tokens that an operation asks the ledger to make.
#[derive(Debug, Clone, Copy, PartialEq, Eq, Structural)]
pub enum LedgerEffect {
    /// From the user's account of token `token_index` into the pool's vault of it.
    TransferIn { token_index: usize, amount: u64 },
    /// From the pool's vault of token `token_index` to the user's account of it.
    TransferOut { token_index: usize, amount: u64 },
    /// New LP tokens for the user.
    MintToUser { amount: u64 },
    /// LP tokens taken from the user.
    BurnFromUser { amount: u64 },
    /// New LP tokens for the governance fee account.
    MintToGovernance { amount: u64 },
}

/// What an operation did: the ledger movements in order, the solver's figures
/// in equalized units `(user amount, governance mint, depth)`, and the depth to record.
#[derive(Debug)]
pub struct DeFiReport {
    pub effects: Vec<LedgerEffect>,
    pub solver_result: (u128, u128, u128),
    pub latest_depth: u128,
}

/// One transfer per entry of `x[0..k]` (leaving out zero amounts when `skip_zero`).
pub open spec fn transfer_effects(x: Seq<u64>, k: nat, inbound: bool, skip_zero: bool) -> Seq<LedgerEffect>
    decreases k,
{
    if k == 0 {
        Seq::empty()
    } else {
        let prev = transfer_effects(x, (k - 1) as nat, inbound, skip_zero);
        let i = k - 1;
        if skip_zero && x[i] == 0 {
            prev
        } else if inbound {
            prev.push(LedgerEffect::TransferIn { token_index: i as usize, amount: x[i] })
        } else {
            prev.push(LedgerEffect::TransferOut { token_index: i as usize, amount: x[i] })
        }
    }
}

/// The governance mint, if there is one.
pub open spec fn governance_effect(g: int) -> Seq<LedgerEffect> {
    if g > 0 {
        seq![LedgerEffect::MintToGovernance { amount: g as u64 }]
    } else {
        Seq::empty()
    }
}

pub open spec fn all_zero(x: Seq<u64>) -> bool {
    forall|i: int| 0 <= i < x.len() ==> #[trigger] x[i] == 0
}

pub open spec fn any_zero(x: Seq<u64>) -> bool {
    exists|i: int| 0 <= i < x.len() && #[trigger] x[i] == 0
}

/// Some amount of `x` is at least the matching balance of `b`.
pub open spec fn any_at_or_above(x: Seq<u64>, b: Seq<u64>) -> bool {
    exists|i: int| 0 <= i < x.len() && #[trigger] x[i] >= b[i]
}

/// What the pool holds, in the common precision.
pub open spec fn pool_view(s: PoolState, balances: Seq<u64>, supply: int) -> (Seq<u128>, int) {
    (equalized(balances, s.token_decimal_equalizers@), to_eq(supply, s.lp_decimal_equalizer as nat))
}

pub fn array_to_vec<const N: usize>(a: &[u64; N]) -> (r: Vec<u64>)
    ensures
        r@ == a@,
{
    let mut r: Vec<u64> = Vec::new();
    let mut i: usize = 0;
    while i < N
        invariant
            i <= N,
            a@.len() == N,
            r@.len() == i,
            forall|j: int| 0 <= j < i ==> r@[j] == a@[j],
        decreases N - i,
    {
        r.push(a[i]);
        i = i + 1;
    }
    assert(r@ =~= a@);
    r
}

pub fn is_all_zero(x: &Vec<u64>) -> (r: bool)
    ensures
        r == all_zero(x@),
{
    let mut i: usize = 0;
    while i < x.len()
        invariant
            i <= x.len(),
            forall|j: int| 0 <= j < i ==> #[trigger] x@[j] == 0,
        decreases x.len() - i,
    {
        if x[i] != 0 {
            return false;
        }
        i = i + 1;
    }
    true
}

pub fn has_zero(x: &Vec<u64>) -> (r: bool)
    ensures
        r == any_zero(x@),
{
    let mut i: usize = 0;
    while i < x.len()
        invariant
            i <= x.len(),
            forall|j: int| 0 <= j < i ==> #[trigger] x@[j] != 0,
        decreases x.len() - i,
    {
        if x[i] == 0 {
            assert(x@[i as int] == 0);
            return true;
        }
        i = i + 1;
    }
    false
}

pub fn has_at_or_above(x: &Vec<u64>, b: &Vec<u64>) -> (r: bool)
    requires
        x.len() == b.len(),
    ensures
        r == any_at_or_above(x@, b@),
{
    let mut i: usize = 0;
    while i < x.len()
        invariant
            i <= x.len() == b.len(),
            forall|j: int| 0 <= j < i ==> #[trigger] x@[j] < b@[j],
        decreases x.len() - i,
    {
        if x[i] >= b[i] {
            assert(x@[i as int] >= b@[i as int]);
            return true;
        }
        i = i + 1;
    }
    false
}

/// Appends one transfer per amount of `x` (leaving out zero amounts when `skip_zero`).
pub fn push_transfers(effects: &mut Vec<LedgerEffect>, x: &Vec<u64>, inbound: bool, skip_zero: bool)
    ensures
        final(effects)@ == old(effects)@ + transfer_effects(x@, x.len() as nat, inbound, skip_zero),
{
    let mut i: usize = 0;
    while i < x.len()
        invariant
            i <= x.len(),
            effects@ == old(effects)@ + transfer_effects(x@, i as nat, inbound, skip_zero),
        decreases x.len() - i,
    {
        if !(skip_zero && x[i] == 0) {
            if inbound {
                effects.push(LedgerEffect::TransferIn { token_index: i, amount: x[i] });
            } else {
                effects.push(LedgerEffect::TransferOut { token_index: i, amount: x[i] });
            }
        }
        proof {
            assert(transfer_effects(x@, (i + 1) as nat, inbound, skip_zero) == if skip_zero && x@[i as int] == 0 {
                transfer_effects(x@, i as nat, inbound, skip_zero)
            } else if inbound {
                transfer_effects(x@, i as nat, inbound, skip_zero).push(
                    LedgerEffect::TransferIn { token_index: i, amount: x@[i as int] },
                )
            } else {
                transfer_effects(x@, i as nat, inbound, skip_zero).push(
                    LedgerEffect::TransferOut { token_index: i, amount: x@[i as int] },
                )
            });
            assert(effects@ =~= old(effects)@ + transfer_effects(x@, (i + 1) as nat, inbound, skip_zero));
        }
        i = i + 1;
    }
}

/// Appends the governance mint, if there is one.
pub fn push_governance_mint(effects: &mut Vec<LedgerEffect>, g: u64)
    ensures
        final(effects)@ == old(effects)@ + governance_effect(g as int),
{
    if g > 0 {
        effects.push(LedgerEffect::MintToGovernance { amount: g });
    }
    assert(effects@ =~= old(effects)@ + governance_effect(g as int));
}

/// What every operation asks of the record it works on.
pub open spec fn op_params(s: PoolState, amp: DecimalU64, balances: Seq<u64>, n: nat) -> bool {
    &&& s.wf(n)
    &&& in_amp_range(amp)
    &&& balances.len() == n
}

/// The result of a deposit of `x` for at least `min_mint` LP tokens.
pub open spec fn add_report(
    s: PoolState,
    amp: DecimalU64,
    balances: Seq<u64>,
    supply: int,
    x: Seq<u64>,
    min_mint: int,
    rep: DeFiReport,
) -> bool {
    let (b, sup) = pool_view(s, balances, supply);
    let e = s.lp_decimal_equalizer as nat;
    let sr = rep.solver_result;
    let mint = from_eq_down(sr.0 as int, e);
    let g = from_eq(sr.1 as int, e);
    &&& add_outcome(
        b,
        equalized(x, s.token_decimal_equalizers@),
        amp,
        s.lp_fee.rate,
        s.governance_fee.rate,
        sup,
        s.previous_depth as int,
        sr,
    )
    &&& mint >= min_mint
    &&& rep.effects@ == transfer_effects(x, x.len() as nat, true, true).push(
        LedgerEffect::MintToUser { amount: mint as u64 },
    ) + governance_effect(g)
    &&& rep.latest_depth == sr.2
}

/// The result of a swap of exactly `x` for at least `min_out` of token `k`.
pub open spec fn swap_input_report(
    s: PoolState,
    amp: DecimalU64,
    balances: Seq<u64>,
    supply: int,
    x: Seq<u64>,
    k: int,
    min_out: int,
    rep: DeFiReport,
) -> bool {
    let (b, sup) = pool_view(s, balances, supply);
    let sr = rep.solver_result;
    let out = from_eq_down(sr.0 as int, s.token_decimal_equalizers@[k] as nat);
    let g = from_eq(sr.1 as int, s.lp_decimal_equalizer as nat);
    &&& swap_input_outcome(
        b,
        equalized(x, s.token_decimal_equalizers@),
        k,
        amp,
        s.lp_fee.rate,
        s.governance_fee.rate,
        sup,
        s.previous_depth as int,
        sr,
    )
    &&& out >= min_out
    &&& rep.effects@ == transfer_effects(x, x.len() as nat, true, true).push(
        LedgerEffect::TransferOut { token_index: k as usize, amount: out as u64 },
    ) + governance_effect(g)
    &&& rep.latest_depth == sr.2
}

/// The result of a swap of at most `max_in` of token `k` for exactly `x`.
pub open spec fn swap_output_report(
    s: PoolState,
    amp: DecimalU64,
    balances: Seq<u64>,
    supply: int,
    max_in: int,
    k: int,
    x: Seq<u64>,
    rep: DeFiReport,
) -> bool {
    let (b, sup) = pool_view(s, balances, supply);
    let sr = rep.solver_result;
    let input = from_eq_up(sr.0 as int, s.token_decimal_equalizers@[k] as nat);
    let g = from_eq(sr.1 as int, s.lp_decimal_equalizer as nat);
    &&& swap_output_outcome(
        b,
        equalized(x, s.token_decimal_equalizers@),
        k,
        amp,
        s.lp_fee.rate,
        s.governance_fee.rate,
        sup,
        s.previous_depth as int,
        sr,
    )
    &&& input <= max_in
    &&& rep.effects@ == seq![LedgerEffect::TransferIn { token_index: k as usize, amount: input as u64 }]
        + transfer_effects(x, x.len() as nat, false, true) + governance_effect(g)
    &&& rep.latest_depth == sr.2
}

/// The result of burning exactly `burn` LP tokens for at least `min_out` of token `k`.
pub open spec fn remove_burn_report(
    s: PoolState,
    amp: DecimalU64,
    balances: Seq<u64>,
    supply: int,
    burn: int,
    k: int,
    min_out: int,
    rep: DeFiReport,
) -> bool {
    let (b, sup) = pool_view(s, balances, supply);
    let sr = rep.solver_result;
    let out = from_eq_down(sr.0 as int, s.token_decimal_equalizers@[k] as nat);
    let g = from_eq(sr.1 as int, s.lp_decimal_equalizer as nat);
    &&& remove_burn_outcome(
        b,
        to_eq(burn, s.lp_decimal_equalizer as nat),
        k,
        amp,
        s.lp_fee.rate,
        s.governance_fee.rate,
        sup,
        s.previous_depth as int,
        sr,
    )
    &&& out >= min_out
    &&& rep.effects@ == seq![
        LedgerEffect::BurnFromUser { amount: burn as u64 },
        LedgerEffect::TransferOut { token_index: k as usize, amount: out as u64 },
    ] + governance_effect(g)
    &&& rep.latest_depth == sr.2
}

/// The result of taking out exactly `x` for at most `max_burn` LP tokens.
pub open spec fn remove_output_report(
    s: PoolState,
    amp: DecimalU64,
    balances: Seq<u64>,
    supply: int,
    max_burn: int,
    x: Seq<u64>,
    rep: DeFiReport,
) -> bool {
    let (b, sup) = pool_view(s, balances, supply);
    let sr = rep.solver_result;
    let burn = from_eq_up(sr.0 as int, s.lp_decimal_equalizer as nat);
    let g = from_eq(sr.1 as int, s.lp_decimal_equalizer as nat);
    &&& remove_output_outcome(
        b,
        equalized(x, s.token_decimal_equalizers@),
        amp,
        s.lp_fee.rate,
        s.governance_fee.rate,
        sup,
        s.previous_depth as int,
        sr,
    )
    &&& burn <= max_burn
    &&& rep.effects@ == seq![LedgerEffect::BurnFromUser { amount: burn as u64 }] + transfer_effects(
        x,
        x.len() as nat,
        false,
        true,
    ) + governance_effect(g)
    &&& rep.latest_depth == sr.2
}

/// The amounts a uniform removal of `burn` LP tokens pays out.
pub open spec fn uniform_amounts(balances: Seq<u64>, burn: int, supply: int) -> Seq<u64> {
    Seq::new(balances.len(), |i: int| share_of(balances[i] as int, burn, supply) as u64)
}

/// The result of burning `burn` LP tokens for a share of every token, each at least `mins[i]`.
pub open spec fn uniform_report(s: PoolState, balances: Seq<u64>, supply: int, burn: int, mins: Seq<u64>, rep: DeFiReport) -> bool {
    let outs = uniform_amounts(balances, burn, supply);
    let latest = s.previous_depth - share_of(s.previous_depth as int, burn, supply);
    &&& forall|i: int| 0 <= i < outs.len() ==> #[trigger] outs[i] >= mins[i]
    &&& rep.effects@ == seq![LedgerEffect::BurnFromUser { amount: burn as u64 }] + transfer_effects(
        outs,
        outs.len() as nat,
        false,
        false,
    )
    &&& rep.latest_depth == latest
    &&& rep.solver_result == (0u128, 0u128, latest as u128)
}

/// Whether an operation whose solver returned `v` goes through: the amounts
/// fit once brought back, and `within` holds of the user's amount.
pub open spec fn finish_status(user_ok: bool, v: (int, int, int), lp_eq: nat, within: bool) -> Result<(), PoolError> {
    if !user_ok || !from_eq_ok(v.1, lp_eq) {
        Err(PoolError::NumericOverflow)
    } else if !within {
        Err(PoolError::OutsideSpecifiedLimits)
    } else {
        Ok(())
    }
}

/// Whether a deposit goes through, or why not.
pub open spec fn add_status(s: PoolState, amp: DecimalU64, balances: Seq<u64>, supply: int, x: Seq<u64>, min_mint: int) -> Result<
    (),
    PoolError,
> {
    let (b, sup) = pool_view(s, balances, supply);
    let e = s.lp_decimal_equalizer as nat;
    match add_result(b, equalized(x, s.token_decimal_equalizers@), amp, s.lp_fee.rate, s.governance_fee.rate, sup,
        s.previous_depth as int) {
        Err(err) => Err(err),
        Ok(v) => finish_status(from_eq_down_ok(v.0, e), v, e, from_eq_down(v.0, e) >= min_mint),
    }
}

/// Whether a swap of exact inputs goes through, or why not.
pub open spec fn swap_input_status(
    s: PoolState,
    amp: DecimalU64,
    balances: Seq<u64>,
    supply: int,
    x: Seq<u64>,
    k: int,
    min_out: int,
) -> Result<(), PoolError> {
    let (b, sup) = pool_view(s, balances, supply);
    let ek = s.token_decimal_equalizers@[k] as nat;
    match swap_input_result(b, equalized(x, s.token_decimal_equalizers@), k, amp, s.lp_fee.rate, s.governance_fee.rate,
        sup, s.previous_depth as int) {
        Err(err) => Err(err),
        Ok(v) => finish_status(from_eq_down_ok(v.0, ek), v, s.lp_decimal_equalizer as nat, from_eq_down(v.0, ek) >= min_out),
    }
}

/// Whether a swap for exact outputs goes through, or why not.
pub open spec fn swap_output_status(
    s: PoolState,
    amp: DecimalU64,
    balances: Seq<u64>,
    supply: int,
    max_in: int,
    k: int,
    x: Seq<u64>,
) -> Result<(), PoolError> {
    let (b, sup) = pool_view(s, balances, supply);
    let ek = s.token_decimal_equalizers@[k] as nat;
    match swap_output_result(b, equalized(x, s.token_decimal_equalizers@), k, amp, s.lp_fee.rate, s.governance_fee.rate,
        sup, s.previous_depth as int) {
        Err(err) => Err(err),
        Ok(v) => finish_status(from_eq_up_ok(v.0, ek), v, s.lp_decimal_equalizer as nat, from_eq_up(v.0, ek) <= max_in),
    }
}

/// Whether a one-token withdrawal goes through, or why not.
pub open spec fn remove_burn_status(
    s: PoolState,
    amp: DecimalU64,
    balances: Seq<u64>,
    supply: int,
    burn: int,
    k: int,
    min_out: int,
) -> Result<(), PoolError> {
    let (b, sup) = pool_view(s, balances, supply);
    let ek = s.token_decimal_equalizers@[k] as nat;
    match remove_burn_result(b, to_eq(burn, s.lp_decimal_equalizer as nat), k, amp, s.lp_fee.rate,
        s.governance_fee.rate, sup, s.previous_depth as int) {
        Err(err) => Err(err),
        Ok(v) => finish_status(from_eq_down_ok(v.0, ek), v, s.lp_decimal_equalizer as nat, from_eq_down(v.0, ek) >= min_out),
    }
}

/// Whether a withdrawal of exact outputs goes through, or why not.
pub open spec fn remove_output_status(
    s: PoolState,
    amp: DecimalU64,
    balances: Seq<u64>,
    supply: int,
    max_burn: int,
    x: Seq<u64>,
) -> Result<(), PoolError> {
    let (b, sup) = pool_view(s, balances, supply);
    let e = s.lp_decimal_equalizer as nat;
    match remove_output_result(b, equalized(x, s.token_decimal_equalizers@), amp, s.lp_fee.rate, s.governance_fee.rate,
        sup, s.previous_depth as int) {
        Err(err) => Err(err),
        Ok(v) => finish_status(from_eq_up_ok(v.0, e), v, e, from_eq_up(v.0, e) <= max_burn),
    }
}

/// Whether a uniform withdrawal goes through, or why not.
pub open spec fn uniform_status(balances: Seq<u64>, supply: int, burn: int, mins: Seq<u64>) -> Result<(), PoolError> {
    let outs = uniform_amounts(balances, burn, supply);
    if exists|i: int| 0 <= i < outs.len() && #[trigger] outs[i] < mins[i] {
        Err(PoolError::OutsideSpecifiedLimits)
    } else {
        Ok(())
    }
}

pub open spec fn op_error(e: PoolError) -> bool {
    is_numeric_error(e) || e == PoolError::OutsideSpecifiedLimits
}

/// Deposits `x`: transfers in, mints to the user, mints the governance fee.
pub fn process_add(s: &PoolState, amp: &DecimalU64, balances: &Vec<u64>, supply: u64, x: &Vec<u64>, min_mint: u64) -> (r:
    Result<DeFiReport, PoolError>)
    requires
        op_params(*s, *amp, balances@, x.len() as nat),
    ensures
        match add_status(*s, *amp, balances@, supply as int, x@, min_mint as int) {
            Err(e) => r == Err::<DeFiReport, PoolError>(e),
            Ok(_) => r is Ok,
        },
        match r {
            Ok(rep) => add_report(*s, *amp, balances@, supply as int, x@, min_mint as int, rep),
            Err(e) => op_error(e),
        },
{
    let e = s.lp_decimal_equalizer;
    let b = equalize(balances, &s.token_decimal_equalizers);
    let xe = equalize(x, &s.token_decimal_equalizers);
    let sup = to_equalized(supply, e);
    let sr = match crate::stable_swap::add(&xe, &b, amp, &s.lp_fee.rate, &s.governance_fee.rate, sup, s.previous_depth) {
        Ok(v) => v,
        Err(err) => return Err(err),
    };
    let mint = match from_equalized_down(sr.0, e) {
        Ok(v) => v,
        Err(err) => return Err(err),
    };
    let g = match from_equalized(sr.1, e) {
        Ok(v) => v,
        Err(err) => return Err(err),
    };
    if mint < min_mint {
        return Err(PoolError::OutsideSpecifiedLimits);
    }
    let mut effects: Vec<LedgerEffect> = Vec::new();
    push_transfers(&mut effects, x, true, true);
    effects.push(LedgerEffect::MintToUser { amount: mint });
    push_governance_mint(&mut effects, g);
    Ok(DeFiReport { effects, solver_result: sr, latest_depth: sr.2 })
}

/// Swaps exactly `x` in: transfers in, pays out token `k`, mints the governance fee.
pub fn process_swap_exact_input(
    s: &PoolState,
    amp: &DecimalU64,
    balances: &Vec<u64>,
    supply: u64,
    x: &Vec<u64>,
    k: usize,
    min_out: u64,
) -> (r: Result<DeFiReport, PoolError>)
    requires
        op_params(*s, *amp, balances@, x.len() as nat),
        k < x.len(),
    ensures
        match swap_input_status(*s, *amp, balances@, supply as int, x@, k as int, min_out as int) {
            Err(e) => r == Err::<DeFiReport, PoolError>(e),
            Ok(_) => r is Ok,
        },
        match r {
            Ok(rep) => swap_input_report(*s, *amp, balances@, supply as int, x@, k as int, min_out as int, rep),
            Err(e) => op_error(e),
        },
{
    let b = equalize(balances, &s.token_decimal_equalizers);
    let xe = equalize(x, &s.token_decimal_equalizers);
    let sup = to_equalized(supply, s.lp_decimal_equalizer);
    let sr = match swap_exact_input(&xe, k, &b, amp, &s.lp_fee.rate, &s.governance_fee.rate, sup, s.previous_depth) {
        Ok(v) => v,
        Err(err) => return Err(err),
    };
    let out = match from_equalized_down(sr.0, s.token_decimal_equalizers[k]) {
        Ok(v) => v,
        Err(err) => return Err(err),
    };
    let g = match from_equalized(sr.1, s.lp_decimal_equalizer) {
        Ok(v) => v,
        Err(err) => return Err(err),
    };
    if out < min_out {
        return Err(PoolError::OutsideSpecifiedLimits);
    }
    let mut effects: Vec<LedgerEffect> = Vec::new();
    push_transfers(&mut effects, x, true, true);
    effects.push(LedgerEffect::TransferOut { token_index: k, amount: out });
    push_governance_mint(&mut effects, g);
    Ok(DeFiReport { effects, solver_result: sr, latest_depth: sr.2 })
}

/// Swaps token `k` in for exactly `x`: transfers in, pays out, mints the governance fee.
pub fn process_swap_exact_output(
    s: &PoolState,
    amp: &DecimalU64,
    balances: &Vec<u64>,
    supply: u64,
    max_in: u64,
    k: usize,
    x: &Vec<u64>,
) -> (r: Result<DeFiReport, PoolError>)
    requires
        op_params(*s, *amp, balances@, x.len() as nat),
        k < x.len(),
    ensures
        match swap_output_status(*s, *amp, balances@, supply as int, max_in as int, k as int, x@) {
            Err(e) => r == Err::<DeFiReport, PoolError>(e),
            Ok(_) => r is Ok,
        },
        match r {
            Ok(rep) => swap_output_report(*s, *amp, balances@, supply as int, max_in as int, k as int, x@, rep),
            Err(e) => op_error(e),
        },
{
    let b = equalize(balances, &s.token_decimal_equalizers);
    let xe = equalize(x, &s.token_decimal_equalizers);
    let sup = to_equalized(supply, s.lp_decimal_equalizer);
    let sr = match swap_exact_output(k, &xe, &b, amp, &s.lp_fee.rate, &s.governance_fee.rate, sup, s.previous_depth) {
        Ok(v) => v,
        Err(err) => return Err(err),
    };
    let input = match from_equalized_up(sr.0, s.token_decimal_equalizers[k]) {
        Ok(v) => v,
        Err(err) => return Err(err),
    };
    let g = match from_equalized(sr.1, s.lp_decimal_equalizer) {
        Ok(v) => v,
        Err(err) => return Err(err),
    };
    if input > max_in {
        return Err(PoolError::OutsideSpecifiedLimits);
    }
    let mut effects: Vec<LedgerEffect> = Vec::new();
    effects.push(LedgerEffect::TransferIn { token_index: k, amount: input });
    push_transfers(&mut effects, x, false, true);
    push_governance_mint(&mut effects, g);
    assert(effects@ =~= seq![LedgerEffect::TransferIn { token_index: k, amount: input }]
        + transfer_effects(x@, x.len() as nat, false, true) + governance_effect(g as int));
    Ok(DeFiReport { effects, solver_result: sr, latest_depth: sr.2 })
}

/// Burns exactly `burn` LP tokens for token `k`: burns, pays out, mints the governance fee.
pub fn process_remove_exact_burn(
    s: &PoolState,
    amp: &DecimalU64,
    balances: &Vec<u64>,
    supply: u64,
    burn: u64,
    k: usize,
    min_out: u64,
) -> (r: Result<DeFiReport, PoolError>)
    requires
        op_params(*s, *amp, balances@, balances.len() as nat),
        k < balances.len(),
        0 < burn < supply,
    ensures
        match remove_burn_status(*s, *amp, balances@, supply as int, burn as int, k as int, min_out as int) {
            Err(e) => r == Err::<DeFiReport, PoolError>(e),
            Ok(_) => r is Ok,
        },
        match r {
            Ok(rep) => remove_burn_report(*s, *amp, balances@, supply as int, burn as int, k as int, min_out as int, rep),
            Err(e) => op_error(e),
        },
{
    let b = equalize(balances, &s.token_decimal_equalizers);
    let sup = to_equalized(supply, s.lp_decimal_equalizer);
    let eb = to_equalized(burn, s.lp_decimal_equalizer);
    proof {
        let p = pow10(s.lp_decimal_equalizer as nat) as int;
        lemma_pow10_positive(s.lp_decimal_equalizer as nat);
        assert(0 < burn * p < supply * p) by (nonlinear_arith)
            requires
                0 < burn < supply,
                p >= 1,
        ;
    }
    let sr = match remove_exact_burn(eb, k, &b, amp, &s.lp_fee.rate, &s.governance_fee.rate, sup, s.previous_depth) {
        Ok(v) => v,
        Err(err) => return Err(err),
    };
    let out = match from_equalized_down(sr.0, s.token_decimal_equalizers[k]) {
        Ok(v) => v,
        Err(err) => return Err(err),
    };
    let g = match from_equalized(sr.1, s.lp_decimal_equalizer) {
        Ok(v) => v,
        Err(err) => return Err(err),
    };
    if out < min_out {
        return Err(PoolError::OutsideSpecifiedLimits);
    }
    let mut effects: Vec<LedgerEffect> = Vec::new();
    effects.push(LedgerEffect::BurnFromUser { amount: burn });
    effects.push(LedgerEffect::TransferOut { token_index: k, amount: out });
    push_governance_mint(&mut effects, g);
    assert(effects@ =~= seq![
        LedgerEffect::BurnFromUser { amount: burn },
        LedgerEffect::TransferOut { token_index: k, amount: out },
    ] + governance_effect(g as int));
    Ok(DeFiReport { effects, solver_result: sr, latest_depth: sr.2 })
}

/// Takes out exactly `x`: burns what that costs, pays out, mints the governance fee.
pub fn process_remove_exact_output(
    s: &PoolState,
    amp: &DecimalU64,
    balances: &Vec<u64>,
    supply: u64,
    max_burn: u64,
    x: &Vec<u64>,
) -> (r: Result<DeFiReport, PoolError>)
    requires
        op_params(*s, *amp, balances@, x.len() as nat),
    ensures
        match remove_output_status(*s, *amp, balances@, supply as int, max_burn as int, x@) {
            Err(e) => r == Err::<DeFiReport, PoolError>(e),
            Ok(_) => r is Ok,
        },
        match r {
            Ok(rep) => remove_output_report(*s, *amp, balances@, supply as int, max_burn as int, x@, rep),
            Err(e) => op_error(e),
        },
{
    let b = equalize(balances, &s.token_decimal_equalizers);
    let xe = equalize(x, &s.token_decimal_equalizers);
    let sup = to_equalized(supply, s.lp_decimal_equalizer);
    let sr = match remove_exact_output(&xe, &b, amp, &s.lp_fee.rate, &s.governance_fee.rate, sup, s.previous_depth) {
        Ok(v) => v,
        Err(err) => return Err(err),
    };
    let burn = match from_equalized_up(sr.0, s.lp_decimal_equalizer) {
        Ok(v) => v,
        Err(err) => return Err(err),
    };
    let g = match from_equalized(sr.1, s.lp_decimal_equalizer) {
        Ok(v) => v,
        Err(err) => return Err(err),
    };
    if burn > max_burn {
        return Err(PoolError::OutsideSpecifiedLimits);
    }
    let mut effects: Vec<LedgerEffect> = Vec::new();
    effects.push(LedgerEffect::BurnFromUser { amount: burn });
    push_transfers(&mut effects, x, false, true);
    push_governance_mint(&mut effects, g);
    assert(effects@ =~= seq![LedgerEffect::BurnFromUser { amount: burn }] + transfer_effects(
        x@,
        x.len() as nat,
        false,
        true,
    ) + governance_effect(g as int));
    Ok(DeFiReport { effects, solver_result: sr, latest_depth: sr.2 })
}

/// Burns `burn` LP tokens for a proportional share of every token, with no fee.
pub fn process_remove_uniform(s: &PoolState, balances: &Vec<u64>, supply: u64, burn: u64, mins: &Vec<u64>) -> (r:
    Result<DeFiReport, PoolError>)
    requires
        0 < burn <= supply,
        mins.len() == balances.len(),
    ensures
        match uniform_status(balances@, supply as int, burn as int, mins@) {
            Err(e) => r == Err::<DeFiReport, PoolError>(e),
            Ok(_) => r is Ok,
        },
        match r {
            Ok(rep) => uniform_report(*s, balances@, supply as int, burn as int, mins@, rep),
            Err(e) => e == PoolError::OutsideSpecifiedLimits,
        },
{
    let (outs, latest) = remove_uniform(burn, balances, supply, s.previous_depth);
    assert(outs@ =~= uniform_amounts(balances@, burn as int, supply as int));
    let mut i: usize = 0;
    while i < outs.len()
        invariant
            i <= outs.len() == mins.len(),
            outs@ == uniform_amounts(balances@, burn as int, supply as int),
            forall|j: int| 0 <= j < i ==> #[trigger] outs@[j] >= mins@[j],
        decreases outs.len() - i,
    {
        if outs[i] < mins[i] {
            assert(uniform_amounts(balances@, burn as int, supply as int)[i as int] < mins@[i as int]);
            return Err(PoolError::OutsideSpecifiedLimits);
        }
        i = i + 1;
    }
    let mut effects: Vec<LedgerEffect> = Vec::new();
    effects.push(LedgerEffect::BurnFromUser { amount: burn });
    push_transfers(&mut effects, &outs, false, false);
    Ok(DeFiReport { effects, solver_result: (0, 0, latest), latest_depth: latest })
}

} // verus!
