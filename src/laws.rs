use vstd::prelude::*;
use crate::error::PoolError;
use crate::instruction::{DeFiInstruction, GovernanceInstruction};
use crate::processor::{DeFiAccounts, TokenAccountInfo, defi_precheck, governance_transition};
use crate::decimal::{DecimalU64, lemma_pow10_positive, pow10};
use crate::defi::{DeFiReport, remove_burn_report, swap_input_report};
use crate::equalizer::{equalized, from_eq, from_eq_down, to_eq};
use crate::stable_swap::{
    fee_gov, fee_lp, governance_mint, remove_burn_outcome, share_of, start_depth_of, swap_input_outcome,
};
use crate::state::{Key, PoolState};

verus! {

/// An enact of prepared fees by the governance key fails with `InsufficientDelay`
/// before the transition time and, where a fee account is set or no governance
/// fee is staged, succeeds at or after it.
pub proof fn lemma_fee_enact_time_gate<const N: usize>(s: PoolState, now: int, fee_account: Option<TokenAccountInfo>)
    requires
        s.fee_transition_ts != 0,
    ensures
        now < s.fee_transition_ts ==> governance_transition(
            s,
            GovernanceInstruction::<N>::EnactFeeChange {  },
            s.governance_key,
            true,
            now,
            fee_account,
        ).0 == Err::<(), PoolError>(PoolError::InsufficientDelay),
        now >= s.fee_transition_ts && (s.prepared_governance_fee.rate.value == 0
            || !s.governance_fee_key.spec_is_zero()) ==> governance_transition(
            s,
            GovernanceInstruction::<N>::EnactFeeChange {  },
            s.governance_key,
            true,
            now,
            fee_account,
        ).0 is Ok,
{
}

/// An enact of a prepared governance key by the governance key fails with
/// `InsufficientDelay` before the transition time and succeeds at or after it.
pub proof fn lemma_governance_enact_time_gate<const N: usize>(s: PoolState, now: int, fee_account: Option<TokenAccountInfo>)
    requires
        s.governance_transition_ts != 0,
    ensures
        now < s.governance_transition_ts ==> governance_transition(
            s,
            GovernanceInstruction::<N>::EnactGovernanceTransition {  },
            s.governance_key,
            true,
            now,
            fee_account,
        ).0 == Err::<(), PoolError>(PoolError::InsufficientDelay),
        now >= s.governance_transition_ts ==> governance_transition(
            s,
            GovernanceInstruction::<N>::EnactGovernanceTransition {  },
            s.governance_key,
            true,
            now,
            fee_account,
        ).0 is Ok,
{
}

/// While the pool is paused, every operation but a uniform removal is refused
/// with `PoolIsPaused`, whatever its accounts and inputs.
pub proof fn lemma_pause_gate<const N: usize>(
    ix: DeFiInstruction<N>,
    s: PoolState,
    acc: DeFiAccounts,
    program_id: Key,
    balances: Seq<u64>,
    supply: int,
)
    requires
        s.is_paused,
        !(ix is RemoveUniform),
    ensures
        defi_precheck(ix, s, acc, program_id, balances, supply) == Some(PoolError::PoolIsPaused),
{
}

/// The governance mint is the share `g / (l + g)` of the LP units that the
/// depth gained beyond the supply change stands for,
/// `(supply * d_new - supply_new * d0) / d0`, rounded down: within one unit of it.
pub proof fn lemma_governance_fee_share(supply: int, supply_new: int, d0: int, d_new: int, l: int, g: int)
    requires
        d0 > 0,
        l >= 0,
        g > 0,
        supply * d_new > supply_new * d0,
    ensures
        ({
            let gm = governance_mint(supply, supply_new, d0, d_new, l, g);
            let gained = supply * d_new - supply_new * d0;
            gm * (d0 * (l + g)) <= gained * g < (gm + 1) * (d0 * (l + g))
        }),
{
    let gained = supply * d_new - supply_new * d0;
    let den = d0 * (l + g);
    assert(den > 0) by (nonlinear_arith)
        requires
            den == d0 * (l + g),
            d0 > 0,
            l + g > 0,
    ;
    vstd::arithmetic::div_mod::lemma_fundamental_div_mod(gained * g, den);
    let q = (gained * g) / den;
    let m = (gained * g) % den;
    let x = gained * g;
    assert(q * den <= x < (q + 1) * den) by (nonlinear_arith)
        requires
            x == den * q + m,
            0 <= m < den,
    ;
}

/// A uniform removal of less than the whole supply leaves some of every token
/// that the pool holds.
pub proof fn lemma_uniform_removal_keeps_balances(balance: int, burn: int, supply: int)
    requires
        balance > 0,
        0 < burn < supply,
    ensures
        share_of(balance, burn, supply) < balance,
{
    assert(balance * burn < balance * supply) by (nonlinear_arith)
        requires
            balance > 0,
            burn < supply,
    ;
    vstd::arithmetic::div_mod::lemma_div_is_ordered(balance * burn, balance * supply - 1, supply);
    vstd::arithmetic::div_mod::lemma_fundamental_div_mod(balance * supply - 1, supply);
    let q = (balance * supply - 1) / supply;
    assert(q < balance) by (nonlinear_arith)
        requires
            balance * supply - 1 == supply * q + (balance * supply - 1) % supply,
            0 <= (balance * supply - 1) % supply < supply,
            supply > 0,
    ;
}

/// A swap or a one-token withdrawal never pays out the whole of a token the
/// pool holds: what it pays is below the balance.
pub proof fn lemma_single_output_keeps_balance(
    b: Seq<u128>,
    x: Seq<u128>,
    burn: int,
    k: int,
    amp: DecimalU64,
    lp: DecimalU64,
    gov: DecimalU64,
    supply: int,
    previous_depth: int,
    r: (u128, u128, u128),
)
    requires
        0 <= k < b.len(),
        b[k] > 0,
        swap_input_outcome(b, x, k, amp, lp, gov, supply, previous_depth, r) || remove_burn_outcome(
            b,
            burn,
            k,
            amp,
            lp,
            gov,
            supply,
            previous_depth,
            r,
        ),
    ensures
        r.0 < b[k],
{
}

/// An amount below `b` units at `e` extra digits, brought back rounding down,
/// is below `b`.
pub proof fn lemma_rescaled_output_within_balance(v: int, b: int, e: nat)
    requires
        0 <= v < to_eq(b, e),
    ensures
        from_eq_down(v, e) < b,
{
    lemma_pow10_positive(e);
    let p = pow10(e) as int;
    assert(v < b * p);
    assert(b * p == p * b) by (nonlinear_arith);
    vstd::arithmetic::div_mod::lemma_multiply_divide_lt(v, p, b);
    assert(from_eq_down(v, e) == v / p);
}

/// A swap never pays out the whole of the pool's balance of the token it pays.
pub proof fn lemma_swap_pays_within_balance(
    s: PoolState,
    amp: DecimalU64,
    balances: Seq<u64>,
    supply: int,
    x: Seq<u64>,
    k: int,
    min_out: int,
    rep: DeFiReport,
)
    requires
        0 <= k < balances.len() == s.token_decimal_equalizers@.len(),
        balances[k] > 0,
        swap_input_report(s, amp, balances, supply, x, k, min_out, rep),
    ensures
        ({
            let e = s.token_decimal_equalizers@[k] as nat;
            let out = from_eq_down(rep.solver_result.0 as int, e);
            out < balances[k]
        }),
{
    let e = s.token_decimal_equalizers@[k] as nat;
    let b = equalized(balances, s.token_decimal_equalizers@);
    lemma_pow10_positive(e);
    assert(b[k] == to_eq(balances[k] as int, e) as u128);
    assert(to_eq(balances[k] as int, e) >= 1) by (nonlinear_arith)
        requires
            balances[k] >= 1,
            pow10(e) >= 1,
            to_eq(balances[k] as int, e) == balances[k] * pow10(e),
    ;
    lemma_rescaled_output_within_balance(rep.solver_result.0 as int, balances[k] as int, e);
}

/// A one-token withdrawal never pays out the whole of the pool's balance of that token.
pub proof fn lemma_withdrawal_pays_within_balance(
    s: PoolState,
    amp: DecimalU64,
    balances: Seq<u64>,
    supply: int,
    burn: int,
    k: int,
    min_out: int,
    rep: DeFiReport,
)
    requires
        0 <= k < balances.len() == s.token_decimal_equalizers@.len(),
        balances[k] > 0,
        remove_burn_report(s, amp, balances, supply, burn, k, min_out, rep),
    ensures
        ({
            let e = s.token_decimal_equalizers@[k] as nat;
            let out = from_eq_down(rep.solver_result.0 as int, e);
            out < balances[k]
        }),
{
    let e = s.token_decimal_equalizers@[k] as nat;
    let b = equalized(balances, s.token_decimal_equalizers@);
    lemma_pow10_positive(e);
    assert(b[k] == to_eq(balances[k] as int, e) as u128);
    assert(to_eq(balances[k] as int, e) >= 1) by (nonlinear_arith)
        requires
            balances[k] >= 1,
            pow10(e) >= 1,
            to_eq(balances[k] as int, e) == balances[k] * pow10(e),
    ;
    lemma_rescaled_output_within_balance(rep.solver_result.0 as int, balances[k] as int, e);
}

/// A share computed at `e` extra digits and brought back rounding half up is
/// within one unit of the exact share: with `gm` the rounded-down
/// `y * 10^e / z`, `|from_eq(gm, e) * z - y| <= z`.
pub proof fn lemma_rescaled_share_within_one(y: int, z: int, e: nat, gm: int)
    requires
        y >= 0,
        z > 0,
        gm == (y * pow10(e)) / z,
    ensures
        from_eq(gm, e) * z <= y + z,
        y - z <= from_eq(gm, e) * z,
{
    lemma_pow10_positive(e);
    let p = pow10(e) as int;
    vstd::arithmetic::div_mod::lemma_fundamental_div_mod(y * p, z);
    let m = (y * p) % z;
    assert(gm * z <= y * p < (gm + 1) * z) by (nonlinear_arith)
        requires
            y * p == z * gm + m,
            0 <= m < z,
    ;
    if e == 0 {
        assert(p == 1);
        assert(from_eq(gm, e) == gm);
        assert(gm * z <= y < (gm + 1) * z) by (nonlinear_arith)
            requires
                gm * z <= y * p < (gm + 1) * z,
                p == 1,
        ;
        assert((gm + 1) * z == gm * z + z) by (nonlinear_arith);
    } else {
        let h = 5 * pow10((e - 1) as nat) as int;
        lemma_pow10_positive((e - 1) as nat);
        assert(p == 10 * pow10((e - 1) as nat));
        assert(2 * h == p && h >= 1);
        let rr = (gm + h) / p;
        assert(from_eq(gm, e) == rr);
        vstd::arithmetic::div_mod::lemma_fundamental_div_mod(gm + h, p);
        let mm = (gm + h) % p;
        assert(rr * p <= gm + h < (rr + 1) * p) by (nonlinear_arith)
            requires
                gm + h == p * rr + mm,
                0 <= mm < p,
        ;
        assert(rr * z <= y + z) by (nonlinear_arith)
            requires
                rr * p <= gm + h,
                gm * z <= y * p,
                2 * h == p,
                p > 0,
                z > 0,
        ;
        assert((rr + 1) * p * z > (gm + h) * z) by (nonlinear_arith)
            requires
                gm + h < (rr + 1) * p,
                z > 0,
        ;
        assert((gm + h) * z == gm * z + h * z) by (nonlinear_arith);
        assert(gm * z + z > y * p) by (nonlinear_arith)
            requires
                y * p < (gm + 1) * z,
        ;
        assert((rr + 1) * p * z == rr * z * p + p * z) by (nonlinear_arith);
        assert(rr * z * p > (y - z) * p) by (nonlinear_arith)
            requires
                rr * z * p + p * z > gm * z + h * z,
                gm * z + z > y * p,
                h >= 1,
                z > 0,
        ;
        assert(y - z <= rr * z) by (nonlinear_arith)
            requires
                rr * z * p > (y - z) * p,
                p > 0,
        ;
    }
}

/// The governance mint of a swap, in LP units, is within one unit of the
/// share `g / (l + g)` of the LP value of the depth gained,
/// `supply * (d_new - d0) / d0`.
pub proof fn lemma_swap_governance_share(
    s: PoolState,
    amp: DecimalU64,
    balances: Seq<u64>,
    supply: int,
    x: Seq<u64>,
    k: int,
    min_out: int,
    rep: DeFiReport,
)
    requires
        supply >= 0,
        swap_input_report(s, amp, balances, supply, x, k, min_out, rep),
        fee_gov(s.lp_fee.rate, s.governance_fee.rate) > 0,
        fee_lp(s.lp_fee.rate, s.governance_fee.rate) >= 0,
    ensures
        ({
            let e = s.lp_decimal_equalizer as nat;
            let b = equalized(balances, s.token_decimal_equalizers@);
            let d0 = start_depth_of(b, amp, s.previous_depth as int);
            let d_new = rep.solver_result.2 as int;
            let l = fee_lp(s.lp_fee.rate, s.governance_fee.rate);
            let g = fee_gov(s.lp_fee.rate, s.governance_fee.rate);
            let gm = from_eq(rep.solver_result.1 as int, e);
            let y = supply * (d_new - d0) * g;
            let z = d0 * (l + g);
            d_new > d0 ==> gm * z <= y + z && y - z <= gm * z
        }),
{
    let e = s.lp_decimal_equalizer as nat;
    let b = equalized(balances, s.token_decimal_equalizers@);
    let d0 = start_depth_of(b, amp, s.previous_depth as int);
    let d_new = rep.solver_result.2 as int;
    let l = fee_lp(s.lp_fee.rate, s.governance_fee.rate);
    let g = fee_gov(s.lp_fee.rate, s.governance_fee.rate);
    let y = supply * (d_new - d0) * g;
    let z = d0 * (l + g);
    if d_new > d0 {
        lemma_pow10_positive(e);
        let p = pow10(e) as int;
        let sup = to_eq(supply, e);
        assert(sup == supply * p);
        assert(z > 0 && y >= 0) by (nonlinear_arith)
            requires
                d0 > 0,
                l + g > 0,
                z == d0 * (l + g),
                supply >= 0,
                d_new > d0,
                g > 0,
                y == supply * (d_new - d0) * g,
        ;
        assert(sup * d_new - sup * d0 == supply * p * (d_new - d0)) by (nonlinear_arith)
            requires
                sup == supply * p,
        ;
        if supply * p * (d_new - d0) > 0 {
            assert(sup * d_new > sup * d0);
            assert((sup * d_new - sup * d0) * g == y * p) by (nonlinear_arith)
                requires
                    sup * d_new - sup * d0 == supply * p * (d_new - d0),
                    y == supply * (d_new - d0) * g,
            ;
            assert(rep.solver_result.1 as int == (y * p) / z);
        } else {
            assert(supply == 0) by (nonlinear_arith)
                requires
                    supply * p * (d_new - d0) <= 0,
                    supply >= 0,
                    p > 0,
                    d_new > d0,
            ;
            assert(y == 0) by (nonlinear_arith)
                requires
                    supply == 0,
                    y == supply * (d_new - d0) * g,
            ;
            assert(sup == 0) by (nonlinear_arith)
                requires
                    supply == 0,
                    sup == supply * p,
            ;
            assert(sup * d_new == 0 && sup * d0 == 0) by (nonlinear_arith)
                requires
                    sup == 0,
            ;
            assert(rep.solver_result.1 == 0);
            assert(y * p == 0) by (nonlinear_arith)
                requires
                    y == 0,
            ;
            assert((y * p) / z == 0);
        }
        lemma_rescaled_share_within_one(y, z, e, rep.solver_result.1 as int);
    }
}

} // verus!
