use vstd::prelude::*;
use crate::error::AmmError;
use crate::key::Key;
use crate::liquidity::{AddLiquidity, RemoveLiquidity, deposit_outcome, withdraw_outcome};
use crate::math::{is_isqrt, isqrt_spec, lemma_floor_div, lemma_isqrt_exists, lemma_isqrt_positive, lemma_share_bounds};
use crate::pool::Pool;
use crate::swap::{Swap, amount_after_fee, reserve_in_of, reserve_out_of, swap_amount_out, swap_outcome};
use crate::whitelist::Whitelist;

verus! {

/// A deposit of two positive amounts into an empty pool whose mints pass
/// the hook check succeeds, mints the integer square root of the product of
/// the amounts, and leaves exactly the deposited amounts as reserves.
pub proof fn lemma_first_deposit(p: Pool, wl: Whitelist, ctx: AddLiquidity, amount_a: u64, amount_b: u64)
    requires
        p.wf(),
        p.lp_supply == 0,
        amount_a > 0,
        amount_b > 0,
        wl.pair_passes(ctx.token_a_hook, ctx.token_b_hook, p.allowed_hook),
    ensures
        match deposit_outcome(p, wl, ctx, amount_a, amount_b) {
            Ok((np, m)) => {
                &&& is_isqrt(amount_a * amount_b, m as int)
                &&& np.reserve_a == amount_a
                &&& np.reserve_b == amount_b
                &&& np.lp_supply == m
            },
            Err(_) => false,
        },
{
    let x = amount_a * amount_b;
    assert(1 <= x <= u64::MAX * u64::MAX) by (nonlinear_arith)
        requires 1 <= amount_a <= u64::MAX, 1 <= amount_b <= u64::MAX, x == amount_a * amount_b;
    let r = isqrt_spec(x);
    lemma_isqrt_exists(x);
    assert(r < 0x1_0000_0000_0000_0000) by (nonlinear_arith)
        requires r * r <= x, x <= u64::MAX * u64::MAX, 0 <= r;
}

/// Withdrawing, straight after a deposit, all the shares that the deposit
/// minted succeeds and pays back no more than was deposited of either asset;
/// the pool keeps at least its earlier reserves and returns to its earlier
/// share supply. Into an empty pool the round trip is exact.
pub proof fn lemma_deposit_withdraw_round_trip(
    p: Pool,
    wl: Whitelist,
    ctx: AddLiquidity,
    amount_a: u64,
    amount_b: u64,
)
    requires
        p.wf(),
        deposit_outcome(p, wl, ctx, amount_a, amount_b) is Ok,
    ensures
        ({
            let (p1, minted) = deposit_outcome(p, wl, ctx, amount_a, amount_b)->Ok_0;
            let back = RemoveLiquidity {
                user_lp_balance: minted,
                token_a_hook: ctx.token_a_hook,
                token_b_hook: ctx.token_b_hook,
            };
            match withdraw_outcome(p1, wl, back, minted) {
                Ok((p2, (out_a, out_b))) => {
                    &&& out_a <= amount_a
                    &&& out_b <= amount_b
                    &&& p2.reserve_a >= p.reserve_a
                    &&& p2.reserve_b >= p.reserve_b
                    &&& p2.lp_supply == p.lp_supply
                    &&& p.lp_supply == 0 ==> out_a == amount_a && out_b == amount_b && p2 == p
                },
                Err(_) => false,
            }
        }),
{
    let (p1, m) = deposit_outcome(p, wl, ctx, amount_a, amount_b)->Ok_0;
    if p.lp_supply == 0 {
        assert(amount_a * amount_b <= u64::MAX * u64::MAX) by (nonlinear_arith)
            requires amount_a <= u64::MAX, amount_b <= u64::MAX;
        lemma_isqrt_exists(amount_a * amount_b);
        assert(amount_a * amount_b >= 1) by (nonlinear_arith)
            requires amount_a >= 1, amount_b >= 1;
        lemma_isqrt_positive(amount_a * amount_b, isqrt_spec(amount_a * amount_b));
        assert(isqrt_spec(amount_a * amount_b) < 0x1_0000_0000_0000_0000) by (nonlinear_arith)
            requires
                isqrt_spec(amount_a * amount_b) * isqrt_spec(amount_a * amount_b) <= amount_a
                    * amount_b,
                amount_a * amount_b <= u64::MAX * u64::MAX,
                0 <= isqrt_spec(amount_a * amount_b),
        {
        }
        lemma_share_bounds(amount_a as int, m as int, m as int);
        lemma_share_bounds(amount_b as int, m as int, m as int);
    } else {
        let ra = p.reserve_a as int;
        let rb = p.reserve_b as int;
        let s = p.lp_supply as int;
        let a = amount_a as int;
        let b = amount_b as int;
        let mi = m as int;
        lemma_floor_div(a * s, ra);
        lemma_floor_div(b * s, rb);
        lemma_share_bounds(p1.reserve_a as int, mi, p1.lp_supply as int);
        lemma_share_bounds(p1.reserve_b as int, mi, p1.lp_supply as int);
        let oa = (ra + a) * mi / (s + mi);
        let ob = (rb + b) * mi / (s + mi);
        lemma_floor_div((ra + a) * mi, s + mi);
        lemma_floor_div((rb + b) * mi, s + mi);
        assert(oa <= a) by (nonlinear_arith)
            requires
                ra * mi <= a * s,
                (s + mi) * oa <= (ra + a) * mi,
                s + mi > 0,
        {
        }
        assert(ob <= b) by (nonlinear_arith)
            requires
                rb * mi <= b * s,
                (s + mi) * ob <= (rb + b) * mi,
                s + mi > 0,
        {
        }
    }
}

/// The part of the input that the fee keeps out of pricing, valued at the
/// output reserve left after the swap, covers what floor division dropped
/// when the price was computed.
pub open spec fn fee_covers_rounding(p: Pool, asset_in: Key, amount_in: u64) -> bool {
    let r_in = reserve_in_of(p, asset_in);
    let r_out = reserve_out_of(p, asset_in);
    let f = amount_after_fee(amount_in, p.fee_bps);
    let d = r_in + f;
    let k = r_in * r_out;
    (amount_in - f) * (k / d) >= k % d
}

/// Across a successful swap the product of the reserves does not decrease
/// exactly when the fee covers the rounding of the price division; with
/// floor division on the output side a swap with too small a fee can lose
/// that remainder.
pub proof fn lemma_swap_product(
    p: Pool,
    wl: Whitelist,
    ctx: Swap,
    asset_in: Key,
    amount_in: u64,
    min_amount_out: u64,
)
    requires
        p.wf(),
        swap_outcome(p, wl, ctx, asset_in, amount_in, min_amount_out) is Ok,
    ensures
        ({
            let np = swap_outcome(p, wl, ctx, asset_in, amount_in, min_amount_out)->Ok_0.0;
            np.reserve_a * np.reserve_b >= p.reserve_a * p.reserve_b <==> fee_covers_rounding(
                p,
                asset_in,
                amount_in,
            )
        }),
{
    let np = swap_outcome(p, wl, ctx, asset_in, amount_in, min_amount_out)->Ok_0.0;
    let r_in = reserve_in_of(p, asset_in) as int;
    let r_out = reserve_out_of(p, asset_in) as int;
    let a = amount_in as int;
    let f = amount_after_fee(amount_in, p.fee_bps);
    let d = r_in + f;
    let k = r_in * r_out;
    lemma_share_bounds(a, 10000 - p.fee_bps, 10000);
    assert(0 <= k) by (nonlinear_arith)
        requires 0 <= r_in, 0 <= r_out, k == r_in * r_out;
    lemma_floor_div(k, d);
    vstd::arithmetic::div_mod::lemma_fundamental_div_mod(k, d);
    let q = k / d;
    let rem = k % d;
    assert(np.reserve_a * np.reserve_b == (r_in + a) * q) by (nonlinear_arith)
        requires
            (np.reserve_a == r_in + a && np.reserve_b == q) || (np.reserve_a == q && np.reserve_b
                == r_in + a),
    {
    }
    assert((r_in + a) * q == d * q + (a - f) * q) by (nonlinear_arith)
        requires d == r_in + f;
    assert(p.reserve_a * p.reserve_b == k) by (nonlinear_arith)
        requires
            (p.reserve_a == r_in && p.reserve_b == r_out) || (p.reserve_a == r_out
                && p.reserve_b == r_in),
            k == r_in * r_out,
    {
    }
}

/// A swap on a known asset whose mints pass the hook check, and whose
/// computed output is below the caller's minimum, fails with
/// `SlippageExceeded` carrying that output.
pub proof fn lemma_slippage_rejected(
    p: Pool,
    wl: Whitelist,
    ctx: Swap,
    asset_in: Key,
    amount_in: u64,
    min_amount_out: u64,
)
    requires
        p.wf(),
        asset_in@ == p.token_a_mint@ || asset_in@ == p.token_b_mint@,
        wl.pair_passes(ctx.token_a_hook, ctx.token_b_hook, p.allowed_hook),
        reserve_in_of(p, asset_in) + amount_after_fee(amount_in, p.fee_bps) > 0,
        swap_amount_out(reserve_in_of(p, asset_in), reserve_out_of(p, asset_in), amount_in, p.fee_bps)
            < min_amount_out,
    ensures
        swap_outcome(p, wl, ctx, asset_in, amount_in, min_amount_out) == Err::<(Pool, u64), AmmError>(
            AmmError::SlippageExceeded {
                amount_out: swap_amount_out(
                    reserve_in_of(p, asset_in),
                    reserve_out_of(p, asset_in),
                    amount_in,
                    p.fee_bps,
                ) as u64,
            },
        ),
{
}

} // verus!
