use vstd::prelude::*;
use crate::error::AmmError;
use crate::key::Key;
use crate::math::{lemma_share_bounds, mul_div};
use crate::pool::Pool;
use crate::whitelist::Whitelist;

verus! {

/// Basis points in a whole (100%).
pub const BPS_DENOMINATOR: u64 = 10000;

/// The facts about a swap that the core reads: the transfer hooks that the
/// pool's two mints declare, if any.
#[derive(Clone, Copy, Debug)]
pub struct Swap {
    pub token_a_hook: Option<Key>,
    pub token_b_hook: Option<Key>,
}

/// The part of `amount_in` that is priced once the fee is taken (floor).
pub open spec fn amount_after_fee(amount_in: u64, fee_bps: u16) -> int {
    amount_in * (10000 - fee_bps) / 10000
}

/// Constant-product output for `amount_in` against reserves `reserve_in` and
/// `reserve_out`: the output reserve less the floor of `k` over the new input side.
pub open spec fn swap_amount_out(reserve_in: u64, reserve_out: u64, amount_in: u64, fee_bps: u16) -> int {
    reserve_out - (reserve_in * reserve_out) / (reserve_in + amount_after_fee(amount_in, fee_bps))
}

/// The reserve on the input side of a swap that pays in `asset_in`.
pub open spec fn reserve_in_of(p: Pool, asset_in: Key) -> u64 {
    if asset_in@ == p.token_a_mint@ {
        p.reserve_a
    } else {
        p.reserve_b
    }
}

/// The reserve on the output side of a swap that pays in `asset_in`.
pub open spec fn reserve_out_of(p: Pool, asset_in: Key) -> u64 {
    if asset_in@ == p.token_a_mint@ {
        p.reserve_b
    } else {
        p.reserve_a
    }
}

/// The pool after a swap in `asset_in` that added `new_in` and left `new_out`.
pub open spec fn with_swap_reserves(p: Pool, asset_in: Key, new_in: u64, new_out: u64) -> Pool {
    if asset_in@ == p.token_a_mint@ {
        Pool { reserve_a: new_in, reserve_b: new_out, ..p }
    } else {
        Pool { reserve_a: new_out, reserve_b: new_in, ..p }
    }
}

/// Outcome of a swap: the pool afterwards and the amount paid out, or the error.
pub open spec fn swap_outcome(
    p: Pool,
    wl: Whitelist,
    ctx: Swap,
    asset_in: Key,
    amount_in: u64,
    min_amount_out: u64,
) -> Result<(Pool, u64), AmmError> {
    if asset_in@ != p.token_a_mint@ && asset_in@ != p.token_b_mint@ {
        Err(AmmError::UnknownAsset)
    } else if !wl.pair_passes(ctx.token_a_hook, ctx.token_b_hook, p.allowed_hook) {
        Err(AmmError::HookNotWhitelisted)
    } else {
        let r_in = reserve_in_of(p, asset_in);
        let r_out = reserve_out_of(p, asset_in);
        if r_in + amount_after_fee(amount_in, p.fee_bps) == 0 {
            Err(AmmError::DivisionByZero)
        } else {
            let out = swap_amount_out(r_in, r_out, amount_in, p.fee_bps);
            if out < min_amount_out {
                Err(AmmError::SlippageExceeded { amount_out: out as u64 })
            } else if out >= r_out || out == 0 {
                Err(AmmError::InsufficientLiquidity)
            } else if r_in + amount_in > u64::MAX {
                Err(AmmError::ArithmeticOverflow)
            } else {
                Ok(
                    (
                        with_swap_reserves(
                            p,
                            asset_in,
                            (r_in + amount_in) as u64,
                            (r_out - out) as u64,
                        ),
                        out as u64,
                    ),
                )
            }
        }
    }
}

/// Sells `amount_in` of `asset_in` to the pool and returns the amount of the
/// other asset bought. The whole input, fee included, joins the input reserve.
/// The pool is updated here, before the caller moves any tokens.
pub fn swap(
    pool: &mut Pool,
    whitelist: &Whitelist,
    ctx: &Swap,
    asset_in: Key,
    amount_in: u64,
    min_amount_out: u64,
) -> (r: Result<u64, AmmError>)
    requires
        old(pool).wf(),
    ensures
        final(pool).wf(),
        match swap_outcome(*old(pool), *whitelist, *ctx, asset_in, amount_in, min_amount_out) {
            Ok((np, out)) => r == Ok::<u64, AmmError>(out) && *final(pool) == np,
            Err(e) => r == Err::<u64, AmmError>(e) && *final(pool) == *old(pool),
        },
{
    let is_a = asset_in.same_as(&pool.token_a_mint);
    if !is_a && !asset_in.same_as(&pool.token_b_mint) {
        return Err(AmmError::UnknownAsset);
    }
    if !whitelist.check_pair(&ctx.token_a_hook, &ctx.token_b_hook, &pool.allowed_hook) {
        return Err(AmmError::HookNotWhitelisted);
    }
    let (r_in, r_out) = if is_a {
        (pool.reserve_a, pool.reserve_b)
    } else {
        (pool.reserve_b, pool.reserve_a)
    };
    let fee_rate: u64 = BPS_DENOMINATOR - pool.fee_bps as u64;
    proof {
        lemma_share_bounds(amount_in as int, fee_rate as int, BPS_DENOMINATOR as int);
    }
    let after_fee = match mul_div(amount_in, fee_rate, BPS_DENOMINATOR) {
        Ok(v) => v,
        Err(e) => return Err(e),
    };
    let divisor: u128 = r_in as u128 + after_fee as u128;
    if divisor == 0 {
        return Err(AmmError::DivisionByZero);
    }
    proof {
        assert(0 <= r_in * r_out <= u64::MAX * u64::MAX) by (nonlinear_arith)
            requires r_in <= u64::MAX, r_out <= u64::MAX;
        assert(r_in * r_out == r_out * r_in) by (nonlinear_arith);
        lemma_share_bounds(r_out as int, r_in as int, divisor as int);
    }
    let k: u128 = (r_in as u128) * (r_out as u128);
    let q: u128 = k / divisor;
    let amount_out: u64 = (r_out as u128 - q) as u64;
    if amount_out < min_amount_out {
        return Err(AmmError::SlippageExceeded { amount_out });
    }
    if amount_out >= r_out || amount_out == 0 {
        return Err(AmmError::InsufficientLiquidity);
    }
    if amount_in > u64::MAX - r_in {
        return Err(AmmError::ArithmeticOverflow);
    }
    let new_in = r_in + amount_in;
    let new_out = r_out - amount_out;
    if is_a {
        pool.reserve_a = new_in;
        pool.reserve_b = new_out;
    } else {
        pool.reserve_a = new_out;
        pool.reserve_b = new_in;
    }
    Ok(amount_out)
}

} // verus!
