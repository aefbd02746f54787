use vstd::prelude::*;
use crate::error::AmmError;
use crate::key::Key;
use crate::math::{isqrt, isqrt_spec, lemma_isqrt_positive, lemma_share_bounds, mul_div};
use crate::pool::Pool;
use crate::whitelist::Whitelist;

verus! {

/// The facts about a deposit that the core reads: the transfer hooks that
/// the pool's two mints declare, if any.
#[derive(Clone, Copy, Debug)]
pub struct AddLiquidity {
    pub token_a_hook: Option<Key>,
    pub token_b_hook: Option<Key>,
}

/// The facts about a withdrawal that the core reads: the caller's balance of
/// pool shares and the transfer hooks of the pool's two mints.
#[derive(Clone, Copy, Debug)]
pub struct RemoveLiquidity {
    pub user_lp_balance: u64,
    pub token_a_hook: Option<Key>,
    pub token_b_hook: Option<Key>,
}

/// Shares that a deposit of `amount` implies against reserve `reserve`.
pub open spec fn implied_shares(amount: u64, lp_supply: u64, reserve: u64) -> int {
    amount * lp_supply / (reserve as int)
}

/// Outcome of a deposit: the pool afterwards and the shares minted, or the error.
pub open spec fn deposit_outcome(
    p: Pool,
    wl: Whitelist,
    ctx: AddLiquidity,
    amount_a: u64,
    amount_b: u64,
) -> Result<(Pool, u64), AmmError> {
    if !wl.pair_passes(ctx.token_a_hook, ctx.token_b_hook, p.allowed_hook) {
        Err(AmmError::HookNotWhitelisted)
    } else if p.lp_supply == 0 {
        if amount_a == 0 || amount_b == 0 {
            Err(AmmError::ZeroLiquidity)
        } else {
            let m = isqrt_spec(amount_a * amount_b) as u64;
            Ok((Pool { reserve_a: amount_a, reserve_b: amount_b, lp_supply: m, ..p }, m))
        }
    } else {
        let sa = implied_shares(amount_a, p.lp_supply, p.reserve_a);
        let sb = implied_shares(amount_b, p.lp_supply, p.reserve_b);
        if sa > u64::MAX || sb > u64::MAX {
            Err(AmmError::ArithmeticOverflow)
        } else if sa != sb {
            Err(AmmError::RatioMismatch)
        } else if p.reserve_a + amount_a > u64::MAX || p.reserve_b + amount_b > u64::MAX
            || p.lp_supply + sa > u64::MAX {
            Err(AmmError::ArithmeticOverflow)
        } else {
            Ok(
                (
                    Pool {
                        reserve_a: (p.reserve_a + amount_a) as u64,
                        reserve_b: (p.reserve_b + amount_b) as u64,
                        lp_supply: (p.lp_supply + sa) as u64,
                        ..p
                    },
                    sa as u64,
                ),
            )
        }
    }
}

/// Outcome of a withdrawal: the pool afterwards and the amounts paid out, or the error.
pub open spec fn withdraw_outcome(p: Pool, wl: Whitelist, ctx: RemoveLiquidity, lp_amount: u64) -> Result<
    (Pool, (u64, u64)),
    AmmError,
> {
    if !wl.pair_passes(ctx.token_a_hook, ctx.token_b_hook, p.allowed_hook) {
        Err(AmmError::HookNotWhitelisted)
    } else if lp_amount > ctx.user_lp_balance || lp_amount > p.lp_supply {
        Err(AmmError::InsufficientShares)
    } else if p.lp_supply == 0 {
        Err(AmmError::DivisionByZero)
    } else {
        let out_a = (p.reserve_a * lp_amount / (p.lp_supply as int)) as u64;
        let out_b = (p.reserve_b * lp_amount / (p.lp_supply as int)) as u64;
        Ok(
            (
                Pool {
                    reserve_a: (p.reserve_a - out_a) as u64,
                    reserve_b: (p.reserve_b - out_b) as u64,
                    lp_supply: (p.lp_supply - lp_amount) as u64,
                    ..p
                },
                (out_a, out_b),
            ),
        )
    }
}

/// Deposits `amount_a` and `amount_b` and returns the shares minted for them.
/// The first deposit sets the reserves and mints the integer square root of
/// their product; later ones must match the pool's ratio exactly. The pool is
/// updated here, before the caller moves any tokens.
pub fn add_liquidity(
    pool: &mut Pool,
    whitelist: &Whitelist,
    ctx: &AddLiquidity,
    amount_a: u64,
    amount_b: u64,
) -> (r: Result<u64, AmmError>)
    requires
        old(pool).wf(),
    ensures
        final(pool).wf(),
        match deposit_outcome(*old(pool), *whitelist, *ctx, amount_a, amount_b) {
            Ok((np, m)) => r == Ok::<u64, AmmError>(m) && *final(pool) == np,
            Err(e) => r == Err::<u64, AmmError>(e) && *final(pool) == *old(pool),
        },
{
    if !whitelist.check_pair(&ctx.token_a_hook, &ctx.token_b_hook, &pool.allowed_hook) {
        return Err(AmmError::HookNotWhitelisted);
    }
    if pool.lp_supply == 0 {
        if amount_a == 0 || amount_b == 0 {
            return Err(AmmError::ZeroLiquidity);
        }
        proof {
            assert(1 <= amount_a * amount_b <= u64::MAX * u64::MAX) by (nonlinear_arith)
                requires 1 <= amount_a, 1 <= amount_b, amount_a <= u64::MAX, amount_b <= u64::MAX;
        }
        let minted = isqrt((amount_a as u128) * (amount_b as u128));
        proof {
            lemma_isqrt_positive(amount_a * amount_b, minted as int);
        }
        pool.reserve_a = amount_a;
        pool.reserve_b = amount_b;
        pool.lp_supply = minted;
        return Ok(minted);
    }
    let sa = match mul_div(amount_a, pool.lp_supply, pool.reserve_a) {
        Ok(v) => v,
        Err(e) => return Err(e),
    };
    let sb = match mul_div(amount_b, pool.lp_supply, pool.reserve_b) {
        Ok(v) => v,
        Err(e) => return Err(e),
    };
    if sa != sb {
        return Err(AmmError::RatioMismatch);
    }
    if amount_a > u64::MAX - pool.reserve_a || amount_b > u64::MAX - pool.reserve_b || sa > u64::MAX
        - pool.lp_supply {
        return Err(AmmError::ArithmeticOverflow);
    }
    pool.reserve_a = pool.reserve_a + amount_a;
    pool.reserve_b = pool.reserve_b + amount_b;
    pool.lp_supply = pool.lp_supply + sa;
    Ok(sa)
}

/// Redeems `lp_amount` shares for their floor-rounded slice of each reserve;
/// what rounding leaves stays in the pool. The pool is updated here, before
/// the caller moves any tokens.
pub fn remove_liquidity(
    pool: &mut Pool,
    whitelist: &Whitelist,
    ctx: &RemoveLiquidity,
    lp_amount: u64,
) -> (r: Result<(u64, u64), AmmError>)
    requires
        old(pool).wf(),
    ensures
        final(pool).wf(),
        match withdraw_outcome(*old(pool), *whitelist, *ctx, lp_amount) {
            Ok((np, out)) => r == Ok::<(u64, u64), AmmError>(out) && *final(pool) == np,
            Err(e) => r == Err::<(u64, u64), AmmError>(e) && *final(pool) == *old(pool),
        },
{
    if !whitelist.check_pair(&ctx.token_a_hook, &ctx.token_b_hook, &pool.allowed_hook) {
        return Err(AmmError::HookNotWhitelisted);
    }
    if lp_amount > ctx.user_lp_balance || lp_amount > pool.lp_supply {
        return Err(AmmError::InsufficientShares);
    }
    if pool.lp_supply == 0 {
        return Err(AmmError::DivisionByZero);
    }
    proof {
        lemma_share_bounds(pool.reserve_a as int, lp_amount as int, pool.lp_supply as int);
        lemma_share_bounds(pool.reserve_b as int, lp_amount as int, pool.lp_supply as int);
    }
    let out_a = match mul_div(pool.reserve_a, lp_amount, pool.lp_supply) {
        Ok(v) => v,
        Err(e) => return Err(e),
    };
    let out_b = match mul_div(pool.reserve_b, lp_amount, pool.lp_supply) {
        Ok(v) => v,
        Err(e) => return Err(e),
    };
    pool.reserve_a = pool.reserve_a - out_a;
    pool.reserve_b = pool.reserve_b - out_b;
    pool.lp_supply = pool.lp_supply - lp_amount;
    Ok((out_a, out_b))
}

} // verus!
