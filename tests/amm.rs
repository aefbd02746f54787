use amm_core::error::AmmError;
use amm_core::key::Key;
use amm_core::liquidity::{add_liquidity, remove_liquidity, AddLiquidity, RemoveLiquidity};
use amm_core::math::{isqrt, mul_div};
use amm_core::pool::{create_pool, pool_id, CreatePool, Pool, PoolRegistry};
use amm_core::swap::{swap, Swap};
use amm_core::whitelist::{whitelist_hook, Whitelist, WhitelistHook};

fn key(b: u8) -> Key {
    Key::new([b; 32])
}

fn plain_add() -> AddLiquidity {
    AddLiquidity { token_a_hook: None, token_b_hook: None }
}

fn plain_swap() -> Swap {
    Swap { token_a_hook: None, token_b_hook: None }
}

fn plain_remove(balance: u64) -> RemoveLiquidity {
    RemoveLiquidity { user_lp_balance: balance, token_a_hook: None, token_b_hook: None }
}

fn empty_pool(fee_bps: u16) -> Pool {
    let mut reg = PoolRegistry::new();
    let ctx = CreatePool { token_a_mint: key(1), token_b_mint: key(2) };
    let id = create_pool(&mut reg, &ctx, fee_bps, None).unwrap();
    reg.get(&id).unwrap()
}

fn funded_pool() -> Pool {
    let wl = Whitelist::new(key(9));
    let mut pool = empty_pool(30);
    add_liquidity(&mut pool, &wl, &plain_add(), 1000, 4000).unwrap();
    pool
}

#[test]
fn mul_div_floors() {
    assert_eq!(mul_div(7, 3, 2), Ok(10));
    assert_eq!(mul_div(u64::MAX, u64::MAX, u64::MAX), Ok(u64::MAX));
}

#[test]
fn mul_div_errors() {
    assert_eq!(mul_div(7, 3, 0), Err(AmmError::DivisionByZero));
    assert_eq!(mul_div(u64::MAX, 2, 1), Err(AmmError::ArithmeticOverflow));
}

#[test]
fn isqrt_values() {
    assert_eq!(isqrt(0), 0);
    assert_eq!(isqrt(1), 1);
    assert_eq!(isqrt(15), 3);
    assert_eq!(isqrt(16), 4);
    assert_eq!(isqrt(4_000_000), 2000);
    assert_eq!(isqrt(u128::MAX), u64::MAX);
}

#[test]
fn key_order() {
    assert!(key(1).less_than(&key(2)));
    assert!(!key(2).less_than(&key(1)));
    assert!(!key(1).less_than(&key(1)));
    assert!(key(3).same_as(&key(3)));
    assert!(!key(3).same_as(&key(4)));
}

#[test]
fn create_pool_rejects_fee_above_max() {
    let mut reg = PoolRegistry::new();
    let ctx = CreatePool { token_a_mint: key(1), token_b_mint: key(2) };
    assert_eq!(create_pool(&mut reg, &ctx, 10001, None).unwrap_err(), AmmError::InvalidFee);
    assert_eq!(create_pool(&mut reg, &ctx, u16::MAX, None).unwrap_err(), AmmError::InvalidFee);
    assert_eq!(reg.pools.len(), 0);
    let id = create_pool(&mut reg, &ctx, 10000, None).unwrap();
    assert!(id.same_as(&pool_id(&key(1), &key(2), 10000)));
}

#[test]
fn create_pool_starts_empty_in_canonical_order() {
    let mut reg = PoolRegistry::new();
    let ctx = CreatePool { token_a_mint: key(5), token_b_mint: key(2) };
    let id = create_pool(&mut reg, &ctx, 30, Some(key(7))).unwrap();
    assert!(id.token_a_mint.same_as(&key(2)) && id.token_b_mint.same_as(&key(5)) && id.fee_bps == 30);
    let p = reg.get(&id).unwrap();
    assert!(p.token_a_mint.same_as(&key(2)));
    assert!(p.token_b_mint.same_as(&key(5)));
    assert_eq!((p.reserve_a, p.reserve_b, p.lp_supply, p.fee_bps), (0, 0, 0, 30));
    assert!(p.allowed_hook.unwrap().same_as(&key(7)));
}

#[test]
fn create_pool_twice_fails() {
    let mut reg = PoolRegistry::new();
    let ctx = CreatePool { token_a_mint: key(1), token_b_mint: key(2) };
    let swapped = CreatePool { token_a_mint: key(2), token_b_mint: key(1) };
    let first = create_pool(&mut reg, &ctx, 30, None).unwrap();
    assert!(first.same_as(&pool_id(&key(2), &key(1), 30)));
    assert_eq!(create_pool(&mut reg, &swapped, 30, None).unwrap_err(), AmmError::PoolAlreadyExists);
    let other_fee = create_pool(&mut reg, &swapped, 5, None).unwrap();
    assert!(!other_fee.same_as(&first));
    assert_eq!(reg.pools.len(), 2);
    assert_eq!(reg.get(&pool_id(&key(2), &key(1), 5)).unwrap().fee_bps, 5);
    assert!(reg.get(&pool_id(&key(1), &key(3), 5)).is_none());
}

#[test]
fn pool_id_depends_on_pair_and_fee_only() {
    let mut empty = PoolRegistry::new();
    let mut busy = PoolRegistry::new();
    let unrelated = CreatePool { token_a_mint: key(7), token_b_mint: key(8) };
    create_pool(&mut busy, &unrelated, 30, None).unwrap();
    let ctx = CreatePool { token_a_mint: key(4), token_b_mint: key(3) };
    let swapped = CreatePool { token_a_mint: key(3), token_b_mint: key(4) };
    let id1 = create_pool(&mut empty, &ctx, 30, None).unwrap();
    let id2 = create_pool(&mut busy, &swapped, 30, None).unwrap();
    assert!(id1.same_as(&id2));
    assert!(id1.same_as(&pool_id(&key(4), &key(3), 30)));
    let p1 = empty.get(&id1).unwrap();
    let p2 = busy.get(&id2).unwrap();
    assert!(p1.token_a_mint.same_as(&p2.token_a_mint) && p1.token_b_mint.same_as(&p2.token_b_mint));
    assert_eq!((p1.reserve_a, p1.reserve_b, p1.lp_supply, p1.fee_bps), (p2.reserve_a, p2.reserve_b, p2.lp_supply, p2.fee_bps));
}

#[test]
fn first_deposit_mints_square_root() {
    let wl = Whitelist::new(key(9));
    let mut pool = empty_pool(30);
    assert_eq!(add_liquidity(&mut pool, &wl, &plain_add(), 1000, 4000), Ok(2000));
    assert_eq!((pool.reserve_a, pool.reserve_b, pool.lp_supply), (1000, 4000, 2000));
}

#[test]
fn first_deposit_rounds_root_down() {
    let wl = Whitelist::new(key(9));
    let mut pool = empty_pool(30);
    assert_eq!(add_liquidity(&mut pool, &wl, &plain_add(), 3, 5), Ok(3));
    assert_eq!((pool.reserve_a, pool.reserve_b, pool.lp_supply), (3, 5, 3));
}

#[test]
fn first_deposit_needs_both_amounts() {
    let wl = Whitelist::new(key(9));
    let mut pool = empty_pool(30);
    assert_eq!(add_liquidity(&mut pool, &wl, &plain_add(), 0, 4000), Err(AmmError::ZeroLiquidity));
    assert_eq!(add_liquidity(&mut pool, &wl, &plain_add(), 10, 0), Err(AmmError::ZeroLiquidity));
    assert_eq!((pool.reserve_a, pool.reserve_b, pool.lp_supply), (0, 0, 0));
}

#[test]
fn later_deposit_at_ratio() {
    let wl = Whitelist::new(key(9));
    let mut pool = funded_pool();
    assert_eq!(add_liquidity(&mut pool, &wl, &plain_add(), 100, 400), Ok(200));
    assert_eq!((pool.reserve_a, pool.reserve_b, pool.lp_supply), (1100, 4400, 2200));
}

#[test]
fn later_deposit_off_ratio_fails() {
    let wl = Whitelist::new(key(9));
    let mut pool = funded_pool();
    assert_eq!(add_liquidity(&mut pool, &wl, &plain_add(), 100, 500), Err(AmmError::RatioMismatch));
    assert_eq!((pool.reserve_a, pool.reserve_b, pool.lp_supply), (1000, 4000, 2000));
}

#[test]
fn later_deposit_overflow() {
    let wl = Whitelist::new(key(9));
    let mut pool = empty_pool(30);
    pool.reserve_a = 1;
    pool.reserve_b = 1;
    pool.lp_supply = 1 << 63;
    assert_eq!(add_liquidity(&mut pool, &wl, &plain_add(), 4, 4), Err(AmmError::ArithmeticOverflow));
    pool.lp_supply = 1;
    pool.reserve_a = u64::MAX;
    pool.reserve_b = u64::MAX;
    assert_eq!(add_liquidity(&mut pool, &wl, &plain_add(), 1, 1), Err(AmmError::ArithmeticOverflow));
    assert_eq!(pool.lp_supply, 1);
}

#[test]
fn withdraw_pays_floor_share() {
    let wl = Whitelist::new(key(9));
    let mut pool = funded_pool();
    assert_eq!(remove_liquidity(&mut pool, &wl, &plain_remove(2000), 3), Ok((1, 6)));
    assert_eq!((pool.reserve_a, pool.reserve_b, pool.lp_supply), (999, 3994, 1997));
}

#[test]
fn withdraw_more_than_held_fails() {
    let wl = Whitelist::new(key(9));
    let mut pool = funded_pool();
    assert_eq!(
        remove_liquidity(&mut pool, &wl, &plain_remove(10), 11),
        Err(AmmError::InsufficientShares)
    );
    assert_eq!(
        remove_liquidity(&mut pool, &wl, &plain_remove(5000), 2001),
        Err(AmmError::InsufficientShares)
    );
    assert_eq!((pool.reserve_a, pool.reserve_b, pool.lp_supply), (1000, 4000, 2000));
}

#[test]
fn withdraw_from_empty_pool_fails() {
    let wl = Whitelist::new(key(9));
    let mut pool = empty_pool(30);
    assert_eq!(remove_liquidity(&mut pool, &wl, &plain_remove(0), 0), Err(AmmError::DivisionByZero));
}

#[test]
fn deposit_withdraw_round_trip_empty_pool() {
    let wl = Whitelist::new(key(9));
    let mut pool = empty_pool(30);
    let minted = add_liquidity(&mut pool, &wl, &plain_add(), 1234, 5678).unwrap();
    assert_eq!(minted, 2647);
    assert_eq!(remove_liquidity(&mut pool, &wl, &plain_remove(minted), minted), Ok((1234, 5678)));
    assert_eq!((pool.reserve_a, pool.reserve_b, pool.lp_supply), (0, 0, 0));
}

#[test]
fn deposit_withdraw_round_trip_funded_pool() {
    let wl = Whitelist::new(key(9));
    let mut pool = funded_pool();
    swap(&mut pool, &wl, &plain_swap(), key(1), 100, 0).unwrap();
    let before = (pool.reserve_a, pool.reserve_b, pool.lp_supply);
    let minted = add_liquidity(&mut pool, &wl, &plain_add(), 1100, 3639).unwrap();
    assert_eq!(minted, 2000);
    let (out_a, out_b) = remove_liquidity(&mut pool, &wl, &plain_remove(minted), minted).unwrap();
    assert!(out_a <= 1100 && out_b <= 3639);
    assert!(pool.reserve_a >= before.0 && pool.reserve_b >= before.1);
    assert_eq!(pool.lp_supply, before.2);
}

#[test]
fn swap_scenario_from_fee_thirty() {
    let wl = Whitelist::new(key(9));
    let mut pool = funded_pool();
    assert_eq!(swap(&mut pool, &wl, &plain_swap(), key(1), 100, 361), Ok(361));
    assert_eq!((pool.reserve_a, pool.reserve_b, pool.lp_supply), (1100, 3639, 2000));
}

#[test]
fn swap_slippage_fails_and_keeps_reserves() {
    let wl = Whitelist::new(key(9));
    let mut pool = funded_pool();
    assert_eq!(
        swap(&mut pool, &wl, &plain_swap(), key(1), 100, 362),
        Err(AmmError::SlippageExceeded { amount_out: 361 })
    );
    assert_eq!((pool.reserve_a, pool.reserve_b, pool.lp_supply), (1000, 4000, 2000));
}

#[test]
fn swap_product_does_not_fall_in_scenario() {
    let wl = Whitelist::new(key(9));
    let mut pool = funded_pool();
    swap(&mut pool, &wl, &plain_swap(), key(1), 100, 0).unwrap();
    let k_after = (pool.reserve_a as u128) * (pool.reserve_b as u128);
    assert_eq!(k_after, 4_002_900);
    assert!(k_after >= 1000 * 4000);
}

#[test]
fn swap_product_holds_exactly_when_fee_covers_rounding() {
    let wl = Whitelist::new(key(9));
    let mut pool = funded_pool();
    let mut kept = 0;
    let mut lost = 0;
    for (asset, amount) in [(1u8, 100u64), (2, 250), (1, 7), (2, 1000), (1, 33)] {
        let (r_in, r_out) = if asset == 1 {
            (pool.reserve_a as u128, pool.reserve_b as u128)
        } else {
            (pool.reserve_b as u128, pool.reserve_a as u128)
        };
        let k = r_in * r_out;
        let f = (amount as u128) * 9970 / 10000;
        let d = r_in + f;
        let covered = ((amount as u128) - f) * (k / d) >= k % d;
        swap(&mut pool, &wl, &plain_swap(), key(asset), amount, 0).unwrap();
        let k2 = (pool.reserve_a as u128) * (pool.reserve_b as u128);
        assert_eq!(k2 >= k, covered);
        if covered {
            kept += 1;
        } else {
            lost += 1;
        }
    }
    assert_eq!((kept, lost), (3, 2));
}

#[test]
fn swap_product_can_fall_without_fee() {
    let wl = Whitelist::new(key(9));
    let mut pool = empty_pool(0);
    add_liquidity(&mut pool, &wl, &plain_add(), 1000, 4000).unwrap();
    assert_eq!(swap(&mut pool, &wl, &plain_swap(), key(1), 99, 0), Ok(361));
    assert_eq!((pool.reserve_a, pool.reserve_b), (1099, 3639));
    assert!((pool.reserve_a as u128) * (pool.reserve_b as u128) < 1000 * 4000);
}

#[test]
fn swap_from_side_b() {
    let wl = Whitelist::new(key(9));
    let mut pool = funded_pool();
    // after fee: 400 * 9970 / 10000 = 398; out = 1000 - 4_000_000 / 4398 = 1000 - 909
    assert_eq!(swap(&mut pool, &wl, &plain_swap(), key(2), 400, 0), Ok(91));
    assert_eq!((pool.reserve_a, pool.reserve_b), (909, 4400));
}

#[test]
fn swap_unknown_asset() {
    let wl = Whitelist::new(key(9));
    let mut pool = funded_pool();
    assert_eq!(swap(&mut pool, &wl, &plain_swap(), key(3), 100, 0), Err(AmmError::UnknownAsset));
}

#[test]
fn swap_on_empty_pool_fails() {
    let wl = Whitelist::new(key(9));
    let mut pool = empty_pool(30);
    assert_eq!(swap(&mut pool, &wl, &plain_swap(), key(1), 100, 0), Err(AmmError::InsufficientLiquidity));
    assert_eq!(swap(&mut pool, &wl, &plain_swap(), key(1), 0, 0), Err(AmmError::DivisionByZero));
}

#[test]
fn swap_full_fee_yields_nothing() {
    let wl = Whitelist::new(key(9));
    let mut pool = empty_pool(10000);
    add_liquidity(&mut pool, &wl, &plain_add(), 1000, 4000).unwrap();
    assert_eq!(swap(&mut pool, &wl, &plain_swap(), key(1), 100, 0), Err(AmmError::InsufficientLiquidity));
}

#[test]
fn swap_input_reserve_overflow() {
    let wl = Whitelist::new(key(9));
    let mut pool = empty_pool(30);
    pool.reserve_a = u64::MAX - 5;
    pool.reserve_b = 1000;
    pool.lp_supply = 1000;
    assert_eq!(swap(&mut pool, &wl, &plain_swap(), key(1), 100, 0), Err(AmmError::ArithmeticOverflow));
    assert_eq!(pool.reserve_a, u64::MAX - 5);
}

#[test]
fn whitelist_admin_only() {
    let mut wl = Whitelist::new(key(9));
    let intruder = WhitelistHook { admin: key(8) };
    assert_eq!(whitelist_hook(&mut wl, &intruder, key(7)), Err(AmmError::Unauthorized));
    assert_eq!(wl.hook_programs.len(), 0);
    let admin = WhitelistHook { admin: key(9) };
    assert_eq!(whitelist_hook(&mut wl, &admin, key(7)), Ok(()));
    assert_eq!(whitelist_hook(&mut wl, &admin, key(7)), Ok(()));
    assert_eq!(wl.hook_programs.len(), 1);
    assert!(wl.contains(&key(7)));
    assert!(!wl.contains(&key(6)));
}

#[test]
fn hook_check_rules() {
    let mut wl = Whitelist::new(key(9));
    let h = Some(key(7));
    assert!(wl.check(&None, &None));
    assert!(!wl.check(&h, &h));
    assert!(!wl.check(&h, &None));
    whitelist_hook(&mut wl, &WhitelistHook { admin: key(9) }, key(7)).unwrap();
    assert!(wl.check(&h, &h));
    assert!(!wl.check(&h, &Some(key(6))));
    assert!(!wl.check(&Some(key(6)), &h));
}

#[test]
fn hook_bearing_mint_needs_whitelisted_hook() {
    let mut wl = Whitelist::new(key(9));
    let mut reg = PoolRegistry::new();
    let ctx = CreatePool { token_a_mint: key(1), token_b_mint: key(2) };
    let id = create_pool(&mut reg, &ctx, 30, Some(key(7))).unwrap();
    let mut pool = reg.get(&id).unwrap();
    let hooked = AddLiquidity { token_a_hook: Some(key(7)), token_b_hook: None };
    assert_eq!(add_liquidity(&mut pool, &wl, &hooked, 1000, 4000), Err(AmmError::HookNotWhitelisted));
    whitelist_hook(&mut wl, &WhitelistHook { admin: key(9) }, key(7)).unwrap();
    assert_eq!(add_liquidity(&mut pool, &wl, &hooked, 1000, 4000), Ok(2000));
    let rogue = Swap { token_a_hook: None, token_b_hook: Some(key(6)) };
    assert_eq!(swap(&mut pool, &wl, &rogue, key(1), 100, 0), Err(AmmError::HookNotWhitelisted));
    let rogue_out = RemoveLiquidity { user_lp_balance: 2000, token_a_hook: Some(key(6)), token_b_hook: None };
    assert_eq!(remove_liquidity(&mut pool, &wl, &rogue_out, 10), Err(AmmError::HookNotWhitelisted));
    assert_eq!((pool.reserve_a, pool.reserve_b, pool.lp_supply), (1000, 4000, 2000));
}
