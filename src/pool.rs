use vstd::prelude::*;
use crate::error::AmmError;
use crate::key::{Key, key_lt};

verus! {

/// Largest fee rate, in basis points (100%).
pub const MAX_FEE_BPS: u16 = 10000;

/// The ledger of one trading pair: both reserves, the outstanding pool
/// shares, the fee rate and the transfer hook the pool admits.
#[derive(Clone, Copy, Debug)]
pub struct Pool {
    pub token_a_mint: Key,
    pub token_b_mint: Key,
    pub reserve_a: u64,
    pub reserve_b: u64,
    pub lp_supply: u64,
    pub fee_bps: u16,
    pub allowed_hook: Option<Key>,
}

/// The facts about a `create_pool` call that the registry reads: the two mints.
#[derive(Clone, Copy, Debug)]
pub struct CreatePool {
    pub token_a_mint: Key,
    pub token_b_mint: Key,
}

impl Pool {
    /// The fee is a rate at most 100%, the pair is in canonical order, and the
    /// pool is either empty or funded on both sides with shares outstanding.
    pub open spec fn wf(&self) -> bool {
        &&& self.fee_bps <= MAX_FEE_BPS
        &&& !key_lt(self.token_b_mint@, self.token_a_mint@)
        &&& (self.reserve_a == 0 <==> self.reserve_b == 0)
        &&& (self.reserve_a == 0 <==> self.lp_supply == 0)
    }
}

impl Pool {
    /// Whether a stored record satisfies the pool invariant.
    pub fn is_well_formed(&self) -> (r: bool)
        ensures
            r == self.wf(),
    {
        self.fee_bps <= MAX_FEE_BPS && !self.token_b_mint.less_than(&self.token_a_mint) && ((
        self.reserve_a == 0) == (self.reserve_b == 0)) && ((self.reserve_a == 0) == (self.lp_supply
            == 0))
    }
}

/// The pair `(x, y)` with the lexicographically smaller identifier first.
pub open spec fn canonical_pair(x: Key, y: Key) -> (Key, Key) {
    if key_lt(y@, x@) {
        (y, x)
    } else {
        (x, y)
    }
}

/// The identifier of a pool: its canonical pair and fee rate. It is
/// derived from those values alone, so recomputing it finds the pool again.
#[derive(Clone, Copy, Debug)]
pub struct PoolId {
    pub token_a_mint: Key,
    pub token_b_mint: Key,
    pub fee_bps: u16,
}

impl PoolId {
    pub open spec fn view(&self) -> (Seq<u8>, Seq<u8>, u16) {
        (self.token_a_mint@, self.token_b_mint@, self.fee_bps)
    }

    /// Whether two identifiers name the same pool.
    pub fn same_as(&self, other: &PoolId) -> (r: bool)
        ensures
            r == (self@ == other@),
    {
        self.token_a_mint.same_as(&other.token_a_mint) && self.token_b_mint.same_as(
            &other.token_b_mint,
        ) && self.fee_bps == other.fee_bps
    }
}

/// The identifier of the pool for the pair `{x, y}` at fee rate `fee_bps`.
pub open spec fn id_of(x: Key, y: Key, fee_bps: u16) -> PoolId {
    let (a, b) = canonical_pair(x, y);
    PoolId { token_a_mint: a, token_b_mint: b, fee_bps }
}

/// Derives the identifier of the pool for the pair `{x, y}`, in either
/// order, at fee rate `fee_bps`.
pub fn pool_id(x: &Key, y: &Key, fee_bps: u16) -> (r: PoolId)
    ensures
        r == id_of(*x, *y, fee_bps),
{
    if y.less_than(x) {
        PoolId { token_a_mint: *y, token_b_mint: *x, fee_bps }
    } else {
        PoolId { token_a_mint: *x, token_b_mint: *y, fee_bps }
    }
}

impl Pool {
    /// The identifier under which this pool is stored.
    pub open spec fn slot(&self) -> (Seq<u8>, Seq<u8>, u16) {
        (self.token_a_mint@, self.token_b_mint@, self.fee_bps)
    }
}

/// The pool records stored so far, keyed by `PoolId`: at most one per
/// canonical pair and fee rate.
#[derive(Debug)]
pub struct PoolRegistry {
    pub pools: Vec<Pool>,
}

impl PoolRegistry {
    /// A pool is stored under `id`.
    pub open spec fn holds(&self, id: (Seq<u8>, Seq<u8>, u16)) -> bool {
        exists|i: int| 0 <= i < self.pools@.len() && self.pools@[i].slot() == id
    }

    pub open spec fn wf(&self) -> bool {
        &&& forall|i: int| 0 <= i < self.pools@.len() ==> (#[trigger] self.pools@[i]).wf()
        &&& forall|i: int, j: int|
            0 <= i < self.pools@.len() && 0 <= j < self.pools@.len() && i != j ==> (
            #[trigger] self.pools@[i]).slot() != (#[trigger] self.pools@[j]).slot()
    }

    pub fn new() -> (r: PoolRegistry)
        ensures
            r.pools@.len() == 0,
            r.wf(),
    {
        PoolRegistry { pools: Vec::new() }
    }

    /// The pool stored under `id`, if any. Since the registry holds at most
    /// one pool per identifier, the record returned is the only one there.
    pub fn get(&self, id: &PoolId) -> (r: Option<Pool>)
        ensures
            match r {
                Some(p) => p.slot() == id@ && self.pools@.contains(p),
                None => !self.holds(id@),
            },
    {
        let n = self.pools.len();
        let mut i: usize = 0;
        while i < n
            invariant
                n == self.pools@.len(),
                i <= n,
                forall|j: int| 0 <= j < i ==> self.pools@[j].slot() != id@,
            decreases n - i,
        {
            let p = self.pools[i];
            if p.token_a_mint.same_as(&id.token_a_mint) && p.token_b_mint.same_as(&id.token_b_mint)
                && p.fee_bps == id.fee_bps {
                assert(self.pools@[i as int] == p);
                return Some(p);
            }
            i = i + 1;
        }
        None
    }
}

/// The pool that `create_pool` stores for a canonical pair: no reserves and no shares.
pub open spec fn fresh_pool(a: Key, b: Key, fee_bps: u16, allowed_hook: Option<Key>) -> Pool {
    Pool {
        token_a_mint: a,
        token_b_mint: b,
        reserve_a: 0,
        reserve_b: 0,
        lp_supply: 0,
        fee_bps,
        allowed_hook,
    }
}

/// Creates the empty pool of the pair's canonical order and fee rate and
/// returns its identifier, which depends on the pair and the fee alone.
pub fn create_pool(
    registry: &mut PoolRegistry,
    ctx: &CreatePool,
    fee_bps: u16,
    allowed_hook: Option<Key>,
) -> (r: Result<PoolId, AmmError>)
    requires
        old(registry).wf(),
    ensures
        final(registry).wf(),
        ({
            let id = id_of(ctx.token_a_mint, ctx.token_b_mint, fee_bps);
            if fee_bps > MAX_FEE_BPS {
                r == Err::<PoolId, AmmError>(AmmError::InvalidFee) && *final(registry) == *old(
                    registry,
                )
            } else if old(registry).holds(id@) {
                r == Err::<PoolId, AmmError>(AmmError::PoolAlreadyExists) && *final(registry)
                    == *old(registry)
            } else {
                &&& r == Ok::<PoolId, AmmError>(id)
                &&& final(registry).pools@ == old(registry).pools@.push(
                    fresh_pool(id.token_a_mint, id.token_b_mint, fee_bps, allowed_hook),
                )
            }
        }),
{
    if fee_bps > MAX_FEE_BPS {
        return Err(AmmError::InvalidFee);
    }
    let id = pool_id(&ctx.token_a_mint, &ctx.token_b_mint, fee_bps);
    if registry.get(&id).is_some() {
        return Err(AmmError::PoolAlreadyExists);
    }
    let pool = Pool {
        token_a_mint: id.token_a_mint,
        token_b_mint: id.token_b_mint,
        reserve_a: 0,
        reserve_b: 0,
        lp_supply: 0,
        fee_bps,
        allowed_hook,
    };
    proof {
        if key_lt(id.token_a_mint@, id.token_b_mint@) && key_lt(id.token_b_mint@, id.token_a_mint@) {
            crate::key::lemma_key_lt_asymmetric(id.token_a_mint@, id.token_b_mint@);
        }
    }
    registry.pools.push(pool);
    Ok(id)
}

} // verus!
