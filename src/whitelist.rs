use vstd::prelude::*;
use crate::error::AmmError;
use crate::key::Key;

verus! {

/// The global set of transfer-hook programs that pools may select from,
/// owned by one administrator identity.
#[derive(Debug)]
pub struct Whitelist {
    pub authority: Key,
    pub hook_programs: Vec<Key>,
}

/// The facts about a `whitelist_hook` call that the whitelist reads: who signed it.
#[derive(Clone, Copy, Debug)]
pub struct WhitelistHook {
    pub admin: Key,
}

impl Whitelist {
    /// The approved hook programs, as byte sequences, in order of approval.
    pub open spec fn hooks(&self) -> Seq<Seq<u8>> {
        self.hook_programs@.map_values(|k: Key| k@)
    }

    pub open spec fn listed(&self, h: Seq<u8>) -> bool {
        self.hooks().contains(h)
    }

    /// No program is approved twice.
    pub open spec fn wf(&self) -> bool {
        self.hooks().no_duplicates()
    }

    /// A mint whose declared hook is `declared` may be moved by a pool whose
    /// selected hook is `allowed`: either the mint has no hook, or its hook is
    /// the pool's selection and that selection is approved.
    pub open spec fn hook_passes(&self, declared: Option<Key>, allowed: Option<Key>) -> bool {
        match declared {
            None => true,
            Some(d) => match allowed {
                Some(a) => d@ == a@ && self.listed(a@),
                None => false,
            },
        }
    }

    /// Both mints of a pool, with declared hooks `hook_a` and `hook_b`, pass the hook check.
    pub open spec fn pair_passes(
        &self,
        hook_a: Option<Key>,
        hook_b: Option<Key>,
        allowed: Option<Key>,
    ) -> bool {
        self.hook_passes(hook_a, allowed) && self.hook_passes(hook_b, allowed)
    }

    /// An empty whitelist administered by `authority`.
    pub fn new(authority: Key) -> (r: Whitelist)
        ensures
            r.authority@ == authority@,
            r.hooks() == Seq::<Seq<u8>>::empty(),
            r.wf(),
    {
        let r = Whitelist { authority, hook_programs: Vec::new() };
        assert(r.hooks() =~= Seq::<Seq<u8>>::empty());
        r
    }

    /// Whether `hook` is an approved program.
    pub fn contains(&self, hook: &Key) -> (r: bool)
        ensures
            r == self.listed(hook@),
    {
        let n = self.hook_programs.len();
        let mut i: usize = 0;
        while i < n
            invariant
                n == self.hook_programs@.len(),
                i <= n,
                forall|j: int| 0 <= j < i ==> self.hooks()[j] != hook@,
            decreases n - i,
        {
            if self.hook_programs[i].same_as(hook) {
                assert(self.hooks()[i as int] == hook@);
                return true;
            }
            i = i + 1;
        }
        proof {
            if self.listed(hook@) {
                let j = self.hooks().index_of(hook@);
                assert(self.hooks()[j] == hook@);
            }
        }
        false
    }

    /// Whether a stored record lists no program twice.
    pub fn is_well_formed(&self) -> (r: bool)
        ensures
            r == self.wf(),
    {
        let n = self.hook_programs.len();
        let mut i: usize = 0;
        while i < n
            invariant
                n == self.hook_programs@.len(),
                i <= n,
                forall|a: int, b: int|
                    0 <= a < i && 0 <= b < n && a != b ==> self.hooks()[a] != self.hooks()[b],
            decreases n - i,
        {
            let mut j: usize = i + 1;
            while j < n
                invariant
                    n == self.hook_programs@.len(),
                    i < j <= n,
                    forall|b: int| i < b < j ==> self.hooks()[i as int] != self.hooks()[b],
                decreases n - j,
            {
                if self.hook_programs[i].same_as(&self.hook_programs[j]) {
                    assert(self.hooks()[i as int] == self.hooks()[j as int]);
                    return false;
                }
                j = j + 1;
            }
            i = i + 1;
        }
        true
    }

    /// The check consulted before any transfer of a hook-bearing mint.
    pub fn check(&self, declared: &Option<Key>, allowed: &Option<Key>) -> (r: bool)
        ensures
            r == self.hook_passes(*declared, *allowed),
    {
        match declared {
            None => true,
            Some(d) => match allowed {
                Some(a) => d.same_as(a) && self.contains(a),
                None => false,
            },
        }
    }
}

impl Whitelist {
    /// The hook check applied to both mints of a pool.
    pub fn check_pair(&self, hook_a: &Option<Key>, hook_b: &Option<Key>, allowed: &Option<Key>) -> (r:
        bool)
        ensures
            r == self.pair_passes(*hook_a, *hook_b, *allowed),
    {
        self.check(hook_a, allowed) && self.check(hook_b, allowed)
    }
}

/// Approves `hook_program`. Only the whitelist's administrator may do so;
/// approving a program that is already listed changes nothing.
pub fn whitelist_hook(whitelist: &mut Whitelist, ctx: &WhitelistHook, hook_program: Key) -> (r:
    Result<(), AmmError>)
    requires
        old(whitelist).wf(),
    ensures
        final(whitelist).wf(),
        final(whitelist).authority == old(whitelist).authority,
        ctx.admin@ != old(whitelist).authority@ ==> r == Err::<(), AmmError>(
            AmmError::Unauthorized) && *final(whitelist) == *old(whitelist),
        ctx.admin@ == old(whitelist).authority@ ==> r == Ok::<(), AmmError>(()),
        ctx.admin@ == old(whitelist).authority@ && old(whitelist).listed(hook_program@)
            ==> final(whitelist).hooks() == old(whitelist).hooks(),
        ctx.admin@ == old(whitelist).authority@ && !old(whitelist).listed(hook_program@)
            ==> final(whitelist).hooks() == old(whitelist).hooks().push(hook_program@),
{
    if !ctx.admin.same_as(&whitelist.authority) {
        return Err(AmmError::Unauthorized);
    }
    if whitelist.contains(&hook_program) {
        return Ok(());
    }
    let ghost before = whitelist.hooks();
    whitelist.hook_programs.push(hook_program);
    proof {
        assert(whitelist.hooks() =~= before.push(hook_program@));
        assert forall|i: int, j: int|
            0 <= i < whitelist.hooks().len() && 0 <= j < whitelist.hooks().len() && i != j
            implies whitelist.hooks()[i] != whitelist.hooks()[j] by {
            if i == before.len() as int {
                assert(!before.contains(hook_program@));
                assert(before[j] == whitelist.hooks()[j]);
            } else if j == before.len() as int {
                assert(!before.contains(hook_program@));
                assert(before[i] == whitelist.hooks()[i]);
            }
        }
    }
    Ok(())
}

} // verus!
