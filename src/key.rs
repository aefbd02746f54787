use vstd::prelude::*;

verus! {

/// Number of bytes in an account or program identifier.
pub const KEY_LEN: usize = 32;

/// `a` comes strictly before `b` in lexicographic byte order.
pub open spec fn key_lt(a: Seq<u8>, b: Seq<u8>) -> bool {
    exists|i: int|
        0 <= i < a.len() && i < b.len() && a[i] < b[i] && (forall|j: int|
            0 <= j < i ==> a[j] == b[j])
}

/// No two byte sequences each come before the other.
pub proof fn lemma_key_lt_asymmetric(a: Seq<u8>, b: Seq<u8>)
    requires
        key_lt(a, b),
    ensures
        !key_lt(b, a),
{
    let i = choose|i: int|
        0 <= i < a.len() && i < b.len() && a[i] < b[i] && (forall|j: int|
            0 <= j < i ==> a[j] == b[j]);
    if key_lt(b, a) {
        let k = choose|k: int|
            0 <= k < b.len() && k < a.len() && b[k] < a[k] && (forall|j: int|
                0 <= j < k ==> b[j] == a[j]);
        if k < i {
            assert(a[k] == b[k]);
        } else if i < k {
            assert(b[i] == a[i]);
        }
    }
}

/// A 32-byte identifier of an account, a mint or a program.
#[derive(Clone, Copy, Debug)]
pub struct Key {
    pub bytes: [u8; 32],
}

impl Key {
    pub open spec fn view(&self) -> Seq<u8> {
        self.bytes@
    }

    pub fn new(bytes: [u8; 32]) -> (r: Key)
        ensures
            r@ == bytes@,
    {
        Key { bytes }
    }

    /// Byte-wise equality.
    pub fn same_as(&self, other: &Key) -> (r: bool)
        ensures
            r == (self@ == other@),
    {
        let mut i: usize = 0;
        while i < KEY_LEN
            invariant
                self@.len() == KEY_LEN,
                other@.len() == KEY_LEN,
                i <= KEY_LEN,
                forall|j: int| 0 <= j < i ==> self@[j] == other@[j],
            decreases KEY_LEN - i,
        {
            if self.bytes[i] != other.bytes[i] {
                return false;
            }
            i = i + 1;
        }
        assert(self@ =~= other@);
        true
    }

    /// Lexicographic byte order, used to put an asset pair in canonical form.
    pub fn less_than(&self, other: &Key) -> (r: bool)
        ensures
            r == key_lt(self@, other@),
    {
        let mut i: usize = 0;
        while i < KEY_LEN
            invariant
                self@.len() == KEY_LEN,
                other@.len() == KEY_LEN,
                i <= KEY_LEN,
                forall|j: int| 0 <= j < i ==> self@[j] == other@[j],
            decreases KEY_LEN - i,
        {
            if self.bytes[i] != other.bytes[i] {
                let r = self.bytes[i] < other.bytes[i];
                proof {
                    if !r {
                        assert forall|k: int|
                            0 <= k < self@.len() && k < other@.len() && self@[k] < other@[k]
                            implies !(forall|j: int| 0 <= j < k ==> self@[j] == other@[j]) by {
                            if k < i {
                            } else if k > i {
                                assert(self@[i as int] != other@[i as int]);
                            }
                        }
                    }
                }
                return r;
            }
            i = i + 1;
        }
        proof {
            assert forall|k: int|
                0 <= k < self@.len() && k < other@.len() implies !(self@[k] < other@[k]) by {
                assert(self@[k] == other@[k]);
            }
        }
        false
    }
}

} // verus!
