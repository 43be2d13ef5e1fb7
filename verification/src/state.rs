use vstd::prelude::*;

use crate::key::{key_eq, Key};

verus! {

/// The byte views of a sequence of identities.
pub open spec fn ids_of(s: Seq<Key>) -> Seq<Seq<u8>> {
    s.map_values(|k: Key| k@)
}

/// No identifier occurs twice in the sequence.
pub open spec fn distinct_ids(s: Seq<Seq<u8>>) -> bool {
    forall|i: int, j: int| 0 <= i < j < s.len() ==> s[i] != s[j]
}

/// One escrow record per owner: the authority permitted to withdraw, the
/// owner whose identity seeds the record's address, the bump that proves the
/// vault derivation, and the identifiers currently held, split by class.
pub struct EscrowAccount {
    pub authority: Key,
    pub owner: Key,
    pub bump: u8,
    pub is_active: bool,
    pub nft_count: u32,
    pub standard_nfts: Vec<Key>,
    pub compressed_nfts: Vec<Key>,
}

impl EscrowAccount {
    /// The identifiers held via the general transfer mechanism.
    pub open spec fn standard(&self) -> Seq<Seq<u8>> {
        ids_of(self.standard_nfts@)
    }

    /// The identifiers held via the specialized mechanism.
    pub open spec fn compressed(&self) -> Seq<Seq<u8>> {
        ids_of(self.compressed_nfts@)
    }

    /// Every identifier the record holds, standard first.
    pub open spec fn held_ids(&self) -> Seq<Seq<u8>> {
        self.standard() + self.compressed()
    }

    /// The record's invariant: the count matches the sequences, and no
    /// identifier appears twice across the two sequences.
    pub open spec fn wf(&self) -> bool {
        &&& self.nft_count == self.standard().len() + self.compressed().len()
        &&& distinct_ids(self.held_ids())
    }

    /// The fields set once at creation, never mutated by any operation.
    pub open spec fn same_bindings(&self, other: &EscrowAccount) -> bool {
        &&& self.authority == other.authority
        &&& self.owner == other.owner
        &&& self.bump == other.bump
        &&& self.is_active == other.is_active
    }
}

pub proof fn lemma_ids_of_push(s: Seq<Key>, k: Key)
    ensures
        ids_of(s.push(k)) =~= ids_of(s).push(k@),
{
}

pub proof fn lemma_ids_of_remove(s: Seq<Key>, i: int)
    requires
        0 <= i < s.len(),
    ensures
        ids_of(s.remove(i)) =~= ids_of(s).remove(i),
{
    assert forall|j: int| 0 <= j < s.len() - 1 implies ids_of(s.remove(i))[j] == ids_of(
        s,
    ).remove(i)[j] by {
        if j < i {
            assert(s.remove(i)[j] == s[j]);
        } else {
            assert(s.remove(i)[j] == s[j + 1]);
        }
    }
}

/// Removing one element keeps the remaining identifiers distinct, whichever
/// of the two concatenated sequences it is removed from.
pub proof fn lemma_distinct_remove_left(a: Seq<Seq<u8>>, b: Seq<Seq<u8>>, i: int)
    requires
        distinct_ids(a + b),
        0 <= i < a.len(),
    ensures
        distinct_ids(a.remove(i) + b),
{
    let s = a.remove(i) + b;
    let t = a + b;
    assert forall|p: int| 0 <= p < s.len() implies s[p] == (if p < i {
        t[p]
    } else {
        t[p + 1]
    }) by {
        if p < i {
            assert(s[p] == a.remove(i)[p]);
        } else if p < a.len() - 1 {
            assert(s[p] == a.remove(i)[p]);
            assert(a.remove(i)[p] == a[p + 1]);
        } else {
            assert(s[p] == b[p - (a.len() - 1)]);
            assert(t[p + 1] == b[p + 1 - a.len()]);
        }
    }
}

pub proof fn lemma_distinct_remove_right(a: Seq<Seq<u8>>, b: Seq<Seq<u8>>, i: int)
    requires
        distinct_ids(a + b),
        0 <= i < b.len(),
    ensures
        distinct_ids(a + b.remove(i)),
{
    let s = a + b.remove(i);
    let t = a + b;
    assert forall|p: int| 0 <= p < s.len() implies s[p] == (if p < a.len() + i {
        t[p]
    } else {
        t[p + 1]
    }) by {
        if p < a.len() {
        } else if p < a.len() + i {
            assert(s[p] == b.remove(i)[p - a.len()]);
            assert(b.remove(i)[p - a.len()] == b[p - a.len()]);
        } else {
            assert(s[p] == b.remove(i)[p - a.len()]);
            assert(b.remove(i)[p - a.len()] == b[p - a.len() + 1]);
            assert(t[p + 1] == b[p + 1 - a.len()]);
        }
    }
}

/// Finds the first position whose identity equals `x`, if any.
pub fn find_key(v: &Vec<Key>, x: &Key) -> (r: Option<usize>)
    ensures
        match r {
            Some(i) => {
                &&& i < v@.len()
                &&& v@[i as int]@ == x@
                &&& ids_of(v@).index_of_first(x@) == Some(i as int)
            },
            None => {
                &&& !ids_of(v@).contains(x@)
                &&& ids_of(v@).index_of_first(x@) == None::<int>
            },
        },
{
    let n = v.len();
    let mut j: usize = 0;
    while j < n
        invariant
            n == v@.len(),
            j <= n,
            forall|t: int| 0 <= t < j ==> ids_of(v@)[t] != x@,
        decreases n - j,
    {
        if key_eq(&v[j], x) {
            proof {
                let s = ids_of(v@);
                assert(s[j as int] == x@);
                s.index_of_first_ensures(x@);
                let found = s.index_of_first(x@);
                assert(s.contains(x@));
                let idx = found->0;
                assert(!(idx < j as int));
                assert(!((j as int) < idx));
            }
            return Some(j);
        }
        j = j + 1;
    }
    proof {
        assert forall|t: int| 0 <= t < ids_of(v@).len() implies ids_of(v@)[t] != x@ by {}
        ids_of(v@).index_of_first_ensures(x@);
    }
    None
}

/// Creates a fresh escrow record bound to an authority and an owner, with no
/// items held. The storage layer rejects a second record for the same owner;
/// that rejection is not modeled here.
pub fn initialize_escrow(authority: &Key, owner: &Key, bump: u8) -> (e: EscrowAccount)
    ensures
        e.authority == *authority,
        e.owner == *owner,
        e.bump == bump,
        e.is_active,
        e.nft_count == 0,
        e.standard_nfts@ == Seq::<Key>::empty(),
        e.compressed_nfts@ == Seq::<Key>::empty(),
        e.wf(),
{
    let e = EscrowAccount {
        authority: *authority,
        owner: *owner,
        bump,
        is_active: true,
        nft_count: 0,
        standard_nfts: Vec::new(),
        compressed_nfts: Vec::new(),
    };
    proof {
        assert(e.standard() =~= Seq::<Seq<u8>>::empty());
        assert(e.compressed() =~= Seq::<Seq<u8>>::empty());
        assert(e.held_ids() =~= Seq::<Seq<u8>>::empty());
    }
    e
}

} // verus!
