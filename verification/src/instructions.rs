use vstd::prelude::*;

use crate::errors::{DepositError, EscrowError};
use crate::key::{key_eq, Key};
use crate::state::{
    distinct_ids, find_key, ids_of, lemma_distinct_remove_left, lemma_distinct_remove_right,
    lemma_ids_of_push, lemma_ids_of_remove, EscrowAccount,
};
use crate::token_account::{parse_token_account_owner, token_account_owner, valid_token_account};

verus! {

/// The byte views of a list of account-data buffers.
pub open spec fn datas_of(s: Seq<Vec<u8>>) -> Seq<Seq<u8>> {
    s.map_values(|d: Vec<u8>| d@)
}

/// How many of the first `n` items are standard (flag false).
pub open spec fn std_count(flags: Seq<bool>, n: int) -> int
    decreases n,
{
    if n <= 0 {
        0
    } else {
        std_count(flags, n - 1) + if !flags[n - 1] {
            1int
        } else {
            0int
        }
    }
}

/// The identifiers among the first `n` whose class flag equals `want`, in
/// input order.
pub open spec fn selected(mints: Seq<Key>, flags: Seq<bool>, want: bool, n: int) -> Seq<Key>
    decreases n,
{
    if n <= 0 {
        Seq::<Key>::empty()
    } else if flags[n - 1] == want {
        selected(mints, flags, want, n - 1).push(mints[n - 1])
    } else {
        selected(mints, flags, want, n - 1)
    }
}

pub proof fn lemma_selected_len(mints: Seq<Key>, flags: Seq<bool>, n: int)
    requires
        0 <= n <= mints.len(),
    ensures
        selected(mints, flags, false, n).len() == std_count(flags, n),
        selected(mints, flags, true, n).len() == n - std_count(flags, n),
    decreases n,
{
    if n > 0 {
        lemma_selected_len(mints, flags, n - 1);
    }
}

/// The first failure that item `i` of a deposit batch hits, if any: a
/// standard item needs a full group of three resource handles, a holding
/// account that deserializes, and a holding account owned by the owner.
pub open spec fn item_error(rem: Seq<Seq<u8>>, owner: Seq<u8>, flags: Seq<bool>, i: int) -> Option<
    DepositError,
> {
    if flags[i] {
        None
    } else {
        let s = std_count(flags, i);
        if 3 * s + 3 > rem.len() {
            Some(DepositError::Escrow(EscrowError::InsufficientAccounts))
        } else if !valid_token_account(rem[3 * s + 1]) {
            Some(DepositError::AccountDidNotDeserialize)
        } else if token_account_owner(rem[3 * s + 1]) != owner {
            Some(DepositError::Escrow(EscrowError::NotTokenOwner))
        } else {
            None
        }
    }
}

/// The first failure among the first `n` items of a deposit batch, in input
/// order, if any.
pub open spec fn batch_error(rem: Seq<Seq<u8>>, owner: Seq<u8>, flags: Seq<bool>, n: int) -> Option<
    DepositError,
>
    decreases n,
{
    if n <= 0 {
        None
    } else {
        match batch_error(rem, owner, flags, n - 1) {
            Some(e) => Some(e),
            None => item_error(rem, owner, flags, n - 1),
        }
    }
}

pub proof fn lemma_batch_error_stops(
    rem: Seq<Seq<u8>>,
    owner: Seq<u8>,
    flags: Seq<bool>,
    i: int,
    n: int,
)
    requires
        0 <= i < n,
        batch_error(rem, owner, flags, i) == None::<DepositError>,
        item_error(rem, owner, flags, i) is Some,
    ensures
        batch_error(rem, owner, flags, n) == item_error(rem, owner, flags, i),
    decreases n,
{
    if n > i + 1 {
        lemma_batch_error_stops(rem, owner, flags, i, n - 1);
    }
}

/// Appending an identifier that the record does not yet hold keeps all
/// identifiers distinct, whichever sequence it is appended to; and appending
/// adds no identifier but the new one.
pub proof fn lemma_distinct_push_left(a: Seq<Seq<u8>>, b: Seq<Seq<u8>>, m: Seq<u8>)
    requires
        distinct_ids(a + b),
        !(a + b).contains(m),
    ensures
        distinct_ids(a.push(m) + b),
        forall|x: Seq<u8>| #[trigger] (a.push(m) + b).contains(x) ==> (a + b).contains(x) || x == m,
{
    let s = a.push(m) + b;
    let t = a + b;
    assert forall|p: int| 0 <= p < s.len() implies s[p] == (if p < a.len() {
        t[p]
    } else if p == a.len() {
        m
    } else {
        t[p - 1]
    }) by {
        if p < a.len() {
            assert(s[p] == a.push(m)[p]);
        } else if p == a.len() {
            assert(s[p] == a.push(m)[p]);
        } else {
            assert(s[p] == b[p - (a.len() + 1)]);
            assert(t[p - 1] == b[p - 1 - a.len()]);
        }
    }
    assert forall|x: Seq<u8>| #[trigger] s.contains(x) implies t.contains(x) || x == m by {
        let k = choose|k: int| 0 <= k < s.len() && s[k] == x;
        if k < a.len() {
            assert(t[k] == x);
        } else if k > a.len() {
            assert(t[k - 1] == x);
        }
    }
    assert forall|p: int, q: int| 0 <= p < q < s.len() implies s[p] != s[q] by {
        if q < a.len() {
        } else if p < a.len() && q == a.len() {
            assert(t.contains(t[p]));
        } else if p < a.len() && q > a.len() {
        } else if p == a.len() {
            assert(t.contains(t[q - 1]));
        }
    }
}

pub proof fn lemma_distinct_push_right(a: Seq<Seq<u8>>, b: Seq<Seq<u8>>, m: Seq<u8>)
    requires
        distinct_ids(a + b),
        !(a + b).contains(m),
    ensures
        distinct_ids(a + b.push(m)),
        forall|x: Seq<u8>| #[trigger] (a + b.push(m)).contains(x) ==> (a + b).contains(x) || x == m,
{
    let s = a + b.push(m);
    let t = a + b;
    assert forall|p: int| 0 <= p < s.len() implies s[p] == (if p < t.len() {
        t[p]
    } else {
        m
    }) by {
        if p < a.len() {
        } else if p < t.len() {
            assert(s[p] == b.push(m)[p - a.len()]);
            assert(b.push(m)[p - a.len()] == b[p - a.len()]);
        } else {
            assert(s[p] == b.push(m)[p - a.len()]);
        }
    }
    assert forall|x: Seq<u8>| #[trigger] s.contains(x) implies t.contains(x) || x == m by {
        let k = choose|k: int| 0 <= k < s.len() && s[k] == x;
        if k < t.len() {
            assert(t[k] == x);
        }
    }
    assert forall|p: int, q: int| 0 <= p < q < s.len() implies s[p] != s[q] by {
        if q == t.len() {
            assert(t.contains(t[p]));
        }
    }
}

/// The batch identifiers are pairwise distinct and none is already held.
/// On chain this is what the transfer primitive enforces for standard items:
/// once a unit is in vault custody the owner's holding account cannot fund a
/// second deposit of the same identifier.
pub open spec fn fresh_batch(mints: Seq<Key>, e: EscrowAccount) -> bool {
    &&& distinct_ids(ids_of(mints))
    &&& forall|i: int| 0 <= i < mints.len() ==> !e.held_ids().contains(#[trigger] ids_of(mints)[i])
}

/// One transfer the caller must perform for a standard item: move one unit
/// from the owner's holding account to the vault's account, authorized by
/// the owner. The indices point into the deposit's side list of resource
/// handles.
#[derive(Clone, Copy, Debug, PartialEq, Eq)]
pub struct TransferOrder {
    pub mint: Key,
    pub from_account: usize,
    pub to_account: usize,
}

/// The orders returned by a successful deposit: one per standard item, in
/// input order, drawing handle groups of three from the side list.
pub open spec fn orders_ok(orders: Seq<TransferOrder>, mints: Seq<Key>, flags: Seq<bool>) -> bool {
    let picked = selected(mints, flags, false, flags.len() as int);
    &&& orders.len() == picked.len()
    &&& forall|t: int|
        0 <= t < orders.len() ==> {
            &&& (#[trigger] orders[t]).mint == picked[t]
            &&& orders[t].from_account == 3 * t + 1
            &&& orders[t].to_account == 3 * t + 2
        }
}

/// What a deposit does to the record. The caller must be the stored owner;
/// the identifier and flag lists must have equal length; each standard item
/// must pass the checks of `item_error`, scanned in input order; on success
/// every identifier is appended to the sequence of its class, the count
/// grows by the batch size, and one transfer order per standard item is
/// returned; every failure leaves the record untouched.
pub open spec fn deposit_post(
    pre: EscrowAccount,
    post: EscrowAccount,
    caller: Seq<u8>,
    mints: Seq<Key>,
    flags: Seq<bool>,
    rem: Seq<Seq<u8>>,
    r: Result<Vec<TransferOrder>, DepositError>,
) -> bool {
    if caller != pre.owner@ {
        &&& r == Err::<Vec<TransferOrder>, DepositError>(
            DepositError::Escrow(EscrowError::InvalidOwner),
        )
        &&& post == pre
    } else if mints.len() != flags.len() {
        &&& r == Err::<Vec<TransferOrder>, DepositError>(
            DepositError::Escrow(EscrowError::InvalidInputLength),
        )
        &&& post == pre
    } else {
        match batch_error(rem, pre.owner@, flags, flags.len() as int) {
            Some(e) => {
                &&& r == Err::<Vec<TransferOrder>, DepositError>(e)
                &&& post == pre
            },
            None => {
                &&& r is Ok
                &&& orders_ok(r->Ok_0@, mints, flags)
                &&& post.standard_nfts@ == pre.standard_nfts@ + selected(
                    mints,
                    flags,
                    false,
                    flags.len() as int,
                )
                &&& post.compressed_nfts@ == pre.compressed_nfts@ + selected(
                    mints,
                    flags,
                    true,
                    flags.len() as int,
                )
                &&& post.nft_count == pre.nft_count + mints.len()
                &&& post.same_bindings(&pre)
            },
        }
    }
}

/// What a withdrawal does to the record. The caller must be the stored
/// authority; the identifier must be present in the sequence matching its
/// class; on success it is removed at its first position and the count drops
/// by one; every failure leaves the record untouched.
pub open spec fn withdraw_post(
    pre: EscrowAccount,
    post: EscrowAccount,
    caller: Seq<u8>,
    mint: Seq<u8>,
    is_compressed: bool,
    r: Result<(), EscrowError>,
) -> bool {
    if caller != pre.authority@ {
        &&& r == Err::<(), EscrowError>(EscrowError::InvalidAuthority)
        &&& post == pre
    } else if is_compressed {
        match pre.compressed().index_of_first(mint) {
            Some(idx) => {
                &&& r == Ok::<(), EscrowError>(())
                &&& post.compressed_nfts@ == pre.compressed_nfts@.remove(idx)
                &&& post.standard_nfts@ == pre.standard_nfts@
                &&& post.nft_count == pre.nft_count - 1
                &&& post.same_bindings(&pre)
            },
            None => {
                &&& r == Err::<(), EscrowError>(EscrowError::NFTNotFound)
                &&& post == pre
            },
        }
    } else {
        match pre.standard().index_of_first(mint) {
            Some(idx) => {
                &&& r == Ok::<(), EscrowError>(())
                &&& post.standard_nfts@ == pre.standard_nfts@.remove(idx)
                &&& post.compressed_nfts@ == pre.compressed_nfts@
                &&& post.nft_count == pre.nft_count - 1
                &&& post.same_bindings(&pre)
            },
            None => {
                &&& r == Err::<(), EscrowError>(EscrowError::NFTNotFound)
                &&& post == pre
            },
        }
    }
}

/// Accepts a batch of identifiers with class flags. Standard items draw
/// groups of three resource handles (metadata, the owner's holding account,
/// the vault's account) from the side list, in input order; the holding
/// account must deserialize and be owned by the owner. On success the caller
/// must perform the returned transfers, one unit each, authorized by the
/// owner; specially-handled items are bookkept only, their physical transfer
/// being delegated to the specialized protocol.
pub fn deposit_nfts(
    escrow_account: &mut EscrowAccount,
    caller: &Key,
    nft_mints: &Vec<Key>,
    is_compressed: &Vec<bool>,
    remaining_accounts: &Vec<Vec<u8>>,
) -> (r: Result<Vec<TransferOrder>, DepositError>)
    requires
        old(escrow_account).wf(),
        fresh_batch(nft_mints@, *old(escrow_account)),
        old(escrow_account).nft_count + nft_mints@.len() <= u32::MAX,
    ensures
        final(escrow_account).wf(),
        deposit_post(
            *old(escrow_account),
            *final(escrow_account),
            caller@,
            nft_mints@,
            is_compressed@,
            datas_of(remaining_accounts@),
            r,
        ),
{
    let ghost rem = datas_of(remaining_accounts@);
    let ghost flags = is_compressed@;
    let ghost owner_v = escrow_account.owner@;
    if !key_eq(caller, &escrow_account.owner) {
        return Err(DepositError::Escrow(EscrowError::InvalidOwner));
    }
    let n = nft_mints.len();
    if n != is_compressed.len() {
        return Err(DepositError::Escrow(EscrowError::InvalidInputLength));
    }
    let mut orders: Vec<TransferOrder> = Vec::new();
    let mut accounts_start: usize = 0;
    let mut i: usize = 0;
    while i < n
        invariant
            n == nft_mints@.len(),
            n == flags.len(),
            flags == is_compressed@,
            rem == datas_of(remaining_accounts@),
            *escrow_account == *old(escrow_account),
            old(escrow_account).wf(),
            owner_v == escrow_account.owner@,
            caller@ == owner_v,
            i <= n,
            accounts_start == 3 * std_count(flags, i as int),
            accounts_start <= remaining_accounts@.len(),
            batch_error(rem, owner_v, flags, i as int) == None::<DepositError>,
            orders@.len() == std_count(flags, i as int),
            forall|t: int|
                0 <= t < orders@.len() ==> {
                    &&& (#[trigger] orders@[t]).mint == selected(nft_mints@, flags, false, i as int)[t]
                    &&& orders@[t].from_account == 3 * t + 1
                    &&& orders@[t].to_account == 3 * t + 2
                },
        decreases n - i,
    {
        if !is_compressed[i] {
            if remaining_accounts.len() - accounts_start < 3 {
                proof {
                    lemma_batch_error_stops(rem, owner_v, flags, i as int, n as int);
                }
                return Err(DepositError::Escrow(EscrowError::InsufficientAccounts));
            }
            let user_idx = accounts_start + 1;
            match parse_token_account_owner(&remaining_accounts[user_idx]) {
                None => {
                    proof {
                        lemma_batch_error_stops(rem, owner_v, flags, i as int, n as int);
                    }
                    return Err(DepositError::AccountDidNotDeserialize);
                },
                Some(account_owner) => {
                    if !key_eq(&account_owner, &escrow_account.owner) {
                        proof {
                            lemma_batch_error_stops(rem, owner_v, flags, i as int, n as int);
                        }
                        return Err(DepositError::Escrow(EscrowError::NotTokenOwner));
                    }
                },
            }
            orders.push(
                TransferOrder {
                    mint: nft_mints[i],
                    from_account: accounts_start + 1,
                    to_account: accounts_start + 2,
                },
            );
            accounts_start = accounts_start + 3;
            proof {
                lemma_selected_len(nft_mints@, flags, i as int);
                assert(selected(nft_mints@, flags, false, i + 1) == selected(
                    nft_mints@,
                    flags,
                    false,
                    i as int,
                ).push(nft_mints@[i as int]));
            }
        } else {
            proof {
                assert(selected(nft_mints@, flags, false, i + 1) == selected(
                    nft_mints@,
                    flags,
                    false,
                    i as int,
                ));
            }
        }
        i = i + 1;
    }
    proof {
        lemma_selected_len(nft_mints@, flags, n as int);
    }
    let ghost pre = *escrow_account;
    let mut j: usize = 0;
    while j < n
        invariant
            n == nft_mints@.len(),
            n == flags.len(),
            flags == is_compressed@,
            j <= n,
            pre == *old(escrow_account),
            pre.wf(),
            distinct_ids(ids_of(nft_mints@)),
            escrow_account.standard_nfts@ == pre.standard_nfts@ + selected(
                nft_mints@,
                flags,
                false,
                j as int,
            ),
            escrow_account.compressed_nfts@ == pre.compressed_nfts@ + selected(
                nft_mints@,
                flags,
                true,
                j as int,
            ),
            escrow_account.nft_count == pre.nft_count,
            escrow_account.same_bindings(&pre),
            escrow_account.standard_nfts@.len() + escrow_account.compressed_nfts@.len()
                == pre.standard_nfts@.len() + pre.compressed_nfts@.len() + j,
            distinct_ids(escrow_account.held_ids()),
            forall|t: int|
                j <= t < n ==> !escrow_account.held_ids().contains(
                    #[trigger] ids_of(nft_mints@)[t],
                ),
        decreases n - j,
    {
        let m = nft_mints[j];
        let ghost held_before = escrow_account.held_ids();
        let ghost std_before = escrow_account.standard();
        let ghost comp_before = escrow_account.compressed();
        proof {
            assert(ids_of(nft_mints@)[j as int] == m@);
        }
        if !is_compressed[j] {
            proof {
                lemma_distinct_push_left(std_before, comp_before, m@);
                lemma_ids_of_push(escrow_account.standard_nfts@, m);
            }
            escrow_account.standard_nfts.push(m);
            proof {
                assert(escrow_account.held_ids() =~= std_before.push(m@) + comp_before);
                assert(escrow_account.standard_nfts@ =~= pre.standard_nfts@ + selected(
                    nft_mints@,
                    flags,
                    false,
                    j + 1,
                ));
            }
        } else {
            proof {
                lemma_distinct_push_right(std_before, comp_before, m@);
                lemma_ids_of_push(escrow_account.compressed_nfts@, m);
            }
            escrow_account.compressed_nfts.push(m);
            proof {
                assert(escrow_account.held_ids() =~= std_before + comp_before.push(m@));
                assert(escrow_account.compressed_nfts@ =~= pre.compressed_nfts@ + selected(
                    nft_mints@,
                    flags,
                    true,
                    j + 1,
                ));
            }
        }
        proof {
            assert forall|t: int| j + 1 <= t < n implies !escrow_account.held_ids().contains(
                #[trigger] ids_of(nft_mints@)[t],
            ) by {
                assert(!held_before.contains(ids_of(nft_mints@)[t]));
                assert(ids_of(nft_mints@)[t] != m@);
            }
        }
        j = j + 1;
    }
    proof {
        assert(n as u32 == n);
    }
    escrow_account.nft_count = escrow_account.nft_count + (n as u32);
    Ok(orders)
}

/// Releases one item to a recipient under authority control. For a standard
/// item the caller must then move one unit out of the vault, signed by the
/// record's derived identity; for a specially-handled item the physical
/// transfer is delegated to the specialized protocol. The recipient identity
/// is deliberately permissive: it is recorded by the caller but not
/// re-validated against the recipient's holding account.
pub fn withdraw_nft(
    escrow_account: &mut EscrowAccount,
    caller: &Key,
    nft_mint: &Key,
    is_compressed: bool,
    _recipient: &Key,
) -> (r: Result<(), EscrowError>)
    requires
        old(escrow_account).wf(),
    ensures
        final(escrow_account).wf(),
        withdraw_post(*old(escrow_account), *final(escrow_account), caller@, nft_mint@,
            is_compressed, r),
{
    if !key_eq(caller, &escrow_account.authority) {
        return Err(EscrowError::InvalidAuthority);
    }
    if is_compressed {
        match find_key(&escrow_account.compressed_nfts, nft_mint) {
            Some(idx) => {
                proof {
                    lemma_ids_of_remove(escrow_account.compressed_nfts@, idx as int);
                    lemma_distinct_remove_right(
                        escrow_account.standard(),
                        escrow_account.compressed(),
                        idx as int,
                    );
                }
                escrow_account.compressed_nfts.remove(idx);
                escrow_account.nft_count = escrow_account.nft_count - 1;
                proof {
                    assert(escrow_account.held_ids() =~= old(escrow_account).standard() + old(
                        escrow_account,
                    ).compressed().remove(idx as int));
                }
                Ok(())
            },
            None => Err(EscrowError::NFTNotFound),
        }
    } else {
        match find_key(&escrow_account.standard_nfts, nft_mint) {
            Some(idx) => {
                proof {
                    lemma_ids_of_remove(escrow_account.standard_nfts@, idx as int);
                    lemma_distinct_remove_left(
                        escrow_account.standard(),
                        escrow_account.compressed(),
                        idx as int,
                    );
                }
                escrow_account.standard_nfts.remove(idx);
                escrow_account.nft_count = escrow_account.nft_count - 1;
                proof {
                    assert(escrow_account.held_ids() =~= old(escrow_account).standard().remove(
                        idx as int,
                    ) + old(escrow_account).compressed());
                }
                Ok(())
            },
            None => Err(EscrowError::NFTNotFound),
        }
    }
}

} // verus!
