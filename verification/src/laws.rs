use vstd::prelude::*;

use crate::errors::EscrowError;
use crate::instructions::withdraw_post;
use crate::key::Key;
use crate::state::{lemma_ids_of_push, EscrowAccount};

verus! {

/// Law: depositing a standard item and then withdrawing it as the stored
/// authority succeeds and returns the record to its prior content, with the
/// count back at its prior value. `mid` is the record a successful deposit
/// of the single standard item `x` leaves behind, as `deposit_post` states
/// it; the withdrawal outcome is whatever `withdraw_post` admits.
pub proof fn lemma_deposit_withdraw_round_trip(
    pre: EscrowAccount,
    mid: EscrowAccount,
    post: EscrowAccount,
    x: Key,
    caller: Key,
    r: Result<(), EscrowError>,
)
    requires
        pre.wf(),
        !pre.held_ids().contains(x@),
        mid.standard_nfts@ == pre.standard_nfts@.push(x),
        mid.compressed_nfts@ == pre.compressed_nfts@,
        mid.nft_count == pre.nft_count + 1,
        mid.same_bindings(&pre),
        caller@ == mid.authority@,
        withdraw_post(mid, post, caller@, x@, false, r),
    ensures
        r == Ok::<(), EscrowError>(()),
        post.standard_nfts@ == pre.standard_nfts@,
        post.compressed_nfts@ == pre.compressed_nfts@,
        post.nft_count == pre.nft_count,
        post.same_bindings(&pre),
{
    lemma_ids_of_push(pre.standard_nfts@, x);
    assert(mid.standard() =~= pre.standard().push(x@));
    let len = pre.standard().len() as int;
    assert(mid.standard()[len] == x@);
    assert(mid.standard().contains(x@));
    mid.standard().index_of_first_ensures(x@);
    let idx = mid.standard().index_of_first(x@)->0;
    assert forall|t: int| 0 <= t < len implies mid.standard()[t] != x@ by {
        assert(pre.held_ids()[t] == pre.standard()[t]);
        assert(pre.held_ids().contains(pre.standard()[t]));
    }
    assert(idx == len);
    assert(post.standard_nfts@ =~= pre.standard_nfts@);
}

} // verus!
