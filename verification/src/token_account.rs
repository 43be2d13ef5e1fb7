use vstd::prelude::*;

use crate::key::Key;
use anchor_lang::AccountDeserialize;

verus! {

/// A four-byte optional-field tag in the token account layout: little-endian
/// 0 (absent) or 1 (present); anything else is rejected.
pub open spec fn coption_tag_ok(data: Seq<u8>, off: int) -> bool {
    &&& (data[off] == 0u8 || data[off] == 1u8)
    &&& data[off + 1] == 0u8
    &&& data[off + 2] == 0u8
    &&& data[off + 3] == 0u8
}

/// The bytes form an initialized token holding account: exactly 165 bytes;
/// a valid delegate tag at 72, state byte 1 (initialized) or 2 (frozen) at
/// 108, a valid native tag at 109, and a valid close-authority tag at 129.
pub open spec fn valid_token_account(data: Seq<u8>) -> bool {
    &&& data.len() == 165
    &&& coption_tag_ok(data, 72)
    &&& (data[108] == 1u8 || data[108] == 2u8)
    &&& coption_tag_ok(data, 109)
    &&& coption_tag_ok(data, 129)
}

/// The owner identity recorded in a token holding account: bytes 32..64.
pub open spec fn token_account_owner(data: Seq<u8>) -> Seq<u8> {
    data.subrange(32, 64)
}

/// Relies on anchor_spl::token::TokenAccount::try_deserialize, which is
/// spl_token::state::Account::unpack: it succeeds exactly on a 165-byte
/// initialized account layout and reads the owner from bytes 32..64.
#[verifier::external_body]
pub(crate) fn parse_token_account_owner(data: &Vec<u8>) -> (r: Option<Key>)
    ensures
        r is Some <==> valid_token_account(data@),
        r is Some ==> r->0@ == token_account_owner(data@),
{
    match anchor_spl::token::TokenAccount::try_deserialize(&mut &data[..]) {
        Ok(account) => Some(Key(account.owner.to_bytes())),
        Err(_) => None,
    }
}

} // verus!
