use vstd::prelude::*;

verus! {

/// The escrow-specific failure kinds. Every precondition violation surfaces
/// one of these; no kind is locally recovered.
#[derive(Clone, Copy, Debug, PartialEq, Eq, Structural)]
pub enum EscrowError {
    /// The caller of a withdrawal is not the stored authority.
    InvalidAuthority,
    /// The caller of a deposit is not the stored owner.
    InvalidOwner,
    /// The identifier is absent from the expected sequence on withdrawal.
    NFTNotFound,
    /// The owner does not control the claimed holding account on deposit.
    NotTokenOwner,
    /// The identifier and class-flag inputs have mismatched lengths.
    InvalidInputLength,
    /// The side list of resource handles is shorter than the batch requires.
    InsufficientAccounts,
}

/// A deposit failure: either one of the escrow kinds, or a holding account
/// whose bytes do not form a token account at all.
#[derive(Clone, Copy, Debug, PartialEq, Eq, Structural)]
pub enum DepositError {
    Escrow(EscrowError),
    /// The owner's holding account bytes failed to deserialize.
    AccountDidNotDeserialize,
}

} // verus!
