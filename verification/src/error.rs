//! The ways in which an operation on the registry is refused.

use vstd::prelude::*;

verus! {

/// Why the registry refused an operation. A refused operation leaves the
/// registry exactly as it was.
#[derive(Clone, Copy, Debug, PartialEq, Eq, Structural)]
pub enum NftError {
    /// The caller is neither the registry's minter (when minting) nor the
    /// token's current owner (when burning or transferring).
    Authorization,
    /// The token was never issued.
    NotFound,
    /// The token was issued once and has since been destroyed.
    AlreadyBurned,
    /// The split needs more recipients than the caller is willing to take.
    PayoutTooLarge,
    /// The call did not carry the single unit of currency that guards a
    /// transfer.
    GuardViolation,
}

} // verus!
