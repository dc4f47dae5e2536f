//! A registry of uniquely identified tokens: who owns each one, which ones
//! have been destroyed for good, and how the proceeds of a sale are split.
//!
//! Every operation takes the caller's identity as an argument and reports a
//! refusal as an [`error::NftError`]; a refused operation changes nothing.

pub mod account;
pub mod contract;
pub mod error;
pub mod metadata;
pub mod payout;
pub mod registry;
pub mod token_id;
