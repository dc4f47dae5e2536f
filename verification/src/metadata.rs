//! What the collection and its tokens say about themselves.

use crate::token_id::TokenId;
use vstd::prelude::*;
use vstd::string::*;

verus! {

/// The descriptor of the collection. It is the same for every registry and
/// never changes.
#[derive(Clone, Debug, PartialEq, Eq)]
pub struct ContractMetadata {
    /// The version of the token standard that the collection follows.
    pub spec_version: String,
    /// The collection's name.
    pub name: String,
    /// The collection's ticker symbol.
    pub symbol: String,
}

/// The descriptor that a token carries from the moment it is minted.
#[derive(Clone, Debug, PartialEq, Eq)]
pub struct TokenMetadata {
    /// The token's title.
    pub title: String,
    /// A sentence about the token.
    pub description: String,
    /// How many copies of the token exist.
    pub copies: u64,
}

/// The text in front of the identifier in a token's title.
pub open spec fn title_prefix() -> Seq<char> {
    "NFT "@
}

/// The text in front of the identifier in a token's description.
pub open spec fn description_prefix() -> Seq<char> {
    "This is NFT "@
}

/// The descriptor of the collection: standard version `nft-1.0.0`, name
/// `NFT contract`, symbol `NFT`.
pub fn contract_metadata() -> (r: ContractMetadata)
    ensures
        r.spec_version@ == "nft-1.0.0"@,
        r.name@ == "NFT contract"@,
        r.symbol@ == "NFT"@,
{
    ContractMetadata {
        spec_version: String::from_str("nft-1.0.0"),
        name: String::from_str("NFT contract"),
        symbol: String::from_str("NFT"),
    }
}

/// The descriptor of the token named `token_id`: its title and description
/// spell out the identifier, and there is one copy of it.
pub fn token_metadata(token_id: &TokenId) -> (r: TokenMetadata)
    ensures
        r.title@ == title_prefix() + token_id@,
        r.description@ == description_prefix() + token_id@,
        r.copies == 1,
{
    let mut title = String::from_str("NFT ");
    title.append(token_id.as_str());
    let mut description = String::from_str("This is NFT ");
    description.append(token_id.as_str());
    TokenMetadata { title, description, copies: 1 }
}

} // verus!
