//! Account identifiers.
//!
//! An [`Account`] is a piece of text that names a participant. Only text that
//! the NEAR runtime accepts as an account identifier can become one.

use vstd::prelude::*;

verus! {

/// A lower-case letter or a digit.
pub open spec fn is_id_alphanumeric(c: char) -> bool {
    ('a' <= c && c <= 'z') || ('0' <= c && c <= '9')
}

/// One of the three characters that may stand between alphanumeric runs.
pub open spec fn is_id_separator(c: char) -> bool {
    c == '-' || c == '_' || c == '.'
}

/// The shortest identifier has two characters.
pub const MIN_ACCOUNT_ID_LEN: usize = 2;

/// The longest identifier has sixty-four characters.
pub const MAX_ACCOUNT_ID_LEN: usize = 64;

/// Whether `s` is well formed as an account identifier: between two and
/// sixty-four characters, each a lower-case letter, a digit or a separator,
/// with no separator at either end and no two separators side by side.
pub open spec fn is_valid_account_id(s: Seq<char>) -> bool {
    &&& MIN_ACCOUNT_ID_LEN <= s.len() <= MAX_ACCOUNT_ID_LEN
    &&& forall|i: int|
        0 <= i < s.len() ==> is_id_alphanumeric(#[trigger] s[i]) || is_id_separator(s[i])
    &&& !is_id_separator(s[0])
    &&& !is_id_separator(s[s.len() - 1])
    &&& forall|i: int|
        0 <= i < s.len() - 1 ==> !(is_id_separator(#[trigger] s[i]) && is_id_separator(s[i + 1]))
}

/// The name of a participant: the minter, an owner, a payout recipient.
#[derive(Debug, PartialEq, Eq)]
pub struct Account {
    id: String,
}

impl View for Account {
    type V = Seq<char>;

    closed spec fn view(&self) -> Seq<char> {
        self.id@
    }
}

/// Calls `<near_sdk::AccountId as FromStr>::from_str` and hands back the
/// identifier's text. The call accepts exactly the well-formed identifiers
/// and keeps the text it was given as it is.
#[verifier::external_body]
fn validated_id_text(text: &str) -> (r: Option<String>)
    ensures
        r is Some <==> is_valid_account_id(text@),
        r is Some ==> r->0@ == text@,
{
    match text.parse::<near_sdk::AccountId>() {
        Ok(id) => Some(id.into()),
        Err(_) => None,
    }
}

impl Account {
    #[verifier::type_invariant]
    spec fn well_formed(&self) -> bool {
        is_valid_account_id(self.id@)
    }

    /// The account named by `text`, if `text` is a well-formed identifier.
    pub fn new(text: &str) -> (r: Option<Account>)
        ensures
            r is Some <==> is_valid_account_id(text@),
            r is Some ==> r->0@ == text@,
    {
        match validated_id_text(text) {
            Some(id) => Some(Account { id }),
            None => None,
        }
    }

    /// The identifier's text.
    pub fn as_str(&self) -> (r: &str)
        ensures
            r@ == self@,
            is_valid_account_id(r@),
    {
        proof {
            use_type_invariant(self);
        }
        self.id.as_str()
    }

    /// Whether the two names are the same account.
    pub fn same_as(&self, other: &Account) -> (r: bool)
        ensures
            r == (self@ == other@),
    {
        self.id == other.id
    }
}

impl Clone for Account {
    fn clone(&self) -> (r: Account)
        ensures
            r@ == self@,
    {
        proof {
            use_type_invariant(self);
        }
        Account { id: self.id.clone() }
    }
}

} // verus!
