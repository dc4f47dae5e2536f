//! Splitting the proceeds of a sale.
//!
//! The owner of the token takes ninety percent of the balance, rounded down.
//! When the caller accepts more than one recipient, a fixed beneficiary takes
//! whatever is left, so that nothing is lost to rounding.

use crate::account::{is_valid_account_id, Account};
use crate::error::NftError;
use vstd::prelude::*;

verus! {

/// The owner's part of a sale, in percent.
pub const OWNER_PERCENT: u128 = 90;

/// The text of the beneficiary's account identifier.
pub open spec fn beneficiary_id() -> Seq<char> {
    "burn.near"@
}

/// What the owner receives out of `balance`.
pub open spec fn owner_share(balance: nat) -> nat {
    balance * (OWNER_PERCENT as nat) / 100
}

/// What is left of `balance` once the owner has been paid.
pub open spec fn beneficiary_share(balance: nat) -> nat {
    (balance - owner_share(balance)) as nat
}

/// The recipients of a sale of `balance` and what each receives, in the
/// order in which they are paid: the owner, then the beneficiary if more than
/// one recipient is accepted.
pub open spec fn payout_split(owner: Seq<char>, balance: nat, max_len_payout: nat) -> Seq<
    (Seq<char>, nat),
> {
    if max_len_payout > 1 {
        seq![(owner, owner_share(balance)), (beneficiary_id(), beneficiary_share(balance))]
    } else {
        seq![(owner, owner_share(balance))]
    }
}

/// What a sale of `balance` on behalf of `owner` comes to: the split, or a
/// refusal when not even the owner's entry is accepted.
pub open spec fn payout_of(owner: Seq<char>, balance: nat, max_len_payout: nat) -> Result<
    Seq<(Seq<char>, nat)>,
    NftError,
> {
    if max_len_payout == 0 {
        Err(NftError::PayoutTooLarge)
    } else {
        Ok(payout_split(owner, balance, max_len_payout))
    }
}

/// The sum of the amounts in a list of recipients.
pub open spec fn total_paid(entries: Seq<(Seq<char>, nat)>) -> nat
    decreases entries.len(),
{
    if entries.len() == 0 {
        0
    } else {
        total_paid(entries.drop_last()) + entries.last().1
    }
}

/// The owner never receives more than the balance.
pub proof fn lemma_owner_share_le(balance: nat)
    ensures
        owner_share(balance) <= balance,
        owner_share(balance) + beneficiary_share(balance) == balance,
{
    assert(balance * 90 / 100 <= balance) by (nonlinear_arith);
}

/// With room for two recipients the split has exactly two entries: the
/// owner with ninety percent of the balance, rounded down, and the
/// beneficiary with all that is left. The two amounts add up to the balance.
pub proof fn lemma_split_with_beneficiary(owner: Seq<char>, balance: nat, max_len_payout: nat)
    requires
        max_len_payout > 1,
    ensures
        payout_of(owner, balance, max_len_payout) is Ok,
        payout_of(owner, balance, max_len_payout)->Ok_0.len() == 2,
        payout_of(owner, balance, max_len_payout)->Ok_0[0] == (owner, balance * 90 / 100),
        payout_of(owner, balance, max_len_payout)->Ok_0[1] == (
            beneficiary_id(),
            (balance - balance * 90 / 100) as nat,
        ),
        balance * 90 / 100 + (balance - balance * 90 / 100) == balance,
        total_paid(payout_of(owner, balance, max_len_payout)->Ok_0) == balance,
{
    lemma_owner_share_le(balance);
    let split = payout_split(owner, balance, max_len_payout);
    let head = split.drop_last();
    assert(head.drop_last() =~= Seq::<(Seq<char>, nat)>::empty());
    assert(total_paid(head.drop_last()) == 0);
    assert(total_paid(head) == owner_share(balance));
}

/// Ninety percent of a balance, from its quotient and remainder by a hundred.
proof fn lemma_share_by_parts(balance: nat)
    ensures
        owner_share(balance) == (balance / 100) * 90 + (balance % 100) * 90 / 100,
{
    let q = balance / 100;
    let r = balance % 100;
    assert(balance * 90 / 100 == q * 90 + r * 90 / 100) by (nonlinear_arith)
        requires
            q == balance / 100,
            r == balance % 100,
    ;
}

/// The recipients of a sale, each with the amount owed, in the order in which
/// they are paid. An account may stand in it more than once.
#[derive(Clone, Debug, PartialEq, Eq)]
pub struct PayoutMap(pub Vec<(Account, u128)>);

impl View for PayoutMap {
    type V = Seq<(Seq<char>, nat)>;

    open spec fn view(&self) -> Seq<(Seq<char>, nat)> {
        self.0@.map_values(|e: (Account, u128)| (e.0@, e.1 as nat))
    }
}

/// The result of a payout computation.
#[derive(Clone, Debug, PartialEq, Eq)]
pub struct Payout {
    pub payout: PayoutMap,
}

impl View for Payout {
    type V = Seq<(Seq<char>, nat)>;

    open spec fn view(&self) -> Seq<(Seq<char>, nat)> {
        self.payout@
    }
}

/// What a payout computation answered, as text and numbers.
pub open spec fn payout_answer(r: Result<Payout, NftError>) -> Result<
    Seq<(Seq<char>, nat)>,
    NftError,
> {
    match r {
        Ok(p) => Ok(p@),
        Err(e) => Err(e),
    }
}

/// The account that receives what the owner does not.
pub fn beneficiary() -> (r: Account)
    ensures
        r@ == beneficiary_id(),
{
    proof {
        reveal_strlit("burn.near");
        let s = "burn.near"@;
        assert(s.len() == 9);
        assert(s[0] == 'b' && s[1] == 'u' && s[2] == 'r' && s[3] == 'n' && s[4] == '.');
        assert(s[5] == 'n' && s[6] == 'e' && s[7] == 'a' && s[8] == 'r');
        assert(is_valid_account_id(s));
    }
    match Account::new("burn.near") {
        Some(account) => account,
        None => vstd::pervasive::unreached(),
    }
}

/// Ninety percent of `balance`, rounded down. The product is never formed,
/// so no balance is too large.
pub fn split_owner_share(balance: u128) -> (r: u128)
    ensures
        r == owner_share(balance as nat),
        r <= balance,
{
    proof {
        lemma_share_by_parts(balance as nat);
        lemma_owner_share_le(balance as nat);
    }
    let whole: u128 = balance / 100;
    let rest: u128 = balance % 100;
    whole * OWNER_PERCENT + rest * OWNER_PERCENT / 100
}

/// Splits `balance` between `owner` and the beneficiary.
///
/// With `max_len_payout` above one the owner's entry is followed by the
/// beneficiary's, and the two amounts add up to `balance`. With
/// `max_len_payout` equal to one the owner's entry stands alone. With
/// `max_len_payout` equal to zero no entry is accepted, and the split is
/// refused.
pub fn split_payout(owner: &Account, balance: u128, max_len_payout: u32) -> (r: Result<
    Payout,
    NftError,
>)
    ensures
        payout_answer(r) == payout_of(owner@, balance as nat, max_len_payout as nat),
{
    if max_len_payout == 0 {
        return Err(NftError::PayoutTooLarge);
    }
    let share = split_owner_share(balance);
    let mut entries: Vec<(Account, u128)> = Vec::new();
    entries.push((owner.clone(), share));
    if max_len_payout > 1 {
        entries.push((beneficiary(), balance - share));
    }
    let payout = Payout { payout: PayoutMap(entries) };
    assert(payout@ =~= payout_split(owner@, balance as nat, max_len_payout as nat));
    Ok(payout)
}

} // verus!
