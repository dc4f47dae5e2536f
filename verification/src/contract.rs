//! The contract: a registry held in memory, and the operations on it.
//!
//! A token's slot is found by the counter value that its identifier names.
//! The slot holds the owner while the token is live and nothing once it is
//! burned; a counter value that was not handed out yet has no slot.

use crate::account::Account;
use crate::error::NftError;
use crate::metadata::{contract_metadata, ContractMetadata};
use crate::payout::{payout_answer, split_payout, Payout};
use crate::registry::{lemma_burn, lemma_mint, lemma_transfer, Registry};
use crate::token_id::{
    decimal, lemma_decimal_denotes, lemma_token_number_iff_decimal, parse_token_id, token_id_of,
    token_number, TokenId,
};
use vstd::prelude::*;

verus! {

/// The slots as text: for each counter value handed out, the owner's
/// identifier, or nothing where the token was burned.
pub open spec fn slots_view(tokens: Seq<Option<Account>>) -> Seq<Option<Seq<char>>> {
    tokens.map_values(
        |t: Option<Account>|
            match t {
                Some(a) => Some(a@),
                None => None,
            },
    )
}

/// The slot that `id` names, if its counter value was handed out.
pub open spec fn slot_of(id: Seq<char>, slots: Seq<Option<Seq<char>>>) -> Option<int> {
    match token_number(id) {
        Some(k) => if k < slots.len() {
            Some(k as int)
        } else {
            None
        },
        None => None,
    }
}

/// The registry that a minter and a run of slots stand for.
pub open spec fn registry_of(owner_id: Seq<char>, slots: Seq<Option<Seq<char>>>) -> Registry {
    Registry {
        owner_id,
        next_id: slots.len(),
        owner_by_id: Map::new(
            |id: Seq<char>| slot_of(id, slots) is Some && slots[slot_of(id, slots)->0] is Some,
            |id: Seq<char>| slots[slot_of(id, slots)->0]->0,
        ),
        burned: Set::new(
            |id: Seq<char>| slot_of(id, slots) is Some && slots[slot_of(id, slots)->0] is None,
        ),
    }
}

/// Whatever the slots hold, the registry they stand for is well formed.
pub proof fn lemma_registry_of_wf(owner_id: Seq<char>, slots: Seq<Option<Seq<char>>>)
    ensures
        registry_of(owner_id, slots).wf(),
{
    let reg = registry_of(owner_id, slots);
    assert forall|id: Seq<char>|
        #![trigger reg.is_live(id)]
        #![trigger reg.is_burned(id)]
        #![trigger reg.is_issued(id)]
        {
            &&& !(reg.is_live(id) && reg.is_burned(id))
            &&& ((reg.is_live(id) || reg.is_burned(id)) <==> reg.is_issued(id))
        } by {
        assert(reg.is_issued(id) <==> slot_of(id, slots) is Some);
    }
}

/// How a slot answers for the token that its counter value names.
proof fn lemma_slot_lookup(owner_id: Seq<char>, slots: Seq<Option<Seq<char>>>, id: Seq<char>)
    ensures
        registry_of(owner_id, slots).live_owner(id) == match slot_of(id, slots) {
            Some(k) => match slots[k] {
                Some(owner) => Ok::<Seq<char>, NftError>(owner),
                None => Err::<Seq<char>, NftError>(NftError::AlreadyBurned),
            },
            None => Err::<Seq<char>, NftError>(NftError::NotFound),
        },
        slot_of(id, slots) matches Some(k) ==> id == decimal(k as nat),
{
    if let Some(k) = slot_of(id, slots) {
        lemma_token_number_iff_decimal(id, k as nat);
    }
}

/// A new slot for the minter is a mint.
proof fn lemma_push_is_mint(owner_id: Seq<char>, slots: Seq<Option<Seq<char>>>)
    ensures
        registry_of(owner_id, slots.push(Some(owner_id))) == registry_of(
            owner_id,
            slots,
        ).after_mint(owner_id),
{
    let before = registry_of(owner_id, slots);
    let grown = slots.push(Some(owner_id));
    let a = registry_of(owner_id, grown);
    let b = before.after_mint(owner_id);
    let n = slots.len();
    lemma_decimal_denotes(n);
    assert forall|id: Seq<char>| a.owner_by_id.dom().contains(id) == b.owner_by_id.dom().contains(
        id,
    ) by {
        lemma_token_number_iff_decimal(id, n);
    }
    assert forall|id: Seq<char>| a.owner_by_id.dom().contains(id) implies a.owner_by_id[id]
        == b.owner_by_id[id] by {
        lemma_token_number_iff_decimal(id, n);
    }
    assert(a.owner_by_id =~= b.owner_by_id);
    assert forall|id: Seq<char>| a.burned.contains(id) == b.burned.contains(id) by {
        lemma_token_number_iff_decimal(id, n);
    }
    assert(a.burned =~= b.burned);
}

/// Emptying the slot of a live token is a burn by its owner.
proof fn lemma_clear_is_burn(owner_id: Seq<char>, slots: Seq<Option<Seq<char>>>, k: int)
    requires
        0 <= k < slots.len(),
        slots[k] is Some,
    ensures
        registry_of(owner_id, slots.update(k, None)) == registry_of(owner_id, slots).after_burn(
            slots[k]->0,
            decimal(k as nat),
        ),
        registry_of(owner_id, slots).burn_outcome(slots[k]->0, decimal(k as nat)) is Ok,
{
    let before = registry_of(owner_id, slots);
    let target = decimal(k as nat);
    let a = registry_of(owner_id, slots.update(k, None));
    let b = before.after_burn(slots[k]->0, target);
    lemma_decimal_denotes(k as nat);
    assert(slot_of(target, slots) == Some(k));
    assert(before.is_live(target));
    assert forall|id: Seq<char>| a.owner_by_id.dom().contains(id) == b.owner_by_id.dom().contains(
        id,
    ) by {
        lemma_token_number_iff_decimal(id, k as nat);
    }
    assert forall|id: Seq<char>| a.owner_by_id.dom().contains(id) implies a.owner_by_id[id]
        == b.owner_by_id[id] by {
        lemma_token_number_iff_decimal(id, k as nat);
    }
    assert(a.owner_by_id =~= b.owner_by_id);
    assert forall|id: Seq<char>| a.burned.contains(id) == b.burned.contains(id) by {
        lemma_token_number_iff_decimal(id, k as nat);
    }
    assert(a.burned =~= b.burned);
}

/// Writing a new owner into the slot of a live token is a transfer by its
/// owner.
proof fn lemma_update_is_transfer(
    owner_id: Seq<char>,
    slots: Seq<Option<Seq<char>>>,
    k: int,
    receiver_id: Seq<char>,
)
    requires
        0 <= k < slots.len(),
        slots[k] is Some,
    ensures
        registry_of(owner_id, slots.update(k, Some(receiver_id))) == registry_of(
            owner_id,
            slots,
        ).after_transfer(slots[k]->0, receiver_id, decimal(k as nat)),
        registry_of(owner_id, slots).transfer_outcome(slots[k]->0, decimal(k as nat)) is Ok,
{
    let before = registry_of(owner_id, slots);
    let target = decimal(k as nat);
    let a = registry_of(owner_id, slots.update(k, Some(receiver_id)));
    let b = before.after_transfer(slots[k]->0, receiver_id, target);
    lemma_decimal_denotes(k as nat);
    assert(slot_of(target, slots) == Some(k));
    assert(before.is_live(target));
    assert forall|id: Seq<char>| a.owner_by_id.dom().contains(id) == b.owner_by_id.dom().contains(
        id,
    ) by {
        lemma_token_number_iff_decimal(id, k as nat);
    }
    assert forall|id: Seq<char>| a.owner_by_id.dom().contains(id) implies a.owner_by_id[id]
        == b.owner_by_id[id] by {
        lemma_token_number_iff_decimal(id, k as nat);
    }
    assert(a.owner_by_id =~= b.owner_by_id);
    assert forall|id: Seq<char>| a.burned.contains(id) == b.burned.contains(id) by {
        lemma_token_number_iff_decimal(id, k as nat);
    }
    assert(a.burned =~= b.burned);
}

/// What a burn leaves for the outside world to record.
#[derive(Clone, Debug, PartialEq, Eq)]
pub struct BurnEvent {
    /// Who owned the token when it was burned.
    pub owner_id: Account,
    /// The token that was burned.
    pub token_id: TokenId,
}

impl BurnEvent {
    /// The kind of event, as it is written into the event log.
    pub fn event(&self) -> (r: &'static str)
        ensures
            r@ == "burn"@,
    {
        "burn"
    }
}

/// What a mint answered, as text.
pub open spec fn mint_answer(r: Result<TokenId, NftError>) -> Result<Seq<char>, NftError> {
    match r {
        Ok(id) => Ok(id@),
        Err(e) => Err(e),
    }
}

/// What a burn answered, as text: the owner and the token of the event.
pub open spec fn burn_answer(r: Result<BurnEvent, NftError>) -> Result<
    (Seq<char>, Seq<char>),
    NftError,
> {
    match r {
        Ok(event) => Ok((event.owner_id@, event.token_id@)),
        Err(e) => Err(e),
    }
}

/// The registry, held in memory.
#[derive(Debug, PartialEq, Eq)]
pub struct NftContract {
    owner_id: Account,
    tokens: Vec<Option<Account>>,
}

impl View for NftContract {
    type V = Registry;

    closed spec fn view(&self) -> Registry {
        registry_of(self.owner_id@, slots_view(self.tokens@))
    }
}

impl NftContract {
    /// Whether the counter still fits in thirty-two bits. Every contract
    /// that this module hands out satisfies it.
    pub closed spec fn wf(&self) -> bool {
        self.tokens@.len() <= u32::MAX
    }

    /// A well-formed contract stands for a well-formed registry.
    pub proof fn lemma_view_wf(&self)
        requires
            self.wf(),
        ensures
            self@.wf(),
            self@.next_id <= u32::MAX,
    {
        lemma_registry_of_wf(self.owner_id@, slots_view(self.tokens@));
    }

    /// A contract in which `owner_id` is the minter and nothing was minted.
    pub fn new(owner_id: Account) -> (r: NftContract)
        ensures
            r.wf(),
            r@ == Registry::empty(owner_id@),
    {
        let r = NftContract { owner_id, tokens: Vec::new() };
        proof {
            let a = r@;
            let b = Registry::empty(owner_id@);
            assert(a.owner_by_id =~= b.owner_by_id);
            assert(a.burned =~= b.burned);
        }
        r
    }

    /// Puts a contract back together from its minter and its slots. There
    /// is no such contract when the slots are more than the counter can
    /// count.
    pub fn from_parts(owner_id: Account, tokens: Vec<Option<Account>>) -> (r: Option<NftContract>)
        ensures
            r is Some <==> tokens@.len() <= u32::MAX,
            r matches Some(c) ==> c.wf() && c@ == registry_of(owner_id@, slots_view(tokens@)),
    {
        if tokens.len() > u32::MAX as usize {
            None
        } else {
            Some(NftContract { owner_id, tokens })
        }
    }

    /// Takes the contract apart into its minter and its slots: for each
    /// counter value handed out, in order, the owner of the token or nothing
    /// where it was burned.
    pub fn into_parts(self) -> (r: (Account, Vec<Option<Account>>))
        requires
            self.wf(),
        ensures
            self@ == registry_of(r.0@, slots_view(r.1@)),
            r.1@.len() <= u32::MAX,
    {
        (self.owner_id, self.tokens)
    }

    /// The one account that may mint.
    pub fn owner_id(&self) -> (r: &Account)
        ensures
            r@ == self@.owner_id,
    {
        &self.owner_id
    }

    /// The counter value under which the next token is issued.
    pub fn next_id(&self) -> (r: u32)
        requires
            self.wf(),
        ensures
            r == self@.next_id,
    {
        self.tokens.len() as u32
    }

    /// The slot that `token_id` names, if its counter value was handed out.
    fn find(&self, token_id: &str) -> (r: Option<usize>)
        requires
            self.wf(),
        ensures
            match r {
                Some(k) => slot_of(token_id@, slots_view(self.tokens@)) == Some(k as int),
                None => slot_of(token_id@, slots_view(self.tokens@)) is None,
            },
    {
        match parse_token_id(token_id) {
            Some(n) => if (n as usize) < self.tokens.len() {
                Some(n as usize)
            } else {
                None
            },
            None => None,
        }
    }

    /// The owner of `token_id`, or why it has none: the token was burned,
    /// or it was never issued.
    pub fn owner_of(&self, token_id: &str) -> (r: Result<&Account, NftError>)
        requires
            self.wf(),
        ensures
            match r {
                Ok(owner) => self@.live_owner(token_id@) == Ok::<Seq<char>, NftError>(owner@),
                Err(e) => self@.live_owner(token_id@) == Err::<Seq<char>, NftError>(e),
            },
    {
        let k = match self.live_slot(token_id) {
            Ok(k) => k,
            Err(e) => {
                return Err(e);
            },
        };
        match &self.tokens[k] {
            Some(owner) => Ok(owner),
            None => Err(NftError::AlreadyBurned),
        }
    }

    /// Whether `token_id` was burned.
    pub fn is_burned(&self, token_id: &str) -> (r: bool)
        requires
            self.wf(),
        ensures
            r == self@.is_burned(token_id@),
    {
        match self.find(token_id) {
            Some(k) => self.tokens[k].is_none(),
            None => false,
        }
    }

    /// The slot of `token_id` if the token is live, or why it is not: the
    /// token was burned, or it was never issued.
    fn live_slot(&self, token_id: &str) -> (r: Result<usize, NftError>)
        requires
            self.wf(),
        ensures
            match r {
                Ok(k) => {
                    &&& k < self.tokens@.len()
                    &&& self.tokens@[k as int] is Some
                    &&& token_id@ == decimal(k as nat)
                    &&& self@.live_owner(token_id@) == Ok::<Seq<char>, NftError>(
                        self.tokens@[k as int]->0@,
                    )
                },
                Err(e) => self@.live_owner(token_id@) == Err::<Seq<char>, NftError>(e),
            },
    {
        proof {
            lemma_slot_lookup(self.owner_id@, slots_view(self.tokens@), token_id@);
        }
        match self.find(token_id) {
            Some(k) => if self.tokens[k].is_some() {
                Ok(k)
            } else {
                Err(NftError::AlreadyBurned)
            },
            None => Err(NftError::NotFound),
        }
    }

    /// Issues the next token to `caller`, who must be the minter, and
    /// answers with its identifier. Anyone else is refused, and nothing
    /// changes.
    ///
    /// The counter must not be at its last value when the minter calls.
    pub fn nft_mint(&mut self, caller: &Account) -> (r: Result<TokenId, NftError>)
        requires
            old(self).wf(),
            caller@ == old(self)@.owner_id ==> old(self)@.next_id < u32::MAX,
        ensures
            final(self).wf(),
            final(self)@ == old(self)@.after_mint(caller@),
            mint_answer(r) == old(self)@.mint_outcome(caller@),
            r is Ok <==> caller@ == old(self)@.owner_id,
            r is Err ==> r == Err::<TokenId, NftError>(NftError::Authorization) && final(self)@
                == old(self)@,
            r matches Ok(id) ==> {
                &&& id@ == decimal(old(self)@.next_id)
                &&& !old(self)@.is_live(id@)
                &&& !old(self)@.is_burned(id@)
                &&& final(self)@.live_owner(id@) == Ok::<Seq<char>, NftError>(caller@)
                &&& !final(self)@.is_burned(id@)
            },
    {
        proof {
            old(self).lemma_view_wf();
            lemma_mint(old(self)@, caller@);
        }
        if !caller.same_as(&self.owner_id) {
            return Err(NftError::Authorization);
        }
        let number = self.tokens.len() as u32;
        let id = token_id_of(number);
        self.tokens.push(Some(caller.clone()));
        proof {
            let slots = slots_view(old(self).tokens@);
            lemma_push_is_mint(self.owner_id@, slots);
            assert(slots_view(self.tokens@) =~= slots.push(Some(self.owner_id@)));
        }
        Ok(id)
    }

    /// Destroys `token_id` for good on behalf of `caller`, who must own it,
    /// and answers with the event to record. The token loses its owner and
    /// joins the burned tokens. A token that is not live, or a caller who
    /// does not own it, is refused, and nothing changes.
    pub fn nft_burn(&mut self, caller: &Account, token_id: TokenId) -> (r: Result<
        BurnEvent,
        NftError,
    >)
        requires
            old(self).wf(),
        ensures
            final(self).wf(),
            final(self)@ == old(self)@.after_burn(caller@, token_id@),
            burn_answer(r) == old(self)@.burn_outcome(caller@, token_id@),
            r is Ok ==> final(self)@.is_burned(token_id@) && !final(self)@.is_live(token_id@),
            r is Err ==> final(self)@ == old(self)@,
    {
        proof {
            old(self).lemma_view_wf();
            lemma_burn(old(self)@, caller@, token_id@);
        }
        let k = match self.live_slot(token_id.as_str()) {
            Ok(k) => k,
            Err(e) => {
                return Err(e);
            },
        };
        let owner = match &self.tokens[k] {
            Some(owner) => owner.clone(),
            None => {
                return Err(NftError::AlreadyBurned);
            },
        };
        if !owner.same_as(caller) {
            return Err(NftError::Authorization);
        }
        self.tokens.set(k, None);
        proof {
            let slots = slots_view(old(self).tokens@);
            lemma_clear_is_burn(self.owner_id@, slots, k as int);
            assert(slots_view(self.tokens@) =~= slots.update(k as int, None));
        }
        Ok(BurnEvent { owner_id: owner, token_id })
    }

    /// Hands `token_id` over to `receiver_id` on behalf of `caller`, who
    /// must own it. A token that is not live, or a caller who does not own
    /// it, is refused, and nothing changes.
    pub fn nft_transfer(&mut self, caller: &Account, receiver_id: Account, token_id: TokenId) -> (r:
        Result<(), NftError>)
        requires
            old(self).wf(),
        ensures
            final(self).wf(),
            final(self)@ == old(self)@.after_transfer(caller@, receiver_id@, token_id@),
            r == old(self)@.transfer_outcome(caller@, token_id@),
            r is Ok ==> final(self)@.live_owner(token_id@) == Ok::<Seq<char>, NftError>(
                receiver_id@,
            ),
            r is Err ==> final(self)@ == old(self)@,
    {
        proof {
            old(self).lemma_view_wf();
            lemma_transfer(old(self)@, caller@, receiver_id@, token_id@);
        }
        let k = match self.live_slot(token_id.as_str()) {
            Ok(k) => k,
            Err(e) => {
                return Err(e);
            },
        };
        let authorized = match &self.tokens[k] {
            Some(owner) => owner.same_as(caller),
            None => false,
        };
        if !authorized {
            return Err(NftError::Authorization);
        }
        let ghost receiver_text = receiver_id@;
        self.tokens.set(k, Some(receiver_id));
        proof {
            let slots = slots_view(old(self).tokens@);
            lemma_update_is_transfer(self.owner_id@, slots, k as int, receiver_text);
            assert(slots_view(self.tokens@) =~= slots.update(k as int, Some(receiver_text)));
        }
        Ok(())
    }

    /// The descriptor of the collection.
    pub fn nft_metadata(&self) -> (r: ContractMetadata)
        ensures
            r.spec_version@ == "nft-1.0.0"@,
            r.name@ == "NFT contract"@,
            r.symbol@ == "NFT"@,
    {
        contract_metadata()
    }
}

/// Payouts on the sale of a token.
pub trait Payouts {
    /// The registry that the payouts are computed on.
    spec fn registry(&self) -> Registry;

    /// Whether the value is fit to be called on.
    spec fn valid(&self) -> bool;

    /// The split of `balance` on the sale of `token_id`: the token's owner
    /// first, then the beneficiary where `max_len_payout` leaves room for a
    /// second recipient. Refused when the token is not live, and when
    /// `max_len_payout` leaves no room even for the owner. Nothing changes.
    fn nft_payout(&self, token_id: TokenId, balance: u128, max_len_payout: u32) -> (r: Result<
        Payout,
        NftError,
    >)
        requires
            self.valid(),
        ensures
            payout_answer(r) == self.registry().payout_outcome(
                token_id@,
                balance as nat,
                max_len_payout as nat,
            ),
    ;

    /// Computes the split as [`Payouts::nft_payout`] does, with the owner as
    /// it is before the call, and then hands the token over to
    /// `receiver_id`. The call must carry exactly one unit of currency, and
    /// `caller` must own the token. Either the split is answered and the
    /// token changes hands, or the call is refused and nothing changes.
    ///
    /// `approval_id` is taken for the callers that send one; approvals are
    /// not kept, so it is not looked at.
    fn nft_transfer_payout(
        &mut self,
        caller: &Account,
        attached_deposit: u128,
        receiver_id: Account,
        token_id: TokenId,
        approval_id: Option<u64>,
        balance: u128,
        max_len_payout: u32,
    ) -> (r: Result<Payout, NftError>)
        requires
            old(self).valid(),
        ensures
            final(self).valid(),
            final(self).registry() == old(self).registry().after_transfer_payout(
                caller@,
                attached_deposit as nat,
                receiver_id@,
                token_id@,
                balance as nat,
                max_len_payout as nat,
            ),
            payout_answer(r) == old(self).registry().transfer_payout_outcome(
                caller@,
                attached_deposit as nat,
                token_id@,
                balance as nat,
                max_len_payout as nat,
            ),
    ;
}

impl Payouts for NftContract {
    open spec fn registry(&self) -> Registry {
        self@
    }

    open spec fn valid(&self) -> bool {
        self.wf()
    }

    fn nft_payout(&self, token_id: TokenId, balance: u128, max_len_payout: u32) -> (r: Result<
        Payout,
        NftError,
    >) {
        let k = match self.live_slot(token_id.as_str()) {
            Ok(k) => k,
            Err(e) => {
                return Err(e);
            },
        };
        match &self.tokens[k] {
            Some(owner) => split_payout(owner, balance, max_len_payout),
            None => Err(NftError::AlreadyBurned),
        }
    }

    fn nft_transfer_payout(
        &mut self,
        caller: &Account,
        attached_deposit: u128,
        receiver_id: Account,
        token_id: TokenId,
        _approval_id: Option<u64>,
        balance: u128,
        max_len_payout: u32,
    ) -> (r: Result<Payout, NftError>) {
        if attached_deposit != 1 {
            return Err(NftError::GuardViolation);
        }
        let payout = match self.nft_payout(token_id.clone(), balance, max_len_payout) {
            Ok(payout) => payout,
            Err(e) => {
                return Err(e);
            },
        };
        match self.nft_transfer(caller, receiver_id, token_id) {
            Ok(_) => Ok(payout),
            Err(e) => Err(e),
        }
    }
}

} // verus!
