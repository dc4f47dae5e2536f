//! The registry as a mathematical object.
//!
//! A [`Registry`] says who the minter is, which counter value comes next, who
//! owns each live token and which tokens have been destroyed. Every operation
//! of the contract is described here twice over: by what it answers and by
//! the registry it leaves behind. The theorems at the end of the file say
//! what no run of operations can undo.

use crate::error::NftError;
use crate::payout::{
    beneficiary_id, lemma_split_with_beneficiary, payout_answer, payout_of, total_paid, Payout,
};
use crate::token_id::{
    decimal, lemma_decimal_denotes, lemma_token_number_iff_decimal, token_number,
};
use vstd::prelude::*;

verus! {

/// The state of the registry.
pub struct Registry {
    /// The one account that may mint.
    pub owner_id: Seq<char>,
    /// The counter value under which the next token is issued.
    pub next_id: nat,
    /// The owner of each live token.
    pub owner_by_id: Map<Seq<char>, Seq<char>>,
    /// The tokens that were destroyed.
    pub burned: Set<Seq<char>>,
}

/// One request made of the registry.
pub enum Call {
    /// `caller` asks for a new token.
    Mint { caller: Seq<char> },
    /// `caller` asks for `token_id` to be destroyed.
    Burn { caller: Seq<char>, token_id: Seq<char> },
    /// `caller` asks for `token_id` to be handed to `receiver_id`.
    Transfer { caller: Seq<char>, receiver_id: Seq<char>, token_id: Seq<char> },
    /// `caller` asks for the split of `balance` on the sale of `token_id`,
    /// and for the token to be handed to `receiver_id`.
    TransferPayout {
        caller: Seq<char>,
        attached_deposit: nat,
        receiver_id: Seq<char>,
        token_id: Seq<char>,
        balance: nat,
        max_len_payout: nat,
    },
}

impl Registry {
    /// The registry of `owner_id` before anything was minted.
    pub open spec fn empty(owner_id: Seq<char>) -> Registry {
        Registry { owner_id, next_id: 0, owner_by_id: Map::empty(), burned: Set::empty() }
    }

    /// Whether `id` has an owner.
    pub open spec fn is_live(self, id: Seq<char>) -> bool {
        self.owner_by_id.dom().contains(id)
    }

    /// Whether `id` was destroyed.
    pub open spec fn is_burned(self, id: Seq<char>) -> bool {
        self.burned.contains(id)
    }

    /// Whether `id` names a counter value that was already handed out.
    pub open spec fn is_issued(self, id: Seq<char>) -> bool {
        match token_number(id) {
            Some(k) => k < self.next_id,
            None => false,
        }
    }

    /// What every reachable registry satisfies: no token is both live and
    /// burned, and the tokens that are one or the other are exactly those
    /// named by a counter value below the next one.
    pub open spec fn wf(self) -> bool {
        &&& forall|id: Seq<char>|
            #![trigger self.is_live(id)]
            #![trigger self.is_burned(id)]
            !(self.is_live(id) && self.is_burned(id))
        &&& forall|id: Seq<char>|
            #![trigger self.is_live(id)]
            #![trigger self.is_burned(id)]
            #![trigger self.is_issued(id)]
            (self.is_live(id) || self.is_burned(id)) <==> self.is_issued(id)
    }

    /// The owner of `id`, or why it has none.
    pub open spec fn live_owner(self, id: Seq<char>) -> Result<Seq<char>, NftError> {
        if self.is_live(id) {
            Ok(self.owner_by_id[id])
        } else if self.is_burned(id) {
            Err(NftError::AlreadyBurned)
        } else {
            Err(NftError::NotFound)
        }
    }

    /// The identifier that the next mint issues.
    pub open spec fn next_token_id(self) -> Seq<char> {
        decimal(self.next_id)
    }

    /// What a mint requested by `caller` answers: the fresh identifier, or a
    /// refusal when `caller` is not the minter.
    pub open spec fn mint_outcome(self, caller: Seq<char>) -> Result<Seq<char>, NftError> {
        if caller == self.owner_id {
            Ok(self.next_token_id())
        } else {
            Err(NftError::Authorization)
        }
    }

    /// The registry after a mint requested by `caller`.
    pub open spec fn after_mint(self, caller: Seq<char>) -> Registry {
        if self.mint_outcome(caller) is Ok {
            Registry {
                next_id: self.next_id + 1,
                owner_by_id: self.owner_by_id.insert(self.next_token_id(), caller),
                ..self
            }
        } else {
            self
        }
    }

    /// What a burn of `id` requested by `caller` answers: the owner and the
    /// token that the burn event records, or a refusal.
    pub open spec fn burn_outcome(self, caller: Seq<char>, id: Seq<char>) -> Result<
        (Seq<char>, Seq<char>),
        NftError,
    > {
        match self.live_owner(id) {
            Ok(owner) => if owner == caller {
                Ok((owner, id))
            } else {
                Err(NftError::Authorization)
            },
            Err(e) => Err(e),
        }
    }

    /// The registry after a burn of `id` requested by `caller`.
    pub open spec fn after_burn(self, caller: Seq<char>, id: Seq<char>) -> Registry {
        if self.burn_outcome(caller, id) is Ok {
            Registry {
                owner_by_id: self.owner_by_id.remove(id),
                burned: self.burned.insert(id),
                ..self
            }
        } else {
            self
        }
    }

    /// What a transfer of `id` requested by `caller` answers.
    pub open spec fn transfer_outcome(self, caller: Seq<char>, id: Seq<char>) -> Result<
        (),
        NftError,
    > {
        match self.live_owner(id) {
            Ok(owner) => if owner == caller {
                Ok(())
            } else {
                Err(NftError::Authorization)
            },
            Err(e) => Err(e),
        }
    }

    /// The registry after a transfer of `id` to `receiver_id` requested by
    /// `caller`.
    pub open spec fn after_transfer(
        self,
        caller: Seq<char>,
        receiver_id: Seq<char>,
        id: Seq<char>,
    ) -> Registry {
        if self.transfer_outcome(caller, id) is Ok {
            Registry { owner_by_id: self.owner_by_id.insert(id, receiver_id), ..self }
        } else {
            self
        }
    }

    /// What a payout computation for `id` answers: the split on behalf of
    /// the token's owner, or a refusal.
    pub open spec fn payout_outcome(self, id: Seq<char>, balance: nat, max_len_payout: nat) -> Result<
        Seq<(Seq<char>, nat)>,
        NftError,
    > {
        match self.live_owner(id) {
            Ok(owner) => payout_of(owner, balance, max_len_payout),
            Err(e) => Err(e),
        }
    }

    /// What a transfer with payout answers. The guard is looked at first,
    /// then the token and the split, then the caller's right to transfer.
    pub open spec fn transfer_payout_outcome(
        self,
        caller: Seq<char>,
        attached_deposit: nat,
        id: Seq<char>,
        balance: nat,
        max_len_payout: nat,
    ) -> Result<Seq<(Seq<char>, nat)>, NftError> {
        if attached_deposit != 1 {
            Err(NftError::GuardViolation)
        } else {
            match self.payout_outcome(id, balance, max_len_payout) {
                Ok(split) => match self.transfer_outcome(caller, id) {
                    Ok(_) => Ok(split),
                    Err(e) => Err(e),
                },
                Err(e) => Err(e),
            }
        }
    }

    /// The registry after a transfer with payout.
    pub open spec fn after_transfer_payout(
        self,
        caller: Seq<char>,
        attached_deposit: nat,
        receiver_id: Seq<char>,
        id: Seq<char>,
        balance: nat,
        max_len_payout: nat,
    ) -> Registry {
        if self.transfer_payout_outcome(caller, attached_deposit, id, balance, max_len_payout)
            is Ok {
            self.after_transfer(caller, receiver_id, id)
        } else {
            self
        }
    }

    /// The registry after `call`.
    pub open spec fn apply(self, call: Call) -> Registry {
        match call {
            Call::Mint { caller } => self.after_mint(caller),
            Call::Burn { caller, token_id } => self.after_burn(caller, token_id),
            Call::Transfer { caller, receiver_id, token_id } => self.after_transfer(
                caller,
                receiver_id,
                token_id,
            ),
            Call::TransferPayout {
                caller,
                attached_deposit,
                receiver_id,
                token_id,
                balance,
                max_len_payout,
            } => self.after_transfer_payout(
                caller,
                attached_deposit,
                receiver_id,
                token_id,
                balance,
                max_len_payout,
            ),
        }
    }

    /// The identifier that `call` issues, if it is a mint that succeeds.
    pub open spec fn issues(self, call: Call) -> Option<Seq<char>> {
        match call {
            Call::Mint { caller } => match self.mint_outcome(caller) {
                Ok(id) => Some(id),
                Err(_) => None,
            },
            _ => None,
        }
    }

    /// The registry after `calls`, made one after the other.
    pub open spec fn run(self, calls: Seq<Call>) -> Registry
        decreases calls.len(),
    {
        if calls.len() == 0 {
            self
        } else {
            self.run(calls.drop_last()).apply(calls.last())
        }
    }

    /// The identifiers issued in the course of `calls`, in order of issue.
    pub open spec fn issued_during(self, calls: Seq<Call>) -> Seq<Seq<char>>
        decreases calls.len(),
    {
        if calls.len() == 0 {
            Seq::empty()
        } else {
            let before = self.issued_during(calls.drop_last());
            match self.run(calls.drop_last()).issues(calls.last()) {
                Some(id) => before.push(id),
                None => before,
            }
        }
    }
}

/// The empty registry is well formed and holds no token.
pub proof fn lemma_empty_wf(owner_id: Seq<char>)
    ensures
        Registry::empty(owner_id).wf(),
        forall|id: Seq<char>| !Registry::empty(owner_id).is_live(id),
        forall|id: Seq<char>| !Registry::empty(owner_id).is_burned(id),
{
}

/// A mint issues an identifier that was neither live nor burned, and leaves
/// every other token as it was. A refused mint changes nothing.
pub proof fn lemma_mint(reg: Registry, caller: Seq<char>)
    requires
        reg.wf(),
    ensures
        reg.after_mint(caller).wf(),
        reg.mint_outcome(caller) is Ok <==> caller == reg.owner_id,
        reg.mint_outcome(caller) is Err ==> reg.mint_outcome(caller) == Err::<
            Seq<char>,
            NftError,
        >(NftError::Authorization) && reg.after_mint(caller) == reg,
        reg.mint_outcome(caller) matches Ok(id) ==> {
            &&& token_number(id) == Some(reg.next_id)
            &&& !reg.is_live(id)
            &&& !reg.is_burned(id)
            &&& reg.after_mint(caller).live_owner(id) == Ok::<Seq<char>, NftError>(caller)
            &&& reg.after_mint(caller).next_id == reg.next_id + 1
            &&& reg.after_mint(caller).burned == reg.burned
        },
{
    if caller == reg.owner_id {
        let id = reg.next_token_id();
        let after = reg.after_mint(caller);
        lemma_decimal_denotes(reg.next_id);
        assert(!reg.is_issued(id));
        assert forall|other: Seq<char>|
            #![trigger after.is_live(other)]
            #![trigger after.is_burned(other)]
            #![trigger after.is_issued(other)]
            {
                &&& !(after.is_live(other) && after.is_burned(other))
                &&& ((after.is_live(other) || after.is_burned(other)) <==> after.is_issued(other))
            } by {
            lemma_token_number_iff_decimal(other, reg.next_id);
            assert(reg.is_issued(other) <==> (reg.is_live(other) || reg.is_burned(other)));
            assert(!(reg.is_live(other) && reg.is_burned(other)));
        }
    }
}

/// A burn takes the token out of the owners' map and puts it into the burned
/// set; it touches no other token. A refused burn changes nothing.
pub proof fn lemma_burn(reg: Registry, caller: Seq<char>, id: Seq<char>)
    requires
        reg.wf(),
    ensures
        reg.after_burn(caller, id).wf(),
        reg.after_burn(caller, id).next_id == reg.next_id,
        reg.burn_outcome(caller, id) is Ok <==> reg.is_live(id) && reg.owner_by_id[id] == caller,
        reg.burn_outcome(caller, id) is Err ==> reg.after_burn(caller, id) == reg,
        reg.is_live(id) && reg.owner_by_id[id] != caller ==> reg.burn_outcome(caller, id) == Err::<
            (Seq<char>, Seq<char>),
            NftError,
        >(NftError::Authorization) && reg.after_burn(caller, id).live_owner(id)
            == reg.live_owner(id) && !reg.after_burn(caller, id).is_burned(id),
        reg.burn_outcome(caller, id) is Ok ==> {
            &&& reg.after_burn(caller, id).is_burned(id)
            &&& !reg.after_burn(caller, id).is_live(id)
        },
{
    if reg.burn_outcome(caller, id) is Ok {
        let after = reg.after_burn(caller, id);
        assert forall|other: Seq<char>|
            #![trigger after.is_live(other)]
            #![trigger after.is_burned(other)]
            #![trigger after.is_issued(other)]
            {
                &&& !(after.is_live(other) && after.is_burned(other))
                &&& ((after.is_live(other) || after.is_burned(other)) <==> after.is_issued(other))
            } by {
            assert(reg.is_issued(other) <==> (reg.is_live(other) || reg.is_burned(other)));
            assert(!(reg.is_live(other) && reg.is_burned(other)));
            assert(after.is_issued(other) == reg.is_issued(other));
        }
    }
}

/// A transfer changes the owner of one live token and nothing else. A
/// refused transfer changes nothing.
pub proof fn lemma_transfer(reg: Registry, caller: Seq<char>, receiver_id: Seq<char>, id: Seq<char>)
    requires
        reg.wf(),
    ensures
        reg.after_transfer(caller, receiver_id, id).wf(),
        reg.after_transfer(caller, receiver_id, id).next_id == reg.next_id,
        reg.after_transfer(caller, receiver_id, id).burned == reg.burned,
        reg.after_transfer(caller, receiver_id, id).owner_by_id.dom() == reg.owner_by_id.dom(),
        reg.transfer_outcome(caller, id) is Ok <==> reg.is_live(id) && reg.owner_by_id[id]
            == caller,
        reg.transfer_outcome(caller, id) is Err ==> reg.after_transfer(caller, receiver_id, id)
            == reg,
        reg.transfer_outcome(caller, id) is Ok ==> reg.after_transfer(
            caller,
            receiver_id,
            id,
        ).live_owner(id) == Ok::<Seq<char>, NftError>(receiver_id),
{
    let after = reg.after_transfer(caller, receiver_id, id);
    if reg.transfer_outcome(caller, id) is Ok {
        assert(after.owner_by_id.dom() =~= reg.owner_by_id.dom());
        assert forall|other: Seq<char>|
            #![trigger after.is_live(other)]
            #![trigger after.is_burned(other)]
            #![trigger after.is_issued(other)]
            {
                &&& !(after.is_live(other) && after.is_burned(other))
                &&& ((after.is_live(other) || after.is_burned(other)) <==> after.is_issued(other))
            } by {
            assert(reg.is_issued(other) <==> (reg.is_live(other) || reg.is_burned(other)));
            assert(!(reg.is_live(other) && reg.is_burned(other)));
            assert(after.is_issued(other) == reg.is_issued(other));
        }
    }
}

/// Whatever is asked of a well-formed registry, it stays well formed, its
/// counter does not go back, and what was burned stays burned and ownerless.
pub proof fn lemma_apply(reg: Registry, call: Call)
    requires
        reg.wf(),
    ensures
        reg.apply(call).wf(),
        reg.apply(call).owner_id == reg.owner_id,
        reg.next_id <= reg.apply(call).next_id,
        reg.issues(call) is None ==> reg.apply(call).next_id == reg.next_id,
        reg.issues(call) matches Some(id) ==> token_number(id) == Some(reg.next_id)
            && reg.apply(call).next_id == reg.next_id + 1,
        forall|id: Seq<char>|
            reg.is_burned(id) ==> #[trigger] reg.apply(call).is_burned(id) && !reg.apply(
                call,
            ).is_live(id),
{
    let after = reg.apply(call);
    match call {
        Call::Mint { caller } => {
            lemma_mint(reg, caller);
        },
        Call::Burn { caller, token_id } => {
            lemma_burn(reg, caller, token_id);
        },
        Call::Transfer { caller, receiver_id, token_id } => {
            lemma_transfer(reg, caller, receiver_id, token_id);
        },
        Call::TransferPayout {
            caller,
            attached_deposit,
            receiver_id,
            token_id,
            balance,
            max_len_payout,
        } => {
            lemma_transfer(reg, caller, receiver_id, token_id);
        },
    }
    assert forall|id: Seq<char>| reg.is_burned(id) implies #[trigger] after.is_burned(id)
        && !after.is_live(id) by {
        assert(after.wf());
        assert(!(after.is_live(id) && after.is_burned(id)));
    }
}

/// No run of calls breaks the registry, turns its counter back, or brings a
/// burned token back: what was burned before the run is burned after it, has
/// no owner, and is not issued again.
pub proof fn lemma_run(reg: Registry, calls: Seq<Call>)
    requires
        reg.wf(),
    ensures
        reg.run(calls).wf(),
        reg.run(calls).owner_id == reg.owner_id,
        reg.next_id <= reg.run(calls).next_id,
        forall|id: Seq<char>|
            reg.is_burned(id) ==> #[trigger] reg.run(calls).is_burned(id) && !reg.run(
                calls,
            ).is_live(id),
        forall|i: int|
            0 <= i < reg.issued_during(calls).len() ==> (#[trigger] token_number(
                reg.issued_during(calls)[i],
            ) matches Some(k) && reg.next_id <= k < reg.run(calls).next_id),
        forall|i: int, j: int|
            0 <= i < j < reg.issued_during(calls).len() ==> (token_number(
                #[trigger] reg.issued_during(calls)[i],
            )->0 < token_number(#[trigger] reg.issued_during(calls)[j])->0),
    decreases calls.len(),
{
    if calls.len() > 0 {
        let earlier = calls.drop_last();
        let mid = reg.run(earlier);
        lemma_run(reg, earlier);
        lemma_apply(mid, calls.last());
        let after = reg.run(calls);
        assert forall|id: Seq<char>| reg.is_burned(id) implies #[trigger] after.is_burned(id)
            && !after.is_live(id) by {
            assert(mid.is_burned(id));
        }
    }
}

/// The identifiers issued in the course of any run of calls are pairwise
/// distinct, and none of them names a token that was live or burned before
/// the run.
pub proof fn lemma_issued_ids_are_distinct_and_fresh(reg: Registry, calls: Seq<Call>)
    requires
        reg.wf(),
    ensures
        forall|i: int, j: int|
            0 <= i < j < reg.issued_during(calls).len() ==> #[trigger] reg.issued_during(
                calls,
            )[i] != #[trigger] reg.issued_during(calls)[j],
        forall|i: int|
            0 <= i < reg.issued_during(calls).len() ==> !reg.is_live(
                #[trigger] reg.issued_during(calls)[i],
            ) && !reg.is_burned(reg.issued_during(calls)[i]),
{
    lemma_run(reg, calls);
    let ids = reg.issued_during(calls);
    assert forall|i: int| 0 <= i < ids.len() implies !reg.is_live(#[trigger] ids[i])
        && !reg.is_burned(ids[i]) by {
        assert(token_number(ids[i]) is Some);
        assert(!reg.is_issued(ids[i]));
    }
}

/// A burn that succeeds is for good: right after it, and after any run of
/// calls that follows, the token is burned, has no owner, is not issued
/// again, and cannot be burned, transferred or paid out on.
pub proof fn lemma_burn_is_for_good(
    reg: Registry,
    caller: Seq<char>,
    id: Seq<char>,
    later: Seq<Call>,
)
    requires
        reg.wf(),
        reg.burn_outcome(caller, id) is Ok,
    ensures
        reg.after_burn(caller, id).is_burned(id),
        !reg.after_burn(caller, id).is_live(id),
        reg.after_burn(caller, id).run(later).is_burned(id),
        !reg.after_burn(caller, id).run(later).is_live(id),
        forall|i: int|
            0 <= i < reg.after_burn(caller, id).issued_during(later).len() ==> #[trigger] reg.after_burn(
                caller,
                id,
            ).issued_during(later)[i] != id,
        forall|anyone: Seq<char>| #[trigger]
            reg.after_burn(caller, id).run(later).burn_outcome(anyone, id) is Err,
        forall|anyone: Seq<char>| #[trigger]
            reg.after_burn(caller, id).run(later).transfer_outcome(anyone, id) is Err,
        forall|balance: nat, max_len_payout: nat| #[trigger]
            reg.after_burn(caller, id).run(later).payout_outcome(id, balance, max_len_payout)
                is Err,
{
    lemma_burn(reg, caller, id);
    lemma_burned_is_final(reg.after_burn(caller, id), later, id);
}

/// Once a token is burned, no run of calls makes it live, issues it again,
/// or lets it be burned, transferred or paid out on.
pub proof fn lemma_burned_is_final(reg: Registry, calls: Seq<Call>, id: Seq<char>)
    requires
        reg.wf(),
        reg.is_burned(id),
    ensures
        reg.run(calls).is_burned(id),
        !reg.run(calls).is_live(id),
        forall|i: int|
            0 <= i < reg.issued_during(calls).len() ==> #[trigger] reg.issued_during(calls)[i]
                != id,
        forall|caller: Seq<char>| #[trigger]
            reg.run(calls).burn_outcome(caller, id) == Err::<(Seq<char>, Seq<char>), NftError>(
                NftError::AlreadyBurned,
            ),
        forall|caller: Seq<char>| #[trigger]
            reg.run(calls).transfer_outcome(caller, id) == Err::<(), NftError>(
                NftError::AlreadyBurned,
            ),
        forall|balance: nat, max_len_payout: nat| #[trigger]
            reg.run(calls).payout_outcome(id, balance, max_len_payout) == Err::<
                Seq<(Seq<char>, nat)>,
                NftError,
            >(NftError::AlreadyBurned),
{
    lemma_run(reg, calls);
    lemma_issued_ids_are_distinct_and_fresh(reg, calls);
}

/// With room for more than one recipient, the payout on a live token has
/// exactly two entries: the token's owner with ninety percent of the
/// balance, rounded down, and the beneficiary with all that is left. The
/// two amounts add up to the balance.
pub proof fn lemma_payout_with_beneficiary(
    reg: Registry,
    id: Seq<char>,
    balance: nat,
    max_len_payout: nat,
)
    requires
        reg.is_live(id),
        max_len_payout > 1,
    ensures
        reg.payout_outcome(id, balance, max_len_payout) is Ok,
        reg.payout_outcome(id, balance, max_len_payout)->Ok_0.len() == 2,
        reg.payout_outcome(id, balance, max_len_payout)->Ok_0[0] == (
            reg.owner_by_id[id],
            balance * 90 / 100,
        ),
        reg.payout_outcome(id, balance, max_len_payout)->Ok_0[1] == (
            beneficiary_id(),
            (balance - balance * 90 / 100) as nat,
        ),
        balance * 90 / 100 + (balance - balance * 90 / 100) == balance,
        total_paid(reg.payout_outcome(id, balance, max_len_payout)->Ok_0) == balance,
{
    lemma_split_with_beneficiary(reg.owner_by_id[id], balance, max_len_payout);
}

/// With room for exactly one recipient, the payout on a live token is the
/// owner's entry and nothing else.
pub proof fn lemma_payout_owner_only(reg: Registry, id: Seq<char>, balance: nat)
    requires
        reg.is_live(id),
    ensures
        reg.payout_outcome(id, balance, 1) == Ok::<Seq<(Seq<char>, nat)>, NftError>(
            seq![(reg.owner_by_id[id], balance * 90 / 100)],
        ),
        reg.payout_outcome(id, balance, 1)->Ok_0.len() == 1,
{
}

/// A payout is answered exactly when the token is live and at least one
/// recipient is accepted, and never has more entries than were accepted.
pub proof fn lemma_payout_when_answered(
    reg: Registry,
    id: Seq<char>,
    balance: nat,
    max_len_payout: nat,
)
    ensures
        reg.payout_outcome(id, balance, max_len_payout) is Ok <==> reg.is_live(id)
            && max_len_payout >= 1,
        reg.payout_outcome(id, balance, max_len_payout) matches Ok(split) ==> 1 <= split.len()
            <= max_len_payout,
        reg.is_live(id) && max_len_payout == 0 ==> reg.payout_outcome(
            id,
            balance,
            max_len_payout,
        ) == Err::<Seq<(Seq<char>, nat)>, NftError>(NftError::PayoutTooLarge),
{
}

/// Asking twice gives the same answer twice: two answers to the same
/// question about the same registry, whether a token is burned or what a
/// sale pays out, are equal.
pub proof fn lemma_queries_are_repeatable(
    reg: Registry,
    id: Seq<char>,
    balance: nat,
    max_len_payout: nat,
    first_burned: bool,
    second_burned: bool,
    first_payout: Result<Payout, NftError>,
    second_payout: Result<Payout, NftError>,
)
    requires
        first_burned == reg.is_burned(id),
        second_burned == reg.is_burned(id),
        payout_answer(first_payout) == reg.payout_outcome(id, balance, max_len_payout),
        payout_answer(second_payout) == reg.payout_outcome(id, balance, max_len_payout),
    ensures
        first_burned == second_burned,
        first_payout is Ok <==> second_payout is Ok,
        first_payout is Ok ==> first_payout->Ok_0@ == second_payout->Ok_0@,
        first_payout is Err ==> first_payout->Err_0 == second_payout->Err_0,
{
}

} // verus!
