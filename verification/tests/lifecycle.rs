use nft_contract::account::Account;
use nft_contract::contract::{BurnEvent, NftContract, Payouts};
use nft_contract::error::NftError;

fn account(text: &str) -> Account {
    Account::new(text).unwrap()
}

fn minted(owner: &Account, count: u32) -> NftContract {
    let mut contract = NftContract::new(owner.clone());
    for _ in 0..count {
        contract.nft_mint(owner).unwrap();
    }
    contract
}

#[test]
fn new_contract_holds_nothing() {
    let alice = account("alice.near");
    let contract = NftContract::new(alice.clone());
    assert_eq!(contract.owner_id(), &alice);
    assert_eq!(contract.next_id(), 0);
    assert_eq!(contract.owner_of("0"), Err(NftError::NotFound));
    assert!(!contract.is_burned("0"));
}

#[test]
fn first_two_mints_issue_zero_and_one() {
    let alice = account("alice.near");
    let mut contract = NftContract::new(alice.clone());
    assert_eq!(contract.nft_mint(&alice), Ok("0".to_string()));
    assert_eq!(contract.owner_of("0"), Ok(&alice));
    assert_eq!(contract.nft_mint(&alice), Ok("1".to_string()));
    assert_eq!(contract.owner_of("1"), Ok(&alice));
    assert_eq!(contract.next_id(), 2);
    assert_eq!(contract.owner_of("2"), Err(NftError::NotFound));
}

#[test]
fn mint_by_stranger_is_refused_and_changes_nothing() {
    let alice = account("alice.near");
    let bob = account("bob.near");
    let mut contract = minted(&alice, 1);
    let before = minted(&alice, 1);
    assert_eq!(contract.nft_mint(&bob), Err(NftError::Authorization));
    assert_eq!(contract, before);
    assert_eq!(contract.next_id(), 1);
    assert_eq!(contract.owner_of("1"), Err(NftError::NotFound));
}

#[test]
fn issued_identifiers_never_repeat() {
    let alice = account("alice.near");
    let bob = account("bob.near");
    let mut contract = NftContract::new(alice.clone());
    let mut issued: Vec<String> = Vec::new();
    for round in 0..120u32 {
        if round % 7 == 3 {
            assert_eq!(contract.nft_mint(&bob), Err(NftError::Authorization));
        }
        let id = contract.nft_mint(&alice).unwrap();
        assert_eq!(id, round.to_string());
        assert!(!issued.contains(&id));
        issued.push(id.clone());
        if round % 5 == 0 {
            contract.nft_burn(&alice, id).unwrap();
        }
    }
    assert_eq!(issued.len(), 120);
    assert_eq!(contract.next_id(), 120);
}

#[test]
fn burn_by_owner_retires_the_token() {
    let alice = account("alice.near");
    let mut contract = minted(&alice, 2);
    let event = contract.nft_burn(&alice, "0".to_string()).unwrap();
    assert_eq!(event, BurnEvent { owner_id: alice.clone(), token_id: "0".to_string() });
    assert_eq!(event.event(), "burn");
    assert!(contract.is_burned("0"));
    assert_eq!(contract.owner_of("0"), Err(NftError::AlreadyBurned));
    assert!(!contract.is_burned("1"));
    assert_eq!(contract.owner_of("1"), Ok(&alice));
    assert_eq!(contract.next_id(), 2);
}

#[test]
fn burned_token_never_comes_back() {
    let alice = account("alice.near");
    let carol = account("carol.near");
    let mut contract = minted(&alice, 1);
    contract.nft_burn(&alice, "0".to_string()).unwrap();

    assert_eq!(contract.nft_burn(&alice, "0".to_string()), Err(NftError::AlreadyBurned));
    assert_eq!(
        contract.nft_transfer(&alice, carol.clone(), "0".to_string()),
        Err(NftError::AlreadyBurned)
    );
    assert_eq!(
        contract.nft_transfer_payout(&alice, 1, carol.clone(), "0".to_string(), None, 1000, 2),
        Err(NftError::AlreadyBurned)
    );
    assert_eq!(contract.nft_payout("0".to_string(), 1000, 2), Err(NftError::AlreadyBurned));
    let next = contract.nft_mint(&alice).unwrap();
    assert_eq!(next, "1");
    assert!(contract.is_burned("0"));
    assert_eq!(contract.owner_of("0"), Err(NftError::AlreadyBurned));
}

#[test]
fn burn_by_stranger_is_refused_and_changes_nothing() {
    let alice = account("alice.near");
    let bob = account("bob.near");
    let mut contract = minted(&alice, 1);
    assert_eq!(contract.nft_burn(&bob, "0".to_string()), Err(NftError::Authorization));
    assert!(!contract.is_burned("0"));
    assert_eq!(contract.owner_of("0"), Ok(&alice));
    assert_eq!(contract, minted(&alice, 1));
}

#[test]
fn burn_of_unknown_token_is_not_found() {
    let alice = account("alice.near");
    let mut contract = minted(&alice, 2);
    for id in ["2", "3", "", "00", "01", "+1", "-0", "1 ", "one", "4294967296", "٣"] {
        assert_eq!(contract.nft_burn(&alice, id.to_string()), Err(NftError::NotFound));
        assert!(!contract.is_burned(id));
        assert_eq!(contract.owner_of(id), Err(NftError::NotFound));
    }
    assert_eq!(contract, minted(&alice, 2));
}

#[test]
fn transfer_hands_the_token_over() {
    let alice = account("alice.near");
    let carol = account("carol.near");
    let mut contract = minted(&alice, 2);
    assert_eq!(contract.nft_transfer(&alice, carol.clone(), "1".to_string()), Ok(()));
    assert_eq!(contract.owner_of("1"), Ok(&carol));
    assert_eq!(contract.owner_of("0"), Ok(&alice));
    assert_eq!(contract.owner_id(), &alice);

    assert_eq!(
        contract.nft_transfer(&alice, alice.clone(), "1".to_string()),
        Err(NftError::Authorization)
    );
    assert_eq!(contract.nft_burn(&alice, "1".to_string()), Err(NftError::Authorization));
    assert_eq!(contract.owner_of("1"), Ok(&carol));
    assert_eq!(
        contract.nft_burn(&carol, "1".to_string()),
        Ok(BurnEvent { owner_id: carol.clone(), token_id: "1".to_string() })
    );
}

#[test]
fn transfer_of_unknown_token_is_not_found() {
    let alice = account("alice.near");
    let carol = account("carol.near");
    let mut contract = minted(&alice, 1);
    assert_eq!(
        contract.nft_transfer(&alice, carol.clone(), "1".to_string()),
        Err(NftError::NotFound)
    );
    assert_eq!(contract, minted(&alice, 1));
}

#[test]
fn transfer_to_oneself_keeps_the_owner() {
    let alice = account("alice.near");
    let mut contract = minted(&alice, 1);
    assert_eq!(contract.nft_transfer(&alice, alice.clone(), "0".to_string()), Ok(()));
    assert_eq!(contract.owner_of("0"), Ok(&alice));
}

#[test]
fn is_burned_answers_the_same_every_time() {
    let alice = account("alice.near");
    let mut contract = minted(&alice, 2);
    contract.nft_burn(&alice, "1".to_string()).unwrap();
    let snapshot = {
        let mut other = minted(&alice, 2);
        other.nft_burn(&alice, "1".to_string()).unwrap();
        other
    };
    for _ in 0..5 {
        assert!(contract.is_burned("1"));
        assert!(!contract.is_burned("0"));
        assert!(!contract.is_burned("2"));
        assert_eq!(contract, snapshot);
    }
}

#[test]
fn parts_round_trip() {
    let alice = account("alice.near");
    let carol = account("carol.near");
    let mut contract = minted(&alice, 3);
    contract.nft_burn(&alice, "1".to_string()).unwrap();
    contract.nft_transfer(&alice, carol.clone(), "2".to_string()).unwrap();

    let (owner, slots) = contract.into_parts();
    assert_eq!(owner, alice);
    assert_eq!(slots, vec![Some(alice.clone()), None, Some(carol.clone())]);

    let rebuilt = NftContract::from_parts(owner, slots).unwrap();
    assert_eq!(rebuilt.next_id(), 3);
    assert_eq!(rebuilt.owner_of("0"), Ok(&alice));
    assert!(rebuilt.is_burned("1"));
    assert_eq!(rebuilt.owner_of("2"), Ok(&carol));
}
