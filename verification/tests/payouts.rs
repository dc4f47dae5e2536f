use nft_contract::account::Account;
use nft_contract::contract::{NftContract, Payouts};
use nft_contract::error::NftError;
use nft_contract::payout::{beneficiary, split_owner_share, split_payout, Payout, PayoutMap};

fn named(text: &str) -> Account {
    Account::new(text).unwrap()
}

fn one_token(owner: &Account) -> NftContract {
    let mut contract = NftContract::new(owner.clone());
    contract.nft_mint(owner).unwrap();
    contract
}

fn split(entries: Vec<(Account, u128)>) -> Payout {
    Payout { payout: PayoutMap(entries) }
}

#[test]
fn beneficiary_is_the_burn_account() {
    assert_eq!(beneficiary().as_str(), "burn.near");
}

#[test]
fn owner_share_is_ninety_percent_rounded_down() {
    assert_eq!(split_owner_share(0), 0);
    assert_eq!(split_owner_share(1), 0);
    assert_eq!(split_owner_share(2), 1);
    assert_eq!(split_owner_share(9), 8);
    assert_eq!(split_owner_share(10), 9);
    assert_eq!(split_owner_share(11), 9);
    assert_eq!(split_owner_share(99), 89);
    assert_eq!(split_owner_share(100), 90);
    assert_eq!(split_owner_share(101), 90);
    assert_eq!(split_owner_share(1000), 900);
    assert_eq!(split_owner_share(1_000_000_007), 900_000_006);
}

#[test]
fn owner_share_of_the_largest_balance() {
    assert_eq!(u128::MAX, 340282366920938463463374607431768211455);
    assert_eq!(split_owner_share(u128::MAX), 306254130228844617117037146688591390309);
    assert_eq!(split_owner_share(u128::MAX - 55), 306254130228844617117037146688591390260);
}

#[test]
fn split_between_owner_and_beneficiary() {
    let alice = named("alice.near");
    assert_eq!(
        split_payout(&alice, 1000, 2),
        Ok(split(vec![(alice.clone(), 900), (beneficiary(), 100)]))
    );
    assert_eq!(
        split_payout(&alice, 1001, u32::MAX),
        Ok(split(vec![(alice.clone(), 900), (beneficiary(), 101)]))
    );
    assert_eq!(
        split_payout(&alice, 0, 2),
        Ok(split(vec![(alice.clone(), 0), (beneficiary(), 0)]))
    );
    assert_eq!(
        split_payout(&alice, 1, 3),
        Ok(split(vec![(alice.clone(), 0), (beneficiary(), 1)]))
    );
}

#[test]
fn split_shares_add_up_to_the_balance() {
    let alice = named("alice.near");
    let balances: [u128; 9] =
        [0, 1, 9, 10, 99, 100, 12345678901234567890, u128::MAX - 1, u128::MAX];
    for balance in balances {
        let payout = split_payout(&alice, balance, 2).unwrap();
        let entries = payout.payout.0;
        assert_eq!(entries.len(), 2);
        assert_eq!(entries[0].0, alice);
        assert_eq!(entries[1].0, beneficiary());
        assert_eq!(entries[0].1, balance / 100 * 90 + balance % 100 * 90 / 100);
        assert_eq!(entries[1].1, balance - entries[0].1);
        assert_eq!(entries[0].1.checked_add(entries[1].1), Some(balance));
    }
}

#[test]
fn split_with_room_for_one_is_the_owner_alone() {
    let alice = named("alice.near");
    assert_eq!(split_payout(&alice, 1000, 1), Ok(split(vec![(alice.clone(), 900)])));
    assert_eq!(split_payout(&alice, 7, 1), Ok(split(vec![(alice.clone(), 6)])));
}

#[test]
fn split_with_room_for_none_is_refused() {
    let alice = named("alice.near");
    assert_eq!(split_payout(&alice, 1000, 0), Err(NftError::PayoutTooLarge));
    assert_eq!(split_payout(&alice, 0, 0), Err(NftError::PayoutTooLarge));
}

#[test]
fn split_for_the_beneficiary_as_owner_names_it_twice() {
    let burn = beneficiary();
    assert_eq!(
        split_payout(&burn, 1000, 2),
        Ok(split(vec![(burn.clone(), 900), (burn.clone(), 100)]))
    );
}

#[test]
fn payout_of_minted_token() {
    let alice = named("alice.near");
    let mut contract = NftContract::new(alice.clone());
    assert_eq!(contract.nft_mint(&alice), Ok("0".to_string()));
    assert_eq!(contract.nft_mint(&alice), Ok("1".to_string()));
    assert_eq!(
        contract.nft_payout("0".to_string(), 1000, 2),
        Ok(split(vec![(alice.clone(), 900), (beneficiary(), 100)]))
    );
    assert_eq!(
        contract.nft_payout("0".to_string(), 1000, 1),
        Ok(split(vec![(alice.clone(), 900)]))
    );
}

#[test]
fn payout_goes_to_the_current_owner() {
    let alice = named("alice.near");
    let carol = named("carol.near");
    let mut contract = one_token(&alice);
    contract.nft_transfer(&alice, carol.clone(), "0".to_string()).unwrap();
    assert_eq!(
        contract.nft_payout("0".to_string(), 250, 2),
        Ok(split(vec![(carol.clone(), 225), (beneficiary(), 25)]))
    );
}

#[test]
fn payout_of_unknown_token_is_not_found() {
    let alice = named("alice.near");
    let contract = one_token(&alice);
    assert_eq!(contract.nft_payout("1".to_string(), 1000, 2), Err(NftError::NotFound));
    assert_eq!(contract.nft_payout("zero".to_string(), 1000, 2), Err(NftError::NotFound));
    assert_eq!(contract.nft_payout("1".to_string(), 1000, 0), Err(NftError::NotFound));
}

#[test]
fn payout_with_room_for_none_is_too_large() {
    let alice = named("alice.near");
    let contract = one_token(&alice);
    assert_eq!(contract.nft_payout("0".to_string(), 1000, 0), Err(NftError::PayoutTooLarge));
}

#[test]
fn payout_answers_the_same_every_time() {
    let alice = named("alice.near");
    let contract = one_token(&alice);
    let first = contract.nft_payout("0".to_string(), 777, 2);
    for _ in 0..5 {
        assert_eq!(contract.nft_payout("0".to_string(), 777, 2), first);
        assert_eq!(contract, one_token(&alice));
    }
    assert_eq!(first, Ok(split(vec![(alice.clone(), 699), (beneficiary(), 78)])));
}

#[test]
fn transfer_payout_without_the_guard_is_refused() {
    let alice = named("alice.near");
    let carol = named("carol.near");
    let mut contract = one_token(&alice);
    for deposit in [0u128, 2, 1_000_000, u128::MAX] {
        assert_eq!(
            contract.nft_transfer_payout(
                &alice,
                deposit,
                carol.clone(),
                "0".to_string(),
                None,
                1000,
                2
            ),
            Err(NftError::GuardViolation)
        );
        assert_eq!(contract.owner_of("0"), Ok(&alice));
    }
    assert_eq!(contract, one_token(&alice));
}

#[test]
fn transfer_payout_pays_the_previous_owner() {
    let alice = named("alice.near");
    let carol = named("carol.near");
    let mut contract = one_token(&alice);
    assert_eq!(
        contract.nft_transfer_payout(&alice, 1, carol.clone(), "0".to_string(), None, 1000, 2),
        Ok(split(vec![(alice.clone(), 900), (beneficiary(), 100)]))
    );
    assert_eq!(contract.owner_of("0"), Ok(&carol));
    assert_eq!(
        contract.nft_transfer_payout(&carol, 1, alice.clone(), "0".to_string(), Some(4), 10, 1),
        Ok(split(vec![(carol.clone(), 9)]))
    );
    assert_eq!(contract.owner_of("0"), Ok(&alice));
}

#[test]
fn transfer_payout_by_stranger_is_refused() {
    let alice = named("alice.near");
    let bob = named("bob.near");
    let mut contract = one_token(&alice);
    assert_eq!(
        contract.nft_transfer_payout(&bob, 1, bob.clone(), "0".to_string(), None, 1000, 2),
        Err(NftError::Authorization)
    );
    assert_eq!(contract.owner_of("0"), Ok(&alice));
    assert_eq!(contract, one_token(&alice));
}

#[test]
fn transfer_payout_refusals_in_order() {
    let alice = named("alice.near");
    let bob = named("bob.near");
    let mut contract = one_token(&alice);
    // The guard is looked at before the token.
    assert_eq!(
        contract.nft_transfer_payout(&bob, 0, bob.clone(), "9".to_string(), None, 1000, 0),
        Err(NftError::GuardViolation)
    );
    // The token is looked at before the room for recipients.
    assert_eq!(
        contract.nft_transfer_payout(&bob, 1, bob.clone(), "9".to_string(), None, 1000, 0),
        Err(NftError::NotFound)
    );
    // The room for recipients is looked at before the caller.
    assert_eq!(
        contract.nft_transfer_payout(&bob, 1, bob.clone(), "0".to_string(), None, 1000, 0),
        Err(NftError::PayoutTooLarge)
    );
    assert_eq!(
        contract.nft_transfer_payout(&alice, 1, bob.clone(), "0".to_string(), None, 1000, 0),
        Err(NftError::PayoutTooLarge)
    );
    assert_eq!(contract, one_token(&alice));
}
