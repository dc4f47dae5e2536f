use nft_contract::account::Account;
use nft_contract::contract::NftContract;
use nft_contract::metadata::{contract_metadata, token_metadata, ContractMetadata, TokenMetadata};
use nft_contract::token_id::{parse_token_id, token_id_of};

#[test]
fn token_ids_are_decimal_numerals() {
    assert_eq!(token_id_of(0), "0");
    assert_eq!(token_id_of(1), "1");
    assert_eq!(token_id_of(9), "9");
    assert_eq!(token_id_of(10), "10");
    assert_eq!(token_id_of(99), "99");
    assert_eq!(token_id_of(100), "100");
    assert_eq!(token_id_of(1234567890), "1234567890");
    assert_eq!(token_id_of(u32::MAX), "4294967295");
}

#[test]
fn token_ids_read_back() {
    assert_eq!(parse_token_id("0"), Some(0));
    assert_eq!(parse_token_id("7"), Some(7));
    assert_eq!(parse_token_id("10"), Some(10));
    assert_eq!(parse_token_id("4294967295"), Some(u32::MAX));
    for n in [0u32, 1, 9, 10, 11, 99, 100, 101, 65535, 65536, 999999999, 1000000000, u32::MAX] {
        assert_eq!(parse_token_id(&token_id_of(n)), Some(n));
        assert_eq!(token_id_of(n), n.to_string());
    }
}

#[test]
fn text_that_is_no_numeral_names_no_token() {
    for text in [
        "", " ", "00", "01", "007", "+1", "-1", "1 ", " 1", "1.0", "1e3", "0x10", "a", "1a",
        "٣", "１", "1\n", "1_000",
    ] {
        assert_eq!(parse_token_id(text), None);
    }
}

#[test]
fn numerals_beyond_the_counter_name_no_token() {
    assert_eq!(parse_token_id("4294967296"), None);
    assert_eq!(parse_token_id("4294967300"), None);
    assert_eq!(parse_token_id("9999999999"), None);
    assert_eq!(parse_token_id("42949672950"), None);
    assert_eq!(parse_token_id("18446744073709551616"), None);
    assert_eq!(parse_token_id("340282366920938463463374607431768211456"), None);
}

#[test]
fn well_formed_account_ids_are_accepted() {
    for text in [
        "aa", "a-a", "a-aa", "100", "0o", "com", "near", "bowen", "b-o_w_e-n", "b.owen",
        "bro.wen", "a.ha", "a.b-a.ra", "system", "over.9000", "google.com",
        "illia.cheapaccounts.near", "0o0ooo00oo00o", "alex-skidanov", "10-4.8-2", "no_lols",
        "0123456789012345678901234567890123456789012345678901234567890123", "near.a", "a.a",
        "burn.near",
    ] {
        let account = Account::new(text).unwrap();
        assert_eq!(account.as_str(), text);
    }
}

#[test]
fn malformed_account_ids_are_rejected() {
    for text in [
        "", "a", "A", "Abc", "-near", "near-", "-near-", "near.", ".near", "near@", "@near",
        "неар", "@@@@@", "0__0", "0_-_0", "..", "a..near", "nEar", "_bowen", "hello world",
        "abcdefghijklmnopqrstuvwxyz.abcdefghijklmnopqrstuvwxyz.abcdefghijklmnopqrstuvwxyz",
        "01234567890123456789012345678901234567890123456789012345678901234",
        "some-complex-address@gmail.com", "sub.buy_d1gitz@atata@b0-rg.c_0_m",
    ] {
        assert_eq!(Account::new(text), None);
    }
}

#[test]
fn accounts_compare_by_their_text() {
    let alice = Account::new("alice.near").unwrap();
    let again = Account::new("alice.near").unwrap();
    let bob = Account::new("bob.near").unwrap();
    assert!(alice.same_as(&again));
    assert!(!alice.same_as(&bob));
    assert!(alice.clone().same_as(&alice));
    assert_eq!(alice, again);
    assert_ne!(alice, bob);
}

#[test]
fn collection_descriptor() {
    let expected = ContractMetadata {
        spec_version: "nft-1.0.0".to_string(),
        name: "NFT contract".to_string(),
        symbol: "NFT".to_string(),
    };
    assert_eq!(contract_metadata(), expected);
    let contract = NftContract::new(Account::new("alice.near").unwrap());
    assert_eq!(contract.nft_metadata(), expected);
}

#[test]
fn token_descriptor_spells_out_the_identifier() {
    assert_eq!(
        token_metadata(&"0".to_string()),
        TokenMetadata {
            title: "NFT 0".to_string(),
            description: "This is NFT 0".to_string(),
            copies: 1,
        }
    );
    assert_eq!(token_metadata(&token_id_of(41)).title, "NFT 41");
    assert_eq!(token_metadata(&token_id_of(41)).description, "This is NFT 41");
}
