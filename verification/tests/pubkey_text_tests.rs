use std::str::FromStr;

use agent_feed_indexer::constants::{DEFAULT_PROGRAM_ID_STR, DEFAULT_RPC_URL};
use agent_feed_indexer::pubkey::{Pubkey, PubkeyParseError};
use agent_feed_indexer::subscription::websocket_url;
use agent_feed_indexer::text::{contains, replace_all};

#[test]
fn parses_program_id() {
    let key = Pubkey::from_base58(DEFAULT_PROGRAM_ID_STR).unwrap();
    let expected = anchor_lang::solana_program::pubkey::Pubkey::from_str(DEFAULT_PROGRAM_ID_STR).unwrap();
    assert_eq!(key.to_bytes(), expected.to_bytes());
    assert_ne!(key.to_bytes(), [0u8; 32]);
}

#[test]
fn parses_all_ones_key() {
    let key = Pubkey::from_base58("11111111111111111111111111111111").unwrap();
    assert_eq!(key.to_bytes(), [0u8; 32]);
}

#[test]
fn rejects_bad_keys() {
    assert_eq!(Pubkey::from_base58("0OIl").unwrap_err(), PubkeyParseError::Invalid);
    assert_eq!(Pubkey::from_base58("abc").unwrap_err(), PubkeyParseError::WrongSize);
    let long = "1".repeat(45);
    assert_eq!(Pubkey::from_base58(&long).unwrap_err(), PubkeyParseError::WrongSize);
}

#[test]
fn same_as_compares_bytes() {
    let a = Pubkey::new_from_array([1; 32]);
    let mut bytes = [1u8; 32];
    assert!(a.same_as(&Pubkey(bytes)));
    bytes[31] = 2;
    assert!(!a.same_as(&Pubkey(bytes)));
}

#[test]
fn websocket_url_of_default_rpc() {
    assert_eq!(websocket_url(DEFAULT_RPC_URL), "wss://rpc.testnet.x1.xyz");
    assert_eq!(websocket_url("http://localhost:8899"), "http://localhost:8899");
    assert_eq!(websocket_url("https://https.example"), "wss://wss.example");
}

#[test]
fn contains_finds_substrings() {
    assert!(contains("RPC response error: not found", "not found"));
    assert!(contains("abc", ""));
    assert!(!contains("", "a"));
    assert!(!contains("not foun", "not found"));
    assert!(contains("ünï", "nï"));
}

#[test]
fn replace_all_is_leftmost_non_overlapping() {
    assert_eq!(replace_all("aaaa", "aa", "b"), "bb");
    assert_eq!(replace_all("aaa", "aa", "b"), "ba");
    assert_eq!(replace_all("xyz", "q", "r"), "xyz");
    assert_eq!(replace_all("ab", "ab", ""), "");
}
