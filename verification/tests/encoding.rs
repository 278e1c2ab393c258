use dare::merkle::compute_merkle_root;
use dare::text::{hex_encode, push_decimal};
use dare::crypto::sha256_hex;
use dare::transaction::Transaction;
use dare::block::Block;
use sha2::{Digest, Sha256};

fn reference_digest(text: &str) -> String {
    let mut hasher = Sha256::new();
    hasher.update(text.as_bytes());
    hex::encode(hasher.finalize())
}

#[test]
fn hex_encode_is_lower_case_two_digits_per_byte() {
    assert_eq!(hex_encode(&[]), "");
    assert_eq!(hex_encode(&[0x00, 0x0f, 0xab, 0xff]), "000fabff");
    assert_eq!(hex_encode(&[1, 2, 3]), hex::encode([1u8, 2, 3]));
}

#[test]
fn decimal_numerals() {
    let mut s = String::from("x");
    push_decimal(&mut s, 0);
    assert_eq!(s, "x0");
    let mut s = String::new();
    push_decimal(&mut s, 1_234_567_890);
    assert_eq!(s, "1234567890");
    let mut s = String::new();
    push_decimal(&mut s, u64::MAX);
    assert_eq!(s, u64::MAX.to_string());
}

#[test]
fn sha256_hex_matches_sha2() {
    assert_eq!(
        sha256_hex("abc"),
        "ba7816bf8f01cfea414140de5dae2223b00361a396177a9cb410ff61f20015ad"
    );
    assert_eq!(sha256_hex("héllo"), reference_digest("héllo"));
    assert_eq!(sha256_hex("").len(), 64);
}

#[test]
fn transaction_id_is_digest_of_fields() {
    let tx = Transaction::new(
        String::from("alice"),
        String::from("bob"),
        250_000,
        String::from("USDC"),
    );
    assert_eq!(tx.tx_id(), reference_digest("alicebob250000USDC"));
    assert_eq!(tx.sender(), "alice");
    assert_eq!(tx.receiver(), "bob");
    assert_eq!(tx.amount(), 250_000);
    assert_eq!(tx.currency(), "USDC");
    assert!(tx.signature().is_none());
}

#[test]
fn merkle_root_of_empty_list_is_zero() {
    assert_eq!(compute_merkle_root(vec![]), "0");
}

#[test]
fn merkle_root_of_one_digest_is_that_digest() {
    assert_eq!(compute_merkle_root(vec![String::from("abc")]), "abc");
}

#[test]
fn merkle_root_pairs_and_pads() {
    let a = String::from("a");
    let b = String::from("b");
    let c = String::from("c");
    let ab = reference_digest("ab");
    assert_eq!(compute_merkle_root(vec![a.clone(), b.clone()]), ab);
    let cc = reference_digest("cc");
    let root3 = reference_digest(&format!("{}{}", ab, cc));
    assert_eq!(compute_merkle_root(vec![a.clone(), b.clone(), c.clone()]), root3);
    // repeating the last digest of an odd list keeps the root
    assert_eq!(compute_merkle_root(vec![a, b, c.clone(), c]), root3);
}

#[test]
fn merkle_root_of_five() {
    let items: Vec<String> = ["1", "2", "3", "4", "5"].iter().map(|s| s.to_string()).collect();
    let h12 = reference_digest("12");
    let h34 = reference_digest("34");
    let h55 = reference_digest("55");
    let h1234 = reference_digest(&format!("{}{}", h12, h34));
    let h5555 = reference_digest(&format!("{}{}", h55, h55));
    let root = reference_digest(&format!("{}{}", h1234, h5555));
    assert_eq!(compute_merkle_root(items), root);
}

#[test]
fn block_hash_covers_index_time_root_and_previous_hash() {
    let tx = Transaction::new(String::from("alice"), String::from("bob"), 7, String::from("EUR"));
    let id = tx.tx_id().to_string();
    let block = Block::with_timestamp(3, 1_700_000_000, vec![tx], String::from("prev"));
    let expected = reference_digest(&format!("{}{}{}{}", 3, 1_700_000_000u64, id, "prev"));
    assert_eq!(block.hash(), expected);
    assert_eq!(block.index(), 3);
    assert_eq!(block.timestamp(), 1_700_000_000);
    assert_eq!(block.previous_hash(), "prev");
    assert_eq!(block.transactions().len(), 1);
    assert!(block.verify_hash());
}

#[test]
fn empty_block_hash_uses_zero_root() {
    let block = Block::with_timestamp(0, 5, vec![], String::from("0"));
    assert_eq!(block.hash(), reference_digest("0500"));
}

#[test]
fn corrupted_block_fails_hash_check() {
    let mut block = Block::with_timestamp(1, 2, vec![], String::from("x"));
    assert!(block.verify_hash());
    block.corrupt_hash();
    assert_eq!(block.hash(), "corrupted");
    assert!(!block.verify_hash());
}

#[test]
fn loaded_block_keeps_given_hash() {
    let block = Block::load(4, 9, vec![], String::from("p"), String::from("h"));
    assert_eq!(block.hash(), "h");
    assert!(!block.verify_hash());
    let previous = Block::load(3, 8, vec![], String::from("q"), String::from("p"));
    assert!(block.verify_previous_hash(&previous));
    assert!(!previous.verify_previous_hash(&block));
}
