use dare::blockchain::Blockchain;
use dare::block::Block;
use dare::merkle::compute_merkle_root;
use dare::storage::{StoredBlock, StoredTransaction};
use dare::transaction::Transaction;
use dare::wallet::Wallet;

fn stored_tx(from: &str, to: &str, amount: u64, currency: &str) -> StoredTransaction {
    StoredTransaction {
        sender: from.to_string(),
        receiver: to.to_string(),
        amount,
        currency: currency.to_string(),
        tx_id: String::from("ignored"),
    }
}

fn is_lower_hex_digest(s: &str) -> bool {
    s.len() == 64 && s.chars().all(|c| c.is_ascii_digit() || ('a'..='f').contains(&c))
}

#[test]
fn stored_blocks_keep_fields_without_signatures() {
    let alice = Wallet::new();
    let mut bc = Blockchain::new();
    bc.register_key(String::from("alice"), alice.public_key());
    bc.fund_address(String::from("alice"), String::from("USDC"), 100);
    let mut tx = Transaction::new(String::from("alice"), String::from("bob"), 40, String::from("USDC"));
    tx.sign(&alice);
    let id = tx.tx_id().to_string();
    bc.add_block(vec![tx]).unwrap();
    let stored = bc.stored_blocks();
    assert_eq!(stored.len(), 2);
    assert_eq!(stored[0].index, 0);
    assert_eq!(stored[0].previous_hash, "0");
    assert_eq!(stored[0].hash, bc.chain()[0].hash());
    assert_eq!(stored[1].index, 1);
    assert_eq!(stored[1].timestamp, bc.chain()[1].timestamp());
    assert_eq!(stored[1].previous_hash, bc.chain()[0].hash());
    assert_eq!(stored[1].transactions.len(), 1);
    let t = &stored[1].transactions[0];
    assert_eq!((t.sender.as_str(), t.receiver.as_str(), t.amount, t.currency.as_str()), ("alice", "bob", 40, "USDC"));
    assert_eq!(t.tx_id, id);
}

#[test]
fn reading_back_rebuilds_unsigned_transactions_and_replays() {
    let blocks = vec![
        StoredBlock {
            index: 0,
            timestamp: 10,
            previous_hash: String::from("0"),
            hash: String::from("h0"),
            transactions: vec![stored_tx("alice", "bob", 0, "USDC")],
        },
        StoredBlock {
            index: (1u64 << 32) + 1,
            timestamp: 11,
            previous_hash: String::from("h0"),
            hash: String::from("h1"),
            transactions: vec![],
        },
    ];
    let bc = Blockchain::from_stored(blocks).unwrap();
    assert_eq!(bc.chain().len(), 2);
    let tx = &bc.chain()[0].transactions()[0];
    assert_eq!(tx.tx_id(), Transaction::new(String::from("alice"), String::from("bob"), 0, String::from("USDC")).tx_id());
    assert!(tx.signature().is_none());
    assert_eq!(bc.chain()[1].index(), 1);
    assert_eq!(bc.chain()[1].hash(), "h1");
    assert_eq!(bc.get_balance("alice", "USDC"), 0);
    assert_eq!(bc.get_balance("bob", "USDC"), 0);
}

#[test]
fn reading_back_fails_when_replay_underflows() {
    let blocks = vec![StoredBlock {
        index: 0,
        timestamp: 1,
        previous_hash: String::from("0"),
        hash: String::from("h"),
        transactions: vec![stored_tx("alice", "bob", 5, "USDC")],
    }];
    assert!(Blockchain::from_stored(blocks).is_none());
    assert_eq!(Blockchain::from_stored(vec![]).unwrap().chain().len(), 0);
}

#[test]
fn saved_chain_reads_back_with_same_blocks() {
    let mut bc = Blockchain::new();
    bc.add_block(vec![]).unwrap();
    let restored = Blockchain::from_stored(bc.stored_blocks()).unwrap();
    assert_eq!(restored.chain().len(), 2);
    for (a, b) in bc.chain().iter().zip(restored.chain()) {
        assert_eq!(a.hash(), b.hash());
        assert_eq!(a.previous_hash(), b.previous_hash());
        assert_eq!(a.timestamp(), b.timestamp());
        assert_eq!(a.index(), b.index());
    }
    assert!(restored.is_valid());
}

#[test]
fn digests_are_64_lower_case_hex_digits() {
    let tx = Transaction::new(String::from("a"), String::from("b"), 1, String::from("c"));
    assert!(is_lower_hex_digest(tx.tx_id()));
    let root = compute_merkle_root(vec![String::from("x"), String::from("y")]);
    assert!(is_lower_hex_digest(&root));
    let block = Block::new(2, vec![tx], String::from("p"));
    assert!(is_lower_hex_digest(block.hash()));
    assert!(block.verify_hash());
}

#[test]
fn signing_keeps_the_id() {
    let w = Wallet::new();
    let t1 = Transaction::new(String::from("s"), String::from("r"), 9, String::from("c"));
    let mut t2 = Transaction::new(String::from("s"), String::from("r"), 9, String::from("c"));
    t2.sign(&w);
    assert_eq!(t1.tx_id(), t2.tx_id());
}

#[test]
fn reloading_a_block_keeps_its_hash_check() {
    let tx = Transaction::new(String::from("s"), String::from("r"), 9, String::from("c"));
    let b = Block::with_timestamp(5, 6, vec![tx], String::from("prev"));
    let c = Block::load(
        b.index(),
        b.timestamp(),
        b.transactions().to_vec(),
        b.previous_hash().to_string(),
        b.hash().to_string(),
    );
    assert_eq!(c.verify_hash(), b.verify_hash());
    assert_eq!(c.hash(), b.hash());
}

#[test]
fn signed_chain_reads_back_unsigned_and_valid() {
    let alice = Wallet::new();
    let mut bc = Blockchain::new();
    bc.register_key(String::from("alice"), alice.public_key());
    let mut tx = Transaction::new(String::from("alice"), String::from("bob"), 0, String::from("USDC"));
    tx.sign(&alice);
    assert_eq!(tx.signature().unwrap().len(), 64);
    let id = tx.tx_id().to_string();
    bc.add_block(vec![tx]).unwrap();
    let restored = Blockchain::from_stored(bc.stored_blocks()).unwrap();
    assert_eq!(restored.chain().len(), 2);
    let back = &restored.chain()[1].transactions()[0];
    assert_eq!(back.tx_id(), id);
    assert!(back.signature().is_none());
    assert_eq!(restored.chain()[1].hash(), bc.chain()[1].hash());
    assert!(restored.is_valid());
    assert_eq!(restored.get_balance("bob", "USDC"), 0);
}
