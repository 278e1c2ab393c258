use dare::blockchain::Blockchain;
use dare::block::Block;
use dare::message::Message;
use dare::network::{handle_message, Received};
use dare::transaction::Transaction;
use dare::wallet::Wallet;

fn signed(wallet: &Wallet, from: &str, to: &str, amount: u64, currency: &str) -> Transaction {
    let mut tx = Transaction::new(from.to_string(), to.to_string(), amount, currency.to_string());
    tx.sign(wallet);
    tx
}

fn funded_chain() -> (Blockchain, Wallet, Wallet) {
    let alice = Wallet::new();
    let bob = Wallet::new();
    let mut bc = Blockchain::new();
    bc.register_key(String::from("alice"), alice.public_key());
    bc.register_key(String::from("bob"), bob.public_key());
    bc.fund_address(String::from("alice"), String::from("USDC"), 1_000);
    (bc, alice, bob)
}

#[test]
fn new_chain_has_only_genesis() {
    let bc = Blockchain::new();
    assert_eq!(bc.chain().len(), 1);
    let genesis = &bc.chain()[0];
    assert_eq!(genesis.index(), 0);
    assert_eq!(genesis.previous_hash(), "0");
    assert!(genesis.transactions().is_empty());
    assert!(genesis.verify_hash());
    assert_eq!(genesis.hash().len(), 64);
    assert!(bc.is_valid());
    assert_eq!(bc.get_balance("alice", "USDC"), 0);
}

#[test]
fn funding_adds_to_one_balance() {
    let mut bc = Blockchain::new();
    bc.fund_address(String::from("alice"), String::from("USDC"), 10);
    bc.fund_address(String::from("alice"), String::from("USDC"), 5);
    bc.fund_address(String::from("alice"), String::from("EUR"), 3);
    assert_eq!(bc.get_balance("alice", "USDC"), 15);
    assert_eq!(bc.get_balance("alice", "EUR"), 3);
    assert_eq!(bc.get_balance("bob", "USDC"), 0);
}

#[test]
fn accepted_block_moves_funds_and_links() {
    let (mut bc, alice, _bob) = funded_chain();
    let genesis_hash = bc.chain()[0].hash().to_string();
    let tx = signed(&alice, "alice", "bob", 250, "USDC");
    let id = tx.tx_id().to_string();
    assert_eq!(bc.add_block(vec![tx]), Ok(()));
    assert_eq!(bc.get_balance("alice", "USDC"), 750);
    assert_eq!(bc.get_balance("bob", "USDC"), 250);
    assert_eq!(bc.chain().len(), 2);
    let block = &bc.chain()[1];
    assert_eq!(block.index(), 1);
    assert_eq!(block.previous_hash(), genesis_hash);
    assert_eq!(block.transactions()[0].tx_id(), id);
    assert!(block.verify_hash());
    assert!(bc.is_valid());
}

#[test]
fn transfers_apply_in_order() {
    let (mut bc, alice, bob) = funded_chain();
    let first = signed(&alice, "alice", "bob", 600, "USDC");
    let second = signed(&bob, "bob", "carol", 100, "USDC");
    // bob's transfer is checked against his balance before the block (0)
    assert_eq!(
        bc.add_block(vec![first.clone(), second]),
        Err(String::from("bob has insufficient funds"))
    );
    let self_transfer = signed(&alice, "alice", "alice", 400, "USDC");
    assert_eq!(bc.add_block(vec![first, self_transfer]), Ok(()));
    assert_eq!(bc.get_balance("alice", "USDC"), 400);
    assert_eq!(bc.get_balance("bob", "USDC"), 600);
}

#[test]
fn unregistered_sender_is_rejected() {
    let (mut bc, _alice, _bob) = funded_chain();
    let carol = Wallet::new();
    let tx = signed(&carol, "carol", "bob", 0, "USDC");
    assert_eq!(bc.add_block(vec![tx]), Err(String::from("carol has no registered key")));
    assert_eq!(bc.chain().len(), 1);
}

#[test]
fn wrong_or_missing_signature_is_rejected() {
    let (mut bc, _alice, bob) = funded_chain();
    let forged = signed(&bob, "alice", "bob", 10, "USDC");
    assert_eq!(bc.add_block(vec![forged]), Err(String::from("invalid signature from alice")));
    let unsigned = Transaction::new(String::from("alice"), String::from("bob"), 10, String::from("USDC"));
    assert_eq!(bc.add_block(vec![unsigned]), Err(String::from("invalid signature from alice")));
    assert_eq!(bc.get_balance("alice", "USDC"), 1_000);
    assert_eq!(bc.chain().len(), 1);
}

#[test]
fn signatures_are_checked_before_funds() {
    let (mut bc, alice, bob) = funded_chain();
    let too_much = signed(&alice, "alice", "bob", 5_000, "USDC");
    let forged = signed(&alice, "bob", "alice", 1, "USDC");
    let _ = bob;
    assert_eq!(
        bc.add_block(vec![too_much, forged]),
        Err(String::from("invalid signature from bob"))
    );
}

#[test]
fn rejected_block_changes_nothing() {
    let (mut bc, alice, _bob) = funded_chain();
    let tx = signed(&alice, "alice", "bob", 1_001, "USDC");
    assert_eq!(bc.add_block(vec![tx]), Err(String::from("alice has insufficient funds")));
    assert_eq!(bc.get_balance("alice", "USDC"), 1_000);
    assert_eq!(bc.get_balance("bob", "USDC"), 0);
    assert_eq!(bc.chain().len(), 1);
    assert!(bc.is_valid());
}

#[test]
fn overspending_block_is_refused_by_checked_add() {
    let (mut bc, alice, _bob) = funded_chain();
    let a = signed(&alice, "alice", "bob", 800, "USDC");
    let b = signed(&alice, "alice", "bob", 800, "USDC");
    assert!(!bc.can_add_block(&[a.clone(), b.clone()]));
    assert_eq!(bc.add_block_checked(vec![a.clone(), b]), None);
    assert_eq!(bc.get_balance("alice", "USDC"), 1_000);
    assert!(bc.can_add_block(&[a.clone()]));
    assert_eq!(bc.add_block_checked(vec![a]), Some(Ok(())));
    assert_eq!(bc.get_balance("bob", "USDC"), 800);
}

#[test]
fn checked_add_needs_a_block_to_link_to() {
    let mut bc = Blockchain::load_new();
    assert!(!bc.can_add_block(&[]));
    assert_eq!(bc.add_block_checked(vec![]), None);
    assert_eq!(bc.chain().len(), 0);
}

#[test]
fn tampering_breaks_validity() {
    let (mut bc, alice, _bob) = funded_chain();
    bc.add_block(vec![signed(&alice, "alice", "bob", 1, "USDC")]).unwrap();
    bc.add_block(vec![signed(&alice, "alice", "bob", 2, "USDC")]).unwrap();
    assert!(bc.is_valid());
    bc.tamper_block(2);
    assert_eq!(bc.chain()[2].hash(), "corrupted");
    assert!(!bc.is_valid());
}

#[test]
fn tampering_genesis_breaks_the_link() {
    let (mut bc, alice, _bob) = funded_chain();
    bc.add_block(vec![signed(&alice, "alice", "bob", 1, "USDC")]).unwrap();
    bc.tamper_block(0);
    assert!(!bc.is_valid());
}

#[test]
fn loading_replays_balances_from_scratch() {
    let mut bc = Blockchain::load_new();
    assert!(bc.is_valid());
    let gift = Transaction::new(String::from("alice"), String::from("bob"), 0, String::from("USDC"));
    assert!(bc.can_load_block(&[gift.clone()]));
    bc.load_block(0, 1, vec![gift], String::from("0"), String::from("h0"));
    assert_eq!(bc.chain().len(), 1);
    assert_eq!(bc.chain()[0].hash(), "h0");
    assert_eq!(bc.get_balance("bob", "USDC"), 0);
    let spend = Transaction::new(String::from("bob"), String::from("carol"), 5, String::from("USDC"));
    assert!(!bc.can_load_block(&[spend]));
}

#[test]
fn loading_forgets_funding() {
    let mut bc = Blockchain::load_new();
    bc.fund_address(String::from("alice"), String::from("USDC"), 50);
    bc.load_block(0, 1, vec![], String::from("0"), String::from("h"));
    assert_eq!(bc.get_balance("alice", "USDC"), 0);
}

#[test]
fn signed_transaction_verifies_only_under_its_key() {
    let alice = Wallet::new();
    let bob = Wallet::new();
    assert_eq!(alice.public_key().len(), 32);
    assert_ne!(alice.public_key(), bob.public_key());
    let mut tx = Transaction::new(String::from("alice"), String::from("bob"), 3, String::from("USDC"));
    assert!(!tx.verify(&alice.public_key()));
    tx.sign(&alice);
    assert_eq!(tx.signature().unwrap().len(), 64);
    assert!(tx.verify(&alice.public_key()));
    assert!(!tx.verify(&bob.public_key()));
    assert!(!tx.verify(&alice.public_key()[..31]));
    let message = b"alicebob3USDC";
    assert_eq!(tx.signature().unwrap(), alice.sign(message).as_slice());
}

#[test]
fn loaded_transaction_keeps_its_fields() {
    let alice = Wallet::new();
    let mut source = Transaction::new(String::from("a"), String::from("b"), 1, String::from("c"));
    source.sign(&alice);
    let copy = Transaction::load(
        source.sender().to_string(),
        source.receiver().to_string(),
        source.amount(),
        source.currency().to_string(),
        source.tx_id().to_string(),
        source.signature().map(|s| s.to_vec()),
    );
    assert_eq!(copy.tx_id(), source.tx_id());
    assert!(copy.verify(&alice.public_key()));
}

#[test]
fn messages_are_handled() {
    let mut bc = Blockchain::load_new();
    let tx = Transaction::new(String::from("a"), String::from("b"), 0, String::from("c"));
    let id = tx.tx_id().to_string();
    assert_eq!(handle_message(&mut bc, Message::NewTransaction(tx.clone())), Received::Transaction(id));
    assert_eq!(handle_message(&mut bc, Message::RequestChain), Received::ChainRequest);
    assert_eq!(handle_message(&mut bc, Message::ResponseChain(vec![])), Received::Chain);
    assert_eq!(
        handle_message(&mut bc, Message::Hello { from: String::from("n1") }),
        Received::Hello(String::from("n1"))
    );
    assert_eq!(bc.chain().len(), 0);
    let block = Block::load(0, 1, vec![tx], String::from("0"), String::from("h"));
    assert_eq!(handle_message(&mut bc, Message::NewBlock(block)), Received::Block(0));
    assert_eq!(bc.chain().len(), 1);
}

#[test]
fn accepted_blocks_keep_each_currency_total() {
    let (mut bc, alice, bob) = funded_chain();
    bc.fund_address(String::from("bob"), String::from("EUR"), 40);
    let a = signed(&alice, "alice", "bob", 300, "USDC");
    let b = signed(&bob, "bob", "carol", 15, "EUR");
    bc.add_block(vec![a, b]).unwrap();
    let usdc: u64 = ["alice", "bob", "carol"].iter().map(|who| bc.get_balance(who, "USDC")).sum();
    let eur: u64 = ["alice", "bob", "carol"].iter().map(|who| bc.get_balance(who, "EUR")).sum();
    assert_eq!(usdc, 1_000);
    assert_eq!(eur, 40);
    assert_eq!(bc.get_balance("carol", "EUR"), 15);
}
