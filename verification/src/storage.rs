//! The plain form in which a chain is saved and read back: blocks with their
//! stored fields and transactions without signatures.

use vstd::prelude::*;
use crate::block::{transaction_views, BlockView};
use crate::blockchain::{
    block_views, chain_transactions, lemma_apply_transfers_append, lemma_chain_transactions_append,
    lemma_chain_transactions_push, replayed_balances, Balances, Blockchain,
};
use crate::transaction::{transaction_id, Transaction, TransactionView};
use crate::block::{hash_matches, transaction_ids};
use crate::blockchain::{apply_transfers, chain_valid};

verus! {

/// A transaction as saved: its fields and id, without its signature.
#[derive(Clone, Debug)]
pub struct StoredTransaction {
    pub sender: String,
    pub receiver: String,
    pub amount: u64,
    pub currency: String,
    pub tx_id: String,
}

/// A block as saved.
#[derive(Clone, Debug)]
pub struct StoredBlock {
    pub index: u64,
    pub timestamp: u64,
    pub previous_hash: String,
    pub hash: String,
    pub transactions: Vec<StoredTransaction>,
}

/// The transaction that a saved one is read back as: a new, unsigned
/// transaction with the saved sender, receiver, amount and currency, whose id
/// is computed afresh.
pub open spec fn rebuilt_transaction(stored: StoredTransaction) -> TransactionView {
    TransactionView {
        sender: stored.sender@,
        receiver: stored.receiver@,
        amount: stored.amount,
        currency: stored.currency@,
        tx_id: transaction_id(stored.sender@, stored.receiver@, stored.amount, stored.currency@),
        signature: None,
    }
}

/// The transactions that a list of saved ones is read back as.
pub open spec fn rebuilt_transactions(stored: Seq<StoredTransaction>) -> Seq<TransactionView> {
    stored.map_values(|t: StoredTransaction| rebuilt_transaction(t))
}

/// The block that a saved one is read back as: its index cut to `u32`, the
/// other fields as saved, and its transactions rebuilt.
pub open spec fn rebuilt_block(stored: StoredBlock) -> BlockView {
    BlockView {
        index: stored.index as u32,
        timestamp: stored.timestamp,
        transactions: rebuilt_transactions(stored.transactions@),
        previous_hash: stored.previous_hash@,
        hash: stored.hash@,
    }
}

/// The blocks that a list of saved ones is read back as.
pub open spec fn rebuilt_blocks(stored: Seq<StoredBlock>) -> Seq<BlockView> {
    stored.map_values(|b: StoredBlock| rebuilt_block(b))
}

/// Whether `stored` saves the fields of `tx` (all but its signature).
pub open spec fn stores_transaction(stored: StoredTransaction, tx: TransactionView) -> bool {
    &&& stored.sender@ == tx.sender
    &&& stored.receiver@ == tx.receiver
    &&& stored.amount == tx.amount
    &&& stored.currency@ == tx.currency
    &&& stored.tx_id@ == tx.tx_id
}

/// Whether `stored` saves the fields of `block` and of each of its
/// transactions.
pub open spec fn stores_block(stored: StoredBlock, block: BlockView) -> bool {
    &&& stored.index == block.index as u64
    &&& stored.timestamp == block.timestamp
    &&& stored.previous_hash@ == block.previous_hash
    &&& stored.hash@ == block.hash
    &&& stored.transactions@.len() == block.transactions.len()
    &&& forall|j: int|
        0 <= j < block.transactions.len() ==> stores_transaction(
            #[trigger] stored.transactions@[j],
            block.transactions[j],
        )
}

/// A transaction as it reads back after saving: unsigned, with its id
/// computed afresh from its fields.
pub open spec fn unsigned_transaction(tx: TransactionView) -> TransactionView {
    TransactionView {
        tx_id: transaction_id(tx.sender, tx.receiver, tx.amount, tx.currency),
        signature: None,
        ..tx
    }
}

/// A block as it reads back after saving: its transactions unsigned, with
/// their ids computed afresh.
pub open spec fn unsigned_block(block: BlockView) -> BlockView {
    BlockView {
        transactions: block.transactions.map_values(|t: TransactionView| unsigned_transaction(t)),
        ..block
    }
}

/// The blocks of a chain as they read back after saving.
pub open spec fn unsigned_blocks(blocks: Seq<BlockView>) -> Seq<BlockView> {
    blocks.map_values(|b: BlockView| unsigned_block(b))
}

/// Whether every transaction of `blocks` carries the id computed from its fields.
pub open spec fn ids_computed(blocks: Seq<BlockView>) -> bool {
    forall|i: int, j: int|
        0 <= i < blocks.len() && 0 <= j < blocks[i].transactions.len() ==> #[trigger] blocks[i].transactions[j].tx_id
            == transaction_id(
            blocks[i].transactions[j].sender,
            blocks[i].transactions[j].receiver,
            blocks[i].transactions[j].amount,
            blocks[i].transactions[j].currency,
        )
}

proof fn lemma_unsigned_transfers(balances: Balances, txs: Seq<TransactionView>)
    ensures
        apply_transfers(balances, txs.map_values(|t: TransactionView| unsigned_transaction(t)))
            == apply_transfers(balances, txs),
    decreases txs.len(),
{
    let unsigned = txs.map_values(|t: TransactionView| unsigned_transaction(t));
    if txs.len() > 0 {
        assert(unsigned.drop_first() =~= txs.drop_first().map_values(|t: TransactionView| unsigned_transaction(t)));
        assert(unsigned[0] == unsigned_transaction(txs[0]));
        let next = crate::blockchain::apply_transfer(balances, txs[0]);
        if next is Some {
            lemma_unsigned_transfers(next->0, txs.drop_first());
        }
    }
}

proof fn lemma_unsigned_chain_transactions(blocks: Seq<BlockView>)
    ensures
        chain_transactions(unsigned_blocks(blocks)) == chain_transactions(blocks).map_values(
            |t: TransactionView| unsigned_transaction(t),
        ),
    decreases blocks.len(),
{
    let f = |t: TransactionView| unsigned_transaction(t);
    if blocks.len() == 0 {
        assert(chain_transactions(blocks).map_values(f) =~= Seq::<TransactionView>::empty());
        assert(unsigned_blocks(blocks) =~= Seq::<BlockView>::empty());
    } else {
        assert(unsigned_blocks(blocks).drop_first() =~= unsigned_blocks(blocks.drop_first()));
        lemma_unsigned_chain_transactions(blocks.drop_first());
        assert(unsigned_blocks(blocks)[0] == unsigned_block(blocks[0]));
        assert(chain_transactions(blocks).map_values(f) =~= blocks[0].transactions.map_values(f)
            + chain_transactions(blocks.drop_first()).map_values(f));
    }
}

/// Saving a chain and reading it back gives its blocks with every
/// transaction unsigned and its id computed afresh, and replaying them gives
/// the same balances as replaying the chain itself. When every id was the
/// computed one, the blocks read back are valid exactly when the chain was.
pub proof fn lemma_saved_chain_reads_back(stored: Seq<StoredBlock>, blocks: Seq<BlockView>)
    requires
        stored.len() == blocks.len(),
        forall|i: int| 0 <= i < blocks.len() ==> stores_block(#[trigger] stored[i], blocks[i]),
    ensures
        rebuilt_blocks(stored) == unsigned_blocks(blocks),
        replayed_balances(rebuilt_blocks(stored)) == replayed_balances(blocks),
        ids_computed(blocks) ==> chain_valid(rebuilt_blocks(stored)) == chain_valid(blocks),
{
    assert forall|i: int| 0 <= i < blocks.len() implies #[trigger] rebuilt_blocks(stored)[i]
        == unsigned_blocks(blocks)[i] by {
        let s = stored[i];
        let b = blocks[i];
        assert(stores_block(s, b));
        assert(rebuilt_transactions(s.transactions@) =~= b.transactions.map_values(
            |t: TransactionView| unsigned_transaction(t),
        )) by {
            assert forall|j: int| 0 <= j < b.transactions.len() implies rebuilt_transactions(
                s.transactions@,
            )[j] == b.transactions.map_values(|t: TransactionView| unsigned_transaction(t))[j] by {
                assert(stores_transaction(s.transactions@[j], b.transactions[j]));
            }
        }
        assert(rebuilt_block(s) == unsigned_block(b));
    }
    assert(rebuilt_blocks(stored) =~= unsigned_blocks(blocks));
    lemma_unsigned_chain_transactions(blocks);
    lemma_unsigned_transfers(Balances::empty(), chain_transactions(blocks));
    if ids_computed(blocks) {
        let read = unsigned_blocks(blocks);
        assert forall|i: int| 0 <= i < blocks.len() implies #[trigger] read[i].hash == blocks[i].hash
            && read[i].previous_hash == blocks[i].previous_hash && hash_matches(read[i]) == hash_matches(
            blocks[i],
        ) by {
            assert(transaction_ids(read[i].transactions) =~= transaction_ids(blocks[i].transactions)) by {
                assert forall|j: int| 0 <= j < blocks[i].transactions.len() implies transaction_ids(
                    read[i].transactions,
                )[j] == transaction_ids(blocks[i].transactions)[j] by {
                    assert(blocks[i].transactions[j].tx_id == transaction_id(
                        blocks[i].transactions[j].sender,
                        blocks[i].transactions[j].receiver,
                        blocks[i].transactions[j].amount,
                        blocks[i].transactions[j].currency,
                    ));
                }
            }
        }
        if chain_valid(blocks) {
            assert forall|i: int| 1 <= i < read.len() implies {
                &&& hash_matches(#[trigger] read[i])
                &&& read[i].previous_hash == read[i - 1].hash
            } by {
                assert(hash_matches(blocks[i]));
                assert(read[i - 1].hash == blocks[i - 1].hash);
            }
        }
        if chain_valid(read) {
            assert forall|i: int| 1 <= i < blocks.len() implies {
                &&& hash_matches(#[trigger] blocks[i])
                &&& blocks[i].previous_hash == blocks[i - 1].hash
            } by {
                assert(hash_matches(read[i]));
                assert(read[i - 1].hash == blocks[i - 1].hash);
            }
        }
    }
}

fn rebuild_transactions(stored: &Vec<StoredTransaction>) -> (txs: Vec<Transaction>)
    ensures
        transaction_views(txs@) == rebuilt_transactions(stored@),
{
    let mut txs: Vec<Transaction> = Vec::new();
    let n: usize = stored.len();
    for i in 0..n
        invariant
            n == stored@.len(),
            transaction_views(txs@) == rebuilt_transactions(stored@.take(i as int)),
    {
        let t = &stored[i];
        let tx = Transaction::new(t.sender.clone(), t.receiver.clone(), t.amount, t.currency.clone());
        let ghost before = txs@;
        txs.push(tx);
        assert(transaction_views(txs@) =~= transaction_views(before).push(tx@));
        assert(rebuilt_transactions(stored@.take(i + 1)) =~= rebuilt_transactions(stored@.take(i as int)).push(
            rebuilt_transaction(stored@[i as int]),
        ));
    }
    assert(stored@.take(n as int) =~= stored@);
    txs
}

fn store_transactions(txs: &[Transaction]) -> (stored: Vec<StoredTransaction>)
    ensures
        stored@.len() == txs@.len(),
        forall|j: int|
            0 <= j < txs@.len() ==> stores_transaction(#[trigger] stored@[j], txs@[j]@),
{
    let mut stored: Vec<StoredTransaction> = Vec::new();
    let n: usize = txs.len();
    for i in 0..n
        invariant
            n == txs@.len(),
            stored@.len() == i,
            forall|j: int| 0 <= j < i ==> stores_transaction(#[trigger] stored@[j], txs@[j]@),
    {
        let tx = &txs[i];
        stored.push(
            StoredTransaction {
                sender: tx.sender().to_owned(),
                receiver: tx.receiver().to_owned(),
                amount: tx.amount(),
                currency: tx.currency().to_owned(),
                tx_id: tx.tx_id().to_owned(),
            },
        );
    }
    stored
}

impl Blockchain {
    /// The chain's blocks in the form in which they are saved, oldest first.
    pub fn stored_blocks(&self) -> (stored: Vec<StoredBlock>)
        ensures
            stored@.len() == self@.blocks.len(),
            forall|i: int|
                0 <= i < self@.blocks.len() ==> stores_block(#[trigger] stored@[i], self@.blocks[i]),
    {
        let blocks = self.chain();
        let mut stored: Vec<StoredBlock> = Vec::new();
        let n: usize = blocks.len();
        for i in 0..n
            invariant
                n == blocks@.len(),
                block_views(blocks@) == self@.blocks,
                stored@.len() == i,
                forall|j: int| 0 <= j < i ==> stores_block(#[trigger] stored@[j], self@.blocks[j]),
        {
            let block = &blocks[i];
            assert(block@ == self@.blocks[i as int]);
            let txs = block.transactions();
            let stored_txs = store_transactions(txs);
            assert forall|j: int| 0 <= j < block@.transactions.len() implies stores_transaction(
                #[trigger] stored_txs@[j],
                block@.transactions[j],
            ) by {
                assert(block@.transactions[j] == transaction_views(txs@)[j]);
            }
            stored.push(
                StoredBlock {
                    index: block.index() as u64,
                    timestamp: block.timestamp(),
                    previous_hash: block.previous_hash().to_owned(),
                    hash: block.hash().to_owned(),
                    transactions: stored_txs,
                },
            );
        }
        stored
    }

    /// The chain that saved blocks are read back as: each block is loaded in
    /// order with its transactions rebuilt (see `rebuilt_block`), no keys are
    /// registered, and the balances are those replayed from the blocks.
    /// `None` when replaying the rebuilt transactions from empty balances
    /// fails.
    pub fn from_stored(blocks: Vec<StoredBlock>) -> (chain: Option<Blockchain>)
        ensures
            chain is Some <==> replayed_balances(rebuilt_blocks(blocks@)) is Some,
            chain matches Some(c) ==> {
                &&& c@.blocks == rebuilt_blocks(blocks@)
                &&& c@.public_keys == Map::<Seq<char>, Seq<u8>>::empty()
                &&& Some(c@.balances) == replayed_balances(c@.blocks)
            },
    {
        let ghost all = rebuilt_blocks(blocks@);
        let mut chain = Blockchain::load_new();
        let n: usize = blocks.len();
        assert(chain@.blocks =~= all.take(0));
        for i in 0..n
            invariant
                n == blocks@.len(),
                all == rebuilt_blocks(blocks@),
                chain@.blocks == all.take(i as int),
                chain@.public_keys == Map::<Seq<char>, Seq<u8>>::empty(),
                Some(chain@.balances) == replayed_balances(chain@.blocks),
        {
            let stored = &blocks[i];
            let txs = rebuild_transactions(&stored.transactions);
            let ghost next = all[i as int];
            assert(next.transactions == transaction_views(txs@));
            assert(all.take(i + 1) =~= all.take(i as int).push(next));
            proof {
                lemma_chain_transactions_push(all.take(i as int), next);
            }
            if !chain.can_load_block(txs.as_slice()) {
                proof {
                    let head = chain_transactions(all.take(i + 1));
                    let tail = chain_transactions(all.skip(i + 1));
                    assert(all =~= all.take(i + 1) + all.skip(i + 1));
                    lemma_chain_transactions_append(all.take(i + 1), all.skip(i + 1));
                    lemma_apply_transfers_append(Balances::empty(), head, tail);
                }
                return None;
            }
            let index: u32 = #[verifier::truncate] (stored.index as u32);
            chain.load_block(index, stored.timestamp, txs, stored.previous_hash.clone(), stored.hash.clone());
            assert(chain@.blocks =~= all.take(i + 1));
        }
        assert(all.take(n as int) =~= all);
        Some(chain)
    }
}

} // verus!
