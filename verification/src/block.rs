//! Blocks: a batch of transactions stamped with an index and a time, linked
//! to the previous block by its hash.

use vstd::prelude::*;
use crate::crypto::{sha256_hex, sha256_hex_of};
use crate::merkle::{compute_merkle_root, is_power_of_two, lemma_merkle_root_of_halves, merkle_root, string_views};
use crate::text::{decimal, is_lower_hex, push_decimal};
use crate::transaction::{Transaction, TransactionView};

verus! {

/// What a block holds.
pub struct BlockView {
    pub index: u32,
    pub timestamp: u64,
    pub transactions: Seq<TransactionView>,
    pub previous_hash: Seq<char>,
    pub hash: Seq<char>,
}

/// The views of a list of transactions.
pub open spec fn transaction_views(txs: Seq<Transaction>) -> Seq<TransactionView> {
    txs.map_values(|t: Transaction| t@)
}

/// The ids of a list of transactions.
pub open spec fn transaction_ids(txs: Seq<TransactionView>) -> Seq<Seq<char>> {
    txs.map_values(|t: TransactionView| t.tx_id)
}

/// The text a block's hash is computed from: index and timestamp in decimal,
/// the Merkle root of the transaction ids, and the previous block's hash.
pub open spec fn block_hash_input(
    index: u32,
    timestamp: u64,
    transactions: Seq<TransactionView>,
    previous_hash: Seq<char>,
) -> Seq<char> {
    decimal(index as nat) + decimal(timestamp as nat) + merkle_root(transaction_ids(transactions))
        + previous_hash
}

/// The hash of a block with these contents: SHA-256 (as hex) of its hash input.
pub open spec fn block_hash(
    index: u32,
    timestamp: u64,
    transactions: Seq<TransactionView>,
    previous_hash: Seq<char>,
) -> Seq<char> {
    sha256_hex_of(block_hash_input(index, timestamp, transactions, previous_hash))
}

/// What a block's hash covers: its index and timestamp in decimal, then a
/// digest of its transaction ids, then the previous hash. With no
/// transactions the digest is the text `0`, with one it is that transaction's
/// id, with two it is the SHA-256 (as hex) of both ids, and for a power-of-two
/// number of transactions it is the SHA-256 (as hex) of the roots of the two
/// halves, so every transaction's id enters it.
pub proof fn lemma_block_hash_covers_transactions(
    index: u32,
    timestamp: u64,
    transactions: Seq<TransactionView>,
    previous_hash: Seq<char>,
)
    ensures
        transactions.len() == 0 ==> block_hash_input(index, timestamp, transactions, previous_hash)
            == decimal(index as nat) + decimal(timestamp as nat) + seq!['0'] + previous_hash,
        transactions.len() == 1 ==> block_hash_input(index, timestamp, transactions, previous_hash)
            == decimal(index as nat) + decimal(timestamp as nat) + transactions[0].tx_id + previous_hash,
        transactions.len() == 2 ==> block_hash_input(index, timestamp, transactions, previous_hash)
            == decimal(index as nat) + decimal(timestamp as nat) + sha256_hex_of(
            transactions[0].tx_id + transactions[1].tx_id,
        ) + previous_hash,
        transactions.len() % 2 == 0 && is_power_of_two(transactions.len() / 2) ==> block_hash_input(
            index,
            timestamp,
            transactions,
            previous_hash,
        ) == decimal(index as nat) + decimal(timestamp as nat) + sha256_hex_of(
            merkle_root(transaction_ids(transactions.take((transactions.len() / 2) as int)))
                + merkle_root(transaction_ids(transactions.skip((transactions.len() / 2) as int))),
        ) + previous_hash,
{
    let ids = transaction_ids(transactions);
    let half = transactions.len() / 2;
    if transactions.len() % 2 == 0 && is_power_of_two(half as nat) {
        let first = transaction_ids(transactions.take(half as int));
        let second = transaction_ids(transactions.skip(half as int));
        assert(ids =~= first + second);
        lemma_merkle_root_of_halves(first, second);
    }
    if transactions.len() == 2 {
        assert(is_power_of_two(1));
        let first = transaction_ids(transactions.take(1));
        let second = transaction_ids(transactions.skip(1));
        assert(ids =~= first + second);
        lemma_merkle_root_of_halves(first, second);
        assert(merkle_root(first) == transactions[0].tx_id);
        assert(merkle_root(second) == transactions[1].tx_id);
    }
    if transactions.len() == 1 {
        assert(merkle_root(ids) == ids[0]);
    }
}

/// Whether a block's stored hash is the hash of its contents.
pub open spec fn hash_matches(block: BlockView) -> bool {
    block.hash == block_hash(block.index, block.timestamp, block.transactions, block.previous_hash)
}

/// The current time in whole seconds since the Unix epoch; `None` when the
/// clock is set before the epoch.
///
/// Calls `SystemTime::now` and `SystemTime::duration_since(UNIX_EPOCH)`. The
/// value depends on the clock, so nothing is stated of it.
#[verifier::external_body]
fn unix_time_now() -> Option<u64> {
    match std::time::SystemTime::now().duration_since(std::time::UNIX_EPOCH) {
        Ok(elapsed) => Some(elapsed.as_secs()),
        Err(_) => None,
    }
}

/// A block of the chain.
#[derive(Clone, Debug)]
pub struct Block {
    index: u32,
    timestamp: u64,
    transactions: Vec<Transaction>,
    previous_hash: String,
    hash: String,
}

impl View for Block {
    type V = BlockView;

    closed spec fn view(&self) -> BlockView {
        BlockView {
            index: self.index,
            timestamp: self.timestamp,
            transactions: transaction_views(self.transactions@),
            previous_hash: self.previous_hash@,
            hash: self.hash@,
        }
    }
}

impl Block {
    /// A block stamped with the current time (0 when the clock is set before
    /// the Unix epoch), its hash computed from its contents.
    pub fn new(index: u32, transactions: Vec<Transaction>, previous_hash: String) -> (block: Self)
        ensures
            block@.index == index,
            block@.transactions == transaction_views(transactions@),
            block@.previous_hash == previous_hash@,
            hash_matches(block@),
            block@.hash.len() == 64,
            is_lower_hex(block@.hash),
    {
        let timestamp: u64 = match unix_time_now() {
            Some(seconds) => seconds,
            None => 0,
        };
        Self::with_timestamp(index, timestamp, transactions, previous_hash)
    }

    /// A block stamped with `timestamp`, its hash computed from its contents.
    pub fn with_timestamp(
        index: u32,
        timestamp: u64,
        transactions: Vec<Transaction>,
        previous_hash: String,
    ) -> (block: Self)
        ensures
            block@ == (BlockView {
                index,
                timestamp,
                transactions: transaction_views(transactions@),
                previous_hash: previous_hash@,
                hash: block_hash(index, timestamp, transaction_views(transactions@), previous_hash@),
            }),
            block@.hash.len() == 64,
            is_lower_hex(block@.hash),
    {
        let hash = Self::calculate_hash(
            index,
            timestamp,
            transactions.as_slice(),
            previous_hash.as_str(),
        );
        Block { index, timestamp, transactions, previous_hash, hash }
    }

    /// A block with every field given, as read back from storage or a peer.
    pub fn load(
        index: u32,
        timestamp: u64,
        transactions: Vec<Transaction>,
        previous_hash: String,
        hash: String,
    ) -> (block: Self)
        ensures
            block@ == (BlockView {
                index,
                timestamp,
                transactions: transaction_views(transactions@),
                previous_hash: previous_hash@,
                hash: hash@,
            }),
    {
        Block { index, timestamp, transactions, previous_hash, hash }
    }

    /// The fields of the block, in the order `load` takes them.
    pub(crate) fn into_parts(self) -> (parts: (u32, u64, Vec<Transaction>, String, String))
        ensures
            parts.0 == self@.index,
            parts.1 == self@.timestamp,
            transaction_views(parts.2@) == self@.transactions,
            parts.3@ == self@.previous_hash,
            parts.4@ == self@.hash,
    {
        (self.index, self.timestamp, self.transactions, self.previous_hash, self.hash)
    }

    pub fn index(&self) -> (index: u32)
        ensures
            index == self@.index,
    {
        self.index
    }

    pub fn timestamp(&self) -> (timestamp: u64)
        ensures
            timestamp == self@.timestamp,
    {
        self.timestamp
    }

    pub fn hash(&self) -> (hash: &str)
        ensures
            hash@ == self@.hash,
    {
        self.hash.as_str()
    }

    pub fn previous_hash(&self) -> (hash: &str)
        ensures
            hash@ == self@.previous_hash,
    {
        self.previous_hash.as_str()
    }

    pub fn transactions(&self) -> (txs: &[Transaction])
        ensures
            transaction_views(txs@) == self@.transactions,
    {
        self.transactions.as_slice()
    }

    /// Whether the stored hash is the hash of the block's contents.
    pub fn verify_hash(&self) -> (ok: bool)
        ensures
            ok == hash_matches(self@),
    {
        let expected = Self::calculate_hash(
            self.index,
            self.timestamp,
            self.transactions.as_slice(),
            self.previous_hash.as_str(),
        );
        expected == self.hash
    }

    /// Whether this block names `previous`'s hash as its previous hash.
    pub fn verify_previous_hash(&self, previous: &Block) -> (ok: bool)
        ensures
            ok == (self@.previous_hash == previous@.hash),
    {
        self.previous_hash == previous.hash
    }

    /// Overwrites the stored hash with the text `corrupted`.
    pub fn corrupt_hash(&mut self)
        ensures
            final(self)@ == (BlockView { hash: "corrupted"@, ..old(self)@ }),
    {
        self.hash = String::from_str("corrupted");
    }

    fn calculate_hash(
        index: u32,
        timestamp: u64,
        transactions: &[Transaction],
        previous_hash: &str,
    ) -> (hash: String)
        ensures
            hash@ == block_hash(index, timestamp, transaction_views(transactions@), previous_hash@),
            hash@.len() == 64,
            is_lower_hex(hash@),
    {
        let mut tx_ids: Vec<String> = Vec::new();
        let n: usize = transactions.len();
        for i in 0..n
            invariant
                n == transactions@.len(),
                string_views(tx_ids@) == transaction_ids(transaction_views(transactions@.take(i as int))),
        {
            let id = transactions[i].tx_id().to_owned();
            assert(id@ == transactions@[i as int]@.tx_id);
            let ghost before = tx_ids@;
            tx_ids.push(id);
            assert(string_views(tx_ids@) =~= string_views(before).push(id@));
            assert(transaction_ids(transaction_views(transactions@.take(i + 1))) =~= transaction_ids(
                transaction_views(transactions@.take(i as int)),
            ).push(transactions@[i as int]@.tx_id));
            assert(string_views(tx_ids@) =~= transaction_ids(transaction_views(transactions@.take(i + 1))));
        }
        assert(transactions@.take(n as int) =~= transactions@);
        let merkle_root = compute_merkle_root(tx_ids);
        let mut input = String::new();
        push_decimal(&mut input, index as u64);
        push_decimal(&mut input, timestamp);
        input.append(merkle_root.as_str());
        input.append(previous_hash);
        assert(input@ =~= block_hash_input(index, timestamp, transaction_views(transactions@), previous_hash@));
        sha256_hex(input.as_str())
    }
}

} // verus!
