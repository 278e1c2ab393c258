//! The chain of blocks, the balances its transfers produce, and the public
//! keys that transfers must be signed with.

use vstd::prelude::*;
use crate::block::{Block, BlockView, block_hash, hash_matches, transaction_views};
use crate::crypto::{sha256, sha256_hex_of};
use crate::text::lemma_hex_lower_len;
use vstd::utf8::encode_utf8;
use crate::ledger::{
    balance_in, lemma_transfer_moves_amount, lemma_supply_after_set, lemma_transfer_keeps_supply, supply, transfer_result,
    KeyRegistry, Ledger,
};
use crate::transaction::{signature_valid, Transaction, TransactionView};

verus! {

/// Balances keyed by (address, currency).
pub type Balances = Map<(Seq<char>, Seq<char>), u64>;

/// What a blockchain holds.
pub struct BlockchainView {
    pub blocks: Seq<BlockView>,
    pub balances: Balances,
    pub public_keys: Map<Seq<char>, Seq<u8>>,
}

/// The balances after applying one transfer, or `None` when it cannot be applied.
pub open spec fn apply_transfer(balances: Balances, tx: TransactionView) -> Option<Balances> {
    transfer_result(balances, tx.sender, tx.receiver, tx.currency, tx.amount)
}

/// The balances after applying `txs` in order, or `None` when one of them
/// cannot be applied.
pub open spec fn apply_transfers(balances: Balances, txs: Seq<TransactionView>) -> Option<Balances>
    decreases txs.len(),
{
    if txs.len() == 0 {
        Some(balances)
    } else {
        match apply_transfer(balances, txs[0]) {
            Some(next) => apply_transfers(next, txs.drop_first()),
            None => None,
        }
    }
}

/// All transactions of a list of blocks, in order.
pub open spec fn chain_transactions(blocks: Seq<BlockView>) -> Seq<TransactionView>
    decreases blocks.len(),
{
    if blocks.len() == 0 {
        Seq::empty()
    } else {
        blocks[0].transactions + chain_transactions(blocks.drop_first())
    }
}

/// The balances obtained by replaying every transaction of `blocks` from
/// empty balances.
pub open spec fn replayed_balances(blocks: Seq<BlockView>) -> Option<Balances> {
    apply_transfers(Map::empty(), chain_transactions(blocks))
}

/// The error for a sender with no registered key.
pub open spec fn no_key_error(sender: Seq<char>) -> Seq<char> {
    sender + " has no registered key"@
}

/// The error for a transaction whose signature does not verify.
pub open spec fn invalid_signature_error(sender: Seq<char>) -> Seq<char> {
    "invalid signature from "@ + sender
}

/// The error for a sender whose balance is below the amount sent.
pub open spec fn insufficient_funds_error(sender: Seq<char>) -> Seq<char> {
    sender + " has insufficient funds"@
}

/// The error for the first transaction, in order, whose sender has no key
/// or whose signature does not verify under it; `None` when all pass.
pub open spec fn signature_error(keys: Map<Seq<char>, Seq<u8>>, txs: Seq<TransactionView>) -> Option<Seq<char>>
    decreases txs.len(),
{
    if txs.len() == 0 {
        None
    } else if !keys.dom().contains(txs[0].sender) {
        Some(no_key_error(txs[0].sender))
    } else if !signature_valid(txs[0], keys[txs[0].sender]) {
        Some(invalid_signature_error(txs[0].sender))
    } else {
        signature_error(keys, txs.drop_first())
    }
}

/// The error for the first transaction, in order, whose amount exceeds its
/// sender's balance in `balances`; `None` when all are covered. Each
/// transaction is held against the same balances.
pub open spec fn funds_error(balances: Balances, txs: Seq<TransactionView>) -> Option<Seq<char>>
    decreases txs.len(),
{
    if txs.len() == 0 {
        None
    } else if balance_in(balances, txs[0].sender, txs[0].currency) < txs[0].amount {
        Some(insufficient_funds_error(txs[0].sender))
    } else {
        funds_error(balances, txs.drop_first())
    }
}

/// Whether every block after the first stores the hash of its contents and
/// names the hash of the block before it.
pub open spec fn chain_valid(blocks: Seq<BlockView>) -> bool {
    forall|i: int|
        1 <= i < blocks.len() ==> {
            &&& hash_matches(#[trigger] blocks[i])
            &&& blocks[i].previous_hash == blocks[i - 1].hash
        }
}

/// The views of a list of blocks.
pub open spec fn block_views(blocks: Seq<Block>) -> Seq<BlockView> {
    blocks.map_values(|b: Block| b@)
}

/// `add_block` can run to its end: when the transactions pass both checks,
/// they can all be applied in order and there is a last block to link to.
pub open spec fn add_block_completes(chain: BlockchainView, txs: Seq<TransactionView>) -> bool {
    signature_error(chain.public_keys, txs) is None && funds_error(chain.balances, txs) is None
        ==> apply_transfers(chain.balances, txs) is Some && chain.blocks.len() > 0
}

/// `after` is `before` with one block appended for `txs`: the block is
/// numbered by the old chain length, links to the old last block, stores the
/// hash of its contents, and the balances are those after applying `txs`.
pub open spec fn block_appended(before: BlockchainView, after: BlockchainView, txs: Seq<TransactionView>) -> bool {
    &&& after.public_keys == before.public_keys
    &&& apply_transfers(before.balances, txs) == Some(after.balances)
    &&& after.blocks.len() == before.blocks.len() + 1
    &&& after.blocks.drop_last() == before.blocks
    &&& after.blocks.last().index == before.blocks.len() as u32
    &&& after.blocks.last().transactions == txs
    &&& after.blocks.last().previous_hash == before.blocks.last().hash
    &&& hash_matches(after.blocks.last())
    &&& after.blocks.last().hash.len() == 64
}

/// Appending a block that stores the hash of its contents and names the
/// hash of the last block keeps a valid chain valid.
pub proof fn lemma_extend_valid_chain(blocks: Seq<BlockView>, block: BlockView)
    requires
        chain_valid(blocks),
        blocks.len() > 0,
        hash_matches(block),
        block.previous_hash == blocks.last().hash,
    ensures
        chain_valid(blocks.push(block)),
{
    let extended = blocks.push(block);
    assert forall|i: int| 1 <= i < extended.len() implies {
        &&& hash_matches(#[trigger] extended[i])
        &&& extended[i].previous_hash == extended[i - 1].hash
    } by {
        if i < blocks.len() {
            assert(extended[i] == blocks[i]);
        }
    }
}

/// Applying `first + rest` is applying `first`, then `rest` to the result.
pub proof fn lemma_apply_transfers_append(balances: Balances, first: Seq<TransactionView>, rest: Seq<TransactionView>)
    ensures
        apply_transfers(balances, first + rest) == match apply_transfers(balances, first) {
            Some(next) => apply_transfers(next, rest),
            None => None,
        },
    decreases first.len(),
{
    if first.len() > 0 {
        assert((first + rest).drop_first() =~= first.drop_first() + rest);
        assert((first + rest)[0] == first[0]);
        if let Some(next) = apply_transfer(balances, first[0]) {
            lemma_apply_transfers_append(next, first.drop_first(), rest);
        }
    } else {
        assert(first + rest =~= rest);
    }
}

/// Applying transfers keeps the total amount of every currency.
pub proof fn lemma_transfers_keep_supply(balances: Balances, txs: Seq<TransactionView>, currency: Seq<char>)
    requires
        balances.dom().finite(),
        apply_transfers(balances, txs) is Some,
    ensures
        apply_transfers(balances, txs)->0.dom().finite(),
        supply(apply_transfers(balances, txs)->0, currency) == supply(balances, currency),
    decreases txs.len(),
{
    if txs.len() > 0 {
        let tx = txs[0];
        lemma_transfer_keeps_supply(balances, tx.sender, tx.receiver, tx.currency, tx.amount, currency);
        let next = apply_transfer(balances, tx)->0;
        lemma_transfers_keep_supply(next, txs.drop_first(), currency);
    }
}

/// The transactions of a chain with one more block end with that block's.
pub proof fn lemma_chain_transactions_push(blocks: Seq<BlockView>, block: BlockView)
    ensures
        chain_transactions(blocks.push(block)) == chain_transactions(blocks) + block.transactions,
    decreases blocks.len(),
{
    if blocks.len() == 0 {
        let single = blocks.push(block);
        assert(single.drop_first() =~= Seq::<BlockView>::empty());
        assert(chain_transactions(single.drop_first()) == Seq::<TransactionView>::empty());
        assert(chain_transactions(single) == single[0].transactions + chain_transactions(single.drop_first()));
        assert(chain_transactions(single) =~= block.transactions);
        assert(chain_transactions(blocks) == Seq::<TransactionView>::empty());
    } else {
        assert(blocks.push(block).drop_first() =~= blocks.drop_first().push(block));
        lemma_chain_transactions_push(blocks.drop_first(), block);
        assert(chain_transactions(blocks.push(block)) =~= chain_transactions(blocks) + block.transactions);
    }
}

/// The transactions of two lists of blocks one after the other are those of
/// the first list followed by those of the second.
pub proof fn lemma_chain_transactions_append(first: Seq<BlockView>, rest: Seq<BlockView>)
    ensures
        chain_transactions(first + rest) == chain_transactions(first) + chain_transactions(rest),
    decreases first.len(),
{
    if first.len() == 0 {
        assert(first + rest =~= rest);
        assert(chain_transactions(first) + chain_transactions(rest) =~= chain_transactions(rest));
    } else {
        assert((first + rest).drop_first() =~= first.drop_first() + rest);
        assert((first + rest)[0] == first[0]);
        lemma_chain_transactions_append(first.drop_first(), rest);
        assert(chain_transactions(first + rest) =~= chain_transactions(first) + chain_transactions(rest));
    }
}

/// Applies `transactions` in order to `ledger`, stopping at the first that
/// cannot be applied. Returns whether all were applied.
fn run_transfers(ledger: &mut Ledger, transactions: &[Transaction]) -> (ok: bool)
    ensures
        match apply_transfers(old(ledger)@, transaction_views(transactions@)) {
            Some(next) => ok && final(ledger)@ == next,
            None => !ok,
        },
{
    let ghost txs = transaction_views(transactions@);
    let ghost target = apply_transfers(old(ledger)@, txs);
    let n: usize = transactions.len();
    assert(txs.skip(0) =~= txs);
    for i in 0..n
        invariant
            n == txs.len(),
            txs == transaction_views(transactions@),
            target == apply_transfers(old(ledger)@, txs),
            apply_transfers(ledger@, txs.skip(i as int)) == target,
    {
        let tx = &transactions[i];
        assert(txs.skip(i as int)[0] == tx@);
        assert(txs.skip(i as int).drop_first() =~= txs.skip(i + 1));
        if !ledger.transfer(tx.sender(), tx.receiver(), tx.currency(), tx.amount()) {
            assert(apply_transfers(ledger@, txs.skip(i as int)) is None);
            return false;
        }
    }
    assert(txs.skip(n as int) =~= Seq::<TransactionView>::empty());
    true
}

/// A block whose stored hash is the text `corrupted` does not store the hash
/// of its contents: that hash is hexadecimal, so its length is even.
pub proof fn lemma_corrupted_hash_mismatch(block: BlockView)
    requires
        block.hash == "corrupted"@,
    ensures
        !hash_matches(block),
{
    reveal_strlit("corrupted");
    let input = crate::block::block_hash_input(block.index, block.timestamp, block.transactions, block.previous_hash);
    lemma_hex_lower_len(sha256(encode_utf8(input)));
    assert(sha256_hex_of(input).len() % 2 == 0);
}

/// A chain in which a block after the first has its hash replaced by the
/// text `corrupted` is not valid.
pub proof fn lemma_tampered_chain_invalid(blocks: Seq<BlockView>, index: int)
    requires
        1 <= index < blocks.len(),
        blocks[index].hash == "corrupted"@,
    ensures
        !chain_valid(blocks),
{
    lemma_corrupted_hash_mismatch(blocks[index]);
}

/// The signature check of `add_block` passes exactly when every transaction's
/// sender has a registered key and the transaction's signature verifies
/// under it.
pub proof fn lemma_signature_check_passes(keys: Map<Seq<char>, Seq<u8>>, txs: Seq<TransactionView>)
    ensures
        signature_error(keys, txs) is None <==> forall|i: int|
            0 <= i < txs.len() ==> keys.dom().contains(#[trigger] txs[i].sender) && signature_valid(
                txs[i],
                keys[txs[i].sender],
            ),
    decreases txs.len(),
{
    if txs.len() > 0 {
        lemma_signature_check_passes(keys, txs.drop_first());
        if signature_error(keys, txs) is None {
            assert forall|i: int| 0 <= i < txs.len() implies keys.dom().contains(#[trigger] txs[i].sender)
                && signature_valid(txs[i], keys[txs[i].sender]) by {
                if i > 0 {
                    assert(txs.drop_first()[i - 1] == txs[i]);
                }
            }
        }
        if forall|i: int|
            0 <= i < txs.len() ==> keys.dom().contains(#[trigger] txs[i].sender) && signature_valid(
                txs[i],
                keys[txs[i].sender],
            ) {
            assert forall|i: int| 0 <= i < txs.drop_first().len() implies keys.dom().contains(
                #[trigger] txs.drop_first()[i].sender,
            ) && signature_valid(txs.drop_first()[i], keys[txs.drop_first()[i].sender]) by {
                assert(txs.drop_first()[i] == txs[i + 1]);
            }
            assert(keys.dom().contains(txs[0].sender));
        }
    }
}

/// The funds check of `add_block` passes exactly when every transaction's
/// amount is at most its sender's balance before the block.
pub proof fn lemma_funds_check_passes(balances: Balances, txs: Seq<TransactionView>)
    ensures
        funds_error(balances, txs) is None <==> forall|i: int|
            0 <= i < txs.len() ==> #[trigger] txs[i].amount <= balance_in(
                balances,
                txs[i].sender,
                txs[i].currency,
            ),
    decreases txs.len(),
{
    if txs.len() > 0 {
        lemma_funds_check_passes(balances, txs.drop_first());
        if funds_error(balances, txs) is None {
            assert forall|i: int| 0 <= i < txs.len() implies #[trigger] txs[i].amount <= balance_in(
                balances,
                txs[i].sender,
                txs[i].currency,
            ) by {
                if i > 0 {
                    assert(txs.drop_first()[i - 1] == txs[i]);
                }
            }
        }
        if forall|i: int|
            0 <= i < txs.len() ==> #[trigger] txs[i].amount <= balance_in(
                balances,
                txs[i].sender,
                txs[i].currency,
            ) {
            assert forall|i: int| 0 <= i < txs.drop_first().len() implies #[trigger] txs.drop_first()[i].amount
                <= balance_in(balances, txs.drop_first()[i].sender, txs.drop_first()[i].currency) by {
                assert(txs.drop_first()[i] == txs[i + 1]);
            }
            assert(txs[0].amount <= balance_in(balances, txs[0].sender, txs[0].currency));
        }
    }
}

/// `add_block` asks nothing of a block that it rejects: its precondition
/// excludes only inputs that pass both checks and still cannot be applied, so
/// every rejected block falls under its contract, which leaves the chain,
/// balances and keys as they were.
pub proof fn lemma_rejection_is_always_allowed(chain: BlockchainView, txs: Seq<TransactionView>)
    requires
        signature_error(chain.public_keys, txs) is Some || funds_error(chain.balances, txs) is Some,
    ensures
        add_block_completes(chain, txs),
{
}

/// A valid chain's blocks after the first store the hash of their own
/// contents and name the hash of the block before them; any such block whose
/// stored hash differs from the hash of its contents, whatever the stored
/// text looks like, makes the chain invalid.
pub proof fn lemma_valid_chain_blocks_store_their_hash(blocks: Seq<BlockView>, i: int)
    requires
        1 <= i < blocks.len(),
    ensures
        chain_valid(blocks) ==> blocks[i].hash == block_hash(
            blocks[i].index,
            blocks[i].timestamp,
            blocks[i].transactions,
            blocks[i].previous_hash,
        ) && blocks[i].previous_hash == blocks[i - 1].hash,
        blocks[i].hash != block_hash(
            blocks[i].index,
            blocks[i].timestamp,
            blocks[i].transactions,
            blocks[i].previous_hash,
        ) ==> !chain_valid(blocks),
        blocks[i].previous_hash != blocks[i - 1].hash ==> !chain_valid(blocks),
{
}

/// A chain is valid when every block after the first stores the hash of its
/// contents and names the hash of the block before it; and every prefix of a
/// valid chain is valid.
pub proof fn lemma_chain_valid_when_blocks_link(blocks: Seq<BlockView>, k: int)
    requires
        0 <= k <= blocks.len(),
    ensures
        (forall|i: int|
            1 <= i < blocks.len() ==> #[trigger] blocks[i].hash == block_hash(
                blocks[i].index,
                blocks[i].timestamp,
                blocks[i].transactions,
                blocks[i].previous_hash,
            ) && blocks[i].previous_hash == blocks[i - 1].hash) ==> chain_valid(blocks),
        chain_valid(blocks) ==> chain_valid(blocks.take(k)),
{
    if forall|i: int|
        1 <= i < blocks.len() ==> #[trigger] blocks[i].hash == block_hash(
            blocks[i].index,
            blocks[i].timestamp,
            blocks[i].transactions,
            blocks[i].previous_hash,
        ) && blocks[i].previous_hash == blocks[i - 1].hash {
        assert forall|i: int| 1 <= i < blocks.len() implies {
            &&& hash_matches(#[trigger] blocks[i])
            &&& blocks[i].previous_hash == blocks[i - 1].hash
        } by {
            assert(blocks[i].hash == block_hash(
                blocks[i].index,
                blocks[i].timestamp,
                blocks[i].transactions,
                blocks[i].previous_hash,
            ));
        }
    }
    if chain_valid(blocks) {
        let prefix = blocks.take(k);
        assert forall|i: int| 1 <= i < prefix.len() implies {
            &&& hash_matches(#[trigger] prefix[i])
            &&& prefix[i].previous_hash == prefix[i - 1].hash
        } by {
            assert(prefix[i] == blocks[i]);
            assert(hash_matches(blocks[i]));
        }
    }
}

/// A block of one transfer that passes the funds check, on a chain with a
/// block to link to, can be applied whenever the receiver's balance has room
/// for the amount: `add_block` then runs to its end.
pub proof fn lemma_single_transfer_block_completes(chain: BlockchainView, tx: TransactionView)
    requires
        chain.blocks.len() > 0,
        tx.sender == tx.receiver || balance_in(chain.balances, tx.receiver, tx.currency) + tx.amount
            <= u64::MAX,
    ensures
        add_block_completes(chain, seq![tx]),
        funds_error(chain.balances, seq![tx]) is None ==> apply_transfers(chain.balances, seq![tx]) is Some,
{
    let txs = seq![tx];
    assert(txs[0] == tx);
    assert(txs.drop_first() =~= Seq::<TransactionView>::empty());
    lemma_transfer_moves_amount(chain.balances, tx.sender, tx.receiver, tx.currency, tx.amount);
    if funds_error(chain.balances, txs) is None {
        assert(balance_in(chain.balances, tx.sender, tx.currency) >= tx.amount);
        let next = apply_transfer(chain.balances, tx);
        assert(next is Some);
        assert(apply_transfers(next->0, txs.drop_first()) == Some(next->0));
    }
}

/// A chain of blocks with the balances and public keys that govern new blocks.
pub struct Blockchain {
    chain: Vec<Block>,
    balances: Ledger,
    public_keys: KeyRegistry,
}

impl View for Blockchain {
    type V = BlockchainView;

    closed spec fn view(&self) -> BlockchainView {
        BlockchainView {
            blocks: block_views(self.chain@),
            balances: self.balances@,
            public_keys: self.public_keys@,
        }
    }
}

fn no_key_message(sender: &str) -> (message: String)
    ensures
        message@ == no_key_error(sender@),
{
    let mut message = sender.to_owned();
    message.append(" has no registered key");
    message
}

fn invalid_signature_message(sender: &str) -> (message: String)
    ensures
        message@ == invalid_signature_error(sender@),
{
    let mut message = String::from_str("invalid signature from ");
    message.append(sender);
    message
}

fn insufficient_funds_message(sender: &str) -> (message: String)
    ensures
        message@ == insufficient_funds_error(sender@),
{
    let mut message = sender.to_owned();
    message.append(" has insufficient funds");
    message
}

impl Blockchain {
    /// A chain holding only the genesis block (index 0, no transactions,
    /// previous hash `0`), with no balances and no keys.
    pub fn new() -> (chain: Self)
        ensures
            chain@.blocks.len() == 1,
            chain@.blocks[0].index == 0,
            chain@.blocks[0].transactions == Seq::<TransactionView>::empty(),
            chain@.blocks[0].previous_hash == "0"@,
            hash_matches(chain@.blocks[0]),
            chain@.blocks[0].hash.len() == 64,
            chain@.balances == Balances::empty(),
            chain@.public_keys == Map::<Seq<char>, Seq<u8>>::empty(),
            chain_valid(chain@.blocks),
    {
        let genesis = Block::new(0, Vec::new(), String::from_str("0"));
        let mut chain = Vec::new();
        chain.push(genesis);
        let result = Blockchain { chain, balances: Ledger::new(), public_keys: KeyRegistry::new() };
        assert(result@.blocks =~= seq![genesis@]);
        result
    }

    /// A chain with no blocks, no balances and no keys, to load blocks into.
    pub fn load_new() -> (chain: Self)
        ensures
            chain@.blocks == Seq::<BlockView>::empty(),
            chain@.balances == Balances::empty(),
            chain@.public_keys == Map::<Seq<char>, Seq<u8>>::empty(),
    {
        let result = Blockchain { chain: Vec::new(), balances: Ledger::new(), public_keys: KeyRegistry::new() };
        assert(result@.blocks =~= Seq::<BlockView>::empty());
        result
    }

    /// Registers `public_key` as the key of `address`, replacing any earlier one.
    pub fn register_key(&mut self, address: String, public_key: Vec<u8>)
        ensures
            final(self)@ == (BlockchainView {
                public_keys: old(self)@.public_keys.insert(address@, public_key@),
                ..old(self)@
            }),
    {
        self.public_keys.insert(address, public_key);
    }

    /// Adds `amount` to the balance of `address` in `currency`.
    pub fn fund_address(&mut self, address: String, currency: String, amount: u64)
        requires
            balance_in(old(self)@.balances, address@, currency@) + amount <= u64::MAX,
        ensures
            final(self)@ == (BlockchainView {
                balances: old(self)@.balances.insert(
                    (address@, currency@),
                    (balance_in(old(self)@.balances, address@, currency@) + amount) as u64,
                ),
                ..old(self)@
            }),
            supply(final(self)@.balances, currency@) == supply(old(self)@.balances, currency@) + amount,
            forall|other: Seq<char>|
                other != currency@ ==> #[trigger] supply(final(self)@.balances, other) == supply(
                    old(self)@.balances,
                    other,
                ),
    {
        proof {
            use_type_invariant(&self.balances);
            self.balances.lemma_finite();
            let key = (address@, currency@);
            let funded = (balance_in(self@.balances, address@, currency@) + amount) as u64;
            lemma_supply_after_set(self@.balances, key, funded, currency@);
            assert forall|other: Seq<char>| other != currency@ implies #[trigger] supply(
                self@.balances.insert(key, funded),
                other,
            ) == supply(self@.balances, other) by {
                lemma_supply_after_set(self@.balances, key, funded, other);
            }
        }
        let current: u64 = self.balances.balance(address.as_str(), currency.as_str());
        self.balances.set(address.as_str(), currency.as_str(), current + amount);
    }

    /// The balance of `address` in `currency` (0 when it has none).
    pub fn get_balance(&self, address: &str, currency: &str) -> (amount: u64)
        ensures
            amount == balance_in(self@.balances, address@, currency@),
    {
        self.balances.balance(address, currency)
    }

    /// The blocks, oldest first.
    pub fn chain(&self) -> (blocks: &[Block])
        ensures
            block_views(blocks@) == self@.blocks,
    {
        self.chain.as_slice()
    }

    fn check_signatures(&self, transactions: &[Transaction]) -> (checked: Result<(), String>)
        ensures
            match signature_error(self@.public_keys, transaction_views(transactions@)) {
                Some(e) => checked matches Err(m) && m@ == e,
                None => checked is Ok,
            },
    {
        let ghost txs = transaction_views(transactions@);
        let n: usize = transactions.len();
        assert(txs.skip(0) =~= txs);
        for i in 0..n
            invariant
                n == txs.len(),
                txs == transaction_views(transactions@),
                signature_error(self@.public_keys, txs) == signature_error(
                    self@.public_keys,
                    txs.skip(i as int),
                ),
        {
            let tx = &transactions[i];
            assert(txs.skip(i as int)[0] == tx@);
            assert(txs.skip(i as int).drop_first() =~= txs.skip(i + 1));
            match self.public_keys.get(tx.sender()) {
                None => {
                    return Err(no_key_message(tx.sender()));
                },
                Some(key) => {
                    if !tx.verify(key.as_slice()) {
                        return Err(invalid_signature_message(tx.sender()));
                    }
                },
            }
        }
        Ok(())
    }

    fn check_funds(&self, transactions: &[Transaction]) -> (checked: Result<(), String>)
        ensures
            match funds_error(self@.balances, transaction_views(transactions@)) {
                Some(e) => checked matches Err(m) && m@ == e,
                None => checked is Ok,
            },
    {
        let ghost txs = transaction_views(transactions@);
        let n: usize = transactions.len();
        assert(txs.skip(0) =~= txs);
        for i in 0..n
            invariant
                n == txs.len(),
                txs == transaction_views(transactions@),
                funds_error(self@.balances, txs) == funds_error(self@.balances, txs.skip(i as int)),
        {
            let tx = &transactions[i];
            assert(txs.skip(i as int)[0] == tx@);
            assert(txs.skip(i as int).drop_first() =~= txs.skip(i + 1));
            if self.get_balance(tx.sender(), tx.currency()) < tx.amount() {
                return Err(insufficient_funds_message(tx.sender()));
            }
        }
        Ok(())
    }

    /// Appends a block holding `transactions` when every transaction is
    /// signed under its sender's registered key and every amount is covered
    /// by its sender's balance; the transfers are then applied in order.
    /// Otherwise returns the error for the first failing transaction (all
    /// signatures are checked before any balance) and changes nothing.
    pub fn add_block(&mut self, transactions: Vec<Transaction>) -> (result: Result<(), String>)
        requires
            add_block_completes(old(self)@, transaction_views(transactions@)),
        ensures
            match signature_error(old(self)@.public_keys, transaction_views(transactions@)) {
                Some(e) => result matches Err(m) && m@ == e && final(self)@ == old(self)@,
                None => match funds_error(old(self)@.balances, transaction_views(transactions@)) {
                    Some(e) => result matches Err(m) && m@ == e && final(self)@ == old(self)@,
                    None => result is Ok && block_appended(
                        old(self)@,
                        final(self)@,
                        transaction_views(transactions@),
                    ),
                },
            },
            chain_valid(old(self)@.blocks) ==> chain_valid(final(self)@.blocks),
            forall|currency: Seq<char>|
                #[trigger] supply(final(self)@.balances, currency) == supply(old(self)@.balances, currency),
    {
        proof {
            use_type_invariant(&self.balances);
            self.balances.lemma_finite();
            assert forall|currency: Seq<char>| apply_transfers(self@.balances, transaction_views(transactions@)) is Some
                implies #[trigger] supply(apply_transfers(self@.balances, transaction_views(transactions@))->0, currency)
                == supply(self@.balances, currency) by {
                lemma_transfers_keep_supply(self@.balances, transaction_views(transactions@), currency);
            }
        }
        self.check_signatures(transactions.as_slice())?;
        self.check_funds(transactions.as_slice())?;
        run_transfers(&mut self.balances, transactions.as_slice());
        let ghost before = self@;
        let len: usize = self.chain.len();
        let index: u32 = #[verifier::truncate] (len as u32);
        let prev_hash = self.chain[len - 1].hash().to_owned();
        let block = Block::new(index, transactions, prev_hash);
        self.chain.push(block);
        assert(block_views(self.chain@).drop_last() =~= before.blocks);
        proof {
            assert(self@.blocks =~= before.blocks.push(self@.blocks.last()));
            if chain_valid(before.blocks) {
                lemma_extend_valid_chain(before.blocks, self@.blocks.last());
            }
        }
        Ok(())
    }

    /// Whether `transactions` can be applied to the current balances in
    /// order and the chain has a last block, so that `add_block` runs to its
    /// end whatever the signature and funds checks decide.
    pub fn can_add_block(&self, transactions: &[Transaction]) -> (ok: bool)
        ensures
            ok == (apply_transfers(self@.balances, transaction_views(transactions@)) is Some
                && self@.blocks.len() > 0),
    {
        if self.chain.len() == 0 {
            return false;
        }
        let mut scratch = self.balances.copy();
        run_transfers(&mut scratch, transactions)
    }

    /// `add_block` on a chain where it runs to its end; `None`, with nothing
    /// changed, where the transfers cannot all be applied or there is no block
    /// to link to.
    pub fn add_block_checked(&mut self, transactions: Vec<Transaction>) -> (result: Option<Result<(), String>>)
        ensures
            !(apply_transfers(old(self)@.balances, transaction_views(transactions@)) is Some
                && old(self)@.blocks.len() > 0) ==> result is None && final(self)@ == old(self)@,
            apply_transfers(old(self)@.balances, transaction_views(transactions@)) is Some
                && old(self)@.blocks.len() > 0 ==> result is Some && match signature_error(
                old(self)@.public_keys,
                transaction_views(transactions@),
            ) {
                Some(e) => result->0 matches Err(m) && m@ == e && final(self)@ == old(self)@,
                None => match funds_error(old(self)@.balances, transaction_views(transactions@)) {
                    Some(e) => result->0 matches Err(m) && m@ == e && final(self)@ == old(self)@,
                    None => result->0 is Ok && block_appended(
                        old(self)@,
                        final(self)@,
                        transaction_views(transactions@),
                    ),
                },
            },
            forall|currency: Seq<char>|
                #[trigger] supply(final(self)@.balances, currency) == supply(old(self)@.balances, currency),
            chain_valid(old(self)@.blocks) ==> chain_valid(final(self)@.blocks),
    {
        if self.can_add_block(transactions.as_slice()) {
            Some(self.add_block(transactions))
        } else {
            None
        }
    }

    fn rebuild_balances(&mut self)
        requires
            replayed_balances(old(self)@.blocks) is Some,
        ensures
            final(self)@ == (BlockchainView {
                balances: replayed_balances(old(self)@.blocks)->0,
                ..old(self)@
            }),
    {
        let ghost blocks = self@.blocks;
        let ghost target = replayed_balances(blocks);
        self.balances.clear();
        let n: usize = self.chain.len();
        assert(blocks.skip(0) =~= blocks);
        for b in 0..n
            invariant
                n == blocks.len(),
                blocks == block_views(self.chain@),
                self@.blocks == old(self)@.blocks,
                self@.public_keys == old(self)@.public_keys,
                target == replayed_balances(blocks),
                target is Some,
                apply_transfers(self@.balances, chain_transactions(blocks.skip(b as int))) == target,
        {
            let ghost current = self@.balances;
            let ghost rest = chain_transactions(blocks.skip(b + 1));
            proof {
                assert(blocks.skip(b as int)[0] == blocks[b as int]);
                assert(blocks.skip(b as int).drop_first() =~= blocks.skip(b + 1));
                assert(chain_transactions(blocks.skip(b as int)) == blocks[b as int].transactions + rest);
                lemma_apply_transfers_append(current, blocks[b as int].transactions, rest);
            }
            run_transfers(&mut self.balances, self.chain[b].transactions());
        }
        assert(blocks.skip(n as int) =~= Seq::<BlockView>::empty());
    }

    /// Appends a block exactly as given, without checking it, and recomputes
    /// the balances by replaying every transaction of the chain from empty
    /// balances (earlier funding is not kept).
    pub fn load_block(
        &mut self,
        index: u32,
        timestamp: u64,
        transactions: Vec<Transaction>,
        previous_hash: String,
        hash: String,
    )
        requires
            apply_transfers(
                Balances::empty(),
                chain_transactions(old(self)@.blocks) + transaction_views(transactions@),
            ) is Some,
        ensures
            final(self)@.blocks == old(self)@.blocks.push(
                BlockView {
                    index,
                    timestamp,
                    transactions: transaction_views(transactions@),
                    previous_hash: previous_hash@,
                    hash: hash@,
                },
            ),
            final(self)@.public_keys == old(self)@.public_keys,
            Some(final(self)@.balances) == replayed_balances(final(self)@.blocks),
    {
        let block = Block::load(index, timestamp, transactions, previous_hash, hash);
        let ghost before = self@.blocks;
        self.chain.push(block);
        proof {
            assert(self@.blocks =~= before.push(block@));
            lemma_chain_transactions_push(before, block@);
        }
        self.rebuild_balances();
    }

    /// Whether replaying every transaction of the chain followed by
    /// `transactions` from empty balances succeeds, which `load_block` needs.
    pub fn can_load_block(&self, transactions: &[Transaction]) -> (ok: bool)
        ensures
            ok == apply_transfers(
                Balances::empty(),
                chain_transactions(self@.blocks) + transaction_views(transactions@),
            ) is Some,
    {
        let ghost blocks = self@.blocks;
        let ghost txs = transaction_views(transactions@);
        let ghost target = apply_transfers(Balances::empty(), chain_transactions(blocks) + txs);
        let mut scratch = Ledger::new();
        let n: usize = self.chain.len();
        assert(blocks.skip(0) =~= blocks);
        for b in 0..n
            invariant
                n == blocks.len(),
                blocks == block_views(self.chain@),
                txs == transaction_views(transactions@),
                target == apply_transfers(Balances::empty(), chain_transactions(blocks) + txs),
                apply_transfers(scratch@, chain_transactions(blocks.skip(b as int)) + txs) == target,
        {
            let ghost current = scratch@;
            let ghost rest = chain_transactions(blocks.skip(b + 1)) + txs;
            proof {
                assert(blocks.skip(b as int)[0] == blocks[b as int]);
                assert(blocks.skip(b as int).drop_first() =~= blocks.skip(b + 1));
                assert(chain_transactions(blocks.skip(b as int)) + txs =~= blocks[b as int].transactions + rest);
                lemma_apply_transfers_append(current, blocks[b as int].transactions, rest);
            }
            if !run_transfers(&mut scratch, self.chain[b].transactions()) {
                return false;
            }
        }
        assert(chain_transactions(blocks.skip(n as int)) + txs =~= txs) by {
            assert(blocks.skip(n as int) =~= Seq::<BlockView>::empty());
        }
        run_transfers(&mut scratch, transactions)
    }

    /// Whether every block after the first stores the hash of its contents
    /// and names the hash of the block before it.
    pub fn is_valid(&self) -> (valid: bool)
        ensures
            valid == chain_valid(self@.blocks),
    {
        let ghost blocks = self@.blocks;
        let n: usize = self.chain.len();
        let mut i: usize = 1;
        while i < n
            invariant
                n == blocks.len(),
                blocks == block_views(self.chain@),
                1 <= i,
                forall|j: int|
                    1 <= j < i && j < n ==> {
                        &&& hash_matches(#[trigger] blocks[j])
                        &&& blocks[j].previous_hash == blocks[j - 1].hash
                    },
            decreases n - i,
        {
            assert(self.chain@[i as int]@ == blocks[i as int]);
            assert(self.chain@[i - 1]@ == blocks[i - 1]);
            if !self.chain[i].verify_hash() {
                assert(!hash_matches(blocks[i as int]));
                return false;
            }
            if !self.chain[i].verify_previous_hash(&self.chain[i - 1]) {
                assert(hash_matches(blocks[i as int]));
                return false;
            }
            i = i + 1;
        }
        true
    }

    /// Overwrites the hash of block `index` with the text `corrupted`; a
    /// chain tampered with at a block after the first is no longer valid.
    pub fn tamper_block(&mut self, index: usize)
        requires
            index < old(self)@.blocks.len(),
        ensures
            final(self)@ == (BlockchainView {
                blocks: old(self)@.blocks.update(
                    index as int,
                    BlockView { hash: "corrupted"@, ..old(self)@.blocks[index as int] },
                ),
                ..old(self)@
            }),
            index >= 1 ==> !chain_valid(final(self)@.blocks),
    {
        let mut block = self.chain.remove(index);
        block.corrupt_hash();
        self.chain.insert(index, block);
        proof {
            assert(self@.blocks =~= old(self)@.blocks.update(
                index as int,
                BlockView { hash: "corrupted"@, ..old(self)@.blocks[index as int] },
            ));
            if index >= 1 {
                lemma_tampered_chain_invalid(self@.blocks, index as int);
            }
        }
    }
}

} // verus!
