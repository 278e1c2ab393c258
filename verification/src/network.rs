//! What a node does with a message it receives.

use vstd::prelude::*;
use crate::blockchain::{apply_transfers, chain_transactions, replayed_balances, Balances, Blockchain};
use crate::message::Message;

verus! {

/// What a node noted on receiving a message.
#[derive(Clone, Debug, PartialEq, Eq)]
pub enum Received {
    /// A transaction, by its id.
    Transaction(String),
    /// A block, by its index, which was loaded into the chain.
    Block(u32),
    ChainRequest,
    Chain,
    /// A greeting, by the sender's name.
    Hello(String),
}

/// Handles one received message: a new block is loaded into `chain` as
/// given (see `Blockchain::load_block`); every other message leaves the
/// chain as it was and is only noted.
pub fn handle_message(chain: &mut Blockchain, message: Message) -> (received: Received)
    requires
        message matches Message::NewBlock(block) ==> apply_transfers(
            Balances::empty(),
            chain_transactions(old(chain)@.blocks) + block@.transactions,
        ) is Some,
    ensures
        match message {
            Message::NewBlock(block) => {
                &&& received == Received::Block(block@.index)
                &&& final(chain)@.blocks == old(chain)@.blocks.push(block@)
                &&& final(chain)@.public_keys == old(chain)@.public_keys
                &&& Some(final(chain)@.balances) == replayed_balances(final(chain)@.blocks)
            },
            Message::NewTransaction(tx) => received matches Received::Transaction(id) && id@
                == tx@.tx_id && final(chain)@ == old(chain)@,
            Message::RequestChain => received == Received::ChainRequest && final(chain)@ == old(chain)@,
            Message::ResponseChain(_) => received == Received::Chain && final(chain)@ == old(chain)@,
            Message::Hello { from } => received matches Received::Hello(name) && name@ == from@
                && final(chain)@ == old(chain)@,
        },
{
    match message {
        Message::NewTransaction(tx) => Received::Transaction(tx.tx_id().to_owned()),
        Message::NewBlock(block) => {
            let ghost view = block@;
            let (index, timestamp, transactions, previous_hash, hash) = block.into_parts();
            chain.load_block(index, timestamp, transactions, previous_hash, hash);
            assert(chain@.blocks == old(chain)@.blocks.push(view));
            Received::Block(index)
        },
        Message::RequestChain => Received::ChainRequest,
        Message::ResponseChain(_) => Received::Chain,
        Message::Hello { from } => Received::Hello(from),
    }
}

} // verus!
