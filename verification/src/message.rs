//! The messages that nodes exchange.

use vstd::prelude::*;
use crate::block::Block;
use crate::transaction::Transaction;

verus! {

/// A message between nodes.
#[derive(Clone, Debug)]
pub enum Message {
    NewBlock(Block),
    NewTransaction(Transaction),
    RequestChain,
    ResponseChain(Vec<Block>),
    Hello { from: String },
}

} // verus!
