//! The chain as the engine sees it.

use crate::transaction::{OutPoint, Transaction};
use vstd::prelude::*;

verus! {

/// A call to the chain that did not get an answer.
#[derive(Clone, Debug, PartialEq, Eq)]
pub struct OracleError {
    pub reason: String,
}

/// An output that nothing has spent yet.
#[derive(Clone, Debug, PartialEq, Eq)]
pub struct Unspent {
    pub outpoint: OutPoint,
    /// Amount in satoshis.
    pub value: u64,
    /// Height of the block that holds it, 0 while unconfirmed.
    pub height: u64,
}

/// Read access to the chain, and the one way to write to it.
///
/// Nothing is assumed of an implementation: what the engine proves, it proves
/// for every answer.
pub trait ChainOracle {
    /// The transaction with this identifier, `None` if the chain has none.
    fn get_tx(&mut self, txid: &[u8; 32]) -> Result<Option<Transaction>, OracleError>;

    /// The unspent outputs that pay to this script.
    fn list_unspent(&mut self, script_pubkey: &Vec<u8>) -> Result<Vec<Unspent>, OracleError>;

    /// The fee rate that gets a transaction into the next block, in satoshis
    /// per 1000 virtual bytes. Where the chain has no estimate the answer is
    /// an error: every number that comes back is taken as a rate.
    fn estimate_fee_next_block(&mut self) -> Result<i64, OracleError>;

    /// Publishes a transaction in its consensus encoding, and gives back its
    /// identifier.
    fn broadcast(&mut self, raw: &Vec<u8>) -> Result<[u8; 32], OracleError>;
}

} // verus!
