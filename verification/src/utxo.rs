//! An unspent-output record: a data shape kept for embedders; no core logic
//! consumes it.

use vstd::prelude::*;
use crate::transaction::Address;

verus! {

/// A spendable output: its identifier, owner, worth, and where it was
/// created.
#[derive(Debug, Clone, Copy)]
pub struct UTXO {
    pub utxo_id: [u8; 32],
    pub owner: Address,
    pub amount: u64,
    pub block_created: u64,
    pub tx_index: u32,
}

impl UTXO {
    pub fn new(utxo_id: [u8; 32], owner: Address, amount: u64, block_created: u64, tx_index: u32)
        -> (u: Self)
        ensures
            u.utxo_id == utxo_id,
            u.owner == owner,
            u.amount == amount,
            u.block_created == block_created,
            u.tx_index == tx_index,
    {
        UTXO { utxo_id, owner, amount, block_created, tx_index }
    }

    pub fn utxo_id(&self) -> (r: &[u8; 32])
        ensures
            r@ == self.utxo_id@,
    {
        &self.utxo_id
    }

    pub fn owner(&self) -> (r: &Address)
        ensures
            *r == self.owner,
    {
        &self.owner
    }

    pub fn amount(&self) -> (r: u64)
        ensures
            r == self.amount,
    {
        self.amount
    }

    pub fn block_created(&self) -> (r: u64)
        ensures
            r == self.block_created,
    {
        self.block_created
    }

    pub fn tx_index(&self) -> (r: u32)
        ensures
            r == self.tx_index,
    {
        self.tx_index
    }
}

} // verus!
