//! Value-transfer records: validation and the content hash that serves as a
//! transaction's identity.

use vstd::prelude::*;
use crate::bytes::{u64_be_bytes, push_bytes, push_u64_be, bytes_eq};
use crate::hashing::{sha256, sha256_of};

verus! {

/// Why a transaction is rejected.
#[derive(Debug, Clone, Copy, PartialEq, Eq)]
pub enum TransactionError {
    InvalidAmount,
    InvalidAddress,
    SameSenderReceiver,
}

/// A fixed-length 20-byte account identifier, compared by exact byte
/// equality; the core interprets no internal structure.
#[derive(Debug, Clone, Copy, PartialEq, Eq)]
pub struct Address(pub [u8; 20]);

impl Address {
    pub fn new(bytes: [u8; 20]) -> (a: Self)
        ensures
            a.0 == bytes,
    {
        Address(bytes)
    }

    pub fn as_bytes(&self) -> (r: &[u8; 20])
        ensures
            r@ == self.0@,
    {
        &self.0
    }
}

/// An immutable value transfer. The nonce disambiguates otherwise identical
/// transactions and is the mempool's ordering key.
#[derive(Debug, Clone, Copy, PartialEq, Eq)]
pub struct Transaction {
    pub sender: Address,
    pub receiver: Address,
    pub amount: u64,
    pub nonce: u64,
}

/// The validation outcome: a zero amount is always rejected; unless the
/// transaction belongs to a genesis block, sender and receiver must differ.
pub open spec fn tx_check(t: Transaction, is_genesis: bool) -> Result<(), TransactionError> {
    if t.amount == 0 {
        Err(TransactionError::InvalidAmount)
    } else if !is_genesis && t.sender.0@ == t.receiver.0@ {
        Err(TransactionError::SameSenderReceiver)
    } else {
        Ok(())
    }
}

/// The byte string whose SHA-256 digest identifies a transaction: sender and
/// receiver bytes, then the amount and the nonce, each big-endian.
pub open spec fn tx_encoding(t: Transaction) -> Seq<u8> {
    t.sender.0@ + t.receiver.0@ + u64_be_bytes(t.amount) + u64_be_bytes(t.nonce)
}

/// A transaction's identity for deduplication and replay detection.
pub open spec fn content_hash(t: Transaction) -> Seq<u8> {
    sha256_of(tx_encoding(t))
}

/// Appends a transaction's encoding to `buf`.
pub(crate) fn push_tx_encoding(buf: &mut Vec<u8>, t: &Transaction)
    ensures
        final(buf)@ == old(buf)@ + tx_encoding(*t),
{
    push_bytes(buf, &t.sender.0);
    push_bytes(buf, &t.receiver.0);
    push_u64_be(buf, t.amount);
    push_u64_be(buf, t.nonce);
    proof {
        assert(buf@ =~= old(buf)@ + tx_encoding(*t));
    }
}

impl Transaction {
    pub fn new(sender: Address, receiver: Address, amount: u64, nonce: u64) -> (t: Self)
        ensures
            t == (Transaction { sender, receiver, amount, nonce }),
    {
        Transaction { sender, receiver, amount, nonce }
    }

    /// Checks the transaction in isolation; pure, no side effects.
    pub fn validate(&self, is_genesis: bool) -> (r: Result<(), TransactionError>)
        ensures
            r == tx_check(*self, is_genesis),
    {
        if self.amount == 0 {
            return Err(TransactionError::InvalidAmount);
        }
        if !is_genesis && bytes_eq(&self.sender.0, &self.receiver.0) {
            return Err(TransactionError::SameSenderReceiver);
        }
        Ok(())
    }

    pub fn sender(&self) -> (r: &Address)
        ensures
            *r == self.sender,
    {
        &self.sender
    }

    pub fn receiver(&self) -> (r: &Address)
        ensures
            *r == self.receiver,
    {
        &self.receiver
    }

    pub fn amount(&self) -> (r: u64)
        ensures
            r == self.amount,
    {
        self.amount
    }

    pub fn nonce(&self) -> (r: u64)
        ensures
            r == self.nonce,
    {
        self.nonce
    }

    /// The deterministic, order-sensitive content hash over the fields.
    pub fn hash(&self) -> (r: [u8; 32])
        ensures
            r@ == content_hash(*self),
    {
        let mut buf: Vec<u8> = Vec::new();
        push_bytes(&mut buf, &self.sender.0);
        push_bytes(&mut buf, &self.receiver.0);
        push_u64_be(&mut buf, self.amount);
        push_u64_be(&mut buf, self.nonce);
        proof {
            assert(buf@ =~= tx_encoding(*self));
        }
        sha256(&buf)
    }
}

} // verus!
