//! Blocks: content hashing over the block's fields, the proof-of-work search,
//! and structural self-verification.

use vstd::prelude::*;
use crate::bytes::{u64_be_bytes, push_bytes, push_u64_be, bytes_eq};
use crate::hashing::{sha256, sha256_of};
use crate::clock::now_unix_seconds;
use crate::transaction::{Transaction, TransactionError, tx_check, tx_encoding, push_tx_encoding};

verus! {

/// Why a block is rejected.
#[derive(Debug, Clone, Copy, PartialEq, Eq)]
pub enum BlockError {
    InvalidHash,
    InvalidPreviousHash,
    InvalidProofOfWork,
    InvalidDifficulty,
    EmptyTransactions,
    TransactionError(TransactionError),
}

/// A container of transactions, hash-linked to its predecessor and sealed by
/// proof-of-work. Created with `nonce = 0` and the hash of its fields; mining
/// then searches for a nonce whose hash meets the difficulty target. The
/// fields are public so that integrity checking can be exercised against
/// arbitrary (including tampered) field values; `verify` never trusts them.
#[derive(Debug, Clone)]
pub struct Block {
    /// Seconds since the Unix epoch, captured at construction.
    pub timestamp: u64,
    pub transactions: Vec<Transaction>,
    pub previous_hash: [u8; 32],
    pub hash: [u8; 32],
    pub nonce: u64,
    /// The number of leading zero bits required of the hash.
    pub difficulty: u32,
}

/// The concatenated encodings of a sequence of transactions, in order.
pub open spec fn txs_encoding(txs: Seq<Transaction>) -> Seq<u8>
    decreases txs.len(),
{
    if txs.len() == 0 {
        Seq::empty()
    } else {
        txs_encoding(txs.drop_last()) + tx_encoding(txs.last())
    }
}

/// The byte string a block's hash is computed over: the timestamp, every
/// transaction in sequence order, the previous hash, and the nonce.
pub open spec fn block_encoding(
    timestamp: u64,
    txs: Seq<Transaction>,
    previous_hash: Seq<u8>,
    nonce: u64,
) -> Seq<u8> {
    u64_be_bytes(timestamp) + txs_encoding(txs) + previous_hash + u64_be_bytes(nonce)
}

/// The digest a block's stored hash must equal: a function of the hashed
/// fields alone (the stored hash and the difficulty take no part).
pub open spec fn block_digest(b: Block) -> Seq<u8> {
    sha256_of(block_encoding(b.timestamp, b.transactions@, b.previous_hash@, b.nonce))
}

/// The numeric value of a hash's first 8 bytes, read big-endian.
pub open spec fn hash_prefix(h: Seq<u8>) -> int
    recommends
        h.len() >= 8,
{
    h[0] * 0x100000000000000 + h[1] * 0x1000000000000 + h[2] * 0x10000000000 + h[3] * 0x100000000
        + h[4] * 0x1000000 + h[5] * 0x10000 + h[6] * 0x100 + h[7]
}

/// The largest prefix value allowed under a difficulty: requiring the prefix
/// to stay at or below this value is requiring that many leading zero bits.
pub open spec fn pow_target(difficulty: u32) -> u64
    recommends
        difficulty < 64,
{
    u64::MAX >> (difficulty as u64)
}

/// The stored hash satisfies the difficulty target.
pub open spec fn proof_ok(b: Block) -> bool {
    hash_prefix(b.hash@) <= pow_target(b.difficulty)
}

/// A block is sealed when its stored hash is the digest of its current fields
/// and satisfies the difficulty target.
pub open spec fn sealed(b: Block) -> bool {
    b.hash@ == block_digest(b) && proof_ok(b)
}

/// Some nonce seals a block with these fields at this difficulty. For any
/// real difficulty this is overwhelmingly likely, but it is not a theorem:
/// the digest is uninterpreted, and even for SHA-256 itself it is not known.
pub open spec fn mineable(
    timestamp: u64,
    txs: Seq<Transaction>,
    previous_hash: Seq<u8>,
    difficulty: u32,
) -> bool {
    exists|n: u64|
        hash_prefix(sha256_of(block_encoding(timestamp, txs, previous_hash, n))) <= pow_target(
            difficulty,
        )
}

/// The nonce tried `a` steps after `base`, wrapping on overflow.
spec fn nonce_after(base: u64, a: u64) -> u64 {
    if base + a > u64::MAX {
        (base + a - 0x1_0000_0000_0000_0000) as u64
    } else {
        (base + a) as u64
    }
}

/// The first validation failure among the transactions, if any.
pub open spec fn txs_check(txs: Seq<Transaction>, is_genesis: bool) -> Result<
    (),
    TransactionError,
>
    decreases txs.len(),
{
    if txs.len() == 0 {
        Ok(())
    } else if tx_check(txs.first(), is_genesis) is Err {
        tx_check(txs.first(), is_genesis)
    } else {
        txs_check(txs.drop_first(), is_genesis)
    }
}

/// The full verification outcome, in the order the checks run: presence of
/// transactions, each transaction, hash integrity, then proof-of-work.
pub open spec fn block_check(b: Block, is_genesis: bool) -> Result<(), BlockError> {
    if b.transactions@.len() == 0 {
        Err(BlockError::EmptyTransactions)
    } else if txs_check(b.transactions@, is_genesis) is Err {
        Err(BlockError::TransactionError(txs_check(b.transactions@, is_genesis)->Err_0))
    } else if b.hash@ != block_digest(b) {
        Err(BlockError::InvalidHash)
    } else if !proof_ok(b) {
        Err(BlockError::InvalidProofOfWork)
    } else {
        Ok(())
    }
}

/// Skipping past transactions that pass validation does not change the
/// outcome of the walk for the first failure.
proof fn lemma_txs_check_skip(txs: Seq<Transaction>, is_genesis: bool, i: int)
    requires
        0 <= i <= txs.len(),
        forall|j: int| 0 <= j < i ==> tx_check(txs[j], is_genesis) is Ok,
    ensures
        txs_check(txs, is_genesis) == txs_check(txs.skip(i), is_genesis),
    decreases i,
{
    if i == 0 {
        assert(txs.skip(0) =~= txs);
    } else {
        assert(txs.first() == txs[0]);
        lemma_txs_check_skip(txs.drop_first(), is_genesis, i - 1);
        assert(txs.drop_first().skip(i - 1) =~= txs.skip(i));
    }
}

/// The transaction walk succeeds exactly when every transaction passes.
pub proof fn lemma_txs_check_ok(txs: Seq<Transaction>, is_genesis: bool)
    ensures
        txs_check(txs, is_genesis) is Ok <==> (forall|i: int|
            0 <= i < txs.len() ==> tx_check(txs[i], is_genesis) is Ok),
    decreases txs.len(),
{
    if txs.len() > 0 {
        lemma_txs_check_ok(txs.drop_first(), is_genesis);
        assert(txs.first() == txs[0]);
        if txs_check(txs, is_genesis) is Ok {
            assert forall|i: int| 0 <= i < txs.len() implies tx_check(txs[i], is_genesis) is Ok by {
                if i > 0 {
                    assert(txs.drop_first()[i - 1] == txs[i]);
                }
            }
        }
        if forall|i: int| 0 <= i < txs.len() ==> tx_check(txs[i], is_genesis) is Ok {
            assert forall|i: int| 0 <= i < txs.drop_first().len() implies tx_check(
                txs.drop_first()[i],
                is_genesis,
            ) is Ok by {
                assert(txs.drop_first()[i] == txs[i + 1]);
            }
        }
    }
}

/// Computes the SHA-256 digest of the block encoding of the given fields.
fn compute_digest(
    timestamp: u64,
    transactions: &Vec<Transaction>,
    previous_hash: &[u8; 32],
    nonce: u64,
) -> (r: [u8; 32])
    ensures
        r@ == sha256_of(block_encoding(timestamp, transactions@, previous_hash@, nonce)),
{
    let mut buf: Vec<u8> = Vec::new();
    push_u64_be(&mut buf, timestamp);
    let mut i: usize = 0;
    while i < transactions.len()
        invariant
            i <= transactions@.len(),
            buf@ == u64_be_bytes(timestamp) + txs_encoding(transactions@.take(i as int)),
        decreases transactions@.len() - i,
    {
        let tx = transactions[i];
        push_tx_encoding(&mut buf, &tx);
        proof {
            assert(transactions@.take(i + 1).drop_last() =~= transactions@.take(i as int));
            assert(transactions@.take(i + 1).last() == transactions@[i as int]);
            assert(buf@ =~= u64_be_bytes(timestamp) + txs_encoding(transactions@.take(i + 1)));
        }
        i = i + 1;
    }
    proof {
        assert(transactions@.take(transactions@.len() as int) =~= transactions@);
    }
    push_bytes(&mut buf, previous_hash);
    push_u64_be(&mut buf, nonce);
    proof {
        assert(buf@ =~= block_encoding(timestamp, transactions@, previous_hash@, nonce));
    }
    sha256(&buf)
}

/// Reads the first 8 bytes of a hash as a big-endian number.
fn prefix_value(h: &[u8; 32]) -> (r: u64)
    ensures
        r == hash_prefix(h@),
{
    (h[0] as u64) * 0x100000000000000 + (h[1] as u64) * 0x1000000000000 + (h[2] as u64)
        * 0x10000000000 + (h[3] as u64) * 0x100000000 + (h[4] as u64) * 0x1000000 + (h[5] as u64)
        * 0x10000 + (h[6] as u64) * 0x100 + (h[7] as u64)
}

impl Block {
    /// Builds a block over the given transactions, stamped with the current
    /// wall-clock time, with `nonce = 0` and the hash of its fields. Fails
    /// exactly when no transactions are given.
    pub fn new(transactions: Vec<Transaction>, previous_hash: [u8; 32], difficulty: u32) -> (r:
        Result<Block, BlockError>)
        ensures
            r is Err <==> transactions@.len() == 0,
            r is Err ==> r == Err::<Block, BlockError>(BlockError::EmptyTransactions),
            r is Ok ==> ({
                let b = r->Ok_0;
                &&& b.transactions@ == transactions@
                &&& b.previous_hash == previous_hash
                &&& b.nonce == 0
                &&& b.difficulty == difficulty
                &&& b.hash@ == block_digest(b)
            }),
    {
        if transactions.len() == 0 {
            return Err(BlockError::EmptyTransactions);
        }
        let timestamp = now_unix_seconds();
        let hash = compute_digest(timestamp, &transactions, &previous_hash, 0);
        Ok(Block { timestamp, transactions, previous_hash, hash, nonce: 0, difficulty })
    }

    /// Recomputes the hash from the current field values: a pure function of
    /// the timestamp, transactions, previous hash and nonce.
    pub fn calculate_hash(&self) -> (r: [u8; 32])
        ensures
            r@ == block_digest(*self),
    {
        compute_digest(self.timestamp, &self.transactions, &self.previous_hash, self.nonce)
    }

    /// Searches for a nonce whose hash meets the difficulty target and stores
    /// that hash: the block is then sealed. All other fields are kept. The
    /// search starts at the current nonce, wraps on overflow, and tries each
    /// of the 2^64 nonces once; its expected length grows geometrically with
    /// the difficulty. In the vanishingly unlikely event that no nonce at all
    /// seals the block, the nonce and hash are left as they were, so that
    /// `verify` reports the block unsealed.
    pub fn mine(&mut self)
        requires
            old(self).difficulty < 64,
        ensures
            final(self).timestamp == old(self).timestamp,
            final(self).transactions@ == old(self).transactions@,
            final(self).previous_hash == old(self).previous_hash,
            final(self).difficulty == old(self).difficulty,
            sealed(*final(self)) || (final(self).nonce == old(self).nonce && final(self).hash
                == old(self).hash),
            sealed(*final(self)) || !mineable(
                old(self).timestamp,
                old(self).transactions@,
                old(self).previous_hash@,
                old(self).difficulty,
            ),
    {
        let target: u64 = u64::MAX >> (self.difficulty as u64);
        let base: u64 = self.nonce;
        let mut attempts: u64 = 0;
        loop
            invariant
                self.difficulty < 64,
                self.timestamp == old(self).timestamp,
                self.transactions@ == old(self).transactions@,
                self.previous_hash == old(self).previous_hash,
                self.difficulty == old(self).difficulty,
                self.hash == old(self).hash,
                base == old(self).nonce,
                target == pow_target(self.difficulty),
                self.nonce == nonce_after(base, attempts),
                forall|a: u64|
                    a < attempts ==> hash_prefix(
                        sha256_of(
                            block_encoding(
                                self.timestamp,
                                self.transactions@,
                                self.previous_hash@,
                                #[trigger] nonce_after(base, a),
                            ),
                        ),
                    ) > pow_target(self.difficulty),
            decreases u64::MAX - attempts,
        {
            let hash = compute_digest(
                self.timestamp,
                &self.transactions,
                &self.previous_hash,
                self.nonce,
            );
            let value = prefix_value(&hash);
            if value <= target {
                self.hash = hash;
                return;
            }
            if attempts == u64::MAX {
                proof {
                    assert forall|n: u64|
                        hash_prefix(
                            sha256_of(
                                block_encoding(
                                    self.timestamp,
                                    self.transactions@,
                                    self.previous_hash@,
                                    n,
                                ),
                            ),
                        ) > pow_target(self.difficulty) by {
                        let a: u64 = if n >= base {
                            (n - base) as u64
                        } else {
                            (n - base + 0x1_0000_0000_0000_0000) as u64
                        };
                        assert(nonce_after(base, a) == n);
                        if a < u64::MAX {
                            assert(hash_prefix(
                                sha256_of(
                                    block_encoding(
                                        self.timestamp,
                                        self.transactions@,
                                        self.previous_hash@,
                                        nonce_after(base, a),
                                    ),
                                ),
                            ) > pow_target(self.difficulty));
                        }
                    }
                }
                self.nonce = base;
                return;
            }
            attempts = attempts + 1;
            self.nonce = self.nonce.wrapping_add(1);
        }
    }

    /// Checks only the stored hash against the difficulty target, without
    /// recomputing the hash.
    pub fn has_valid_proof(&self) -> (r: bool)
        requires
            self.difficulty < 64,
        ensures
            r == proof_ok(*self),
    {
        let value = prefix_value(&self.hash);
        value <= (u64::MAX >> (self.difficulty as u64))
    }

    /// Full structural verification, in order: the block holds transactions,
    /// each passes validation under the given genesis flag, the stored hash
    /// equals the recomputation from the current fields, and the hash meets
    /// the difficulty target. Returns the first failure.
    pub fn verify(&self, is_genesis: bool) -> (r: Result<(), BlockError>)
        requires
            self.difficulty < 64,
        ensures
            r == block_check(*self, is_genesis),
    {
        if self.transactions.len() == 0 {
            return Err(BlockError::EmptyTransactions);
        }
        let mut i: usize = 0;
        while i < self.transactions.len()
            invariant
                i <= self.transactions@.len(),
                forall|j: int| 0 <= j < i ==> tx_check(self.transactions@[j], is_genesis) is Ok,
            decreases self.transactions@.len() - i,
        {
            let tx = self.transactions[i];
            match tx.validate(is_genesis) {
                Err(e) => {
                    proof {
                        lemma_txs_check_skip(self.transactions@, is_genesis, i as int);
                        assert(self.transactions@.skip(i as int).first()
                            == self.transactions@[i as int]);
                    }
                    return Err(BlockError::TransactionError(e));
                },
                Ok(()) => {},
            }
            i = i + 1;
        }
        proof {
            lemma_txs_check_skip(self.transactions@, is_genesis, self.transactions@.len() as int);
            assert(self.transactions@.skip(self.transactions@.len() as int)
                =~= Seq::<Transaction>::empty());
        }
        let recomputed = self.calculate_hash();
        if !bytes_eq(&self.hash, &recomputed) {
            return Err(BlockError::InvalidHash);
        }
        if !self.has_valid_proof() {
            return Err(BlockError::InvalidProofOfWork);
        }
        Ok(())
    }

    pub fn hash(&self) -> (r: [u8; 32])
        ensures
            r == self.hash,
    {
        self.hash
    }

    pub fn previous_hash(&self) -> (r: [u8; 32])
        ensures
            r == self.previous_hash,
    {
        self.previous_hash
    }

    pub fn transactions(&self) -> (r: &Vec<Transaction>)
        ensures
            r@ == self.transactions@,
    {
        &self.transactions
    }

    pub fn timestamp(&self) -> (r: u64)
        ensures
            r == self.timestamp,
    {
        self.timestamp
    }

    pub fn nonce(&self) -> (r: u64)
        ensures
            r == self.nonce,
    {
        self.nonce
    }

    pub fn difficulty(&self) -> (r: u32)
        ensures
            r == self.difficulty,
    {
        self.difficulty
    }

    /// Replaces the transactions without resealing; lets tests exercise
    /// `verify` against a block tampered with after sealing.
    pub fn set_transactions_for_testing(&mut self, transactions: Vec<Transaction>)
        ensures
            final(self).transactions@ == transactions@,
            final(self).timestamp == old(self).timestamp,
            final(self).previous_hash == old(self).previous_hash,
            final(self).hash == old(self).hash,
            final(self).nonce == old(self).nonce,
            final(self).difficulty == old(self).difficulty,
    {
        self.transactions = transactions;
    }
}

/// Law: a sealed block with a nonempty sequence of individually valid
/// transactions passes full verification.
pub proof fn lemma_sealed_block_verifies(b: Block, is_genesis: bool)
    ensures
        (b.transactions@.len() > 0 && txs_check(b.transactions@, is_genesis) is Ok && sealed(b))
            ==> block_check(b, is_genesis) == Ok::<(), BlockError>(()),
{
}

/// Law: the recomputed hash is a function of the hashed fields alone. Two
/// blocks that agree on timestamp, transactions, previous hash and nonce have
/// the same digest, whatever their stored hashes or difficulties.
pub proof fn lemma_digest_deterministic(b1: Block, b2: Block)
    requires
        b1.timestamp == b2.timestamp,
        b1.transactions@ == b2.transactions@,
        b1.previous_hash@ == b2.previous_hash@,
        b1.nonce == b2.nonce,
    ensures
        block_digest(b1) == block_digest(b2),
{
}

/// Law: once a block's stored hash no longer matches the digest of its
/// current fields — as after tampering with a transaction, the previous hash
/// or the nonce of a sealed block — verification fails with `InvalidHash`,
/// before proof-of-work is consulted, provided the transactions themselves
/// still pass validation.
pub proof fn lemma_tamper_detected(b: Block, is_genesis: bool)
    ensures
        (b.transactions@.len() > 0 && txs_check(b.transactions@, is_genesis) is Ok && b.hash@
            != block_digest(b)) ==> block_check(b, is_genesis) == Err::<
            (),
            BlockError,
        >(BlockError::InvalidHash),
{
}

} // verus!
