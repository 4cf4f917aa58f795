//! The chain: an append-only sequence of hash-linked blocks, a mempool for
//! pending transactions, and whole-chain verification.

use vstd::prelude::*;
use crate::block::{
    Block, BlockError, block_check, sealed, mineable, txs_check, lemma_txs_check_ok,
    lemma_sealed_block_verifies,
};
use crate::bytes::bytes_eq;
use crate::mempool::{Mempool, MempoolError, has_tx, insert_index, lemma_remove_take};
use crate::transaction::{Address, Transaction, tx_check, content_hash};

verus! {

/// Why a chain operation fails.
#[derive(Debug, Clone, Copy, PartialEq, Eq)]
pub enum ChainError {
    InvalidGenesis,
    InvalidBlockLink,
    BlockValidation(BlockError),
    EmptyChain,
    MempoolError(MempoolError),
}

/// The most transactions a block assembled from the mempool may carry.
pub const BLOCK_TX_LIMIT: usize = 10;

/// The batch a block assembled from the mempool carries: the pending
/// transactions with the smallest nonces, at most `BLOCK_TX_LIMIT` of them.
pub open spec fn pending_batch(pool: Seq<Transaction>) -> Seq<Transaction> {
    pool.take(
        if BLOCK_TX_LIMIT as int <= pool.len() {
            BLOCK_TX_LIMIT as int
        } else {
            pool.len() as int
        },
    )
}

/// The 32 zero bytes a genesis block must name as its previous hash.
pub open spec fn zero_hash() -> Seq<u8> {
    Seq::new(32, |i: int| 0u8)
}

/// The default genesis transaction: all-zero sender and receiver, amount 1,
/// nonce 0.
pub open spec fn is_default_genesis(t: Transaction) -> bool {
    t.sender.0@ == Seq::new(20, |i: int| 0u8) && t.receiver.0@ == Seq::new(20, |i: int| 0u8)
        && t.amount == 1 && t.nonce == 0
}

/// The linkage-and-validity walk from block `i` on: the first block whose
/// previous hash is not its predecessor's hash, or that fails strict
/// verification, decides the outcome.
pub open spec fn chain_walk(blocks: Seq<Block>, i: int) -> Result<(), ChainError>
    recommends
        1 <= i <= blocks.len(),
    decreases blocks.len() - i,
{
    if i < 0 || i >= blocks.len() {
        Ok(())
    } else if blocks[i].previous_hash@ != blocks[i - 1].hash@ {
        Err(ChainError::InvalidBlockLink)
    } else if block_check(blocks[i], false) is Err {
        Err(ChainError::BlockValidation(block_check(blocks[i], false)->Err_0))
    } else {
        chain_walk(blocks, i + 1)
    }
}

/// Whole-chain verification, in check order: the chain is nonempty, the
/// genesis block names the zero hash and verifies under the genesis
/// relaxation, and every later block links to its predecessor and verifies
/// under the strict rule.
pub open spec fn chain_check(blocks: Seq<Block>) -> Result<(), ChainError> {
    if blocks.len() == 0 {
        Err(ChainError::EmptyChain)
    } else if blocks[0].previous_hash@ != zero_hash() {
        Err(ChainError::InvalidGenesis)
    } else if block_check(blocks[0], true) is Err {
        Err(ChainError::BlockValidation(block_check(blocks[0], true)->Err_0))
    } else {
        chain_walk(blocks, 1)
    }
}

/// An ordered, append-only sequence of blocks with the mempool that feeds
/// it. The fields are public: the chain's invariant is checked by explicit
/// verification rather than enforced continuously, so tests can tamper with
/// the sequence and watch `verify` reject it.
pub struct Chain {
    pub blocks: Vec<Block>,
    pub current_difficulty: u32,
    pub mempool: Mempool,
}

/// Copies a transaction batch.
fn clone_txs(v: &Vec<Transaction>) -> (r: Vec<Transaction>)
    ensures
        r@ == v@,
{
    let mut out: Vec<Transaction> = Vec::new();
    let mut i: usize = 0;
    while i < v.len()
        invariant
            i <= v@.len(),
            out@ == v@.take(i as int),
        decreases v@.len() - i,
    {
        out.push(v[i]);
        i = i + 1;
        proof {
            assert(out@ =~= v@.take(i as int));
        }
    }
    proof {
        assert(v@.take(v@.len() as int) =~= v@);
    }
    out
}

impl Chain {
    /// Builds a chain of one mined genesis block over the supplied or the
    /// default genesis transaction, with an empty mempool. Fails only in the
    /// vanishingly unlikely event that no nonce seals the genesis block.
    pub fn new(difficulty: u32, genesis_tx: Option<Transaction>) -> (r: Result<Chain, ChainError>)
        requires
            difficulty < 64,
        ensures
            r is Ok ==> ({
                let c = r->Ok_0;
                &&& c.blocks@.len() == 1
                &&& sealed(c.blocks@[0])
                &&& c.blocks@[0].previous_hash@ == zero_hash()
                &&& c.blocks@[0].difficulty == difficulty
                &&& c.blocks@[0].transactions@.len() == 1
                &&& (match genesis_tx {
                    Some(t) => c.blocks@[0].transactions@[0] == t,
                    None => is_default_genesis(c.blocks@[0].transactions@[0]),
                })
                &&& (tx_check(c.blocks@[0].transactions@[0], true) is Ok ==> block_check(
                    c.blocks@[0],
                    true,
                ) == Ok::<(), BlockError>(()))
                &&& c.current_difficulty == difficulty
                &&& c.mempool@ == Seq::<Transaction>::empty()
            }),
            r is Err ==> r == Err::<Chain, ChainError>(
                ChainError::BlockValidation(BlockError::InvalidProofOfWork),
            ),
    {
        let gtx = match genesis_tx {
            Some(t) => t,
            None => Transaction::new(Address::new([0u8; 20]), Address::new([0u8; 20]), 1, 0),
        };
        proof {
            if genesis_tx is None {
                assert(gtx.sender.0@ =~= Seq::new(20, |i: int| 0u8));
                assert(gtx.receiver.0@ =~= Seq::new(20, |i: int| 0u8));
            }
        }
        let mut txs: Vec<Transaction> = Vec::new();
        txs.push(gtx);
        let mut genesis_block = match Block::new(txs, [0u8; 32], difficulty) {
            Ok(b) => b,
            Err(_) => {
                proof {
                    assert(false);
                }
                return Err(ChainError::EmptyChain);
            },
        };
        genesis_block.mine();
        if !genesis_block.has_valid_proof() {
            return Err(ChainError::BlockValidation(BlockError::InvalidProofOfWork));
        }
        proof {
            assert(genesis_block.previous_hash@ =~= zero_hash());
            let s = genesis_block.transactions@;
            assert(s.len() == 1 && s.first() == gtx);
            if tx_check(gtx, true) is Ok {
                assert(s.drop_first() =~= Seq::<Transaction>::empty());
                assert(txs_check(Seq::<Transaction>::empty(), true) == Ok::<
                    (),
                    crate::transaction::TransactionError,
                >(()));
                assert(txs_check(s, true) is Ok);
                lemma_sealed_block_verifies(genesis_block, true);
            }
        }
        let mut blocks: Vec<Block> = Vec::new();
        blocks.push(genesis_block);
        Ok(Chain { blocks, current_difficulty: difficulty, mempool: Mempool::new() })
    }

    /// Hands a transaction to the mempool's admission control.
    pub fn submit_transaction(&mut self, transaction: Transaction) -> (r: Result<(), ChainError>)
        ensures
            final(self).blocks@ == old(self).blocks@,
            final(self).current_difficulty == old(self).current_difficulty,
            has_tx(old(self).mempool@, transaction) ==> r == Err::<(), ChainError>(
                ChainError::MempoolError(MempoolError::DuplicateTransaction),
            ) && final(self).mempool@ == old(self).mempool@,
            (!has_tx(old(self).mempool@, transaction) && tx_check(transaction, false) is Err) ==> r
                == Err::<(), ChainError>(ChainError::MempoolError(
                MempoolError::InvalidTransaction,
            )) && final(self).mempool@ == old(self).mempool@,
            (!has_tx(old(self).mempool@, transaction) && tx_check(transaction, false) is Ok) ==> r
                == Ok::<(), ChainError>(()) && final(self).mempool@ == old(self).mempool@.insert(
                insert_index(old(self).mempool@, transaction.nonce),
                transaction,
            ),
    {
        match self.mempool.add_transaction(transaction) {
            Ok(()) => Ok(()),
            Err(e) => Err(ChainError::MempoolError(e)),
        }
    }

    /// Pulls up to `BLOCK_TX_LIMIT` transactions in nonce order from the
    /// mempool and, when any are pending, mines a block over them on top of
    /// the current tail, verifies it, evicts the included transactions and
    /// appends the block. An empty mempool is a no-op, not an error. All or
    /// nothing: on any failure neither the blocks nor the mempool change.
    pub fn add_block(&mut self) -> (r: Result<(), ChainError>)
        requires
            old(self).current_difficulty < 64,
        ensures
            final(self).current_difficulty == old(self).current_difficulty,
            old(self).blocks@.len() == 0 ==> r == Err::<(), ChainError>(ChainError::EmptyChain)
                && final(self).blocks@ == old(self).blocks@ && final(self).mempool@ == old(
                self,
            ).mempool@,
            (old(self).blocks@.len() > 0 && old(self).mempool@.len() == 0) ==> r == Ok::<
                (),
                ChainError,
            >(()) && final(self).blocks@ == old(self).blocks@ && final(self).mempool@ == old(
                self,
            ).mempool@,
            (old(self).blocks@.len() > 0 && old(self).mempool@.len() > 0 && r is Ok) ==> ({
                let b = final(self).blocks@.last();
                &&& final(self).blocks@.len() == old(self).blocks@.len() + 1
                &&& final(self).blocks@.subrange(0, old(self).blocks@.len() as int) == old(
                    self,
                ).blocks@
                &&& sealed(b)
                &&& block_check(b, false) == Ok::<(), BlockError>(())
                &&& b.transactions@ == pending_batch(old(self).mempool@)
                &&& b.previous_hash@ == old(self).blocks@.last().hash@
                &&& b.difficulty == old(self).current_difficulty
                &&& final(self).mempool@ == old(self).mempool@.skip(
                    pending_batch(old(self).mempool@).len() as int,
                )
            }),
            (old(self).blocks@.len() > 0 && old(self).mempool@.len() > 0 && r is Err) ==> r
                == Err::<(), ChainError>(
                ChainError::BlockValidation(BlockError::InvalidProofOfWork),
            ) && final(self).blocks@ == old(self).blocks@ && final(self).mempool@ == old(
                self,
            ).mempool@ && (exists|ts: u64|
                !mineable(
                    ts,
                    pending_batch(old(self).mempool@),
                    old(self).blocks@.last().hash@,
                    old(self).current_difficulty,
                )),
    {
        if self.blocks.len() == 0 {
            return Err(ChainError::EmptyChain);
        }
        let transactions = self.mempool.get_transactions(BLOCK_TX_LIMIT);
        if transactions.len() == 0 {
            return Ok(());
        }
        let previous_hash = self.blocks[self.blocks.len() - 1].hash();
        proof {
            assert(self.blocks@.last() == self.blocks@[self.blocks@.len() - 1]);
        }
        let batch = clone_txs(&transactions);
        let mut new_block = match Block::new(batch, previous_hash, self.current_difficulty) {
            Ok(b) => b,
            Err(_) => {
                proof {
                    assert(false);
                }
                return Err(ChainError::EmptyChain);
            },
        };
        new_block.mine();
        proof {
            lemma_txs_check_ok(new_block.transactions@, false);
        }
        match new_block.verify(false) {
            Ok(()) => {},
            Err(e) => {
                proof {
                    assert(e == BlockError::InvalidProofOfWork);
                    let batch0 = pending_batch(old(self).mempool@);
                    assert(new_block.transactions@ == batch0);
                    assert(!mineable(
                        new_block.timestamp,
                        batch0,
                        old(self).blocks@.last().hash@,
                        old(self).current_difficulty,
                    ));
                }
                return Err(ChainError::BlockValidation(e));
            },
        }
        proof {
            let pool = self.mempool@;
            let k = transactions@.len() as int;
            assert forall|i: int| 0 <= i < k implies has_tx(transactions@, pool[i]) by {
                assert(content_hash(transactions@[i]) == content_hash(pool[i]));
            }
            lemma_remove_take(pool, transactions@, k);
        }
        self.mempool.remove_transactions(&transactions);
        self.blocks.push(new_block);
        proof {
            assert(self.blocks@.subrange(0, old(self).blocks@.len() as int) =~= old(self).blocks@);
        }
        Ok(())
    }

    /// Mines a block over caller-supplied transactions on top of the current
    /// tail, bypassing the mempool entirely: the mempool is never consulted
    /// or changed. On any failure the blocks do not change.
    pub fn add_block_with_transactions(&mut self, transactions: Vec<Transaction>) -> (r: Result<
        (),
        ChainError,
    >)
        requires
            old(self).current_difficulty < 64,
        ensures
            final(self).current_difficulty == old(self).current_difficulty,
            final(self).mempool@ == old(self).mempool@,
            old(self).blocks@.len() == 0 ==> r == Err::<(), ChainError>(ChainError::EmptyChain)
                && final(self).blocks@ == old(self).blocks@,
            (old(self).blocks@.len() > 0 && transactions@.len() == 0) ==> r == Err::<
                (),
                ChainError,
            >(ChainError::BlockValidation(BlockError::EmptyTransactions)) && final(self).blocks@
                == old(self).blocks@,
            (old(self).blocks@.len() > 0 && transactions@.len() > 0 && txs_check(
                transactions@,
                false,
            ) is Err) ==> r == Err::<(), ChainError>(
                ChainError::BlockValidation(
                    BlockError::TransactionError(txs_check(transactions@, false)->Err_0),
                ),
            ) && final(self).blocks@ == old(self).blocks@,
            (old(self).blocks@.len() > 0 && transactions@.len() > 0 && txs_check(
                transactions@,
                false,
            ) is Ok && r is Ok) ==> ({
                let b = final(self).blocks@.last();
                &&& final(self).blocks@.len() == old(self).blocks@.len() + 1
                &&& final(self).blocks@.subrange(0, old(self).blocks@.len() as int) == old(
                    self,
                ).blocks@
                &&& sealed(b)
                &&& block_check(b, false) == Ok::<(), BlockError>(())
                &&& b.transactions@ == transactions@
                &&& b.previous_hash@ == old(self).blocks@.last().hash@
                &&& b.difficulty == old(self).current_difficulty
            }),
            (old(self).blocks@.len() > 0 && transactions@.len() > 0 && txs_check(
                transactions@,
                false,
            ) is Ok && r is Err) ==> r == Err::<(), ChainError>(
                ChainError::BlockValidation(BlockError::InvalidProofOfWork),
            ) && final(self).blocks@ == old(self).blocks@ && (exists|ts: u64|
                !mineable(
                    ts,
                    transactions@,
                    old(self).blocks@.last().hash@,
                    old(self).current_difficulty,
                )),
    {
        if self.blocks.len() == 0 {
            return Err(ChainError::EmptyChain);
        }
        let previous_hash = self.blocks[self.blocks.len() - 1].hash();
        proof {
            assert(self.blocks@.last() == self.blocks@[self.blocks@.len() - 1]);
        }
        let mut new_block = match Block::new(transactions, previous_hash, self.current_difficulty) {
            Ok(b) => b,
            Err(e) => {
                return Err(ChainError::BlockValidation(e));
            },
        };
        new_block.mine();
        match new_block.verify(false) {
            Ok(()) => {},
            Err(e) => {
                return Err(ChainError::BlockValidation(e));
            },
        }
        self.blocks.push(new_block);
        proof {
            assert(self.blocks@.subrange(0, old(self).blocks@.len() as int) =~= old(self).blocks@);
        }
        Ok(())
    }

    /// Walks the whole sequence independently of mining: fails fast on an
    /// empty chain, checks the genesis block's zero previous hash and its
    /// verification under the genesis relaxation, then every link and every
    /// later block under the strict rule.
    pub fn verify(&self) -> (r: Result<(), ChainError>)
        requires
            forall|i: int| 0 <= i < self.blocks@.len() ==> self.blocks@[i].difficulty < 64,
        ensures
            r == chain_check(self.blocks@),
    {
        if self.blocks.len() == 0 {
            return Err(ChainError::EmptyChain);
        }
        let zero = [0u8; 32];
        proof {
            assert(zero@ =~= zero_hash());
        }
        let genesis_previous = self.blocks[0].previous_hash();
        if !bytes_eq(&genesis_previous, &zero) {
            return Err(ChainError::InvalidGenesis);
        }
        match self.blocks[0].verify(true) {
            Err(e) => {
                return Err(ChainError::BlockValidation(e));
            },
            Ok(()) => {},
        }
        let mut i: usize = 1;
        while i < self.blocks.len()
            invariant
                1 <= i <= self.blocks@.len(),
                forall|j: int| 0 <= j < self.blocks@.len() ==> self.blocks@[j].difficulty < 64,
                chain_check(self.blocks@) == chain_walk(self.blocks@, i as int),
            decreases self.blocks@.len() - i,
        {
            let previous_hash = self.blocks[i - 1].hash();
            let link = self.blocks[i].previous_hash();
            if !bytes_eq(&link, &previous_hash) {
                return Err(ChainError::InvalidBlockLink);
            }
            match self.blocks[i].verify(false) {
                Err(e) => {
                    return Err(ChainError::BlockValidation(e));
                },
                Ok(()) => {},
            }
            i = i + 1;
        }
        Ok(())
    }

    pub fn len(&self) -> (r: usize)
        ensures
            r == self.blocks@.len(),
    {
        self.blocks.len()
    }

    pub fn is_empty(&self) -> (r: bool)
        ensures
            r == (self.blocks@.len() == 0),
    {
        self.blocks.len() == 0
    }

    pub fn get_block(&self, index: usize) -> (r: Option<&Block>)
        ensures
            index < self.blocks@.len() ==> r is Some && *r->Some_0 == self.blocks@[index as int],
            index >= self.blocks@.len() ==> r is None,
    {
        if index < self.blocks.len() {
            Some(&self.blocks[index])
        } else {
            None
        }
    }

    pub fn current_difficulty(&self) -> (r: u32)
        ensures
            r == self.current_difficulty,
    {
        self.current_difficulty
    }

    pub fn latest_block(&self) -> (r: Option<&Block>)
        ensures
            self.blocks@.len() > 0 ==> r is Some && *r->Some_0 == self.blocks@.last(),
            self.blocks@.len() == 0 ==> r is None,
    {
        if self.blocks.len() > 0 {
            Some(&self.blocks[self.blocks.len() - 1])
        } else {
            None
        }
    }
}

/// Law: a fresh chain — one sealed genesis block naming the zero previous
/// hash, whose transactions are nonempty and pass the genesis rule — passes
/// whole-chain verification.
pub proof fn lemma_fresh_chain_verifies(c: Chain)
    ensures
        (c.blocks@.len() == 1 && sealed(c.blocks@[0]) && c.blocks@[0].previous_hash@ == zero_hash()
            && c.blocks@[0].transactions@.len() > 0 && txs_check(
            c.blocks@[0].transactions@,
            true,
        ) is Ok) ==> chain_check(c.blocks@) == Ok::<(), ChainError>(()),
{
    if c.blocks@.len() == 1 && sealed(c.blocks@[0]) && c.blocks@[0].previous_hash@ == zero_hash()
        && c.blocks@[0].transactions@.len() > 0 && txs_check(c.blocks@[0].transactions@, true) is Ok {
        lemma_sealed_block_verifies(c.blocks@[0], true);
    }
}

/// Walking a valid tail is not disturbed by appending a block that links to
/// the last block and verifies.
proof fn lemma_walk_push(s: Seq<Block>, b: Block, i: int)
    requires
        1 <= i <= s.len(),
        chain_walk(s, i) is Ok,
        s.len() > 0,
        b.previous_hash@ == s.last().hash@,
        block_check(b, false) is Ok,
    ensures
        chain_walk(s.push(b), i) == Ok::<(), ChainError>(()),
    decreases s.len() - i,
{
    let s2 = s.push(b);
    if i == s.len() {
        assert(s2[i] == b);
        assert(s2[i - 1] == s[i - 1]);
        assert(s[i - 1] == s.last());
        assert(chain_walk(s2, i + 1) == Ok::<(), ChainError>(()));
    } else {
        assert(s2[i] == s[i]);
        assert(s2[i - 1] == s[i - 1]);
        lemma_walk_push(s, b, i + 1);
    }
}

/// Law: appending a block that names the current tail's hash as its previous
/// hash and passes strict verification keeps the whole chain verifying.
pub proof fn lemma_chain_extend(blocks: Seq<Block>, b: Block)
    ensures
        (chain_check(blocks) == Ok::<(), ChainError>(()) && blocks.len() > 0 && b.previous_hash@
            == blocks.last().hash@ && block_check(b, false) == Ok::<(), BlockError>(()))
            ==> chain_check(blocks.push(b)) == Ok::<(), ChainError>(()),
{
    if chain_check(blocks) == Ok::<(), ChainError>(()) && blocks.len() > 0 && b.previous_hash@
        == blocks.last().hash@ && block_check(b, false) == Ok::<(), BlockError>(()) {
        let s2 = blocks.push(b);
        assert(s2[0] == blocks[0]);
        assert(blocks[0].previous_hash@ == zero_hash());
        assert(block_check(blocks[0], true) is Ok);
        assert(chain_walk(blocks, 1) is Ok);
        lemma_walk_push(blocks, b, 1);
        assert(chain_check(s2) == chain_walk(s2, 1));
    }
}

} // verus!
