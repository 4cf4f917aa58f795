//! The mempool: admission-controlled holding area for not-yet-included
//! transactions, yielding them in ascending nonce order for block assembly.

use vstd::prelude::*;
use crate::bytes::bytes_eq;
use crate::transaction::{Transaction, tx_check, content_hash};

verus! {

/// Why a transaction is refused admission.
#[derive(Debug, Clone, Copy, PartialEq, Eq)]
pub enum MempoolError {
    DuplicateTransaction,
    InvalidTransaction,
}

/// The pool's entries are sorted by ascending nonce.
pub open spec fn nonce_sorted(s: Seq<Transaction>) -> bool {
    forall|i: int, j: int| 0 <= i < j < s.len() ==> s[i].nonce <= s[j].nonce
}

/// No two entries share a content hash.
pub open spec fn hashes_distinct(s: Seq<Transaction>) -> bool {
    forall|i: int, j: int| 0 <= i < j < s.len() ==> content_hash(s[i]) != content_hash(s[j])
}

/// Every entry passes non-genesis validation.
pub open spec fn all_valid(s: Seq<Transaction>) -> bool {
    forall|i: int| 0 <= i < s.len() ==> tx_check(s[i], false) is Ok
}

/// Some entry of `s` shares `t`'s content hash: membership as the pool sees
/// it, by identity rather than by field equality.
pub open spec fn has_tx(s: Seq<Transaction>, t: Transaction) -> bool {
    exists|i: int| 0 <= i < s.len() && content_hash(s[i]) == content_hash(t)
}

/// The position a newly admitted entry takes: after every entry whose nonce
/// is not larger, so entries with equal nonces keep admission order.
pub open spec fn insert_index(s: Seq<Transaction>, nonce: u64) -> int
    decreases s.len(),
{
    if s.len() == 0 {
        0
    } else if s[0].nonce <= nonce {
        1 + insert_index(s.drop_first(), nonce)
    } else {
        0
    }
}

/// The pool after evicting every entry whose content hash appears in `rm`.
pub open spec fn remove_all(s: Seq<Transaction>, rm: Seq<Transaction>) -> Seq<Transaction>
    decreases s.len(),
{
    if s.len() == 0 {
        Seq::empty()
    } else {
        let rest = remove_all(s.drop_last(), rm);
        if has_tx(rm, s.last()) {
            rest
        } else {
            rest.push(s.last())
        }
    }
}

/// Eviction keeps a selection of the original entries in their original
/// relative order, so it preserves sortedness, hash-distinctness and
/// validity.
proof fn lemma_remove_all_props(s: Seq<Transaction>, rm: Seq<Transaction>)
    ensures
        forall|k: int|
            0 <= k < remove_all(s, rm).len() ==> exists|j: int|
                0 <= j < s.len() && s[j] == #[trigger] remove_all(s, rm)[k],
        nonce_sorted(s) ==> nonce_sorted(remove_all(s, rm)),
        hashes_distinct(s) ==> hashes_distinct(remove_all(s, rm)),
        all_valid(s) ==> all_valid(remove_all(s, rm)),
        forall|t: Transaction| #[trigger] has_tx(remove_all(s, rm), t) ==> has_tx(s, t),
    decreases s.len(),
{
    if s.len() > 0 {
        lemma_remove_all_props(s.drop_last(), rm);
        assert(forall|j: int| 0 <= j < s.drop_last().len() ==> s.drop_last()[j] == s[j]);
        let r = remove_all(s, rm);
        let rest = remove_all(s.drop_last(), rm);
        if !has_tx(rm, s.last()) {
            assert(r == rest.push(s.last()));
            assert(s.last() == s[s.len() - 1]);
            if nonce_sorted(s) {
                assert(nonce_sorted(s.drop_last()));
                assert forall|i: int, j: int| 0 <= i < j < r.len() implies r[i].nonce
                    <= r[j].nonce by {
                    if j == r.len() - 1 {
                        let jj = choose|jj: int| 0 <= jj < s.drop_last().len() && s.drop_last()[jj]
                            == rest[i];
                        assert(s[jj].nonce <= s[s.len() - 1].nonce);
                    }
                }
            }
            if hashes_distinct(s) {
                assert(hashes_distinct(s.drop_last()));
                assert forall|i: int, j: int| 0 <= i < j < r.len() implies content_hash(r[i])
                    != content_hash(r[j]) by {
                    if j == r.len() - 1 {
                        let jj = choose|jj: int| 0 <= jj < s.drop_last().len() && s.drop_last()[jj]
                            == rest[i];
                        assert(content_hash(s[jj]) != content_hash(s[s.len() - 1]));
                    }
                }
            }
            if all_valid(s) {
                assert(all_valid(s.drop_last()));
                assert forall|i: int| 0 <= i < r.len() implies tx_check(r[i], false) is Ok by {
                    if i < r.len() - 1 {
                        assert(rest[i] == r[i]);
                    }
                }
            }
        } else {
            if nonce_sorted(s) {
                assert(nonce_sorted(s.drop_last()));
            }
            if hashes_distinct(s) {
                assert(hashes_distinct(s.drop_last()));
            }
            if all_valid(s) {
                assert(all_valid(s.drop_last()));
            }
        }
        assert forall|t: Transaction| #[trigger] has_tx(r, t) implies has_tx(s, t) by {
            let k = choose|k: int| 0 <= k < r.len() && content_hash(r[k]) == content_hash(t);
            let j = choose|j: int| 0 <= j < s.len() && s[j] == r[k];
            assert(content_hash(s[j]) == content_hash(t));
        }
    }
}

/// Law: an inserted transaction is a member of the pool, by content hash —
/// so admitting the same transaction again finds the duplicate.
pub proof fn lemma_insert_makes_member(s: Seq<Transaction>, i: int, t: Transaction)
    requires
        0 <= i <= s.len(),
    ensures
        has_tx(s.insert(i, t), t),
{
    assert(s.insert(i, t)[i] == t);
}

/// Law: eviction is complete: no transaction matched by the eviction list,
/// by content hash, remains in the pool afterwards.
pub proof fn lemma_remove_all_evicts(s: Seq<Transaction>, rm: Seq<Transaction>, t: Transaction)
    ensures
        has_tx(rm, t) ==> !has_tx(remove_all(s, rm), t),
    decreases s.len(),
{
    if s.len() > 0 && has_tx(rm, t) {
        lemma_remove_all_evicts(s.drop_last(), rm, t);
        let rest = remove_all(s.drop_last(), rm);
        if !has_tx(rm, s.last()) {
            assert(remove_all(s, rm) == rest.push(s.last()));
            if has_tx(rest.push(s.last()), t) {
                let k = choose|k: int|
                    0 <= k < rest.push(s.last()).len() && content_hash(rest.push(s.last())[k])
                        == content_hash(t);
                if k == rest.len() {
                    let j = choose|j: int|
                        0 <= j < rm.len() && content_hash(rm[j]) == content_hash(t);
                    assert(content_hash(rm[j]) == content_hash(s.last()));
                    assert(has_tx(rm, s.last()));
                } else {
                    assert(rest.push(s.last())[k] == rest[k]);
                    assert(has_tx(rest, t));
                }
            }
        }
    }
}

/// Evicting, from a pool, a set that matches exactly the pool's first `k`
/// entries and nothing after them leaves exactly the remaining suffix.
pub proof fn lemma_remove_take(pool: Seq<Transaction>, rm: Seq<Transaction>, k: int)
    requires
        0 <= k <= pool.len(),
        forall|i: int| 0 <= i < k ==> has_tx(rm, pool[i]),
        forall|i: int| k <= i < pool.len() ==> !has_tx(rm, pool[i]),
    ensures
        remove_all(pool, rm) == pool.skip(k),
    decreases pool.len(),
{
    let n = pool.len() as int;
    if n == 0 {
        assert(pool.skip(0) =~= Seq::<Transaction>::empty());
    } else {
        let d = pool.drop_last();
        assert(forall|j: int| 0 <= j < d.len() ==> d[j] == pool[j]);
        assert(pool.last() == pool[n - 1]);
        if k <= n - 1 {
            assert(!has_tx(rm, pool[n - 1]));
            lemma_remove_take(d, rm, k);
            assert(remove_all(pool, rm) == d.skip(k).push(pool[n - 1]));
            assert(d.skip(k).push(pool[n - 1]) =~= pool.skip(k));
        } else {
            assert(has_tx(rm, pool[n - 1]));
            lemma_remove_take(d, rm, n - 1);
            assert(d.skip(n - 1) =~= Seq::<Transaction>::empty());
            assert(pool.skip(k) =~= Seq::<Transaction>::empty());
        }
    }
}

/// Scans a list for an entry with the same content hash as `t`.
fn list_has_tx(list: &Vec<Transaction>, t: &Transaction) -> (r: bool)
    ensures
        r == has_tx(list@, *t),
{
    let h = t.hash();
    let mut i: usize = 0;
    while i < list.len()
        invariant
            i <= list@.len(),
            h@ == content_hash(*t),
            forall|j: int| 0 <= j < i ==> content_hash(list@[j]) != content_hash(*t),
        decreases list@.len() - i,
    {
        let e = list[i];
        let eh = e.hash();
        if bytes_eq(&eh, &h) {
            return true;
        }
        i = i + 1;
    }
    false
}

/// Admitted transactions, kept as a single sequence sorted by ascending
/// nonce (entries with equal nonces stay in admission order), with no two
/// entries sharing a content hash and every entry individually valid.
pub struct Mempool {
    txs: Vec<Transaction>,
}

impl View for Mempool {
    type V = Seq<Transaction>;

    closed spec fn view(&self) -> Seq<Transaction> {
        self.txs@
    }
}

impl Mempool {
    /// A hash-keyed membership index and a nonce-ordered queue would have to
    /// be kept consistent with each other; here both are one sequence, and
    /// this invariant holds its two roles together by construction.
    #[verifier::type_invariant]
    spec fn wf(self) -> bool {
        nonce_sorted(self.txs@) && hashes_distinct(self.txs@) && all_valid(self.txs@)
    }

    pub fn new() -> (m: Self)
        ensures
            m@ == Seq::<Transaction>::empty(),
    {
        Mempool { txs: Vec::new() }
    }

    /// Admits a transaction: rejects a duplicate (by content hash) first,
    /// then an invalid transaction; otherwise inserts it at its nonce
    /// position. The pool grows by one exactly on success.
    pub fn add_transaction(&mut self, transaction: Transaction) -> (r: Result<(), MempoolError>)
        ensures
            has_tx(old(self)@, transaction) ==> r == Err::<(), MempoolError>(
                MempoolError::DuplicateTransaction,
            ) && final(self)@ == old(self)@,
            (!has_tx(old(self)@, transaction) && tx_check(transaction, false) is Err) ==> r
                == Err::<(), MempoolError>(MempoolError::InvalidTransaction) && final(self)@
                == old(self)@,
            (!has_tx(old(self)@, transaction) && tx_check(transaction, false) is Ok) ==> r
                == Ok::<(), MempoolError>(()) && final(self)@ == old(self)@.insert(
                insert_index(old(self)@, transaction.nonce),
                transaction,
            ),
    {
        proof {
            use_type_invariant(&*self);
        }
        if list_has_tx(&self.txs, &transaction) {
            return Err(MempoolError::DuplicateTransaction);
        }
        match transaction.validate(false) {
            Err(_) => {
                return Err(MempoolError::InvalidTransaction);
            },
            Ok(()) => {},
        }
        let mut pos: usize = 0;
        loop
            invariant
                pos <= self.txs@.len(),
                forall|j: int| 0 <= j < pos ==> self.txs@[j].nonce <= transaction.nonce,
            ensures
                pos <= self.txs@.len(),
                forall|j: int| 0 <= j < pos ==> self.txs@[j].nonce <= transaction.nonce,
                pos < self.txs@.len() ==> self.txs@[pos as int].nonce > transaction.nonce,
            decreases self.txs@.len() - pos,
        {
            if pos == self.txs.len() {
                break;
            }
            let e = self.txs[pos];
            if e.nonce() > transaction.nonce() {
                break;
            }
            pos = pos + 1;
        }
        proof {
            lemma_insert_index_at(self.txs@, transaction.nonce, pos as int);
        }
        let ghost pool = self.txs@;
        let mut txs: Vec<Transaction> = Vec::new();
        std::mem::swap(&mut txs, &mut self.txs);
        txs.insert(pos, transaction);
        proof {
            lemma_insert_preserves_wf(pool, transaction, pos as int);
        }
        self.txs = txs;
        Ok(())
    }

    /// Returns up to `limit` transactions in ascending nonce order, the ones
    /// with the smallest nonces first; the pool is not changed.
    pub fn get_transactions(&self, limit: usize) -> (r: Vec<Transaction>)
        ensures
            r@ == self@.take(
                if limit as int <= self@.len() {
                    limit as int
                } else {
                    self@.len() as int
                },
            ),
            nonce_sorted(r@),
            hashes_distinct(r@),
            all_valid(r@),
            forall|i: int| r@.len() <= i < self@.len() ==> !has_tx(r@, self@[i]),
    {
        proof {
            use_type_invariant(&*self);
        }
        let count = if limit < self.txs.len() {
            limit
        } else {
            self.txs.len()
        };
        let mut out: Vec<Transaction> = Vec::new();
        let mut i: usize = 0;
        while i < count
            invariant
                i <= count,
                count <= self.txs@.len(),
                count as int == if limit as int <= self@.len() {
                    limit as int
                } else {
                    self@.len() as int
                },
                out@ == self.txs@.take(i as int),
            decreases count - i,
        {
            out.push(self.txs[i]);
            i = i + 1;
            proof {
                assert(out@ =~= self.txs@.take(i as int));
            }
        }
        proof {
            assert(forall|j: int| 0 <= j < count ==> out@[j] == self@[j]);
            assert forall|i: int| out@.len() <= i < self@.len() implies !has_tx(out@, self@[i]) by {
                if has_tx(out@, self@[i]) {
                    let j = choose|j: int|
                        0 <= j < out@.len() && content_hash(out@[j]) == content_hash(self@[i]);
                    assert(content_hash(self@[j]) != content_hash(self@[i]));
                }
            }
        }
        out
    }

    /// Evicts each given transaction, matched by content hash, from the
    /// pool; entries not present are silently ignored.
    pub fn remove_transactions(&mut self, transactions: &Vec<Transaction>)
        ensures
            final(self)@ == remove_all(old(self)@, transactions@),
    {
        proof {
            use_type_invariant(&*self);
        }
        let mut kept: Vec<Transaction> = Vec::new();
        let mut i: usize = 0;
        while i < self.txs.len()
            invariant
                i <= self.txs@.len(),
                kept@ == remove_all(self.txs@.take(i as int), transactions@),
            decreases self.txs@.len() - i,
        {
            let e = self.txs[i];
            if !list_has_tx(transactions, &e) {
                kept.push(e);
            }
            proof {
                assert(self.txs@.take(i + 1).drop_last() =~= self.txs@.take(i as int));
                assert(self.txs@.take(i + 1).last() == self.txs@[i as int]);
            }
            i = i + 1;
        }
        proof {
            assert(self.txs@.take(self.txs@.len() as int) =~= self.txs@);
            lemma_remove_all_props(self.txs@, transactions@);
        }
        self.txs = kept;
    }

    /// Whether a transaction with the same content hash is pending.
    pub fn contains(&self, transaction: &Transaction) -> (r: bool)
        ensures
            r == has_tx(self@, *transaction),
    {
        list_has_tx(&self.txs, transaction)
    }

    /// Empties the pool.
    pub fn clear(&mut self)
        ensures
            final(self)@ == Seq::<Transaction>::empty(),
    {
        self.txs = Vec::new();
    }

    pub fn len(&self) -> (r: usize)
        ensures
            r == self@.len(),
    {
        self.txs.len()
    }

    pub fn is_empty(&self) -> (r: bool)
        ensures
            r == (self@.len() == 0),
    {
        self.txs.len() == 0
    }
}

/// Inserting a fresh, valid transaction at its nonce position keeps the pool
/// sorted, hash-distinct and valid.
proof fn lemma_insert_preserves_wf(pool: Seq<Transaction>, t: Transaction, pos: int)
    requires
        nonce_sorted(pool),
        hashes_distinct(pool),
        all_valid(pool),
        !has_tx(pool, t),
        tx_check(t, false) is Ok,
        0 <= pos <= pool.len(),
        forall|j: int| 0 <= j < pos ==> pool[j].nonce <= t.nonce,
        pos < pool.len() ==> pool[pos].nonce > t.nonce,
    ensures
        nonce_sorted(pool.insert(pos, t)),
        hashes_distinct(pool.insert(pos, t)),
        all_valid(pool.insert(pos, t)),
{
    let s = pool.insert(pos, t);
    assert forall|i: int, j: int| 0 <= i < j < s.len() implies s[i].nonce <= s[j].nonce by {
        if i < pos && j > pos {
            assert(s[i] == pool[i] && s[j] == pool[j - 1]);
        } else if j == pos {
            assert(s[i] == pool[i]);
        } else if i == pos && j > pos {
            assert(s[j] == pool[j - 1]);
        }
    }
    assert forall|i: int, j: int| 0 <= i < j < s.len() implies content_hash(s[i]) != content_hash(
        s[j],
    ) by {
        if i != pos && j != pos {
            let ii: int = if i < pos {
                i
            } else {
                i - 1
            };
            let jj: int = if j < pos {
                j
            } else {
                j - 1
            };
            assert(s[i] == pool[ii] && s[j] == pool[jj]);
        } else if i == pos {
            assert(s[j] == pool[j - 1]);
        } else {
            assert(s[i] == pool[i]);
        }
    }
    assert forall|i: int| 0 <= i < s.len() implies tx_check(s[i], false) is Ok by {
        if i < pos {
            assert(s[i] == pool[i]);
        } else if i > pos {
            assert(s[i] == pool[i - 1]);
        }
    }
}

/// A scan position that sits after every entry with a nonce not larger than
/// the new one, and before the first larger entry, is the insertion index.
proof fn lemma_insert_index_at(s: Seq<Transaction>, nonce: u64, pos: int)
    requires
        0 <= pos <= s.len(),
        forall|j: int| 0 <= j < pos ==> s[j].nonce <= nonce,
        pos < s.len() ==> s[pos].nonce > nonce,
    ensures
        insert_index(s, nonce) == pos,
    decreases s.len(),
{
    if s.len() > 0 {
        if pos == 0 {
        } else {
            assert(s[0].nonce <= nonce);
            lemma_insert_index_at(s.drop_first(), nonce, pos - 1);
        }
    }
}

} // verus!
