//! The mempool: the holding area for transactions not yet included in a
//! sealed block, keyed by signature. Every held transaction has passed
//! signature verification on admission, and no two entries share a
//! signature; re-submission of a known signature is an idempotent no-op.

use vstd::prelude::*;
use crate::transaction::{Transaction, TransactionModel};

verus! {

/// The pending transactions, in admission order.
pub struct Mempool {
    pending: Vec<Transaction>,
}

impl View for Mempool {
    type V = Seq<TransactionModel>;

    closed spec fn view(&self) -> Seq<TransactionModel> {
        self.pending@.map_values(|t: Transaction| t@)
    }
}

/// Whether a pending sequence holds an entry with the given signature.
pub open spec fn holds_signature(pending: Seq<TransactionModel>, sig: Seq<char>) -> bool {
    exists|i: int| 0 <= i < pending.len() && pending[i].signature == sig
}

impl Mempool {
    /// Every entry is valid, and signatures are pairwise distinct.
    pub open spec fn wf(self) -> bool {
        &&& forall|i: int| 0 <= i < self@.len() ==> (#[trigger] self@[i]).valid()
        &&& forall|i: int, j: int|
            0 <= i < j < self@.len() ==> (#[trigger] self@[i]).signature != (
            #[trigger] self@[j]).signature
    }

    /// An empty mempool.
    pub fn new() -> (m: Mempool)
        ensures
            m.wf(),
            m@.len() == 0,
    {
        Mempool { pending: Vec::new() }
    }

    /// How many transactions wait for inclusion.
    pub fn pending_count(&self) -> (n: usize)
        ensures
            n == self@.len(),
    {
        self.pending.len()
    }

    /// Whether a transaction with this signature is already pending.
    pub fn contains_signature(&self, sig: &String) -> (r: bool)
        ensures
            r == holds_signature(self@, sig@),
    {
        let mut i: usize = 0;
        while i < self.pending.len()
            invariant
                i <= self.pending@.len(),
                self@.len() == self.pending@.len(),
                forall|k: int| 0 <= k < i ==> self@[k].signature != sig@,
        decreases self.pending@.len() - i,
        {
            if self.pending[i].signature == *sig {
                proof {
                    assert(self@[i as int].signature == sig@);
                }
                return true;
            }
            i = i + 1;
        }
        false
    }

    /// Admits a transaction: rejected without mutation when its signature
    /// fails to verify; a no-op when its signature is already pending;
    /// appended otherwise. Returns whether the transaction verified.
    pub fn add_transaction(&mut self, tx: Transaction) -> (admitted: bool)
        requires
            old(self).wf(),
        ensures
            final(self).wf(),
            admitted == tx@.valid(),
            !tx@.valid() ==> final(self)@ == old(self)@,
            tx@.valid() && holds_signature(old(self)@, tx@.signature) ==> final(self)@ == old(
                self,
            )@,
            tx@.valid() && !holds_signature(old(self)@, tx@.signature) ==> final(self)@ == old(
                self,
            )@.push(tx@),
            holds_signature(final(self)@, tx@.signature) == tx@.valid() || holds_signature(
                old(self)@,
                tx@.signature,
            ),
    {
        if !tx.verify() {
            return false;
        }
        if self.contains_signature(&tx.signature) {
            return true;
        }
        let ghost before = self@;
        self.pending.push(tx);
        proof {
            assert(self@ =~= before.push(tx@));
            assert(holds_signature(self@, tx@.signature)) by {
                assert(self@[before.len() as int].signature == tx@.signature);
            }
        }
        true
    }

    /// Removes and returns everything pending, leaving the mempool empty:
    /// the sealed batch is exactly what was pending at the drain.
    pub fn drain(&mut self) -> (txs: Vec<Transaction>)
        requires
            old(self).wf(),
        ensures
            final(self).wf(),
            final(self)@.len() == 0,
            txs@.map_values(|t: Transaction| t@) == old(self)@,
    {
        let mut drained = Vec::new();
        core::mem::swap(&mut drained, &mut self.pending);
        proof {
            assert(self@ =~= Seq::<TransactionModel>::empty());
            assert(drained@.map_values(|t: Transaction| t@) =~= old(self)@);
        }
        drained
    }

    /// Empties the mempool, dropping what it held.
    pub fn clear(&mut self)
        ensures
            final(self).wf(),
            final(self)@.len() == 0,
    {
        self.pending.clear();
        proof {
            assert(self@ =~= Seq::<TransactionModel>::empty());
        }
    }

    /// Read access to the whole pending batch, in admission order.
    pub fn pending_all(&self) -> (v: &Vec<Transaction>)
        ensures
            v@.map_values(|t: Transaction| t@) == self@,
    {
        &self.pending
    }

    /// Read access to the pending transactions, in admission order.
    pub fn pending_at(&self, i: usize) -> (t: &Transaction)
        requires
            i < self@.len(),
        ensures
            t@ == self@[i as int],
    {
        &self.pending[i]
    }
}

} // verus!
