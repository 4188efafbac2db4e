//! The node service: the owned object behind which the shared chain and
//! mempool live, exposing exactly the submission and synchronization
//! operations. A sealed block carries the whole pending batch, and the
//! batch can be read back out of it unchanged.

use vstd::prelude::*;
use crate::block::{block_hash_of, is_genesis, Block, BlockModel};
use crate::chain::{Blockchain, SyncOutcome};
use crate::errors::LedgerError;
use crate::mempool::{holds_signature, Mempool};
use crate::transaction::Transaction;
use crate::network_messages::{decode_envelope, parse_envelope, MessageModel, NetworkMessage};
use crate::payload::{encode_payload, lemma_payload_round, parse_payload, spec_payload};

verus! {

/// What became of one inbound wire message.
#[derive(Clone, Copy, Debug, PartialEq, Eq, Structural)]
pub enum HandleOutcome {
    /// The message carried a block; how the chain policy handled it.
    Block(SyncOutcome),
    /// The message carried a transaction; whether the mempool admitted it.
    Transaction(bool),
    /// The message carried a tag this version does not know; ignored.
    Ignored,
}

/// A ledger node: its chain store, its mempool, and the identity it seals
/// blocks under.
pub struct Node {
    pub chain: Blockchain,
    pub mempool: Mempool,
    pub validator_id: String,
}

impl Node {
    /// Both owned resources are well formed.
    pub open spec fn wf(self) -> bool {
        self.chain.wf() && self.mempool.wf()
    }

    /// A fresh node: genesis-only chain, empty mempool.
    pub fn new(validator_id: String) -> (n: Node)
        ensures
            n.wf(),
            n.chain.blocks().len() == 1,
            is_genesis(n.chain.head_block()),
            n.mempool@.len() == 0,
            n.validator_id@ == validator_id@,
    {
        Node { chain: Blockchain::new(), mempool: Mempool::new(), validator_id }
    }

    /// Submits a transaction to the mempool; the chain is untouched.
    pub fn submit(&mut self, tx: Transaction) -> (admitted: bool)
        requires
            old(self).wf(),
        ensures
            final(self).wf(),
            final(self).chain == old(self).chain,
            final(self).validator_id == old(self).validator_id,
            admitted == tx@.valid(),
            !tx@.valid() ==> final(self).mempool@ == old(self).mempool@,
            tx@.valid() && holds_signature(old(self).mempool@, tx@.signature) ==> final(self).mempool@ == old(self).mempool@,
            tx@.valid() && !holds_signature(old(self).mempool@, tx@.signature) ==> final(self).mempool@ == old(self).mempool@.push(tx@),
    {
        self.mempool.add_transaction(tx)
    }

    /// How many transactions wait for inclusion.
    pub fn get_pending_count(&self) -> (n: usize)
        ensures
            n == self.mempool@.len(),
    {
        self.mempool.pending_count()
    }

    /// Seals the pending batch into a new block on the head. On success
    /// the block's payload is exactly the batch that was pending, provably
    /// recoverable from the block, and the mempool is empty; on failure
    /// nothing changes, so no transaction is lost. Failure comes only at
    /// the index limit, or when a stored hash collides with the freshly
    /// computed one: under a fresh timestamp draw, sealing succeeds.
    pub fn seal(&mut self) -> (r: Result<Block, LedgerError>)
        requires
            old(self).wf(),
        ensures
            final(self).wf(),
            final(self).validator_id == old(self).validator_id,
            match r {
                Ok(b) => {
                    &&& b@.wf()
                    &&& b@.index == old(self).chain.head_block().index + 1
                    &&& b@.previous_hash == old(self).chain.head_block().hash
                    &&& b@.validator == old(self).validator_id@
                    &&& b@.data == spec_payload(old(self).mempool@)
                    &&& parse_payload(b@.data) == Some(old(self).mempool@)
                    &&& final(self).chain.blocks() == old(self).chain.blocks().push(b@)
                    &&& final(self).chain.head_block() == b@
                    &&& final(self).mempool@.len() == 0
                },
                Err(e) => (e == LedgerError::Duplicate || e == LedgerError::Integrity) && final(self).chain == old(self).chain && final(self).mempool@ == old(self).mempool@,
            },
            r == Err::<Block, LedgerError>(LedgerError::Integrity)
                <==> old(self).chain.head_block().index == u64::MAX,
            r == Err::<Block, LedgerError>(LedgerError::Duplicate) ==> (exists|ts: u128|
                old(self).chain.has_hash(#[trigger] block_hash_of(
                    (BlockModel {
                        index: ((old(self).chain.head_block().index + 1) as u64),
                        timestamp: ts,
                        previous_hash: old(self).chain.head_block().hash,
                        hash: Seq::empty(),
                        data: spec_payload(old(self).mempool@),
                        validator: old(self).validator_id@,
                    }),
                ))),
    {
        let payload_string = encode_payload(self.mempool.pending_all());
        proof {
            lemma_payload_round(old(self).mempool@);
        }
        let validator = self.validator_id.clone();
        match self.chain.add_block(payload_string, validator) {
            Ok(b) => {
                self.mempool.clear();
                Ok(b)
            },
            Err(e) => Err(e),
        }
    }

    /// Handles one inbound wire message: malformed bytes are dropped with
    /// a `Decode` error and no state change; a block goes through the
    /// chain acceptance policy; a transaction through mempool admission;
    /// an unknown tag is ignored.
    pub fn handle_wire(&mut self, bytes: &[u8]) -> (r: Result<HandleOutcome, LedgerError>)
        requires
            old(self).wf(),
        ensures
            final(self).wf(),
            final(self).validator_id == old(self).validator_id,
            match (parse_envelope(bytes@), r) {
                (None, Err(e)) => e == LedgerError::Decode && *final(self) == *old(self),
                (Some(MessageModel::Block(bm)), Ok(HandleOutcome::Block(outcome))) => {
                    &&& final(self).mempool@ == old(self).mempool@
                    &&& ((outcome == SyncOutcome::Duplicate) <==> old(self).chain.has_hash(
                        bm.hash,
                    ))
                    &&& ((outcome == SyncOutcome::Extended || outcome == SyncOutcome::Reorged
                        || outcome == SyncOutcome::SideBranch) <==> old(self).chain.accepts(bm))
                    &&& (old(self).chain.accepts(bm) ==> final(self).chain.blocks().len() > old(self).chain.blocks().len() && final(self).chain.blocks()[old(self).chain.blocks().len() as int] == bm)
                    &&& (outcome == SyncOutcome::Duplicate || outcome == SyncOutcome::Rejected
                        ==> final(self).chain == old(self).chain)
                },
                (Some(MessageModel::Transaction(tm)), Ok(HandleOutcome::Transaction(admitted))) => {
                    &&& final(self).chain == old(self).chain
                    &&& admitted == tm.valid()
                    &&& (admitted && !holds_signature(old(self).mempool@, tm.signature) ==> final(self).mempool@ == old(self).mempool@.push(tm))
                    &&& (!(admitted && !holds_signature(old(self).mempool@, tm.signature))
                        ==> final(self).mempool@ == old(self).mempool@)
                },
                (Some(MessageModel::Unrecognized(_)), Ok(HandleOutcome::Ignored)) => *final(self)
                    == *old(self),
                _ => false,
            },
    {
        let msg = match decode_envelope(bytes) {
            Ok(m) => m,
            Err(e) => {
                return Err(e);
            },
        };
        match msg {
            NetworkMessage::Block(b) => Ok(HandleOutcome::Block(self.chain.receive_block(b))),
            NetworkMessage::Transaction(t) => Ok(
                HandleOutcome::Transaction(self.mempool.add_transaction(t)),
            ),
            NetworkMessage::Unrecognized(_) => Ok(HandleOutcome::Ignored),
        }
    }

    /// The main branch, genesis first: the view the presentation layer
    /// shows.
    pub fn get_chain_view(&self) -> (branch: Vec<Block>)
        requires
            self.wf(),
        ensures
            branch@.len() == self.chain.head_block().index + 1,
            forall|i: int| 0 <= i < branch@.len() ==> (#[trigger] branch@[i])@.index == i,
            forall|i: int|
                1 <= i < branch@.len() ==> (#[trigger] branch@[i])@.previous_hash == branch@[
                    i - 1
                ]@.hash,
            is_genesis(branch@[0]@),
            branch@[branch@.len() - 1]@ == self.chain.head_block(),
    {
        self.chain.main_branch()
    }
}

} // verus!
