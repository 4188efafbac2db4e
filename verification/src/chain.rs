//! The chain store and the acceptance policy. All accepted blocks live in
//! one content-addressed store; the head is the tip the node currently
//! builds on. The fork-choice rule is deterministic: the head is always a
//! stored block of maximal index, and among those the one with the
//! lexicographically smallest hash, so nodes that have seen the same
//! blocks agree on the head. Blocks whose predecessor is unknown wait in a
//! bounded orphan buffer and are reconsidered when new blocks arrive.

use vstd::prelude::*;
use vstd::string::*;
use vstd::utf8::char_u32_cast;
use crate::block::{block_hash_of, genesis_block, is_genesis, Block, BlockModel};
use crate::errors::LedgerError;

verus! {

/// Lexicographic order on character sequences, the deterministic
/// tie-break between branch tips of equal height.
pub open spec fn lex_lt(a: Seq<char>, b: Seq<char>) -> bool
    decreases a.len(),
{
    if b.len() == 0 {
        false
    } else if a.len() == 0 {
        true
    } else if (a[0] as u32) < (b[0] as u32) {
        true
    } else if a[0] == b[0] {
        lex_lt(a.drop_first(), b.drop_first())
    } else {
        false
    }
}

/// No sequence precedes itself.
pub proof fn lemma_lex_irrefl(a: Seq<char>)
    ensures
        !lex_lt(a, a),
    decreases a.len(),
{
    if a.len() > 0 {
        lemma_lex_irrefl(a.drop_first());
    }
}

/// The order is transitive.
pub proof fn lemma_lex_trans(a: Seq<char>, b: Seq<char>, c: Seq<char>)
    requires
        lex_lt(a, b),
        lex_lt(b, c),
    ensures
        lex_lt(a, c),
    decreases a.len(),
{
    if b.len() == 0 {
        // lex_lt(a, b) would be false
    } else if c.len() == 0 {
        // lex_lt(b, c) would be false
    } else if a.len() == 0 {
        // c is nonempty, so lex_lt(a, c)
    } else {
        if a[0] == b[0] && b[0] == c[0] {
            lemma_lex_trans(a.drop_first(), b.drop_first(), c.drop_first());
        } else {
            char_u32_cast(a[0], a[0] as u32);
            char_u32_cast(b[0], b[0] as u32);
            char_u32_cast(c[0], c[0] as u32);
        }
    }
}

/// Two sequences neither of which precedes the other are equal: the order
/// is total, so the tie-break never leaves two candidates.
pub proof fn lemma_lex_connex(a: Seq<char>, b: Seq<char>)
    requires
        !lex_lt(a, b),
        !lex_lt(b, a),
    ensures
        a == b,
    decreases a.len(),
{
    if a.len() == 0 && b.len() == 0 {
        assert(a =~= b);
    } else if a.len() == 0 || b.len() == 0 {
        // the empty one precedes the other
    } else {
        char_u32_cast(a[0], a[0] as u32);
        char_u32_cast(b[0], b[0] as u32);
        assert(a[0] == b[0]);
        lemma_lex_connex(a.drop_first(), b.drop_first());
        assert(a =~= seq![a[0]] + a.drop_first());
        assert(b =~= seq![b[0]] + b.drop_first());
    }
}

/// Fork-choice preference: `a` is the better tip when it sits strictly
/// higher, or equally high with the lexicographically smaller hash.
pub open spec fn better_tip(a: BlockModel, b: BlockModel) -> bool {
    a.index > b.index || (a.index == b.index && lex_lt(a.hash, b.hash))
}

/// What became of a block handed to the synchronizer.
#[derive(Clone, Copy, Debug, PartialEq, Eq, Structural)]
pub enum SyncOutcome {
    /// Appended as the direct successor of the head.
    Extended,
    /// Accepted on a side branch that thereby became the best tip.
    Reorged,
    /// Accepted on a side branch; the head kept its place.
    SideBranch,
    /// Predecessor unknown; buffered for later reconsideration.
    Orphaned,
    /// Already stored; idempotent no-op.
    Duplicate,
    /// Failed the self-integrity or continuity checks; discarded.
    Rejected,
}

/// How many parentless blocks are retained while their predecessor is
/// awaited.
pub const ORPHAN_LIMIT: usize = 64;

/// Stepping an adoption pass composes: what held of the pass's own start
/// state transfers back to the state the whole pass started from.
proof fn lemma_adoption_step(
    orig_blocks: Seq<BlockModel>,
    orig_orph: Seq<BlockModel>,
    pre_blocks: Seq<BlockModel>,
    pre_orph: Seq<BlockModel>,
    cur_blocks: Seq<BlockModel>,
    cur_orph: Seq<BlockModel>,
)
    requires
        orig_blocks.len() <= pre_blocks.len() <= cur_blocks.len(),
        pre_blocks.take(orig_blocks.len() as int) == orig_blocks,
        cur_blocks.take(pre_blocks.len() as int) == pre_blocks,
        forall|i: int|
            orig_blocks.len() <= i < pre_blocks.len() ==> orig_orph.contains(
                #[trigger] pre_blocks[i],
            ),
        forall|i: int|
            pre_blocks.len() <= i < cur_blocks.len() ==> pre_orph.contains(
                #[trigger] cur_blocks[i],
            ),
        forall|i: int| 0 <= i < pre_orph.len() ==> orig_orph.contains(#[trigger] pre_orph[i]),
        forall|i: int| 0 <= i < cur_orph.len() ==> pre_orph.contains(#[trigger] cur_orph[i]),
    ensures
        cur_blocks.take(orig_blocks.len() as int) == orig_blocks,
        forall|i: int|
            orig_blocks.len() <= i < cur_blocks.len() ==> orig_orph.contains(
                #[trigger] cur_blocks[i],
            ),
        forall|i: int| 0 <= i < cur_orph.len() ==> orig_orph.contains(#[trigger] cur_orph[i]),
{
    assert forall|i: int| 0 <= i < orig_blocks.len() implies cur_blocks[i] == orig_blocks[i] by {
        assert(cur_blocks.take(pre_blocks.len() as int)[i] == cur_blocks[i]);
        assert(pre_blocks.take(orig_blocks.len() as int)[i] == pre_blocks[i]);
    }
    assert(cur_blocks.take(orig_blocks.len() as int) =~= orig_blocks);
    assert forall|i: int| orig_blocks.len() <= i < cur_blocks.len() implies orig_orph.contains(
        #[trigger] cur_blocks[i],
    ) by {
        if i < pre_blocks.len() {
            assert(cur_blocks.take(pre_blocks.len() as int)[i] == cur_blocks[i]);
            assert(orig_orph.contains(pre_blocks[i]));
        } else {
            let w = choose|w: int|
                0 <= w < pre_orph.len() && pre_orph[w] == cur_blocks[i];
            assert(orig_orph.contains(pre_orph[w]));
        }
    }
    assert forall|i: int| 0 <= i < cur_orph.len() implies orig_orph.contains(
        #[trigger] cur_orph[i],
    ) by {
        let w = choose|w: int| 0 <= w < pre_orph.len() && pre_orph[w] == cur_orph[i];
        assert(orig_orph.contains(pre_orph[w]));
    }
}

/// Prepending the current block to a partial branch keeps the branch
/// contiguous, hash-linked, stored, and ending at the head.
proof fn lemma_branch_prepend(
    s: Seq<BlockModel>,
    head: BlockModel,
    pre: Seq<Block>,
    b: Block,
    ext: Seq<Block>,
)
    requires
        ext == seq![b] + pre,
        s.contains(b@),
        forall|i: int| 0 <= i < pre.len() ==> (#[trigger] pre[i])@.index == b@.index + 1 + i,
        forall|i: int|
            1 <= i < pre.len() ==> (#[trigger] pre[i])@.previous_hash == pre[i - 1]@.hash,
        forall|i: int| 0 <= i < pre.len() ==> s.contains((#[trigger] pre[i])@),
        pre.len() > 0 ==> pre[0]@.previous_hash == b@.hash,
        pre.len() > 0 ==> pre[pre.len() - 1]@ == head,
        pre.len() == 0 ==> b@ == head,
    ensures
        ext.len() == pre.len() + 1,
        forall|i: int| 0 <= i < ext.len() ==> (#[trigger] ext[i])@.index == b@.index + i,
        forall|i: int|
            1 <= i < ext.len() ==> (#[trigger] ext[i])@.previous_hash == ext[i - 1]@.hash,
        forall|i: int| 0 <= i < ext.len() ==> s.contains((#[trigger] ext[i])@),
        ext[0] == b,
        ext[ext.len() - 1]@ == head,
{
    assert forall|i: int| 0 <= i < ext.len() implies (#[trigger] ext[i])@.index == b@.index
        + i by {
        if i > 0 {
            assert(ext[i] == pre[i - 1]);
        }
    }
    assert forall|i: int| 1 <= i < ext.len() implies (#[trigger] ext[i])@.previous_hash == ext[
        i - 1
    ]@.hash by {
        assert(ext[i] == pre[i - 1]);
        if i > 1 {
            assert(ext[i - 1] == pre[i - 2]);
        }
    }
    assert forall|i: int| 0 <= i < ext.len() implies s.contains((#[trigger] ext[i])@) by {
        if i > 0 {
            assert(ext[i] == pre[i - 1]);
        }
    }
    if pre.len() > 0 {
        assert(ext[ext.len() - 1] == pre[pre.len() - 1]);
    }
}

/// Whether position `i` of `s` declares a predecessor that `s` holds, one
/// index below it.
pub open spec fn parent_linked(s: Seq<BlockModel>, i: int) -> bool {
    exists|j: int|
        0 <= j < s.len() && (#[trigger] s[j]).hash == s[i].previous_hash && s[j].index + 1 == s[
            i
        ].index
}

/// The append-only store of accepted blocks, the current head, and the
/// orphan buffer.
pub struct Blockchain {
    store: Vec<Block>,
    head: usize,
    orphans: Vec<Block>,
}

impl Blockchain {
    /// The accepted blocks, in acceptance order.
    pub closed spec fn blocks(self) -> Seq<BlockModel> {
        self.store@.map_values(|b: Block| b@)
    }

    /// The buffered orphans, oldest first.
    pub closed spec fn orphan_blocks(self) -> Seq<BlockModel> {
        self.orphans@.map_values(|b: Block| b@)
    }

    /// The position of the head inside the store.
    pub closed spec fn head_pos(self) -> int {
        self.head as int
    }

    /// The block the node currently builds on.
    pub open spec fn head_block(self) -> BlockModel {
        self.blocks()[self.head_pos()]
    }

    /// Whether some accepted block carries this hash.
    pub open spec fn has_hash(self, h: Seq<char>) -> bool {
        exists|i: int| 0 <= i < self.blocks().len() && (#[trigger] self.blocks()[i]).hash == h
    }

    /// The store invariant. The store is rooted at the fixed genesis;
    /// every block is self-consistent (its hash is the hash of its
    /// fields); hashes are unique; every non-genesis block extends a
    /// stored block one index below it; and the head is optimal: no
    /// stored block is a better tip.
    pub open spec fn wf(self) -> bool {
        let s = self.blocks();
        &&& 0 < s.len()
        &&& 0 <= self.head_pos() < s.len()
        &&& is_genesis(s[0])
        &&& forall|i: int| 0 <= i < s.len() ==> (#[trigger] s[i]).wf()
        &&& forall|i: int, j: int|
            0 <= i < j < s.len() ==> (#[trigger] s[i]).hash != (#[trigger] s[j]).hash
        &&& forall|i: int|
            1 <= i < s.len() ==> (#[trigger] s[i]).index >= 1 && parent_linked(s, i)
        &&& forall|i: int| 0 <= i < s.len() ==> !better_tip(#[trigger] s[i], s[self.head_pos()])
        &&& self.orphan_blocks().len() <= ORPHAN_LIMIT
        &&& forall|i: int|
            0 <= i < self.orphan_blocks().len() ==> (#[trigger] self.orphan_blocks()[i]).wf()
                && self.orphan_blocks()[i].index >= 1
    }

    /// An empty chain, bootstrapped with the fixed genesis block.
    pub fn new() -> (c: Blockchain)
        ensures
            c.wf(),
            c.blocks().len() == 1,
            is_genesis(c.head_block()),
            c.orphan_blocks().len() == 0,
    {
        let mut c = Blockchain { store: Vec::new(), head: 0, orphans: Vec::new() };
        c.create_genesis_block();
        c
    }

    /// Constructs and stores the fixed genesis block on first run.
    /// Deterministic, so independently started nodes converge on an
    /// identical genesis.
    pub fn create_genesis_block(&mut self)
        requires
            old(self).blocks().len() == 0,
            old(self).orphan_blocks().len() == 0,
        ensures
            final(self).wf(),
            final(self).blocks().len() == 1,
            is_genesis(final(self).head_block()),
            final(self).orphan_blocks().len() == 0,
    {
        let g = genesis_block();
        self.store.push(g);
        self.head = 0;
        proof {
            lemma_lex_irrefl(self.blocks()[0].hash);
        }
    }

    /// The block the chain currently ends in.
    pub fn head(&self) -> (b: &Block)
        requires
            self.wf(),
        ensures
            b@ == self.head_block(),
    {
        &self.store[self.head]
    }

    /// How many blocks the store holds.
    pub fn block_count(&self) -> (n: usize)
        ensures
            n == self.blocks().len(),
    {
        self.store.len()
    }

    /// The stored block at a position, in acceptance order.
    pub fn block_at(&self, i: usize) -> (b: &Block)
        requires
            i < self.blocks().len(),
        ensures
            b@ == self.blocks()[i as int],
    {
        &self.store[i]
    }

    /// Looks a block up by hash: the content-addressed read.
    fn find_by_hash(&self, h: &String) -> (r: Option<usize>)
        ensures
            match r {
                Some(i) => i < self.blocks().len() && self.blocks()[i as int].hash == h@,
                None => !self.has_hash(h@),
            },
    {
        let mut i: usize = 0;
        while i < self.store.len()
            invariant
                i <= self.blocks().len(),
                self.blocks().len() == self.store@.len(),
                forall|k: int| 0 <= k < i ==> (#[trigger] self.blocks()[k]).hash != h@,
            decreases self.store@.len() - i,
        {
            if self.store[i].hash == *h {
                proof {
                    assert(self.blocks()[i as int].hash == h@);
                }
                return Some(i);
            }
            i = i + 1;
        }
        None
    }
    /// Appends a block as the direct successor of the head, or refuses.
    /// Succeeds exactly when the block is fresh, self-consistent, declares
    /// the current head as its predecessor and sits one index above it.
    /// A duplicate hash is a `Duplicate`; any failed check, including a
    /// head already at the index limit, is an `Integrity` error; either
    /// way the chain is left unchanged.
    pub fn append(&mut self, block: Block) -> (r: Result<(), LedgerError>)
        requires
            old(self).wf(),
        ensures
            final(self).wf(),
            r is Ok <==> (!old(self).has_hash(block@.hash) && block@.wf() && block@.previous_hash
                == old(self).head_block().hash && block@.index == old(self).head_block().index
                + 1),
            r is Ok ==> final(self).blocks() == old(self).blocks().push(block@)
                && final(self).head_block() == block@
                && final(self).orphan_blocks() == old(self).orphan_blocks(),
            r == Err::<(), LedgerError>(LedgerError::Duplicate) <==> old(self).has_hash(
                block@.hash,
            ),
            r is Err ==> *final(self) == *old(self),
            r is Err ==> r == Err::<(), LedgerError>(LedgerError::Duplicate) || r == Err::<
                (),
                LedgerError,
            >(LedgerError::Integrity),
    {
        if self.find_by_hash(&block.hash).is_some() {
            return Err(LedgerError::Duplicate);
        }
        let computed = block.calculate_hash();
        if !(computed == block.hash) {
            return Err(LedgerError::Integrity);
        }
        let head_index = self.store[self.head].index;
        if !(block.previous_hash == self.store[self.head].hash) {
            return Err(LedgerError::Integrity);
        }
        if head_index == u64::MAX || block.index != head_index + 1 {
            return Err(LedgerError::Integrity);
        }
        let ghost before = self.blocks();
        let ghost old_head_pos = self.head_pos();
        let ghost bm = block@;
        let new_pos = self.store.len();
        self.store.push(block);
        self.head = new_pos;
        proof {
            let s = self.blocks();
            assert(s =~= before.push(bm));
            assert forall|i: int, j: int| 0 <= i < j < s.len() implies (#[trigger] s[i]).hash != (
            #[trigger] s[j]).hash by {
                if j == s.len() - 1 {
                    assert(s[i] == before[i]);
                    if before[i].hash == bm.hash {
                        assert(old(self).has_hash(bm.hash));
                    }
                }
            }
            assert forall|i: int| 1 <= i < s.len() implies (#[trigger] s[i]).index >= 1
                && parent_linked(s, i) by {
                if i == s.len() - 1 {
                    assert(s[old_head_pos].hash == bm.previous_hash && s[old_head_pos].index + 1
                        == bm.index);
                } else {
                    assert(parent_linked(before, i));
                    let j = choose|j: int|
                        0 <= j < before.len() && (#[trigger] before[j]).hash == before[
                            i
                        ].previous_hash && before[j].index + 1 == before[i].index;
                    assert(s[j].hash == s[i].previous_hash && s[j].index + 1 == s[i].index);
                }
            }
            assert forall|i: int| 0 <= i < s.len() implies !better_tip(
                #[trigger] s[i],
                s[self.head_pos()],
            ) by {
                if i < s.len() - 1 {
                    assert(!better_tip(before[i], before[old_head_pos]));
                } else {
                    lemma_lex_irrefl(bm.hash);
                }
            }
        }
        Ok(())
    }

    /// No stored block carrying this block's declared predecessor hash
    /// may sit anywhere but one index below it.
    pub open spec fn parent_height_ok(self, b: BlockModel) -> bool {
        forall|j: int|
            0 <= j < self.blocks().len() && (#[trigger] self.blocks()[j]).hash == b.previous_hash
                ==> self.blocks()[j].index + 1 == b.index
    }

    /// When the acceptance policy admits a block into the store: it is
    /// self-consistent, not a second genesis, fresh, and extends a stored
    /// block sitting one index below it.
    pub open spec fn accepts(self, b: BlockModel) -> bool {
        &&& b.wf()
        &&& b.index >= 1
        &&& !self.has_hash(b.hash)
        &&& self.has_hash(b.previous_hash)
        &&& self.parent_height_ok(b)
    }

    /// Stores an admissible block and re-roots the head when the block is
    /// the better tip under the fork-choice rule.
    fn insert_accepted(&mut self, block: Block) -> (rerooted: bool)
        requires
            old(self).wf(),
            old(self).accepts(block@),
        ensures
            final(self).wf(),
            final(self).blocks() == old(self).blocks().push(block@),
            final(self).orphan_blocks() == old(self).orphan_blocks(),
            rerooted == better_tip(block@, old(self).head_block()),
            rerooted ==> final(self).head_block() == block@,
            !rerooted ==> final(self).head_block() == old(self).head_block(),
    {
        let head_index = self.store[self.head].index;
        let promote = block.index > head_index || (block.index == head_index && str_lex_lt(
            block.hash.as_str(),
            self.store[self.head].hash.as_str(),
        ));
        let ghost before = self.blocks();
        let ghost old_head_pos = self.head_pos();
        let ghost bm = block@;
        let new_pos = self.store.len();
        self.store.push(block);
        if promote {
            self.head = new_pos;
        }
        proof {
            let s = self.blocks();
            assert(s =~= before.push(bm));
            assert forall|i: int, j: int| 0 <= i < j < s.len() implies (#[trigger] s[i]).hash != (
            #[trigger] s[j]).hash by {
                if j == s.len() - 1 {
                    assert(s[i] == before[i]);
                    if before[i].hash == bm.hash {
                        assert(old(self).has_hash(bm.hash));
                    }
                }
            }
            assert forall|i: int| 1 <= i < s.len() implies (#[trigger] s[i]).index >= 1
                && parent_linked(s, i) by {
                if i == s.len() - 1 {
                    assert(old(self).has_hash(bm.previous_hash));
                    let j = choose|j: int|
                        0 <= j < before.len() && (#[trigger] before[j]).hash == bm.previous_hash;
                    assert(before[j].index + 1 == bm.index);
                    assert(s[j].hash == s[i].previous_hash && s[j].index + 1 == s[i].index);
                } else {
                    assert(parent_linked(before, i));
                    let j = choose|j: int|
                        0 <= j < before.len() && (#[trigger] before[j]).hash == before[
                            i
                        ].previous_hash && before[j].index + 1 == before[i].index;
                    assert(s[j].hash == s[i].previous_hash && s[j].index + 1 == s[i].index);
                }
            }
            let oldhead = before[old_head_pos];
            if promote {
                assert(better_tip(bm, oldhead));
                assert forall|i: int| 0 <= i < s.len() implies !better_tip(
                    #[trigger] s[i],
                    s[self.head_pos()],
                ) by {
                    assert(s[self.head_pos()] == bm);
                    if i < s.len() - 1 {
                        assert(!better_tip(before[i], oldhead));
                        if better_tip(s[i], bm) {
                            if s[i].index == bm.index && bm.index == oldhead.index {
                                lemma_lex_trans(s[i].hash, bm.hash, oldhead.hash);
                            }
                        }
                    } else {
                        lemma_lex_irrefl(bm.hash);
                    }
                }
            } else {
                assert(!better_tip(bm, oldhead));
                assert forall|i: int| 0 <= i < s.len() implies !better_tip(
                    #[trigger] s[i],
                    s[self.head_pos()],
                ) by {
                    assert(s[self.head_pos()] == oldhead);
                    if i < s.len() - 1 {
                        assert(!better_tip(before[i], oldhead));
                    }
                }
            }
        }
        promote
    }

    /// One pass over the orphan buffer: adopts the first orphan whose
    /// predecessor is now stored one index below it, and drops an orphan
    /// that has become a duplicate or contradicts its stored predecessor's
    /// height. Reports whether the buffer shrank.
    #[verifier::rlimit(50)]
    fn adopt_one(&mut self) -> (progress: bool)
        requires
            old(self).wf(),
        ensures
            final(self).wf(),
            progress ==> final(self).orphan_blocks().len() < old(self).orphan_blocks().len(),
            !progress ==> *final(self) == *old(self),
            final(self).blocks().len() >= old(self).blocks().len(),
            final(self).blocks().take(old(self).blocks().len() as int) == old(self).blocks(),
            forall|i: int|
                old(self).blocks().len() <= i < final(self).blocks().len() ==> old(self).orphan_blocks().contains(#[trigger] final(self).blocks()[i]),
            forall|i: int|
                0 <= i < final(self).orphan_blocks().len() ==> old(self).orphan_blocks().contains(
                    #[trigger] final(self).orphan_blocks()[i],
                ),
            final(self).head_pos() == old(self).head_pos() || final(self).blocks().len() > old(self).blocks().len(),
    {
        let ghost orig = *old(self);
        let mut k: usize = 0;
        while k < self.orphans.len()
            invariant
                orig == *old(self),
                *self == orig,
                orig.wf(),
                k <= self.orphans@.len(),
            decreases self.orphans@.len() - k,
        {
            let already_stored = self.find_by_hash(&self.orphans[k].hash).is_some();
            if already_stored {
                let ghost oldorph = self.orphan_blocks();
                self.orphans.remove(k);
                proof {
                    assert(self.orphan_blocks() =~= oldorph.remove(k as int));
                    assert forall|i: int| 0 <= i < self.orphan_blocks().len() implies
                        oldorph.contains(#[trigger] self.orphan_blocks()[i]) by {
                        if i < k {
                            assert(self.orphan_blocks()[i] == oldorph[i]);
                        } else {
                            assert(self.orphan_blocks()[i] == oldorph[i + 1]);
                        }
                    }
                    assert(self.blocks().take(orig.blocks().len() as int) =~= orig.blocks());
                }
                return true;
            }
            let parent = self.find_by_hash(&self.orphans[k].previous_hash);
            match parent {
                Some(p) => {
                    let pindex = self.store[p].index;
                    let fits = pindex < u64::MAX && self.orphans[k].index == pindex + 1;
                    let ghost oldorph = self.orphan_blocks();
                    let candidate = self.orphans.remove(k);
                    proof {
                        assert(self.orphan_blocks() =~= oldorph.remove(k as int));
                        assert forall|i: int| 0 <= i < self.orphan_blocks().len() implies
                            oldorph.contains(#[trigger] self.orphan_blocks()[i]) by {
                            if i < k {
                                assert(self.orphan_blocks()[i] == oldorph[i]);
                            } else {
                                assert(self.orphan_blocks()[i] == oldorph[i + 1]);
                            }
                        }
                        assert(oldorph.contains(candidate@)) by {
                            assert(oldorph[k as int] == candidate@);
                        }
                    }
                    if fits {
                        proof {
                            assert(candidate@ == oldorph[k as int]);
                            assert(oldorph[k as int].wf() && oldorph[k as int].index >= 1);
                            assert(!self.has_hash(candidate@.hash));
                            assert(self.has_hash(candidate@.previous_hash)) by {
                                assert(self.blocks()[p as int].hash == candidate@.previous_hash);
                            }
                            assert forall|j: int|
                                0 <= j < self.blocks().len() && (#[trigger] self.blocks()[
                                    j
                                ]).hash == candidate@.previous_hash implies self.blocks()[j].index
                                + 1 == candidate@.index by {
                                if j != p as int {
                                    assert(self.blocks()[j].hash != self.blocks()[p as int].hash);
                                }
                            }
                            assert(self.accepts(candidate@));
                        }
                        let ghost mid = *self;
                        self.insert_accepted(candidate);
                        proof {
                            assert(self.blocks().take(orig.blocks().len() as int) =~= orig.blocks());
                            assert forall|i: int|
                                orig.blocks().len() <= i < self.blocks().len() implies
                                orig.orphan_blocks().contains(#[trigger] self.blocks()[i]) by {
                                assert(self.blocks()[i] == candidate@);
                                assert(orig.orphan_blocks()[k as int] == candidate@);
                            }
                        }
                        return true;
                    } else {
                        proof {
                            assert(self.blocks().take(orig.blocks().len() as int) =~= orig.blocks());
                        }
                        return true;
                    }
                },
                None => {
                    k = k + 1;
                },
            }
        }
        proof {
            assert(self.blocks().take(orig.blocks().len() as int) =~= orig.blocks());
        }
        false
    }

    /// Reconsiders the orphan buffer until no buffered block can be
    /// adopted: every adopted block came out of the buffer, the stored
    /// prefix is untouched, and the buffer only shrinks.
    fn adopt_orphans(&mut self)
        requires
            old(self).wf(),
        ensures
            final(self).wf(),
            final(self).blocks().len() >= old(self).blocks().len(),
            final(self).blocks().take(old(self).blocks().len() as int) == old(self).blocks(),
            forall|i: int|
                old(self).blocks().len() <= i < final(self).blocks().len() ==> old(self).orphan_blocks().contains(#[trigger] final(self).blocks()[i]),
            forall|i: int|
                0 <= i < final(self).orphan_blocks().len() ==> old(self).orphan_blocks().contains(
                    #[trigger] final(self).orphan_blocks()[i],
                ),
            old(self).orphan_blocks().len() == 0 ==> *final(self) == *old(self),
    {
        let ghost orig = *old(self);
        loop
            invariant
                orig == *old(self),
                orig.orphan_blocks().len() == 0 ==> *self == orig,
                self.wf(),
                self.blocks().len() >= orig.blocks().len(),
                self.blocks().take(orig.blocks().len() as int) == orig.blocks(),
                forall|i: int|
                    orig.blocks().len() <= i < self.blocks().len() ==> orig.orphan_blocks().contains(
                        #[trigger] self.blocks()[i],
                    ),
                forall|i: int|
                    0 <= i < self.orphan_blocks().len() ==> orig.orphan_blocks().contains(
                        #[trigger] self.orphan_blocks()[i],
                    ),
            decreases self.orphans@.len(),
        {
            let ghost pre = *self;
            let progress = self.adopt_one();
            proof {
                lemma_adoption_step(
                    orig.blocks(),
                    orig.orphan_blocks(),
                    pre.blocks(),
                    pre.orphan_blocks(),
                    self.blocks(),
                    self.orphan_blocks(),
                );
            }
            if !progress {
                break;
            }
        }
    }


    /// Buffers a parentless block, evicting the oldest orphan when the
    /// retention window is full.
    fn buffer_orphan(&mut self, block: Block)
        requires
            old(self).wf(),
            block@.wf(),
            block@.index >= 1,
        ensures
            final(self).wf(),
            final(self).blocks() == old(self).blocks(),
            final(self).head_pos() == old(self).head_pos(),
            final(self).orphan_blocks() == (if old(self).orphan_blocks().len() < ORPHAN_LIMIT {
                old(self).orphan_blocks().push(block@)
            } else {
                old(self).orphan_blocks().skip(1).push(block@)
            }),
    {
        let ghost oldorph = self.orphan_blocks();
        if self.orphans.len() >= ORPHAN_LIMIT {
            self.orphans.remove(0);
            proof {
                assert(self.orphan_blocks() =~= oldorph.skip(1));
            }
        }
        let ghost trimmed = self.orphan_blocks();
        self.orphans.push(block);
        proof {
            assert(self.orphan_blocks() =~= trimmed.push(block@));
        }
    }

    /// Stores an admissible block, re-roots the head when the fork-choice
    /// rule prefers it, and reconsiders the orphan buffer.
    #[verifier::rlimit(100)]
    fn accept_block(&mut self, block: Block) -> (rerooted: bool)
        requires
            old(self).wf(),
            old(self).accepts(block@),
        ensures
            final(self).wf(),
            final(self).blocks().len() > old(self).blocks().len(),
            final(self).blocks().take(old(self).blocks().len() as int) == old(self).blocks(),
            final(self).blocks()[old(self).blocks().len() as int] == block@,
            forall|i: int|
                old(self).blocks().len() < i < final(self).blocks().len()
                    ==> old(self).orphan_blocks().contains(#[trigger] final(self).blocks()[i]),
            forall|i: int|
                0 <= i < final(self).orphan_blocks().len() ==> old(self).orphan_blocks().contains(
                    #[trigger] final(self).orphan_blocks()[i],
                ),
            rerooted == better_tip(block@, old(self).head_block()),
            old(self).orphan_blocks().len() == 0 ==> final(self).blocks() == old(self).blocks().push(block@) && final(self).orphan_blocks().len() == 0 && (rerooted
                ==> final(self).head_block() == block@) && (!rerooted ==> final(self).head_block()
                == old(self).head_block()),
    {
        let ghost pre = *self;
        let ghost bm = block@;
        let rerooted = self.insert_accepted(block);
        let ghost mid = *self;
        self.adopt_orphans();
        proof {
            assert(mid.blocks() == pre.blocks().push(bm));
            assert(mid.blocks().take(mid.blocks().len() as int) =~= mid.blocks());
            lemma_adoption_step(
                pre.blocks().push(bm),
                pre.orphan_blocks(),
                mid.blocks(),
                mid.orphan_blocks(),
                self.blocks(),
                self.orphan_blocks(),
            );
            let n = pre.blocks().len() as int;
            assert(self.blocks().take(n) =~= self.blocks().take(n + 1).take(n));
            assert(self.blocks()[n] == bm) by {
                assert(self.blocks().take(n + 1)[n] == bm);
            }
        }
        rerooted
    }

    /// The acceptance policy for a block arriving from a peer, after the
    /// wire decode: drop duplicates silently; discard a block whose hash
    /// does not match its fields, that claims to be a genesis, or that
    /// contradicts its stored predecessor's height; buffer a block whose
    /// predecessor is unknown; store everything else, re-rooting the head
    /// exactly when the fork-choice rule prefers the new tip, and then
    /// reconsider the orphan buffer.
    #[verifier::rlimit(100)]
    pub fn receive_block(&mut self, block: Block) -> (outcome: SyncOutcome)
        requires
            old(self).wf(),
        ensures
            final(self).wf(),
            (outcome == SyncOutcome::Duplicate) <==> old(self).has_hash(block@.hash),
            (outcome == SyncOutcome::Rejected) <==> (!old(self).has_hash(block@.hash) && (
            !block@.wf() || block@.index == 0 || (old(self).has_hash(block@.previous_hash)
                && !old(self).parent_height_ok(block@)))),
            (outcome == SyncOutcome::Orphaned) <==> (!old(self).has_hash(block@.hash)
                && block@.wf() && block@.index >= 1 && !old(self).has_hash(block@.previous_hash)),
            outcome == SyncOutcome::Duplicate || outcome == SyncOutcome::Rejected ==> *final(self)
                == *old(self),
            outcome == SyncOutcome::Orphaned ==> final(self).blocks() == old(self).blocks()
                && final(self).head_block() == old(self).head_block()
                && final(self).orphan_blocks() == (if old(self).orphan_blocks().len() < ORPHAN_LIMIT {
                old(self).orphan_blocks().push(block@)
            } else {
                old(self).orphan_blocks().skip(1).push(block@)
            }),
            (outcome == SyncOutcome::Extended || outcome == SyncOutcome::Reorged || outcome
                == SyncOutcome::SideBranch) <==> old(self).accepts(block@),
            old(self).accepts(block@) ==> final(self).blocks().len() > old(self).blocks().len()
                && final(self).blocks().take(old(self).blocks().len() as int) == old(self).blocks()
                && final(self).blocks()[old(self).blocks().len() as int] == block@,
            old(self).accepts(block@) ==> (forall|i: int|
                old(self).blocks().len() < i < final(self).blocks().len()
                    ==> old(self).orphan_blocks().contains(#[trigger] final(self).blocks()[i])),
            old(self).accepts(block@) ==> (forall|i: int|
                0 <= i < final(self).orphan_blocks().len() ==> old(self).orphan_blocks().contains(
                    #[trigger] final(self).orphan_blocks()[i],
                )),
            (outcome == SyncOutcome::Extended) <==> (old(self).accepts(block@)
                && block@.previous_hash == old(self).head_block().hash),
            outcome == SyncOutcome::Reorged ==> better_tip(block@, old(self).head_block()),
            old(self).accepts(block@) && old(self).orphan_blocks().len() == 0 ==> final(self).blocks() == old(self).blocks().push(block@) && final(self).orphan_blocks().len() == 0
                && (better_tip(block@, old(self).head_block()) ==> final(self).head_block()
                == block@) && (!better_tip(block@, old(self).head_block()) ==> final(self).head_block() == old(self).head_block()),
    {
        if self.find_by_hash(&block.hash).is_some() {
            return SyncOutcome::Duplicate;
        }
        let computed = block.calculate_hash();
        if !(computed == block.hash) || block.index == 0 {
            return SyncOutcome::Rejected;
        }
        let parent = self.find_by_hash(&block.previous_hash);
        match parent {
            None => {
                self.buffer_orphan(block);
                SyncOutcome::Orphaned
            },
            Some(p) => {
                let pindex = self.store[p].index;
                if pindex == u64::MAX || block.index != pindex + 1 {
                    proof {
                        assert(self.blocks()[p as int].hash == block@.previous_hash
                            && self.blocks()[p as int].index + 1 != block@.index);
                    }
                    return SyncOutcome::Rejected;
                }
                proof {
                    assert forall|j: int|
                        0 <= j < self.blocks().len() && (#[trigger] self.blocks()[j]).hash
                            == block@.previous_hash implies self.blocks()[j].index + 1
                        == block@.index by {
                        if j != p as int {
                            assert(self.blocks()[j].hash != self.blocks()[p as int].hash);
                        }
                    }
                    assert(self.has_hash(block@.previous_hash)) by {
                        assert(self.blocks()[p as int].hash == block@.previous_hash);
                    }
                    assert(self.accepts(block@));
                }
                let extends_head = block.previous_hash == self.store[self.head].hash;
                let rerooted = self.accept_block(block);
                if extends_head {
                    SyncOutcome::Extended
                } else if rerooted {
                    SyncOutcome::Reorged
                } else {
                    SyncOutcome::SideBranch
                }
            },
        }
    }

    /// Seals a new block over the current head: the successor index, the
    /// head's hash as predecessor, the given payload and validator, a
    /// fresh timestamp. Fails only when the head has reached the index
    /// limit (`Integrity`) or the freshly computed hash is already stored
    /// (`Duplicate`); the chain is then unchanged.
    pub fn add_block(&mut self, data: String, validator: String) -> (r: Result<
        Block,
        LedgerError,
    >)
        requires
            old(self).wf(),
        ensures
            final(self).wf(),
            match r {
                Ok(b) => b@.wf() && b@.index == old(self).head_block().index + 1
                    && b@.previous_hash == old(self).head_block().hash && b@.data == data@
                    && b@.validator == validator@
                    && final(self).blocks() == old(self).blocks().push(b@)
                    && final(self).head_block() == b@
                    && final(self).orphan_blocks() == old(self).orphan_blocks(),
                Err(e) => (e == LedgerError::Duplicate || e == LedgerError::Integrity)
                    && *final(self) == *old(self),
            },
            r == Err::<Block, LedgerError>(LedgerError::Integrity)
                <==> old(self).head_block().index == u64::MAX,
            r == Err::<Block, LedgerError>(LedgerError::Duplicate) ==> (exists|ts: u128|
                old(self).has_hash(#[trigger] block_hash_of(
                    (BlockModel {
                        index: ((old(self).head_block().index + 1) as u64),
                        timestamp: ts,
                        previous_hash: old(self).head_block().hash,
                        hash: Seq::empty(),
                        data: data@,
                        validator: validator@,
                    }),
                ))),
    {
        let head_index = self.store[self.head].index;
        if head_index == u64::MAX {
            return Err(LedgerError::Integrity);
        }
        let previous_hash = self.store[self.head].hash.clone();
        let block = Block::new(head_index + 1, previous_hash, data, validator);
        let sealed = block.duplicate();
        let ghost bm = block@;
        let result = self.append(block);
        match result {
            Ok(()) => Ok(sealed),
            Err(e) => {
                proof {
                    if e == LedgerError::Duplicate {
                        let witness = BlockModel {
                            index: ((old(self).head_block().index + 1) as u64),
                            timestamp: bm.timestamp,
                            previous_hash: old(self).head_block().hash,
                            hash: Seq::empty(),
                            data: data@,
                            validator: validator@,
                        };
                        assert(block_hash_of(witness) == block_hash_of(bm));
                        assert(old(self).has_hash(block_hash_of(witness)));
                    }
                }
                Err(e)
            },
        }
    }

    /// The store position of the unique predecessor of a non-genesis
    /// stored block: the well-formedness invariant guarantees it exists,
    /// one index below.
    fn parent_of(&self, cur: usize) -> (p: usize)
        requires
            self.wf(),
            cur < self.blocks().len(),
            self.blocks()[cur as int].index >= 1,
        ensures
            p < self.blocks().len(),
            self.blocks()[p as int].hash == self.blocks()[cur as int].previous_hash,
            self.blocks()[p as int].index + 1 == self.blocks()[cur as int].index,
    {
        proof {
            if cur == 0 {
                assert(self.blocks()[0].index == 0);
            }
            assert(parent_linked(self.blocks(), cur as int));
        }
        let found = self.find_by_hash(&self.store[cur].previous_hash);
        match found {
            Some(p) => {
                proof {
                    let j = choose|j: int|
                        0 <= j < self.blocks().len() && (#[trigger] self.blocks()[j]).hash
                            == self.blocks()[cur as int].previous_hash && self.blocks()[j].index
                            + 1 == self.blocks()[cur as int].index;
                    if j != p as int {
                        assert(self.blocks()[j].hash != self.blocks()[p as int].hash);
                    }
                }
                p
            },
            None => {
                proof {
                    let j = choose|j: int|
                        0 <= j < self.blocks().len() && (#[trigger] self.blocks()[j]).hash
                            == self.blocks()[cur as int].previous_hash && self.blocks()[j].index
                            + 1 == self.blocks()[cur as int].index;
                    assert(self.has_hash(self.blocks()[cur as int].previous_hash));
                    assert(false);
                }
                0
            },
        }
    }

    /// The main branch, genesis first, read off by following predecessor
    /// hashes down from the head: a contiguous, hash-linked view of the
    /// history the node currently stands on.
    pub fn main_branch(&self) -> (branch: Vec<Block>)
        requires
            self.wf(),
        ensures
            branch@.len() == self.head_block().index + 1,
            forall|i: int| 0 <= i < branch@.len() ==> (#[trigger] branch@[i])@.index == i,
            forall|i: int|
                1 <= i < branch@.len() ==> (#[trigger] branch@[i])@.previous_hash == branch@[
                    i - 1
                ]@.hash,
            forall|i: int|
                0 <= i < branch@.len() ==> self.blocks().contains((#[trigger] branch@[i])@),
            is_genesis(branch@[0]@),
            branch@[branch@.len() - 1]@ == self.head_block(),
    {
        let mut branch: Vec<Block> = Vec::new();
        let mut cur: usize = self.head;
        while self.store[cur].index != 0
            invariant
                self.wf(),
                cur < self.blocks().len(),
                branch@.len() as int == self.head_block().index - self.blocks()[cur as int].index,
                forall|i: int|
                    0 <= i < branch@.len() ==> (#[trigger] branch@[i])@.index == self.blocks()[
                        cur as int
                    ].index + 1 + i,
                forall|i: int|
                    1 <= i < branch@.len() ==> (#[trigger] branch@[i])@.previous_hash == branch@[
                        i - 1
                    ]@.hash,
                forall|i: int|
                    0 <= i < branch@.len() ==> self.blocks().contains((#[trigger] branch@[i])@),
                branch@.len() > 0 ==> branch@[0]@.previous_hash == self.blocks()[cur as int].hash,
                branch@.len() > 0 ==> branch@[branch@.len() - 1]@ == self.head_block(),
                branch@.len() == 0 ==> cur as int == self.head_pos(),
            decreases self.blocks()[cur as int].index,
        {
            let ghost prebranch = branch@;
            let dup = self.store[cur].duplicate();
            proof {
                assert(dup@ == self.blocks()[cur as int]);
                assert(self.blocks().contains(dup@));
            }
            branch.insert(0, dup);
            proof {
                assert(branch@ =~= seq![dup] + prebranch);
                lemma_branch_prepend(self.blocks(), self.head_block(), prebranch, dup, branch@);
            }
            cur = self.parent_of(cur);
        }
        let ghost prebranch = branch@;
        let dup = self.store[cur].duplicate();
        proof {
            assert(dup@ == self.blocks()[cur as int]);
            assert(self.blocks().contains(dup@));
        }
        branch.insert(0, dup);
        proof {
            assert(branch@ =~= seq![dup] + prebranch);
            lemma_branch_prepend(self.blocks(), self.head_block(), prebranch, dup, branch@);
            if cur != 0 {
                assert(self.blocks()[cur as int].index >= 1);
            }
            assert(cur == 0);
            assert(is_genesis(branch@[0]@));
        }
        branch
    }
}

/// The head is always the tip of a longest valid stored branch: no
/// stored block sits strictly higher than the head, and among blocks at
/// the head's height the head's hash is the lexicographic minimum.
pub proof fn lemma_head_optimal(c: Blockchain, i: int)
    requires
        c.wf(),
        0 <= i < c.blocks().len(),
    ensures
        c.blocks()[i].index <= c.head_block().index,
        c.blocks()[i].index == c.head_block().index ==> !lex_lt(
            c.blocks()[i].hash,
            c.head_block().hash,
        ),
{
    assert(!better_tip(c.blocks()[i], c.blocks()[c.head_pos()]));
}

/// Nodes that have accepted the same blocks agree: two well-formed chains
/// whose stores hold the same set of blocks have the same head. This is
/// what makes the fork-choice rule deterministic across the network.
pub proof fn lemma_convergence(a: Blockchain, b: Blockchain)
    requires
        a.wf(),
        b.wf(),
        a.blocks().to_set() == b.blocks().to_set(),
    ensures
        a.head_block() == b.head_block(),
{
    let ha = a.head_block();
    let hb = b.head_block();
    assert(a.blocks().contains(ha)) by {
        assert(a.blocks()[a.head_pos()] == ha);
    }
    assert(b.blocks().contains(hb)) by {
        assert(b.blocks()[b.head_pos()] == hb);
    }
    assert(b.blocks().contains(ha)) by {
        assert(a.blocks().to_set().contains(ha));
    }
    assert(a.blocks().contains(hb)) by {
        assert(b.blocks().to_set().contains(hb));
    }
    let ia = choose|i: int| 0 <= i < b.blocks().len() && b.blocks()[i] == ha;
    let ib = choose|i: int| 0 <= i < a.blocks().len() && a.blocks()[i] == hb;
    assert(!better_tip(ha, hb)) by {
        assert(b.blocks()[ia] == ha);
    }
    assert(!better_tip(hb, ha)) by {
        assert(a.blocks()[ib] == hb);
    }
    assert(ha.index == hb.index);
    lemma_lex_connex(ha.hash, hb.hash);
    assert(ha.hash == hb.hash);
    if ia != b.head_pos() {
        assert(b.blocks()[ia].hash != b.blocks()[b.head_pos()].hash);
    }
    assert(ha == hb);
}

/// Executable lexicographic comparison of two strings.
pub fn str_lex_lt(a: &str, b: &str) -> (r: bool)
    ensures
        r == lex_lt(a@, b@),
{
    let alen = a.unicode_len();
    let blen = b.unicode_len();
    let mut i: usize = 0;
    proof {
        assert(a@.skip(0) =~= a@);
        assert(b@.skip(0) =~= b@);
    }
    while i < alen && i < blen
        invariant
            i <= alen,
            i <= blen,
            alen == a@.len(),
            blen == b@.len(),
            lex_lt(a@, b@) == lex_lt(a@.skip(i as int), b@.skip(i as int)),
        decreases alen - i,
    {
        let ca = a.get_char(i);
        let cb = b.get_char(i);
        if ca == cb {
            proof {
                assert(a@.skip(i as int).drop_first() =~= a@.skip(i as int + 1));
                assert(b@.skip(i as int).drop_first() =~= b@.skip(i as int + 1));
            }
            i = i + 1;
        } else if (ca as u32) < (cb as u32) {
            return true;
        } else {
            return false;
        }
    }
    proof {
        if i == alen && i == blen {
            assert(a@.skip(i as int).len() == 0 && b@.skip(i as int).len() == 0);
        }
    }
    alen < blen
}

} // verus!
