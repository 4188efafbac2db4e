//! Blocks: immutable, hash-linked units of history. A block's hash is the
//! SHA-256 digest (hex-encoded) of one fixed canonical rendering of its
//! fields, computed once at construction and recomputable by anyone for
//! tamper detection.

use vstd::prelude::*;
use vstd::string::*;
use vstd::utf8::encode_utf8;
use crate::crypto::{sha256, sha256_of};
use crate::decimal::{dec_of, u128_to_dec, u64_to_dec};
use crate::hexstr::{hex_encode, lemma_hex_encode_valid, spec_hex_encode, valid_hex};
use crate::shims::{now_millis, string_push};

verus! {

/// Width in characters of a hex-encoded SHA-256 digest.
pub const DIGEST_HEX_WIDTH: usize = 64;

/// The mathematical content of a block: every field as a plain value.
#[verifier::ext_equal]
pub struct BlockModel {
    pub index: u64,
    pub timestamp: u128,
    pub previous_hash: Seq<char>,
    pub hash: Seq<char>,
    pub data: Seq<char>,
    pub validator: Seq<char>,
}

/// A block of the chain. `hash` is fixed at construction; the remaining
/// fields are the hashed content.
pub struct Block {
    pub index: u64,
    pub timestamp: u128,
    pub previous_hash: String,
    pub hash: String,
    pub data: String,
    pub validator: String,
}

impl View for Block {
    type V = BlockModel;

    open spec fn view(&self) -> BlockModel {
        BlockModel {
            index: self.index,
            timestamp: self.timestamp,
            previous_hash: self.previous_hash@,
            hash: self.hash@,
            data: self.data@,
            validator: self.validator@,
        }
    }
}

/// The canonical rendering that is hashed: decimal index, decimal
/// timestamp, then previous hash, data and validator, concatenated.
pub open spec fn block_preimage(m: BlockModel) -> Seq<char> {
    dec_of(m.index as nat) + dec_of(m.timestamp as nat) + m.previous_hash + m.data + m.validator
}

/// The hash a block with content `m` must carry: the hex-encoded SHA-256
/// digest of the canonical rendering's UTF-8 bytes.
pub open spec fn block_hash_of(m: BlockModel) -> Seq<char> {
    spec_hex_encode(sha256_of(encode_utf8(block_preimage(m))))
}

impl BlockModel {
    /// Self-integrity: the stored hash is the hash of the content.
    pub open spec fn wf(self) -> bool {
        self.hash == block_hash_of(self)
    }
}

/// The all-zero sentinel a genesis block declares as its predecessor.
pub open spec fn zero_hash() -> Seq<char> {
    Seq::new(DIGEST_HEX_WIDTH as nat, |i: int| '0')
}

/// The fixed, well-known genesis content every node starts from.
pub open spec fn is_genesis(m: BlockModel) -> bool {
    &&& m.index == 0
    &&& m.timestamp == 0
    &&& m.previous_hash == zero_hash()
    &&& m.data == "GENESIS BLOCK"@
    &&& m.validator == "SYSTEM"@
    &&& m.wf()
}

/// The all-zero sentinel as an executable string.
pub fn zero_hash_string() -> (s: String)
    ensures
        s@ == zero_hash(),
{
    let mut s = String::new();
    let mut i: usize = 0;
    while i < DIGEST_HEX_WIDTH
        invariant
            i <= DIGEST_HEX_WIDTH,
            s@.len() == i,
            forall|k: int| 0 <= k < i ==> s@[k] == '0',
        decreases DIGEST_HEX_WIDTH - i,
    {
        string_push(&mut s, '0');
        i = i + 1;
    }
    proof {
        assert(s@ =~= zero_hash());
    }
    s
}

impl Block {
    /// Recomputes the hash this block's content calls for; equal to the
    /// `hash` field exactly when the block is untampered.
    pub fn calculate_hash(&self) -> (r: String)
        ensures
            r@ == block_hash_of(self@),
            r@.len() == DIGEST_HEX_WIDTH,
            valid_hex(r@),
    {
        let mut input = u64_to_dec(self.index);
        let ts = u128_to_dec(self.timestamp);
        input.append(ts.as_str());
        input.append(self.previous_hash.as_str());
        input.append(self.data.as_str());
        input.append(self.validator.as_str());
        proof {
            assert(input@ == block_preimage(self@));
        }
        let digest = sha256(input.as_str().as_bytes());
        proof {
            lemma_hex_encode_valid(digest@);
        }
        hex_encode(digest.as_slice())
    }

    /// Builds a block over an explicitly given timestamp; the hash is
    /// computed from the fields, so the result is well formed.
    pub fn with_timestamp(
        index: u64,
        timestamp: u128,
        previous_hash: String,
        data: String,
        validator: String,
    ) -> (b: Block)
        ensures
            b@.index == index,
            b@.timestamp == timestamp,
            b@.previous_hash == previous_hash@,
            b@.data == data@,
            b@.validator == validator@,
            b@.wf(),
            b@.hash.len() == DIGEST_HEX_WIDTH,
    {
        let mut b = Block { index, timestamp, previous_hash, hash: String::new(), data, validator };
        let h = b.calculate_hash();
        b.hash = h;
        b
    }

    /// Builds a block stamped with the current wall-clock time.
    pub fn new(index: u64, previous_hash: String, data: String, validator: String) -> (b: Block)
        ensures
            b@.index == index,
            b@.previous_hash == previous_hash@,
            b@.data == data@,
            b@.validator == validator@,
            b@.wf(),
            b@.hash.len() == DIGEST_HEX_WIDTH,
    {
        let timestamp = now_millis();
        Block::with_timestamp(index, timestamp, previous_hash, data, validator)
    }

    /// A field-for-field copy.
    pub fn duplicate(&self) -> (b: Block)
        ensures
            b == *self,
    {
        Block {
            index: self.index,
            timestamp: self.timestamp,
            previous_hash: self.previous_hash.clone(),
            hash: self.hash.clone(),
            data: self.data.clone(),
            validator: self.validator.clone(),
        }
    }
}

/// The fixed genesis block. Deterministic: every node that constructs it
/// gets the same content and therefore the same hash.
pub fn genesis_block() -> (b: Block)
    ensures
        is_genesis(b@),
{
    let previous_hash = zero_hash_string();
    let data = String::from_str("GENESIS BLOCK");
    let validator = String::from_str("SYSTEM");
    Block::with_timestamp(0, 0, previous_hash, data, validator)
}

/// There is exactly one genesis content: any two blocks satisfying the
/// genesis description are equal, field for field and hash for hash, so
/// independently started nodes converge on an identical genesis.
pub proof fn lemma_genesis_unique(a: BlockModel, b: BlockModel)
    requires
        is_genesis(a),
        is_genesis(b),
    ensures
        a == b,
{
    assert(a =~= b);
}

/// Hash determinism: two blocks with the same content call for the same
/// hash, whatever hash fields they carry.
pub proof fn lemma_hash_determinism(a: BlockModel, b: BlockModel)
    requires
        a.index == b.index,
        a.timestamp == b.timestamp,
        a.previous_hash == b.previous_hash,
        a.data == b.data,
        a.validator == b.validator,
    ensures
        block_hash_of(a) == block_hash_of(b),
{
}

} // verus!
