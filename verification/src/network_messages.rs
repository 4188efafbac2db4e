//! The gossip envelope and its wire codec. An envelope is a tagged record
//! carrying either a block or a transaction; unknown tags decode into an
//! explicit `Unrecognized` variant rather than failing, so the schema can
//! grow. The byte format is fixed: a one-byte tag, little-endian integers,
//! and strings as a 64-bit byte length followed by UTF-8 bytes. Encoding
//! and parsing are exact inverses, proved below.

use vstd::prelude::*;
use vstd::bytes::{
    lemma_auto_spec_u128_to_from_le_bytes, lemma_auto_spec_u64_to_from_le_bytes,
    spec_u128_from_le_bytes, spec_u128_to_le_bytes, spec_u64_from_le_bytes, spec_u64_to_le_bytes,
    u128_from_le_bytes, u128_to_le_bytes, u64_from_le_bytes, u64_to_le_bytes,
};
use vstd::slice::{slice_index_get, slice_subrange, slice_to_vec};
use vstd::string::*;
use vstd::utf8::{decode_utf8, encode_utf8, encode_utf8_decode_utf8, encode_utf8_valid_utf8,
    valid_utf8};
use crate::block::{Block, BlockModel};
use crate::errors::LedgerError;
use crate::shims::string_from_utf8;
use crate::transaction::{Transaction, TransactionModel};

verus! {

/// The wire tag of a block envelope.
pub const TAG_BLOCK: u8 = 1;

/// The wire tag of a transaction envelope.
pub const TAG_TRANSACTION: u8 = 2;

/// A tagged wire message of the gossip bus.
pub enum NetworkMessage {
    Block(Block),
    Transaction(Transaction),
    /// A tag this version does not know; carried for forward
    /// compatibility instead of failing the decode.
    Unrecognized(u8),
}

/// The mathematical content of a wire message.
pub enum MessageModel {
    Block(BlockModel),
    Transaction(TransactionModel),
    Unrecognized(u8),
}

impl View for NetworkMessage {
    type V = MessageModel;

    open spec fn view(&self) -> MessageModel {
        match self {
            NetworkMessage::Block(b) => MessageModel::Block(b@),
            NetworkMessage::Transaction(t) => MessageModel::Transaction(t@),
            NetworkMessage::Unrecognized(tag) => MessageModel::Unrecognized(*tag),
        }
    }
}

/// A string on the wire: its UTF-8 byte length, then its UTF-8 bytes.
pub open spec fn spec_encode_str(s: Seq<char>) -> Seq<u8> {
    spec_u64_to_le_bytes(encode_utf8(s).len() as u64) + encode_utf8(s)
}

/// A block record on the wire, field after field.
pub open spec fn spec_encode_block(b: BlockModel) -> Seq<u8> {
    spec_u64_to_le_bytes(b.index) + spec_u128_to_le_bytes(b.timestamp) + spec_encode_str(
        b.previous_hash,
    ) + spec_encode_str(b.hash) + spec_encode_str(b.data) + spec_encode_str(b.validator)
}

/// A transaction record on the wire, field after field.
pub open spec fn spec_encode_transaction(t: TransactionModel) -> Seq<u8> {
    spec_encode_str(t.sender) + spec_encode_str(t.receiver) + spec_u64_to_le_bytes(t.amount)
        + spec_encode_str(t.signature)
}

/// A complete block envelope.
pub open spec fn spec_block_envelope(b: BlockModel) -> Seq<u8> {
    seq![TAG_BLOCK] + spec_encode_block(b)
}

/// A complete transaction envelope.
pub open spec fn spec_transaction_envelope(t: TransactionModel) -> Seq<u8> {
    seq![TAG_TRANSACTION] + spec_encode_transaction(t)
}

/// Reads a 64-bit little-endian integer off the front.
pub open spec fn parse_u64(bytes: Seq<u8>) -> Option<(u64, Seq<u8>)> {
    if bytes.len() >= 8 {
        Some((spec_u64_from_le_bytes(bytes.take(8)), bytes.skip(8)))
    } else {
        None
    }
}

/// Reads a 128-bit little-endian integer off the front.
pub open spec fn parse_u128(bytes: Seq<u8>) -> Option<(u128, Seq<u8>)> {
    if bytes.len() >= 16 {
        Some((spec_u128_from_le_bytes(bytes.take(16)), bytes.skip(16)))
    } else {
        None
    }
}

/// Reads a length-prefixed UTF-8 string off the front.
pub open spec fn parse_str(bytes: Seq<u8>) -> Option<(Seq<char>, Seq<u8>)> {
    match parse_u64(bytes) {
        None => None,
        Some((n, rest)) => if rest.len() >= n && valid_utf8(rest.take(n as int)) {
            Some((decode_utf8(rest.take(n as int)), rest.skip(n as int)))
        } else {
            None
        },
    }
}

/// Reads a block record off the front.
pub open spec fn parse_block(bytes: Seq<u8>) -> Option<(BlockModel, Seq<u8>)> {
    match parse_u64(bytes) {
        None => None,
        Some((index, r1)) => match parse_u128(r1) {
            None => None,
            Some((timestamp, r2)) => match parse_str(r2) {
                None => None,
                Some((previous_hash, r3)) => match parse_str(r3) {
                    None => None,
                    Some((hash, r4)) => match parse_str(r4) {
                        None => None,
                        Some((data, r5)) => match parse_str(r5) {
                            None => None,
                            Some((validator, r6)) => Some(
                                (
                                    BlockModel {
                                        index,
                                        timestamp,
                                        previous_hash,
                                        hash,
                                        data,
                                        validator,
                                    },
                                    r6,
                                ),
                            ),
                        },
                    },
                },
            },
        },
    }
}

/// Reads a transaction record off the front.
pub open spec fn parse_transaction(bytes: Seq<u8>) -> Option<(TransactionModel, Seq<u8>)> {
    match parse_str(bytes) {
        None => None,
        Some((sender, r1)) => match parse_str(r1) {
            None => None,
            Some((receiver, r2)) => match parse_u64(r2) {
                None => None,
                Some((amount, r3)) => match parse_str(r3) {
                    None => None,
                    Some((signature, r4)) => Some(
                        (TransactionModel { sender, receiver, amount, signature }, r4),
                    ),
                },
            },
        },
    }
}

/// What a byte string means as an envelope: a known tag must be followed
/// by exactly one well-formed record; an unknown tag is carried as such.
pub open spec fn parse_envelope(bytes: Seq<u8>) -> Option<MessageModel> {
    if bytes.len() == 0 {
        None
    } else if bytes[0] == TAG_BLOCK {
        match parse_block(bytes.skip(1)) {
            Some((b, rest)) => if rest.len() == 0 {
                Some(MessageModel::Block(b))
            } else {
                None
            },
            None => None,
        }
    } else if bytes[0] == TAG_TRANSACTION {
        match parse_transaction(bytes.skip(1)) {
            Some((t, rest)) => if rest.len() == 0 {
                Some(MessageModel::Transaction(t))
            } else {
                None
            },
            None => None,
        }
    } else {
        Some(MessageModel::Unrecognized(bytes[0]))
    }
}

/// Parsing undoes writing a 64-bit integer.
proof fn lemma_parse_u64_round(x: u64, rest: Seq<u8>)
    ensures
        parse_u64(spec_u64_to_le_bytes(x) + rest) == Some((x, rest)),
{
    lemma_auto_spec_u64_to_from_le_bytes();
    assert((spec_u64_to_le_bytes(x) + rest).take(8) =~= spec_u64_to_le_bytes(x));
    assert((spec_u64_to_le_bytes(x) + rest).skip(8) =~= rest);
}

/// Parsing undoes writing a 128-bit integer.
proof fn lemma_parse_u128_round(x: u128, rest: Seq<u8>)
    ensures
        parse_u128(spec_u128_to_le_bytes(x) + rest) == Some((x, rest)),
{
    lemma_auto_spec_u128_to_from_le_bytes();
    assert((spec_u128_to_le_bytes(x) + rest).take(16) =~= spec_u128_to_le_bytes(x));
    assert((spec_u128_to_le_bytes(x) + rest).skip(16) =~= rest);
}

/// Parsing undoes writing a string, for any string an executable encoder
/// can meet.
proof fn lemma_parse_str_round(s: Seq<char>, rest: Seq<u8>)
    requires
        encode_utf8(s).len() <= u64::MAX,
    ensures
        parse_str(spec_encode_str(s) + rest) == Some((s, rest)),
{
    let eb = encode_utf8(s);
    let n = eb.len() as u64;
    assert(spec_encode_str(s) + rest =~= spec_u64_to_le_bytes(n) + (eb + rest));
    lemma_parse_u64_round(n, eb + rest);
    assert((eb + rest).take(n as int) =~= eb);
    assert((eb + rest).skip(n as int) =~= rest);
    encode_utf8_valid_utf8(s);
    encode_utf8_decode_utf8(s);
}

/// Every field of a block as the executable encoder writes it fits its
/// length prefix.
pub open spec fn block_encodable(b: BlockModel) -> bool {
    &&& encode_utf8(b.previous_hash).len() <= u64::MAX
    &&& encode_utf8(b.hash).len() <= u64::MAX
    &&& encode_utf8(b.data).len() <= u64::MAX
    &&& encode_utf8(b.validator).len() <= u64::MAX
}

/// Every field of a transaction as the executable encoder writes it fits
/// its length prefix.
pub open spec fn transaction_encodable(t: TransactionModel) -> bool {
    &&& encode_utf8(t.sender).len() <= u64::MAX
    &&& encode_utf8(t.receiver).len() <= u64::MAX
    &&& encode_utf8(t.signature).len() <= u64::MAX
}

/// Round trip for block records: parsing undoes encoding and leaves the
/// trailing bytes.
pub proof fn lemma_parse_block_round(b: BlockModel, rest: Seq<u8>)
    requires
        block_encodable(b),
    ensures
        parse_block(spec_encode_block(b) + rest) == Some((b, rest)),
{
    let e_idx = spec_u64_to_le_bytes(b.index);
    let e_ts = spec_u128_to_le_bytes(b.timestamp);
    let e_prev = spec_encode_str(b.previous_hash);
    let e_hash = spec_encode_str(b.hash);
    let e_data = spec_encode_str(b.data);
    let e_val = spec_encode_str(b.validator);
    assert(spec_encode_block(b) + rest =~= e_idx + (e_ts + (e_prev + (e_hash + (e_data + (e_val
        + rest))))));
    lemma_parse_u64_round(b.index, e_ts + (e_prev + (e_hash + (e_data + (e_val + rest)))));
    lemma_parse_u128_round(b.timestamp, e_prev + (e_hash + (e_data + (e_val + rest))));
    lemma_parse_str_round(b.previous_hash, e_hash + (e_data + (e_val + rest)));
    lemma_parse_str_round(b.hash, e_data + (e_val + rest));
    lemma_parse_str_round(b.data, e_val + rest);
    lemma_parse_str_round(b.validator, rest);
}

/// Round trip for transaction records.
pub proof fn lemma_parse_transaction_round(t: TransactionModel, rest: Seq<u8>)
    requires
        transaction_encodable(t),
    ensures
        parse_transaction(spec_encode_transaction(t) + rest) == Some((t, rest)),
{
    let e_sender = spec_encode_str(t.sender);
    let e_receiver = spec_encode_str(t.receiver);
    let e_amount = spec_u64_to_le_bytes(t.amount);
    let e_sig = spec_encode_str(t.signature);
    assert(spec_encode_transaction(t) + rest =~= e_sender + (e_receiver + (e_amount + (e_sig
        + rest))));
    lemma_parse_str_round(t.sender, e_receiver + (e_amount + (e_sig + rest)));
    lemma_parse_str_round(t.receiver, e_amount + (e_sig + rest));
    lemma_parse_u64_round(t.amount, e_sig + rest);
    lemma_parse_str_round(t.signature, rest);
}

/// Round trip for whole block envelopes: what a node publishes, every
/// node decodes back to the identical block.
pub proof fn lemma_block_envelope_round(b: BlockModel)
    requires
        block_encodable(b),
    ensures
        parse_envelope(spec_block_envelope(b)) == Some(MessageModel::Block(b)),
{
    let bytes = spec_block_envelope(b);
    assert(bytes[0] == TAG_BLOCK);
    assert(bytes.skip(1) =~= spec_encode_block(b) + Seq::<u8>::empty());
    lemma_parse_block_round(b, Seq::<u8>::empty());
}

/// Round trip for whole transaction envelopes.
pub proof fn lemma_transaction_envelope_round(t: TransactionModel)
    requires
        transaction_encodable(t),
    ensures
        parse_envelope(spec_transaction_envelope(t)) == Some(MessageModel::Transaction(t)),
{
    let bytes = spec_transaction_envelope(t);
    assert(bytes[0] == TAG_TRANSACTION);
    assert(bytes.skip(1) =~= spec_encode_transaction(t) + Seq::<u8>::empty());
    lemma_parse_transaction_round(t, Seq::<u8>::empty());
}

/// Writes a length-prefixed string onto the end of a buffer.
fn encode_str_into(out: &mut Vec<u8>, s: &str)
    ensures
        final(out)@ == old(out)@ + spec_encode_str(s@),
        encode_utf8(s@).len() <= u64::MAX,
{
    let bytes = s.as_bytes();
    let mut len_bytes = u64_to_le_bytes(bytes.len() as u64);
    out.append(&mut len_bytes);
    out.extend_from_slice(bytes);
    proof {
        assert(final(out)@ =~= old(out)@ + spec_encode_str(s@));
    }
}

/// Encodes a block into a complete envelope.
pub fn encode_block_envelope(b: &Block) -> (out: Vec<u8>)
    ensures
        out@ == spec_block_envelope(b@),
        block_encodable(b@),
{
    let mut out: Vec<u8> = Vec::new();
    out.push(TAG_BLOCK);
    let mut idx = u64_to_le_bytes(b.index);
    out.append(&mut idx);
    let mut ts = u128_to_le_bytes(b.timestamp);
    out.append(&mut ts);
    encode_str_into(&mut out, b.previous_hash.as_str());
    encode_str_into(&mut out, b.hash.as_str());
    encode_str_into(&mut out, b.data.as_str());
    encode_str_into(&mut out, b.validator.as_str());
    proof {
        assert(out@ =~= spec_block_envelope(b@));
    }
    out
}

/// Writes a transaction record onto the end of a buffer.
pub fn encode_transaction_record(out: &mut Vec<u8>, t: &Transaction)
    ensures
        final(out)@ == old(out)@ + spec_encode_transaction(t@),
        transaction_encodable(t@),
{
    encode_str_into(out, t.sender.as_str());
    encode_str_into(out, t.receiver.as_str());
    let mut amt = u64_to_le_bytes(t.amount);
    out.append(&mut amt);
    encode_str_into(out, t.signature.as_str());
    proof {
        assert(final(out)@ =~= old(out)@ + spec_encode_transaction(t@));
    }
}

/// Encodes a transaction into a complete envelope.
pub fn encode_transaction_envelope(t: &Transaction) -> (out: Vec<u8>)
    ensures
        out@ == spec_transaction_envelope(t@),
        transaction_encodable(t@),
{
    let mut out: Vec<u8> = Vec::new();
    out.push(TAG_TRANSACTION);
    encode_transaction_record(&mut out, t);
    proof {
        assert(out@ =~= spec_transaction_envelope(t@));
    }
    out
}

/// Reads a 64-bit integer at the cursor, advancing it.
pub fn read_u64(bytes: &[u8], pos: &mut usize) -> (r: Option<u64>)
    requires
        *old(pos) <= bytes@.len(),
    ensures
        *final(pos) <= bytes@.len(),
        match r {
            Some(x) => parse_u64(bytes@.skip(*old(pos) as int)) == Some(
                (x, bytes@.skip(*final(pos) as int)),
            ),
            None => parse_u64(bytes@.skip(*old(pos) as int)) is None && *final(pos) == *old(pos),
        },
{
    if bytes.len() - *pos >= 8 {
        let sub = slice_subrange(bytes, *pos, *pos + 8);
        let x = u64_from_le_bytes(sub);
        proof {
            assert(bytes@.skip(*old(pos) as int).take(8) =~= bytes@.subrange(
                *old(pos) as int,
                *old(pos) + 8,
            ));
            assert(bytes@.skip(*old(pos) as int).skip(8) =~= bytes@.skip(*old(pos) + 8));
        }
        *pos = *pos + 8;
        Some(x)
    } else {
        None
    }
}

/// Reads a 128-bit integer at the cursor, advancing it.
fn read_u128(bytes: &[u8], pos: &mut usize) -> (r: Option<u128>)
    requires
        *old(pos) <= bytes@.len(),
    ensures
        *final(pos) <= bytes@.len(),
        match r {
            Some(x) => parse_u128(bytes@.skip(*old(pos) as int)) == Some(
                (x, bytes@.skip(*final(pos) as int)),
            ),
            None => parse_u128(bytes@.skip(*old(pos) as int)) is None && *final(pos) == *old(
                pos,
            ),
        },
{
    if bytes.len() - *pos >= 16 {
        let sub = slice_subrange(bytes, *pos, *pos + 16);
        let x = u128_from_le_bytes(sub);
        proof {
            assert(bytes@.skip(*old(pos) as int).take(16) =~= bytes@.subrange(
                *old(pos) as int,
                *old(pos) + 16,
            ));
            assert(bytes@.skip(*old(pos) as int).skip(16) =~= bytes@.skip(*old(pos) + 16));
        }
        *pos = *pos + 16;
        Some(x)
    } else {
        None
    }
}

/// Reads a length-prefixed UTF-8 string at the cursor, advancing it.
fn read_str(bytes: &[u8], pos: &mut usize) -> (r: Option<String>)
    requires
        *old(pos) <= bytes@.len(),
    ensures
        *final(pos) <= bytes@.len(),
        match r {
            Some(s) => parse_str(bytes@.skip(*old(pos) as int)) == Some(
                (s@, bytes@.skip(*final(pos) as int)),
            ),
            None => parse_str(bytes@.skip(*old(pos) as int)) is None,
        },
{
    let n = match read_u64(bytes, pos) {
        Some(x) => x,
        None => {
            return None;
        },
    };
    let remaining = bytes.len() - *pos;
    if n > remaining as u64 {
        return None;
    }
    let n_us = n as usize;
    let sub = slice_subrange(bytes, *pos, *pos + n_us);
    let v = slice_to_vec(sub);
    let ghost mid = *pos;
    proof {
        assert(bytes@.skip(mid as int).take(n as int) =~= bytes@.subrange(
            mid as int,
            mid + n_us,
        ));
    }
    match string_from_utf8(v) {
        Some(s) => {
            proof {
                assert(bytes@.skip(mid as int).skip(n as int) =~= bytes@.skip(mid + n_us));
            }
            *pos = *pos + n_us;
            Some(s)
        },
        None => None,
    }
}

/// Reads a transaction record at the cursor, advancing it.
pub fn read_transaction(bytes: &[u8], pos: &mut usize) -> (r: Option<Transaction>)
    requires
        *old(pos) <= bytes@.len(),
    ensures
        *final(pos) <= bytes@.len(),
        match r {
            Some(t) => parse_transaction(bytes@.skip(*old(pos) as int)) == Some(
                (t@, bytes@.skip(*final(pos) as int)),
            ),
            None => parse_transaction(bytes@.skip(*old(pos) as int)) is None,
        },
{
    let sender = match read_str(bytes, pos) {
        Some(s) => s,
        None => {
            return None;
        },
    };
    let receiver = match read_str(bytes, pos) {
        Some(s) => s,
        None => {
            return None;
        },
    };
    let amount = match read_u64(bytes, pos) {
        Some(x) => x,
        None => {
            return None;
        },
    };
    let signature = match read_str(bytes, pos) {
        Some(s) => s,
        None => {
            return None;
        },
    };
    Some(Transaction { sender, receiver, amount, signature })
}

/// Decodes one envelope from raw wire bytes. Succeeds exactly on the byte
/// strings the format gives meaning to, and then returns that meaning;
/// everything else is a `Decode` error, never a crash.
pub fn decode_envelope(bytes: &[u8]) -> (r: Result<NetworkMessage, LedgerError>)
    ensures
        match (parse_envelope(bytes@), r) {
            (Some(m), Ok(msg)) => msg@ == m,
            (None, Err(e)) => e == LedgerError::Decode,
            _ => false,
        },
{
    if bytes.len() == 0 {
        return Err(LedgerError::Decode);
    }
    let tag = *slice_index_get(bytes, 0);
    let mut pos: usize = 1;
    if tag == TAG_BLOCK {
        let index = match read_u64(bytes, &mut pos) {
            Some(x) => x,
            None => {
                return Err(LedgerError::Decode);
            },
        };
        let timestamp = match read_u128(bytes, &mut pos) {
            Some(x) => x,
            None => {
                return Err(LedgerError::Decode);
            },
        };
        let previous_hash = match read_str(bytes, &mut pos) {
            Some(s) => s,
            None => {
                return Err(LedgerError::Decode);
            },
        };
        let hash = match read_str(bytes, &mut pos) {
            Some(s) => s,
            None => {
                return Err(LedgerError::Decode);
            },
        };
        let data = match read_str(bytes, &mut pos) {
            Some(s) => s,
            None => {
                return Err(LedgerError::Decode);
            },
        };
        let validator = match read_str(bytes, &mut pos) {
            Some(s) => s,
            None => {
                return Err(LedgerError::Decode);
            },
        };
        if pos != bytes.len() {
            return Err(LedgerError::Decode);
        }
        let block = Block { index, timestamp, previous_hash, hash, data, validator };
        Ok(NetworkMessage::Block(block))
    } else if tag == TAG_TRANSACTION {
        let tx = match read_transaction(bytes, &mut pos) {
            Some(t) => t,
            None => {
                return Err(LedgerError::Decode);
            },
        };
        if pos != bytes.len() {
            return Err(LedgerError::Decode);
        }
        Ok(NetworkMessage::Transaction(tx))
    } else {
        Ok(NetworkMessage::Unrecognized(tag))
    }
}

} // verus!
