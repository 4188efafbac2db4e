//! The block payload: a sealed batch of transactions, rendered as a hex
//! string so it can live in a block's `data` field. The batch format is a
//! 64-bit count followed by the transaction records of the wire codec;
//! writing and parsing are exact inverses, so a sealed block carries
//! exactly the transactions that were drained into it.

use vstd::prelude::*;
use vstd::bytes::{
    lemma_auto_spec_u64_to_from_le_bytes, spec_u64_to_le_bytes, u64_to_le_bytes,
};
use crate::hexstr::{
    hex_decode, hex_encode, lemma_hex_decode_encode, lemma_hex_encode_valid, spec_hex_decode,
    spec_hex_encode, valid_hex,
};
use crate::network_messages::{
    encode_transaction_record, parse_transaction, parse_u64, read_transaction,
    spec_encode_transaction, transaction_encodable,
};
use crate::transaction::{Transaction, TransactionModel};

verus! {

/// The concatenated records of a batch.
pub open spec fn spec_encode_txs(txs: Seq<TransactionModel>) -> Seq<u8>
    decreases txs.len(),
{
    if txs.len() == 0 {
        Seq::empty()
    } else {
        spec_encode_transaction(txs[0]) + spec_encode_txs(txs.drop_first())
    }
}

/// A batch on the wire: its count, then its records.
pub open spec fn spec_encode_batch(txs: Seq<TransactionModel>) -> Seq<u8> {
    spec_u64_to_le_bytes(txs.len() as u64) + spec_encode_txs(txs)
}

/// Reads `n` transaction records off the front.
pub open spec fn parse_txs(bytes: Seq<u8>, n: nat) -> Option<(Seq<TransactionModel>, Seq<u8>)>
    decreases n,
{
    if n == 0 {
        Some((Seq::empty(), bytes))
    } else {
        match parse_transaction(bytes) {
            None => None,
            Some((t, rest)) => match parse_txs(rest, (n - 1) as nat) {
                None => None,
                Some((ts, rest2)) => Some((seq![t] + ts, rest2)),
            },
        }
    }
}

/// What a byte string means as a batch: a count, exactly that many
/// records, and nothing after them.
pub open spec fn parse_batch(bytes: Seq<u8>) -> Option<Seq<TransactionModel>> {
    match parse_u64(bytes) {
        None => None,
        Some((n, rest)) => match parse_txs(rest, n as nat) {
            None => None,
            Some((ts, rest2)) => if rest2.len() == 0 {
                Some(ts)
            } else {
                None
            },
        },
    }
}

/// The payload string a batch seals into: the batch bytes, hex-encoded.
pub open spec fn spec_payload(txs: Seq<TransactionModel>) -> Seq<char> {
    spec_hex_encode(spec_encode_batch(txs))
}

/// What a payload string means: hex-decode, then parse the batch.
pub open spec fn parse_payload(s: Seq<char>) -> Option<Seq<TransactionModel>> {
    if valid_hex(s) {
        parse_batch(spec_hex_decode(s))
    } else {
        None
    }
}

/// Whether every transaction of a batch fits the wire format's length
/// prefixes, as everything an executable encoder handles does.
pub open spec fn batch_encodable(txs: Seq<TransactionModel>) -> bool {
    &&& txs.len() <= u64::MAX
    &&& forall|i: int| 0 <= i < txs.len() ==> transaction_encodable(#[trigger] txs[i])
}

/// Parsing `n` records undoes writing `n` records.
proof fn lemma_parse_txs_round(txs: Seq<TransactionModel>, rest: Seq<u8>)
    requires
        forall|i: int| 0 <= i < txs.len() ==> transaction_encodable(#[trigger] txs[i]),
    ensures
        parse_txs(spec_encode_txs(txs) + rest, txs.len()) == Some((txs, rest)),
    decreases txs.len(),
{
    if txs.len() == 0 {
        assert(spec_encode_txs(txs) + rest =~= rest);
        assert(Seq::<TransactionModel>::empty() =~= txs);
    } else {
        let t = txs[0];
        let tail = txs.drop_first();
        assert(spec_encode_txs(txs) + rest =~= spec_encode_transaction(t) + (spec_encode_txs(tail)
            + rest));
        crate::network_messages::lemma_parse_transaction_round(t, spec_encode_txs(tail) + rest);
        lemma_parse_txs_round(tail, rest);
        assert(seq![t] + tail =~= txs);
    }
}

/// The payload round trip: a sealed payload parses back to exactly the
/// batch that was sealed.
pub proof fn lemma_payload_round(txs: Seq<TransactionModel>)
    requires
        batch_encodable(txs),
    ensures
        parse_payload(spec_payload(txs)) == Some(txs),
{
    let bytes = spec_encode_batch(txs);
    lemma_hex_encode_valid(bytes);
    lemma_hex_decode_encode(bytes);
    assert(bytes =~= spec_u64_to_le_bytes(txs.len() as u64) + spec_encode_txs(txs));
    lemma_auto_spec_u64_to_from_le_bytes();
    assert(bytes.take(8) =~= spec_u64_to_le_bytes(txs.len() as u64));
    assert(bytes.skip(8) =~= spec_encode_txs(txs));
    assert(spec_encode_txs(txs) =~= spec_encode_txs(txs) + Seq::<u8>::empty());
    lemma_parse_txs_round(txs, Seq::<u8>::empty());
}

/// Seals a batch of transactions into a payload string.
pub fn encode_payload(txs: &Vec<Transaction>) -> (s: String)
    ensures
        s@ == spec_payload(txs@.map_values(|t: Transaction| t@)),
        batch_encodable(txs@.map_values(|t: Transaction| t@)),
{
    let ghost models = txs@.map_values(|t: Transaction| t@);
    let mut bytes: Vec<u8> = Vec::new();
    let mut count_bytes = u64_to_le_bytes(txs.len() as u64);
    bytes.append(&mut count_bytes);
    let mut i: usize = 0;
    proof {
        assert(spec_encode_txs(models.take(0)) =~= Seq::<u8>::empty());
        assert(bytes@ =~= spec_u64_to_le_bytes(models.len() as u64) + spec_encode_txs(
            models.take(0),
        ));
    }
    while i < txs.len()
        invariant
            i <= txs@.len(),
            models == txs@.map_values(|t: Transaction| t@),
            bytes@ == spec_u64_to_le_bytes(models.len() as u64) + spec_encode_txs(
                models.take(i as int),
            ),
            forall|k: int| 0 <= k < i ==> transaction_encodable(#[trigger] models[k]),
        decreases txs@.len() - i,
    {
        let ghost prebytes = bytes@;
        encode_transaction_record(&mut bytes, &txs[i]);
        proof {
            lemma_encode_txs_snoc(models.take(i as int), models[i as int]);
            assert(models.take(i as int).push(models[i as int]) =~= models.take(i as int + 1));
            assert(bytes@ =~= spec_u64_to_le_bytes(models.len() as u64) + spec_encode_txs(
                models.take(i as int + 1),
            ));
        }
        i = i + 1;
    }
    proof {
        assert(models.take(models.len() as int) =~= models);
    }
    hex_encode(bytes.as_slice())
}

/// Writing one more record extends the concatenation at the end.
proof fn lemma_encode_txs_snoc(txs: Seq<TransactionModel>, t: TransactionModel)
    ensures
        spec_encode_txs(txs.push(t)) == spec_encode_txs(txs) + spec_encode_transaction(t),
    decreases txs.len(),
{
    if txs.len() == 0 {
        assert(txs.push(t).drop_first() =~= Seq::<TransactionModel>::empty());
        assert(txs.push(t)[0] == t);
        assert(spec_encode_txs(Seq::<TransactionModel>::empty()) =~= Seq::<u8>::empty());
        assert(spec_encode_txs(txs.push(t)) =~= spec_encode_transaction(t) + Seq::<u8>::empty());
        assert(spec_encode_txs(txs.push(t)) =~= spec_encode_txs(txs) + spec_encode_transaction(t));
    } else {
        assert(txs.push(t)[0] == txs[0]);
        assert(txs.push(t).drop_first() =~= txs.drop_first().push(t));
        lemma_encode_txs_snoc(txs.drop_first(), t);
        assert(spec_encode_txs(txs.push(t)) =~= spec_encode_transaction(txs[0])
            + spec_encode_txs(txs.drop_first().push(t)));
        assert(spec_encode_txs(txs.push(t)) =~= spec_encode_txs(txs) + spec_encode_transaction(t));
    }
}

/// Opens a payload string back into its batch. Succeeds exactly on the
/// strings some batch seals to, and then returns that batch.
pub fn decode_payload(s: &str) -> (r: Option<Vec<Transaction>>)
    ensures
        match r {
            Some(txs) => parse_payload(s@) == Some(txs@.map_values(|t: Transaction| t@)),
            None => parse_payload(s@) is None,
        },
{
    let bytes = match hex_decode(s) {
        Some(v) => v,
        None => {
            return None;
        },
    };
    let mut pos: usize = 0;
    let n = match crate::network_messages::read_u64(bytes.as_slice(), &mut pos) {
        Some(x) => x,
        None => {
            return None;
        },
    };
    let mut collected: Vec<Transaction> = Vec::new();
    let mut i: u64 = 0;
    proof {
        assert(bytes@.skip(0) =~= bytes@);
        assert(collected@.map_values(|t: Transaction| t@) =~= Seq::<TransactionModel>::empty());
        if parse_txs(bytes@.skip(pos as int), n as nat) is Some {
            let (ts, rest2) = parse_txs(bytes@.skip(pos as int), n as nat)->0;
            assert(collected@.map_values(|t: Transaction| t@) + ts =~= ts);
        }
    }
    while i < n
        invariant
            i <= n,
            pos <= bytes@.len(),
            collected@.len() == i,
            parse_payload(s@) == (match parse_txs(bytes@.skip(pos as int), (n - i) as nat) {
                Some((ts, rest2)) => if rest2.len() == 0 {
                    Some(collected@.map_values(|t: Transaction| t@) + ts)
                } else {
                    None
                },
                None => None::<Seq<TransactionModel>>,
            }),
        decreases n - i,
    {
        let ghost precollected = collected@;
        let ghost oldpos = pos;
        let tx = match read_transaction(bytes.as_slice(), &mut pos) {
            Some(t) => t,
            None => {
                return None;
            },
        };
        collected.push(tx);
        proof {
            assert(collected@ =~= precollected.push(tx));
            let tail = parse_txs(bytes@.skip(pos as int), (n - i - 1) as nat);
            assert(parse_txs(bytes@.skip(oldpos as int), (n - i) as nat) == (match tail {
                None => None::<(Seq<TransactionModel>, Seq<u8>)>,
                Some((ts, rest2)) => Some((seq![tx@] + ts, rest2)),
            }));
            if tail is Some {
                let (ts, rest2) = tail->0;
                assert(precollected.map_values(|t: Transaction| t@) + (seq![tx@] + ts)
                    =~= collected@.map_values(|t: Transaction| t@) + ts);
            }
        }
        i = i + 1;
    }
    if pos != bytes.len() {
        proof {
            assert(bytes@.skip(pos as int).len() != 0);
        }
        return None;
    }
    proof {
        assert(bytes@.skip(pos as int).len() == 0);
        assert(collected@.map_values(|t: Transaction| t@) + Seq::<TransactionModel>::empty()
            =~= collected@.map_values(|t: Transaction| t@));
    }
    Some(collected)
}

} // verus!
