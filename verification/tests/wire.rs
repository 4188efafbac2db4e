//! Tests of the wire codec and the payload codec: round trips, unknown
//! tags, and malformed bytes.

use adamas::block::Block;
use adamas::network_messages::{
    decode_envelope, encode_block_envelope, encode_transaction_envelope, NetworkMessage,
};
use adamas::payload::{decode_payload, encode_payload};
use adamas::transaction::Transaction;
use adamas::wallet::Wallet;
use adamas::LedgerError;

#[test]
fn block_envelope_round_trips() {
    let block = Block::with_timestamp(
        5,
        123456789,
        "ab".repeat(32),
        String::from("some payload"),
        String::from("validator-1"),
    );
    let bytes = encode_block_envelope(&block);
    match decode_envelope(bytes.as_slice()) {
        Ok(NetworkMessage::Block(b)) => {
            assert_eq!(b.index, block.index);
            assert_eq!(b.timestamp, block.timestamp);
            assert_eq!(b.previous_hash.as_str(), block.previous_hash.as_str());
            assert_eq!(b.hash.as_str(), block.hash.as_str());
            assert_eq!(b.data.as_str(), block.data.as_str());
            assert_eq!(b.validator.as_str(), block.validator.as_str());
        },
        _ => panic!("expected a block envelope"),
    }
}

#[test]
fn transaction_envelope_round_trips() {
    let tx = Transaction {
        sender: String::from("00ff"),
        receiver: String::from("warehouse \u{2764} nine"),
        amount: u64::MAX,
        signature: String::from("abcd"),
    };
    let bytes = encode_transaction_envelope(&tx);
    match decode_envelope(bytes.as_slice()) {
        Ok(NetworkMessage::Transaction(t)) => {
            assert_eq!(t.sender.as_str(), tx.sender.as_str());
            assert_eq!(t.receiver.as_str(), tx.receiver.as_str());
            assert_eq!(t.amount, tx.amount);
            assert_eq!(t.signature.as_str(), tx.signature.as_str());
        },
        _ => panic!("expected a transaction envelope"),
    }
}

#[test]
fn unknown_tags_are_carried_not_rejected() {
    match decode_envelope(&[9u8, 1, 2, 3]) {
        Ok(NetworkMessage::Unrecognized(tag)) => assert_eq!(tag, 9),
        _ => panic!("expected an unrecognized envelope"),
    }
}

#[test]
fn malformed_envelopes_are_decode_errors() {
    // No bytes at all.
    assert!(matches!(decode_envelope(&[]), Err(LedgerError::Decode)));
    // A block tag with nothing after it.
    assert!(matches!(decode_envelope(&[1u8]), Err(LedgerError::Decode)));
    // A truncated block envelope.
    let block = Block::with_timestamp(1, 2, String::from("p"), String::from("d"), String::from("v"));
    let bytes = encode_block_envelope(&block);
    assert!(matches!(
        decode_envelope(&bytes[..bytes.len() - 1]),
        Err(LedgerError::Decode)
    ));
    // Trailing garbage after a complete record.
    let mut padded = bytes.clone();
    padded.push(0);
    assert!(matches!(decode_envelope(padded.as_slice()), Err(LedgerError::Decode)));
}

#[test]
fn payload_round_trips_and_rejects_garbage() {
    let wallet = Wallet::new();
    let tx1 = Transaction::new(&wallet, String::from("a"), 1);
    let tx2 = Transaction::new(&wallet, String::from("b"), 2);
    let batch = vec![tx1.duplicate(), tx2.duplicate()];
    let payload = encode_payload(&batch);
    let reopened = decode_payload(payload.as_str()).expect("payload must reopen");
    assert_eq!(reopened.len(), 2);
    assert_eq!(reopened[0].signature.as_str(), tx1.signature.as_str());
    assert_eq!(reopened[0].receiver.as_str(), "a");
    assert_eq!(reopened[1].signature.as_str(), tx2.signature.as_str());
    assert_eq!(reopened[1].amount, 2);

    let empty: Vec<Transaction> = Vec::new();
    let empty_payload = encode_payload(&empty);
    assert_eq!(decode_payload(empty_payload.as_str()).expect("empty batch").len(), 0);

    assert!(decode_payload("zz").is_none());
    assert!(decode_payload("").is_none());
    assert!(decode_payload("abcd").is_none());
}
