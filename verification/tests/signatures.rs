//! Tests of wallets, transaction signatures, and mempool admission.

use adamas::mempool::Mempool;
use adamas::transaction::Transaction;
use adamas::wallet::Wallet;

/// Replaces one character of a hex string with a different hex digit.
fn flip_hex_char(s: &str, at: usize) -> String {
    let mut chars: Vec<char> = s.chars().collect();
    chars[at] = if chars[at] == '0' { '1' } else { '0' };
    chars.into_iter().collect()
}

#[test]
fn wallet_signs_and_verifies() {
    let wallet = Wallet::new();
    let signature = wallet.sign("pay alice 5");
    assert!(Wallet::verify("pay alice 5", signature.as_str(), wallet.public_key_str().as_str()));
    // A different message fails.
    assert!(!Wallet::verify("pay alice 6", signature.as_str(), wallet.public_key_str().as_str()));
    // A flipped signature byte fails.
    let bad_sig = flip_hex_char(signature.as_str(), 10);
    assert!(!Wallet::verify("pay alice 5", bad_sig.as_str(), wallet.public_key_str().as_str()));
    // Malformed encodings fail without panicking.
    assert!(!Wallet::verify("pay alice 5", "zz", wallet.public_key_str().as_str()));
    assert!(!Wallet::verify("pay alice 5", signature.as_str(), "abc"));
    assert!(!Wallet::verify("pay alice 5", signature.as_str(), ""));
}

#[test]
fn transaction_verifies_until_tampered() {
    let wallet = Wallet::new();
    let tx = Transaction::new(&wallet, String::from("warehouse-7"), 41);
    assert!(tx.verify());

    // Flipping a payload field invalidates the signature.
    let mut wrong_amount = tx.duplicate();
    wrong_amount.amount = 42;
    assert!(!wrong_amount.verify());

    let mut wrong_receiver = tx.duplicate();
    wrong_receiver.receiver = String::from("warehouse-8");
    assert!(!wrong_receiver.verify());

    // Flipping a signature character invalidates it.
    let mut wrong_sig = tx.duplicate();
    wrong_sig.signature = flip_hex_char(tx.signature.as_str(), 0);
    assert!(!wrong_sig.verify());

    // A sender that is not the signing key fails.
    let other = Wallet::new();
    let mut wrong_sender = tx.duplicate();
    wrong_sender.sender = other.public_key_str().clone();
    assert!(!wrong_sender.verify());
}

#[test]
fn hex_case_is_accepted_on_the_way_in() {
    // The decoder behind verification accepts either hex case, and the
    // encoders emit lowercase.
    let wallet = Wallet::new();
    let tx = Transaction::new(&wallet, String::from("case-check"), 9);
    assert!(tx.signature.chars().all(|c| c.is_ascii_hexdigit() && !c.is_ascii_uppercase()));
    let mut upper = tx.duplicate();
    upper.signature = tx.signature.to_uppercase();
    assert!(upper.verify());
    let mut truncated = tx.duplicate();
    truncated.signature = String::from(&tx.signature[..tx.signature.len() - 1]);
    assert!(!truncated.verify());
}

#[test]
fn mempool_rejects_invalid_and_deduplicates() {
    let wallet = Wallet::new();
    let tx = Transaction::new(&wallet, String::from("dock-3"), 7);
    let mut pool = Mempool::new();
    assert_eq!(pool.pending_count(), 0);

    assert!(pool.add_transaction(tx.duplicate()));
    assert_eq!(pool.pending_count(), 1);

    // Re-submitting the same signature never grows the pool past one.
    assert!(pool.add_transaction(tx.duplicate()));
    assert_eq!(pool.pending_count(), 1);

    // An invalid transaction is rejected without mutation.
    let mut bad = tx.duplicate();
    bad.amount = 8;
    assert!(!pool.add_transaction(bad));
    assert_eq!(pool.pending_count(), 1);

    pool.clear();
    assert_eq!(pool.pending_count(), 0);
}

#[test]
fn mempool_drain_returns_exactly_the_pending_set() {
    let wallet = Wallet::new();
    let tx1 = Transaction::new(&wallet, String::from("a"), 1);
    let tx2 = Transaction::new(&wallet, String::from("b"), 2);
    let mut pool = Mempool::new();
    assert!(pool.add_transaction(tx1.duplicate()));
    assert!(pool.add_transaction(tx2.duplicate()));

    let drained = pool.drain();
    assert_eq!(pool.pending_count(), 0);
    assert_eq!(drained.len(), 2);
    assert_eq!(drained[0].signature.as_str(), tx1.signature.as_str());
    assert_eq!(drained[1].signature.as_str(), tx2.signature.as_str());

    // A transaction submitted after the drain appears afterward; it is
    // not silently lost.
    let tx3 = Transaction::new(&wallet, String::from("c"), 3);
    assert!(pool.add_transaction(tx3));
    assert_eq!(pool.pending_count(), 1);
}
