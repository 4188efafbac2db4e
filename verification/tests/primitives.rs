//! Tests of the encoding primitives: decimal rendering, hex, and the
//! block hash formula.

use adamas::block::{genesis_block, zero_hash_string, Block};
use adamas::decimal::{u128_to_dec, u64_to_dec};
use adamas::LedgerError;

#[test]
fn decimal_renders_exact_values() {
    assert_eq!(u64_to_dec(0).as_str(), "0");
    assert_eq!(u64_to_dec(7).as_str(), "7");
    assert_eq!(u64_to_dec(10).as_str(), "10");
    assert_eq!(u64_to_dec(12345).as_str(), "12345");
    assert_eq!(u64_to_dec(u64::MAX).as_str(), "18446744073709551615");
    assert_eq!(u128_to_dec(u128::MAX).as_str(), "340282366920938463463374607431768211455");
}

#[test]
fn zero_hash_is_sixty_four_zeros() {
    let z = zero_hash_string();
    assert_eq!(z.len(), 64);
    assert!(z.chars().all(|c| c == '0'));
}

#[test]
fn genesis_hash_has_exact_expected_value() {
    // SHA-256 of "0" ++ "0" ++ 64 zeros ++ "GENESIS BLOCK" ++ "SYSTEM",
    // hex-encoded: the canonical encoding pinned to one concrete digest.
    let g = genesis_block();
    assert_eq!(g.index, 0);
    assert_eq!(g.timestamp, 0);
    assert_eq!(g.previous_hash.as_str(), zero_hash_string().as_str());
    assert_eq!(g.data.as_str(), "GENESIS BLOCK");
    assert_eq!(g.validator.as_str(), "SYSTEM");
    assert_eq!(
        g.hash.as_str(),
        "fd094f9c62bbe74a958c1e0a8796845afe95c63a672ca66a5b1c7b173903f0fc"
    );
}

#[test]
fn block_hash_is_deterministic_and_sensitive() {
    let a = Block::with_timestamp(
        3,
        1234,
        String::from("aa"),
        String::from("payload"),
        String::from("val"),
    );
    let b = Block::with_timestamp(
        3,
        1234,
        String::from("aa"),
        String::from("payload"),
        String::from("val"),
    );
    // Identical fields always give the identical digest.
    assert_eq!(a.hash.as_str(), b.hash.as_str());
    assert_eq!(a.calculate_hash().as_str(), a.hash.as_str());
    // Changing any one field changes the digest.
    let c = Block::with_timestamp(
        4,
        1234,
        String::from("aa"),
        String::from("payload"),
        String::from("val"),
    );
    let d = Block::with_timestamp(
        3,
        1235,
        String::from("aa"),
        String::from("payload"),
        String::from("val"),
    );
    let e = Block::with_timestamp(
        3,
        1234,
        String::from("ab"),
        String::from("payload"),
        String::from("val"),
    );
    let f = Block::with_timestamp(
        3,
        1234,
        String::from("aa"),
        String::from("payloae"),
        String::from("val"),
    );
    let g = Block::with_timestamp(
        3,
        1234,
        String::from("aa"),
        String::from("payload"),
        String::from("wal"),
    );
    for other in [&c, &d, &e, &f, &g] {
        assert_ne!(a.hash.as_str(), other.hash.as_str());
    }
    // A tampered block no longer matches its recorded hash.
    let mut tampered = Block::with_timestamp(
        3,
        1234,
        String::from("aa"),
        String::from("payload"),
        String::from("val"),
    );
    tampered.data = String::from("other");
    assert_ne!(tampered.calculate_hash().as_str(), tampered.hash.as_str());
}

#[test]
fn error_classes_describe_themselves() {
    assert_eq!(LedgerError::Decode.describe(), "malformed wire bytes");
    assert_eq!(LedgerError::Verification.describe(), "signature verification failed");
    assert_eq!(LedgerError::Integrity.describe(), "hash or linkage mismatch");
    assert_eq!(LedgerError::Duplicate.describe(), "already seen");
    assert_eq!(LedgerError::Store.describe(), "persistence failure");
    assert_eq!(LedgerError::Signing.describe(), "signing key unavailable");
}
