//! Hex encoding of byte strings, as the ledger uses it for digests, public
//! keys and signatures: an exact mathematical model, lemmas about it, and
//! trusted wrappers around the `hex` crate that are held to that model.

use vstd::prelude::*;

verus! {

/// The lowercase hex digit for a value below 16.
pub open spec fn hex_digit_char(d: nat) -> char {
    if d == 0 {
        '0'
    } else if d == 1 {
        '1'
    } else if d == 2 {
        '2'
    } else if d == 3 {
        '3'
    } else if d == 4 {
        '4'
    } else if d == 5 {
        '5'
    } else if d == 6 {
        '6'
    } else if d == 7 {
        '7'
    } else if d == 8 {
        '8'
    } else if d == 9 {
        '9'
    } else if d == 10 {
        'a'
    } else if d == 11 {
        'b'
    } else if d == 12 {
        'c'
    } else if d == 13 {
        'd'
    } else if d == 14 {
        'e'
    } else {
        'f'
    }
}

/// A character that counts as a hex digit: either case is accepted on the
/// way in, as the decoder accepts both.
pub open spec fn is_hex_digit(c: char) -> bool {
    ('0' <= c && c <= '9') || ('a' <= c && c <= 'f') || ('A' <= c && c <= 'F')
}

/// The numeric value of a hex digit.
pub open spec fn hex_digit_val(c: char) -> nat {
    if '0' <= c && c <= '9' {
        (c as nat - '0' as nat) as nat
    } else if 'a' <= c && c <= 'f' {
        (c as nat - 'a' as nat + 10) as nat
    } else {
        (c as nat - 'A' as nat + 10) as nat
    }
}

/// Lowercase hex encoding: two digits per byte, high nibble first.
pub open spec fn spec_hex_encode(bytes: Seq<u8>) -> Seq<char>
    decreases bytes.len(),
{
    if bytes.len() == 0 {
        Seq::empty()
    } else {
        seq![
            hex_digit_char((bytes[0] / 16) as nat),
            hex_digit_char((bytes[0] % 16) as nat),
        ] + spec_hex_encode(bytes.drop_first())
    }
}

/// What the decoder accepts: an even number of hex digits.
pub open spec fn valid_hex(s: Seq<char>) -> bool {
    s.len() % 2 == 0 && (forall|i: int| 0 <= i < s.len() ==> is_hex_digit(#[trigger] s[i]))
}

/// Hex decoding of a valid digit string, two digits to a byte.
pub open spec fn spec_hex_decode(s: Seq<char>) -> Seq<u8>
    decreases s.len(),
{
    if s.len() < 2 {
        Seq::empty()
    } else {
        seq![(hex_digit_val(s[0]) * 16 + hex_digit_val(s[1])) as u8] + spec_hex_decode(
            s.skip(2),
        )
    }
}

/// Each encoded digit is a digit, and the digit characters are injective
/// below 16.
proof fn lemma_hex_digit_char_val(d: nat)
    requires
        d < 16,
    ensures
        is_hex_digit(hex_digit_char(d)),
        hex_digit_val(hex_digit_char(d)) == d,
{
}

/// The encoding of `bytes` is twice as long and made of hex digits.
pub proof fn lemma_hex_encode_valid(bytes: Seq<u8>)
    ensures
        spec_hex_encode(bytes).len() == 2 * bytes.len(),
        valid_hex(spec_hex_encode(bytes)),
    decreases bytes.len(),
{
    if bytes.len() > 0 {
        lemma_hex_encode_valid(bytes.drop_first());
        lemma_hex_digit_char_val((bytes[0] / 16) as nat);
        lemma_hex_digit_char_val((bytes[0] % 16) as nat);
    }
}

/// Decoding undoes encoding: hex strings name their bytes uniquely.
pub proof fn lemma_hex_decode_encode(bytes: Seq<u8>)
    ensures
        spec_hex_decode(spec_hex_encode(bytes)) == bytes,
    decreases bytes.len(),
{
    if bytes.len() == 0 {
        assert(spec_hex_decode(spec_hex_encode(bytes)) =~= bytes);
    } else {
        lemma_hex_decode_encode(bytes.drop_first());
        lemma_hex_digit_char_val((bytes[0] / 16) as nat);
        lemma_hex_digit_char_val((bytes[0] % 16) as nat);
        let enc = spec_hex_encode(bytes);
        assert(enc.skip(2) =~= spec_hex_encode(bytes.drop_first()));
        assert(bytes[0] / 16 * 16 + bytes[0] % 16 == bytes[0]) by (nonlinear_arith);
        assert(spec_hex_decode(enc) =~= bytes);
    }
}

/// Relies on `hex::encode`: lowercase hex, two digits per input byte, high
/// nibble first.
#[verifier::external_body]
pub(crate) fn hex_encode(bytes: &[u8]) -> (r: String)
    ensures
        r@ == spec_hex_encode(bytes@),
{
    hex::encode(bytes)
}

/// Relies on `hex::decode`: accepts exactly an even number of hex digits of
/// either case and returns the bytes they name; rejects everything else.
#[verifier::external_body]
pub(crate) fn hex_decode(s: &str) -> (r: Option<Vec<u8>>)
    ensures
        match r {
            Some(v) => valid_hex(s@) && v@ == spec_hex_decode(s@),
            None => !valid_hex(s@),
        },
{
    hex::decode(s).ok()
}

} // verus!
