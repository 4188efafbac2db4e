//! Decimal rendering of unsigned integers, verified against a recursive
//! model. The canonical block and transaction encodings write numbers in
//! decimal, so the model is part of the hashing and signing contracts.

use vstd::prelude::*;
use crate::shims::string_push;

verus! {

/// The decimal digit for a value below 10.
pub open spec fn dec_digit_char(d: nat) -> char {
    if d == 0 {
        '0'
    } else if d == 1 {
        '1'
    } else if d == 2 {
        '2'
    } else if d == 3 {
        '3'
    } else if d == 4 {
        '4'
    } else if d == 5 {
        '5'
    } else if d == 6 {
        '6'
    } else if d == 7 {
        '7'
    } else if d == 8 {
        '8'
    } else {
        '9'
    }
}

/// The decimal rendering of a natural number, most significant digit
/// first, with no leading zeros (except for the number 0 itself).
pub open spec fn dec_of(n: nat) -> Seq<char>
    decreases n,
{
    if n < 10 {
        seq![dec_digit_char(n)]
    } else {
        dec_of(n / 10).push(dec_digit_char(n % 10))
    }
}

/// The digit character of `d % 10`, executable form.
fn dec_digit(d: u128) -> (c: char)
    requires
        d < 10,
    ensures
        c == dec_digit_char(d as nat),
{
    if d == 0 {
        '0'
    } else if d == 1 {
        '1'
    } else if d == 2 {
        '2'
    } else if d == 3 {
        '3'
    } else if d == 4 {
        '4'
    } else if d == 5 {
        '5'
    } else if d == 6 {
        '6'
    } else if d == 7 {
        '7'
    } else if d == 8 {
        '8'
    } else {
        '9'
    }
}

/// Renders `n` in decimal, provably the model `dec_of`.
pub fn u128_to_dec(n: u128) -> (s: String)
    ensures
        s@ == dec_of(n as nat),
{
    let mut digits: Vec<char> = Vec::new();
    let mut m = n;
    while m >= 10
        invariant
            dec_of(n as nat) =~= dec_of(m as nat) + digits@.reverse(),
        decreases m,
    {
        let d = dec_digit(m % 10);
        proof {
            assert(dec_of(m as nat) =~= dec_of((m as nat) / 10).push(dec_digit_char(
                (m as nat) % 10,
            )));
            assert(digits@.push(d).reverse() =~= seq![d] + digits@.reverse());
            assert(dec_of((m as nat) / 10) + digits@.push(d).reverse() =~= dec_of(m as nat)
                + digits@.reverse());
        }
        digits.push(d);
        m = m / 10;
    }
    let last = dec_digit(m);
    proof {
        assert(dec_of(m as nat) =~= seq![dec_digit_char(m as nat)]);
    }
    let ghost predigits = digits@;
    digits.push(last);
    proof {
        assert(digits@.reverse() =~= seq![last] + predigits.reverse());
    }
    let mut s = String::new();
    let mut i: usize = digits.len();
    proof {
        assert(dec_of(n as nat) =~= digits@.reverse());
    }
    while i > 0
        invariant
            i <= digits@.len(),
            dec_of(n as nat) =~= digits@.reverse(),
            s@ =~= digits@.reverse().take(digits@.len() - i),
        decreases i,
    {
        i = i - 1;
        let c = digits[i];
        proof {
            assert(digits@.reverse()[digits@.len() - 1 - i] == digits@[i as int]);
            assert(s@.push(c) =~= digits@.reverse().take(digits@.len() - i));
        }
        string_push(&mut s, c);
    }
    proof {
        assert(digits@.reverse().take(digits@.len() as int) =~= digits@.reverse());
    }
    s
}

/// Renders a 64-bit number in decimal.
pub fn u64_to_dec(n: u64) -> (s: String)
    ensures
        s@ == dec_of(n as nat),
{
    u128_to_dec(n as u128)
}

} // verus!
