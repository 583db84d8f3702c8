//! The numeric favicon hash that fingerprint rules match against: the first
//! four bytes of the SHA-256 digest of the favicon, read as a big-endian
//! unsigned integer and written in decimal.

use vstd::prelude::*;
use crate::text::string_from_chars;

verus! {

/// The SHA-256 digest of `data`, as ring computes it.
pub uninterp spec fn ring_sha256(data: Seq<u8>) -> Seq<u8>;

/// Relies on `ring::digest::digest` with `SHA256`: it returns the 32-byte
/// SHA-256 digest of the data.
#[verifier::external_body]
fn sha256_digest(data: &[u8]) -> (r: Vec<u8>)
    ensures
        r@ == ring_sha256(data@),
        r@.len() == 32,
{
    ring::digest::digest(&ring::digest::SHA256, data).as_ref().to_vec()
}

/// The big-endian unsigned integer held in the first four bytes of `b`.
pub open spec fn be_u32(b: Seq<u8>) -> nat
    recommends
        b.len() >= 4,
{
    b[0] as nat * 16777216 + b[1] as nat * 65536 + b[2] as nat * 256 + b[3] as nat
}

/// The favicon hash number of the given bytes.
pub open spec fn hash_number(bytes: Seq<u8>) -> nat {
    be_u32(ring_sha256(bytes))
}

/// The first four bytes of the SHA-256 digest of `bytes`, as a big-endian `u32`.
pub fn calculate_hash_as_number(bytes: &[u8]) -> (r: u32)
    ensures
        r as nat == hash_number(bytes@),
{
    let d = sha256_digest(bytes);
    let b0 = d[0] as u32;
    let b1 = d[1] as u32;
    let b2 = d[2] as u32;
    let b3 = d[3] as u32;
    b0 * 16777216 + b1 * 65536 + b2 * 256 + b3
}

/// The decimal digit character for `d` (below ten).
pub open spec fn digit_char(d: nat) -> char {
    if d == 0 {
        '0'
    } else if d == 1 {
        '1'
    } else if d == 2 {
        '2'
    } else if d == 3 {
        '3'
    } else if d == 4 {
        '4'
    } else if d == 5 {
        '5'
    } else if d == 6 {
        '6'
    } else if d == 7 {
        '7'
    } else if d == 8 {
        '8'
    } else {
        '9'
    }
}

/// `n` written in decimal, without leading zeros.
pub open spec fn decimal(n: nat) -> Seq<char>
    decreases n,
{
    if n < 10 {
        seq![digit_char(n)]
    } else {
        decimal(n / 10).push(digit_char(n % 10))
    }
}

fn digit(d: u32) -> (c: char)
    requires
        d < 10,
    ensures
        c == digit_char(d as nat),
{
    if d == 0 {
        '0'
    } else if d == 1 {
        '1'
    } else if d == 2 {
        '2'
    } else if d == 3 {
        '3'
    } else if d == 4 {
        '4'
    } else if d == 5 {
        '5'
    } else if d == 6 {
        '6'
    } else if d == 7 {
        '7'
    } else if d == 8 {
        '8'
    } else {
        '9'
    }
}

fn decimal_chars(n: u32) -> (r: Vec<char>)
    ensures
        r@ == decimal(n as nat),
    decreases n,
{
    if n < 10 {
        let mut v: Vec<char> = Vec::new();
        v.push(digit(n));
        assert(v@ =~= seq![digit_char(n as nat)]);
        v
    } else {
        let mut v = decimal_chars(n / 10);
        v.push(digit(n % 10));
        v
    }
}

/// `n` written in decimal.
pub fn decimal_string(n: u32) -> (r: String)
    ensures
        r@ == decimal(n as nat),
{
    let v = decimal_chars(n);
    string_from_chars(v.as_slice())
}

/// The favicon hash string of the given favicon bytes.
pub fn favicon_hash_string(bytes: &[u8]) -> (r: String)
    ensures
        r@ == decimal(hash_number(bytes@)),
{
    decimal_string(calculate_hash_as_number(bytes))
}

} // verus!
