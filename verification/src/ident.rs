//! Deterministic identity generation: the caller token and the current
//! timestamp are joined with a `-`, hashed with a 256-bit digest, and the
//! first 16 digest bytes are returned as lowercase hexadecimal.

use vstd::prelude::*;
use sha2::{Digest, Sha256};

verus! {

/// The ASCII decimal digits of `n`, most significant first.
pub open spec fn dec_digits(n: nat) -> Seq<u8>
    decreases n,
{
    if n < 10 {
        seq![(48 + n) as u8]
    } else {
        dec_digits(n / 10) + seq![(48 + n % 10) as u8]
    }
}

/// The lowercase hexadecimal digit for a value below 16.
pub open spec fn hex_digit(d: nat) -> char {
    if d == 0 { '0' } else if d == 1 { '1' } else if d == 2 { '2' } else if d == 3 { '3' }
    else if d == 4 { '4' } else if d == 5 { '5' } else if d == 6 { '6' } else if d == 7 { '7' }
    else if d == 8 { '8' } else if d == 9 { '9' } else if d == 10 { 'a' } else if d == 11 { 'b' }
    else if d == 12 { 'c' } else if d == 13 { 'd' } else if d == 14 { 'e' } else { 'f' }
}

/// Lowercase hexadecimal encoding: two digits per byte, input order kept.
pub open spec fn hex_of(bytes: Seq<u8>) -> Seq<char>
    decreases bytes.len(),
{
    if bytes.len() == 0 {
        Seq::empty()
    } else {
        seq![hex_digit((bytes[0] / 16) as nat), hex_digit((bytes[0] % 16) as nat)]
            + hex_of(bytes.drop_first())
    }
}

/// The 256-bit digest of a byte sequence, as computed by the digest
/// collaborator; a function of the input alone.
pub uninterp spec fn sha256_of(bytes: Seq<u8>) -> Seq<u8>;

/// The bytes that are hashed for a (caller, timestamp) pair: the caller's
/// UTF-8 bytes, an ASCII `-`, and the timestamp's decimal digits.
pub open spec fn id_input(caller: Seq<char>, timestamp: nat) -> Seq<u8> {
    vstd::utf8::encode_utf8(caller) + seq![45u8] + dec_digits(timestamp)
}

/// The identifier generated for a (caller, timestamp) pair.
pub open spec fn id_of(caller: Seq<char>, timestamp: nat) -> Seq<char> {
    hex_of(sha256_of(id_input(caller, timestamp)).take(16))
}

/// Relies on sha2's `Sha256` (through `Digest::digest`): the digest is
/// 32 bytes long and depends on the input bytes alone.
#[verifier::external_body]
fn sha256_digest(bytes: &Vec<u8>) -> (r: Vec<u8>)
    ensures
        r@ == sha256_of(bytes@),
        r@.len() == 32,
{
    Sha256::digest(bytes.as_slice()).to_vec()
}

/// Relies on hex::encode: lowercase hexadecimal, two digits per input
/// byte, in input order.
#[verifier::external_body]
fn hex_encode(bytes: &Vec<u8>) -> (r: String)
    ensures
        r@ == hex_of(bytes@),
{
    hex::encode(bytes.as_slice())
}

/// Appends the ASCII decimal digits of `n` to `out`.
pub fn push_dec_digits(out: &mut Vec<u8>, n: u64)
    ensures
        final(out)@ == old(out)@ + dec_digits(n as nat),
    decreases n,
{
    if n >= 10 {
        push_dec_digits(out, n / 10);
    }
    out.push(48 + (n % 10) as u8);

}

/// Builds the identifier for a caller token and a timestamp: the hex
/// encoding of the first 16 bytes of the 256-bit digest of
/// `caller ++ "-" ++ decimal(timestamp)`.
pub fn generate_deterministic_id(caller: &str, timestamp: u64) -> (r: String)
    ensures
        r@ == id_of(caller@, timestamp as nat),
{
    let mut input: Vec<u8> = Vec::new();
    input.extend_from_slice(caller.as_bytes());
    assert(input@ =~= vstd::utf8::encode_utf8(caller@));
    input.push(45);
    push_dec_digits(&mut input, timestamp);
    assert(input@ =~= id_input(caller@, timestamp as nat));
    let digest = sha256_digest(&input);
    let mut prefix: Vec<u8> = Vec::new();
    let mut i: usize = 0;
    while i < 16
        invariant
            digest@.len() == 32,
            digest@ == sha256_of(input@),
            i <= 16,
            prefix@ == digest@.take(i as int),
        decreases 16 - i,
    {
        prefix.push(digest[i]);
        i += 1;
        assert(prefix@ =~= digest@.take(i as int));
    }
    hex_encode(&prefix)
}

} // verus!
