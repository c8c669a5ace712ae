//! Content addresses: the first bytes of a SHA-256, in hexadecimal.

use sha2::{Digest, Sha256};
use vstd::prelude::*;

verus! {

/// The SHA-256 of some bytes.
pub uninterp spec fn sha256_of(bytes: Seq<u8>) -> Seq<u8>;

/// `Sha256::digest`: the hash depends on the bytes alone and has 32 bytes. What it is, is named
/// `sha256_of`.
#[verifier::external_body]
fn sha256(bytes: &[u8]) -> (r: Vec<u8>)
    ensures
        r@ == sha256_of(bytes@),
        r@.len() == 32,
{
    Sha256::digest(bytes).to_vec()
}

/// The character of a hexadecimal digit.
pub open spec fn hex_digit(d: u8) -> char {
    if d < 10 {
        (48 + d) as char
    } else {
        (87 + d) as char
    }
}

/// Two hexadecimal digits for each byte, in lower case.
pub open spec fn hex_text(bytes: Seq<u8>) -> Seq<char>
    decreases bytes.len(),
{
    if bytes.len() == 0 {
        Seq::empty()
    } else {
        hex_text(bytes.drop_last()) + seq![
            hex_digit(bytes.last() / 16),
            hex_digit(bytes.last() % 16),
        ]
    }
}

/// `hex::encode`: two lower-case hexadecimal digits for each byte, the high one first. It panics
/// where the text cannot be held.
#[verifier::external_body]
fn hex_encode(bytes: &Vec<u8>) -> (r: String)
    requires
        2 * bytes@.len() <= isize::MAX,
    ensures
        r@ == hex_text(bytes@),
{
    hex::encode(bytes)
}

/// The first `n` bytes of the SHA-256 of a text, in hexadecimal.
pub open spec fn hash_text(text: Seq<char>, n: nat) -> Seq<char> {
    hex_text(sha256_of(vstd::utf8::encode_utf8(text)).take(n as int))
}

/// Every byte takes two digits.
pub proof fn hex_text_len(bytes: Seq<u8>)
    ensures
        hex_text(bytes).len() == 2 * bytes.len(),
    decreases bytes.len(),
{
    if bytes.len() > 0 {
        hex_text_len(bytes.drop_last());
    }
}

/// A lower-case hexadecimal digit.
pub open spec fn is_hex(c: char) -> bool {
    '0' <= c <= '9' || 'a' <= c <= 'f'
}

/// Every character is a lower-case hexadecimal digit.
pub proof fn hex_text_is_hex(bytes: Seq<u8>)
    ensures
        forall|k: int| 0 <= k < hex_text(bytes).len() ==> is_hex(#[trigger] hex_text(bytes)[k]),
    decreases bytes.len(),
{
    if bytes.len() > 0 {
        let front = hex_text(bytes.drop_last());
        hex_text_is_hex(bytes.drop_last());
        let b = bytes.last();
        assert(is_hex(hex_digit(b / 16)) && is_hex(hex_digit(b % 16)));
        assert forall|k: int| 0 <= k < hex_text(bytes).len() implies is_hex(
            #[trigger] hex_text(bytes)[k],
        ) by {
            if k < front.len() {
                assert(hex_text(bytes)[k] == front[k]);
            }
        }
    }
}

/// The first `n` bytes of the SHA-256 of a text, in hexadecimal.
pub fn hash_prefix(text: &str, n: usize) -> (r: String)
    requires
        n <= 32,
    ensures
        r@ == hash_text(text@, n as nat),
        r@.len() == 2 * n,
        forall|k: int| 0 <= k < r@.len() ==> is_hex(#[trigger] r@[k]),
{
    let digest = sha256(text.as_bytes());
    let mut first: Vec<u8> = Vec::new();
    let mut i: usize = 0;
    while i < n
        invariant
            i <= n <= 32,
            digest@.len() == 32,
            first@ == digest@.take(i as int),
        decreases n - i,
    {
        first.push(digest[i]);
        i += 1;
        assert(first@ =~= digest@.take(i as int));
    }
    proof {
        hex_text_len(first@);
        hex_text_is_hex(first@);
    }
    hex_encode(&first)
}

} // verus!
