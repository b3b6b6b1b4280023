//! Identity codec: maps a node identity to a bounded-length storage key.
//!
//! External object names have a hard length ceiling, so the key is a
//! constant prefix followed by the lowercase hex encoding of the SHA-256
//! digest of the identity string: deterministic, collision-resistant, and of
//! fixed length for every input.

use vstd::prelude::*;
use vstd::string::StringExecFns;
use vstd::utf8::encode_utf8;
use sha2::Digest;

verus! {

/// The lowercase hex digit for a nibble.
pub open spec fn hex_digit(n: int) -> char {
    if n == 0 { '0' } else if n == 1 { '1' } else if n == 2 { '2' } else if n == 3 { '3' }
    else if n == 4 { '4' } else if n == 5 { '5' } else if n == 6 { '6' } else if n == 7 { '7' }
    else if n == 8 { '8' } else if n == 9 { '9' } else if n == 10 { 'a' } else if n == 11 { 'b' }
    else if n == 12 { 'c' } else if n == 13 { 'd' } else if n == 14 { 'e' } else { 'f' }
}

/// Lowercase hex encoding of a byte sequence, high nibble first.
pub open spec fn hex_of(b: Seq<u8>) -> Seq<char>
    decreases b.len(),
{
    if b.len() == 0 {
        Seq::<char>::empty()
    } else {
        seq![hex_digit(b[0] as int / 16), hex_digit(b[0] as int % 16)] + hex_of(b.drop_first())
    }
}

pub proof fn lemma_hex_of_len(b: Seq<u8>)
    ensures
        hex_of(b).len() == 2 * b.len(),
    decreases b.len(),
{
    if b.len() > 0 {
        lemma_hex_of_len(b.drop_first());
    }
}

/// The SHA-256 digest of a byte sequence; a pure function of its input,
/// left uninterpreted here.
pub uninterp spec fn sha256_of(b: Seq<u8>) -> Seq<u8>;

/// Relies on sha2's `Sha256` hasher (through the `Digest` trait): the digest
/// depends on the input bytes alone and is 32 bytes long.
#[verifier::external_body]
fn sha256_digest(data: &[u8]) -> (r: Vec<u8>)
    ensures
        r@ == sha256_of(data@),
        r@.len() == 32,
{
    sha2::Sha256::digest(data).to_vec()
}

/// Relies on hex::encode: lowercase hex, two digits per byte, high nibble
/// first.
#[verifier::external_body]
fn hex_encode(data: &[u8]) -> (r: String)
    ensures
        r@ == hex_of(data@),
{
    hex::encode(data)
}

/// The storage key derived from a node identity.
pub open spec fn spec_configmap_name(name: Seq<char>) -> Seq<char> {
    "node-taints-"@ + hex_of(sha256_of(encode_utf8(name)))
}

/// Name of the persisted record for `node_name`: a constant prefix plus the
/// hex-encoded SHA-256 digest of the identity, 76 characters for every input.
pub fn configmap_name(node_name: &str) -> (r: String)
    ensures
        r@ == spec_configmap_name(node_name@),
        r@.len() == 76,
{
    let digest = sha256_digest(node_name.as_bytes());
    let hex_part = hex_encode(digest.as_slice());
    let mut r = String::from_str("node-taints-");
    r.append(hex_part.as_str());
    proof {
        reveal_strlit("node-taints-");
        lemma_hex_of_len(digest@);
    }
    r
}

} // verus!
