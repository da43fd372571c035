//! Keyed hashing of tokens to bit positions.

use blake2::{Blake2b, Digest};
use vstd::prelude::*;

verus! {

/// The BLAKE2b digest, 64 bytes long, of `message`.
///
/// The digest is computed by the `blake2` crate and is not modelled further:
/// all that is known of it is that equal messages have equal digests.
pub uninterp spec fn blake2b_512(message: Seq<u8>) -> Seq<u8>;

/// Hashes `message` with `blake2::Blake2b::digest` (unkeyed, unsalted,
/// 64 bytes of output) and copies the digest into an array.
///
/// Trusted: the result is the digest that `blake2b_512` names.
#[verifier::external_body]
fn blake2b(message: &[u8]) -> (out: [u8; 64])
    ensures
        out@ == blake2b_512(message@),
{
    let mut out: [u8; 64] = [0u8; 64];
    out.copy_from_slice(&Blake2b::digest(message));
    out
}

/// The first eight bytes of `bytes` read as an unsigned integer, least
/// significant byte first. This byte order is fixed: it does not follow the
/// host.
pub open spec fn le_u64(bytes: Seq<u8>) -> nat {
    (bytes[0] as nat) + (bytes[1] as nat) * 0x100 + (bytes[2] as nat) * 0x1_0000 + (bytes[3] as nat)
        * 0x100_0000 + (bytes[4] as nat) * 0x1_0000_0000 + (bytes[5] as nat) * 0x100_0000_0000 + (
    bytes[6] as nat) * 0x1_0000_0000_0000 + (bytes[7] as nat) * 0x100_0000_0000_0000
}

/// The bit position that a digest selects: its leading eight bytes, little
/// endian, reduced modulo the signature width.
pub open spec fn digest_position(digest: Seq<u8>) -> nat {
    le_u64(digest) % 64
}

/// The bit position that `key` assigns to `token`: the position selected by
/// the digest of the key followed by the token.
pub open spec fn bit_position(key: Seq<u8>, token: Seq<u8>) -> nat {
    digest_position(blake2b_512(key + token))
}

/// Computes the bit position that a digest selects.
pub fn position_of_digest(digest: &[u8; 64]) -> (p: u64)
    ensures
        p == digest_position(digest@),
        p < 64,
{
    let n: u64 = digest[0] as u64 + (digest[1] as u64) * 0x100 + (digest[2] as u64) * 0x1_0000 + (
    digest[3] as u64) * 0x100_0000 + (digest[4] as u64) * 0x1_0000_0000 + (digest[5] as u64)
        * 0x100_0000_0000 + (digest[6] as u64) * 0x1_0000_0000_0000 + (digest[7] as u64)
        * 0x100_0000_0000_0000;
    n % 64
}

/// Computes the bit position that `key` assigns to `token`.
pub fn position_of_token(key: &[u8], token: &[u8]) -> (p: u64)
    ensures
        p == bit_position(key@, token@),
        p < 64,
{
    let mut message: Vec<u8> = Vec::new();
    message.extend_from_slice(key);
    message.extend_from_slice(token);
    assert(message@ =~= key@ + token@);
    let digest = blake2b(message.as_slice());
    position_of_digest(&digest)
}

} // verus!
