//! BLAKE3, reached through three trusted wrappers. The digests are named, not
//! restated: what BLAKE3 computes is the outside crate's business; what the
//! library feeds it and does with the result is verified.
use vstd::prelude::*;

verus! {

/// The 32-byte output of BLAKE3's key-derivation mode for a context string
/// and key material.
pub uninterp spec fn blake3_derive_key(context: Seq<char>, material: Seq<u8>) -> Seq<u8>;

/// The 32-byte output of BLAKE3's keyed-hash mode for a 32-byte key and an
/// input.
pub uninterp spec fn blake3_keyed_hash(key: Seq<u8>, input: Seq<u8>) -> Seq<u8>;

/// Byte `pos` of the output stream of BLAKE3's key-derivation mode for a
/// context string and key material.
pub uninterp spec fn blake3_derive_key_xof(context: Seq<char>, material: Seq<u8>, pos: nat) -> u8;

/// Reads `n` bytes at position `pos` of the key-derivation output stream
/// for `context` and the material `a` followed by `b`: a
/// `blake3::Hasher::new_derive_key(context)` fed `a` then `b` by `update`,
/// finalized with `finalize_xof`, moved to `pos` with `set_position` and
/// read with `fill`. Claimed: byte `i` of the result is byte `pos + i` of
/// that stream, which depends on the context and on the concatenated
/// material alone (`update` is incremental). The stream holds
/// `2^64 - 1` bytes, so the read must end by then. Nothing is stated of
/// the bytes' values beyond that.
#[verifier::external_body]
pub(crate) fn derive_key_xof(context: &str, a: &[u8], b: &[u8], pos: u64, n: usize) -> (r: Vec<u8>)
    requires
        pos + n <= u64::MAX,
    ensures
        r@.len() == n,
        forall|i: int| 0 <= i < n ==> r@[i] == blake3_derive_key_xof(context@, a@ + b@, (pos + i) as nat),
{
    let mut hasher = blake3::Hasher::new_derive_key(context);
    hasher.update(a);
    hasher.update(b);
    let mut reader = hasher.finalize_xof();
    reader.set_position(pos);
    let mut out = vec![0u8; n];
    reader.fill(&mut out);
    out
}

/// Calls `blake3::derive_key(context, material)`. Claimed: the result is the
/// derived key for exactly these two arguments, the same on every call.
/// Nothing is stated of the digest's bytes beyond that.
#[verifier::external_body]
pub(crate) fn derive_key(context: &str, material: &[u8]) -> (r: [u8; 32])
    ensures
        r@ == blake3_derive_key(context@, material@),
{
    blake3::derive_key(context, material)
}

/// Calls `blake3::keyed_hash(key, input)` and returns its 32 bytes. Claimed:
/// the result is the keyed hash for exactly these two arguments. Nothing is
/// stated of the digest's bytes beyond that.
#[verifier::external_body]
pub(crate) fn keyed_hash(key: &[u8; 32], input: &[u8]) -> (r: [u8; 32])
    ensures
        r@ == blake3_keyed_hash(key@, input@),
{
    *blake3::keyed_hash(key, input).as_bytes()
}

} // verus!
