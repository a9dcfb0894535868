//! Bit-exactness harness: every consensus-relevant operation declares the
//! digest of its canonical test-vector output, and a run is checked against
//! it under a dedicated hashing context.
use vstd::prelude::*;
use crate::hashing::{derive_key, blake3_derive_key};

verus! {

broadcast use vstd::array::group_array_axioms;

/// Implemented by each consensus-relevant operation: a stable name and the
/// pinned digest of its canonical output.
pub trait BitExactOp {
    fn name(&self) -> &'static str;

    fn expected_hash(&self) -> [u8; 32];
}

/// Digest of a canonical output under the determinism context.
pub open spec fn canonical_hash_spec(bytes: Seq<u8>) -> Seq<u8> {
    blake3_derive_key("ai-pow-vi v1 bit-exact-output"@, bytes)
}

/// Hash a canonical output with the dedicated determinism context.
pub fn hash_canonical(bytes: &[u8]) -> (r: [u8; 32])
    ensures
        r@ == canonical_hash_spec(bytes@),
{
    derive_key("ai-pow-vi v1 bit-exact-output", bytes)
}

/// Compare an output against a pinned digest: `Ok` exactly when the
/// output's canonical digest equals `expected`, otherwise the actual digest.
pub fn check_bit_exact(expected: &[u8; 32], output: &[u8]) -> (r: Result<(), [u8; 32]>)
    ensures
        r is Ok <==> canonical_hash_spec(output@) == expected@,
        r matches Err(a) ==> a@ == canonical_hash_spec(output@),
{
    let actual = hash_canonical(output);
    let mut k: usize = 0;
    while k < 32
        invariant
            k <= 32,
            actual@ == canonical_hash_spec(output@),
            forall|t: int| 0 <= t < k ==> actual@[t] == expected@[t],
        decreases 32 - k,
    {
        if actual[k] != expected[k] {
            proof {
                assert(actual@[k as int] != expected@[k as int]);
            }
            return Err(actual);
        }
        k = k + 1;
    }
    proof {
        assert(actual@ =~= expected@);
    }
    Ok(())
}

/// Run an operation's canonical test vector and assert that its output
/// matches the operation's pinned digest. A divergent output is a failed
/// assertion, so the caller must know that every output `run` can give has
/// the canonical digest every `expected_hash` call can give; under that
/// precondition the call returns normally, having run `run` once and asked
/// `op` for its digest once. `check_bit_exact` is the form that reports a
/// divergence instead.
pub fn assert_bit_exact<O: BitExactOp, F: FnOnce() -> Vec<u8>>(op: &O, run: F)
    requires
        call_requires(run, ()),
        forall|b: Vec<u8>, h: [u8; 32]|
            call_ensures(run, (), b) && call_ensures(O::expected_hash, (op,), h) ==> canonical_hash_spec(b@) == h@,
{
    let bytes = run();
    let expected = op.expected_hash();
    let r = check_bit_exact(&expected, bytes.as_slice());
    proof {
        assert(r is Ok);
    }
}

} // verus!
