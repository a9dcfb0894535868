use ai_pow_vi::determinism::assert_bit_exact;
use ai_pow_vi::determinism::check_bit_exact;
use ai_pow_vi::determinism::hash_canonical;
use ai_pow_vi::determinism::BitExactOp;

struct Pinned {
    digest: [u8; 32],
}

impl BitExactOp for Pinned {
    fn name(&self) -> &'static str {
        "pinned"
    }

    fn expected_hash(&self) -> [u8; 32] {
        self.digest
    }
}

#[test]
fn check_bit_exact_accepts_the_pinned_digest() {
    let out = b"canonical output".to_vec();
    let pinned = hash_canonical(&out);
    assert_eq!(check_bit_exact(&pinned, &out), Ok(()));
    let op = Pinned { digest: pinned };
    assert_bit_exact(&op, || out.clone());
}

#[test]
fn check_bit_exact_reports_the_actual_digest() {
    let out = b"canonical output".to_vec();
    let wrong = [0u8; 32];
    assert_eq!(check_bit_exact(&wrong, &out), Err(hash_canonical(&out)));
}
