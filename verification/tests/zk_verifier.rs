use ttl_vault::zk_verifier::{VerifierError, ZkVerifierContract};

#[test]
fn test_verify_claim_succeeds_with_nonempty_proof_and_claim() {
    let proof = [0xde_u8, 0xad, 0xbe, 0xef];
    let claim = [0xca_u8, 0xfe, 0xba, 0xbe];

    assert!(ZkVerifierContract::verify_claim(&proof, &claim).unwrap());
}

#[test]
fn test_verify_claim_rejects_empty_proof() {
    let proof: [u8; 0] = [];
    let claim = [0xca_u8, 0xfe, 0xba, 0xbe];

    let err = ZkVerifierContract::verify_claim(&proof, &claim).unwrap_err();
    assert_eq!(err, VerifierError::EmptyProof);
    assert_eq!(err.code(), 1);
}

#[test]
fn test_verify_claim_rejects_empty_claim() {
    let proof = [0xde_u8, 0xad, 0xbe, 0xef];
    let claim: [u8; 0] = [];

    let err = ZkVerifierContract::verify_claim(&proof, &claim).unwrap_err();
    assert_eq!(err, VerifierError::EmptyClaim);
    assert_eq!(err.code(), 2);
}

#[test]
fn verify_claim_checks_the_proof_before_the_claim() {
    let empty: [u8; 0] = [];
    assert_eq!(ZkVerifierContract::verify_claim(&empty, &empty), Err(VerifierError::EmptyProof));
}

#[test]
fn verify_claim_accepts_single_bytes() {
    assert_eq!(ZkVerifierContract::verify_claim(&[0], &[0]), Ok(true));
}
