//! A claim verifier that, until a zero-knowledge verification primitive is
//! available to contracts, accepts any non-empty proof for any non-empty claim.
use vstd::prelude::*;

verus! {

/// Errors of the claim verifier.
#[derive(Clone, Copy, Debug, PartialEq, Eq, Hash, Structural)]
pub enum VerifierError {
    /// Proof bytes were empty.
    EmptyProof,
    /// Claim bytes were empty.
    EmptyClaim,
}

/// The numeric code under which each verifier error is reported.
pub open spec fn verifier_error_code(e: VerifierError) -> u32 {
    match e {
        VerifierError::EmptyProof => 1,
        VerifierError::EmptyClaim => 2,
    }
}

impl VerifierError {
    /// The numeric code of this error.
    pub fn code(&self) -> (c: u32)
        ensures
            c == verifier_error_code(*self),
    {
        match self {
            VerifierError::EmptyProof => 1,
            VerifierError::EmptyClaim => 2,
        }
    }
}

/// What `verify_claim` answers for a proof and a claim.
pub open spec fn claim_verdict(proof: Seq<u8>, claim: Seq<u8>) -> Result<bool, VerifierError> {
    if proof.len() == 0 {
        Err(VerifierError::EmptyProof)
    } else if claim.len() == 0 {
        Err(VerifierError::EmptyClaim)
    } else {
        Ok(true)
    }
}

/// The claim verifier contract.
pub struct ZkVerifierContract;

impl ZkVerifierContract {
    /// Verifies a zero-knowledge proof against a claim.
    ///
    /// Real proof verification (e.g. Groth16 or PLONK) needs a verifier
    /// circuit and primitives that contracts cannot call yet; until then this
    /// is a guard that rejects an empty proof, then an empty claim, and
    /// otherwise answers `true`.
    pub fn verify_claim(proof: &[u8], claim: &[u8]) -> (r: Result<bool, VerifierError>)
        ensures
            r == claim_verdict(proof@, claim@),
    {
        if proof.len() == 0 {
            return Err(VerifierError::EmptyProof);
        }
        if claim.len() == 0 {
            return Err(VerifierError::EmptyClaim);
        }
        Ok(true)
    }
}

} // verus!
