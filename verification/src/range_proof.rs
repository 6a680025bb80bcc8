//! Pedersen-committed Bulletproof range proof, bound to a transcript seeded
//! with the SHA-256 digest of an auxiliary string.
//!
//! The proof shows that the reduced value `v = upperbound - (b - min_bal)`
//! lies in `[0, 2^n)` for `n = log2(upperbound + 1)`, under the commitment
//! `g^v * h^r`.

use crate::errors::WakeError;
use sha2::Digest;
use crate::group::{encode_of, GroupElement, GroupScalar};
use crate::utility::{upperbound_log, upperbound_log_spec, valid_upperbound};
use vstd::arithmetic::power2::pow2;
use vstd::prelude::*;

verus! {

/// Whether a serialized Bulletproof verifies against a commitment encoding,
/// a bit size and an auxiliary string for every batching challenge, under
/// the transcript discipline of this module.  Left uninterpreted: the two
/// trusted wrappers below state what `bulletproofs` guarantees of it.
pub uninterp spec fn bp_accepts(proof: Seq<u8>, commitment: Seq<u8>, n: int, aux: Seq<char>) -> bool;

/// Whether the bytes parse as a Bulletproof and the verification equations
/// hold for at least one batching challenge, against the given commitment
/// encoding, bit size and auxiliary string.  A function of the arguments
/// alone; every accepting run of the verifier witnesses it.
pub uninterp spec fn bp_weak_accepts(
    proof: Seq<u8>,
    commitment: Seq<u8>,
    n: int,
    aux: Seq<char>,
) -> bool;

/// A serialized Bulletproof range proof.
pub struct RangeProof {
    pub bytes: Vec<u8>,
}

impl Clone for RangeProof {
    fn clone(&self) -> (r: Self)
        ensures
            r.bytes@ == self.bytes@,
    {
        RangeProof { bytes: crate::encoding::clone_bytes(&self.bytes) }
    }
}

/// Relies on `bulletproofs::RangeProof::prove_single` with the default
/// Pedersen generators, `BulletproofGens::new(64, 1)` and a transcript
/// labeled `range proof` carrying the SHA-256 of the auxiliary string:
/// for `v < 2^n` the returned proof verifies against the commitment
/// `g^v * h^blinding` under the same transcript, as the crate's own
/// prove/verify round trip shows.
#[verifier::external_body]
fn ext_bp_prove(v: u64, blinding: &GroupScalar, n: usize, aux: &str) -> (r: Vec<u8>)
    requires
        blinding.wf(),
        n == 8 || n == 16 || n == 32 || n == 64,
    ensures
        (v as int) < pow2(n as nat) ==> bp_accepts(
            r@,
            encode_of(v as int, blinding.val()),
            n as int,
            aux@,
        ),
{
    let hash = sha2::Sha256::digest(aux.as_bytes());
    let mut transcript = merlin::Transcript::new(b"range proof");
    transcript.append_message(b"auxilliary challenge string", &hash);
    let bp_gens = bulletproofs::BulletproofGens::new(64, 1);
    let pc_gens = bulletproofs::PedersenGens::default();
    let bb: [u8; 32] = blinding.bytes.as_slice().try_into().unwrap();
    let bl = curve25519_dalek_ng::scalar::Scalar::from_bytes_mod_order(bb);
    let (proof, _) = bulletproofs::RangeProof::prove_single(
        &bp_gens, &pc_gens, &mut transcript, v, &bl, n,
    ).unwrap();
    proof.to_bytes()
}

/// Relies on `bulletproofs::RangeProof::from_bytes` and `verify_single`
/// with the same generators and transcript discipline as the prover: a
/// proof that `bp_accepts` its commitment, bit size and auxiliary string
/// is accepted, and any accepted proof parsed and passed the equations for
/// the batching challenge that run drew, so it `bp_weak_accepts` them.
#[verifier::external_body]
fn ext_bp_verify(proof: &Vec<u8>, commitment: &Vec<u8>, n: usize, aux: &str) -> (r: bool)
    requires
        commitment@.len() == 32,
    ensures
        bp_accepts(proof@, commitment@, n as int, aux@) ==> r,
        r ==> bp_weak_accepts(proof@, commitment@, n as int, aux@),
{
    let parsed = match bulletproofs::RangeProof::from_bytes(proof) {
        Ok(p) => p,
        Err(_) => return false,
    };
    let hash = sha2::Sha256::digest(aux.as_bytes());
    let mut transcript = merlin::Transcript::new(b"range proof");
    transcript.append_message(b"auxilliary challenge string", &hash);
    let bp_gens = bulletproofs::BulletproofGens::new(64, 1);
    let pc_gens = bulletproofs::PedersenGens::default();
    let cv = curve25519_dalek_ng::ristretto::CompressedRistretto::from_slice(commitment);
    parsed.verify_single(&bp_gens, &pc_gens, &mut transcript, &cv, n).is_ok()
}

/// Holds the public range parameters and invokes proving and verification.
pub struct RangeProofStruct {
    pub min_bal: u64,
    pub upperbound: u64,
}

impl Clone for RangeProofStruct {
    fn clone(&self) -> (r: Self)
        ensures
            r == *self,
    {
        RangeProofStruct { min_bal: self.min_bal, upperbound: self.upperbound }
    }
}

impl RangeProofStruct {
    /// Initializes the range parameters; the Pedersen and Bulletproof
    /// generators are the library defaults, valid for proofs up to bit
    /// size 64 and aggregation size 1.
    pub fn new(min_bal: u64, upperbound: u64) -> (r: RangeProofStruct)
        ensures
            r.min_bal == min_bal,
            r.upperbound == upperbound,
    {
        RangeProofStruct { min_bal, upperbound }
    }

    /// Proves that the balance `b` is at least `min_bal` by showing that
    /// `v = upperbound - (b - min_bal)` lies in `[0, 2^n)`: succeeds if and
    /// only if `b >= min_bal`, and the proof then verifies against the
    /// commitment `g^v * h^r` under the same auxiliary string.
    pub fn prove(&self, b: u64, r: &GroupScalar, auxilliary_challenge_string: String) -> (res:
        Result<RangeProof, WakeError>)
        requires
            r.wf(),
            valid_upperbound(self.upperbound),
            b >= self.min_bal ==> b - self.min_bal <= self.upperbound,
        ensures
            res is Ok <==> b >= self.min_bal,
            res is Err ==> res->Err_0 is RangeProofBelowMin,
            res is Ok ==> bp_accepts(
                res->Ok_0.bytes@,
                encode_of(
                    self.upperbound - (b - self.min_bal),
                    r.val(),
                ),
                upperbound_log_spec(self.upperbound),
                auxilliary_challenge_string@,
            ),
    {
        if b < self.min_bal {
            return Err(WakeError::RangeProofBelowMin);
        }
        let v: u64 = self.upperbound - (b - self.min_bal);

        let n = match upperbound_log(self.upperbound) {
            Ok(n) => n,
            Err(_) => {
                proof {
                    assert(false);
                }
                return Err(WakeError::RangeProofBelowMin);
            },
        };

        proof {
            lemma_valid_upperbound_below_pow2(self.upperbound);
        }
        let bytes = ext_bp_prove(v, r, n, auxilliary_challenge_string.as_str());
        Ok(RangeProof { bytes })
    }

    /// Verifies a range proof against an externally reconstructed
    /// commitment: a proof that `bp_accepts` this commitment, bit size and
    /// auxiliary string is accepted, and a `true` result means the proof
    /// `bp_weak_accepts` them.
    pub fn verify(
        &self,
        proof: RangeProof,
        committed_value: &GroupElement,
        auxilliary_challenge_string: String,
    ) -> (r: bool)
        requires
            valid_upperbound(self.upperbound),
            committed_value.bytes@.len() == 32,
        ensures
            bp_accepts(
                proof.bytes@,
                committed_value.bytes@,
                upperbound_log_spec(self.upperbound),
                auxilliary_challenge_string@,
            ) ==> r,
            r ==> bp_weak_accepts(
                proof.bytes@,
                committed_value.bytes@,
                upperbound_log_spec(self.upperbound),
                auxilliary_challenge_string@,
            ),
    {
        let n = match upperbound_log(self.upperbound) {
            Ok(n) => n,
            Err(_) => {
                proof {
                    assert(false);
                }
                return false;
            },
        };
        ext_bp_verify(
            &proof.bytes,
            &committed_value.bytes,
            n,
            auxilliary_challenge_string.as_str(),
        )
    }
}

/// Every valid upperbound is `2^n - 1` for its bit size `n`.
pub proof fn lemma_valid_upperbound_below_pow2(upperbound: u64)
    requires
        valid_upperbound(upperbound),
    ensures
        upperbound == pow2(upperbound_log_spec(upperbound) as nat) - 1,
{
    vstd::arithmetic::power2::lemma2_to64();
    vstd::arithmetic::power2::lemma2_to64_rest();
}

} // verus!
