//! Non-interactive discrete-log knowledge proof: a Fiat-Shamir Schnorr proof
//! of an exponent `w` with `Y = g^w`, bound to an auxiliary string.

use crate::encoding::{hex_of, le_bytes32_of};
use crate::group::{
    base_mul, basepoint, encode_of, group_order, point_add, point_bytes_valid, point_mul,
    scalar_add, scalar_mul, scalar_random, valid_point_encoding, GroupElement, GroupScalar,
};
use crate::utility::{hash_scalar_val, hash_string_to_scalar, ristretto_to_string, scalar_to_string};
use vstd::prelude::*;

verus! {

/// Holds the values constituting a discrete-log knowledge proof: the
/// prover's commitment `T = g^rho`, the Fiat-Shamir challenge and the
/// response `z = rho + c*w`.
pub struct DiscreteLogKnowledgeProof {
    pub statement: GroupElement,
    pub challenge: GroupScalar,
    pub response: GroupScalar,
}

/// The canonical string form of a proof: the hex of its three components.
pub open spec fn dlk_proof_str(p: &DiscreteLogKnowledgeProof) -> Seq<char> {
    hex_of(p.statement.bytes@) + hex_of(p.challenge.bytes@) + hex_of(p.response.bytes@)
}

/// The string whose hash is the Fiat-Shamir challenge for statement bytes
/// `y` and auxiliary string `aux`.
pub open spec fn dlk_challenge_input(y: Seq<u8>, aux: Seq<char>) -> Seq<char> {
    hex_of(encode_of(1, 0)) + hex_of(y) + aux
}

impl Clone for DiscreteLogKnowledgeProof {
    fn clone(&self) -> (r: Self)
        ensures
            r.statement.bytes@ == self.statement.bytes@,
            r.statement.exp@ == self.statement.exp@,
            r.challenge.bytes@ == self.challenge.bytes@,
            r.response.bytes@ == self.response.bytes@,
    {
        DiscreteLogKnowledgeProof {
            statement: self.statement.clone(),
            challenge: self.challenge.clone(),
            response: self.response.clone(),
        }
    }
}

impl DiscreteLogKnowledgeProof {
    /// The canonical string form of the proof.
    pub fn to_string(&self) -> (r: String)
        ensures
            r@ == dlk_proof_str(self),
    {
        let mut s = ristretto_to_string(&self.statement);
        let c = scalar_to_string(&self.challenge);
        s.append(c.as_str());
        let z = scalar_to_string(&self.response);
        s.append(z.as_str());
        s
    }
}

/// Holds the public value (statement) `Y` of the proof.
pub struct DiscreteLogKnowledgeProofStruct {
    pub statement: GroupElement,
}

/// What the verifier checks: the challenge is the hash of the canonical
/// challenge string, and `g^z` equals `T * Y^c` (written additively).
pub open spec fn dlk_verify_spec(
    y: GroupElement,
    p: &DiscreteLogKnowledgeProof,
    aux: Seq<char>,
) -> bool {
    let c = p.challenge.val();
    &&& p.challenge.bytes@ == le_bytes32_of(hash_scalar_val(dlk_challenge_input(y.bytes@, aux)))
    &&& encode_of(p.response.val(), 0) == encode_of(
        (p.statement.a() + (y.a() * c) % group_order()) % group_order(),
        (p.statement.b() + (y.b() * c) % group_order()) % group_order(),
    )
}

impl Clone for DiscreteLogKnowledgeProofStruct {
    fn clone(&self) -> (r: Self)
        ensures
            r.statement.bytes@ == self.statement.bytes@,
            r.statement.exp@ == self.statement.exp@,
    {
        DiscreteLogKnowledgeProofStruct { statement: self.statement.clone() }
    }
}

impl DiscreteLogKnowledgeProofStruct {
    /// Initializes the struct with the public statement.
    pub fn new(statement: GroupElement) -> (r: DiscreteLogKnowledgeProofStruct)
        ensures
            r.statement.bytes@ == statement.bytes@,
            r.statement.exp@ == statement.exp@,
    {
        DiscreteLogKnowledgeProofStruct { statement }
    }

    /// Proving function: draws a random nonce `rho`, commits to `T = g^rho`,
    /// derives the challenge from the canonical challenge string, and
    /// responds with `z = rho + c*w`.
    pub fn prove(&self, witness: GroupScalar, auxilliary_challenge_string: String) -> (r:
        DiscreteLogKnowledgeProof)
        requires
            witness.wf(),
        ensures
            r.statement.wf(),
            r.statement.b() == 0,
            r.challenge.wf(),
            r.challenge.val() == hash_scalar_val(
                dlk_challenge_input(self.statement.bytes@, auxilliary_challenge_string@),
            ),
            r.challenge.bytes@ == le_bytes32_of(
                hash_scalar_val(
                    dlk_challenge_input(self.statement.bytes@, auxilliary_challenge_string@),
                ),
            ),
            r.response.wf(),
            r.response.val() == (r.statement.a() + (r.challenge.val() * witness.val())
                % group_order()) % group_order(),
    {
        let g = basepoint();
        let rho = scalar_random();
        let statement = base_mul(&rho);

        let mut input = ristretto_to_string(&g);
        let y_hex = ristretto_to_string(&self.statement);
        input.append(y_hex.as_str());
        input.append(auxilliary_challenge_string.as_str());
        let challenge = hash_string_to_scalar(input);

        let cw = scalar_mul(&challenge, &witness);
        let response = scalar_add(&rho, &cw);

        DiscreteLogKnowledgeProof { statement, challenge, response }
    }

    /// Verification function: rejects invalid point encodings, then
    /// recomputes the challenge and checks the Schnorr equation; on valid
    /// encodings the result is exactly `dlk_verify_spec`.
    pub fn verify(&self, proof: DiscreteLogKnowledgeProof, auxilliary_challenge_string: String)
        -> (r: bool)
        requires
            self.statement.wf() || !valid_point_encoding(self.statement.bytes@),
            proof.statement.wf() || !valid_point_encoding(proof.statement.bytes@),
            proof.challenge.wf(),
            proof.response.wf(),
        ensures
            r == (valid_point_encoding(self.statement.bytes@) && valid_point_encoding(
                proof.statement.bytes@,
            ) && dlk_verify_spec(self.statement, &proof, auxilliary_challenge_string@)),
    {
        if self.statement.bytes.len() != 32 {
            return false;
        }
        if !point_bytes_valid(&self.statement.bytes) {
            return false;
        }
        if proof.statement.bytes.len() != 32 {
            return false;
        }
        if !point_bytes_valid(&proof.statement.bytes) {
            return false;
        }

        let g = basepoint();

        let mut input = ristretto_to_string(&g);
        let y_hex = ristretto_to_string(&self.statement);
        input.append(y_hex.as_str());
        input.append(auxilliary_challenge_string.as_str());
        let self_computed_challenge = hash_string_to_scalar(input);

        let challenge_verification = crate::encoding::bytes_eq(
            &self_computed_challenge.bytes,
            &proof.challenge.bytes,
        );

        let lhs = base_mul(&proof.response);
        let y_c = point_mul(&self.statement, &proof.challenge);
        let rhs = point_add(&proof.statement, &y_c);
        let verification = crate::encoding::bytes_eq(&lhs.bytes, &rhs.bytes);

        challenge_verification && verification
    }
}

/// For every witness `w`, a proof produced for the statement `Y = g^w`
/// verifies under the same auxiliary string.
pub proof fn lemma_dlk_completeness(
    y: GroupElement,
    p: &DiscreteLogKnowledgeProof,
    w: GroupScalar,
    aux: Seq<char>,
)
    requires
        y.wf(),
        w.wf(),
        y.a() == w.val(),
        y.b() == 0,
        p.statement.wf(),
        p.statement.b() == 0,
        p.challenge.wf(),
        p.challenge.val() == hash_scalar_val(dlk_challenge_input(y.bytes@, aux)),
        p.challenge.bytes@ == le_bytes32_of(hash_scalar_val(dlk_challenge_input(y.bytes@, aux))),
        p.response.val() == (p.statement.a() + (p.challenge.val() * w.val()) % group_order())
            % group_order(),
    ensures
        dlk_verify_spec(y, p, aux),
{
    let c = p.challenge.val();
    assert(y.a() * c == c * w.val()) by (nonlinear_arith)
        requires
            y.a() == w.val(),
    ;
    assert((y.b() * c) % group_order() == 0) by {
        assert(y.b() * c == 0) by (nonlinear_arith)
            requires
                y.b() == 0,
        ;
        vstd::arithmetic::div_mod::lemma_small_mod(0, group_order() as nat);
    }
    assert((p.statement.b() + 0) % group_order() == 0) by {
        vstd::arithmetic::div_mod::lemma_small_mod(0, group_order() as nat);
    }
    assert(p.response.val() == (p.statement.a() + (y.a() * c) % group_order()) % group_order());
    assert(0 == (p.statement.b() + (y.b() * c) % group_order()) % group_order());
}

} // verus!
