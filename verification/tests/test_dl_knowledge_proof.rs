use wake_implementation::dlk::DiscreteLogKnowledgeProofStruct;
use wake_implementation::group::{base_mul, basepoint, scalar_add, scalar_from_u64, scalar_random};

/// Tests correct proof construction and verification
#[test]
fn discrete_log_knowledege_proof_test() {
    let witness = scalar_random();
    let public_val = base_mul(&witness);

    let dl_knowledge_proof_struct = DiscreteLogKnowledgeProofStruct::new(public_val);

    let proof = dl_knowledge_proof_struct.prove(witness, String::new());

    let verification = dl_knowledge_proof_struct.verify(proof, String::new());

    assert!(verification);
}

/// Tests verification false, for different auxilliary challenge strings are
/// supplied to verifier and prover, respectively
#[test]
fn discrete_log_knowledege_proof_test_challenge_neg() {
    let witness = scalar_random();
    let public_val = base_mul(&witness);

    let dl_knowledge_proof_struct = DiscreteLogKnowledgeProofStruct::new(public_val);

    let proof = dl_knowledge_proof_struct.prove(witness, "prover string".to_string());

    let verification = dl_knowledge_proof_struct.verify(proof, "verifier string".to_string());

    assert!(!verification);
}

/// Test verification false, when wrong witness given to prove function
#[test]
fn discrete_log_knowledege_proof_test_witness_neg() {
    let witness = scalar_random();
    let public_val = base_mul(&witness);

    let dl_knowledge_proof_struct = DiscreteLogKnowledgeProofStruct::new(public_val);

    // prove with witness + 1, instead of just witness
    let wrong_witness = scalar_add(&witness, &scalar_from_u64(1));
    let proof = dl_knowledge_proof_struct.prove(wrong_witness, String::new());

    let verification = dl_knowledge_proof_struct.verify(proof, String::new());

    assert!(!verification);
}

/// Test verification false, when proof changed
#[test]
fn discrete_log_knowledege_proof_test_proof_neg() {
    let witness = scalar_random();
    let public_val = base_mul(&witness);

    let dl_knowledge_proof_struct = DiscreteLogKnowledgeProofStruct::new(public_val);

    let real_proof = dl_knowledge_proof_struct.prove(witness, String::new());

    // create copies of the properly constructed proof
    let mut proof_1 = real_proof.clone();
    let mut proof_2 = real_proof.clone();
    let mut proof_3 = real_proof.clone();

    // change a single field, for each of the copies
    proof_1.statement = basepoint();
    proof_2.challenge = scalar_from_u64(0);
    proof_3.response = scalar_from_u64(0);

    // assert false verification
    let verification_1 = dl_knowledge_proof_struct.verify(proof_1, String::new());
    let verification_2 = dl_knowledge_proof_struct.verify(proof_2, String::new());
    let verification_3 = dl_knowledge_proof_struct.verify(proof_3, String::new());
    assert!(!verification_1);
    assert!(!verification_2);
    assert!(!verification_3);
}
