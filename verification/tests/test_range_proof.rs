use wake_implementation::group::{base_mul, blind_mul, point_add, scalar_from_u64, scalar_random};
use wake_implementation::range_proof::RangeProofStruct;

/// Test that verification yields true for case: min_bal < b
/// with an upperbound of 2^8 - 1
#[test]
fn range_proof_u8() {
    // arrange
    let b = u8::MAX as u64;
    let min_bal = 100 as u64;
    let r = scalar_random();
    let upperbound = u8::MAX as u64;
    let comm = point_add(&base_mul(&scalar_from_u64(upperbound - (b - min_bal))), &blind_mul(&r));
    let range_proof_struct = RangeProofStruct::new(min_bal, upperbound);

    // act
    let proof = range_proof_struct.prove(b, &r, String::new()).unwrap();

    // assert
    assert!(range_proof_struct.verify(proof, &comm, String::new()))
}

/// Test that verification yields true for case: min_bal < b
/// with an upperbound of 2^16 - 1
#[test]
fn range_proof_u16() {
    let b = u16::MAX as u64;
    let min_bal = 1000;
    let r = scalar_random();
    let upperbound = u16::MAX as u64;
    let comm = point_add(&base_mul(&scalar_from_u64(upperbound - (b - min_bal))), &blind_mul(&r));
    let range_proof_struct = RangeProofStruct::new(min_bal, upperbound);

    let proof = range_proof_struct.prove(b, &r, String::new()).unwrap();

    assert!(range_proof_struct.verify(proof, &comm, String::new()))
}

/// Test that verification yields true for case: min_bal < b
/// with an upperbound of 2^32 - 1
#[test]
fn range_proof_u32() {
    let b = u32::MAX as u64;
    let min_bal = 1000;
    let r = scalar_random();
    let upperbound = u32::MAX as u64;
    let comm = point_add(&base_mul(&scalar_from_u64(upperbound - (b - min_bal))), &blind_mul(&r));
    let range_proof_struct = RangeProofStruct::new(min_bal, upperbound);

    let proof = range_proof_struct.prove(b, &r, String::new()).unwrap();

    assert!(range_proof_struct.verify(proof, &comm, String::new()))
}

/// Test that verification yields true for case: min_bal < b
/// with an upperbound of 2^64 - 1
#[test]
fn range_proof_u64() {
    let b = u64::MAX;
    let min_bal = 1000;
    let r = scalar_random();
    let upperbound = u64::MAX;
    let comm = point_add(&base_mul(&scalar_from_u64(upperbound - (b - min_bal))), &blind_mul(&r));
    let range_proof_struct = RangeProofStruct::new(min_bal, upperbound);

    let proof = range_proof_struct.prove(b, &r, String::new()).unwrap();

    assert!(range_proof_struct.verify(proof, &comm, String::new()))
}

/// Tests that verification yields true for case: min_bal = b
#[test]
fn range_proof_eq() {
    let b = 4294967296u64;
    let min_bal = 4294967296u64;
    let r = scalar_random();
    let upperbound = u64::MAX;
    let comm = point_add(&base_mul(&scalar_from_u64(upperbound - (b - min_bal))), &blind_mul(&r));
    let range_proof_struct = RangeProofStruct::new(min_bal, upperbound);

    let proof = range_proof_struct.prove(b, &r, String::new()).unwrap();

    assert!(range_proof_struct.verify(proof, &comm, String::new()))
}

/// *Negative test*
/// Tests that verification yields false for case: min_bal > b
#[test]
fn test_range_proof_neg() {
    let b = 4294967296u64;
    let min_bal = 4294967297u64;
    let r = scalar_random();
    let upperbound = u64::MAX;
    let range_proof_struct = RangeProofStruct::new(min_bal, upperbound);

    let proof = range_proof_struct.prove(b, &r, String::new());

    assert!(proof.err().unwrap().message() == "minimum balance requirement was not met");
}

/// *Negative test*
/// Tests that verification yields false for having non-matching auxilliary
/// challenge strings
#[test]
fn test_incorrect_axilliary_challenge_strings_fails() {
    let b = 4294967296u64;
    let min_bal = 0u64;
    let r = scalar_random();
    let upperbound = u64::MAX;
    let comm = point_add(&base_mul(&scalar_from_u64(upperbound - (b - min_bal))), &blind_mul(&r));
    let range_proof_struct = RangeProofStruct::new(min_bal, upperbound);

    let prover_aux_string = "prover auxilliary challenge string".to_string();
    let verifier_aux_string = "verifier auxilliary challenge string".to_string();

    let proof = range_proof_struct.prove(b, &r, prover_aux_string).unwrap();
    assert!(!range_proof_struct.verify(proof, &comm, verifier_aux_string))
}
