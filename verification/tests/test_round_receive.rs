use wake_implementation::compiler_bp_wake::Party;
use wake_implementation::group::{
    base_mul, basepoint, blind_mul, point_add, scalar_from_u64, scalar_random,
};

/// Builds two compiler parties sharing a commitment table, with balances 50
/// and 60 under minimum balance 10 and the 8-bit upperbound.
fn two_parties() -> (Party, Party, u64) {
    let upperbound = u8::MAX as u64;
    let min_bal = 10u64;
    let balances = [50u64, 60u64];
    let blindings = [scalar_random(), scalar_random()];
    let mut commitments = Vec::new();
    for j in 0..2 {
        commitments.push(point_add(
            &base_mul(&scalar_from_u64(upperbound - balances[j])),
            &blind_mul(&blindings[j]),
        ));
    }
    let mut second_table = Vec::new();
    for j in 0..2 {
        second_table.push(commitments[j].clone());
    }
    let p0 = Party::new(0, commitments, min_bal, balances[0], blindings[0].clone());
    let p1 = Party::new(1, second_table, min_bal, balances[1], blindings[1].clone());
    (p0, p1, upperbound)
}

#[test]
fn round_receive_accepts_honest_round() {
    let (mut p0, mut p1, upperbound) = two_parties();
    let g = basepoint();

    let outputs = vec![p0.round_1(), p1.round_1()];
    p0.round1_recieve(&outputs);
    p1.round1_recieve(&outputs);

    let m0 = p0.round_2(&g, upperbound);
    let m1 = p1.round_2(&g, upperbound);
    let round2 = vec![m0, m1];

    assert!(p0.round_recieve(&g, &round2, 2, upperbound).is_ok());
    assert!(p1.round_recieve(&g, &round2, 2, upperbound).is_ok());
}

#[test]
fn round_receive_rejects_wrong_round_number() {
    let (mut p0, mut p1, upperbound) = two_parties();
    let g = basepoint();

    let outputs = vec![p0.round_1(), p1.round_1()];
    p0.round1_recieve(&outputs);
    p1.round1_recieve(&outputs);

    let m0 = p0.round_2(&g, upperbound);
    let m1 = p1.round_2(&g, upperbound);
    let round2 = vec![m0, m1];

    let err = p0.round_recieve(&g, &round2, 3, upperbound).err().unwrap();
    assert_eq!(err.message(), "Incorrect round number 2");
}

#[test]
fn round_receive_rejects_swapped_signature() {
    let (mut p0, mut p1, upperbound) = two_parties();
    let g = basepoint();

    let outputs = vec![p0.round_1(), p1.round_1()];
    p0.round1_recieve(&outputs);
    p1.round1_recieve(&outputs);

    let (msg0, sig0) = p0.round_2(&g, upperbound);
    let (msg1, _sig1) = p1.round_2(&g, upperbound);

    // party one's message now carries a proof bound to another message
    let tampered = vec![(msg0, sig0.clone()), (msg1, sig0)];
    let err = p0.round_recieve(&g, &tampered, 2, upperbound).err().unwrap();
    assert_eq!(err.message(), "Verification of signature failed");
}

#[test]
fn round_receive_rejects_wrong_length() {
    let (mut p0, mut p1, upperbound) = two_parties();
    let g = basepoint();

    let outputs = vec![p0.round_1(), p1.round_1()];
    p0.round1_recieve(&outputs);
    p1.round1_recieve(&outputs);

    let m1 = p1.round_2(&g, upperbound);
    let short = vec![m1];
    let err = p0.round_recieve(&g, &short, 2, upperbound).err().unwrap();
    assert_eq!(err.message(), "Invalid length expected: 1, found 2");
}
