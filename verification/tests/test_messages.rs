use wake_implementation::compiler_bp_wake::CompMessage;
use wake_implementation::group::{base_mul, basepoint, scalar_from_u64};
use wake_implementation::optimized_bp_wake::OptimizedMessage;
use wake_implementation::proof_system_gm17::{
    compiler_message_meta_check, optimized_message_vk_check,
};
use wake_implementation::session::{Nonces, VK};
use wake_implementation::utility::{ristretto_to_string, scalar_to_string};

#[test]
fn nonces_string_exact() {
    let nonces = Nonces::new(vec![0, 1], vec![scalar_from_u64(1), scalar_from_u64(2)]);
    let mut expected = String::new();
    expected.push_str("0");
    expected.push_str("0100000000000000000000000000000000000000000000000000000000000000");
    expected.push_str("1");
    expected.push_str("0200000000000000000000000000000000000000000000000000000000000000");
    assert_eq!(nonces.to_string(), expected);
}

#[test]
fn comp_message_string_layout() {
    let payload = basepoint();
    let payload_hex = ristretto_to_string(&payload);
    let nonces = Nonces::new(vec![0], vec![scalar_from_u64(7)]);
    let nonces_str = nonces.to_string();
    let message = CompMessage::new(3, 2, payload, nonces);
    let mut expected = String::from("3");
    expected.push_str("##");
    expected.push_str("2");
    expected.push_str("##");
    expected.push_str(&payload_hex);
    expected.push_str("##");
    expected.push_str(&nonces_str);
    assert_eq!(message.to_string(), expected);
}

#[test]
fn vk_string_exact() {
    let z0 = basepoint();
    let z1 = base_mul(&scalar_from_u64(2));
    let z0_hex = ristretto_to_string(&z0);
    let z1_hex = ristretto_to_string(&z1);
    let vk = VK::new(vec![0, 1], vec![z0, z1]);
    let mut expected = String::from("0");
    expected.push_str(&z0_hex);
    expected.push_str("1");
    expected.push_str(&z1_hex);
    assert_eq!(vk.to_string(), expected);
}

#[test]
fn opt_message_string_layout() {
    let payload = base_mul(&scalar_from_u64(5));
    let payload_hex = ristretto_to_string(&payload);
    let vk = VK::new(vec![1], vec![basepoint()]);
    let vk_str = vk.to_string();
    let message = OptimizedMessage::new(1, payload, vk);
    let mut expected = String::from("1");
    expected.push_str("##");
    expected.push_str(&payload_hex);
    expected.push_str("##");
    expected.push_str(&vk_str);
    assert_eq!(message.to_string(), expected);
}

#[test]
fn canonical_strings_are_pure() {
    // two identical views render byte-identical strings
    let first = Nonces::new(vec![0, 1], vec![scalar_from_u64(9), scalar_from_u64(4)]);
    let second = Nonces::new(vec![0, 1], vec![scalar_from_u64(9), scalar_from_u64(4)]);
    assert_eq!(first.to_string(), second.to_string());
    let scalar = scalar_from_u64(123456789);
    assert_eq!(scalar_to_string(&scalar), scalar_to_string(&scalar.clone()));
}

#[test]
fn compiler_meta_check_orders_errors() {
    let local = Nonces::new(vec![0], vec![scalar_from_u64(7)]);
    let same = Nonces::new(vec![0], vec![scalar_from_u64(7)]);
    let other = Nonces::new(vec![0], vec![scalar_from_u64(8)]);

    let good = CompMessage::new(1, 2, basepoint(), same);
    assert!(compiler_message_meta_check(&good, 2, &local).is_ok());

    let wrong_round = CompMessage::new(1, 3, basepoint(), Nonces::new(
        vec![0],
        vec![scalar_from_u64(7)],
    ));
    let err = compiler_message_meta_check(&wrong_round, 2, &local).err().unwrap();
    assert!(err.message() == "Incorrect round number 3");

    let wrong_nonces = CompMessage::new(1, 2, basepoint(), other);
    let err = compiler_message_meta_check(&wrong_nonces, 2, &local).err().unwrap();
    assert!(err.message() == "Invalid nonces");
}

#[test]
fn optimized_vk_check_detects_mismatch() {
    let local = VK::new(vec![0], vec![basepoint()]);
    let same = VK::new(vec![0], vec![basepoint()]);
    let other = VK::new(vec![0], vec![base_mul(&scalar_from_u64(2))]);

    let good = OptimizedMessage::new(1, basepoint(), same);
    assert!(optimized_message_vk_check(&good, &local).is_ok());

    let bad = OptimizedMessage::new(1, basepoint(), other);
    let err = optimized_message_vk_check(&bad, &local).err().unwrap();
    assert!(err.message() == "Invalid VK was send");
}
