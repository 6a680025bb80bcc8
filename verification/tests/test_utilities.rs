use wake_implementation::encoding::{hex_string, str_eq, u64_to_string, usize_to_string};
use wake_implementation::errors::WakeError;
use wake_implementation::fp::{fp_add, fp_from_be_bytes, fp_from_u64, fp_mul, fp_random};
use wake_implementation::group::{
    base_mul, basepoint, point_add, point_mul, point_sub, scalar_add, scalar_from_bytes,
    scalar_from_u64, scalar_mul, scalar_random,
};
use wake_implementation::proof_system_gm17::Gm17Darkpool;
use wake_implementation::utility::{
    find_prev_idx, fr_to_bits, hash_string, hash_string_to_fr, hash_string_to_scalar, mimc,
    ristretto_to_string, scalar_to_string, upperbound_log,
};

#[test]
fn hex_encoding_exact() {
    assert_eq!(hex_string(&vec![]), "");
    assert_eq!(hex_string(&vec![0u8, 255, 16, 1, 171]), "00ff1001ab");
}

#[test]
fn decimal_encoding_exact() {
    assert_eq!(usize_to_string(0), "0");
    assert_eq!(usize_to_string(12345), "12345");
    assert_eq!(u64_to_string(18446744073709551615), "18446744073709551615");
}

#[test]
fn upperbound_log_values() {
    assert_eq!(upperbound_log(u8::MAX as u64).unwrap(), 8);
    assert_eq!(upperbound_log(u16::MAX as u64).unwrap(), 16);
    assert_eq!(upperbound_log(u32::MAX as u64).unwrap(), 32);
    assert_eq!(upperbound_log(u64::MAX).unwrap(), 64);
    let err = upperbound_log(9).err().unwrap();
    assert!(err.message() == "Upperbound should be either 2^8, 2^16, 2^32 or 2^64");
}

#[test]
fn find_prev_idx_wraps() {
    assert_eq!(find_prev_idx(0, 10), 9);
    assert_eq!(find_prev_idx(5, 10), 4);
    assert_eq!(find_prev_idx(9, 10), 8);
}

#[test]
fn error_messages_exact() {
    let e = WakeError::WrongRoundNumber { found: 5 };
    assert_eq!(e.message(), "Incorrect round number 5");
    let e = WakeError::InvalidLength { expected: 10, found: 9 };
    assert_eq!(e.message(), "Invalid length expected: 10, found 9");
    let e = WakeError::InvalidNonces;
    assert_eq!(e.message(), "Invalid nonces");
    let e = WakeError::InvalidVk;
    assert_eq!(e.message(), "Invalid VK was send");
    let e = WakeError::SignatureVerificationFailed;
    assert_eq!(e.message(), "Verification of signature failed");
}

#[test]
fn sha256_known_digest() {
    // SHA-256("abc") is a published test vector
    let digest = hash_string("abc");
    assert_eq!(
        hex_string(&digest),
        "ba7816bf8f01cfea414140de5dae2223b00361a396177a9cb410ff61f20015ad"
    );
}

#[test]
fn hash_to_scalar_deterministic_and_binding() {
    let a = hash_string_to_scalar("some input".to_string());
    let b = hash_string_to_scalar("some input".to_string());
    let c = hash_string_to_scalar("some other input".to_string());
    assert_eq!(a.bytes, b.bytes);
    assert!(a.bytes != c.bytes);
}

#[test]
fn scalar_arithmetic_exact() {
    let one = scalar_from_u64(1);
    let two = scalar_from_u64(2);
    let s = scalar_add(&one, &two);
    assert_eq!(s.bytes, scalar_from_u64(3).bytes);
    let p = scalar_mul(&scalar_from_u64(3), &scalar_from_u64(5));
    assert_eq!(p.bytes, scalar_from_u64(15).bytes);
    assert_eq!(
        scalar_to_string(&one),
        "0100000000000000000000000000000000000000000000000000000000000000"
    );
}

#[test]
fn scalar_from_bytes_little_endian() {
    let mut bytes = vec![0u8; 32];
    bytes[1] = 1;
    let s = scalar_from_bytes(&bytes);
    assert_eq!(s.bytes, scalar_from_u64(256).bytes);
}

#[test]
fn group_operations_agree() {
    // g^1 is the basepoint
    let g = basepoint();
    let g1 = base_mul(&scalar_from_u64(1));
    assert!(g == g1);
    // g^2 = g + g, and subtraction undoes addition
    let two = base_mul(&scalar_from_u64(2));
    let sum = point_add(&g, &g1);
    assert!(two == sum);
    let back = point_sub(&sum, &g);
    assert!(back == g1);
    // multiplying the basepoint agrees with base_mul
    let s = scalar_random();
    let a = base_mul(&s);
    let b = point_mul(&g, &s);
    assert!(a == b);
}

#[test]
fn ristretto_hex_has_64_digits() {
    let s = ristretto_to_string(&basepoint());
    assert_eq!(s.len(), 64);
}

#[test]
fn fp_arithmetic_exact() {
    let five = fp_add(&fp_from_u64(2), &fp_from_u64(3));
    assert_eq!(five.bytes, fp_from_u64(5).bytes);
    let six = fp_mul(&fp_from_u64(2), &fp_from_u64(3));
    assert_eq!(six.bytes, fp_from_u64(6).bytes);
}

#[test]
fn fp_from_be_bytes_big_endian() {
    let f = fp_from_be_bytes(&vec![1u8, 0]);
    assert_eq!(f.bytes, fp_from_u64(256).bytes);
}

#[test]
fn hash_to_fr_deterministic_and_binding() {
    let a = hash_string_to_fr("aux".to_string());
    let b = hash_string_to_fr("aux".to_string());
    let c = hash_string_to_fr("different".to_string());
    assert_eq!(a.bytes, b.bytes);
    assert!(a.bytes != c.bytes);
}

#[test]
fn mimc_single_round_exact() {
    // one round with v = 1, r = 1, c = 1: the image is 1 + (1 + 1)^3 = 9
    let constants = vec![fp_from_u64(1)];
    let image = mimc(fp_from_u64(1), fp_from_u64(1), &constants);
    assert_eq!(image.bytes, fp_from_u64(9).bytes);
}

#[test]
fn fr_to_bits_little_endian() {
    let bits = fr_to_bits(&fp_from_u64(5));
    assert_eq!(bits.len(), 64);
    assert!(bits[0]);
    assert!(!bits[1]);
    assert!(bits[2]);
    for i in 3..64 {
        assert!(!bits[i]);
    }
}

#[test]
fn gm17_darkpool_validates_upperbound() {
    let err = Gm17Darkpool::new(9).err().unwrap();
    assert!(err.message() == "Upperbound should be either 2^8, 2^16, 2^32 or 2^64");
    let dp = Gm17Darkpool::new(u8::MAX as usize).unwrap();
    assert_eq!(dp.mimc_constants.len(), 322);
    assert_eq!(dp.upperbound, 8);
}

#[test]
fn gm17_setup_images_consistent() {
    let dp = Gm17Darkpool::new(u8::MAX as usize).unwrap();
    let balances = vec![20u64, 30, 40];
    let (images, blindings) = wake_implementation::proof_system_gm17::gm17_setup_images(
        &dp.mimc_constants,
        3,
        10,
        &balances,
        u8::MAX as u64,
    )
    .unwrap();
    assert_eq!(images.len(), 3);
    assert_eq!(blindings.len(), 3);
    // the published image is the MiMC hash of the reduced balance
    for j in 0..3 {
        let v = fp_from_u64(u8::MAX as u64 - (balances[j] - 10));
        let recomputed = mimc(v, blindings[j].clone(), &dp.mimc_constants);
        assert_eq!(images[j].bytes, recomputed.bytes);
    }
}

#[test]
fn gm17_setup_images_rejects_bad_inputs() {
    let dp = Gm17Darkpool::new(u8::MAX as usize).unwrap();
    let short = vec![20u64, 30];
    let err = wake_implementation::proof_system_gm17::gm17_setup_images(
        &dp.mimc_constants,
        3,
        10,
        &short,
        u8::MAX as u64,
    )
    .err()
    .unwrap();
    assert!(err.message() == "balances not correct length");

    let balances = vec![20u64, 30, 40];
    let err = wake_implementation::proof_system_gm17::gm17_setup_images(
        &dp.mimc_constants,
        3,
        10,
        &balances,
        9,
    )
    .err()
    .unwrap();
    assert!(err.message().starts_with("upperbound was not among the valid values:"));

    let low = vec![9u64, 30, 40];
    let err = wake_implementation::proof_system_gm17::gm17_setup_images(
        &dp.mimc_constants,
        3,
        10,
        &low,
        u8::MAX as u64,
    )
    .err()
    .unwrap();
    assert!(err.message() == "one or more balances are smaller than minimum_balance");
}

#[test]
fn str_eq_compares_contents() {
    assert!(str_eq(&"abc".to_string(), &"abc".to_string()));
    assert!(!str_eq(&"abc".to_string(), &"abd".to_string()));
}
