use rand::Rng;
use wake_implementation::compiler_bp_wake::run_compiler_key_exchange;

/// Runs compiler WAKE key-exchange with a range-bound upperbound of 2^8-1
/// Asserts similar keys produced
#[test]
fn test_bp_compiler_wake_test_key_exchange_u8() {
    let min_bal = 10;
    let party_amount = 10;
    let upper: u64 = u8::MAX as u64;

    let mut balances: Vec<u64> = Vec::new();
    for _ in 0..party_amount {
        // generate random balance larger than or equal, to the minimum balance
        let balance = rand::rngs::OsRng.gen_range(min_bal..=upper);
        balances.push(balance);
    }

    let keys = run_compiler_key_exchange(party_amount, min_bal, balances, upper).unwrap();

    for i in 1..keys.len() {
        assert!(keys[i - 1] == keys[i])
    }
}

/// Runs compiler WAKE key-exchange with a range-bound upperbound of 2^16-1
/// Asserts similar keys produced
#[test]
fn test_bp_compiler_wake_test_key_exchange_u16() {
    let min_bal = 1000;
    let party_amount = 10;
    let upper: u64 = u16::MAX as u64;

    let mut balances: Vec<u64> = Vec::new();
    for _ in 0..party_amount {
        let balance = rand::rngs::OsRng.gen_range(min_bal..=upper);
        balances.push(balance);
    }

    let keys = run_compiler_key_exchange(party_amount, min_bal, balances, upper).unwrap();

    for i in 1..keys.len() {
        assert!(keys[i - 1] == keys[i])
    }
}

/// Runs compiler WAKE key-exchange with a range-bound upperbound of 2^32-1
/// Asserts similar keys produced
#[test]
fn test_bp_compiler_wake_test_key_exchange_u32() {
    let min_bal = 10000;
    let party_amount = 10;
    let upper: u64 = u32::MAX as u64;

    let mut balances: Vec<u64> = Vec::new();
    for _ in 0..party_amount {
        let balance = rand::rngs::OsRng.gen_range(min_bal..=upper);
        balances.push(balance);
    }

    let keys = run_compiler_key_exchange(party_amount, min_bal, balances, upper).unwrap();

    for i in 1..keys.len() {
        assert!(keys[i - 1] == keys[i])
    }
}

/// Runs compiler WAKE key-exchange with a range-bound upperbound of 2^64-1
/// Asserts similar keys produced
#[test]
fn test_bp_compiler_wake_test_key_exchange_u64() {
    let party_amount = 10;
    let large_min_bal: u64 = 100000000;

    let mut balances: Vec<u64> = Vec::new();
    for _ in 0..party_amount {
        let balance = rand::rngs::OsRng.gen_range(large_min_bal..=u64::MAX);
        balances.push(balance);
    }

    let keys = run_compiler_key_exchange(party_amount, large_min_bal, balances, u64::MAX).unwrap();

    for i in 1..keys.len() {
        assert!(keys[i - 1] == keys[i])
    }
}

/// *Negative test*
/// Runs compiler WAKE key-exchange
/// Should return error, as balances are not above the minimum required balance
#[test]
fn test_bp_compiler_wake_test_key_exchange_balance_neg() {
    let party_amount = 10;
    let large_min_bal: u64 = 100000000;

    let balances: Vec<u64> = vec![9, 10, 11, 12, 13, 14, 15, 16, 17, 18];

    let keys = run_compiler_key_exchange(party_amount, large_min_bal, balances, u64::MAX);

    assert!(
        keys.err().unwrap().message() == "one or more balances are smaller than minimum_balance"
    );
}

/// *Negative test*
/// Runs compiler WAKE key-exchange
/// Should return error, as not enough balances supplied, or too many supplied
#[test]
fn test_bp_compiler_wake_test_key_exchange_balance_len_neg() {
    let party_amount = 10;
    let large_min_bal: u64 = 100000000;

    let balances_one: Vec<u64> = vec![10, 11, 12, 13, 14, 15, 16, 17, 18];
    let keys = run_compiler_key_exchange(party_amount, large_min_bal, balances_one, u64::MAX);
    assert!(keys.err().unwrap().message() == "balances not correct length");

    let balances_two: Vec<u64> = vec![10, 11, 12, 13, 14, 15, 16, 17, 18, 19, 20];
    let keys = run_compiler_key_exchange(party_amount, large_min_bal, balances_two, u64::MAX);
    assert!(keys.err().unwrap().message() == "balances not correct length");
}

/// *Negative test*
/// Runs compiler WAKE key-exchange
/// Should return error, as upppbound is not valid
#[test]
fn test_bp_compiler_wake_test_upperbound_neg() {
    let party_amount = 10;
    let upperbound = 9;
    let large_min_bal: u64 = 100000000;

    let balances: Vec<u64> = vec![10, 11, 12, 13, 14, 15, 16, 17, 18, 19];

    let keys = run_compiler_key_exchange(party_amount, large_min_bal, balances, upperbound);

    assert!(
        keys.err().unwrap().message().starts_with("upperbound was not among the valid values:")
    );
}
