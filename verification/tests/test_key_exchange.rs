use wake_implementation::burmester_desmedt::key_exchange;

#[test]
fn test_compute_key() {
    let party_amount = 10;
    let keys = key_exchange(party_amount);

    for i in 1..party_amount {
        assert!(keys[i - 1] == keys[i]);
    }
}
