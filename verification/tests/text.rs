use opcode_bench::decimal::decimal_string;
use opcode_bench::name_order::name_precedes;
use opcode_bench::plan::same_name;

#[test]
fn decimal_of_small_numbers() {
    assert_eq!(decimal_string(0), "0");
    assert_eq!(decimal_string(7), "7");
    assert_eq!(decimal_string(10), "10");
    assert_eq!(decimal_string(1234567), "1234567");
}

#[test]
fn decimal_of_largest_u128() {
    assert_eq!(decimal_string(u128::MAX), u128::MAX.to_string());
    assert_eq!(decimal_string(u128::MAX), "340282366920938463463374607431768211455");
}

#[test]
fn decimal_matches_to_string() {
    for n in [1u128, 9, 99, 100, 101, 65535, 1_000_000_007, 18446744073709551616] {
        assert_eq!(decimal_string(n), n.to_string());
    }
}

#[test]
fn names_order_like_str() {
    assert!(name_precedes("ADD", "ADDMOD"));
    assert!(!name_precedes("ADDMOD", "ADD"));
    assert!(!name_precedes("B", "A"));
    assert!(name_precedes("A", "B"));
    assert!(!name_precedes("ADD", "ADD"));
    assert!(name_precedes("", "A"));
    assert!(name_precedes("CALL", "CALLCODE"));
    assert!(name_precedes("PUSH10", "PUSH2"));
    let pairs = [("LOG0", "LOG1"), ("SWAP16", "SWAP2"), ("Z", "a"), ("é", "z"), ("z", "é")];
    for (a, b) in pairs {
        assert_eq!(name_precedes(a, b), a < b);
    }
}

#[test]
fn same_name_compares_text() {
    assert!(same_name("CALL", "CALL"));
    assert!(!same_name("CALL", "CALLCODE"));
    assert!(!same_name("", "A"));
    assert!(same_name("", ""));
}
