use opcode_bench::table::SampleTable;

#[test]
fn record_appends_in_order() {
    let mut t = SampleTable::new();
    t.record("ADD".to_string(), 5);
    t.record("MUL".to_string(), 7);
    t.record("ADD".to_string(), 3);
    assert_eq!(t.samples(&"ADD".to_string()), Some(&vec![5u128, 3]));
    assert_eq!(t.samples(&"MUL".to_string()), Some(&vec![7u128]));
    assert_eq!(t.samples(&"SUB".to_string()), None);
}

#[test]
fn names_come_out_sorted() {
    let mut t = SampleTable::new();
    for name in ["SWAP2", "ADD", "SWAP16", "CALL", "ADD"] {
        t.record(name.to_string(), 1);
    }
    assert_eq!(t.names_sorted(), vec!["ADD", "CALL", "SWAP16", "SWAP2"]);
}

#[test]
fn empty_table_has_no_names() {
    let t = SampleTable::new();
    assert!(t.names_sorted().is_empty());
}
