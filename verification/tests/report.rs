use opcode_bench::report::{
    average_report, averages_computable, median_report, medians_computable, Measure,
};
use opcode_bench::table::SampleTable;

fn table_of(entries: &[(&str, u128)]) -> SampleTable {
    let mut t = SampleTable::new();
    for (name, sample) in entries {
        t.record(name.to_string(), *sample);
    }
    t
}

#[test]
fn time_report_rows() {
    let t = table_of(&[("SUB", 30), ("ADD", 12), ("MUL", 7)]);
    assert!(medians_computable(&t, 1));
    let rows = median_report(&t, 1, Measure::Time);
    assert_eq!(
        rows,
        vec![
            vec!["opcode", "avg_time", "median_time"],
            vec!["ADD", "12", "12"],
            vec!["MUL", "7", "7"],
            vec!["SUB", "30", "30"],
        ]
    );
}

#[test]
fn cycle_report_header() {
    let t = table_of(&[("STOP", 100)]);
    let rows = median_report(&t, 1, Measure::Cycles);
    assert_eq!(rows, vec![vec!["opcode", "avg_cycles", "median_cycles"], vec!["STOP", "100", "100"]]);
}

#[test]
fn report_over_several_runs() {
    let t = table_of(&[("ADD", 4), ("ADD", 1), ("ADD", 3), ("ADD", 2), ("POP", 9), ("POP", 9), ("POP", 9), ("POP", 10)]);
    assert!(medians_computable(&t, 4));
    let rows = median_report(&t, 4, Measure::Time);
    assert_eq!(rows[1], vec!["ADD", "2", "2"]);
    assert_eq!(rows[2], vec!["POP", "9", "9"]);
}

#[test]
fn empty_report_is_header_only() {
    let t = SampleTable::new();
    assert!(medians_computable(&t, 1));
    assert_eq!(median_report(&t, 1, Measure::Time), vec![vec!["opcode", "avg_time", "median_time"]]);
    assert_eq!(average_report(&t, 100), vec![vec!["opcode", "avg_time"]]);
}

#[test]
fn totals_report_divides_by_runs() {
    let mut t = SampleTable::new();
    for i in 0..100u128 {
        t.record("ADD".to_string(), i);
        t.record("GAS".to_string(), 7);
    }
    assert!(averages_computable(&t, 100));
    let rows = average_report(&t, 100);
    assert_eq!(rows, vec![vec!["opcode", "avg_time"], vec!["ADD", "49"], vec!["GAS", "7"]]);
}

#[test]
fn uncomputable_reports_are_detected() {
    let t = table_of(&[("ADD", u128::MAX), ("ADD", 1)]);
    assert!(!averages_computable(&t, 1));
    assert!(!medians_computable(&t, 1));
    let t = table_of(&[("ADD", 1)]);
    assert!(!medians_computable(&t, 2));
    assert!(averages_computable(&t, 2));
    assert!(!averages_computable(&t, 0));
}
