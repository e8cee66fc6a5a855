use opcode_bench::table::SampleTable;
use opcode_bench::plan::{
    apply_cycle_step, apply_time_step,
    cycle_step, is_dirty_stack_opcode, is_eof_opcode, plan_time_step, time_step, TimeStep,
    PC_INDEX, TABLE_LEN,
};

#[test]
fn first_half_is_skipped() {
    assert!(matches!(time_step(0x01, TABLE_LEN), TimeStep::Skip));
    assert!(matches!(time_step(0x7F, TABLE_LEN), TimeStep::Skip));
    assert!(matches!(time_step(PC_INDEX, TABLE_LEN), TimeStep::Skip));
}

#[test]
fn legacy_opcode_is_timed() {
    match time_step(0x80, TABLE_LEN) {
        TimeStep::RunTimed { name, adjust_pc, dirty } => {
            assert_eq!(name, "DUP1");
            assert!(!adjust_pc);
            assert!(!dirty);
        }
        other => panic!("unexpected {:?}", other),
    }
}

#[test]
fn log_opcode_gets_extra_items() {
    match time_step(0xA0, TABLE_LEN) {
        TimeStep::RunTimed { name, dirty, .. } => {
            assert_eq!(name, "LOG0");
            assert!(dirty);
        }
        other => panic!("unexpected {:?}", other),
    }
    match time_step(0xF1, TABLE_LEN) {
        TimeStep::RunTimed { name, dirty, .. } => {
            assert_eq!(name, "CALL");
            assert!(dirty);
        }
        other => panic!("unexpected {:?}", other),
    }
}

#[test]
fn eof_opcode_runs_untimed() {
    match time_step(0xE0, TABLE_LEN) {
        TimeStep::RunEof { name, dirty, .. } => {
            assert_eq!(name, "RJUMP");
            assert!(!dirty);
        }
        other => panic!("unexpected {:?}", other),
    }
    assert!(matches!(time_step(0xF8, TABLE_LEN), TimeStep::RunEof { .. }));
}

#[test]
fn missing_opcode_only_prepares() {
    assert!(matches!(time_step(0xA5, TABLE_LEN), TimeStep::Prepare { adjust_pc: false }));
}

#[test]
fn pc_adjusts_pointer_when_measured() {
    match plan_time_step(PC_INDEX, 100, Some("PC".to_string())) {
        TimeStep::RunTimed { name, adjust_pc, dirty } => {
            assert_eq!(name, "PC");
            assert!(adjust_pc);
            assert!(!dirty);
        }
        other => panic!("unexpected {:?}", other),
    }
    assert!(matches!(plan_time_step(PC_INDEX, 100, None), TimeStep::Prepare { adjust_pc: true }));
    assert!(matches!(plan_time_step(10, 100, None), TimeStep::Skip));
}

#[test]
fn cycle_steps() {
    let step = cycle_step(PC_INDEX);
    assert!(step.advance_pc);
    assert_eq!(step.name.as_deref(), Some("PC"));
    let step = cycle_step(0x01);
    assert!(!step.advance_pc);
    assert_eq!(step.name.as_deref(), Some("ADD"));
    let step = cycle_step(0x0C);
    assert_eq!(step.name, None);
}

#[test]
fn opcode_lists() {
    for name in ["LOG0", "LOG4", "CALL", "CALLCODE", "DELEGATECALL", "STATICCALL", "CREATE2", "CREATE"] {
        assert!(is_dirty_stack_opcode(name));
    }
    assert!(!is_dirty_stack_opcode("ADD"));
    assert!(!is_dirty_stack_opcode("LOG"));
    for name in ["DATALOAD", "RJUMPV", "EXCHANGE", "EOFCREATE", "EXTSTATICCALL"] {
        assert!(is_eof_opcode(name));
    }
    assert!(!is_eof_opcode("RETURNCONTRACT"));
    assert!(!is_eof_opcode("STATICCALL"));
}

#[test]
fn only_timed_steps_are_recorded() {
    let mut t = SampleTable::new();
    apply_time_step(&mut t, &time_step(0x01, TABLE_LEN), 5);
    apply_time_step(&mut t, &time_step(0xE0, TABLE_LEN), 6);
    apply_time_step(&mut t, &time_step(0xA5, TABLE_LEN), 7);
    apply_time_step(&mut t, &time_step(0x80, TABLE_LEN), 8);
    assert_eq!(t.names_sorted(), vec!["DUP1"]);
    assert_eq!(t.samples(&"DUP1".to_string()), Some(&vec![8u128]));
}

#[test]
fn cycle_steps_record_every_opcode() {
    let mut t = SampleTable::new();
    apply_cycle_step(&mut t, &cycle_step(0x0C), 1);
    apply_cycle_step(&mut t, &cycle_step(0x01), 2);
    apply_cycle_step(&mut t, &cycle_step(0xE0), 3);
    assert_eq!(t.names_sorted(), vec!["ADD", "RJUMP"]);
}
