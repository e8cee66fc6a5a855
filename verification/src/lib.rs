//! Bookkeeping for per-opcode EVM micro-benchmarks: which opcodes a run
//! measures and how, how measured samples are gathered per opcode name, and
//! how the per-opcode average and median become the rows of a CSV report.

pub mod name_order;
pub mod decimal;
pub mod stats;
pub mod table;
pub mod report;
pub mod plan;
