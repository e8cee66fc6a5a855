//! What a benchmark run does at each index of the instruction table.
//!
//! The time benchmark measures only the second half of the table. An opcode
//! that only exists in EOF code is run once on an EOF interpreter and not
//! timed; every other opcode is timed on a legacy interpreter, and opcodes
//! that read many stack items get extra items pushed first. The cycle
//! benchmark and the totals benchmark time every opcode of the table.

use vstd::prelude::*;
use revm::interpreter::OPCODE_INFO_JUMPTABLE;
use crate::name_order::{name_precedes, lemma_name_order};
use crate::table::{SampleTable, samples_of};

verus! {

/// Runs per opcode in the time and cycle benchmarks.
pub const ITERATIONS: usize = 1;

/// Runs per opcode in the totals benchmark.
pub const TOTAL_ITERATIONS: usize = 100;

/// The index of the program-counter instruction, which reads the
/// instruction pointer one byte further on.
pub const PC_INDEX: usize = 88;

/// Zeros pushed on each interpreter's stack before an opcode is run.
pub const STACK_PREFILL: usize = 50;

/// Extra items pushed for opcodes that read many stack items, and zeros
/// pushed for EOF opcodes.
pub const EXTRA_PUSHES: usize = 7;

/// The number of entries in an instruction table.
pub const TABLE_LEN: usize = 256;

/// Opcodes that read more stack items than the prefill gives them, so that
/// seven ones are pushed on the legacy interpreter's stack first.
pub open spec fn dirty_stack_names() -> Seq<Seq<char>> {
    seq![
        "LOG0"@, "LOG1"@, "LOG2"@, "LOG3"@, "LOG4"@, "CALL"@, "CALLCODE"@, "DELEGATECALL"@,
        "STATICCALL"@, "CREATE2"@, "CREATE"@,
    ]
}

/// Opcodes that are only valid in EOF code.
pub open spec fn eof_names() -> Seq<Seq<char>> {
    seq![
        "DATALOAD"@, "DATALOADN"@, "DATASIZE"@, "DATACOPY"@, "RJUMP"@, "RJUMPI"@, "RJUMPV"@,
        "CALLF"@, "RETF"@, "JUMPF"@, "DUPN"@, "SWAPN"@, "EXCHANGE"@, "EOFCREATE"@,
        "RETURNDATALOAD"@, "EXTCALL"@, "EXTDELEGATECALL"@, "EXTSTATICCALL"@,
    ]
}

/// Whether two names are the same.
pub fn same_name(a: &str, b: &str) -> (same: bool)
    ensures
        same == (a@ == b@),
{
    proof {
        lemma_name_order(a@, b@, a@);
        lemma_name_order(b@, a@, b@);
    }
    !name_precedes(a, b) && !name_precedes(b, a)
}

/// Whether `name` is one of `names`.
fn listed(names: &Vec<&str>, name: &str) -> (found: bool)
    ensures
        found == names@.map_values(|s: &str| s@).contains(name@),
{
    let ghost v = names@.map_values(|s: &str| s@);
    for i in 0..names.len()
        invariant
            v == names@.map_values(|s: &str| s@),
            forall|q: int| 0 <= q < i ==> v[q] != name@,
    {
        if same_name(names[i], name) {
            assert(v[i as int] == name@);
            return true;
        }
    }
    false
}

/// Whether the opcode named `name` gets extra stack items before it runs.
pub fn is_dirty_stack_opcode(name: &str) -> (dirty: bool)
    ensures
        dirty == dirty_stack_names().contains(name@),
{
    let mut names: Vec<&str> = Vec::new();
    names.push("LOG0");
    names.push("LOG1");
    names.push("LOG2");
    names.push("LOG3");
    names.push("LOG4");
    names.push("CALL");
    names.push("CALLCODE");
    names.push("DELEGATECALL");
    names.push("STATICCALL");
    names.push("CREATE2");
    names.push("CREATE");
    assert(names@.map_values(|s: &str| s@) =~= dirty_stack_names());
    listed(&names, name)
}

/// Whether the opcode named `name` is only valid in EOF code.
pub fn is_eof_opcode(name: &str) -> (eof: bool)
    ensures
        eof == eof_names().contains(name@),
{
    let mut names: Vec<&str> = Vec::new();
    names.push("DATALOAD");
    names.push("DATALOADN");
    names.push("DATASIZE");
    names.push("DATACOPY");
    names.push("RJUMP");
    names.push("RJUMPI");
    names.push("RJUMPV");
    names.push("CALLF");
    names.push("RETF");
    names.push("JUMPF");
    names.push("DUPN");
    names.push("SWAPN");
    names.push("EXCHANGE");
    names.push("EOFCREATE");
    names.push("RETURNDATALOAD");
    names.push("EXTCALL");
    names.push("EXTDELEGATECALL");
    names.push("EXTSTATICCALL");
    assert(names@.map_values(|s: &str| s@) =~= eof_names());
    listed(&names, name)
}

/// The text of an optional name.
pub open spec fn name_view(name: Option<String>) -> Option<Seq<char>> {
    match name {
        Some(s) => Some(s@),
        None => None,
    }
}

/// The name that revm's opcode information table gives the opcode with
/// this byte, if the byte is an opcode.
pub uninterp spec fn opcode_info_name(opcode: u8) -> Option<Seq<char>>;

/// Looks the opcode up in `revm_interpreter::opcode::OPCODE_INFO_JUMPTABLE`
/// and returns the `OpCodeInfo::name` of its entry. Claimed: the result is
/// a function of the byte alone (the table is a constant), named
/// `opcode_info_name`; nothing more is said of which bytes have entries or
/// what they are called.
#[verifier::external_body]
fn opcode_name(opcode: u8) -> (name: Option<String>)
    ensures
        name_view(name) == opcode_info_name(opcode),
{
    match OPCODE_INFO_JUMPTABLE[opcode as usize] {
        Some(info) => Some(info.name().to_string()),
        None => None,
    }
}

/// What the time benchmark does at one index of the instruction table.
#[derive(Debug)]
pub enum TimeStep {
    /// The index is in the first half of the table: nothing is done.
    Skip,
    /// Both interpreters are prepared, but there is no opcode to run.
    Prepare {
        /// Whether the instruction pointer is moved one byte on and back.
        adjust_pc: bool,
    },
    /// The EOF opcode runs once on the EOF interpreter, after
    /// `EXTRA_PUSHES` more zeros, untimed; its outcome is printed.
    RunEof {
        name: String,
        adjust_pc: bool,
        /// Whether `EXTRA_PUSHES` ones go on the legacy interpreter's stack.
        dirty: bool,
    },
    /// The opcode runs on the legacy interpreter, timed; the elapsed time
    /// is recorded under its name.
    RunTimed {
        name: String,
        adjust_pc: bool,
        /// Whether `EXTRA_PUSHES` ones go on the legacy interpreter's stack
        /// first.
        dirty: bool,
    },
}

/// `step` is what the time benchmark does at `index` of a table of
/// `table_len` entries when the opcode there is called `name`.
pub open spec fn is_time_step(
    step: TimeStep,
    index: nat,
    table_len: nat,
    name: Option<Seq<char>>,
) -> bool {
    if index < table_len / 2 {
        step is Skip
    } else {
        match name {
            None => step == TimeStep::Prepare { adjust_pc: index == PC_INDEX },
            Some(n) => if eof_names().contains(n) {
                step matches TimeStep::RunEof { name, adjust_pc, dirty } && name@ == n && adjust_pc
                    == (index == PC_INDEX) && dirty == dirty_stack_names().contains(n)
            } else {
                step matches TimeStep::RunTimed { name, adjust_pc, dirty } && name@ == n
                    && adjust_pc == (index == PC_INDEX) && dirty == dirty_stack_names().contains(n)
            },
        }
    }
}

/// What the time benchmark does at `index`, given the name of the opcode
/// there.
pub fn plan_time_step(index: usize, table_len: usize, name: Option<String>) -> (step: TimeStep)
    ensures
        is_time_step(step, index as nat, table_len as nat, name_view(name)),
{
    if index < table_len / 2 {
        return TimeStep::Skip;
    }
    let adjust_pc = index == PC_INDEX;
    match name {
        None => TimeStep::Prepare { adjust_pc },
        Some(name) => {
            let dirty = is_dirty_stack_opcode(name.as_str());
            if is_eof_opcode(name.as_str()) {
                TimeStep::RunEof { name, adjust_pc, dirty }
            } else {
                TimeStep::RunTimed { name, adjust_pc, dirty }
            }
        },
    }
}

/// What the time benchmark does at `index` of an instruction table of
/// `table_len` entries, with the opcode's name from revm's table.
pub fn time_step(index: usize, table_len: usize) -> (step: TimeStep)
    requires
        index < TABLE_LEN,
    ensures
        is_time_step(step, index as nat, table_len as nat, opcode_info_name(index as u8)),
{
    let name = opcode_name(index as u8);
    plan_time_step(index, table_len, name)
}

/// What the cycle and totals benchmarks do at one index of the table.
#[derive(Debug)]
pub struct CycleStep {
    /// Whether the instruction pointer is moved one byte further on (and
    /// left there) before anything runs.
    pub advance_pc: bool,
    /// The opcode to time, if the index is an opcode; its sample is
    /// recorded under this name.
    pub name: Option<String>,
}

/// What the cycle and totals benchmarks do at `index`, given the name of the
/// opcode there.
pub fn plan_cycle_step(index: usize, name: Option<String>) -> (step: CycleStep)
    ensures
        step.advance_pc == (index == PC_INDEX),
        name_view(step.name) == name_view(name),
{
    CycleStep { advance_pc: index == PC_INDEX, name }
}

/// What the cycle and totals benchmarks do at `index`, with the opcode's
/// name from revm's table.
pub fn cycle_step(index: usize) -> (step: CycleStep)
    requires
        index < TABLE_LEN,
    ensures
        step.advance_pc == (index == PC_INDEX),
        name_view(step.name) == opcode_info_name(index as u8),
{
    let name = opcode_name(index as u8);
    plan_cycle_step(index, name)
}

/// The samples after the time benchmark has taken `step` and measured
/// `elapsed`: only a timed run records its sample, under its opcode's name.
pub open spec fn after_time_step(
    m: Map<Seq<char>, Seq<u128>>,
    step: TimeStep,
    elapsed: u128,
) -> Map<Seq<char>, Seq<u128>> {
    match step {
        TimeStep::RunTimed { name, .. } => m.insert(name@, samples_of(m, name@).push(elapsed)),
        _ => m,
    }
}

/// The samples after the cycle or totals benchmark has taken `step` and
/// measured `elapsed`: a step with an opcode records its sample under the
/// opcode's name.
pub open spec fn after_cycle_step(
    m: Map<Seq<char>, Seq<u128>>,
    step: CycleStep,
    elapsed: u128,
) -> Map<Seq<char>, Seq<u128>> {
    match step.name {
        Some(name) => m.insert(name@, samples_of(m, name@).push(elapsed)),
        None => m,
    }
}

/// A timed step appends its sample to its opcode's samples, whether or not
/// the opcode already has samples, and every other name keeps its samples;
/// any other step changes nothing.
pub proof fn lemma_time_step_appends(m: Map<Seq<char>, Seq<u128>>, step: TimeStep, elapsed: u128)
    ensures
        forall|k: Seq<char>|
            #![trigger samples_of(after_time_step(m, step, elapsed), k)]
            samples_of(after_time_step(m, step, elapsed), k) == if step matches TimeStep::RunTimed { name, .. } && name@ == k {
                samples_of(m, k).push(elapsed)
            } else {
                samples_of(m, k)
            },
        !(step is RunTimed) ==> after_time_step(m, step, elapsed) == m,
{
}

/// A step with an opcode appends its sample to that opcode's samples,
/// whether or not the opcode already has samples, and every other name keeps
/// its samples; a step without an opcode changes nothing.
pub proof fn lemma_cycle_step_appends(m: Map<Seq<char>, Seq<u128>>, step: CycleStep, elapsed: u128)
    ensures
        forall|k: Seq<char>|
            #![trigger samples_of(after_cycle_step(m, step, elapsed), k)]
            samples_of(after_cycle_step(m, step, elapsed), k) == if name_view(step.name) == Some(k) {
                samples_of(m, k).push(elapsed)
            } else {
                samples_of(m, k)
            },
        step.name is None ==> after_cycle_step(m, step, elapsed) == m,
{
}

/// Records what the time benchmark measured at one step: the elapsed time
/// of a timed run goes under its opcode's name; any other step records
/// nothing.
pub fn apply_time_step(table: &mut SampleTable, step: &TimeStep, elapsed: u128)
    ensures
        final(table)@ == after_time_step(old(table)@, *step, elapsed),
        forall|k: Seq<char>|
            #![trigger samples_of(final(table)@, k)]
            samples_of(final(table)@, k) == if step matches TimeStep::RunTimed { name, .. } && name@ == k {
                samples_of(old(table)@, k).push(elapsed)
            } else {
                samples_of(old(table)@, k)
            },
{
    proof {
        lemma_time_step_appends(old(table)@, *step, elapsed);
    }
    match step {
        TimeStep::RunTimed { name, .. } => {
            table.record(name.clone(), elapsed);
        },
        _ => {},
    }
}

/// Records what the cycle or totals benchmark measured at one step: the
/// sample goes under the opcode's name, if the step has an opcode.
pub fn apply_cycle_step(table: &mut SampleTable, step: &CycleStep, elapsed: u128)
    ensures
        final(table)@ == after_cycle_step(old(table)@, *step, elapsed),
        forall|k: Seq<char>|
            #![trigger samples_of(final(table)@, k)]
            samples_of(final(table)@, k) == if name_view(step.name) == Some(k) {
                samples_of(old(table)@, k).push(elapsed)
            } else {
                samples_of(old(table)@, k)
            },
{
    proof {
        lemma_cycle_step_appends(old(table)@, *step, elapsed);
    }
    match &step.name {
        Some(name) => {
            table.record(name.clone(), elapsed);
        },
        None => {},
    }
}

/// The samples after a whole run of the time benchmark from an empty table:
/// step `p` measured `elapsed[p]`.
pub open spec fn time_run(steps: Seq<TimeStep>, elapsed: Seq<u128>) -> Map<Seq<char>, Seq<u128>>
    decreases steps.len(),
{
    if steps.len() == 0 {
        Map::empty()
    } else {
        after_time_step(
            time_run(steps.drop_last(), elapsed),
            steps.last(),
            elapsed[steps.len() - 1],
        )
    }
}

/// The samples after a whole run of the cycle or totals benchmark from an
/// empty table: step `p` measured `elapsed[p]`.
pub open spec fn cycle_run(steps: Seq<CycleStep>, elapsed: Seq<u128>) -> Map<Seq<char>, Seq<u128>>
    decreases steps.len(),
{
    if steps.len() == 0 {
        Map::empty()
    } else {
        after_cycle_step(
            cycle_run(steps.drop_last(), elapsed),
            steps.last(),
            elapsed[steps.len() - 1],
        )
    }
}

/// The name under which a step records its sample, if it records one.
pub open spec fn timed_name(step: TimeStep) -> Option<Seq<char>> {
    match step {
        TimeStep::RunTimed { name, .. } => Some(name@),
        _ => None,
    }
}

/// Some name among the first `k` steps of a time run is timed as `n`.
spec fn timed_among(steps: Seq<TimeStep>, k: int, n: Seq<char>) -> bool {
    exists|p: int| 0 <= p < k && #[trigger] timed_name(steps[p]) == Some(n)
}

proof fn lemma_time_run_dom(steps: Seq<TimeStep>, elapsed: Seq<u128>, n: Seq<char>)
    ensures
        time_run(steps, elapsed).dom().contains(n) <==> timed_among(steps, steps.len() as int, n),
    decreases steps.len(),
{
    if steps.len() > 0 {
        let k = steps.len() - 1;
        let t = steps.drop_last();
        lemma_time_run_dom(t, elapsed, n);
        let last = steps[k];
        assert(steps.last() == last);
        assert(time_run(steps, elapsed).dom() =~= match timed_name(last) {
            Some(m) => time_run(t, elapsed).dom().insert(m),
            None => time_run(t, elapsed).dom(),
        });
        if timed_name(last) == Some(n) {
            assert(timed_name(steps[k]) == Some(n));
        }
        if timed_among(t, k, n) {
            let p = choose|p: int| 0 <= p < k && #[trigger] timed_name(t[p]) == Some(n);
            assert(steps[p] == t[p]);
        }
        if timed_among(steps, steps.len() as int, n) {
            let p = choose|p: int| 0 <= p < steps.len() && #[trigger] timed_name(steps[p]) == Some(n);
            if p < k {
                assert(t[p] == steps[p]);
            }
        }
    }
}

/// Some step among the first `k` of a cycle run has the opcode `n`.
spec fn named_among(steps: Seq<CycleStep>, k: int, n: Seq<char>) -> bool {
    exists|p: int| 0 <= p < k && #[trigger] name_view(steps[p].name) == Some(n)
}

proof fn lemma_cycle_run_dom(steps: Seq<CycleStep>, elapsed: Seq<u128>, n: Seq<char>)
    ensures
        cycle_run(steps, elapsed).dom().contains(n) <==> named_among(steps, steps.len() as int, n),
    decreases steps.len(),
{
    if steps.len() > 0 {
        let k = steps.len() - 1;
        let t = steps.drop_last();
        lemma_cycle_run_dom(t, elapsed, n);
        let last = steps[k];
        assert(steps.last() == last);
        assert(cycle_run(steps, elapsed).dom() =~= match name_view(last.name) {
            Some(m) => cycle_run(t, elapsed).dom().insert(m),
            None => cycle_run(t, elapsed).dom(),
        });
        if name_view(last.name) == Some(n) {
            assert(name_view(steps[k].name) == Some(n));
        }
        if named_among(t, k, n) {
            let p = choose|p: int| 0 <= p < k && #[trigger] name_view(t[p].name) == Some(n);
            assert(steps[p] == t[p]);
        }
        if named_among(steps, steps.len() as int, n) {
            let p = choose|p: int| 0 <= p < steps.len() && #[trigger] name_view(steps[p].name) == Some(n);
            if p < k {
                assert(t[p] == steps[p]);
            }
        }
    }
}

/// A whole run of the time benchmark, passing over the table of
/// `table_len` entries any number of times with step `p` taken at index
/// `p % table_len`, records samples under exactly the names of the opcodes in
/// the second half of the table that are not EOF-only.
pub proof fn lemma_time_run_names(
    steps: Seq<TimeStep>,
    elapsed: Seq<u128>,
    table_len: nat,
    n: Seq<char>,
)
    requires
        0 < table_len <= TABLE_LEN,
        steps.len() >= table_len,
        forall|p: int|
            0 <= p < steps.len() ==> is_time_step(
                #[trigger] steps[p],
                (p % (table_len as int)) as nat,
                table_len,
                opcode_info_name((p % (table_len as int)) as u8),
            ),
    ensures
        time_run(steps, elapsed).dom().contains(n) <==> exists|i: int|
            table_len / 2 <= i < table_len && #[trigger] opcode_info_name(i as u8) == Some(n)
                && !eof_names().contains(n),
{
    lemma_time_run_dom(steps, elapsed, n);
    let len = table_len as int;
    if timed_among(steps, steps.len() as int, n) {
        let p = choose|p: int| 0 <= p < steps.len() && #[trigger] timed_name(steps[p]) == Some(n);
        let i = p % len;
        assert(is_time_step(steps[p], i as nat, table_len, opcode_info_name(i as u8)));
        assert(opcode_info_name(i as u8) == Some(n));
    }
    if exists|i: int| table_len / 2 <= i < table_len && #[trigger] opcode_info_name(i as u8) == Some(n)
        && !eof_names().contains(n) {
        let i = choose|i: int| table_len / 2 <= i < table_len && #[trigger] opcode_info_name(i as u8) == Some(n)
            && !eof_names().contains(n);
        assert(i % len == i) by (nonlinear_arith)
            requires
                0 <= i < len,
        ;
        assert(is_time_step(steps[i], i as nat, table_len, opcode_info_name(i as u8)));
        assert(timed_name(steps[i]) == Some(n));
    }
}

/// A whole run of the cycle or totals benchmark, passing over the table any
/// number of times with step `p` taken at index `p % table_len`, records
/// samples under exactly the names of the opcodes in the table.
pub proof fn lemma_cycle_run_names(
    steps: Seq<CycleStep>,
    elapsed: Seq<u128>,
    table_len: nat,
    n: Seq<char>,
)
    requires
        0 < table_len <= TABLE_LEN,
        steps.len() >= table_len,
        forall|p: int|
            0 <= p < steps.len() ==> name_view(#[trigger] steps[p].name) == opcode_info_name(
                (p % (table_len as int)) as u8,
            ),
    ensures
        cycle_run(steps, elapsed).dom().contains(n) <==> exists|i: int|
            0 <= i < table_len && #[trigger] opcode_info_name(i as u8) == Some(n),
{
    lemma_cycle_run_dom(steps, elapsed, n);
    let len = table_len as int;
    if named_among(steps, steps.len() as int, n) {
        let p = choose|p: int| 0 <= p < steps.len() && #[trigger] name_view(steps[p].name) == Some(n);
        let i = p % len;
        assert(0 <= i < len) by (nonlinear_arith)
            requires
                len > 0,
                i == p % len,
        ;
        assert(opcode_info_name(i as u8) == Some(n));
    }
    if exists|i: int| 0 <= i < table_len && #[trigger] opcode_info_name(i as u8) == Some(n) {
        let i = choose|i: int| 0 <= i < table_len && #[trigger] opcode_info_name(i as u8) == Some(n);
        assert(i % len == i) by (nonlinear_arith)
            requires
                0 <= i < len,
        ;
        assert(name_view(steps[i].name) == Some(n));
    }
}

/// In the time benchmark, the first half of the table is skipped, only
/// opcodes that exist outside EOF code are timed and recorded, EOF opcodes
/// are run untimed, and an index with no opcode runs nothing.
pub proof fn lemma_time_step_kinds(step: TimeStep, index: nat, table_len: nat, name: Option<Seq<char>>)
    requires
        is_time_step(step, index, table_len, name),
    ensures
        step is Skip <==> index < table_len / 2,
        step is RunTimed ==> name is Some && !eof_names().contains(name->0),
        step is RunEof ==> name is Some && eof_names().contains(name->0),
        step is Prepare ==> name is None,
{
}

/// The opcodes that get extra stack items are exactly LOG0 to LOG4, CALL,
/// CALLCODE, DELEGATECALL, STATICCALL, CREATE2 and CREATE.
pub proof fn lemma_dirty_stack_names(n: Seq<char>)
    ensures
        dirty_stack_names().len() == 11,
        dirty_stack_names().contains(n) <==> (n == "LOG0"@ || n == "LOG1"@ || n == "LOG2"@ || n
            == "LOG3"@ || n == "LOG4"@ || n == "CALL"@ || n == "CALLCODE"@ || n == "DELEGATECALL"@
            || n == "STATICCALL"@ || n == "CREATE2"@ || n == "CREATE"@),
{
    let s = dirty_stack_names();
    if s.contains(n) {
        let i = choose|i: int| 0 <= i < s.len() && s[i] == n;
    }
    if n == "LOG0"@ { assert(s[0] == n); }
    if n == "LOG1"@ { assert(s[1] == n); }
    if n == "LOG2"@ { assert(s[2] == n); }
    if n == "LOG3"@ { assert(s[3] == n); }
    if n == "LOG4"@ { assert(s[4] == n); }
    if n == "CALL"@ { assert(s[5] == n); }
    if n == "CALLCODE"@ { assert(s[6] == n); }
    if n == "DELEGATECALL"@ { assert(s[7] == n); }
    if n == "STATICCALL"@ { assert(s[8] == n); }
    if n == "CREATE2"@ { assert(s[9] == n); }
    if n == "CREATE"@ { assert(s[10] == n); }
}

/// The EOF-only opcodes are exactly DATALOAD, DATALOADN, DATASIZE, DATACOPY,
/// RJUMP, RJUMPI, RJUMPV, CALLF, RETF, JUMPF, DUPN, SWAPN, EXCHANGE,
/// EOFCREATE, RETURNDATALOAD, EXTCALL, EXTDELEGATECALL and EXTSTATICCALL.
pub proof fn lemma_eof_names(n: Seq<char>)
    ensures
        eof_names().len() == 18,
        eof_names().contains(n) <==> (n == "DATALOAD"@ || n == "DATALOADN"@ || n == "DATASIZE"@
            || n == "DATACOPY"@ || n == "RJUMP"@ || n == "RJUMPI"@ || n == "RJUMPV"@ || n
            == "CALLF"@ || n == "RETF"@ || n == "JUMPF"@ || n == "DUPN"@ || n == "SWAPN"@ || n
            == "EXCHANGE"@ || n == "EOFCREATE"@ || n == "RETURNDATALOAD"@ || n == "EXTCALL"@ || n
            == "EXTDELEGATECALL"@ || n == "EXTSTATICCALL"@),
{
    let s = eof_names();
    if s.contains(n) {
        let i = choose|i: int| 0 <= i < s.len() && s[i] == n;
    }
    if n == "DATALOAD"@ { assert(s[0] == n); }
    if n == "DATALOADN"@ { assert(s[1] == n); }
    if n == "DATASIZE"@ { assert(s[2] == n); }
    if n == "DATACOPY"@ { assert(s[3] == n); }
    if n == "RJUMP"@ { assert(s[4] == n); }
    if n == "RJUMPI"@ { assert(s[5] == n); }
    if n == "RJUMPV"@ { assert(s[6] == n); }
    if n == "CALLF"@ { assert(s[7] == n); }
    if n == "RETF"@ { assert(s[8] == n); }
    if n == "JUMPF"@ { assert(s[9] == n); }
    if n == "DUPN"@ { assert(s[10] == n); }
    if n == "SWAPN"@ { assert(s[11] == n); }
    if n == "EXCHANGE"@ { assert(s[12] == n); }
    if n == "EOFCREATE"@ { assert(s[13] == n); }
    if n == "RETURNDATALOAD"@ { assert(s[14] == n); }
    if n == "EXTCALL"@ { assert(s[15] == n); }
    if n == "EXTDELEGATECALL"@ { assert(s[16] == n); }
    if n == "EXTSTATICCALL"@ { assert(s[17] == n); }
}

/// In the time benchmark, a step that runs an opcode pushes extra stack
/// items exactly for LOG0 to LOG4, CALL, CALLCODE, DELEGATECALL, STATICCALL,
/// CREATE2 and CREATE, moves the instruction pointer exactly at the
/// program-counter index, and runs untimed on the EOF interpreter exactly
/// the EOF-only opcodes.
pub proof fn lemma_time_step_flags(step: TimeStep, index: nat, table_len: nat, n: Seq<char>)
    requires
        index >= table_len / 2,
        is_time_step(step, index, table_len, Some(n)),
    ensures
        step is RunEof <==> (n == "DATALOAD"@ || n == "DATALOADN"@ || n == "DATASIZE"@ || n
            == "DATACOPY"@ || n == "RJUMP"@ || n == "RJUMPI"@ || n == "RJUMPV"@ || n == "CALLF"@
            || n == "RETF"@ || n == "JUMPF"@ || n == "DUPN"@ || n == "SWAPN"@ || n == "EXCHANGE"@
            || n == "EOFCREATE"@ || n == "RETURNDATALOAD"@ || n == "EXTCALL"@ || n
            == "EXTDELEGATECALL"@ || n == "EXTSTATICCALL"@),
        step is RunEof || step is RunTimed,
        step matches TimeStep::RunEof { name, adjust_pc, dirty } ==> name@ == n && (adjust_pc <==> index
            == 88) && (dirty <==> (n == "LOG0"@ || n == "LOG1"@ || n == "LOG2"@ || n == "LOG3"@
            || n == "LOG4"@ || n == "CALL"@ || n == "CALLCODE"@ || n == "DELEGATECALL"@ || n
            == "STATICCALL"@ || n == "CREATE2"@ || n == "CREATE"@)),
        step matches TimeStep::RunTimed { name, adjust_pc, dirty } ==> name@ == n && (adjust_pc
            <==> index == 88) && (dirty <==> (n == "LOG0"@ || n == "LOG1"@ || n == "LOG2"@ || n
            == "LOG3"@ || n == "LOG4"@ || n == "CALL"@ || n == "CALLCODE"@ || n == "DELEGATECALL"@
            || n == "STATICCALL"@ || n == "CREATE2"@ || n == "CREATE"@)),
{
    lemma_dirty_stack_names(n);
    lemma_eof_names(n);
}

/// The fixed numbers of a run: one run per opcode in the time and cycle
/// benchmarks and a hundred in the totals benchmark, the program counter at
/// index 88 of a 256-entry table, fifty zeros first and seven extra items.
pub proof fn lemma_run_constants()
    ensures
        ITERATIONS == 1,
        TOTAL_ITERATIONS == 100,
        PC_INDEX == 88,
        TABLE_LEN == 256,
        STACK_PREFILL == 50,
        EXTRA_PUSHES == 7,
{
}

/// The cycle and totals benchmarks move the instruction pointer exactly at
/// index 88.
pub proof fn lemma_cycle_step_pc(step: CycleStep, index: nat)
    requires
        step.advance_pc == (index == PC_INDEX),
    ensures
        step.advance_pc <==> index == 88,
{
}

} // verus!
