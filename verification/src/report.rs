//! The rows of the CSV reports: a header, then one row per opcode name in
//! ascending order, with its average (and median) as decimal text.

use vstd::prelude::*;
use crate::decimal::{decimal, decimal_string};
use crate::name_order::name_lt;
use crate::stats::{
    average, average_defined, median, median_defined, median_fits, spec_average, spec_median,
    sum_fits,
};
use crate::table::{SampleTable, strictly_ascending};

verus! {

/// What a report's second and third columns measure.
#[derive(Clone, Copy, PartialEq, Eq, Debug)]
pub enum Measure {
    /// Elapsed nanoseconds.
    Time,
    /// Elapsed CPU cycles.
    Cycles,
}

/// The header of a report with averages and medians.
pub open spec fn median_header(measure: Measure) -> Seq<Seq<char>> {
    match measure {
        Measure::Time => seq!["opcode"@, "avg_time"@, "median_time"@],
        Measure::Cycles => seq!["opcode"@, "avg_cycles"@, "median_cycles"@],
    }
}

/// The header of a report with averages only.
pub open spec fn average_header() -> Seq<Seq<char>> {
    seq!["opcode"@, "avg_time"@]
}

/// The text of each cell of each row.
pub open spec fn rows_view(rows: Seq<Vec<String>>) -> Seq<Seq<Seq<char>>> {
    rows.map_values(|r: Vec<String>| r@.map_values(|s: String| s@))
}

/// Every name's samples have an average and a median over `iterations` runs.
pub open spec fn medians_defined(m: Map<Seq<char>, Seq<u128>>, iterations: nat) -> bool {
    forall|k: Seq<char>|
        m.dom().contains(k) ==> average_defined(#[trigger] m[k], iterations) && median_defined(
            m[k],
            iterations,
        )
}

/// Every name's samples have an average over `iterations` runs.
pub open spec fn averages_defined(m: Map<Seq<char>, Seq<u128>>, iterations: nat) -> bool {
    forall|k: Seq<char>| m.dom().contains(k) ==> average_defined(#[trigger] m[k], iterations)
}

/// The rows after the header name each opcode of the table once, in
/// ascending order.
pub open spec fn one_row_per_name(v: Seq<Seq<Seq<char>>>, m: Map<Seq<char>, Seq<u128>>) -> bool {
    &&& forall|a: int, b: int| 1 <= a < b < v.len() ==> name_lt(#[trigger] v[a][0], #[trigger] v[b][0])
    &&& forall|i: int| 1 <= i < v.len() ==> v[i].len() >= 1 && m.dom().contains(#[trigger] v[i][0])
    &&& forall|k: Seq<char>| m.dom().contains(k) ==> exists|i: int| 1 <= i < v.len() && #[trigger] v[i][0] == k
}

/// A header row made of the given labels.
fn header_row(labels: &Vec<&str>) -> (row: Vec<String>)
    ensures
        row@.map_values(|s: String| s@) == labels@.map_values(|s: &str| s@),
{
    let mut row: Vec<String> = Vec::new();
    for i in 0..labels.len()
        invariant
            row@.len() == i,
            i <= labels@.len(),
            row@.map_values(|s: String| s@) == labels@.take(i as int).map_values(|s: &str| s@),
    {
        let ghost before = row@;
        let cell = labels[i].to_owned();
        assert(cell@ == labels@[i as int]@);
        row.push(cell);
        proof {
            assert(row@ == before.push(cell));
            let lhs = row@.map_values(|s: String| s@);
            let rhs = labels@.take(i + 1).map_values(|s: &str| s@);
            let prev = labels@.take(i as int).map_values(|s: &str| s@);
            assert forall|j: int| 0 <= j < lhs.len() implies lhs[j] == rhs[j] by {
                if j < i {
                    assert(row@[j] == before[j]);
                    assert(lhs[j] == before.map_values(|s: String| s@)[j]);
                    assert(labels@.take(i + 1)[j] == labels@.take(i as int)[j]);
                    assert(prev[j] == rhs[j]);
                }
            }
            assert(labels@.take(i + 1) =~= labels@.take(i as int).push(labels@[i as int]));
            assert(row@.map_values(|s: String| s@) =~= labels@.take(i + 1).map_values(|s: &str| s@));
        }
    }
    assert(labels@.take(labels@.len() as int) =~= labels@);
    row
}

/// Whether every name's samples have an average and a median.
pub fn medians_computable(table: &SampleTable, iterations: usize) -> (ok: bool)
    ensures
        ok == medians_defined(table@, iterations as nat),
{
    let names = table.names_sorted();
    for i in 0..names.len()
        invariant
            forall|q: int| 0 <= q < names@.len() ==> table@.dom().contains(#[trigger] names@[q]@),
            forall|k: Seq<char>|
                table@.dom().contains(k) ==> exists|q: int| 0 <= q < names@.len() && #[trigger] names@[q]@ == k,
            forall|q: int| 0 <= q < i ==> average_defined(table@[#[trigger] names@[q]@], iterations as nat)
                && median_defined(table@[names@[q]@], iterations as nat),
    {
        match table.samples(&names[i]) {
            Some(samples) => {
                if !sum_fits(samples) || iterations == 0 || !median_fits(samples, iterations) {
                    return false;
                }
            },
            None => {
                return false;
            },
        }
    }
    proof {
        assert forall|k: Seq<char>| table@.dom().contains(k) implies average_defined(#[trigger] table@[k], iterations as nat)
            && median_defined(table@[k], iterations as nat) by {
            let q = choose|q: int| 0 <= q < names@.len() && #[trigger] names@[q]@ == k;
        }
    }
    true
}

/// Whether every name's samples have an average.
pub fn averages_computable(table: &SampleTable, iterations: usize) -> (ok: bool)
    ensures
        ok == averages_defined(table@, iterations as nat),
{
    let names = table.names_sorted();
    for i in 0..names.len()
        invariant
            forall|q: int| 0 <= q < names@.len() ==> table@.dom().contains(#[trigger] names@[q]@),
            forall|k: Seq<char>|
                table@.dom().contains(k) ==> exists|q: int| 0 <= q < names@.len() && #[trigger] names@[q]@ == k,
            forall|q: int| 0 <= q < i ==> average_defined(table@[#[trigger] names@[q]@], iterations as nat),
    {
        match table.samples(&names[i]) {
            Some(samples) => {
                if !sum_fits(samples) || iterations == 0 {
                    return false;
                }
            },
            None => {
                return false;
            },
        }
    }
    proof {
        assert forall|k: Seq<char>| table@.dom().contains(k) implies average_defined(#[trigger] table@[k], iterations as nat) by {
            let q = choose|q: int| 0 <= q < names@.len() && #[trigger] names@[q]@ == k;
        }
    }
    true
}

/// The report with each opcode's average and median over `iterations`
/// runs: the header, then one row `[name, average, median]` per name, in
/// ascending order of names.
pub fn median_report(table: &SampleTable, iterations: usize, measure: Measure) -> (rows: Vec<Vec<String>>)
    requires
        medians_defined(table@, iterations as nat),
    ensures
        rows_view(rows@).len() >= 1,
        rows_view(rows@)[0] == median_header(measure),
        one_row_per_name(rows_view(rows@), table@),
        forall|i: int| 1 <= i < rows_view(rows@).len() ==> {
            let r = #[trigger] rows_view(rows@)[i];
            &&& r.len() == 3
            &&& r[1] == decimal(spec_average(table@[r[0]], iterations as nat) as nat)
            &&& r[2] == decimal(spec_median(table@[r[0]], iterations as nat) as nat)
        },
{
    let mut labels: Vec<&str> = Vec::new();
    match measure {
        Measure::Time => {
            labels.push("opcode");
            labels.push("avg_time");
            labels.push("median_time");
        },
        Measure::Cycles => {
            labels.push("opcode");
            labels.push("avg_cycles");
            labels.push("median_cycles");
        },
    }
    let header = header_row(&labels);
    proof {
        assert(labels@.map_values(|s: &str| s@) =~= median_header(measure));
    }
    let mut rows: Vec<Vec<String>> = Vec::new();
    rows.push(header);
    let names = table.names_sorted();
    for i in 0..names.len()
        invariant
            strictly_ascending(names@.map_values(|s: String| s@)),
            forall|q: int| 0 <= q < names@.len() ==> table@.dom().contains(#[trigger] names@[q]@),
            medians_defined(table@, iterations as nat),
            rows@.len() == i + 1,
            rows_view(rows@)[0] == median_header(measure),
            forall|q: int| 1 <= q < rows@.len() ==> {
                let r = #[trigger] rows_view(rows@)[q];
                &&& r.len() == 3
                &&& r[0] == names@[q - 1]@
                &&& r[1] == decimal(spec_average(table@[r[0]], iterations as nat) as nat)
                &&& r[2] == decimal(spec_median(table@[r[0]], iterations as nat) as nat)
            },
    {
        let name = &names[i];
        assert(table@.dom().contains(names@[i as int]@));
        match table.samples(name) {
            Some(samples) => {
                let avg = average(samples, iterations);
                let med = median(samples, iterations);
                let mut row: Vec<String> = Vec::new();
                row.push(name.clone());
                row.push(decimal_string(avg));
                row.push(decimal_string(med));
                let ghost before = rows@;
                rows.push(row);
                proof {
                    assert forall|q: int| 1 <= q < rows@.len() implies {
                        let r = #[trigger] rows_view(rows@)[q];
                        &&& r.len() == 3
                        &&& r[0] == names@[q - 1]@
                        &&& r[1] == decimal(spec_average(table@[r[0]], iterations as nat) as nat)
                        &&& r[2] == decimal(spec_median(table@[r[0]], iterations as nat) as nat)
                    } by {
                        if q < rows@.len() - 1 {
                            assert(rows@[q] == before[q]);
                            assert(rows_view(rows@)[q] == rows_view(before)[q]);
                        } else {
                            assert(rows_view(rows@)[q] =~= seq![name@, decimal(avg as nat), decimal(med as nat)]);
                        }
                    }
                    assert(rows@[0] == before[0]);
                }
            },
            None => {},
        }
    }
    proof {
        let v = rows_view(rows@);
        let ns = names@.map_values(|s: String| s@);
        assert forall|a: int, b: int| 1 <= a < b < v.len() implies name_lt(#[trigger] v[a][0], #[trigger] v[b][0]) by {
            assert(name_lt(ns[a - 1], ns[b - 1]));
        }
        assert forall|k: Seq<char>| table@.dom().contains(k) implies exists|i: int| 1 <= i < v.len() && #[trigger] v[i][0] == k by {
            let q = choose|q: int| 0 <= q < names@.len() && #[trigger] names@[q]@ == k;
            assert(v[q + 1][0] == k);
        }
    }
    rows
}

/// The report with each opcode's average over `iterations` runs: the
/// header, then one row `[name, average]` per name, in ascending order of
/// names.
pub fn average_report(table: &SampleTable, iterations: usize) -> (rows: Vec<Vec<String>>)
    requires
        averages_defined(table@, iterations as nat),
    ensures
        rows_view(rows@).len() >= 1,
        rows_view(rows@)[0] == average_header(),
        one_row_per_name(rows_view(rows@), table@),
        forall|i: int| 1 <= i < rows_view(rows@).len() ==> {
            let r = #[trigger] rows_view(rows@)[i];
            &&& r.len() == 2
            &&& r[1] == decimal(spec_average(table@[r[0]], iterations as nat) as nat)
        },
{
    let mut labels: Vec<&str> = Vec::new();
    labels.push("opcode");
    labels.push("avg_time");
    let header = header_row(&labels);
    proof {
        assert(labels@.map_values(|s: &str| s@) =~= average_header());
    }
    let mut rows: Vec<Vec<String>> = Vec::new();
    rows.push(header);
    let names = table.names_sorted();
    for i in 0..names.len()
        invariant
            strictly_ascending(names@.map_values(|s: String| s@)),
            forall|q: int| 0 <= q < names@.len() ==> table@.dom().contains(#[trigger] names@[q]@),
            averages_defined(table@, iterations as nat),
            rows@.len() == i + 1,
            rows_view(rows@)[0] == average_header(),
            forall|q: int| 1 <= q < rows@.len() ==> {
                let r = #[trigger] rows_view(rows@)[q];
                &&& r.len() == 2
                &&& r[0] == names@[q - 1]@
                &&& r[1] == decimal(spec_average(table@[r[0]], iterations as nat) as nat)
            },
    {
        let name = &names[i];
        assert(table@.dom().contains(names@[i as int]@));
        match table.samples(name) {
            Some(samples) => {
                let avg = average(samples, iterations);
                let mut row: Vec<String> = Vec::new();
                row.push(name.clone());
                row.push(decimal_string(avg));
                let ghost before = rows@;
                rows.push(row);
                proof {
                    assert forall|q: int| 1 <= q < rows@.len() implies {
                        let r = #[trigger] rows_view(rows@)[q];
                        &&& r.len() == 2
                        &&& r[0] == names@[q - 1]@
                        &&& r[1] == decimal(spec_average(table@[r[0]], iterations as nat) as nat)
                    } by {
                        if q < rows@.len() - 1 {
                            assert(rows@[q] == before[q]);
                            assert(rows_view(rows@)[q] == rows_view(before)[q]);
                        } else {
                            assert(rows_view(rows@)[q] =~= seq![name@, decimal(avg as nat)]);
                        }
                    }
                    assert(rows@[0] == before[0]);
                }
            },
            None => {},
        }
    }
    proof {
        let v = rows_view(rows@);
        let ns = names@.map_values(|s: String| s@);
        assert forall|a: int, b: int| 1 <= a < b < v.len() implies name_lt(#[trigger] v[a][0], #[trigger] v[b][0]) by {
            assert(name_lt(ns[a - 1], ns[b - 1]));
        }
        assert forall|k: Seq<char>| table@.dom().contains(k) implies exists|i: int| 1 <= i < v.len() && #[trigger] v[i][0] == k by {
            let q = choose|q: int| 0 <= q < names@.len() && #[trigger] names@[q]@ == k;
            assert(v[q + 1][0] == k);
        }
    }
    rows
}

/// The report headers: `opcode, avg_time, median_time` for times,
/// `opcode, avg_cycles, median_cycles` for cycles, and `opcode, avg_time`
/// for the totals benchmark.
pub proof fn lemma_headers()
    ensures
        median_header(Measure::Time).len() == 3,
        median_header(Measure::Time)[0] == "opcode"@,
        median_header(Measure::Time)[1] == "avg_time"@,
        median_header(Measure::Time)[2] == "median_time"@,
        median_header(Measure::Cycles).len() == 3,
        median_header(Measure::Cycles)[0] == "opcode"@,
        median_header(Measure::Cycles)[1] == "avg_cycles"@,
        median_header(Measure::Cycles)[2] == "median_cycles"@,
        average_header().len() == 2,
        average_header()[0] == "opcode"@,
        average_header()[1] == "avg_time"@,
{
}

} // verus!
