//! Sum, average and median of one opcode's samples.

use vstd::prelude::*;
use vstd::relations::{sorted_by, total_ordering};

verus! {

broadcast use vstd::seq_lib::group_to_multiset_ensures;

/// The order in which samples are sorted.
pub open spec fn sample_le() -> spec_fn(u128, u128) -> bool {
    |a: u128, b: u128| a <= b
}

/// The sum of the samples.
pub open spec fn seq_sum(s: Seq<u128>) -> int
    decreases s.len(),
{
    if s.len() == 0 {
        0
    } else {
        seq_sum(s.drop_last()) + s.last()
    }
}

/// The samples in ascending order.
pub open spec fn sorted_samples(s: Seq<u128>) -> Seq<u128> {
    s.sort_by(sample_le())
}

/// The average: the sum divided by the number of iterations of the run.
pub open spec fn spec_average(s: Seq<u128>, iterations: nat) -> int {
    seq_sum(s) / (iterations as int)
}

/// The median over `iterations` runs, taken from the sorted samples: the
/// middle one for an odd count, the mean of the two middle ones (rounded
/// down) for an even count.
pub open spec fn spec_median(s: Seq<u128>, iterations: nat) -> int {
    let t = sorted_samples(s);
    if iterations % 2 == 0 {
        (t[iterations / 2 - 1] + t[(iterations / 2) as int]) / 2
    } else {
        t[(iterations / 2) as int] as int
    }
}

/// The inputs on which the average is computed without overflow.
pub open spec fn average_defined(s: Seq<u128>, iterations: nat) -> bool {
    &&& iterations > 0
    &&& seq_sum(s) <= u128::MAX
}

/// The inputs on which the median is computed without a missing sample or
/// an overflow.
pub open spec fn median_defined(s: Seq<u128>, iterations: nat) -> bool {
    let t = sorted_samples(s);
    &&& iterations > 0
    &&& s.len() > iterations / 2
    &&& iterations % 2 == 0 ==> t[iterations / 2 - 1] + t[(iterations / 2) as int] <= u128::MAX
}

proof fn lemma_sample_le_total()
    ensures
        total_ordering(sample_le()),
{
}

/// Sorting keeps the samples (as a multiset, so also their number) and
/// puts them in ascending order.
pub proof fn lemma_sorted_samples(s: Seq<u128>)
    ensures
        sorted_samples(s).to_multiset() == s.to_multiset(),
        sorted_samples(s).len() == s.len(),
        sorted_by(sorted_samples(s), sample_le()),
{
    lemma_sample_le_total();
    s.lemma_sort_by_ensures(sample_le());
    assert(sorted_samples(s).to_multiset().len() == s.to_multiset().len());
}

proof fn lemma_prefix_sum(s: Seq<u128>, i: int)
    requires
        0 <= i < s.len(),
    ensures
        seq_sum(s.take(i + 1)) == seq_sum(s.take(i)) + s[i],
        seq_sum(s.take(i + 1)) <= seq_sum(s),
    decreases s.len() - i,
{
    assert(s.take(i + 1).drop_last() =~= s.take(i));
    if i + 1 < s.len() {
        lemma_prefix_sum(s, i + 1);
    } else {
        assert(s.take(i + 1) =~= s);
    }
}

/// The sum of the samples.
pub fn total(samples: &Vec<u128>) -> (sum: u128)
    requires
        seq_sum(samples@) <= u128::MAX,
    ensures
        sum == seq_sum(samples@),
{
    let mut acc: u128 = 0;
    let n = samples.len();
    assert(samples@.take(0) =~= Seq::<u128>::empty());
    for i in 0..n
        invariant
            n == samples@.len(),
            seq_sum(samples@) <= u128::MAX,
            acc == seq_sum(samples@.take(i as int)),
    {
        proof {
            lemma_prefix_sum(samples@, i as int);
        }
        acc = acc + samples[i];
    }
    assert(samples@.take(n as int) =~= samples@);
    acc
}

/// Whether the sum of the samples fits in a `u128`.
pub fn sum_fits(samples: &Vec<u128>) -> (fits: bool)
    ensures
        fits == (seq_sum(samples@) <= u128::MAX),
{
    let mut acc: u128 = 0;
    let n = samples.len();
    assert(samples@.take(0) =~= Seq::<u128>::empty());
    for i in 0..n
        invariant
            n == samples@.len(),
            acc == seq_sum(samples@.take(i as int)),
    {
        proof {
            lemma_prefix_sum(samples@, i as int);
        }
        if acc > u128::MAX - samples[i] {
            return false;
        }
        acc = acc + samples[i];
    }
    assert(samples@.take(n as int) =~= samples@);
    true
}

/// The average of the samples over `iterations` runs.
pub fn average(samples: &Vec<u128>, iterations: usize) -> (avg: u128)
    requires
        average_defined(samples@, iterations as nat),
    ensures
        avg == spec_average(samples@, iterations as nat),
{
    total(samples) / (iterations as u128)
}

/// The samples in ascending order.
pub fn sort_samples(samples: &Vec<u128>) -> (res: Vec<u128>)
    ensures
        res@ == sorted_samples(samples@),
        sorted_by(res@, sample_le()),
        res@.to_multiset() == samples@.to_multiset(),
{
    let mut res: Vec<u128> = Vec::new();
    let n = samples.len();
    assert(samples@.take(0) =~= Seq::<u128>::empty());
    for i in 0..n
        invariant
            n == samples@.len(),
            sorted_by(res@, sample_le()),
            res@.to_multiset() == samples@.take(i as int).to_multiset(),
    {
        let x = samples[i];
        let mut p: usize = 0;
        while p < res.len() && res[p] <= x
            invariant
                p <= res@.len(),
                forall|q: int| 0 <= q < p ==> res@[q] <= x,
            decreases res@.len() - p,
        {
            p = p + 1;
        }
        let ghost old_res = res@;
        res.insert(p, x);
        proof {
            assert forall|a: int, b: int| 0 <= a < b < res@.len() implies #[trigger] sample_le()(
                res@[a],
                res@[b],
            ) by {
                if a == p && b - 1 > p {
                    assert(sample_le()(old_res[p as int], old_res[b - 1]));
                }
                if a < p && b > p {
                    assert(sample_le()(old_res[a], old_res[b - 1]));
                } else if a > p {
                    assert(sample_le()(old_res[a - 1], old_res[b - 1]));
                } else if b < p {
                    assert(sample_le()(old_res[a], old_res[b]));
                }
            }
            assert(samples@.take(i + 1) =~= samples@.take(i as int).push(x));
        }
    }
    assert(samples@.take(n as int) =~= samples@);
    proof {
        lemma_sorted_samples(samples@);
        lemma_sample_le_total();
        vstd::seq_lib::lemma_sorted_unique(res@, sorted_samples(samples@), sample_le());
    }
    res
}

/// The median of the samples over `iterations` runs.
pub fn median(samples: &Vec<u128>, iterations: usize) -> (med: u128)
    requires
        median_defined(samples@, iterations as nat),
    ensures
        med == spec_median(samples@, iterations as nat),
{
    proof {
        lemma_sorted_samples(samples@);
    }
    let sorted = sort_samples(samples);
    if iterations % 2 == 0 {
        (sorted[iterations / 2 - 1] + sorted[iterations / 2]) / 2
    } else {
        sorted[iterations / 2]
    }
}

/// Whether the median is defined on these samples.
pub fn median_fits(samples: &Vec<u128>, iterations: usize) -> (fits: bool)
    ensures
        fits == median_defined(samples@, iterations as nat),
{
    proof {
        lemma_sorted_samples(samples@);
    }
    if iterations == 0 || samples.len() <= iterations / 2 {
        return false;
    }
    if iterations % 2 == 0 {
        let sorted = sort_samples(samples);
        sorted[iterations / 2 - 1] <= u128::MAX - sorted[iterations / 2]
    } else {
        true
    }
}

proof fn lemma_sum_remove(s: Seq<u128>, i: int)
    requires
        0 <= i < s.len(),
    ensures
        seq_sum(s) == seq_sum(s.remove(i)) + s[i],
    decreases s.len(),
{
    if i == s.len() - 1 {
        assert(s.remove(i) =~= s.drop_last());
    } else {
        assert(s.remove(i).drop_last() =~= s.drop_last().remove(i));
        assert(s.remove(i).last() == s.last());
        lemma_sum_remove(s.drop_last(), i);
    }
}

/// The sum of the samples does not depend on their order.
pub proof fn lemma_sum_ignores_order(a: Seq<u128>, b: Seq<u128>)
    requires
        a.to_multiset() == b.to_multiset(),
    ensures
        seq_sum(a) == seq_sum(b),
    decreases a.len(),
{
    if a.len() == 0 {
        assert(b.to_multiset().len() == 0);
        assert(b =~= Seq::<u128>::empty());
    } else {
        let x = a.last();
        assert(a =~= a.drop_last().push(x));
        assert(a.to_multiset().count(x) > 0);
        assert(b.to_multiset().count(x) > 0);
        assert(b.contains(x));
        let i = choose|i: int| 0 <= i < b.len() && b[i] == x;
        assert(a.drop_last().to_multiset() =~= a.to_multiset().remove(x));
        assert(b.remove(i).to_multiset() == b.to_multiset().remove(x));
        lemma_sum_ignores_order(a.drop_last(), b.remove(i));
        lemma_sum_remove(b, i);
    }
}

/// The average and the median do not depend on the order in which the
/// samples were taken.
pub proof fn lemma_stats_ignore_order(a: Seq<u128>, b: Seq<u128>, iterations: nat)
    requires
        a.to_multiset() == b.to_multiset(),
    ensures
        spec_average(a, iterations) == spec_average(b, iterations),
        spec_median(a, iterations) == spec_median(b, iterations),
        sorted_samples(a) == sorted_samples(b),
{
    lemma_sum_ignores_order(a, b);
    lemma_sorted_samples(a);
    lemma_sorted_samples(b);
    lemma_sample_le_total();
    vstd::seq_lib::lemma_sorted_unique(sorted_samples(a), sorted_samples(b), sample_le());
}

/// The average over `iterations` runs is the sum divided by `iterations`,
/// rounded down.
pub proof fn lemma_average_bounds(s: Seq<u128>, iterations: nat)
    requires
        iterations > 0,
    ensures
        spec_average(s, iterations) * iterations <= seq_sum(s) < (spec_average(s, iterations) + 1)
            * iterations,
{
    let q = seq_sum(s) / (iterations as int);
    assert(q * iterations <= seq_sum(s) < (q + 1) * iterations) by (nonlinear_arith)
        requires
            iterations > 0,
            q == seq_sum(s) / (iterations as int),
    ;
}

/// The median lies between two of the samples, and with an odd number of
/// runs it is one of them.
pub proof fn lemma_median_within_samples(s: Seq<u128>, iterations: nat)
    requires
        median_defined(s, iterations),
    ensures
        exists|i: int, j: int|
            0 <= i < s.len() && 0 <= j < s.len() && #[trigger] s[i] <= spec_median(s, iterations) <= #[trigger] s[j],
        iterations % 2 == 1 ==> s.contains(spec_median(s, iterations) as u128),
{
    lemma_sorted_samples(s);
    let t = sorted_samples(s);
    let h = (iterations / 2) as int;
    let (lo, hi) = if iterations % 2 == 0 {
        assert(sample_le()(t[h - 1], t[h]));
        (t[h - 1], t[h])
    } else {
        (t[h], t[h])
    };
    assert(lo <= spec_median(s, iterations) <= hi);
    assert(t.to_multiset().count(lo) > 0);
    assert(t.to_multiset().count(hi) > 0);
    assert(s.contains(lo));
    assert(s.contains(hi));
    let i = choose|i: int| 0 <= i < s.len() && s[i] == lo;
    let j = choose|j: int| 0 <= j < s.len() && s[j] == hi;
    assert(s[i] <= spec_median(s, iterations) <= s[j]);
}

proof fn lemma_extreme_indices(s: Seq<u128>) -> (r: (int, int))
    requires
        s.len() > 0,
    ensures
        0 <= r.0 < s.len(),
        0 <= r.1 < s.len(),
        forall|k: int| 0 <= k < s.len() ==> s[r.0] <= #[trigger] s[k] <= s[r.1],
    decreases s.len(),
{
    if s.len() == 1 {
        (0, 0)
    } else {
        let (a, b) = lemma_extreme_indices(s.drop_last());
        let last = s.len() - 1;
        let lo = if s[last] < s[a] { last } else { a };
        let hi = if s[last] > s[b] { last } else { b };
        assert forall|k: int| 0 <= k < s.len() implies s[lo] <= #[trigger] s[k] <= s[hi] by {
            if k < last {
                assert(s.drop_last()[k] == s[k]);
            }
        }
        (lo, hi)
    }
}

proof fn lemma_sum_between(s: Seq<u128>, lo: int, hi: int)
    requires
        forall|k: int| 0 <= k < s.len() ==> lo <= #[trigger] s[k] <= hi,
    ensures
        s.len() * lo <= seq_sum(s) <= s.len() * hi,
    decreases s.len(),
{
    if s.len() > 0 {
        let t = s.drop_last();
        assert forall|k: int| 0 <= k < t.len() implies lo <= #[trigger] t[k] <= hi by {
            assert(t[k] == s[k]);
        }
        lemma_sum_between(t, lo, hi);
        assert(s.last() == s[s.len() - 1]);
        assert(s.len() * lo == t.len() * lo + lo) by (nonlinear_arith)
            requires
                s.len() == t.len() + 1,
        ;
        assert(s.len() * hi == t.len() * hi + hi) by (nonlinear_arith)
            requires
                s.len() == t.len() + 1,
        ;
    }
}

/// When each of `iterations` runs gave one sample, the average lies between
/// the smallest and the largest sample.
pub proof fn lemma_average_within_samples(s: Seq<u128>, iterations: nat)
    requires
        iterations == s.len(),
        iterations > 0,
    ensures
        exists|i: int, j: int|
            0 <= i < s.len() && 0 <= j < s.len() && #[trigger] s[i] <= spec_average(s, iterations) <= #[trigger] s[j],
{
    let (i, j) = lemma_extreme_indices(s);
    let lo = s[i] as int;
    let hi = s[j] as int;
    lemma_sum_between(s, lo, hi);
    let n = iterations as int;
    let sum = seq_sum(s);
    assert(lo <= sum / n <= hi) by (nonlinear_arith)
        requires
            n > 0,
            n * lo <= sum <= n * hi,
    ;
    assert(s[i] <= spec_average(s, iterations) <= s[j]);
}

/// With one run and one sample, the average and the median are that sample.
pub proof fn lemma_single_run(x: u128)
    ensures
        spec_average(seq![x], 1) == x,
        spec_median(seq![x], 1) == x,
{
    let s = seq![x];
    assert(s.drop_last() =~= Seq::<u128>::empty());
    assert(seq_sum(Seq::<u128>::empty()) == 0);
    assert(seq_sum(s) == x);
    assert(seq_sum(s) / 1 == x);
    lemma_sorted_samples(s);
    let t = sorted_samples(s);
    assert(t.to_multiset().count(t[0]) > 0);
    assert(s.contains(t[0]));
}

/// With two runs, the average and the median are both the mean of the two
/// samples, rounded down.
pub proof fn lemma_two_runs(a: u128, b: u128)
    ensures
        spec_average(seq![a, b], 2) == (a + b) / 2,
        spec_median(seq![a, b], 2) == (a + b) / 2,
{
    let s = seq![a, b];
    assert(s.drop_last() =~= seq![a]);
    assert(seq![a].drop_last() =~= Seq::<u128>::empty());
    assert(seq_sum(Seq::<u128>::empty()) == 0);
    assert(seq_sum(seq![a]) == a);
    assert(seq_sum(s) == a + b);
    lemma_sorted_samples(s);
    let t = sorted_samples(s);
    let u = if a <= b { seq![a, b] } else { seq![b, a] };
    assert(u.to_multiset() =~= s.to_multiset()) by {
        assert(seq![a].push(b) =~= s);
        assert(seq![b].push(a) =~= seq![b, a]);
        assert(Seq::<u128>::empty().push(a) =~= seq![a]);
        assert(Seq::<u128>::empty().push(b) =~= seq![b]);
    }
    assert(sorted_by(u, sample_le()));
    lemma_sample_le_total();
    vstd::seq_lib::lemma_sorted_unique(u, t, sample_le());
}

/// How many samples satisfy `p`.
pub open spec fn count_if(s: Seq<u128>, p: spec_fn(u128) -> bool) -> nat
    decreases s.len(),
{
    if s.len() == 0 {
        0
    } else {
        count_if(s.drop_last(), p) + if p(s.last()) {
            1nat
        } else {
            0nat
        }
    }
}

proof fn lemma_count_remove(s: Seq<u128>, p: spec_fn(u128) -> bool, i: int)
    requires
        0 <= i < s.len(),
    ensures
        count_if(s, p) == count_if(s.remove(i), p) + if p(s[i]) {
            1nat
        } else {
            0nat
        },
    decreases s.len(),
{
    if i == s.len() - 1 {
        assert(s.remove(i) =~= s.drop_last());
    } else {
        assert(s.remove(i).drop_last() =~= s.drop_last().remove(i));
        assert(s.remove(i).last() == s.last());
        lemma_count_remove(s.drop_last(), p, i);
    }
}

proof fn lemma_count_ignores_order(a: Seq<u128>, b: Seq<u128>, p: spec_fn(u128) -> bool)
    requires
        a.to_multiset() == b.to_multiset(),
    ensures
        count_if(a, p) == count_if(b, p),
    decreases a.len(),
{
    if a.len() == 0 {
        assert(b.to_multiset().len() == 0);
        assert(b =~= Seq::<u128>::empty());
    } else {
        let x = a.last();
        assert(a =~= a.drop_last().push(x));
        assert(a.to_multiset().count(x) > 0);
        assert(b.to_multiset().count(x) > 0);
        assert(b.contains(x));
        let i = choose|i: int| 0 <= i < b.len() && b[i] == x;
        assert(a.drop_last().to_multiset() =~= a.to_multiset().remove(x));
        assert(b.remove(i).to_multiset() == b.to_multiset().remove(x));
        lemma_count_ignores_order(a.drop_last(), b.remove(i), p);
        lemma_count_remove(b, p, i);
    }
}

proof fn lemma_count_prefix(s: Seq<u128>, p: spec_fn(u128) -> bool, k: int)
    requires
        0 <= k <= s.len(),
        forall|i: int| 0 <= i < k ==> #[trigger] p(s[i]),
    ensures
        count_if(s, p) >= k,
    decreases s.len(),
{
    if s.len() > 0 {
        let t = s.drop_last();
        if k == s.len() {
            assert forall|i: int| 0 <= i < k - 1 implies #[trigger] p(t[i]) by {
                assert(t[i] == s[i]);
                assert(p(s[i]));
            }
            lemma_count_prefix(t, p, k - 1);
            assert(p(s[s.len() - 1]));
        } else {
            assert forall|i: int| 0 <= i < k implies #[trigger] p(t[i]) by {
                assert(t[i] == s[i]);
                assert(p(s[i]));
            }
            lemma_count_prefix(t, p, k);
        }
    }
}

proof fn lemma_count_suffix(s: Seq<u128>, p: spec_fn(u128) -> bool, k: int)
    requires
        0 <= k <= s.len(),
        forall|i: int| k <= i < s.len() ==> #[trigger] p(s[i]),
    ensures
        count_if(s, p) >= s.len() - k,
    decreases s.len(),
{
    if k < s.len() {
        let t = s.drop_last();
        assert forall|i: int| k <= i < t.len() implies #[trigger] p(t[i]) by {
            assert(t[i] == s[i]);
            assert(p(s[i]));
        }
        lemma_count_suffix(t, p, k);
        assert(p(s[s.len() - 1]));
    }
}

/// With an odd number of runs, more than half of the runs' samples are at
/// most the median, and more than half are at least the median (when there
/// is one sample per run).
pub proof fn lemma_median_splits_samples(s: Seq<u128>, iterations: nat)
    requires
        median_defined(s, iterations),
        iterations % 2 == 1,
    ensures
        count_if(s, |x: u128| x <= spec_median(s, iterations)) >= iterations / 2 + 1,
        count_if(s, |x: u128| x >= spec_median(s, iterations)) >= s.len() - iterations / 2,
{
    lemma_sorted_samples(s);
    let t = sorted_samples(s);
    let h = (iterations / 2) as int;
    let m = spec_median(s, iterations);
    assert(m == t[h]);
    let le = |x: u128| x <= m;
    let ge = |x: u128| x >= m;
    assert forall|i: int| 0 <= i < h + 1 implies #[trigger] le(t[i]) by {
        if i < h {
            assert(sample_le()(t[i], t[h]));
        }
    }
    lemma_count_prefix(t, le, h + 1);
    assert forall|i: int| h <= i < t.len() implies #[trigger] ge(t[i]) by {
        if i > h {
            assert(sample_le()(t[h], t[i]));
        }
    }
    lemma_count_suffix(t, ge, h);
    lemma_count_ignores_order(t, s, le);
    lemma_count_ignores_order(t, s, ge);
}

} // verus!
