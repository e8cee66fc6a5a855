//! Samples gathered per opcode name, in the order in which they were taken.

use vstd::prelude::*;
use crate::name_order::{name_lt, name_precedes, lemma_name_order};

verus! {

/// The samples of one opcode.
struct SampleEntry {
    name: String,
    samples: Vec<u128>,
}

/// What the table maps each name to.
spec fn entries_map(s: Seq<SampleEntry>) -> Map<Seq<char>, Seq<u128>>
    decreases s.len(),
{
    if s.len() == 0 {
        Map::empty()
    } else {
        entries_map(s.drop_last()).insert(s.last().name@, s.last().samples@)
    }
}

/// No name occurs in two entries.
spec fn names_distinct(s: Seq<SampleEntry>) -> bool {
    forall|i: int, j: int| 0 <= i < s.len() && 0 <= j < s.len() && i != j ==> #[trigger] s[i].name@
        != #[trigger] s[j].name@
}

proof fn lemma_entries_map_lookup(s: Seq<SampleEntry>, i: int)
    requires
        names_distinct(s),
        0 <= i < s.len(),
    ensures
        entries_map(s).dom().contains(s[i].name@),
        entries_map(s)[s[i].name@] == s[i].samples@,
    decreases s.len(),
{
    if i < s.len() - 1 {
        assert(s.drop_last()[i] == s[i]);
        lemma_entries_map_lookup(s.drop_last(), i);
        assert(s.last().name@ != s[i].name@);
    }
}

proof fn lemma_entries_map_dom(s: Seq<SampleEntry>, k: Seq<char>)
    ensures
        entries_map(s).dom().contains(k) <==> exists|i: int| 0 <= i < s.len() && #[trigger] s[i].name@
            == k,
    decreases s.len(),
{
    if s.len() > 0 {
        lemma_entries_map_dom(s.drop_last(), k);
        if exists|i: int| 0 <= i < s.drop_last().len() && #[trigger] s.drop_last()[i].name@ == k {
            let i = choose|i: int| 0 <= i < s.drop_last().len() && #[trigger] s.drop_last()[i].name@ == k;
            assert(s[i].name@ == k);
        }
        if exists|i: int| 0 <= i < s.len() && #[trigger] s[i].name@ == k {
            let i = choose|i: int| 0 <= i < s.len() && #[trigger] s[i].name@ == k;
            if i < s.len() - 1 {
                assert(s.drop_last()[i].name@ == k);
            }
        }
    }
}

proof fn lemma_entries_map_update(s: Seq<SampleEntry>, j: int, e: SampleEntry)
    requires
        names_distinct(s),
        0 <= j < s.len(),
        e.name@ == s[j].name@,
    ensures
        entries_map(s.update(j, e)) =~= entries_map(s).insert(e.name@, e.samples@),
    decreases s.len(),
{
    let t = s.update(j, e);
    if j == s.len() - 1 {
        assert(t.drop_last() =~= s.drop_last());
    } else {
        assert(t.drop_last() =~= s.drop_last().update(j, e));
        lemma_entries_map_update(s.drop_last(), j, e);
        assert(s.last().name@ != s[j].name@);
    }
}

/// Per-opcode samples: each name maps to the samples recorded under it, in
/// the order in which they were recorded.
pub struct SampleTable {
    entries: Vec<SampleEntry>,
}

impl SampleTable {
    #[verifier::type_invariant]
    spec fn distinct_names(self) -> bool {
        names_distinct(self.entries@)
    }

    /// The samples recorded under each name.
    pub closed spec fn samples_map(self) -> Map<Seq<char>, Seq<u128>> {
        entries_map(self.entries@)
    }
}

impl View for SampleTable {
    type V = Map<Seq<char>, Seq<u128>>;

    open spec fn view(&self) -> Map<Seq<char>, Seq<u128>> {
        self.samples_map()
    }
}

/// The samples recorded under `name` so far (none if it was never recorded).
pub open spec fn samples_of(m: Map<Seq<char>, Seq<u128>>, name: Seq<char>) -> Seq<u128> {
    if m.dom().contains(name) {
        m[name]
    } else {
        Seq::empty()
    }
}

/// Some name in `names` is `k`.
pub open spec fn lists_name(names: Seq<String>, k: Seq<char>) -> bool {
    exists|q: int| 0 <= q < names.len() && #[trigger] names[q]@ == k
}

/// Some entry before position `i` is named `k`.
spec fn named_before(s: Seq<SampleEntry>, k: Seq<char>, i: int) -> bool {
    exists|t: int| 0 <= t < i && #[trigger] s[t].name@ == k
}

/// Names in strictly ascending order.
pub open spec fn strictly_ascending(names: Seq<Seq<char>>) -> bool {
    forall|a: int, b: int| 0 <= a < b < names.len() ==> name_lt(#[trigger] names[a], #[trigger] names[b])
}

impl SampleTable {
    /// An empty table.
    pub fn new() -> (table: Self)
        ensures
            table@ == Map::<Seq<char>, Seq<u128>>::empty(),
    {
        SampleTable { entries: Vec::new() }
    }

    /// Records one more sample under `name`, after those already there.
    pub fn record(&mut self, name: String, sample: u128)
        ensures
            final(self)@ == old(self)@.insert(name@, samples_of(old(self)@, name@).push(sample)),
    {
        proof {
            use_type_invariant(&*self);
        }
        let mut entries: Vec<SampleEntry> = Vec::new();
        std::mem::swap(&mut entries, &mut self.entries);
        let ghost s = entries@;
        let n = entries.len();
        let mut j: usize = 0;
        while j < n && !(entries[j].name == name)
            invariant
                n == entries@.len(),
                entries@ == s,
                names_distinct(s),
                j <= n,
                forall|q: int| 0 <= q < j ==> s[q].name@ != name@,
            decreases n - j,
        {
            j = j + 1;
        }
        if j < n {
            let mut e = entries.remove(j);
            e.samples.push(sample);
            entries.insert(j, e);
            proof {
                assert(entries@ =~= s.update(j as int, e));
                lemma_entries_map_lookup(s, j as int);
                lemma_entries_map_update(s, j as int, e);
                assert forall|a: int, b: int|
                    0 <= a < entries@.len() && 0 <= b < entries@.len() && a != b implies #[trigger] entries@[a].name@
                    != #[trigger] entries@[b].name@ by {
                    assert(entries@[a].name@ == s[a].name@);
                    assert(entries@[b].name@ == s[b].name@);
                }
            }
        } else {
            let mut samples: Vec<u128> = Vec::new();
            samples.push(sample);
            let e = SampleEntry { name, samples };
            entries.push(e);
            proof {
                assert(entries@.drop_last() =~= s);
                lemma_entries_map_dom(s, name@);
                assert(samples_of(entries_map(s), name@) =~= Seq::<u128>::empty());
                assert(samples@ =~= Seq::<u128>::empty().push(sample));
                assert forall|a: int, b: int|
                    0 <= a < entries@.len() && 0 <= b < entries@.len() && a != b implies #[trigger] entries@[a].name@
                    != #[trigger] entries@[b].name@ by {
                    if a < n && b < n {
                        assert(entries@[a] == s[a]);
                        assert(entries@[b] == s[b]);
                    } else if a < n {
                        assert(entries@[a] == s[a]);
                    } else {
                        assert(entries@[b] == s[b]);
                    }
                }
            }
        }
        self.entries = entries;
    }

    /// The samples recorded under `name`, if any were.
    pub fn samples(&self, name: &String) -> (res: Option<&Vec<u128>>)
        ensures
            match res {
                Some(v) => self@.dom().contains(name@) && v@ == self@[name@],
                None => !self@.dom().contains(name@),
            },
    {
        proof {
            use_type_invariant(self);
        }
        let n = self.entries.len();
        let mut j: usize = 0;
        while j < n
            invariant
                n == self.entries@.len(),
                names_distinct(self.entries@),
                j <= n,
                forall|q: int| 0 <= q < j ==> self.entries@[q].name@ != name@,
            decreases n - j,
        {
            if self.entries[j].name == *name {
                proof {
                    lemma_entries_map_lookup(self.entries@, j as int);
                }
                return Some(&self.entries[j].samples);
            }
            j = j + 1;
        }
        proof {
            lemma_entries_map_dom(self.entries@, name@);
        }
        None
    }

    /// The names that have samples, in ascending order.
    pub fn names_sorted(&self) -> (names: Vec<String>)
        ensures
            strictly_ascending(names@.map_values(|s: String| s@)),
            forall|i: int| 0 <= i < names@.len() ==> self@.dom().contains(#[trigger] names@[i]@),
            forall|k: Seq<char>|
                self@.dom().contains(k) ==> exists|i: int| 0 <= i < names@.len() && #[trigger] names@[i]@ == k,
    {
        proof {
            use_type_invariant(self);
        }
        let ghost s = self.entries@;
        let mut res: Vec<String> = Vec::new();
        let n = self.entries.len();
        for i in 0..n
            invariant
                n == s.len(),
                s == self.entries@,
                names_distinct(s),
                res@.len() == i,
                forall|a: int, b: int| 0 <= a < b < res@.len() ==> name_lt(#[trigger] res@[a]@, #[trigger] res@[b]@),
                forall|q: int| 0 <= q < res@.len() ==> named_before(s, #[trigger] res@[q]@, i as int),
                forall|t: int| 0 <= t < i ==> lists_name(res@, #[trigger] s[t].name@),
        {
            let x = self.entries[i].name.clone();
            let mut p: usize = 0;
            while p < res.len() && name_precedes(res[p].as_str(), x.as_str())
                invariant
                    p <= res@.len(),
                    forall|q: int| 0 <= q < p ==> name_lt(#[trigger] res@[q]@, x@),
                decreases res@.len() - p,
            {
                p = p + 1;
            }
            let ghost old_res = res@;
            proof {
                if p < old_res.len() {
                    assert(named_before(s, old_res[p as int]@, i as int));
                    let t = choose|t: int| 0 <= t < i && #[trigger] s[t].name@ == old_res[p as int]@;
                    assert(s[t].name@ != s[i as int].name@);
                    lemma_name_order(x@, old_res[p as int]@, x@);
                }
            }
            res.insert(p, x);
            proof {
                assert forall|a: int, b: int| 0 <= a < b < res@.len() implies name_lt(
                    #[trigger] res@[a]@,
                    #[trigger] res@[b]@,
                ) by {
                    if a == p && b - 1 > p {
                        lemma_name_order(x@, old_res[p as int]@, old_res[b - 1]@);
                    } else if a < p && b > p {
                        assert(name_lt(old_res[a]@, old_res[b - 1]@));
                    } else if a > p {
                        assert(name_lt(old_res[a - 1]@, old_res[b - 1]@));
                    } else if b < p {
                        assert(name_lt(old_res[a]@, old_res[b]@));
                    }
                }
                assert forall|q: int| 0 <= q < res@.len() implies named_before(s, #[trigger] res@[q]@, i + 1) by {
                    if q == p {
                        assert(s[i as int].name@ == res@[q]@);
                    } else {
                        let q0 = if q < p { q } else { q - 1 };
                        assert(res@[q] == old_res[q0]);
                        assert(named_before(s, old_res[q0]@, i as int));
                        let t = choose|t: int| 0 <= t < i && #[trigger] s[t].name@ == old_res[q0]@;
                        assert(s[t].name@ == res@[q]@);
                    }
                }
                assert forall|t: int| 0 <= t < i + 1 implies lists_name(res@, #[trigger] s[t].name@) by {
                    if t == i {
                        assert(res@[p as int]@ == s[t].name@);
                    } else {
                        assert(lists_name(old_res, s[t].name@));
                        let q = choose|q: int| 0 <= q < old_res.len() && #[trigger] old_res[q]@ == s[t].name@;
                        if q < p {
                            assert(res@[q] == old_res[q]);
                        } else {
                            assert(res@[q + 1] == old_res[q]);
                        }
                    }
                }
            }
        }
        proof {
            let v = res@.map_values(|s: String| s@);
            assert forall|a: int, b: int| 0 <= a < b < v.len() implies name_lt(#[trigger] v[a], #[trigger] v[b]) by {
                assert(name_lt(res@[a]@, res@[b]@));
            }
            assert forall|q: int| 0 <= q < res@.len() implies self@.dom().contains(#[trigger] res@[q]@) by {
                assert(named_before(s, res@[q]@, n as int));
                let t = choose|t: int| 0 <= t < n && #[trigger] s[t].name@ == res@[q]@;
                lemma_entries_map_lookup(s, t);
            }
            assert forall|k: Seq<char>| self@.dom().contains(k) implies exists|q: int| 0 <= q < res@.len() && #[trigger] res@[q]@ == k by {
                lemma_entries_map_dom(s, k);
                let t = choose|t: int| 0 <= t < s.len() && #[trigger] s[t].name@ == k;
                assert(lists_name(res@, s[t].name@));
            }
        }
        res
    }
}

/// Recording a sample under a name appends it to that name's samples and
/// leaves every other name's samples as they were.
pub proof fn lemma_record_appends(
    before: Map<Seq<char>, Seq<u128>>,
    name: Seq<char>,
    sample: u128,
    other: Seq<char>,
)
    ensures
        ({
            let after = before.insert(name, samples_of(before, name).push(sample));
            &&& samples_of(after, name) == samples_of(before, name).push(sample)
            &&& other != name ==> samples_of(after, other) == samples_of(before, other)
            &&& after.dom() == before.dom().insert(name)
        }),
{
    let after = before.insert(name, samples_of(before, name).push(sample));
    assert(after.dom() =~= before.dom().insert(name));
}

} // verus!
