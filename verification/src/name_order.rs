//! Lexicographic order on opcode names.
//!
//! `str`'s `Ord` compares UTF-8 bytes lexicographically; since UTF-8 keeps
//! the order of code points, that is the lexicographic order of the
//! characters by code point, which is what `name_lt` states.

use vstd::prelude::*;

verus! {

/// `a` comes before `b` when both agree on the positions before `i`.
pub open spec fn name_lt_from(a: Seq<char>, b: Seq<char>, i: nat) -> bool
    decreases a.len() - i,
{
    if i >= a.len() {
        i < b.len()
    } else if i >= b.len() {
        false
    } else if a[i as int] != b[i as int] {
        (a[i as int] as int) < (b[i as int] as int)
    } else {
        name_lt_from(a, b, i + 1)
    }
}

/// Strict lexicographic order on names, by code point.
pub open spec fn name_lt(a: Seq<char>, b: Seq<char>) -> bool {
    name_lt_from(a, b, 0)
}

proof fn lemma_lt_from_irreflexive(a: Seq<char>, i: nat)
    ensures
        !name_lt_from(a, a, i),
    decreases a.len() - i,
{
    if i < a.len() {
        lemma_lt_from_irreflexive(a, i + 1);
    }
}

proof fn lemma_lt_from_transitive(a: Seq<char>, b: Seq<char>, c: Seq<char>, i: nat)
    requires
        name_lt_from(a, b, i),
        name_lt_from(b, c, i),
    ensures
        name_lt_from(a, c, i),
    decreases a.len() - i,
{
    if i < a.len() && i < b.len() && i < c.len() && a[i as int] == b[i as int] && b[i as int]
        == c[i as int] {
        lemma_lt_from_transitive(a, b, c, i + 1);
    }
}

proof fn lemma_lt_from_total(a: Seq<char>, b: Seq<char>, i: nat)
    requires
        a != b,
        i <= a.len(),
        i <= b.len(),
        forall|j: int| 0 <= j < i ==> a[j] == b[j],
    ensures
        name_lt_from(a, b, i) || name_lt_from(b, a, i),
    decreases a.len() - i,
{
    if i == a.len() && i == b.len() {
        assert(a =~= b);
    } else if i < a.len() && i < b.len() {
        if a[i as int] == b[i as int] {
            lemma_lt_from_total(a, b, i + 1);
        } else {
        }
    }
}

proof fn lemma_lt_from_asymmetric(a: Seq<char>, b: Seq<char>, i: nat)
    requires
        name_lt_from(a, b, i),
    ensures
        !name_lt_from(b, a, i),
    decreases a.len() - i,
{
    if i < a.len() && i < b.len() && a[i as int] == b[i as int] {
        lemma_lt_from_asymmetric(a, b, i + 1);
    }
}

/// The order on names is a strict total order: irreflexive, asymmetric,
/// transitive, and any two different names are comparable.
pub proof fn lemma_name_order(a: Seq<char>, b: Seq<char>, c: Seq<char>)
    ensures
        !name_lt(a, a),
        name_lt(a, b) ==> !name_lt(b, a),
        name_lt(a, b) && name_lt(b, c) ==> name_lt(a, c),
        a != b ==> name_lt(a, b) || name_lt(b, a),
{
    lemma_lt_from_irreflexive(a, 0);
    if name_lt(a, b) {
        lemma_lt_from_asymmetric(a, b, 0);
        if name_lt(b, c) {
            lemma_lt_from_transitive(a, b, c, 0);
        }
    }
    if a != b {
        lemma_lt_from_total(a, b, 0);
    }
}

/// `a` and `b` agree before position `k`, and there `a` ends while `b` goes
/// on, or `a`'s character has the smaller code point.
pub open spec fn differs_first_at(a: Seq<char>, b: Seq<char>, k: int) -> bool {
    &&& 0 <= k <= a.len()
    &&& k <= b.len()
    &&& forall|j: int| 0 <= j < k ==> a[j] == b[j]
    &&& (k == a.len() && k < b.len()) || (k < a.len() && k < b.len() && (a[k] as int) < (
        b[k] as int))
}

proof fn lemma_lt_from_witness(a: Seq<char>, b: Seq<char>, i: nat) -> (k: int)
    requires
        i <= a.len(),
        i <= b.len(),
        forall|j: int| 0 <= j < i ==> a[j] == b[j],
        name_lt_from(a, b, i),
    ensures
        differs_first_at(a, b, k),
    decreases a.len() - i,
{
    if i >= a.len() {
        i as int
    } else if a[i as int] != b[i as int] {
        i as int
    } else {
        lemma_lt_from_witness(a, b, i + 1)
    }
}

proof fn lemma_witness_lt_from(a: Seq<char>, b: Seq<char>, i: nat, k: int)
    requires
        differs_first_at(a, b, k),
        i <= k,
    ensures
        name_lt_from(a, b, i),
    decreases k - i,
{
    if i < k {
        assert(a[i as int] == b[i as int]);
        lemma_witness_lt_from(a, b, i + 1, k);
    }
}

/// `a` comes before `b` exactly when, at the first position where they
/// differ, `a` has ended while `b` has not, or `a`'s character has the
/// smaller code point: the lexicographic order of code points, which is the
/// order that `str`'s `<` gives.
pub proof fn lemma_name_lt_lexicographic(a: Seq<char>, b: Seq<char>)
    ensures
        name_lt(a, b) <==> exists|k: int| differs_first_at(a, b, k),
{
    if name_lt(a, b) {
        let k = lemma_lt_from_witness(a, b, 0);
    }
    if exists|k: int| differs_first_at(a, b, k) {
        let k = choose|k: int| differs_first_at(a, b, k);
        lemma_witness_lt_from(a, b, 0, k);
    }
}

/// Names that start with different characters are ordered by the code
/// points of those characters, and a proper prefix comes first.
pub proof fn lemma_name_lt_first_char(a: Seq<char>, b: Seq<char>)
    ensures
        a.len() > 0 && b.len() > 0 && a[0] != b[0] ==> (name_lt(a, b) <==> (a[0] as int) < (
            b[0] as int)),
        a.len() < b.len() && a =~= b.take(a.len() as int) ==> name_lt(a, b),
{
    lemma_name_lt_lexicographic(a, b);
    if a.len() > 0 && b.len() > 0 && a[0] != b[0] {
        if exists|k: int| differs_first_at(a, b, k) {
            let k = choose|k: int| differs_first_at(a, b, k);
            assert(k == 0);
        }
        if (a[0] as int) < (b[0] as int) {
            assert(differs_first_at(a, b, 0));
        }
    }
    if a.len() < b.len() && a =~= b.take(a.len() as int) {
        assert(differs_first_at(a, b, a.len() as int));
    }
}

/// Whether name `a` sorts strictly before name `b`.
pub fn name_precedes(a: &str, b: &str) -> (res: bool)
    ensures
        res == name_lt(a@, b@),
{
    let la = a.unicode_len();
    let lb = b.unicode_len();
    let mut i: usize = 0;
    while i < la && i < lb
        invariant
            la == a@.len(),
            lb == b@.len(),
            i <= la,
            i <= lb,
            name_lt(a@, b@) == name_lt_from(a@, b@, i as nat),
        decreases la - i,
    {
        let ca = a.get_char(i);
        let cb = b.get_char(i);
        if ca != cb {
            return (ca as u32) < (cb as u32);
        }
        i = i + 1;
    }
    i < lb
}

} // verus!
