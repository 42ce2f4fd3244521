//! Stable ordering of data fields by their names.

use vstd::prelude::*;
use crate::params::{Assoc, copy_pair};
use crate::text::chars_of;

verus! {

/// `a` comes strictly before `b` in lexicographic order of code points,
/// which is the order of `String`'s comparison.
pub open spec fn str_lt(a: Seq<char>, b: Seq<char>) -> bool
    decreases a.len(),
{
    if a.len() == 0 {
        b.len() > 0
    } else if b.len() == 0 {
        false
    } else if a[0] != b[0] {
        a[0] < b[0]
    } else {
        str_lt(a.drop_first(), b.drop_first())
    }
}

/// `a` does not come after `b`.
pub open spec fn str_le(a: Seq<char>, b: Seq<char>) -> bool {
    !str_lt(b, a)
}

/// `sorted` with `e` placed after every pair whose name does not come after
/// the name of `e`, and before the others.
pub open spec fn insert_sorted(sorted: Assoc, e: (Seq<char>, Seq<char>)) -> Assoc
    decreases sorted.len(),
{
    if sorted.len() == 0 {
        seq![e]
    } else if str_le(sorted.last().0, e.0) {
        sorted.push(e)
    } else {
        insert_sorted(sorted.drop_last(), e).push(sorted.last())
    }
}

/// The pairs of `s` ordered by name; pairs with equal names keep their
/// relative order (a stable sort).
pub open spec fn sort_by_name(s: Assoc) -> Assoc
    decreases s.len(),
{
    if s.len() == 0 {
        s
    } else {
        insert_sorted(sort_by_name(s.drop_last()), s.last())
    }
}

/// Whether the names of `s` never decrease.
pub open spec fn sorted_by_name(s: Assoc) -> bool {
    forall|i: int, j: int| 0 <= i < j < s.len() ==> str_le(s[i].0, s[j].0)
}

/// Exec form of [`str_lt`] on character vectors.
fn chars_lt(a: &Vec<char>, b: &Vec<char>) -> (r: bool)
    ensures
        r == str_lt(a@, b@),
{
    let mut i: usize = 0;
    proof {
        assert(a@.skip(0) == a@);
        assert(b@.skip(0) == b@);
    }
    while i < a.len() && i < b.len() && a[i] == b[i]
        invariant
            i <= a@.len(),
            i <= b@.len(),
            str_lt(a@, b@) == str_lt(a@.skip(i as int), b@.skip(i as int)),
        decreases a@.len() - i,
    {
        proof {
            assert(a@.skip(i as int).drop_first() == a@.skip(i + 1));
            assert(b@.skip(i as int).drop_first() == b@.skip(i + 1));
        }
        i = i + 1;
    }
    if i == a.len() {
        i < b.len()
    } else if i == b.len() {
        false
    } else {
        a[i] < b[i]
    }
}

/// Whether the name `a` does not come after `b`.
pub fn name_le(a: &String, b: &String) -> (r: bool)
    ensures
        r == str_le(a@, b@),
{
    let ca = chars_of(a.as_str());
    let cb = chars_of(b.as_str());
    !chars_lt(&cb, &ca)
}

/// The pairs of `fields` ordered by name, stably.
pub fn sorted_by_name_copy(fields: &Vec<(String, String)>) -> (r: Vec<(String, String)>)
    ensures
        r.deep_view() == sort_by_name(fields.deep_view()),
{
    let mut out: Vec<(String, String)> = Vec::new();
    let mut i: usize = 0;
    proof {
        assert(fields.deep_view().take(0) =~= Seq::<(Seq<char>, Seq<char>)>::empty());
        assert(out.deep_view() =~= Seq::<(Seq<char>, Seq<char>)>::empty());
    }
    while i < fields.len()
        invariant
            i <= fields@.len(),
            out.deep_view() == sort_by_name(fields.deep_view().take(i as int)),
        decreases fields@.len() - i,
    {
        let e = copy_pair(&fields[i]);
        let ghost ev = (e.0@, e.1@);
        let ghost sorted = out.deep_view();
        proof {
            assert(fields.deep_view().take(i + 1).drop_last() =~= fields.deep_view().take(i as int));
            assert(fields.deep_view()[i as int] == ev);
        }
        let mut j = out.len();
        proof {
            assert(sorted.take(j as int) =~= sorted);
            assert(sorted.skip(j as int) =~= Seq::<(Seq<char>, Seq<char>)>::empty());
        }
        while j > 0 && !name_le(&out[j - 1].0, &e.0)
            invariant
                j <= out@.len(),
                out.deep_view() == sorted,
                ev == (e.0@, e.1@),
                insert_sorted(sorted, ev) == insert_sorted(sorted.take(j as int), ev) + sorted.skip(
                    j as int,
                ),
            decreases j,
        {
            proof {
                let t = sorted.take(j as int);
                assert(sorted[j - 1].0 == out@[j - 1].0@);
                assert(t.drop_last() =~= sorted.take(j - 1));
                assert(t.last() == sorted[j - 1]);
                assert(sorted.skip(j - 1) =~= seq![sorted[j - 1]] + sorted.skip(j as int));
                assert(t.len() > 0);
                assert(ev.0 == e.0@);
                assert(!str_le(t.last().0, ev.0));
                assert(insert_sorted(t, ev) == insert_sorted(t.drop_last(), ev).push(t.last()));
                assert(insert_sorted(t, ev) == insert_sorted(sorted.take(j - 1), ev).push(sorted[j - 1]));
                assert(insert_sorted(sorted.take(j - 1), ev).push(sorted[j - 1]) + sorted.skip(j as int)
                    =~= insert_sorted(sorted.take(j - 1), ev) + sorted.skip(j - 1));
            }
            j = j - 1;
        }
        proof {
            let t = sorted.take(j as int);
            if j > 0 {
                assert(sorted[j - 1].0 == out@[j - 1].0@);
                assert(t.last() == sorted[j - 1]);
            }
            assert(insert_sorted(t, ev) == t.push(ev));
        }
        out.insert(j, e);
        proof {
            assert(out.deep_view() =~= sorted.take(j as int).push(ev) + sorted.skip(j as int));
        }
        i = i + 1;
    }
    proof {
        assert(fields.deep_view().take(fields@.len() as int) =~= fields.deep_view());
    }
    out
}

pub proof fn lemma_str_lt_irreflexive(a: Seq<char>)
    ensures
        !str_lt(a, a),
    decreases a.len(),
{
    if a.len() > 0 {
        lemma_str_lt_irreflexive(a.drop_first());
    }
}

pub proof fn lemma_str_lt_transitive(a: Seq<char>, b: Seq<char>, c: Seq<char>)
    requires
        str_lt(a, b),
        str_lt(b, c),
    ensures
        str_lt(a, c),
    decreases a.len(),
{
    if a.len() > 0 && b.len() > 0 && c.len() > 0 && a[0] == b[0] && b[0] == c[0] {
        lemma_str_lt_transitive(a.drop_first(), b.drop_first(), c.drop_first());
    }
}

pub proof fn lemma_str_lt_total(a: Seq<char>, b: Seq<char>)
    ensures
        str_lt(a, b) || str_lt(b, a) || a == b,
    decreases a.len(),
{
    if a.len() > 0 && b.len() > 0 && a[0] == b[0] {
        lemma_str_lt_total(a.drop_first(), b.drop_first());
        if a.drop_first() == b.drop_first() {
            assert(a =~= seq![a[0]] + a.drop_first());
            assert(b =~= seq![b[0]] + b.drop_first());
        }
    } else if a.len() == 0 && b.len() == 0 {
        assert(a =~= b);
    }
}

/// `str_le` is a total preorder: transitive and total.
pub proof fn lemma_str_le_transitive(a: Seq<char>, b: Seq<char>, c: Seq<char>)
    requires
        str_le(a, b),
        str_le(b, c),
    ensures
        str_le(a, c),
{
    if str_lt(c, a) {
        lemma_str_lt_total(b, a);
        if str_lt(b, a) {
        } else if a == b {
        } else {
            lemma_str_lt_transitive(c, a, b);
        }
    }
}

pub proof fn lemma_str_le_total(a: Seq<char>, b: Seq<char>)
    ensures
        str_le(a, b) || str_le(b, a),
{
    if str_lt(a, b) && str_lt(b, a) {
        lemma_str_lt_transitive(a, b, a);
        lemma_str_lt_irreflexive(a);
    }
}

pub proof fn lemma_insert_sorted_multiset(s: Assoc, e: (Seq<char>, Seq<char>))
    ensures
        insert_sorted(s, e).to_multiset() == s.to_multiset().insert(e),
    decreases s.len(),
{
    broadcast use vstd::seq_lib::group_to_multiset_ensures;

    if s.len() > 0 && !str_le(s.last().0, e.0) {
        lemma_insert_sorted_multiset(s.drop_last(), e);
        assert(s.drop_last().push(s.last()) =~= s);
        assert(insert_sorted(s, e).to_multiset() =~= s.to_multiset().insert(e));
    }
}

/// Sorting keeps exactly the pairs it was given, each as often.
pub proof fn lemma_sort_multiset(s: Assoc)
    ensures
        sort_by_name(s).to_multiset() == s.to_multiset(),
    decreases s.len(),
{
    broadcast use vstd::seq_lib::group_to_multiset_ensures;

    if s.len() > 0 {
        lemma_sort_multiset(s.drop_last());
        lemma_insert_sorted_multiset(sort_by_name(s.drop_last()), s.last());
        assert(s.drop_last().push(s.last()) =~= s);
    }
}

/// Each pair of the sorted sequence is a pair of the input.
pub proof fn lemma_sort_contains(s: Assoc, x: (Seq<char>, Seq<char>))
    ensures
        sort_by_name(s).contains(x) <==> s.contains(x),
{
    broadcast use vstd::seq_lib::group_to_multiset_ensures;

    lemma_sort_multiset(s);
    assert(sort_by_name(s).to_multiset().count(x) == s.to_multiset().count(x));
}

pub proof fn lemma_insert_sorted_sorted(s: Assoc, e: (Seq<char>, Seq<char>))
    requires
        sorted_by_name(s),
    ensures
        sorted_by_name(insert_sorted(s, e)),
    decreases s.len(),
{
    broadcast use vstd::seq_lib::group_to_multiset_ensures;

    if s.len() == 0 {
    } else if str_le(s.last().0, e.0) {
        let r = s.push(e);
        assert forall|i: int, j: int| 0 <= i < j < r.len() implies str_le(r[i].0, r[j].0) by {
            if j == r.len() - 1 && i < s.len() - 1 {
                lemma_str_le_transitive(s[i].0, s.last().0, e.0);
            }
        }
    } else {
        let t = s.drop_last();
        lemma_insert_sorted_sorted(t, e);
        let u = insert_sorted(t, e);
        lemma_insert_sorted_multiset(t, e);
        let r = u.push(s.last());
        lemma_str_le_total(s.last().0, e.0);
        assert forall|i: int, j: int| 0 <= i < j < r.len() implies str_le(r[i].0, r[j].0) by {
            if j == r.len() - 1 {
                let x = u[i];
                assert(u.contains(x));
                assert(u.to_multiset().count(x) > 0);
                if x != e {
                    assert(t.to_multiset().count(x) > 0);
                    assert(t.contains(x));
                    let k = choose|k: int| 0 <= k < t.len() && t[k] == x;
                    assert(s[k] == x);
                }
            }
        }
    }
}

/// The sorted sequence has names that never decrease.
pub proof fn lemma_sort_sorted(s: Assoc)
    ensures
        sorted_by_name(sort_by_name(s)),
    decreases s.len(),
{
    if s.len() > 0 {
        lemma_sort_sorted(s.drop_last());
        lemma_insert_sorted_sorted(sort_by_name(s.drop_last()), s.last());
    }
}

/// Sorting a sequence that is already in order changes nothing.
pub proof fn lemma_sort_sorted_identity(s: Assoc)
    requires
        sorted_by_name(s),
    ensures
        sort_by_name(s) == s,
    decreases s.len(),
{
    if s.len() > 0 {
        let t = s.drop_last();
        assert(sorted_by_name(t));
        lemma_sort_sorted_identity(t);
        if t.len() > 0 {
            assert(str_le(t.last().0, s.last().0));
        }
        assert(t.push(s.last()) =~= s);
    }
}

/// Sorting twice is sorting once.
pub proof fn lemma_sort_idempotent(s: Assoc)
    ensures
        sort_by_name(sort_by_name(s)) == sort_by_name(s),
{
    lemma_sort_sorted(s);
    lemma_sort_sorted_identity(sort_by_name(s));
}

} // verus!
