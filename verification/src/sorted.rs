//! Strings in the order that `str`'s `Ord` gives them (by code point, which
//! is the order of their UTF-8 bytes), kept sorted and free of repeats.
use vstd::prelude::*;

verus! {

/// `a` comes before `b`.
pub open spec fn seq_lt(a: Seq<char>, b: Seq<char>) -> bool
    decreases a.len(),
{
    if a.len() == 0 {
        b.len() > 0
    } else if b.len() == 0 {
        false
    } else if a[0] != b[0] {
        a[0] < b[0]
    } else {
        seq_lt(a.drop_first(), b.drop_first())
    }
}

pub proof fn lemma_lt_irreflexive(a: Seq<char>)
    ensures
        !seq_lt(a, a),
    decreases a.len(),
{
    if a.len() > 0 {
        lemma_lt_irreflexive(a.drop_first());
    }
}

pub proof fn lemma_lt_transitive(a: Seq<char>, b: Seq<char>, c: Seq<char>)
    requires
        seq_lt(a, b),
        seq_lt(b, c),
    ensures
        seq_lt(a, c),
    decreases a.len(),
{
    if a.len() > 0 && b.len() > 0 && c.len() > 0 {
        if a[0] == b[0] && b[0] == c[0] {
            lemma_lt_transitive(a.drop_first(), b.drop_first(), c.drop_first());
        }
    }
}

pub proof fn lemma_lt_total(a: Seq<char>, b: Seq<char>)
    requires
        a != b,
    ensures
        seq_lt(a, b) || seq_lt(b, a),
    decreases a.len(),
{
    if a.len() > 0 && b.len() > 0 {
        if a[0] == b[0] {
            if a.drop_first() == b.drop_first() {
                assert(a =~= seq![a[0]] + a.drop_first());
                assert(b =~= seq![b[0]] + b.drop_first());
            }
            lemma_lt_total(a.drop_first(), b.drop_first());
        }
    } else if a.len() == 0 && b.len() == 0 {
        assert(a =~= b);
    }
}

pub proof fn lemma_lt_asymmetric(a: Seq<char>, b: Seq<char>)
    requires
        seq_lt(a, b),
    ensures
        !seq_lt(b, a),
{
    if seq_lt(b, a) {
        lemma_lt_transitive(a, b, a);
        lemma_lt_irreflexive(a);
    }
}

/// The strings are in increasing order with no repeats.
pub open spec fn strictly_sorted(v: Seq<Seq<char>>) -> bool {
    forall|i: int, j: int| 0 <= i < j < v.len() ==> seq_lt(#[trigger] v[i], #[trigger] v[j])
}

/// `a` comes before `b`.
pub fn str_lt(a: &str, b: &str) -> (r: bool)
    ensures
        r == seq_lt(a@, b@),
{
    let ac = crate::text::chars_of(a);
    let bc = crate::text::chars_of(b);
    let mut i: usize = 0;
    assert(a@.skip(0) =~= a@);
    assert(b@.skip(0) =~= b@);
    while i < ac.len() && i < bc.len() && ac[i] == bc[i]
        invariant
            0 <= i <= ac@.len(),
            i <= bc@.len(),
            ac@ == a@,
            bc@ == b@,
            seq_lt(a@, b@) == seq_lt(a@.skip(i as int), b@.skip(i as int)),
        decreases ac.len() - i,
    {
        assert(a@.skip(i as int).drop_first() =~= a@.skip(i + 1));
        assert(b@.skip(i as int).drop_first() =~= b@.skip(i + 1));
        i += 1;
    }
    if i == ac.len() {
        i < bc.len()
    } else if i == bc.len() {
        false
    } else {
        ac[i] < bc[i]
    }
}

/// Inserts `x` into the sorted `v` unless it is there already.
pub fn insert_sorted(v: &mut Vec<String>, x: String)
    requires
        strictly_sorted(old(v).deep_view()),
    ensures
        strictly_sorted(final(v).deep_view()),
        forall|t: Seq<char>|
            #[trigger] final(v).deep_view().contains(t) <==> (t == x@ || old(v).deep_view().contains(t)),
{
    let ghost start = v.deep_view();
    let mut k: usize = 0;
    while k < v.len() && str_lt(v[k].as_str(), x.as_str())
        invariant
            0 <= k <= v@.len(),
            v.deep_view() == start,
            strictly_sorted(start),
            forall|j: int| 0 <= j < k ==> seq_lt(#[trigger] start[j], x@),
        decreases v.len() - k,
    {
        assert(start[k as int] == v@[k as int]@);
        k += 1;
    }
    if k < v.len() && crate::text::str_eq(v[k].as_str(), x.as_str()) {
        assert(start[k as int] == v@[k as int]@);
        assert forall|t: Seq<char>| #[trigger] start.contains(t) <==> (t == x@ || start.contains(t)) by {
            if t == x@ {
                assert(start[k as int] == t);
            }
        }
        return;
    }
    if k < v.len() {
        assert(start[k as int] == v@[k as int]@);
        proof {
            lemma_lt_total(start[k as int], x@);
        }
    }
    let ghost xv = x@;
    v.insert(k, x);
    assert(v.deep_view() =~= start.insert(k as int, xv));
    let ghost w = v.deep_view();
    assert forall|i: int, j: int| 0 <= i < j < w.len() implies seq_lt(#[trigger] w[i], #[trigger] w[j]) by {
        if j < k {
            assert(w[i] == start[i] && w[j] == start[j]);
        } else if j == k {
            assert(w[i] == start[i]);
        } else if i == k {
            assert(w[j] == start[j - 1]);
            if j - 1 > k {
                assert(seq_lt(start[k as int], start[j - 1]));
                lemma_lt_transitive(xv, start[k as int], start[j - 1]);
            }
        } else if i < k {
            assert(w[i] == start[i] && w[j] == start[j - 1]);
        } else {
            assert(w[i] == start[i - 1] && w[j] == start[j - 1]);
        }
    }
    assert forall|t: Seq<char>| #[trigger] w.contains(t) <==> (t == xv || start.contains(t)) by {
        if w.contains(t) {
            let m = choose|m: int| 0 <= m < w.len() && w[m] == t;
            if m < k {
                assert(start[m] == t);
            } else if m > k {
                assert(start[m - 1] == t);
            }
        }
        if t == xv {
            assert(w[k as int] == t);
        }
        if start.contains(t) {
            let m = choose|m: int| 0 <= m < start.len() && start[m] == t;
            if m < k {
                assert(w[m] == t);
            } else {
                assert(w[m + 1] == t);
            }
        }
    }
}

} // verus!
