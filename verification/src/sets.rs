//! Strictly sorted lists of strings standing for ordered sets.

use vstd::prelude::*;
use crate::lists::views;
use crate::suggest::{lemma_seq_less_asymmetric, lemma_seq_less_irreflexive, lemma_seq_less_total, lemma_seq_less_transitive, seq_less, str_less};
use crate::text::str_eq;

verus! {

/// Strictly increasing in code-point order: sorted, no repeats.
pub open spec fn sorted_strict(s: Seq<Seq<char>>) -> bool {
    forall|i: int, j: int| 0 <= i < j < s.len() ==> seq_less(s[i], s[j])
}

pub proof fn lemma_views_push(v: Seq<String>, x: String)
    ensures
        views(v.push(x)) == views(v).push(x@),
{
    assert(views(v.push(x)) =~= views(v).push(x@));
}

/// Adds `x` to a strictly sorted list, keeping it strictly sorted.
pub fn sorted_insert(v: &mut Vec<String>, x: &String)
    requires
        sorted_strict(views(old(v)@)),
    ensures
        sorted_strict(views(final(v)@)),
        views(final(v)@).to_set() == views(old(v)@).to_set().insert(x@),
{
    let ghost old_v = views(v@);
    let mut p: usize = 0;
    while p < v.len() && str_less(v[p].as_str(), x.as_str())
        invariant
            p <= v@.len(),
            views(v@) == old_v,
            forall|k: int| 0 <= k < p ==> seq_less(#[trigger] old_v[k], x@),
        decreases v@.len() - p,
    {
        p = p + 1;
    }
    if p < v.len() && str_eq(v[p].as_str(), x.as_str()) {
        assert(old_v[p as int] == x@);
        assert(old_v.to_set().insert(x@) =~= old_v.to_set());
        return;
    }
    proof {
        if p < old_v.len() {
            lemma_seq_less_total(old_v[p as int], x@);
        }
    }
    v.insert(p, x.clone());
    let ghost nv = views(v@);
    proof {
        assert(nv =~= old_v.take(p as int).push(x@) + old_v.skip(p as int));
        assert forall|i: int, j: int| 0 <= i < j < nv.len() implies seq_less(nv[i], nv[j]) by {
            if j < p {
                assert(nv[i] == old_v[i] && nv[j] == old_v[j]);
            } else if j == p {
                assert(nv[j] == x@ && nv[i] == old_v[i]);
            } else if i < p {
                assert(nv[i] == old_v[i] && nv[j] == old_v[j - 1]);
                lemma_seq_less_transitive(old_v[i], x@, old_v[p as int]);
                if j - 1 > p {
                    lemma_seq_less_transitive(old_v[i], old_v[p as int], old_v[j - 1]);
                }
            } else if i == p {
                assert(nv[i] == x@ && nv[j] == old_v[j - 1]);
                if j - 1 > p {
                    lemma_seq_less_transitive(x@, old_v[p as int], old_v[j - 1]);
                }
            } else {
                assert(nv[i] == old_v[i - 1] && nv[j] == old_v[j - 1]);
            }
        }
        assert forall|y: Seq<char>| nv.contains(y) <==> old_v.to_set().insert(x@).contains(y) by {
            if nv.contains(y) {
                let k = choose|k: int| 0 <= k < nv.len() && nv[k] == y;
                if k < p {
                    assert(old_v[k] == y);
                } else if k > p {
                    assert(old_v[k - 1] == y);
                }
            }
            if old_v.contains(y) {
                let k = choose|k: int| 0 <= k < old_v.len() && old_v[k] == y;
                if k < p {
                    assert(nv[k] == y);
                } else {
                    assert(nv[k + 1] == y);
                }
            }
            if y == x@ {
                assert(nv[p as int] == y);
            }
        }
        assert(nv.to_set() =~= old_v.to_set().insert(x@));
    }
}

/// The distinct items of a list, strictly sorted.
pub fn sorted_set_of(items: &[String]) -> (r: Vec<String>)
    ensures
        sorted_strict(views(r@)),
        views(r@).to_set() == views(items@).to_set(),
{
    let mut out: Vec<String> = Vec::new();
    let mut i: usize = 0;
    while i < items.len()
        invariant
            i <= items@.len(),
            sorted_strict(views(out@)),
            views(out@).to_set() == views(items@).take(i as int).to_set(),
        decreases items@.len() - i,
    {
        sorted_insert(&mut out, &items[i]);
        proof {
            let t = views(items@).take(i + 1);
            assert(t =~= views(items@).take(i as int).push(items@[i as int]@));
            assert forall|y: Seq<char>| t.contains(y) <==> views(items@).take(i as int).to_set().insert(items@[i as int]@).contains(y) by {
                vstd::seq_lib::lemma_seq_contains_after_push(views(items@).take(i as int), items@[i as int]@, y);
            }
            assert(t.to_set() =~= views(items@).take(i as int).to_set().insert(items@[i as int]@));
        }
        i = i + 1;
    }
    assert(views(items@).take(items@.len() as int) =~= views(items@));
    out
}

/// The strictly sorted listing of a finite set of strings.
pub open spec fn sorted_of(set: Set<Seq<char>>) -> Seq<Seq<char>> {
    choose|s: Seq<Seq<char>>| sorted_strict(s) && s.to_set() == set
}

/// Two strictly sorted listings of the same set are the same listing.
pub proof fn lemma_sorted_unique(a: Seq<Seq<char>>, b: Seq<Seq<char>>)
    requires
        sorted_strict(a),
        sorted_strict(b),
        a.to_set() == b.to_set(),
    ensures
        a == b,
    decreases a.len(),
{
    if a.len() == 0 {
        if b.len() > 0 {
            assert(b.to_set().contains(b[0]));
            assert(!a.to_set().contains(b[0]));
        }
        assert(a =~= b);
    } else {
        assert(a.to_set().contains(a[0]));
        assert(b.to_set().contains(a[0]));
        let kb = choose|k: int| 0 <= k < b.len() && b[k] == a[0];
        assert(a.to_set().contains(b[0]));
        let ka = choose|k: int| 0 <= k < a.len() && a[k] == b[0];
        if kb > 0 {
            assert(seq_less(b[0], a[0]));
            if ka > 0 {
                assert(seq_less(a[0], b[0]));
                lemma_seq_less_asymmetric(a[0], b[0]);
            } else {
                lemma_seq_less_irreflexive(a[0]);
            }
        }
        assert(a[0] == b[0]);
        let ta = a.drop_first();
        let tb = b.drop_first();
        assert forall|x: Seq<char>| ta.to_set().contains(x) <==> tb.to_set().contains(x) by {
            if ta.contains(x) {
                let k = choose|k: int| 0 <= k < ta.len() && ta[k] == x;
                assert(a[k + 1] == x);
                assert(seq_less(a[0], x));
                assert(a.to_set().contains(x));
                assert(b.contains(x));
                let j = choose|j: int| 0 <= j < b.len() && b[j] == x;
                if j == 0 {
                    lemma_seq_less_irreflexive(x);
                }
                assert(tb[j - 1] == x);
            }
            if tb.contains(x) {
                let k = choose|k: int| 0 <= k < tb.len() && tb[k] == x;
                assert(b[k + 1] == x);
                assert(seq_less(b[0], x));
                assert(b.to_set().contains(x));
                assert(a.contains(x));
                let j = choose|j: int| 0 <= j < a.len() && a[j] == x;
                if j == 0 {
                    lemma_seq_less_irreflexive(x);
                }
                assert(ta[j - 1] == x);
            }
        }
        assert(ta.to_set() =~= tb.to_set());
        assert(sorted_strict(ta)) by {
            assert forall|i: int, j: int| 0 <= i < j < ta.len() implies seq_less(ta[i], ta[j]) by {
                assert(ta[i] == a[i + 1] && ta[j] == a[j + 1]);
            }
        }
        assert(sorted_strict(tb)) by {
            assert forall|i: int, j: int| 0 <= i < j < tb.len() implies seq_less(tb[i], tb[j]) by {
                assert(tb[i] == b[i + 1] && tb[j] == b[j + 1]);
            }
        }
        lemma_sorted_unique(ta, tb);
        assert(a =~= seq![a[0]] + ta);
        assert(b =~= seq![b[0]] + tb);
    }
}

/// A strictly sorted listing of a set is its sorted listing.
pub proof fn lemma_sorted_of(s: Seq<Seq<char>>, set: Set<Seq<char>>)
    requires
        sorted_strict(s),
        s.to_set() == set,
    ensures
        sorted_of(set) == s,
{
    let c = sorted_of(set);
    assert(sorted_strict(c) && c.to_set() == set);
    lemma_sorted_unique(c, s);
}

} // verus!
