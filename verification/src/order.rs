//! Stable insertion order: the sort every listing of the bus uses.

use vstd::prelude::*;

verus! {

/// Inserts `x` before the first element that sorts strictly after it.
pub open spec fn insert_by<A>(s: Seq<A>, x: A, less: spec_fn(A, A) -> bool) -> Seq<A>
    decreases s.len(),
{
    if s.len() == 0 {
        seq![x]
    } else if less(x, s[0]) {
        seq![x] + s
    } else {
        seq![s[0]] + insert_by(s.drop_first(), x, less)
    }
}

/// Stable sort by `less`: elements that compare equal keep their order.
pub open spec fn sort_by<A>(s: Seq<A>, less: spec_fn(A, A) -> bool) -> Seq<A>
    decreases s.len(),
{
    if s.len() == 0 {
        s
    } else {
        insert_by(sort_by(s.drop_last(), less), s.last(), less)
    }
}

/// Inserting at the first position that sorts strictly after `x`.
pub proof fn lemma_insert_by_at<A>(s: Seq<A>, x: A, less: spec_fn(A, A) -> bool, p: int)
    requires
        0 <= p <= s.len(),
        forall|k: int| 0 <= k < p ==> !less(x, #[trigger] s[k]),
        p == s.len() || less(x, s[p]),
    ensures
        insert_by(s, x, less) == s.take(p) + seq![x] + s.skip(p),
    decreases p,
{
    if p == 0 {
        if s.len() == 0 {
            assert(s.take(0) + seq![x] + s.skip(0) =~= seq![x]);
        } else {
            assert(s.take(0) + seq![x] + s.skip(0) =~= seq![x] + s);
        }
    } else {
        let t = s.drop_first();
        assert forall|k: int| 0 <= k < p - 1 implies !less(x, #[trigger] t[k]) by {
            assert(t[k] == s[k + 1]);
        }
        if p - 1 < t.len() {
            assert(t[p - 1] == s[p]);
        }
        lemma_insert_by_at(t, x, less, p - 1);
        assert(seq![s[0]] + (t.take(p - 1) + seq![x] + t.skip(p - 1)) =~= s.take(p) + seq![x] + s.skip(p));
    }
}

/// `less` is a strict weak order: irreflexive, transitive, and its
/// incomparability is transitive.
pub open spec fn strict_weak_order<A>(less: spec_fn(A, A) -> bool) -> bool {
    &&& forall|a: A| !#[trigger] less(a, a)
    &&& forall|a: A, b: A, c: A| #[trigger] less(a, b) && #[trigger] less(b, c) ==> less(a, c)
    &&& forall|a: A, b: A, c: A|
        !#[trigger] less(a, b) && !#[trigger] less(b, c) ==> !less(a, c)
}

/// No element sorts strictly before an earlier one.
pub open spec fn sorted_by<A>(s: Seq<A>, less: spec_fn(A, A) -> bool) -> bool {
    forall|i: int, j: int| 0 <= i < j < s.len() ==> !less(#[trigger] s[j], #[trigger] s[i])
}

proof fn lemma_insert_keeps_sorted<A>(s: Seq<A>, x: A, less: spec_fn(A, A) -> bool)
    requires
        strict_weak_order(less),
        sorted_by(s, less),
    ensures
        sorted_by(insert_by(s, x, less), less),
        insert_by(s, x, less).len() == s.len() + 1,
        forall|k: int| 0 <= k < insert_by(s, x, less).len() ==> #[trigger] insert_by(s, x, less)[k] == x
            || s.contains(insert_by(s, x, less)[k]),
    decreases s.len(),
{
    let r = insert_by(s, x, less);
    if s.len() == 0 {
    } else if less(x, s[0]) {
        assert forall|i: int, j: int| 0 <= i < j < r.len() implies !less(#[trigger] r[j], #[trigger] r[i]) by {
            if i == 0 {
                // r[0] == x, r[j] == s[j - 1]
                assert(r[j] == s[j - 1]);
                if j - 1 > 0 {
                    assert(!less(s[j - 1], s[0]));
                }
                if less(s[j - 1], x) {
                    if j - 1 == 0 {
                        assert(less(x, x));
                    } else {
                        assert(less(s[j - 1], s[0]));
                    }
                }
            } else {
                assert(r[i] == s[i - 1]);
                assert(r[j] == s[j - 1]);
            }
        }
        assert forall|k: int| 0 <= k < r.len() implies #[trigger] r[k] == x || s.contains(r[k]) by {
            if k > 0 {
                assert(r[k] == s[k - 1]);
            }
        }
    } else {
        let t = s.drop_first();
        assert(sorted_by(t, less)) by {
            assert forall|i: int, j: int| 0 <= i < j < t.len() implies !less(#[trigger] t[j], #[trigger] t[i]) by {
                assert(t[i] == s[i + 1]);
                assert(t[j] == s[j + 1]);
            }
        }
        lemma_insert_keeps_sorted(t, x, less);
        let u = insert_by(t, x, less);
        assert(r == seq![s[0]] + u);
        assert forall|i: int, j: int| 0 <= i < j < r.len() implies !less(#[trigger] r[j], #[trigger] r[i]) by {
            if i == 0 {
                assert(r[j] == u[j - 1]);
                if u[j - 1] == x {
                } else {
                    assert(t.contains(u[j - 1]));
                    let k = choose|k: int| 0 <= k < t.len() && t[k] == u[j - 1];
                    assert(t[k] == s[k + 1]);
                }
            } else {
                assert(r[i] == u[i - 1]);
                assert(r[j] == u[j - 1]);
            }
        }
        assert forall|k: int| 0 <= k < r.len() implies #[trigger] r[k] == x || s.contains(r[k]) by {
            if k == 0 {
                assert(s[0] == r[0]);
            } else {
                assert(r[k] == u[k - 1]);
                if u[k - 1] != x {
                    let m = choose|m: int| 0 <= m < t.len() && t[m] == u[k - 1];
                    assert(s[m + 1] == r[k]);
                }
            }
        }
    }
}

/// A stable insertion sort by a strict weak order leaves its input sorted.
pub proof fn lemma_sort_by_sorted<A>(s: Seq<A>, less: spec_fn(A, A) -> bool)
    requires
        strict_weak_order(less),
    ensures
        sorted_by(sort_by(s, less), less),
        sort_by(s, less).len() == s.len(),
    decreases s.len(),
{
    if s.len() > 0 {
        lemma_sort_by_sorted(s.drop_last(), less);
        lemma_insert_keeps_sorted(sort_by(s.drop_last(), less), s.last(), less);
    }
}

proof fn lemma_insert_by_len<A>(s: Seq<A>, x: A, less: spec_fn(A, A) -> bool)
    ensures
        insert_by(s, x, less).len() == s.len() + 1,
    decreases s.len(),
{
    if s.len() > 0 && !less(x, s[0]) {
        lemma_insert_by_len(s.drop_first(), x, less);
    }
}

/// Sorting keeps the number of elements.
pub proof fn lemma_sort_by_len<A>(s: Seq<A>, less: spec_fn(A, A) -> bool)
    ensures
        sort_by(s, less).len() == s.len(),
    decreases s.len(),
{
    if s.len() > 0 {
        lemma_sort_by_len(s.drop_last(), less);
        lemma_insert_by_len(sort_by(s.drop_last(), less), s.last(), less);
    }
}


proof fn lemma_insert_by_contains<A>(s: Seq<A>, x: A, less: spec_fn(A, A) -> bool, y: A)
    ensures
        insert_by(s, x, less).contains(y) ==> y == x || s.contains(y),
    decreases s.len(),
{
    let r = insert_by(s, x, less);
    if r.contains(y) && s.len() > 0 {
        let k = choose|k: int| 0 <= k < r.len() && r[k] == y;
        if less(x, s[0]) {
            if k > 0 {
                assert(r[k] == s[k - 1]);
            }
        } else {
            let t = s.drop_first();
            lemma_insert_by_contains(t, x, less, y);
            if k > 0 {
                assert(r[k] == insert_by(t, x, less)[k - 1]);
                if y != x {
                    let m = choose|m: int| 0 <= m < t.len() && t[m] == y;
                    assert(s[m + 1] == y);
                }
            } else {
                assert(s[0] == y);
            }
        }
    }
}

/// Sorting adds nothing: everything in the sorted sequence was in the input.
pub proof fn lemma_sort_by_contains<A>(s: Seq<A>, less: spec_fn(A, A) -> bool, y: A)
    ensures
        sort_by(s, less).contains(y) ==> s.contains(y),
    decreases s.len(),
{
    if s.len() > 0 {
        lemma_sort_by_contains(s.drop_last(), less, y);
        lemma_insert_by_contains(sort_by(s.drop_last(), less), s.last(), less, y);
        if sort_by(s, less).contains(y) {
            if y == s.last() {
                assert(s[s.len() - 1] == y);
            } else {
                let m = choose|m: int| 0 <= m < s.drop_last().len() && s.drop_last()[m] == y;
                assert(s[m] == y);
            }
        }
    }
}

} // verus!
