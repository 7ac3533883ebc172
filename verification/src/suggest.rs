use vstd::prelude::*;
use crate::lists::views;
use crate::text::{chars_of, str_eq};

verus! {

pub open spec fn min_nat(x: nat, y: nat) -> nat {
    if x <= y { x } else { y }
}

pub open spec fn max_nat(x: nat, y: nat) -> nat {
    if x >= y { x } else { y }
}

/// Levenshtein distance: the fewest single-character insertions, deletions
/// and substitutions turning `a` into `b`.
pub open spec fn lev(a: Seq<char>, b: Seq<char>) -> nat
    decreases a.len() + b.len(),
{
    if a.len() == 0 {
        b.len()
    } else if b.len() == 0 {
        a.len()
    } else {
        let cost: nat = if a.last() == b.last() { 0 } else { 1 };
        min_nat(
            min_nat(lev(a.drop_last(), b) + 1, lev(a, b.drop_last()) + 1),
            lev(a.drop_last(), b.drop_last()) + cost,
        )
    }
}

pub proof fn lemma_lev_bound(a: Seq<char>, b: Seq<char>)
    ensures
        lev(a, b) <= max_nat(a.len(), b.len()),
    decreases a.len() + b.len(),
{
    if a.len() > 0 && b.len() > 0 {
        lemma_lev_bound(a.drop_last(), b.drop_last());
    }
}

/// Levenshtein edit distance between two strings, counted in characters.
pub fn edit_distance(a: &str, b: &str) -> (r: usize)
    ensures
        r == lev(a@, b@),
{
    let x = chars_of(a);
    let y = chars_of(b);
    let n = x.len();
    let m = y.len();
    let mut prev: Vec<usize> = Vec::new();
    let mut j: usize = 0;
    while j <= m
        invariant
            m == y@.len(),
            m <= isize::MAX,
            j <= m + 1,
            prev@.len() == j,
            forall|k: int| 0 <= k < j ==> prev@[k] == k,
        decreases m + 1 - j,
    {
        prev.push(j);
        j = j + 1;
    }
    proof {
        assert forall|k: int| 0 <= k <= m implies #[trigger] prev@[k] == lev(x@.take(0), y@.take(k)) by {
            assert(x@.take(0).len() == 0);
            assert(y@.take(k).len() == k);
        }
    }
    let mut i: usize = 0;
    while i < n
        invariant
            n == x@.len(),
            m == y@.len(),
            n <= isize::MAX,
            m <= isize::MAX,
            i <= n,
            prev@.len() == m + 1,
            forall|k: int| 0 <= k <= m ==> #[trigger] prev@[k] == lev(x@.take(i as int), y@.take(k)),
        decreases n - i,
    {
        let mut curr: Vec<usize> = Vec::new();
        curr.push(i + 1);
        proof {
            assert(y@.take(0).len() == 0);
            assert(x@.take(i + 1).len() == i + 1);
        }
        let mut j: usize = 0;
        while j < m
            invariant
                n == x@.len(),
                m == y@.len(),
                n <= isize::MAX,
                m <= isize::MAX,
                i < n,
                j <= m,
                prev@.len() == m + 1,
                forall|k: int| 0 <= k <= m ==> #[trigger] prev@[k] == lev(x@.take(i as int), y@.take(k)),
                curr@.len() == j + 1,
                forall|k: int| 0 <= k <= j ==> #[trigger] curr@[k] == lev(x@.take(i + 1), y@.take(k)),
            decreases m - j,
        {
            let cost: usize = if x[i] == y[j] { 0 } else { 1 };
            proof {
                lemma_lev_bound(x@.take(i as int), y@.take(j + 1));
                lemma_lev_bound(x@.take(i + 1), y@.take(j as int));
                lemma_lev_bound(x@.take(i as int), y@.take(j as int));
                assert(prev@[j + 1] == lev(x@.take(i as int), y@.take(j + 1)));
                assert(curr@[j as int] == lev(x@.take(i + 1), y@.take(j as int)));
                assert(prev@[j as int] == lev(x@.take(i as int), y@.take(j as int)));
            }
            let up = prev[j + 1] + 1;
            let left = curr[j] + 1;
            let diag = prev[j] + cost;
            let mut best = if up < left { up } else { left };
            if diag < best {
                best = diag;
            }
            proof {
                let aa = x@.take(i + 1);
                let bb = y@.take(j + 1);
                assert(aa.drop_last() =~= x@.take(i as int));
                assert(bb.drop_last() =~= y@.take(j as int));
                assert(aa.last() == x@[i as int]);
                assert(bb.last() == y@[j as int]);
                assert(best == lev(aa, bb));
            }
            curr.push(best);
            j = j + 1;
        }
        prev = curr;
        i = i + 1;
    }
    proof {
        assert(x@.take(n as int) =~= x@);
        assert(y@.take(m as int) =~= y@);
    }
    prev[m]
}

/// Lexicographic order on characters (the order of `String`'s `Ord`).
pub open spec fn seq_less(a: Seq<char>, b: Seq<char>) -> bool
    decreases a.len(),
{
    if a.len() == 0 {
        b.len() > 0
    } else if b.len() == 0 {
        false
    } else if a[0] != b[0] {
        a[0] < b[0]
    } else {
        seq_less(a.drop_first(), b.drop_first())
    }
}

pub proof fn lemma_seq_less_irreflexive(a: Seq<char>)
    ensures
        !seq_less(a, a),
    decreases a.len(),
{
    if a.len() > 0 {
        lemma_seq_less_irreflexive(a.drop_first());
    }
}

pub proof fn lemma_seq_less_asymmetric(a: Seq<char>, b: Seq<char>)
    ensures
        seq_less(a, b) ==> !seq_less(b, a),
    decreases a.len(),
{
    if a.len() > 0 && b.len() > 0 && a[0] == b[0] {
        lemma_seq_less_asymmetric(a.drop_first(), b.drop_first());
    }
}

pub proof fn lemma_seq_less_transitive(a: Seq<char>, b: Seq<char>, c: Seq<char>)
    ensures
        seq_less(a, b) && seq_less(b, c) ==> seq_less(a, c),
    decreases a.len(),
{
    if a.len() > 0 && b.len() > 0 && c.len() > 0 {
        lemma_seq_less_transitive(a.drop_first(), b.drop_first(), c.drop_first());
    }
}

pub proof fn lemma_seq_less_total(a: Seq<char>, b: Seq<char>)
    ensures
        a != b ==> seq_less(a, b) || seq_less(b, a),
    decreases a.len(),
{
    if a.len() == 0 && b.len() == 0 {
        assert(a =~= b);
    } else if a.len() > 0 && b.len() > 0 && a[0] == b[0] {
        lemma_seq_less_total(a.drop_first(), b.drop_first());
        if a.drop_first() == b.drop_first() {
            assert(a =~= seq![a[0]] + a.drop_first());
            assert(b =~= seq![b[0]] + b.drop_first());
        }
    }
}

/// Whether `a` sorts strictly before `b`.
pub fn str_less(a: &str, b: &str) -> (r: bool)
    ensures
        r == seq_less(a@, b@),
{
    let x = chars_of(a);
    let y = chars_of(b);
    let mut i: usize = 0;
    proof {
        assert(x@.skip(0) =~= x@);
        assert(y@.skip(0) =~= y@);
    }
    while i < x.len() && i < y.len() && x[i] == y[i]
        invariant
            i <= x@.len(),
            i <= y@.len(),
            seq_less(x@, y@) == seq_less(x@.skip(i as int), y@.skip(i as int)),
        decreases x@.len() - i,
    {
        proof {
            let xs = x@.skip(i as int);
            let ys = y@.skip(i as int);
            assert(xs.drop_first() =~= x@.skip(i + 1));
            assert(ys.drop_first() =~= y@.skip(i + 1));
            assert(xs[0] == x@[i as int]);
            assert(ys[0] == y@[i as int]);
        }
        i = i + 1;
    }
    proof {
        let xs = x@.skip(i as int);
        let ys = y@.skip(i as int);
        if i < x@.len() {
            assert(xs[0] == x@[i as int]);
        }
        if i < y@.len() {
            assert(ys[0] == y@[i as int]);
        }
    }
    if i == x.len() {
        i < y.len()
    } else if i == y.len() {
        false
    } else {
        x[i] < y[i]
    }
}

/// Order of scored candidates: by distance, then by name.
pub open spec fn key_less(a: (nat, Seq<char>), b: (nat, Seq<char>)) -> bool {
    a.0 < b.0 || (a.0 == b.0 && seq_less(a.1, b.1))
}

/// Inserts `x` before the first element that sorts strictly after it.
pub open spec fn insert_sorted(s: Seq<(nat, Seq<char>)>, x: (nat, Seq<char>)) -> Seq<(nat, Seq<char>)>
    decreases s.len(),
{
    if s.len() == 0 {
        seq![x]
    } else if key_less(x, s[0]) {
        seq![x] + s
    } else {
        seq![s[0]] + insert_sorted(s.drop_first(), x)
    }
}

/// Stable sort by `key_less`.
pub open spec fn sort_scored(s: Seq<(nat, Seq<char>)>) -> Seq<(nat, Seq<char>)>
    decreases s.len(),
{
    if s.len() == 0 {
        s
    } else {
        insert_sorted(sort_scored(s.drop_last()), s.last())
    }
}

/// The largest distance still offered as a suggestion.
pub open spec fn suggestion_threshold(t: Seq<char>, c: Seq<char>) -> nat {
    let third = max_nat(t.len(), c.len()) / 3;
    if third >= 1 { third } else { 1 }
}

/// The close, non-identical candidates with their distances, in input order.
pub open spec fn scored(cands: Seq<Seq<char>>, t: Seq<char>) -> Seq<(nat, Seq<char>)>
    decreases cands.len(),
{
    if cands.len() == 0 {
        Seq::empty()
    } else {
        let p = scored(cands.drop_last(), t);
        let c = cands.last();
        if c != t && lev(t, c) <= suggestion_threshold(t, c) {
            p.push((lev(t, c), c))
        } else {
            p
        }
    }
}

/// The suggestions: closest first, ties by name, at most `limit` of them.
pub open spec fn nearest(cands: Seq<Seq<char>>, t: Seq<char>, limit: nat) -> Seq<Seq<char>> {
    let s = sort_scored(scored(cands, t));
    let k = min_nat(limit, s.len());
    Seq::new(k, |i: int| s[i].1)
}

pub proof fn lemma_insert_at(s: Seq<(nat, Seq<char>)>, x: (nat, Seq<char>), p: int)
    requires
        0 <= p <= s.len(),
        forall|k: int| 0 <= k < p ==> !key_less(x, #[trigger] s[k]),
        p == s.len() || key_less(x, s[p]),
    ensures
        insert_sorted(s, x) == s.take(p) + seq![x] + s.skip(p),
    decreases p,
{
    if p == 0 {
        if s.len() == 0 {
            assert(s.take(0) + seq![x] + s.skip(0) =~= seq![x]);
        } else {
            assert(s.take(0) + seq![x] + s.skip(0) =~= seq![x] + s);
        }
    } else {
        let t = s.drop_first();
        assert forall|k: int| 0 <= k < p - 1 implies !key_less(x, #[trigger] t[k]) by {
            assert(t[k] == s[k + 1]);
        }
        if p - 1 < t.len() {
            assert(t[p - 1] == s[p]);
        }
        lemma_insert_at(t, x, p - 1);
        assert(seq![s[0]] + (t.take(p - 1) + seq![x] + t.skip(p - 1)) =~= s.take(p) + seq![x]
            + s.skip(p));
    }
}

spec fn entries_view(v: Seq<(usize, String)>) -> Seq<(nat, Seq<char>)> {
    Seq::new(v.len(), |i: int| (v[i].0 as nat, v[i].1@))
}

fn entry_less(d: usize, c: &str, e: &(usize, String)) -> (r: bool)
    ensures
        r == key_less((d as nat, c@), (e.0 as nat, e.1@)),
{
    d < e.0 || (d == e.0 && str_less(c, e.1.as_str()))
}

/// Suggests the `candidates` closest to `target`, closest first, for "did you
/// mean" recovery on a mistyped id. Only reasonably close matches are offered
/// (distance within a third of the longer length, at least 1); an exact match
/// is excluded.
pub fn nearest_ids(target: &str, candidates: &[String], limit: usize) -> (r: Vec<String>)
    ensures
        views(r@) == nearest(views(candidates@), target@, limit as nat),
{
    let tlen = chars_of(target).len();
    let mut sorted: Vec<(usize, String)> = Vec::new();
    let ghost mut sc: Seq<(nat, Seq<char>)> = Seq::empty();
    let mut i: usize = 0;
    while i < candidates.len()
        invariant
            tlen == target@.len(),
            i <= candidates@.len(),
            sc == scored(views(candidates@).take(i as int), target@),
            entries_view(sorted@) == sort_scored(sc),
        decreases candidates@.len() - i,
    {
        let ghost cs = views(candidates@);
        assert(cs.take(i + 1).drop_last() =~= cs.take(i as int));
        assert(cs.take(i + 1).last() == candidates@[i as int]@);
        let c = &candidates[i];
        if !str_eq(c.as_str(), target) {
            let d = edit_distance(target, c.as_str());
            let clen = chars_of(c.as_str()).len();
            let longer = if tlen >= clen { tlen } else { clen };
            let third = longer / 3;
            let threshold = if third >= 1 { third } else { 1 };
            if d <= threshold {
                let mut p: usize = 0;
                while p < sorted.len() && !entry_less(d, c.as_str(), &sorted[p])
                    invariant
                        p <= sorted@.len(),
                        forall|k: int| 0 <= k < p ==> !key_less((d as nat, c@), #[trigger] entries_view(sorted@)[k]),
                    decreases sorted@.len() - p,
                {
                    p = p + 1;
                }
                proof {
                    lemma_insert_at(entries_view(sorted@), (d as nat, c@), p as int);
                }
                let ghost before = entries_view(sorted@);
                sorted.insert(p, (d, c.clone()));
                proof {
                    assert(entries_view(sorted@) =~= before.take(p as int) + seq![(d as nat, c@)] + before.skip(p as int));
                    sc = sc.push((d as nat, c@));
                    assert(sort_scored(sc) == insert_sorted(sort_scored(sc.drop_last()), sc.last()));
                    assert(sc.drop_last() =~= scored(views(candidates@).take(i as int), target@));
                }
            }
        }
        i = i + 1;
    }
    assert(views(candidates@).take(candidates@.len() as int) =~= views(candidates@));
    let mut out: Vec<String> = Vec::new();
    let ghost ents = entries_view(sorted@);
    let mut k: usize = 0;
    while k < sorted.len() && k < limit
        invariant
            ents == entries_view(sorted@),
            k <= sorted@.len(),
            k <= limit,
            views(out@) =~= Seq::new(k as nat, |j: int| ents[j].1),
        decreases sorted@.len() - k,
    {
        let ghost before = views(out@);
        out.push(sorted[k].1.clone());
        proof {
            assert(views(out@) =~= before.push(ents[k as int].1));
        }
        k = k + 1;
    }
    out
}

} // verus!
