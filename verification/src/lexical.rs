//! Texts in the order of their characters.
use vstd::prelude::*;

use crate::text::{chars_of, texts};

verus! {

/// Whether `a` comes before `b`: by the first character in which they differ,
/// or as its beginning.
pub open spec fn before(a: Seq<char>, b: Seq<char>) -> bool
    decreases a.len(),
{
    if b.len() == 0 {
        false
    } else if a.len() == 0 {
        true
    } else if a[0] != b[0] {
        (a[0] as int) < (b[0] as int)
    } else {
        before(a.drop_first(), b.drop_first())
    }
}

/// Two texts are the same, or one comes before the other, never both.
pub proof fn one_comes_first(a: Seq<char>, b: Seq<char>)
    ensures
        a == b ==> !before(a, b),
        a != b ==> (before(a, b) <==> !before(b, a)),
    decreases a.len(),
{
    if a.len() > 0 && b.len() > 0 {
        one_comes_first(a.drop_first(), b.drop_first());
        if a[0] == b[0] && a.drop_first() == b.drop_first() {
            assert(a =~= seq![a[0]] + a.drop_first());
            assert(b =~= seq![b[0]] + b.drop_first());
        }
    } else if a.len() == 0 && b.len() == 0 {
        assert(a =~= b);
    }
}

/// What comes before something that comes before a third comes before the third.
pub proof fn before_passes_on(a: Seq<char>, b: Seq<char>, c: Seq<char>)
    requires
        before(a, b),
        before(b, c),
    ensures
        before(a, c),
    decreases a.len(),
{
    if a.len() > 0 && a[0] == b[0] && b[0] == c[0] {
        before_passes_on(a.drop_first(), b.drop_first(), c.drop_first());
    }
}

/// Whether `a` comes before `b`.
pub fn comes_before(a: &str, b: &str) -> (r: bool)
    ensures
        r == before(a@, b@),
{
    let x = chars_of(a);
    let y = chars_of(b);
    let mut i: usize = 0;
    assert(x@.skip(0) =~= a@);
    assert(y@.skip(0) =~= b@);
    while i < x.len() && i < y.len()
        invariant
            i <= x@.len(),
            i <= y@.len(),
            before(a@, b@) == before(x@.skip(i as int), y@.skip(i as int)),
        decreases x@.len() - i,
    {
        if x[i] != y[i] {
            return x[i] < y[i];
        }
        assert(x@.skip(i as int).drop_first() =~= x@.skip(i + 1));
        assert(y@.skip(i as int).drop_first() =~= y@.skip(i + 1));
        i += 1;
    }
    i < y.len()
}

/// Whether each text comes before the ones behind it.
pub open spec fn ordered(s: Seq<Seq<char>>) -> bool {
    forall|i: int, j: int| 0 <= i < j < s.len() ==> before(#[trigger] s[i], #[trigger] s[j])
}

/// Whether `r` is the texts of `s` in order, each once.
pub open spec fn is_ordered_set(s: Seq<Seq<char>>, r: Seq<Seq<char>>) -> bool {
    &&& ordered(r)
    &&& forall|t: Seq<char>| #[trigger] r.contains(t) <==> s.contains(t)
}

/// The texts in order, each once.
pub fn sorted_unique(v: &Vec<String>) -> (r: Vec<String>)
    ensures
        is_ordered_set(texts(v@), texts(r@)),
{
    let mut out: Vec<String> = Vec::new();
    let mut i: usize = 0;
    let ghost all = texts(v@);
    while i < v.len()
        invariant
            i <= v@.len(),
            all == texts(v@),
            is_ordered_set(all.take(i as int), texts(out@)),
        decreases v@.len() - i,
    {
        let ghost s = all.take(i as int);
        let ghost o = texts(out@);
        let t = v[i].as_str();
        let mut p: usize = 0;
        while p < out.len() && comes_before(&out[p], t)
            invariant
                p <= out@.len(),
                o == texts(out@),
                forall|k: int| 0 <= k < p ==> before(#[trigger] o[k], t@),
            ensures
                p <= out@.len(),
                forall|k: int| 0 <= k < p ==> before(#[trigger] o[k], t@),
                p < out@.len() ==> !before(o[p as int], t@),
            decreases out@.len() - p,
        {
            assert(o[p as int] == out@[p as int]@);
            p += 1;
        }
        let found = p < out.len() && crate::text::same(&out[p], t);
        if !found {
            let copy = t.to_owned();
            out.insert(p, copy);
            proof {
                let q = texts(out@);
                assert(q =~= o.insert(p as int, t@));
                if p < o.len() {
                    one_comes_first(o[p as int], t@);
                }
                assert forall|k: int| p <= k < o.len() implies before(t@, #[trigger] o[k]) by {
                    if k > p {
                        assert(before(o[p as int], o[k]));
                        before_passes_on(t@, o[p as int], o[k]);
                    }
                }
                assert forall|a: int, b: int| 0 <= a < b < q.len() implies before(#[trigger] q[a], #[trigger] q[b]) by {
                    let a0 = if a < p { a } else { a - 1 };
                    let b0 = if b < p { b } else { b - 1 };
                    if a != p && b != p {
                        assert(q[a] == o[a0] && q[b] == o[b0]);
                        assert(before(o[a0], o[b0]));
                    } else if a == p {
                        assert(q[b] == o[b0]);
                    } else {
                        assert(q[a] == o[a0]);
                    }
                }
            }
        }
        proof {
            let q = texts(out@);
            let next = all.take(i + 1);
            assert(next =~= s.push(t@));
            assert forall|x: Seq<char>| #[trigger] q.contains(x) <==> next.contains(x) by {
                if next.contains(x) {
                    let k = choose|k: int| 0 <= k < next.len() && next[k] == x;
                    if k < s.len() {
                        assert(s[k] == x);
                        assert(s.contains(x));
                        assert(o.contains(x));
                        let m = choose|m: int| 0 <= m < o.len() && o[m] == x;
                        if found {
                            assert(q[m] == x);
                        } else if m < p {
                            assert(q[m] == x);
                        } else {
                            assert(q[m + 1] == x);
                        }
                    } else {
                        assert(q[p as int] == t@);
                    }
                }
                if q.contains(x) {
                    let m = choose|m: int| 0 <= m < q.len() && q[m] == x;
                    if !found && m == p {
                        assert(next[s.len() as int] == x);
                    } else {
                        let m0 = if found || m < p { m } else { m - 1 };
                        assert(o[m0] == x);
                        assert(o.contains(x));
                        assert(s.contains(x));
                        let k = choose|k: int| 0 <= k < s.len() && s[k] == x;
                        assert(next[k] == x);
                    }
                }
            }
        }
        i += 1;
    }
    assert(all.take(i as int) =~= all);
    out
}

} // verus!
