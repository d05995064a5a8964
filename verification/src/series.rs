//! Candles in the order of time.
use vstd::prelude::*;

use crate::candle::CandleStick;

verus! {

/// Whether the candles are in the order of time, no two at one time.
pub open spec fn in_time_order(s: Seq<CandleStick>) -> bool {
    forall|i: int, j: int| 0 <= i < j < s.len() ==> (#[trigger] s[i]).t < (#[trigger] s[j]).t
}

/// Whether a candle has this time.
pub open spec fn has_time(s: Seq<CandleStick>, t: i64) -> bool {
    exists|i: int| 0 <= i < s.len() && (#[trigger] s[i]).t == t
}

/// Whether `c` is in `s`, before every other candle of its time.
pub open spec fn is_first(s: Seq<CandleStick>, c: CandleStick) -> bool {
    exists|i: int|
        0 <= i < s.len() && #[trigger] s[i] == c && forall|j: int| 0 <= j < i ==> (#[trigger] s[j]).t != c.t
}

/// Whether `r` is `s` in the order of time, with the first candle of each time.
pub open spec fn arranged(s: Seq<CandleStick>, r: Seq<CandleStick>) -> bool {
    &&& in_time_order(r)
    &&& forall|c: CandleStick| #[trigger] r.contains(c) <==> is_first(s, c)
}

/// Whether a candle is in the span from `from` to `to`, the end left out.
pub open spec fn within(c: CandleStick, from: int, to: int) -> bool {
    0 <= c.t && from <= c.t < to
}

/// The candles of `s` in a span.
pub open spec fn span_of(s: Seq<CandleStick>, from: int, to: int) -> Seq<CandleStick> {
    s.filter(|c: CandleStick| within(c, from, to))
}

/// The candles in a span, the end left out.
pub fn candles_within(candles: &Vec<CandleStick>, from: u64, to: u64) -> (r: Vec<CandleStick>)
    ensures
        r@ == span_of(candles@, from as int, to as int),
{
    let mut r: Vec<CandleStick> = Vec::new();
    let mut i: usize = 0;
    proof {
        reveal(Seq::filter);
    }
    while i < candles.len()
        invariant
            i <= candles@.len(),
            r@ == span_of(candles@.take(i as int), from as int, to as int),
        decreases candles@.len() - i,
    {
        let c = candles[i];
        proof {
            reveal(Seq::filter);
            assert(candles@.take(i + 1).drop_last() =~= candles@.take(i as int));
        }
        if c.t >= 0 && c.t as u64 >= from && (c.t as u64) < to {
            r.push(c);
        }
        i += 1;
    }
    assert(candles@.take(i as int) =~= candles@);
    r
}

pub proof fn lemma_picked(s: Seq<CandleStick>, pick: spec_fn(CandleStick) -> bool)
    ensures
        in_time_order(s) ==> in_time_order(s.filter(pick)),
        forall|c: CandleStick| #[trigger] s.filter(pick).contains(c) <==> s.contains(c) && pick(c),
    decreases s.len(),
{
    reveal(Seq::filter);
    let r = s.filter(pick);
    if s.len() > 0 {
        let d = s.drop_last();
        let rd = d.filter(pick);
        let last = s.last();
        lemma_picked(d, pick);
        assert forall|c: CandleStick| #[trigger] r.contains(c) <==> s.contains(c) && pick(c) by {
            if r.contains(c) {
                let i = choose|i: int| 0 <= i < r.len() && r[i] == c;
                if i < rd.len() {
                    assert(rd[i] == c);
                    assert(rd.contains(c));
                    let q = choose|q: int| 0 <= q < d.len() && d[q] == c;
                    assert(s[q] == c);
                } else {
                    assert(s[s.len() - 1] == c);
                }
            }
            if s.contains(c) && pick(c) {
                let i = choose|i: int| 0 <= i < s.len() && s[i] == c;
                if i < d.len() {
                    assert(d[i] == c);
                    assert(rd.contains(c));
                    let q = choose|q: int| 0 <= q < rd.len() && rd[q] == c;
                    assert(r[q] == c);
                } else {
                    assert(r[rd.len() as int] == c);
                }
            }
        }
        if in_time_order(s) {
            assert(in_time_order(d)) by {
                assert forall|i: int, j: int| 0 <= i < j < d.len() implies (#[trigger] d[i]).t < (#[trigger] d[j]).t by {
                    assert(s[i].t < s[j].t);
                }
            }
            assert forall|i: int, j: int| 0 <= i < j < r.len() implies (#[trigger] r[i]).t < (#[trigger] r[j]).t by {
                if j < rd.len() {
                    assert(rd[i].t < rd[j].t);
                } else {
                    assert(rd.contains(rd[i]));
                    let q = choose|q: int| 0 <= q < d.len() && d[q] == rd[i];
                    assert(s[q].t < s[s.len() - 1].t);
                }
            }
        }
    }
}

pub proof fn lemma_picked_first(s: Seq<CandleStick>, pick: spec_fn(CandleStick) -> bool, c: CandleStick)
    requires
        is_first(s, c),
        pick(c),
    ensures
        is_first(s.filter(pick), c),
    decreases s.len(),
{
    reveal(Seq::filter);
    let r = s.filter(pick);
    let i = choose|i: int|
        0 <= i < s.len() && #[trigger] s[i] == c && forall|j: int| 0 <= j < i ==> (#[trigger] s[j]).t != c.t;
    let d = s.drop_last();
    let rd = d.filter(pick);
    if i < d.len() {
        assert(d[i] == c);
        assert forall|j: int| 0 <= j < i implies (#[trigger] d[j]).t != c.t by {
            assert(d[j] == s[j]);
        }
        assert(is_first(d, c));
        lemma_picked_first(d, pick, c);
        let k = choose|k: int|
            0 <= k < rd.len() && #[trigger] rd[k] == c && forall|j: int| 0 <= j < k ==> (#[trigger] rd[j]).t != c.t;
        assert(r[k] == c);
        assert forall|j: int| 0 <= j < k implies (#[trigger] r[j]).t != c.t by {
            assert(r[j] == rd[j]);
        }
        assert(is_first(r, c));
    } else {
        assert(c == s.last());
        assert(r == rd.push(c));
        lemma_picked(d, pick);
        assert forall|j: int| 0 <= j < rd.len() implies (#[trigger] r[j]).t != c.t by {
            assert(r[j] == rd[j]);
            assert(rd.contains(rd[j]));
            let q = choose|q: int| 0 <= q < d.len() && d[q] == rd[j];
            assert(s[q] == d[q]);
        }
        assert(r[rd.len() as int] == c);
        assert(is_first(r, c));
    }
}

/// What is in a span of an ordered series is in order, and is the candles of
/// the series that lie in it.
pub proof fn spans_keep_order(s: Seq<CandleStick>, from: int, to: int)
    requires
        in_time_order(s),
    ensures
        in_time_order(span_of(s, from, to)),
        forall|c: CandleStick| #[trigger] span_of(s, from, to).contains(c) <==> s.contains(c) && within(c, from, to),
    decreases s.len(),
{
    reveal(Seq::filter);
    let r = span_of(s, from, to);
    if s.len() > 0 {
        let d = s.drop_last();
        assert forall|i: int, j: int| 0 <= i < j < d.len() implies (#[trigger] d[i]).t < (#[trigger] d[j]).t by {
            assert(d[i] == s[i] && d[j] == s[j]);
        }
        spans_keep_order(d, from, to);
        let rd = span_of(d, from, to);
        let last = s.last();
        assert forall|c: CandleStick| d.contains(c) implies #[trigger] s.contains(c) && c.t < last.t by {
            let i = choose|i: int| 0 <= i < d.len() && d[i] == c;
            assert(s[i] == c);
            assert(s[i].t < s[s.len() - 1].t);
        }
        if within(last, from, to) {
            assert(r == rd.push(last));
            assert forall|i: int, j: int| 0 <= i < j < r.len() implies (#[trigger] r[i]).t < (#[trigger] r[j]).t by {
                if j == rd.len() {
                    assert(rd.contains(rd[i]));
                    assert(s.contains(rd[i]));
                }
            }
        } else {
            assert(r == rd);
        }
        assert forall|c: CandleStick| #[trigger] r.contains(c) <==> s.contains(c) && within(c, from, to) by {
            if r.contains(c) {
                let i = choose|i: int| 0 <= i < r.len() && r[i] == c;
                if i < rd.len() {
                    assert(rd[i] == c);
                    assert(rd.contains(c));
                    assert(s.contains(c));
                } else {
                    assert(c == last);
                    assert(s[s.len() - 1] == c);
                }
            }
            if s.contains(c) && within(c, from, to) {
                let i = choose|i: int| 0 <= i < s.len() && s[i] == c;
                if i < d.len() {
                    assert(d[i] == c);
                    assert(d.contains(c));
                    assert(rd.contains(c));
                    let k = choose|k: int| 0 <= k < rd.len() && rd[k] == c;
                    assert(r[k] == c);
                } else {
                    assert(r[rd.len() as int] == c);
                }
            }
        }
    }
}

/// Two series in order with the same candles are the same.
pub proof fn an_ordered_series_is_its_candles(a: Seq<CandleStick>, b: Seq<CandleStick>)
    requires
        in_time_order(a),
        in_time_order(b),
        forall|c: CandleStick| #[trigger] a.contains(c) <==> b.contains(c),
    ensures
        a == b,
    decreases a.len(),
{
    if a.len() == 0 {
        if b.len() > 0 {
            assert(b.contains(b[0]));
            assert(a.contains(b[0]));
        }
        assert(a =~= b);
    } else {
        assert(a.contains(a[0]));
        assert(b.contains(a[0]));
        let la = a.last();
        assert(a.contains(la)) by {
            assert(a[a.len() - 1] == la);
        }
        assert(b.contains(la));
        let k = choose|k: int| 0 <= k < b.len() && b[k] == la;
        let lb = b.last();
        assert(b.contains(lb)) by {
            assert(b[b.len() - 1] == lb);
        }
        assert(a.contains(lb));
        let m = choose|m: int| 0 <= m < a.len() && a[m] == lb;
        assert(la == lb) by {
            if k < b.len() - 1 {
                assert(b[k].t < b[b.len() - 1].t);
                if m < a.len() - 1 {
                    assert(a[m].t < a[a.len() - 1].t);
                }
            }
        }
        let da = a.drop_last();
        let db = b.drop_last();
        assert forall|c: CandleStick| #[trigger] da.contains(c) <==> db.contains(c) by {
            if da.contains(c) {
                let i = choose|i: int| 0 <= i < da.len() && da[i] == c;
                assert(a[i] == c);
                assert(a[i].t < a[a.len() - 1].t);
                assert(a.contains(c));
                assert(b.contains(c));
                let j = choose|j: int| 0 <= j < b.len() && b[j] == c;
                assert(j < b.len() - 1);
                assert(db[j] == c);
            }
            if db.contains(c) {
                let i = choose|i: int| 0 <= i < db.len() && db[i] == c;
                assert(b[i] == c);
                assert(b[i].t < b[b.len() - 1].t);
                assert(b.contains(c));
                assert(a.contains(c));
                let j = choose|j: int| 0 <= j < a.len() && a[j] == c;
                assert(j < a.len() - 1);
                assert(da[j] == c);
            }
        }
        assert forall|i: int, j: int| 0 <= i < j < da.len() implies (#[trigger] da[i]).t < (#[trigger] da[j]).t by {
            assert(a[i].t < a[j].t);
        }
        assert forall|i: int, j: int| 0 <= i < j < db.len() implies (#[trigger] db[i]).t < (#[trigger] db[j]).t by {
            assert(b[i].t < b[j].t);
        }
        an_ordered_series_is_its_candles(da, db);
        assert(a =~= da.push(la));
        assert(b =~= db.push(lb));
    }
}

/// Puts a candle into an ordered series, unless one of its time is there.
pub fn insert_candle(v: &mut Vec<CandleStick>, c: CandleStick)
    requires
        in_time_order(old(v)@),
    ensures
        in_time_order(final(v)@),
        has_time(old(v)@, c.t) ==> final(v)@ == old(v)@,
        !has_time(old(v)@, c.t) ==> forall|d: CandleStick| #[trigger]
            final(v)@.contains(d) <==> old(v)@.contains(d) || d == c,
{
    let ghost s = v@;
    let mut i: usize = v.len();
    while i > 0 && v[i - 1].t > c.t
        invariant
            v@ == s,
            i <= s.len(),
            in_time_order(s),
            forall|k: int| i <= k < s.len() ==> (#[trigger] s[k]).t > c.t,
        decreases i,
    {
        i -= 1;
    }
    if i > 0 && v[i - 1].t == c.t {
        assert(s[i - 1].t == c.t);
        return;
    }
    proof {
        assert forall|k: int| 0 <= k < i implies (#[trigger] s[k]).t < c.t by {
            if k < i - 1 {
                assert(s[k].t < s[i - 1].t);
            }
        }
        assert(!has_time(s, c.t));
    }
    v.insert(i, c);
    proof {
        let r = v@;
        assert(r == s.insert(i as int, c));
        assert forall|a: int, b: int| 0 <= a < b < r.len() implies (#[trigger] r[a]).t < (#[trigger] r[b]).t by {
            let a2 = if a < i { a } else { a - 1 };
            let b2 = if b < i { b } else { b - 1 };
            if a != i {
                assert(r[a] == s[a2]);
            }
            if b != i {
                assert(r[b] == s[b2]);
            }
        }
        assert forall|d: CandleStick| #[trigger] r.contains(d) <==> s.contains(d) || d == c by {
            if r.contains(d) {
                let k = choose|k: int| 0 <= k < r.len() && r[k] == d;
                if k < i {
                    assert(s[k] == d);
                } else if k > i {
                    assert(s[k - 1] == d);
                }
            }
            if s.contains(d) {
                let k = choose|k: int| 0 <= k < s.len() && s[k] == d;
                if k < i {
                    assert(r[k] == d);
                } else {
                    assert(r[k + 1] == d);
                }
            }
            assert(r[i as int] == c);
        }
    }
}

proof fn lemma_first_times(s: Seq<CandleStick>, r: Seq<CandleStick>, t: i64)
    requires
        arranged(s, r),
    ensures
        has_time(r, t) <==> has_time(s, t),
{
    if has_time(r, t) {
        let i = choose|i: int| 0 <= i < r.len() && (#[trigger] r[i]).t == t;
        assert(r.contains(r[i]));
        assert(is_first(s, r[i]));
    }
    if has_time(s, t) {
        let i = choose|i: int| 0 <= i < s.len() && (#[trigger] s[i]).t == t;
        lemma_earliest(s, t, i);
        let c = choose|c: CandleStick| #[trigger] is_first(s, c) && c.t == t;
        assert(r.contains(c));
        let k = choose|k: int| 0 <= k < r.len() && r[k] == c;
        assert(r[k].t == t);
    }
}

proof fn lemma_earliest(s: Seq<CandleStick>, t: i64, i: int)
    requires
        0 <= i < s.len(),
        s[i].t == t,
    ensures
        exists|c: CandleStick| #[trigger] is_first(s, c) && c.t == t,
    decreases i,
{
    if exists|j: int| 0 <= j < i && (#[trigger] s[j]).t == t {
        let j = choose|j: int| 0 <= j < i && (#[trigger] s[j]).t == t;
        lemma_earliest(s, t, j);
    } else {
        assert(is_first(s, s[i]));
    }
}

/// Adds candles to an ordered series; where two are of one time, the earlier
/// one stays.
pub fn merge_candles(v: &mut Vec<CandleStick>, more: &Vec<CandleStick>)
    requires
        in_time_order(old(v)@),
    ensures
        arranged(old(v)@ + more@, final(v)@),
{
    let ghost s = v@;
    let mut i: usize = 0;
    proof {
        lemma_arranged_self(s);
        assert(s + more@.take(0) =~= s);
    }
    while i < more.len()
        invariant
            i <= more@.len(),
            arranged(s + more@.take(i as int), v@),
        decreases more@.len() - i,
    {
        let ghost before = s + more@.take(i as int);
        let ghost r = v@;
        let c = more[i];
        insert_candle(v, c);
        proof {
            let after = s + more@.take(i + 1);
            assert(after =~= before.push(c));
            lemma_first_times(before, r, c.t);
            assert forall|d: CandleStick| #[trigger] v@.contains(d) <==> is_first(after, d) by {
                if is_first(before, d) {
                    let k = choose|k: int|
                        0 <= k < before.len() && #[trigger] before[k] == d && forall|j: int|
                            0 <= j < k ==> (#[trigger] before[j]).t != d.t;
                    assert(after[k] == d);
                    assert forall|j: int| 0 <= j < k implies (#[trigger] after[j]).t != d.t by {
                        assert(after[j] == before[j]);
                    }
                    assert(is_first(after, d));
                }
                if is_first(after, d) {
                    let k = choose|k: int|
                        0 <= k < after.len() && #[trigger] after[k] == d && forall|j: int|
                            0 <= j < k ==> (#[trigger] after[j]).t != d.t;
                    if k < before.len() {
                        assert(before[k] == d);
                        assert forall|j: int| 0 <= j < k implies (#[trigger] before[j]).t != d.t by {
                            assert(after[j] == before[j]);
                        }
                        assert(is_first(before, d));
                    } else {
                        assert(d == c);
                        if has_time(before, c.t) {
                            let j = choose|j: int| 0 <= j < before.len() && (#[trigger] before[j]).t == c.t;
                            assert(after[j] == before[j]);
                        }
                    }
                }
                if !has_time(before, c.t) && d == c {
                    assert(after[before.len() as int] == c);
                    assert forall|j: int| 0 <= j < before.len() implies (#[trigger] after[j]).t != c.t by {
                        assert(after[j] == before[j]);
                    }
                    assert(is_first(after, c));
                }
            }
        }
        i += 1;
    }
    assert(more@.take(i as int) =~= more@);
}

proof fn lemma_arranged_self(s: Seq<CandleStick>)
    requires
        in_time_order(s),
    ensures
        arranged(s, s),
{
    assert forall|c: CandleStick| #[trigger] s.contains(c) <==> is_first(s, c) by {
        if s.contains(c) {
            let i = choose|i: int| 0 <= i < s.len() && s[i] == c;
            assert forall|j: int| 0 <= j < i implies (#[trigger] s[j]).t != c.t by {
                assert(s[j].t < s[i].t);
            }
            assert(is_first(s, c));
        }
    }
}

} // verus!
