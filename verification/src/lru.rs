//! A bounded map that forgets what was used longest ago.
use vstd::prelude::*;

verus! {

/// Values by number, in the order of their last use; the first leaves first.
pub struct LruCache<V> {
    pub entries: Vec<(u64, V)>,
    pub capacity: usize,
}

/// Whether an entry has this key.
pub open spec fn holds_key<V>(s: Seq<(u64, V)>, key: u64) -> bool {
    exists|i: int| 0 <= i < s.len() && (#[trigger] s[i]).0 == key
}

/// The value of this key.
pub open spec fn value_of<V>(s: Seq<(u64, V)>, key: u64) -> V {
    s[choose|i: int| 0 <= i < s.len() && (#[trigger] s[i]).0 == key].1
}

/// Whether no key occurs twice.
pub open spec fn distinct_keys<V>(s: Seq<(u64, V)>) -> bool {
    forall|i: int, j: int| 0 <= i < j < s.len() ==> (#[trigger] s[i]).0 != (#[trigger] s[j]).0
}

/// Where this key is, or the length where it is not there.
pub open spec fn place_of<V>(s: Seq<(u64, V)>, key: u64) -> int {
    if holds_key(s, key) {
        choose|i: int| 0 <= i < s.len() && (#[trigger] s[i]).0 == key
    } else {
        s.len() as int
    }
}

/// `s` without the entry of this key.
pub open spec fn dropped<V>(s: Seq<(u64, V)>, key: u64) -> Seq<(u64, V)> {
    if holds_key(s, key) {
        s.remove(place_of(s, key))
    } else {
        s
    }
}

/// `s` after `value` was stored under `key`.
pub open spec fn stored<V>(s: Seq<(u64, V)>, capacity: int, key: u64, value: V) -> Seq<(u64, V)> {
    let all = dropped(s, key).push((key, value));
    if all.len() > capacity {
        all.remove(0)
    } else {
        all
    }
}

/// `s` after `values` were stored in turn, the first under `first` and each next
/// one under the next key.
pub open spec fn stored_in_turn<V>(s: Seq<(u64, V)>, capacity: int, first: int, values: Seq<V>) -> Seq<(u64, V)>
    decreases values.len(),
{
    if values.len() == 0 {
        s
    } else {
        stored(
            stored_in_turn(s, capacity, first, values.drop_last()),
            capacity,
            (first + values.len() - 1) as u64,
            values.last(),
        )
    }
}

/// `s` after the value of `key` was used.
pub open spec fn used<V>(s: Seq<(u64, V)>, key: u64) -> Seq<(u64, V)> {
    if holds_key(s, key) {
        dropped(s, key).push(s[place_of(s, key)])
    } else {
        s
    }
}

impl<V> LruCache<V> {
    /// No key occurs twice, and there are no more entries than the capacity.
    pub open spec fn inv(self) -> bool {
        &&& self.entries@.len() <= self.capacity
        &&& distinct_keys(self.entries@)
    }

    /// Whether a value is kept under this key.
    pub open spec fn has(self, key: u64) -> bool {
        holds_key(self.entries@, key)
    }

    /// The value that is kept under this key.
    pub open spec fn at(self, key: u64) -> V {
        value_of(self.entries@, key)
    }

    /// An empty map for at most `capacity` values.
    pub fn new(capacity: usize) -> (r: LruCache<V>)
        ensures
            r.inv(),
            r.entries@.len() == 0,
            r.capacity == capacity,
            forall|k: u64| !#[trigger] r.has(k),
    {
        LruCache { entries: Vec::new(), capacity }
    }

    fn place(&self, key: u64) -> (i: usize)
        requires
            self.inv(),
        ensures
            i <= self.entries@.len(),
            i == place_of(self.entries@, key),
            i < self.entries@.len() <==> self.has(key),
            i < self.entries@.len() ==> self.entries@[i as int] == (key, self.at(key)),
    {
        let mut i: usize = 0;
        while i < self.entries.len() && self.entries[i].0 != key
            invariant
                self.inv(),
                i <= self.entries@.len(),
                forall|k: int| 0 <= k < i ==> (#[trigger] self.entries@[k]).0 != key,
            decreases self.entries@.len() - i,
        {
            i += 1;
        }
        proof {
            if i < self.entries@.len() {
                assert(self.entries@[i as int].0 == key);
                let p = choose|p: int| 0 <= p < self.entries@.len() && (#[trigger] self.entries@[p]).0 == key;
                assert(self.entries@[p].0 == self.entries@[i as int].0);
                assert(p == i);
            }
        }
        i
    }

    /// The value of a key. The order of use stays.
    pub fn peek(&self, key: u64) -> (r: Option<&V>)
        requires
            self.inv(),
        ensures
            r is Some <==> self.has(key),
            r matches Some(v) ==> *v == self.at(key),
    {
        let i = self.place(key);
        if i < self.entries.len() {
            Some(&self.entries[i].1)
        } else {
            None
        }
    }

    /// Marks a key as the last one used.
    pub fn touch(&mut self, key: u64)
        requires
            old(self).inv(),
        ensures
            final(self).inv(),
            final(self).capacity == old(self).capacity,
            final(self).entries@ == used(old(self).entries@, key),
            forall|k: u64| #[trigger] final(self).has(k) <==> old(self).has(k),
            forall|k: u64| old(self).has(k) ==> #[trigger] final(self).at(k) == old(self).at(k),
    {
        let ghost s0 = self.entries@;
        let i = self.place(key);
        if i < self.entries.len() {
            let e = self.entries.remove(i);
            self.entries.push(e);
            proof {
                let d = s0.remove(i as int);
                lemma_removed(s0, i as int);
                lemma_pushed(d, key, e.1);
                assert(self.entries@ =~= used(s0, key));
                lemma_lookups(s0, i as int, e.1);
                assert forall|k: u64| self.has(k) <==> #[trigger] holds_key(s0, k) by {}
                assert forall|k: u64| holds_key(s0, k) implies #[trigger] self.at(k) == value_of(s0, k) by {
                    if k == key {
                        lemma_value(s0, i as int);
                    }
                }
            }
        }
    }

    /// Takes out the value of a key.
    pub fn take(&mut self, key: u64) -> (r: Option<V>)
        requires
            old(self).inv(),
        ensures
            final(self).inv(),
            final(self).capacity == old(self).capacity,
            final(self).entries@ == dropped(old(self).entries@, key),
            r is Some <==> old(self).has(key),
            r matches Some(v) ==> v == old(self).at(key),
            forall|k: u64| #[trigger] final(self).has(k) <==> old(self).has(k) && k != key,
            forall|k: u64| old(self).has(k) && k != key ==> #[trigger] final(self).at(k) == old(self).at(k),
    {
        let ghost s0 = self.entries@;
        let i = self.place(key);
        if i < self.entries.len() {
            let e = self.entries.remove(i);
            proof {
                lemma_removed(s0, i as int);
            }
            Some(e.1)
        } else {
            assert forall|k: u64| #[trigger] self.has(k) implies k != key by {}
            None
        }
    }

    /// Stores a value. Where there would be too many, the one used longest ago
    /// leaves; without any room, that is the one just stored.
    pub fn put(&mut self, key: u64, value: V)
        requires
            old(self).inv(),
        ensures
            final(self).inv(),
            final(self).capacity == old(self).capacity,
            final(self).entries@ == stored(old(self).entries@, old(self).capacity as int, key, value),
            old(self).capacity > 0 ==> final(self).has(key) && final(self).at(key) == value,
            old(self).capacity == 0 ==> !final(self).has(key),
            forall|k: u64| k != key && #[trigger] final(self).has(k) ==> old(self).has(k) && final(self).at(k) == old(self).at(k),
    {
        let ghost s0 = self.entries@;
        let gone = self.take(key);
        let ghost d = self.entries@;
        self.entries.push((key, value));
        proof {
            lemma_pushed(d, key, value);
        }
        let ghost p = self.entries@;
        if self.entries.len() > self.capacity {
            let first = self.entries.remove(0);
            proof {
                assert(p.last() == (key, value));
                lemma_removed(p, 0);
                assert(self.entries@ =~= stored(s0, self.capacity as int, key, value));
            }
        } else {
            assert(self.entries@ =~= stored(s0, self.capacity as int, key, value));
        }
        proof {
            let q = self.entries@;
            if self.capacity > 0 {
                assert(q[q.len() - 1] == (key, value));
                lemma_value(q, q.len() - 1);
            }
        }
    }
}

proof fn lemma_value<V>(s: Seq<(u64, V)>, i: int)
    requires
        distinct_keys(s),
        0 <= i < s.len(),
    ensures
        holds_key(s, s[i].0),
        value_of(s, s[i].0) == s[i].1,
{
    let key = s[i].0;
    assert(s[i].0 == key);
    let p = choose|p: int| 0 <= p < s.len() && (#[trigger] s[p]).0 == key;
    assert(s[p].0 == s[i].0);
    assert(p == i);
}

proof fn lemma_removed<V>(s: Seq<(u64, V)>, i: int)
    requires
        distinct_keys(s),
        0 <= i < s.len(),
    ensures
        distinct_keys(s.remove(i)),
        forall|k: u64| #[trigger] holds_key(s.remove(i), k) <==> holds_key(s, k) && k != s[i].0,
        forall|k: u64| holds_key(s, k) && k != s[i].0 ==> #[trigger] value_of(s.remove(i), k) == value_of(s, k),
{
    let r = s.remove(i);
    assert forall|a: int, b: int| 0 <= a < b < r.len() implies (#[trigger] r[a]).0 != (#[trigger] r[b]).0 by {
        let a2 = if a < i { a } else { a + 1 };
        let b2 = if b < i { b } else { b + 1 };
        assert(r[a] == s[a2] && r[b] == s[b2]);
        assert(s[a2].0 != s[b2].0);
    }
    assert forall|k: u64| #[trigger] holds_key(r, k) <==> holds_key(s, k) && k != s[i].0 by {
        if holds_key(r, k) {
            let a = choose|a: int| 0 <= a < r.len() && (#[trigger] r[a]).0 == k;
            let a2 = if a < i { a } else { a + 1 };
            assert(r[a] == s[a2]);
            assert(s[a2].0 == k);
            assert(s[a2].0 != s[i].0) by {
                if a2 < i {
                    assert(s[a2].0 != s[i].0);
                } else {
                    assert(s[i].0 != s[a2].0);
                }
            }
        }
        if holds_key(s, k) && k != s[i].0 {
            let b = choose|b: int| 0 <= b < s.len() && (#[trigger] s[b]).0 == k;
            let b2 = if b < i { b } else { b - 1 };
            assert(r[b2] == s[b]);
        }
    }
    assert forall|k: u64| holds_key(s, k) && k != s[i].0 implies #[trigger] value_of(r, k) == value_of(s, k) by {
        let b = choose|b: int| 0 <= b < s.len() && (#[trigger] s[b]).0 == k;
        let b2 = if b < i { b } else { b - 1 };
        assert(r[b2] == s[b]);
        lemma_value(s, b);
        lemma_value(r, b2);
    }
}

proof fn lemma_pushed<V>(s: Seq<(u64, V)>, key: u64, value: V)
    requires
        distinct_keys(s),
        !holds_key(s, key),
    ensures
        distinct_keys(s.push((key, value))),
        forall|k: u64| #[trigger] holds_key(s.push((key, value)), k) <==> holds_key(s, k) || k == key,
        forall|k: u64| holds_key(s, k) ==> #[trigger] value_of(s.push((key, value)), k) == value_of(s, k),
        value_of(s.push((key, value)), key) == value,
{
    let p = s.push((key, value));
    assert forall|a: int, b: int| 0 <= a < b < p.len() implies (#[trigger] p[a]).0 != (#[trigger] p[b]).0 by {
        assert(p[a] == s[a]);
        if b < s.len() {
            assert(p[b] == s[b]);
            assert(s[a].0 != s[b].0);
        }
    }
    assert forall|k: u64| #[trigger] holds_key(p, k) <==> holds_key(s, k) || k == key by {
        if holds_key(p, k) {
            let a = choose|a: int| 0 <= a < p.len() && (#[trigger] p[a]).0 == k;
            if a < s.len() {
                assert(s[a].0 == k);
            }
        }
        if holds_key(s, k) {
            let a = choose|a: int| 0 <= a < s.len() && (#[trigger] s[a]).0 == k;
            assert(p[a].0 == k);
        }
        if k == key {
            assert(p[s.len() as int].0 == k);
        }
    }
    assert forall|k: u64| holds_key(s, k) implies #[trigger] value_of(p, k) == value_of(s, k) by {
        let a = choose|a: int| 0 <= a < s.len() && (#[trigger] s[a]).0 == k;
        assert(p[a] == s[a]);
        lemma_value(s, a);
        lemma_value(p, a);
    }
    lemma_value(p, s.len() as int);
}

proof fn lemma_lookups<V>(s: Seq<(u64, V)>, i: int, v: V)
    requires
        distinct_keys(s),
        0 <= i < s.len(),
        s[i].1 == v,
    ensures
        forall|k: u64| #[trigger] holds_key(s.remove(i).push((s[i].0, v)), k) <==> holds_key(s, k),
{
    lemma_removed(s, i);
    lemma_pushed(s.remove(i), s[i].0, v);
    assert(s[i].0 == s[i].0);
    assert forall|k: u64| #[trigger] holds_key(s.remove(i).push((s[i].0, v)), k) <==> holds_key(s, k) by {
        if k == s[i].0 {
            assert(holds_key(s, k));
        }
    }
}

/// What was just stored is there, and the value used longest ago is the only
/// one that can have left.
pub proof fn storing_drops_the_oldest_only<V>(s: Seq<(u64, V)>, capacity: int, key: u64, value: V)
    requires
        distinct_keys(s),
        0 < capacity,
        s.len() <= capacity,
    ensures
        ({
            let after = stored(s, capacity, key, value);
            &&& after.len() <= capacity
            &&& holds_key(after, key)
            &&& value_of(after, key) == value
            &&& forall|k: u64| #[trigger] holds_key(s, k) && k != key && k != s[0].0 ==> holds_key(after, k)
            &&& forall|k: u64| #[trigger] holds_key(s, k) && (holds_key(s, key) || s.len() < capacity) ==> holds_key(after, k)
        }),
{
    let d = dropped(s, key);
    if holds_key(s, key) {
        lemma_removed(s, place_of(s, key));
    }
    let p = d.push((key, value));
    lemma_pushed(d, key, value);
    if p.len() > capacity {
        assert(d == s);
        assert(p[0] == s[0]);
        assert(p[0].0 != p[p.len() - 1].0);
        lemma_removed(p, 0);
        lemma_value(p.remove(0), p.len() - 2);
        assert(p.remove(0)[p.len() - 2] == (key, value));
    }
}

/// What was just used is not what makes room for the next value, where there is room for
/// two.
pub proof fn what_is_used_stays<V>(s: Seq<(u64, V)>, capacity: int, key: u64, other: u64, value: V)
    requires
        distinct_keys(s),
        holds_key(s, key),
        1 < capacity,
        s.len() <= capacity,
        other != key,
    ensures
        used(s, key).len() == s.len(),
        used(s, key).last().0 == key,
        holds_key(stored(used(s, key), capacity, other, value), key),
{
    let u = used(s, key);
    let last = u.len() - 1;
    assert(u[last].0 == key);
    let d = dropped(u, other);
    if holds_key(u, other) {
        let p = place_of(u, other);
        assert(u[p].0 == other);
        assert(d[d.len() - 1] == u[last]);
    }
    assert(d[d.len() - 1].0 == key);
    let all = d.push((other, value));
    let after = stored(u, capacity, other, value);
    if all.len() > capacity {
        assert(after[d.len() - 2] == all[d.len() - 1]);
    } else {
        assert(after[d.len() - 1] == d[d.len() - 1]);
    }
}

} // verus!
