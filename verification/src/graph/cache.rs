//! A bounded store of compiled predictors, by the fingerprint of the genome.
use vstd::prelude::*;

verus! {

/// The most predictors that are kept.
pub const PREDICTOR_CACHE_CAPACITY: usize = 32;

/// Predictors in the order in which they were stored; the oldest leaves first.
pub struct CompiledPredictorCache<M> {
    pub entries: Vec<(u64, M)>,
}

/// Whether an entry has this key.
pub open spec fn has_key<M>(s: Seq<(u64, M)>, key: u64) -> bool {
    exists|i: int| 0 <= i < s.len() && (#[trigger] s[i]).0 == key
}

/// `s` without its entry of this key.
pub open spec fn without_key<M>(s: Seq<(u64, M)>, key: u64) -> Seq<(u64, M)> {
    s.filter(|e: (u64, M)| e.0 != key)
}

impl<M> CompiledPredictorCache<M> {
    /// No key occurs twice, and there are no more entries than the capacity.
    pub open spec fn inv(self) -> bool {
        &&& self.entries@.len() <= PREDICTOR_CACHE_CAPACITY
        &&& forall|i: int, j: int|
            0 <= i < j < self.entries@.len() ==> (#[trigger] self.entries@[i]).0 != (#[trigger] self.entries@[j]).0
    }

    /// An empty cache.
    pub fn new() -> (r: CompiledPredictorCache<M>)
        ensures
            r.inv(),
            r.entries@.len() == 0,
    {
        CompiledPredictorCache { entries: Vec::new() }
    }

    /// The predictor stored under `key`.
    pub fn get(&self, key: u64) -> (r: Option<&M>)
        requires
            self.inv(),
        ensures
            r is Some <==> has_key(self.entries@, key),
            r matches Some(m) ==> exists|i: int| 0 <= i < self.entries@.len() && #[trigger] self.entries@[i] == (key, *m),
    {
        let mut i: usize = 0;
        while i < self.entries.len()
            invariant
                i <= self.entries@.len(),
                forall|k: int| 0 <= k < i ==> (#[trigger] self.entries@[k]).0 != key,
            decreases self.entries@.len() - i,
        {
            if self.entries[i].0 == key {
                assert(self.entries@[i as int] == (key, self.entries@[i as int].1));
                return Some(&self.entries[i].1);
            }
            i += 1;
        }
        None
    }

    /// What `put` leaves: the entry at the end, any earlier one of its key gone,
    /// and the oldest gone where there would be too many.
    pub open spec fn after_put(s: Seq<(u64, M)>, key: u64, model: M) -> Seq<(u64, M)> {
        let all = without_key(s, key).push((key, model));
        if all.len() > PREDICTOR_CACHE_CAPACITY {
            all.skip(all.len() - PREDICTOR_CACHE_CAPACITY)
        } else {
            all
        }
    }

    /// Stores a predictor.
    pub fn put(&mut self, key: u64, model: M)
        requires
            old(self).inv(),
        ensures
            final(self).inv(),
            final(self).entries@ == Self::after_put(old(self).entries@, key, model),
    {
        let ghost s0 = self.entries@;
        let mut i: usize = 0;
        while i < self.entries.len() && self.entries[i].0 != key
            invariant
                i <= self.entries@.len(),
                self.entries@ == s0,
                forall|k: int| 0 <= k < i ==> (#[trigger] s0[k]).0 != key,
            decreases self.entries@.len() - i,
        {
            i += 1;
        }
        if i < self.entries.len() {
            self.entries.remove(i);
            proof {
                lemma_filter_one(s0, key, i as int);
            }
        } else {
            proof {
                lemma_filter_none(s0, key);
            }
        }
        let ghost kept = self.entries@;
        assert(kept == without_key(s0, key));
        assert forall|k: int| 0 <= k < kept.len() implies (#[trigger] kept[k]).0 != key by {
            if i < s0.len() {
                if k < i {
                    assert(kept[k] == s0[k]);
                } else {
                    assert(kept[k] == s0[k + 1]);
                    assert(s0[i as int].0 != s0[k + 1].0);
                }
            }
        }
        self.entries.push((key, model));
        if self.entries.len() > PREDICTOR_CACHE_CAPACITY {
            self.entries.remove(0);
            assert(self.entries@ =~= Self::after_put(s0, key, model));
        }
    }
}

proof fn lemma_filter_none<M>(s: Seq<(u64, M)>, key: u64)
    requires
        forall|k: int| 0 <= k < s.len() ==> (#[trigger] s[k]).0 != key,
    ensures
        without_key(s, key) == s,
    decreases s.len(),
{
    reveal(Seq::filter);
    if s.len() > 0 {
        lemma_filter_none(s.drop_last(), key);
        assert(s.drop_last().push(s.last()) =~= s);
    } else {
        assert(without_key(s, key) =~= s);
    }
}

proof fn lemma_filter_one<M>(s: Seq<(u64, M)>, key: u64, at: int)
    requires
        0 <= at < s.len(),
        s[at].0 == key,
        forall|i: int, j: int| 0 <= i < j < s.len() ==> (#[trigger] s[i]).0 != (#[trigger] s[j]).0,
    ensures
        without_key(s, key) == s.remove(at),
    decreases s.len(),
{
    reveal(Seq::filter);
    if at == s.len() - 1 {
        assert forall|k: int| 0 <= k < s.len() - 1 implies (#[trigger] s.drop_last()[k]).0 != key by {
            assert(s[k].0 != s[at].0);
        }
        lemma_filter_none(s.drop_last(), key);
        assert(s.remove(at) =~= s.drop_last());
    } else {
        assert(s[at].0 != s[s.len() - 1].0);
        assert forall|i: int, j: int| 0 <= i < j < s.drop_last().len() implies (#[trigger] s.drop_last()[i]).0 != (
        #[trigger] s.drop_last()[j]).0 by {
            assert(s[i].0 != s[j].0);
        }
        lemma_filter_one(s.drop_last(), key, at);
        assert(s.remove(at) =~= s.drop_last().remove(at).push(s.last()));
    }
}

proof fn lemma_without<M>(s: Seq<(u64, M)>, key: u64)
    ensures
        without_key(s, key).len() <= s.len(),
        forall|i: int| 0 <= i < without_key(s, key).len() ==> (#[trigger] without_key(s, key)[i]).0 != key,
    decreases s.len(),
{
    reveal(Seq::filter);
    if s.len() > 0 {
        let d = s.drop_last();
        lemma_without(d, key);
        let r = without_key(s, key);
        assert forall|i: int| 0 <= i < r.len() implies (#[trigger] r[i]).0 != key by {
            if i < without_key(d, key).len() {
                assert(r[i] == without_key(d, key)[i]);
            }
        }
    }
}

/// A predictor that was just stored is the one found under its key, and no more
/// predictors are kept than there is room for.
pub proof fn stored_predictor_is_found<M>(c: CompiledPredictorCache<M>, key: u64, model: M)
    requires
        c.inv(),
    ensures
        ({
            let after = CompiledPredictorCache::<M>::after_put(c.entries@, key, model);
            &&& has_key(after, key)
            &&& forall|i: int| 0 <= i < after.len() && (#[trigger] after[i]).0 == key ==> after[i].1 == model
            &&& after.len() <= PREDICTOR_CACHE_CAPACITY
        }),
{
    let s = c.entries@;
    let kept = without_key(s, key);
    lemma_without(s, key);
    let all = kept.push((key, model));
    let after = CompiledPredictorCache::<M>::after_put(s, key, model);
    let drop = all.len() - after.len();
    assert(after.last() == (key, model));
    assert(after[after.len() - 1].0 == key);
    assert forall|i: int| 0 <= i < after.len() && (#[trigger] after[i]).0 == key implies after[i].1 == model by {
        assert(after[i] == all[i + drop]);
        if i + drop < kept.len() {
            assert(kept[i + drop].0 != key);
        }
    }
}

} // verus!
