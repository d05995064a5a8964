//! Candles from market data providers, with a cache in blocks of one week.
use vstd::prelude::*;

use crate::blocks::{block_start, greater_of, lesser_of, BLOCK_SECS};
use crate::candle::CandleStick;
use crate::lru::{holds_key, storing_drops_the_oldest_only, stored_in_turn, value_of, LruCache};
use crate::providers::{
    candle_url, mapped_to, profile_of, query_url, resolve_provider, resolved, QueryError, MAX_LIMIT,
};
use crate::series::{arranged, in_time_order, is_first, lemma_picked, lemma_picked_first, merge_candles};
use crate::text::same;

verus! {

/// The week that a time is in, whole weeks from the epoch counted towards it.
pub open spec fn week_of(t: int) -> int {
    if t >= 0 {
        t / BLOCK_SECS as int
    } else {
        -((-t) / BLOCK_SECS as int)
    }
}

/// Whether a candle lies at or after the start of its week. One before the epoch
/// does only where it is on the very start.
pub open spec fn reachable(c: CandleStick) -> bool {
    block_start(week_of(c.t as int)) <= c.t
}

/// Whether a candle is in a span, the end left out.
pub open spec fn timed(c: CandleStick, from: int, to: int) -> bool {
    from <= c.t < to
}

/// The candles of a week.
pub open spec fn week_group(s: Seq<CandleStick>, bid: int) -> Seq<CandleStick> {
    s.filter(|c: CandleStick| week_of(c.t as int) == bid)
}

/// Where the number of week zero is in the cache, so that those before it have
/// one too.
pub const WEEK_ZERO: u64 = 0x4000_0000_0000_0000;

/// The number under which a week is kept.
pub open spec fn week_key(bid: int) -> u64 {
    (bid + WEEK_ZERO) as u64
}

/// The week that is kept under a number.
pub open spec fn week_at(key: u64) -> int {
    key - WEEK_ZERO
}

proof fn lemma_week(t: int)
    ensures
        t >= 0 ==> block_start(week_of(t)) <= t < block_start(week_of(t) + 1) && 0 <= week_of(t),
        t < 0 ==> block_start(week_of(t) - 1) < t <= block_start(week_of(t)) && week_of(t) <= 0,
        i64::MIN <= t <= i64::MAX ==> -0x1000_0000_0000 < week_of(t) < 0x1000_0000_0000,
{
}

proof fn lemma_week_between(bid: int, from: int, to: int)
    requires
        i64::MIN <= from,
        to + BLOCK_SECS <= i64::MAX,
        week_of(from) <= bid <= week_of(to),
    ensures
        i64::MIN <= bid * BLOCK_SECS,
        bid * BLOCK_SECS + BLOCK_SECS <= i64::MAX,
{
    lemma_week(from);
    lemma_week(to);
    assert(block_start(week_of(from)) <= bid * BLOCK_SECS <= block_start(week_of(to))) by (nonlinear_arith)
        requires
            week_of(from) <= bid <= week_of(to),
    ;
}

fn week_id(t: i64) -> (r: i64)
    ensures
        r == week_of(t as int),
{
    proof {
        lemma_week(t as int);
    }
    if t >= 0 {
        (t as u64 / BLOCK_SECS) as i64
    } else {
        let back: u64 = (-(t as i128)) as u64;
        -((back / BLOCK_SECS) as i64)
    }
}

fn candles_timed(candles: &Vec<CandleStick>, from: i64, to: i64) -> (r: Vec<CandleStick>)
    ensures
        r@ == candles@.filter(|c: CandleStick| timed(c, from as int, to as int)),
{
    let ghost pick = |c: CandleStick| timed(c, from as int, to as int);
    let mut r: Vec<CandleStick> = Vec::new();
    let mut i: usize = 0;
    proof {
        reveal(Seq::filter);
    }
    while i < candles.len()
        invariant
            i <= candles@.len(),
            pick == (|c: CandleStick| timed(c, from as int, to as int)),
            r@ == candles@.take(i as int).filter(pick),
        decreases candles@.len() - i,
    {
        let c = candles[i];
        proof {
            reveal(Seq::filter);
            assert(candles@.take(i + 1).drop_last() =~= candles@.take(i as int));
            assert(candles@.take(i + 1).last() == c);
        }
        if from <= c.t && c.t < to {
            r.push(c);
        }
        i += 1;
    }
    assert(candles@.take(i as int) =~= candles@);
    r
}

fn candles_of_week(candles: &Vec<CandleStick>, bid: i64) -> (r: Vec<CandleStick>)
    ensures
        r@ == week_group(candles@, bid as int),
{
    let mut r: Vec<CandleStick> = Vec::new();
    let mut i: usize = 0;
    proof {
        reveal(Seq::filter);
    }
    while i < candles.len()
        invariant
            i <= candles@.len(),
            r@ == week_group(candles@.take(i as int), bid as int),
        decreases candles@.len() - i,
    {
        let c = candles[i];
        proof {
            reveal(Seq::filter);
            assert(candles@.take(i + 1).drop_last() =~= candles@.take(i as int));
            assert(candles@.take(i + 1).last() == c);
        }
        if week_id(c.t) == bid {
            r.push(c);
        }
        i += 1;
    }
    assert(candles@.take(i as int) =~= candles@);
    r
}

/// One week's candles, and the span of time that was asked for.
#[derive(Debug)]
pub struct CacheBlock {
    pub candles: Vec<CandleStick>,
    /// The first and the last second that was asked for.
    pub covered_range: (i64, i64),
    pub last_updated: u64,
}

impl CacheBlock {
    /// Whether its part of a span was asked for.
    pub open spec fn covers(self, bid: int, from: int, to: int) -> bool {
        &&& greater_of(from, block_start(bid)) >= self.covered_range.0
        &&& lesser_of(to, block_start(bid + 1)) <= self.covered_range.1
    }

    /// Whether its candles are in order and of the week.
    pub open spec fn sound(self, bid: int) -> bool {
        &&& in_time_order(self.candles@)
        &&& forall|i: int| 0 <= i < self.candles@.len() ==> week_of((#[trigger] self.candles@[i]).t as int) == bid
    }
}

/// A block that holds nothing, and for which nothing was asked.
pub open spec fn unasked(b: CacheBlock) -> bool {
    b.candles@.len() == 0 && b.covered_range == (i64::MAX, i64::MIN)
}

/// Whether `next` is the block `prev` after candles of a span came in.
pub open spec fn extended(
    prev: CacheBlock,
    next: CacheBlock,
    bid: int,
    candles: Seq<CandleStick>,
    query_from: int,
    query_to: int,
    now: u64,
) -> bool {
    &&& arranged(prev.candles@ + week_group(candles, bid), next.candles@)
    &&& next.covered_range.0 == lesser_of(prev.covered_range.0 as int, greater_of(query_from, block_start(bid)))
    &&& next.covered_range.1 == greater_of(prev.covered_range.1 as int, lesser_of(query_to, block_start(bid + 1)))
    &&& next.last_updated == now
}

/// Whether `next` is the block that comes of candles of a span, where `s` is what
/// was kept: from the block that was there, or from one for which nothing was
/// asked.
pub open spec fn extended_in(
    s: Seq<(u64, CacheBlock)>,
    next: CacheBlock,
    bid: int,
    candles: Seq<CandleStick>,
    query_from: int,
    query_to: int,
    now: u64,
) -> bool {
    exists|prev: CacheBlock|
        {
            &&& #[trigger] extended(prev, next, bid, candles, query_from, query_to, now)
            &&& if holds_key(s, week_key(bid)) {
                prev == value_of(s, week_key(bid))
            } else {
                unasked(prev)
            }
        }
}

/// Whether `blocks` are those that come of candles of a span, in turn from the
/// week `first` on, each from what is kept once those before it are stored.
pub open spec fn extended_in_turn(
    s: Seq<(u64, CacheBlock)>,
    capacity: int,
    first: int,
    blocks: Seq<CacheBlock>,
    candles: Seq<CandleStick>,
    query_from: int,
    query_to: int,
    now: u64,
) -> bool
    decreases blocks.len(),
{
    blocks.len() > 0 ==> {
        let before = blocks.drop_last();
        &&& extended_in_turn(s, capacity, first, before, candles, query_from, query_to, now)
        &&& extended_in(
            stored_in_turn(s, capacity, week_key(first) as int, before),
            blocks.last(),
            first + before.len(),
            candles,
            query_from,
            query_to,
            now,
        )
    }
}

/// The blocks of one symbol at one resolution.
pub struct CandleCache {
    pub lru: LruCache<CacheBlock>,
}

impl CandleCache {
    /// Every block is sound.
    pub open spec fn inv(self) -> bool {
        &&& self.lru.inv()
        &&& forall|k: u64| #[trigger] self.lru.has(k) ==> self.lru.at(k).sound(week_at(k))
    }

    /// Whether a block is there and its part of a span was asked for.
    pub open spec fn covered(self, bid: int, from: int, to: int) -> bool {
        self.lru.has(week_key(bid)) && self.lru.at(week_key(bid)).covers(bid, from, to)
    }

    /// Whether all of a span, both ends in it, was asked for.
    pub open spec fn hit(self, from: int, to: int) -> bool {
        forall|bid: int| week_of(from) <= bid <= week_of(to) ==> #[trigger] self.covered(bid, from, to)
    }

    /// Whether a candle is kept.
    pub open spec fn keeps(self, c: CandleStick) -> bool {
        &&& self.lru.has(week_key(week_of(c.t as int)))
        &&& self.lru.at(week_key(week_of(c.t as int))).candles@.contains(c)
    }

    /// Whether a candle is kept and a read of its time gives it.
    pub open spec fn offers(self, c: CandleStick) -> bool {
        self.keeps(c) && reachable(c)
    }

    /// Reads the candles of a span, both ends in it, where all of it was asked
    /// for before.
    pub fn read(&mut self, from: i64, to: i64) -> (r: Option<Vec<CandleStick>>)
        requires
            old(self).inv(),
            to + BLOCK_SECS <= i64::MAX,
        ensures
            final(self).inv(),
            final(self).lru.capacity == old(self).lru.capacity,
            forall|k: u64| #[trigger] final(self).lru.has(k) <==> old(self).lru.has(k),
            forall|k: u64| old(self).lru.has(k) ==> #[trigger] final(self).lru.at(k) == old(self).lru.at(k),
            r is Some <==> old(self).hit(from as int, to as int),
            r matches Some(v) ==> in_time_order(v@) && forall|c: CandleStick| #[trigger]
                v@.contains(c) <==> timed(c, from as int, to + 1) && old(self).offers(c),
    {
        let ghost a = *self;
        let start = week_id(from);
        let end = week_id(to);
        let mut result: Vec<CandleStick> = Vec::new();
        let mut bid: i64 = start;
        proof {
            lemma_week(from as int);
            lemma_week(to as int);
            assert forall|c: CandleStick| !(timed(c, from as int, to + 1) && a.offers(c) && week_of(c.t as int) < start) by {
                lemma_week(c.t as int);
            }
        }
        while bid <= end
            invariant
                a == *old(self),
                a.inv(),
                self.inv(),
                self.lru.capacity == a.lru.capacity,
                forall|k: u64| #[trigger] self.lru.has(k) <==> a.lru.has(k),
                forall|k: u64| a.lru.has(k) ==> #[trigger] self.lru.at(k) == a.lru.at(k),
                to + BLOCK_SECS <= i64::MAX,
                start == week_of(from as int),
                end == week_of(to as int),
                -0x1000_0000_0000 < start <= bid,
                end < 0x1000_0000_0000,
                bid <= end + 1 || bid == start,
                forall|k: int| start <= k < bid ==> #[trigger] a.covered(k, from as int, to as int),
                in_time_order(result@),
                forall|c: CandleStick| #[trigger]
                    result@.contains(c) <==> timed(c, from as int, to + 1) && a.offers(c) && week_of(c.t as int) < bid,
            decreases end + 1 - bid,
        {
            proof {
                lemma_week(from as int);
                lemma_week(to as int);
                lemma_week_between(bid as int, from as int, to as int);
            }
            let first: i64 = bid * BLOCK_SECS as i64;
            let past: i64 = first + BLOCK_SECS as i64;
            let lo: i64 = if from >= first { from } else { first };
            let hi: i64 = if to <= past { to } else { past };
            let key: u64 = (bid + WEEK_ZERO as i64) as u64;
            let mut ok = false;
            let ghost before = result@;
            match self.lru.peek(key) {
                None => {},
                Some(block) => {
                    if lo >= block.covered_range.0 && hi <= block.covered_range.1 {
                        ok = true;
                        let mut part = candles_timed(&block.candles, lo, hi + 1);
                        let ghost p = part@;
                        proof {
                            lemma_picked(block.candles@, |c: CandleStick| timed(c, lo as int, hi + 1));
                        }
                        result.append(&mut part);
                        proof {
                            lemma_read_on(a, before, p, bid as int, from as int, to as int, result@);
                        }
                    }
                },
            }
            self.lru.touch(key);
            proof {
                assert(a.covered(bid as int, from as int, to as int) == ok);
            }
            if !ok {
                return None;
            }
            bid += 1;
        }
        proof {
            assert forall|bid: int| week_of(from as int) <= bid <= week_of(to as int) implies #[trigger] a.covered(
                bid,
                from as int,
                to as int,
            ) by {}
            assert forall|c: CandleStick| #[trigger] result@.contains(c) <==> timed(c, from as int, to + 1) && a.offers(c) by {
                if timed(c, from as int, to + 1) {
                    lemma_week(c.t as int);
                    lemma_week(to as int);
                    assert(week_of(c.t as int) <= end);
                }
            }
        }
        Some(result)
    }

    /// Whether `b` is `a` after candles of a span came in: the blocks of the span
    /// are extended and stored in turn, the one used longest ago leaving where
    /// there are too many. So where the cache has room, every block of the span
    /// is extended from what it was, and no other block changes.
    pub open spec fn updated(
        a: CandleCache,
        b: CandleCache,
        candles: Seq<CandleStick>,
        query_from: int,
        query_to: int,
        now: u64,
    ) -> bool {
        let first = week_of(query_from);
        let last = week_of(query_to);
        let room = a.lru.entries@.len() + last - first < a.lru.capacity;
        &&& b.inv()
        &&& b.lru.capacity == a.lru.capacity
        &&& exists|blocks: Seq<CacheBlock>|
            {
                &&& blocks.len() == greater_of(0, last - first + 1)
                &&& b.lru.entries@ == #[trigger] stored_in_turn(
                    a.lru.entries@,
                    a.lru.capacity as int,
                    week_key(first) as int,
                    blocks,
                )
                &&& extended_in_turn(
                    a.lru.entries@,
                    a.lru.capacity as int,
                    first,
                    blocks,
                    candles,
                    query_from,
                    query_to,
                    now,
                )
            }
        &&& forall|k: u64| #[trigger]
            b.lru.has(k) && !(first <= week_at(k) <= last) ==> a.lru.has(k) && b.lru.at(k) == a.lru.at(k)
        &&& forall|k: u64| #[trigger]
            b.lru.has(k) && first <= week_at(k) <= last ==> exists|prev: CacheBlock|
                {
                    &&& #[trigger] extended(prev, b.lru.at(k), week_at(k), candles, query_from, query_to, now)
                    &&& unasked(prev) || (a.lru.has(k) && prev == a.lru.at(k))
                    &&& room && a.lru.has(k) ==> prev == a.lru.at(k)
                }
        &&& first <= last && a.lru.capacity > 0 ==> b.lru.has(week_key(last))
        &&& room ==> forall|k: u64| first <= week_at(k) <= last || a.lru.has(k) ==> #[trigger] b.lru.has(k)
    }

    /// Takes in the candles of a span, both ends in it.
    #[verifier::spinoff_prover]
    #[verifier::rlimit(60)]
    pub fn store(&mut self, candles: &Vec<CandleStick>, query_from: i64, query_to: i64, now: u64)
        requires
            old(self).inv(),
            query_to + BLOCK_SECS <= i64::MAX,
        ensures
            CandleCache::updated(*old(self), *final(self), candles@, query_from as int, query_to as int, now),
    {
        let ghost a = *self;
        let start = week_id(query_from);
        let end = week_id(query_to);
        let ghost qf = query_from as int;
        let ghost qt = query_to as int;
        let ghost room = a.lru.entries@.len() + end - start < a.lru.capacity;
        let ghost mut blocks: Seq<CacheBlock> = Seq::empty();
        let mut bid: i64 = start;
        proof {
            lemma_week(qf);
            lemma_week(qt);
        }
        while bid <= end
            invariant
                a.inv(),
                self.inv(),
                self.lru.capacity == a.lru.capacity,
                query_to + BLOCK_SECS <= i64::MAX,
                qf == query_from,
                qt == query_to,
                start == week_of(qf),
                end == week_of(qt),
                -0x1000_0000_0000 < start <= bid,
                start < 0x1000_0000_0000,
                end < 0x1000_0000_0000,
                bid <= end + 1 || bid == start,
                blocks.len() == bid - start,
                self.lru.entries@ == stored_in_turn(
                    a.lru.entries@,
                    a.lru.capacity as int,
                    week_key(start as int) as int,
                    blocks,
                ),
                extended_in_turn(a.lru.entries@, a.lru.capacity as int, start as int, blocks, candles@, qf, qt, now),
                room == (a.lru.entries@.len() + end - start < a.lru.capacity),
                room ==> self.lru.entries@.len() <= a.lru.entries@.len() + bid - start,
                forall|k: u64| #[trigger]
                    self.lru.has(k) && !(start <= week_at(k) < bid) ==> a.lru.has(k) && self.lru.at(k) == a.lru.at(k),
                forall|k: u64| #[trigger]
                    self.lru.has(k) && start <= week_at(k) < bid ==> exists|prev: CacheBlock|
                        {
                            &&& #[trigger] extended(prev, self.lru.at(k), week_at(k), candles@, qf, qt, now)
                            &&& unasked(prev) || (a.lru.has(k) && prev == a.lru.at(k))
                            &&& room && a.lru.has(k) ==> prev == a.lru.at(k)
                        },
                bid > start && a.lru.capacity > 0 ==> self.lru.has(week_key(bid - 1)),
                room ==> forall|k: u64| start <= week_at(k) < bid || a.lru.has(k) ==> #[trigger] self.lru.has(k),
            decreases end + 1 - bid,
        {
            proof {
                lemma_week(qf);
                lemma_week(qt);
                lemma_week_between(bid as int, qf, qt);
            }
            let first: i64 = bid * BLOCK_SECS as i64;
            let past: i64 = first + BLOCK_SECS as i64;
            let key: u64 = (bid + WEEK_ZERO as i64) as u64;
            let ghost before = *self;
            let mut block = match self.lru.take(key) {
                Some(b) => b,
                None => CacheBlock { candles: Vec::new(), covered_range: (i64::MAX, i64::MIN), last_updated: now },
            };
            let ghost prev = block;
            let ghost taken = *self;
            let group = candles_of_week(candles, bid);
            merge_candles(&mut block.candles, &group);
            proof {
                lemma_merge_sound(prev, candles@, bid as int, block.candles@);
            }
            let from: i64 = if query_from >= first { query_from } else { first };
            let to: i64 = if query_to <= past { query_to } else { past };
            if from < block.covered_range.0 {
                block.covered_range = (from, block.covered_range.1);
            }
            if to > block.covered_range.1 {
                block.covered_range = (block.covered_range.0, to);
            }
            block.last_updated = now;
            let ghost next = block;
            assert(extended(prev, next, bid as int, candles@, qf, qt, now));
            self.lru.put(key, block);
            proof {
                let more = blocks.push(next);
                assert(more.drop_last() =~= blocks);
                assert(extended_in(before.lru.entries@, next, bid as int, candles@, qf, qt, now));
                blocks = more;
                if taken.lru.capacity > 0 {
                    storing_drops_the_oldest_only(taken.lru.entries@, taken.lru.capacity as int, key, next);
                }
                assert forall|k: u64| #[trigger] self.lru.has(k) && start <= week_at(k) < bid + 1 implies exists|
                    prev: CacheBlock,
                |
                    {
                        &&& #[trigger] extended(prev, self.lru.at(k), week_at(k), candles@, qf, qt, now)
                        &&& unasked(prev) || (a.lru.has(k) && prev == a.lru.at(k))
                        &&& room && a.lru.has(k) ==> prev == a.lru.at(k)
                    } by {
                    if k == key {
                        if before.lru.has(key) {
                            assert(prev == a.lru.at(key));
                        } else {
                            assert(unasked(prev));
                            if room && a.lru.has(key) {
                                assert(before.lru.has(key));
                            }
                        }
                    } else {
                        assert(taken.lru.has(k));
                        assert(before.lru.has(k));
                        assert(self.lru.at(k) == before.lru.at(k));
                    }
                }
                assert forall|k: u64| #[trigger] self.lru.has(k) implies self.lru.at(k).sound(week_at(k)) by {
                    if k != key {
                        assert(taken.lru.has(k));
                        assert(before.lru.has(k));
                    }
                }
                assert forall|k: u64| #[trigger] self.lru.has(k) && !(start <= week_at(k) < bid + 1) implies a.lru.has(k)
                    && self.lru.at(k) == a.lru.at(k) by {
                    assert(taken.lru.has(k));
                    assert(before.lru.has(k));
                }
                if room {
                    assert forall|k: u64| start <= week_at(k) < bid + 1 || a.lru.has(k) implies #[trigger] self.lru.has(k) by {
                        if k != key {
                            assert(before.lru.has(k));
                            assert(taken.lru.has(k));
                        }
                    }
                }
            }
            bid += 1;
        }
    }
}

/// What was asked for once is answered from the cache: after the candles of a
/// span came in, every read inside the span is a hit, and offers each reachable
/// candle that came, unless an earlier one of its time was kept.
pub proof fn an_asked_span_is_read_back(
    a: CandleCache,
    b: CandleCache,
    candles: Seq<CandleStick>,
    query_from: int,
    query_to: int,
    now: u64,
    from: int,
    to: int,
)
    requires
        a.inv(),
        CandleCache::updated(a, b, candles, query_from, query_to, now),
        a.lru.entries@.len() + week_of(query_to) - week_of(query_from) < a.lru.capacity,
        i64::MIN <= query_from <= from <= to <= query_to <= i64::MAX,
    ensures
        b.hit(from, to),
        forall|c: CandleStick|
            timed(c, from, to + 1) && reachable(c) && is_first(candles, c) && !(exists|d: CandleStick| #[trigger]
                a.keeps(d) && d.t == c.t) ==> #[trigger] b.offers(c),
{
    lemma_week(query_from);
    lemma_week(query_to);
    lemma_week(from);
    lemma_week(to);
    assert forall|bid: int| week_of(from) <= bid <= week_of(to) implies #[trigger] b.covered(bid, from, to) by {
        let k = week_key(bid);
        assert(week_at(k) == bid);
        assert(b.lru.has(k));
        let prev = choose|prev: CacheBlock|
            {
                &&& #[trigger] extended(prev, b.lru.at(k), week_at(k), candles, query_from, query_to, now)
                &&& unasked(prev) || (a.lru.has(k) && prev == a.lru.at(k))
                &&& a.lru.has(k) ==> prev == a.lru.at(k)
            };
        assert(extended(prev, b.lru.at(k), week_at(k), candles, query_from, query_to, now));
    }
    assert forall|c: CandleStick|
        timed(c, from, to + 1) && reachable(c) && is_first(candles, c) && !(exists|d: CandleStick| #[trigger]
            a.keeps(d) && d.t == c.t) implies #[trigger] b.offers(c) by {
        lemma_week(c.t as int);
        let bid = week_of(c.t as int);
        let k = week_key(bid);
        assert(week_at(k) == bid);
        assert(b.lru.has(k));
        let prev = choose|prev: CacheBlock|
            {
                &&& #[trigger] extended(prev, b.lru.at(k), week_at(k), candles, query_from, query_to, now)
                &&& unasked(prev) || (a.lru.has(k) && prev == a.lru.at(k))
                &&& a.lru.has(k) ==> prev == a.lru.at(k)
            };
        assert(extended(prev, b.lru.at(k), week_at(k), candles, query_from, query_to, now));
        let group = week_group(candles, bid);
        lemma_picked_first(candles, |c: CandleStick| week_of(c.t as int) == bid, c);
        let all = prev.candles@ + group;
        let g = choose|g: int|
            0 <= g < group.len() && #[trigger] group[g] == c && forall|j: int|
                0 <= j < g ==> (#[trigger] group[j]).t != c.t;
        let at = prev.candles@.len() + g;
        assert(all[at] == c);
        assert forall|j: int| 0 <= j < at implies (#[trigger] all[j]).t != c.t by {
            if j < prev.candles@.len() {
                let d = prev.candles@[j];
                assert(all[j] == d);
                if d.t == c.t {
                    assert(prev.candles@.contains(d));
                    assert(a.keeps(d));
                }
            } else {
                assert(all[j] == group[j - prev.candles@.len()]);
            }
        }
        assert(is_first(all, c));
        assert(b.lru.at(k).candles@.contains(c));
    }
}

proof fn lemma_read_on(
    a: CandleCache,
    before: Seq<CandleStick>,
    part: Seq<CandleStick>,
    bid: int,
    from: int,
    to: int,
    after: Seq<CandleStick>,
)
    requires
        a.inv(),
        -0x1000_0000_0000 < bid < 0x1000_0000_0000,
        a.lru.has(week_key(bid)),
        after == before + part,
        in_time_order(before),
        in_time_order(part),
        forall|c: CandleStick| #[trigger]
            before.contains(c) <==> timed(c, from, to + 1) && a.offers(c) && week_of(c.t as int) < bid,
        forall|c: CandleStick| #[trigger]
            part.contains(c) <==> a.lru.at(week_key(bid)).candles@.contains(c) && timed(
                c,
                greater_of(from, block_start(bid)),
                lesser_of(to, block_start(bid + 1)) + 1,
            ),
    ensures
        in_time_order(after),
        forall|c: CandleStick| #[trigger]
            after.contains(c) <==> timed(c, from, to + 1) && a.offers(c) && week_of(c.t as int) < bid + 1,
{
    let block = a.lru.at(week_key(bid));
    assert(week_at(week_key(bid)) == bid);
    assert(block.sound(bid));
    assert forall|c: CandleStick| block.candles@.contains(c) implies week_of(c.t as int) == bid by {
        let i = choose|i: int| 0 <= i < block.candles@.len() && block.candles@[i] == c;
        assert(week_of(block.candles@[i].t as int) == bid);
    }
    assert forall|i: int, j: int| 0 <= i < j < after.len() implies (#[trigger] after[i]).t < (#[trigger] after[j]).t by {
        if j < before.len() {
            assert(before[i].t < before[j].t);
        } else if i >= before.len() {
            assert(part[i - before.len()].t < part[j - before.len()].t);
        } else {
            assert(before.contains(before[i]));
            assert(part.contains(part[j - before.len()]));
            lemma_week(before[i].t as int);
        }
    }
    assert forall|c: CandleStick| #[trigger] after.contains(c) <==> timed(c, from, to + 1) && a.offers(c) && week_of(
        c.t as int,
    ) < bid + 1 by {
        lemma_week(c.t as int);
        if after.contains(c) {
            let i = choose|i: int| 0 <= i < after.len() && after[i] == c;
            if i < before.len() {
                assert(before[i] == c);
                assert(before.contains(c));
            } else {
                assert(part[i - before.len()] == c);
                assert(part.contains(c));
            }
        }
        if timed(c, from, to + 1) && a.offers(c) && week_of(c.t as int) < bid + 1 {
            if week_of(c.t as int) < bid {
                assert(before.contains(c));
                let i = choose|i: int| 0 <= i < before.len() && before[i] == c;
                assert(after[i] == c);
            } else {
                assert(part.contains(c));
                let i = choose|i: int| 0 <= i < part.len() && part[i] == c;
                assert(after[before.len() + i] == c);
            }
        }
    }
}

proof fn lemma_merge_sound(prev: CacheBlock, candles: Seq<CandleStick>, bid: int, merged: Seq<CandleStick>)
    requires
        prev.sound(bid),
        arranged(prev.candles@ + week_group(candles, bid), merged),
    ensures
        forall|i: int| 0 <= i < merged.len() ==> week_of((#[trigger] merged[i]).t as int) == bid,
{
    let group = week_group(candles, bid);
    let all = prev.candles@ + group;
    lemma_picked(candles, |c: CandleStick| week_of(c.t as int) == bid);
    assert forall|i: int| 0 <= i < merged.len() implies week_of((#[trigger] merged[i]).t as int) == bid by {
        let c = merged[i];
        assert(merged.contains(c));
        assert(is_first(all, c));
        let k = choose|k: int|
            0 <= k < all.len() && #[trigger] all[k] == c && forall|j: int| 0 <= j < k ==> (#[trigger] all[j]).t != c.t;
        if k < prev.candles@.len() {
            assert(prev.candles@[k] == c);
        } else {
            assert(group[k - prev.candles@.len()] == c);
            assert(group.contains(c));
        }
    }
}

/// What is kept of one symbol at one resolution.
pub struct SymbolCache {
    pub stock: String,
    pub resolution: String,
    pub cache: CandleCache,
    /// When candles last came in.
    pub updated: u64,
}

impl SymbolCache {
    /// Whether it is that of a symbol and a resolution.
    pub open spec fn is_of(self, stock: Seq<char>, resolution: Seq<char>) -> bool {
        self.stock@ == stock && self.resolution@ == resolution
    }
}

/// The seconds for which candles are good, at a resolution.
pub open spec fn time_to_live(resolution: Seq<char>) -> int {
    if resolution == "1"@ || resolution == "5"@ {
        60
    } else if resolution == "1D"@ || resolution == "1d"@ || resolution == "1W"@ || resolution == "1w"@ || resolution
        == "1M"@ || resolution == "1m"@ {
        3600
    } else {
        300
    }
}

/// The seconds for which candles are good, at a resolution.
pub fn ttl(resolution: &str) -> (r: u64)
    ensures
        r == time_to_live(resolution@),
{
    if same(resolution, "1") || same(resolution, "5") {
        60
    } else if same(resolution, "1D") || same(resolution, "1d") || same(resolution, "1W") || same(resolution, "1w") || same(
        resolution,
        "1M",
    ) || same(resolution, "1m") {
        3600
    } else {
        300
    }
}

/// What a request for candles needs.
#[derive(Debug)]
pub enum Need {
    /// Nothing: these are the candles.
    Cached(Vec<CandleStick>),
    /// The answer of this address.
    Fetch { url: String },
}

/// Candles of providers, with what was asked for before.
pub struct QueryCandleSticks {
    pub symbols: Vec<SymbolCache>,
    /// Which provider a profile passes requests on to.
    pub mapping: Vec<(String, String)>,
    pub capacity_per_stack: usize,
}

impl QueryCandleSticks {
    /// Every symbol is there once, and its cache is sound.
    pub open spec fn inv(self) -> bool {
        &&& forall|i: int| 0 <= i < self.symbols@.len() ==> (#[trigger] self.symbols@[i]).cache.inv()
        &&& forall|i: int, j: int|
            0 <= i < j < self.symbols@.len() ==> !(#[trigger] self.symbols@[i]).is_of(
                (#[trigger] self.symbols@[j]).stock@,
                self.symbols@[j].resolution@,
            )
    }

    /// Whether place `i` is that of a symbol and a resolution.
    pub open spec fn at(self, i: int, stock: Seq<char>, resolution: Seq<char>) -> bool {
        0 <= i < self.symbols@.len() && self.symbols@[i].is_of(stock, resolution)
    }

    /// Whether candles of a symbol ever came in.
    pub open spec fn knows(self, stock: Seq<char>, resolution: Seq<char>) -> bool {
        exists|i: int| #[trigger] self.at(i, stock, resolution)
    }

    /// Nothing asked for yet, with room for `capacity` blocks of each symbol.
    pub fn new(mapping: Vec<(String, String)>, capacity: usize) -> (r: QueryCandleSticks)
        ensures
            r.inv(),
            r.mapping == mapping,
            r.capacity_per_stack == capacity,
            r.symbols@.len() == 0,
    {
        QueryCandleSticks { symbols: Vec::new(), mapping, capacity_per_stack: capacity }
    }

    /// Takes over a new mapping.
    pub fn reload(&mut self, mapping: Vec<(String, String)>)
        ensures
            *final(self) == (QueryCandleSticks { mapping, ..*old(self) }),
    {
        self.mapping = mapping;
    }

    fn place(&self, stock: &str, resolution: &str) -> (r: Option<usize>)
        requires
            self.inv(),
        ensures
            r is Some <==> self.knows(stock@, resolution@),
            r matches Some(i) ==> self.at(i as int, stock@, resolution@),
    {
        let mut i: usize = 0;
        while i < self.symbols.len()
            invariant
                i <= self.symbols@.len(),
                forall|k: int| 0 <= k < i ==> !#[trigger] self.at(k, stock@, resolution@),
            decreases self.symbols@.len() - i,
        {
            if same(&self.symbols[i].stock, stock) && same(&self.symbols[i].resolution, resolution) {
                assert(self.at(i as int, stock@, resolution@));
                return Some(i);
            }
            assert(!self.at(i as int, stock@, resolution@));
            i += 1;
        }
        None
    }

    /// Whether what is kept of a symbol is too old, or nothing is kept. A clock
    /// that went back makes nothing old.
    pub open spec fn stale(self, stock: Seq<char>, resolution: Seq<char>, now: u64) -> bool {
        forall|i: int| #[trigger]
            self.at(i, stock, resolution) ==> now >= self.symbols@[i].updated && now - self.symbols@[i].updated
                > time_to_live(resolution)
    }

    /// Whether what is kept of a symbol is too old, or nothing is kept.
    pub fn is_invalidated(&self, stock: &str, resolution: &str, now: u64) -> (r: bool)
        requires
            self.inv(),
        ensures
            r == self.stale(stock@, resolution@, now),
    {
        match self.place(stock, resolution) {
            Some(i) => {
                let last = self.symbols[i].updated;
                let r = now >= last && now - last > ttl(resolution);
                proof {
                    assert forall|k: int| #[trigger] self.at(k, stock@, resolution@) implies k == i by {
                        if k < i {
                            assert(self.symbols@[k].is_of(self.symbols@[i as int].stock@, self.symbols@[i as int].resolution@));
                        } else if k > i {
                            assert(self.symbols@[i as int].is_of(self.symbols@[k].stock@, self.symbols@[k].resolution@));
                        }
                    }
                    assert(self.at(i as int, stock@, resolution@));
                }
                r
            },
            None => true,
        }
    }

    /// Whether a candle of a symbol is kept.
    pub open spec fn keeps(self, stock: Seq<char>, resolution: Seq<char>, c: CandleStick) -> bool {
        exists|i: int| #[trigger] self.at(i, stock, resolution) && self.symbols@[i].cache.keeps(c)
    }

    /// Whether a candle of a symbol is kept and a read of its time gives it.
    pub open spec fn offers(self, stock: Seq<char>, resolution: Seq<char>, c: CandleStick) -> bool {
        self.keeps(stock, resolution, c) && reachable(c)
    }

    /// Whether all of a span of a symbol was asked for.
    pub open spec fn hit(self, stock: Seq<char>, resolution: Seq<char>, from: int, to: int) -> bool {
        exists|i: int| #[trigger] self.at(i, stock, resolution) && self.symbols@[i].cache.hit(from, to)
    }

    /// Reads candles of a symbol, where all of the span was asked for before.
    pub fn fetch_from_cache(&mut self, stock: &str, resolution: &str, from: i64, to: i64) -> (r: Option<Vec<CandleStick>>)
        requires
            old(self).inv(),
            to + BLOCK_SECS <= i64::MAX,
        ensures
            final(self).inv(),
            final(self).mapping == old(self).mapping,
            final(self).symbols@.len() == old(self).symbols@.len(),
            r is Some <==> old(self).hit(stock@, resolution@, from as int, to as int),
            r matches Some(v) ==> in_time_order(v@) && forall|c: CandleStick| #[trigger]
                v@.contains(c) <==> timed(c, from as int, to + 1) && old(self).offers(stock@, resolution@, c),
            forall|s: Seq<char>, res: Seq<char>, c: CandleStick| #[trigger]
                final(self).keeps(s, res, c) <==> old(self).keeps(s, res, c),
            forall|s: Seq<char>, res: Seq<char>, f: int, t: int|
                #[trigger] final(self).hit(s, res, f, t) <==> old(self).hit(s, res, f, t),
            forall|s: Seq<char>, res: Seq<char>, now: u64| #[trigger]
                final(self).stale(s, res, now) <==> old(self).stale(s, res, now),
    {
        let ghost a = *self;
        match self.place(stock, resolution) {
            Some(i) => {
                assert(self.symbols@[i as int].cache.inv());
                let r = self.symbols[i].cache.read(from, to);
                proof {
                    let b = *self;
                    lemma_same_cache(a, b, i as int);
                    lemma_one_place(a, i as int, stock@, resolution@);
                }
                r
            },
            None => None,
        }
    }

    /// Takes in candles of a span of a symbol.
    pub fn update_cache(
        &mut self,
        stock: &str,
        resolution: &str,
        candles: &Vec<CandleStick>,
        query_from: i64,
        query_to: i64,
        now: u64,
    )
        requires
            old(self).inv(),
            query_to + BLOCK_SECS <= i64::MAX,
        ensures
            final(self).inv(),
            final(self).mapping == old(self).mapping,
            final(self).capacity_per_stack == old(self).capacity_per_stack,
            took(*old(self), *final(self), stock@, resolution@, candles@, query_from as int, query_to as int, now),
    {
        let ghost a = *self;
        let i: usize = match self.place(stock, resolution) {
            Some(i) => i,
            None => {
                let n: usize = self.symbols.len();
                let fresh = SymbolCache {
                    stock: stock.to_owned(),
                    resolution: resolution.to_owned(),
                    cache: CandleCache { lru: LruCache::new(self.capacity_per_stack) },
                    updated: now,
                };
                self.symbols.push(fresh);
                proof {
                    assert forall|p: int, q: int| 0 <= p < q < self.symbols@.len() implies !(
                    #[trigger] self.symbols@[p]).is_of(
                        (#[trigger] self.symbols@[q]).stock@,
                        self.symbols@[q].resolution@,
                    ) by {
                        assert(self.symbols@[p] == a.symbols@[p]);
                        if q < n {
                            assert(self.symbols@[q] == a.symbols@[q]);
                        } else {
                            assert(!a.at(p, stock@, resolution@));
                        }
                    }
                }
                n
            },
        };
        let ghost mid = *self;
        assert(self.symbols@[i as int].cache.inv());
        assert(self.at(i as int, stock@, resolution@));
        self.symbols[i].cache.store(candles, query_from, query_to, now);
        self.symbols[i].updated = now;
        proof {
            let b = *self;
            assert forall|p: int, q: int| 0 <= p < q < b.symbols@.len() implies !(#[trigger] b.symbols@[p]).is_of(
                (#[trigger] b.symbols@[q]).stock@,
                b.symbols@[q].resolution@,
            ) by {
                assert(mid.symbols@[p].stock == b.symbols@[p].stock && mid.symbols@[p].resolution
                    == b.symbols@[p].resolution);
                assert(mid.symbols@[q].stock == b.symbols@[q].stock && mid.symbols@[q].resolution
                    == b.symbols@[q].resolution);
            }
            assert(b.at(i as int, stock@, resolution@));
        }
    }

    /// Asks for candles: from the cache where what is kept is good, else from a
    /// provider.
    pub fn get_candlesticks(
        &mut self,
        profile_name: &str,
        stock: &str,
        resolution: &str,
        from: i64,
        to: i64,
        limit: usize,
        url_provider: Option<&str>,
        now: u64,
    ) -> (r: Result<Need, QueryError>)
        requires
            old(self).inv(),
            to + BLOCK_SECS <= i64::MAX,
            i64::MIN <= from * 1000 <= i64::MAX,
            i64::MIN <= to * 1000 <= i64::MAX,
        ensures
            final(self).inv(),
            final(self).mapping == old(self).mapping,
            forall|s: Seq<char>, res: Seq<char>, c: CandleStick| #[trigger]
                final(self).keeps(s, res, c) <==> old(self).keeps(s, res, c),
            forall|s: Seq<char>, res: Seq<char>, t: u64| #[trigger]
                final(self).stale(s, res, t) <==> old(self).stale(s, res, t),
            ({
                let good = !old(self).stale(stock@, resolution@, now) && old(self).hit(
                    stock@,
                    resolution@,
                    from as int,
                    to as int,
                );
                let url = query_url(
                    profile_name@,
                    stock@,
                    resolved(url_provider, mapped_to(old(self).mapping@, profile_name@), profile_name@),
                    resolution@,
                    from as int,
                    to as int,
                    limit as nat,
                );
                match r {
                    Err(QueryError::NoProvider) => profile_name@.len() == 0,
                    Ok(Need::Cached(v)) => profile_name@.len() > 0 && good && in_time_order(v@) && forall|c: CandleStick|
                        #[trigger]
                        v@.contains(c) <==> timed(c, from as int, to + 1) && old(self).offers(stock@, resolution@, c),
                    Ok(Need::Fetch { url: u }) => profile_name@.len() > 0 && !good && profile_of(profile_name@) is Some
                        && limit <= MAX_LIMIT && u@ == url && url.len() > 0,
                    Err(QueryError::UnknownProvider) => profile_name@.len() > 0 && !good && profile_of(
                        profile_name@,
                    ) is None,
                    Err(QueryError::LimitTooLarge) => profile_name@.len() > 0 && !good && profile_of(
                        profile_name@,
                    ) is Some && limit > MAX_LIMIT,
                    Err(QueryError::InvalidTemplate) => profile_name@.len() > 0 && !good && profile_of(
                        profile_name@,
                    ) is Some && limit <= MAX_LIMIT && url.len() == 0,
                }
            }),
    {
        proof {
            reveal_strlit("");
            if profile_name@.len() == 0 {
                assert(profile_name@ =~= ""@);
            }
        }
        if same(profile_name, "") {
            return Err(QueryError::NoProvider);
        }
        let provider = resolve_provider(url_provider, &self.mapping, profile_name);
        if !self.is_invalidated(stock, resolution, now) {
            if let Some(v) = self.fetch_from_cache(stock, resolution, from, to) {
                return Ok(Need::Cached(v));
            }
        }
        match candle_url(profile_name, stock, &provider, resolution, from, to, limit) {
            Ok(url) => Ok(Need::Fetch { url }),
            Err(e) => Err(e),
        }
    }
}

/// Whether `b` is `a` after candles of a span of a symbol came in: its blocks are
/// updated, from none where nothing was kept of it; no other symbol changes.
pub open spec fn took(
    a: QueryCandleSticks,
    b: QueryCandleSticks,
    stock: Seq<char>,
    resolution: Seq<char>,
    candles: Seq<CandleStick>,
    query_from: int,
    query_to: int,
    now: u64,
) -> bool {
    exists|i: int|
        {
            &&& #[trigger] b.at(i, stock, resolution)
            &&& b.symbols@[i].updated == now
            &&& i < a.symbols@.len() ==> a.at(i, stock, resolution) && b.symbols@.len() == a.symbols@.len()
                && CandleCache::updated(a.symbols@[i].cache, b.symbols@[i].cache, candles, query_from, query_to, now)
            &&& i >= a.symbols@.len() ==> !a.knows(stock, resolution) && i == a.symbols@.len() && b.symbols@.len() == i + 1
                && exists|none: CandleCache|
                {
                    &&& none.inv() && none.lru.entries@.len() == 0 && none.lru.capacity == a.capacity_per_stack
                    &&& #[trigger] CandleCache::updated(
                        none,
                        b.symbols@[i].cache,
                        candles,
                        query_from,
                        query_to,
                        now,
                    )
                }
            &&& forall|j: int| 0 <= j < a.symbols@.len() && j != i ==> #[trigger] b.symbols@[j] == a.symbols@[j]
        }
}

proof fn lemma_one_place(a: QueryCandleSticks, i: int, stock: Seq<char>, resolution: Seq<char>)
    requires
        a.inv(),
        a.at(i, stock, resolution),
    ensures
        forall|k: int| #[trigger] a.at(k, stock, resolution) ==> k == i,
{
    assert forall|k: int| #[trigger] a.at(k, stock, resolution) implies k == i by {
        if k < i {
            assert(a.symbols@[k].is_of(a.symbols@[i].stock@, a.symbols@[i].resolution@));
        } else if k > i {
            assert(a.symbols@[i].is_of(a.symbols@[k].stock@, a.symbols@[k].resolution@));
        }
    }
}

proof fn lemma_same_cache(a: QueryCandleSticks, b: QueryCandleSticks, i: int)
    requires
        a.inv(),
        0 <= i < a.symbols@.len(),
        b == (QueryCandleSticks { symbols: b.symbols, ..a }),
        b.symbols@ == a.symbols@.update(i, b.symbols@[i]),
        b.symbols@[i] == (SymbolCache { cache: b.symbols@[i].cache, ..a.symbols@[i] }),
        b.symbols@[i].cache.inv(),
        forall|bid: u64| #[trigger] b.symbols@[i].cache.lru.has(bid) <==> a.symbols@[i].cache.lru.has(bid),
        forall|bid: u64|
            a.symbols@[i].cache.lru.has(bid) ==> #[trigger] b.symbols@[i].cache.lru.at(bid) == a.symbols@[i].cache.lru.at(
                bid,
            ),
    ensures
        b.inv(),
        forall|k: int, s: Seq<char>, res: Seq<char>| #[trigger] b.at(k, s, res) <==> a.at(k, s, res),
        forall|s: Seq<char>, res: Seq<char>, c: CandleStick| #[trigger] b.keeps(s, res, c) <==> a.keeps(s, res, c),
        forall|s: Seq<char>, res: Seq<char>, f: int, t: int| #[trigger] b.hit(s, res, f, t) <==> a.hit(s, res, f, t),
        forall|s: Seq<char>, res: Seq<char>, now: u64| #[trigger] b.stale(s, res, now) <==> a.stale(s, res, now),
{
    let x = a.symbols@[i].cache;
    let y = b.symbols@[i].cache;
    assert forall|p: int, q: int| 0 <= p < q < b.symbols@.len() implies !(#[trigger] b.symbols@[p]).is_of(
        (#[trigger] b.symbols@[q]).stock@,
        b.symbols@[q].resolution@,
    ) by {
        assert(a.symbols@[p].stock == b.symbols@[p].stock && a.symbols@[p].resolution == b.symbols@[p].resolution);
        assert(a.symbols@[q].stock == b.symbols@[q].stock && a.symbols@[q].resolution == b.symbols@[q].resolution);
    }
    assert forall|k: int| 0 <= k < b.symbols@.len() implies (#[trigger] b.symbols@[k]).cache.inv() by {
        if k != i {
            assert(b.symbols@[k] == a.symbols@[k]);
        }
    }
    assert forall|k: int, s: Seq<char>, res: Seq<char>| #[trigger] b.at(k, s, res) <==> a.at(k, s, res) by {
        if 0 <= k < a.symbols@.len() && k != i {
            assert(b.symbols@[k] == a.symbols@[k]);
        }
    }
    assert forall|f: int, t: int| #[trigger] y.hit(f, t) <==> x.hit(f, t) by {
        assert forall|bid: int| #[trigger] y.covered(bid, f, t) <==> x.covered(bid, f, t) by {
            assert(y.lru.has(week_key(bid)) <==> x.lru.has(week_key(bid)));
        }
        if y.hit(f, t) {
            assert forall|bid: int| week_of(f) <= bid <= week_of(t) implies #[trigger] x.covered(bid, f, t) by {
                assert(y.covered(bid, f, t));
            }
        }
        if x.hit(f, t) {
            assert forall|bid: int| week_of(f) <= bid <= week_of(t) implies #[trigger] y.covered(bid, f, t) by {
                assert(x.covered(bid, f, t));
            }
        }
    }
    assert forall|c: CandleStick| #[trigger] y.keeps(c) <==> x.keeps(c) by {
        assert(y.lru.has(week_key(week_of(c.t as int))) <==> x.lru.has(week_key(week_of(c.t as int))));
    }
    assert forall|s: Seq<char>, res: Seq<char>, c: CandleStick| #[trigger] b.keeps(s, res, c) <==> a.keeps(s, res, c) by {
        if b.keeps(s, res, c) {
            let k = choose|k: int| #[trigger] b.at(k, s, res) && b.symbols@[k].cache.keeps(c);
            assert(a.at(k, s, res) && a.symbols@[k].cache.keeps(c));
        }
        if a.keeps(s, res, c) {
            let k = choose|k: int| #[trigger] a.at(k, s, res) && a.symbols@[k].cache.keeps(c);
            assert(b.at(k, s, res) && b.symbols@[k].cache.keeps(c));
        }
    }
    assert forall|s: Seq<char>, res: Seq<char>, f: int, t: int| #[trigger] b.hit(s, res, f, t) <==> a.hit(s, res, f, t) by {
        if b.hit(s, res, f, t) {
            let k = choose|k: int| #[trigger] b.at(k, s, res) && b.symbols@[k].cache.hit(f, t);
            assert(a.at(k, s, res) && a.symbols@[k].cache.hit(f, t));
        }
        if a.hit(s, res, f, t) {
            let k = choose|k: int| #[trigger] a.at(k, s, res) && a.symbols@[k].cache.hit(f, t);
            assert(b.at(k, s, res) && b.symbols@[k].cache.hit(f, t));
        }
    }
    assert forall|s: Seq<char>, res: Seq<char>, now: u64| #[trigger] b.stale(s, res, now) <==> a.stale(s, res, now) by {
        if a.stale(s, res, now) {
            assert forall|k: int| #[trigger] b.at(k, s, res) implies now >= b.symbols@[k].updated && now
                - b.symbols@[k].updated > time_to_live(res) by {
                assert(a.at(k, s, res));
            }
        }
        if b.stale(s, res, now) {
            assert forall|k: int| #[trigger] a.at(k, s, res) implies now >= a.symbols@[k].updated && now
                - a.symbols@[k].updated > time_to_live(res) by {
                assert(b.at(k, s, res));
            }
        }
    }
}

} // verus!
