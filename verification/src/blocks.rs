//! A cache of candles in blocks of one week.
//!
//! A block claims no more than the span that was asked for. Where the data may
//! still be coming in, it claims no more than what came, so that a later read
//! asks again.
use vstd::prelude::*;

use crate::calendar::{resolution_secs, Calendar};
use crate::candle::CandleStick;
use crate::forward::{first_open, is_first_open};
use crate::lru::{holds_key, storing_drops_the_oldest_only, stored_in_turn, used, value_of, LruCache};
use crate::text::{decimal, decimal_text};
use crate::series::{
    arranged, candles_within, in_time_order, is_first, merge_candles, span_of, spans_keep_order, within,
};

verus! {

/// The seconds of a block: one week.
pub const BLOCK_SECS: u64 = 604800;

/// The least gap that is taken between two candles where a block has but one.
pub const FALLBACK_STEP: u64 = 300;

/// The most blocks that are kept for one resolution.
pub const BLOCKS_KEPT: usize = 1024;

/// One week's candles, and the span of time for which they are complete.
#[derive(Debug)]
pub struct BlockCache {
    pub candles: Vec<CandleStick>,
    pub covered_first: u64,
    /// The end of the span, left out of it.
    pub covered_last: u64,
}

/// The block that a time is in.
pub open spec fn block_of(t: int) -> int {
    t / BLOCK_SECS as int
}

/// The start of a block.
pub open spec fn block_start(bid: int) -> int {
    bid * BLOCK_SECS
}

/// The greater of two numbers.
pub open spec fn greater_of(a: int, b: int) -> int {
    if a >= b {
        a
    } else {
        b
    }
}

/// The lesser of two numbers.
pub open spec fn lesser_of(a: int, b: int) -> int {
    if a <= b {
        a
    } else {
        b
    }
}

/// The block that a time is in.
pub fn block_id(ts: u64) -> (r: u64)
    ensures
        r == block_of(ts as int),
{
    ts / BLOCK_SECS
}

/// The least time between two neighbours of an ordered series, or the fallback
/// where there are not two.
pub open spec fn least_gap(s: Seq<CandleStick>) -> int
    decreases s.len(),
{
    if s.len() < 2 {
        FALLBACK_STEP as int
    } else {
        let gap = s[s.len() - 1].t - s[s.len() - 2].t;
        if s.len() == 2 {
            gap
        } else {
            lesser_of(gap, least_gap(s.drop_last()))
        }
    }
}

/// A block that holds nothing and claims nothing.
pub open spec fn claims_nothing(b: BlockCache) -> bool {
    b.candles@.len() == 0 && b.covered_first == u64::MAX && b.covered_last == 0
}

impl BlockCache {
    /// Whether the block is complete for its part of a span.
    pub open spec fn covers(self, bid: int, from: int, to: int) -> bool {
        &&& greater_of(from, block_start(bid)) >= self.covered_first
        &&& lesser_of(to, block_start(bid + 1)) <= self.covered_last
    }

    /// Whether its candles are in order and lie in the block.
    pub open spec fn sound(self, bid: int) -> bool {
        &&& in_time_order(self.candles@)
        &&& forall|i: int|
            0 <= i < self.candles@.len() ==> (#[trigger] self.candles@[i]).t >= 0 && block_of(self.candles@[i].t as int)
                == bid
    }

    /// The block's candles in a span, the end left out.
    pub fn subrange(&self, from: u64, to: u64) -> (r: Vec<CandleStick>)
        ensures
            r@ == span_of(self.candles@, from as int, to as int),
    {
        candles_within(&self.candles, from, to)
    }

    fn least_step(&self) -> (r: u64)
        requires
            in_time_order(self.candles@),
            forall|i: int| 0 <= i < self.candles@.len() ==> (#[trigger] self.candles@[i]).t >= 0,
        ensures
            r == least_gap(self.candles@),
    {
        let ghost s = self.candles@;
        let n: usize = self.candles.len();
        if n < 2 {
            return FALLBACK_STEP;
        }
        assert(s[0].t < s[1].t);
        let mut r: u64 = (self.candles[1].t - self.candles[0].t) as u64;
        let mut i: usize = 2;
        assert(s.take(2)[1] == s[1] && s.take(2)[0] == s[0]);
        while i < n
            invariant
                s == self.candles@,
                2 <= i <= n,
                n == s.len(),
                in_time_order(s),
                forall|i: int| 0 <= i < s.len() ==> (#[trigger] s[i]).t >= 0,
                r == least_gap(s.take(i as int)),
            decreases n - i,
        {
            proof {
                let more = s.take(i + 1);
                assert(more.drop_last() =~= s.take(i as int));
                assert(more[i as int] == s[i as int] && more[i - 1] == s[i - 1]);
                assert(s[i - 1].t < s[i as int].t);
            }
            let gap = (self.candles[i].t - self.candles[i - 1].t) as u64;
            if gap < r {
                r = gap;
            }
            i += 1;
        }
        assert(s.take(n as int) =~= s);
        r
    }
}

/// The end of what a block claims once a span up to `end` was asked for.
pub open spec fn claimed_end(prev: int, candles: Seq<CandleStick>, end: int, live: bool) -> int {
    if candles.len() == 0 || !live {
        greater_of(prev, end)
    } else {
        lesser_of(greater_of(prev, candles.last().t + least_gap(candles)), end)
    }
}

/// Whether `next` is the block `prev` after candles of a span came in. While
/// the span lies ahead of the clock (`live`), the claim stops at the candles.
pub open spec fn refreshed(
    prev: BlockCache,
    next: BlockCache,
    bid: int,
    candles: Seq<CandleStick>,
    query_from: int,
    query_to: int,
    live: bool,
) -> bool {
    &&& arranged(prev.candles@ + span_of(candles, block_start(bid), block_start(bid + 1)), next.candles@)
    &&& next.covered_first == lesser_of(prev.covered_first as int, greater_of(query_from, block_start(bid)))
    &&& next.covered_last == claimed_end(
        prev.covered_last as int,
        next.candles@,
        lesser_of(query_to, block_start(bid + 1)),
        live,
    )
}

/// Whether `next` is the block that comes of candles of a span, where `s` is what
/// was kept: from the block that was there, or from one that claims nothing.
pub open spec fn refreshed_in(
    s: Seq<(u64, BlockCache)>,
    next: BlockCache,
    bid: int,
    candles: Seq<CandleStick>,
    query_from: int,
    query_to: int,
    live: bool,
) -> bool {
    exists|prev: BlockCache|
        {
            &&& #[trigger] refreshed(prev, next, bid, candles, query_from, query_to, live)
            &&& if holds_key(s, bid as u64) {
                prev == value_of(s, bid as u64)
            } else {
                claims_nothing(prev)
            }
        }
}

/// Whether `blocks` are those that come of candles of a span, in turn from the
/// block `first` on, each from what is kept once those before it are stored.
pub open spec fn refreshed_in_turn(
    s: Seq<(u64, BlockCache)>,
    capacity: int,
    first: int,
    blocks: Seq<BlockCache>,
    candles: Seq<CandleStick>,
    query_from: int,
    query_to: int,
    live: bool,
) -> bool
    decreases blocks.len(),
{
    blocks.len() > 0 ==> {
        let before = blocks.drop_last();
        &&& refreshed_in_turn(s, capacity, first, before, candles, query_from, query_to, live)
        &&& refreshed_in(
            stored_in_turn(s, capacity, first, before),
            blocks.last(),
            first + before.len(),
            candles,
            query_from,
            query_to,
            live,
        )
    }
}

/// `s` after the blocks from `a` up to `n` were used in turn.
pub open spec fn used_to<V>(s: Seq<(u64, V)>, a: int, n: int) -> Seq<(u64, V)>
    decreases n - a,
{
    if n <= a {
        s
    } else {
        used(used_to(s, a, n - 1), (n - 1) as u64)
    }
}

/// The blocks of one resolution.
pub struct CandleBlocks {
    pub lru: LruCache<BlockCache>,
}

impl CandleBlocks {
    /// Every block is sound.
    pub open spec fn inv(self) -> bool {
        &&& self.lru.inv()
        &&& forall|bid: u64| #[trigger] self.lru.has(bid) ==> self.lru.at(bid).sound(bid as int)
    }

    /// Whether a block is there and complete for its part of a span.
    pub open spec fn covered(self, bid: int, from: int, to: int) -> bool {
        self.lru.has(bid as u64) && self.lru.at(bid as u64).covers(bid, from, to)
    }

    /// Whether every block that a span touches is complete for it.
    pub open spec fn hit(self, from: int, to: int) -> bool {
        forall|bid: int| block_of(from) <= bid <= block_of(to - 1) ==> #[trigger] self.covered(bid, from, to)
    }

    /// Whether a candle is kept.
    pub open spec fn keeps(self, c: CandleStick) -> bool {
        &&& 0 <= c.t
        &&& self.lru.has(block_of(c.t as int) as u64)
        &&& self.lru.at(block_of(c.t as int) as u64).candles@.contains(c)
    }

    /// Whether both hold the same blocks.
    pub open spec fn same_blocks(self, other: CandleBlocks) -> bool {
        &&& forall|bid: u64| #[trigger] self.lru.has(bid) <==> other.lru.has(bid)
        &&& forall|bid: u64| self.lru.has(bid) ==> #[trigger] self.lru.at(bid) == other.lru.at(bid)
    }

    /// No blocks yet.
    pub fn new() -> (r: CandleBlocks)
        ensures
            r.inv(),
            r.lru.capacity == BLOCKS_KEPT,
            forall|bid: u64| !#[trigger] r.lru.has(bid),
    {
        CandleBlocks { lru: LruCache::new(BLOCKS_KEPT) }
    }

    /// Reads the candles of a span: all that are kept in it, where every block
    /// is complete for it, else nothing.
    pub fn try_read_blocks(&mut self, from: u64, to: u64) -> (r: Option<Vec<CandleStick>>)
        requires
            old(self).inv(),
            from < to,
            to + BLOCK_SECS <= i64::MAX,
        ensures
            final(self).inv(),
            final(self).same_blocks(*old(self)),
            final(self).lru.capacity == old(self).lru.capacity,
            r is Some <==> old(self).hit(from as int, to as int),
            r matches Some(v) ==> in_time_order(v@) && forall|c: CandleStick| #[trigger]
                v@.contains(c) <==> within(c, from as int, to as int) && old(self).keeps(c),
            r is Some ==> final(self).lru.entries@ == used_to(
                old(self).lru.entries@,
                block_of(from as int),
                block_of(to - 1) + 1,
            ),
            r is None ==> exists|k: int|
                block_of(from as int) <= k <= block_of(to - 1) && !(#[trigger] old(self).covered(
                    k,
                    from as int,
                    to as int,
                )) && final(self).lru.entries@ == used_to(old(self).lru.entries@, block_of(from as int), k + 1),
    {
        let ghost a = *self;
        let start = block_id(from);
        let end = block_id(to - 1);
        let mut result: Vec<CandleStick> = Vec::new();
        let mut bid: u64 = start;
        while bid <= end
            invariant
                a == *old(self),
                a.inv(),
                self.inv(),
                self.same_blocks(a),
                self.lru.capacity == a.lru.capacity,
                from < to,
                to + BLOCK_SECS <= i64::MAX,
                start == block_of(from as int),
                end == block_of(to - 1),
                start <= bid <= end + 1,
                self.lru.entries@ == used_to(a.lru.entries@, start as int, bid as int),
                forall|k: int| start <= k < bid ==> #[trigger] a.covered(k, from as int, to as int),
                in_time_order(result@),
                forall|c: CandleStick| #[trigger]
                    result@.contains(c) <==> within(c, from as int, to as int) && a.keeps(c) && block_of(c.t as int)
                        < bid,
            decreases end + 1 - bid,
        {
            assert(bid * BLOCK_SECS <= to - 1) by (nonlinear_arith)
                requires
                    bid <= end,
                    end == (to - 1) / (BLOCK_SECS as int),
                    from < to,
            ;
            let first: u64 = bid * BLOCK_SECS;
            let past: u64 = first + BLOCK_SECS;
            let lo: u64 = if from >= first { from } else { first };
            let hi: u64 = if to <= past { to } else { past };
            let mut ok = false;
            let ghost before = result@;
            match self.lru.peek(bid) {
                None => {},
                Some(block) => {
                    if lo >= block.covered_first && hi <= block.covered_last {
                        ok = true;
                        let mut part = block.subrange(lo, hi);
                        let ghost p = part@;
                        proof {
                            spans_keep_order(block.candles@, lo as int, hi as int);
                        }
                        result.append(&mut part);
                        proof {
                            lemma_extended(a, before, p, bid as int, from as int, to as int, result@);
                        }
                    }
                },
            }
            self.lru.touch(bid);
            proof {
                assert(self.lru.entries@ == used_to(a.lru.entries@, start as int, bid + 1));
                assert(a.covered(bid as int, from as int, to as int) == ok);
            }
            if !ok {
                return None;
            }
            bid += 1;
        }
        proof {
            assert(a.hit(from as int, to as int));
            assert forall|c: CandleStick| within(c, from as int, to as int) implies block_of(c.t as int) <= end by {
                assert(c.t <= to - 1);
            }
        }
        Some(result)
    }

    /// Whether `b` is `a` after candles of a span came in: the blocks of the span
    /// are refreshed and stored in turn, the one used longest ago leaving where
    /// there are too many. So where the store has room, every block of the span
    /// is refreshed from what it was, and no other block changes.
    pub open spec fn updated(
        a: CandleBlocks,
        b: CandleBlocks,
        candles: Seq<CandleStick>,
        query_from: int,
        query_to: int,
        live: bool,
    ) -> bool {
        let first = block_of(query_from);
        let last = block_of(query_to - 1);
        let room = a.lru.entries@.len() + last - first < a.lru.capacity;
        &&& b.inv()
        &&& b.lru.capacity == a.lru.capacity
        &&& exists|blocks: Seq<BlockCache>|
            {
                &&& blocks.len() == last - first + 1
                &&& b.lru.entries@ == #[trigger] stored_in_turn(a.lru.entries@, a.lru.capacity as int, first, blocks)
                &&& refreshed_in_turn(
                    a.lru.entries@,
                    a.lru.capacity as int,
                    first,
                    blocks,
                    candles,
                    query_from,
                    query_to,
                    live,
                )
            }
        &&& forall|bid: u64| #[trigger]
            b.lru.has(bid) && !(first <= bid <= last) ==> a.lru.has(bid) && b.lru.at(bid) == a.lru.at(bid)
        &&& forall|bid: u64| #[trigger]
            b.lru.has(bid) && first <= bid <= last ==> exists|prev: BlockCache|
                {
                    &&& #[trigger] refreshed(prev, b.lru.at(bid), bid as int, candles, query_from, query_to, live)
                    &&& claims_nothing(prev) || (a.lru.has(bid) && prev == a.lru.at(bid))
                    &&& room && a.lru.has(bid) ==> prev == a.lru.at(bid)
                }
        &&& a.lru.capacity > 0 ==> b.lru.has(last as u64)
        &&& room ==> forall|bid: u64|
            first <= bid <= last || a.lru.has(bid) ==> #[trigger] b.lru.has(bid)
    }

    /// Takes in the candles of a span. `original_to` is the end of what was
    /// wanted: where it lies ahead of `now`, the claims stop at the candles.
    #[verifier::spinoff_prover]
    #[verifier::rlimit(60)]
    pub fn update_blocks(&mut self, candles: &Vec<CandleStick>, query_from: u64, query_to: u64, original_to: u64, now: u64)
        requires
            old(self).inv(),
            query_from < query_to,
            query_to + BLOCK_SECS <= i64::MAX,
        ensures
            CandleBlocks::updated(
                *old(self),
                *final(self),
                candles@,
                query_from as int,
                query_to as int,
                now < original_to,
            ),
    {
        let ghost a = *self;
        let live = now < original_to;
        let start = block_id(query_from);
        let end = block_id(query_to - 1);
        let ghost qf = query_from as int;
        let ghost qt = query_to as int;
        let ghost room = a.lru.entries@.len() + end - start < a.lru.capacity;
        let ghost mut blocks: Seq<BlockCache> = Seq::empty();
        let mut bid: u64 = start;
        while bid <= end
            invariant
                a.inv(),
                self.inv(),
                self.lru.capacity == a.lru.capacity,
                blocks.len() == bid - start,
                self.lru.entries@ == stored_in_turn(a.lru.entries@, a.lru.capacity as int, start as int, blocks),
                refreshed_in_turn(
                    a.lru.entries@,
                    a.lru.capacity as int,
                    start as int,
                    blocks,
                    candles@,
                    qf,
                    qt,
                    live,
                ),
                query_from < query_to,
                query_to + BLOCK_SECS <= i64::MAX,
                qf == query_from,
                qt == query_to,
                start == block_of(qf),
                end == block_of(qt - 1),
                start <= bid <= end + 1,
                room == (a.lru.entries@.len() + end - start < a.lru.capacity),
                room ==> self.lru.entries@.len() <= a.lru.entries@.len() + bid - start,
                forall|k: u64| #[trigger]
                    self.lru.has(k) && !(start <= k < bid) ==> a.lru.has(k) && self.lru.at(k) == a.lru.at(k),
                forall|k: u64| #[trigger]
                    self.lru.has(k) && start <= k < bid ==> exists|prev: BlockCache|
                        {
                            &&& #[trigger] refreshed(prev, self.lru.at(k), k as int, candles@, qf, qt, live)
                            &&& claims_nothing(prev) || (a.lru.has(k) && prev == a.lru.at(k))
                            &&& room && a.lru.has(k) ==> prev == a.lru.at(k)
                        },
                bid > start && a.lru.capacity > 0 ==> self.lru.has((bid - 1) as u64),
                room ==> forall|k: u64| start <= k < bid || a.lru.has(k) ==> #[trigger] self.lru.has(k),
            decreases end + 1 - bid,
        {
            assert(bid * BLOCK_SECS <= query_to - 1) by (nonlinear_arith)
                requires
                    bid <= end,
                    end == (query_to - 1) / (BLOCK_SECS as int),
                    query_from < query_to,
            ;
            let first: u64 = bid * BLOCK_SECS;
            let past: u64 = first + BLOCK_SECS;
            let ghost before = *self;
            let mut block = match self.lru.take(bid) {
                Some(b) => b,
                None => BlockCache { candles: Vec::new(), covered_first: u64::MAX, covered_last: 0 },
            };
            let ghost prev = block;
            let ghost taken = *self;
            let group = candles_within(candles, first, past);
            merge_candles(&mut block.candles, &group);
            proof {
                lemma_merged_sound(prev, candles@, bid as int, block.candles@);
            }
            let from: u64 = if query_from >= first { query_from } else { first };
            let to: u64 = if query_to <= past { query_to } else { past };
            if from < block.covered_first {
                block.covered_first = from;
            }
            let n: usize = block.candles.len();
            if n == 0 || !live {
                if to > block.covered_last {
                    block.covered_last = to;
                }
            } else {
                let step = block.least_step();
                assert(block.candles@[n - 1].t >= 0);
                let last: u64 = block.candles[n - 1].t as u64;
                proof {
                    lemma_gap_small(block.candles@);
                }
                let extent: u64 = last + step;
                if extent > block.covered_last {
                    block.covered_last = extent;
                }
                if block.covered_last > to {
                    block.covered_last = to;
                }
            }
            let ghost next = block;
            assert(refreshed(prev, next, bid as int, candles@, qf, qt, live));
            self.lru.put(bid, block);
            proof {
                let more = blocks.push(next);
                assert(more.drop_last() =~= blocks);
                assert(refreshed_in(before.lru.entries@, next, bid as int, candles@, qf, qt, live));
                blocks = more;
                if taken.lru.capacity > 0 {
                    storing_drops_the_oldest_only(taken.lru.entries@, taken.lru.capacity as int, bid, next);
                }
                assert forall|k: u64| #[trigger] self.lru.has(k) && start <= k < bid + 1 implies exists|prev: BlockCache|
                    {
                        &&& #[trigger] refreshed(prev, self.lru.at(k), k as int, candles@, qf, qt, live)
                        &&& claims_nothing(prev) || (a.lru.has(k) && prev == a.lru.at(k))
                        &&& room && a.lru.has(k) ==> prev == a.lru.at(k)
                    } by {
                    if k == bid {
                        if before.lru.has(bid) {
                            assert(prev == a.lru.at(bid));
                        } else {
                            assert(claims_nothing(prev));
                            if room && a.lru.has(bid) {
                                assert(before.lru.has(bid));
                            }
                        }
                    } else {
                        assert(taken.lru.has(k));
                        assert(before.lru.has(k));
                        assert(self.lru.at(k) == before.lru.at(k));
                    }
                }
                assert forall|k: u64| #[trigger] self.lru.has(k) implies self.lru.at(k).sound(k as int) by {
                    if k != bid {
                        assert(taken.lru.has(k));
                        assert(before.lru.has(k));
                    }
                }
                assert forall|k: u64| #[trigger]
                    self.lru.has(k) && !(start <= k < bid + 1) implies a.lru.has(k) && self.lru.at(k) == a.lru.at(k) by {
                    assert(taken.lru.has(k));
                    assert(before.lru.has(k));
                }
                if room {
                    assert forall|k: u64| start <= k < bid + 1 || a.lru.has(k) implies #[trigger] self.lru.has(k) by {
                        if k != bid {
                            assert(before.lru.has(k));
                            assert(taken.lru.has(k));
                        }
                    }
                }
            }
            bid += 1;
        }
    }
}

/// What was asked for and is complete is read back: after the candles of a span
/// that lies behind the clock came in, every read inside the span is a hit, and
/// gives each candle that came, unless an earlier one of its time was kept.
pub proof fn a_completed_span_is_read_back(
    a: CandleBlocks,
    b: CandleBlocks,
    candles: Seq<CandleStick>,
    query_from: int,
    query_to: int,
    from: int,
    to: int,
)
    requires
        a.inv(),
        CandleBlocks::updated(a, b, candles, query_from, query_to, false),
        a.lru.entries@.len() + block_of(query_to - 1) - block_of(query_from) < a.lru.capacity,
        0 <= query_from <= from < to <= query_to <= i64::MAX,
    ensures
        b.hit(from, to),
        forall|c: CandleStick|
            within(c, from, to) && is_first(candles, c) && !(exists|d: CandleStick| #[trigger] a.keeps(d) && d.t == c.t)
                ==> #[trigger] b.keeps(c),
{
    assert forall|bid: int| block_of(from) <= bid <= block_of(to - 1) implies #[trigger] b.covered(bid, from, to) by {
        let k = bid as u64;
        assert(b.lru.has(k));
        let prev = choose|prev: BlockCache|
            {
                &&& #[trigger] refreshed(prev, b.lru.at(k), k as int, candles, query_from, query_to, false)
                &&& claims_nothing(prev) || (a.lru.has(k) && prev == a.lru.at(k))
                &&& a.lru.has(k) ==> prev == a.lru.at(k)
            };
        assert(refreshed(prev, b.lru.at(k), k as int, candles, query_from, query_to, false));
    }
    assert forall|c: CandleStick|
        within(c, from, to) && is_first(candles, c) && !(exists|d: CandleStick| #[trigger]
            a.keeps(d) && d.t == c.t) implies #[trigger] b.keeps(c) by {
        let bid = block_of(c.t as int);
        let k = bid as u64;
        assert(b.lru.has(k));
        let prev = choose|prev: BlockCache|
            {
                &&& #[trigger] refreshed(prev, b.lru.at(k), k as int, candles, query_from, query_to, false)
                &&& claims_nothing(prev) || (a.lru.has(k) && prev == a.lru.at(k))
                &&& a.lru.has(k) ==> prev == a.lru.at(k)
            };
        assert(refreshed(prev, b.lru.at(k), k as int, candles, query_from, query_to, false));
        let group = span_of(candles, block_start(bid), block_start(bid + 1));
        lemma_span_first(candles, block_start(bid), block_start(bid + 1), c);
        let all = prev.candles@ + group;
        let g = choose|g: int|
            0 <= g < group.len() && #[trigger] group[g] == c && forall|j: int|
                0 <= j < g ==> (#[trigger] group[j]).t != c.t;
        let at = prev.candles@.len() + g;
        assert(all[at] == c);
        assert forall|j: int| 0 <= j < at implies (#[trigger] all[j]).t != c.t by {
            if j < prev.candles@.len() {
                let d = prev.candles@[j];
                assert(all[j] == d);
                if d.t == c.t {
                    assert(prev.candles@.contains(d));
                    assert(a.keeps(d));
                }
            } else {
                assert(all[j] == group[j - prev.candles@.len()]);
            }
        }
        assert(is_first(all, c));
        assert(b.lru.at(k).candles@.contains(c));
    }
}

/// No claim beyond the data: while the span lies ahead of the clock, a block
/// that was not kept before and got candles claims nothing past its last candle
/// and one more step.
pub proof fn a_live_block_claims_no_more_than_came(
    prev: BlockCache,
    next: BlockCache,
    bid: int,
    candles: Seq<CandleStick>,
    query_from: int,
    query_to: int,
)
    requires
        claims_nothing(prev),
        prev.sound(bid),
        0 <= bid,
        query_from <= u64::MAX,
        refreshed(prev, next, bid, candles, query_from, query_to, true),
        next.candles@.len() > 0,
    ensures
        next.covered_last <= next.candles@.last().t + least_gap(next.candles@),
        next.covered_last <= query_to,
        next.covered_first >= query_from,
{
    lemma_merged_sound(prev, candles, bid, next.candles@);
    lemma_gap_small(next.candles@);
    assert(next.candles@[next.candles@.len() - 1].t >= 0);
}

pub proof fn lemma_span_first(s: Seq<CandleStick>, from: int, to: int, c: CandleStick)
    requires
        is_first(s, c),
        within(c, from, to),
    ensures
        is_first(span_of(s, from, to), c),
    decreases s.len(),
{
    reveal(Seq::filter);
    let r = span_of(s, from, to);
    let i = choose|i: int|
        0 <= i < s.len() && #[trigger] s[i] == c && forall|j: int| 0 <= j < i ==> (#[trigger] s[j]).t != c.t;
    let d = s.drop_last();
    let rd = span_of(d, from, to);
    if i < d.len() {
        assert(d[i] == c);
        assert forall|j: int| 0 <= j < i implies (#[trigger] d[j]).t != c.t by {
            assert(d[j] == s[j]);
        }
        assert(is_first(d, c));
        lemma_span_first(d, from, to, c);
        let k = choose|k: int|
            0 <= k < rd.len() && #[trigger] rd[k] == c && forall|j: int| 0 <= j < k ==> (#[trigger] rd[j]).t != c.t;
        assert(r[k] == c);
        assert forall|j: int| 0 <= j < k implies (#[trigger] r[j]).t != c.t by {
            assert(r[j] == rd[j]);
        }
        assert(is_first(r, c));
    } else {
        assert(c == s.last());
        assert(r == rd.push(c));
        lemma_span_from(d, from, to);
        assert forall|j: int| 0 <= j < rd.len() implies (#[trigger] r[j]).t != c.t by {
            assert(r[j] == rd[j]);
            assert(d.contains(rd[j]));
            let q = choose|q: int| 0 <= q < d.len() && d[q] == rd[j];
            assert(s[q] == d[q]);
        }
        assert(r[rd.len() as int] == c);
        assert(is_first(r, c));
    }
}

proof fn lemma_span_from(s: Seq<CandleStick>, from: int, to: int)
    ensures
        forall|i: int| 0 <= i < span_of(s, from, to).len() ==> s.contains(#[trigger] span_of(s, from, to)[i]),
    decreases s.len(),
{
    reveal(Seq::filter);
    if s.len() > 0 {
        let d = s.drop_last();
        lemma_span_from(d, from, to);
        let rd = span_of(d, from, to);
        let r = span_of(s, from, to);
        assert forall|i: int| 0 <= i < r.len() implies s.contains(#[trigger] r[i]) by {
            if i < rd.len() {
                assert(r[i] == rd[i]);
                assert(d.contains(rd[i]));
                let q = choose|q: int| 0 <= q < d.len() && d[q] == rd[i];
                assert(s[q] == r[i]);
            } else {
                assert(s[s.len() - 1] == r[i]);
            }
        }
    }
}

/// Why candles cannot be asked for.
#[derive(Clone, Copy, Debug, PartialEq, Eq, Structural)]
pub enum SpanError {
    /// The start is not before the end.
    Reversed { from: u64, to: u64 },
}

impl SpanError {
    /// What the error says.
    pub open spec fn text(self) -> Seq<char> {
        match self {
            SpanError::Reversed { from, to } => "`from` ("@ + decimal(from as nat) + ") should be smaller than `to` ("@
                + decimal(to as nat) + ")"@,
        }
    }

    /// What the error says.
    pub fn message(&self) -> (s: String)
        ensures
            s@ == self.text(),
    {
        match self {
            SpanError::Reversed { from, to } => {
                let mut s = "`from` (".to_owned();
                s.append(&decimal_text(*from));
                s.append(") should be smaller than `to` (");
                s.append(&decimal_text(*to));
                s.append(")");
                s
            },
        }
    }
}

/// What a request for candles needs.
#[derive(Debug)]
pub enum Lookup {
    /// Nothing: these are the candles.
    Hit(Vec<CandleStick>),
    /// Nothing: the market is closed for the whole span.
    Closed,
    /// The candles of this span, which is made of whole blocks.
    Fetch { from: u64, to: u64 },
}

/// The whole blocks that hold the span of trading from `a` to `b`.
pub open spec fn whole_blocks(a: int, b: int) -> (int, int) {
    (block_start(block_of(a)), block_start(block_of(b - 1) + 1))
}

/// Whether both ends are the first times at which the market is open at or
/// after the ends of the span.
pub open spec fn traded_span<C: Calendar>(calendar: C, from: u64, to: u64, secs: nat, a: u64, b: u64) -> bool {
    is_first_open(calendar, from, secs, a) && is_first_open(calendar, to, secs, b)
}

impl CandleBlocks {
    /// Looks candles up: from the blocks where they are complete for the span;
    /// else the whole blocks to fetch, or nothing where the market is closed.
    pub fn look_up<C: Calendar>(&mut self, calendar: &C, from: u64, to: u64, resolution: &str) -> (r: Result<
        Lookup,
        SpanError,
    >)
        requires
            old(self).inv(),
            to + resolution_secs(resolution@) + calendar.longest_close() + BLOCK_SECS <= i64::MAX,
        ensures
            final(self).inv(),
            final(self).same_blocks(*old(self)),
            from >= to <==> r is Err,
            from >= to ==> r == Err::<Lookup, SpanError>(SpanError::Reversed { from, to }) && *final(self) == *old(self),
            from < to ==> (r->Ok_0 is Hit <==> old(self).hit(from as int, to as int)),
            from < to && r->Ok_0 is Hit ==> in_time_order(r->Ok_0->Hit_0@) && forall|c: CandleStick| #[trigger]
                r->Ok_0->Hit_0@.contains(c) <==> within(c, from as int, to as int) && old(self).keeps(c),
            from < to && !(r->Ok_0 is Hit) ==> exists|a: u64, b: u64| #[trigger]
                traded_span(*calendar, from, to, resolution_secs(resolution@), a, b) && (if a >= b {
                    r->Ok_0 is Closed
                } else {
                    r->Ok_0 matches Lookup::Fetch { from: f, to: t } && (f as int, t as int) == whole_blocks(
                        a as int,
                        b as int,
                    )
                }),
    {
        if from >= to {
            return Err(SpanError::Reversed { from, to });
        }
        match self.try_read_blocks(from, to) {
            Some(candles) => Ok(Lookup::Hit(candles)),
            None => {
                let a = first_open(calendar, from, resolution);
                let b = first_open(calendar, to, resolution);
                assert(traded_span(*calendar, from, to, resolution_secs(resolution@), a, b));
                if a >= b {
                    Ok(Lookup::Closed)
                } else {
                    let first = block_id(a);
                    let last = block_id(b - 1);
                    assert(last * BLOCK_SECS <= b && first * BLOCK_SECS <= a) by (nonlinear_arith)
                        requires
                            last == (b - 1) / (BLOCK_SECS as int),
                            first == a as int / (BLOCK_SECS as int),
                            a < b,
                    ;
                    Ok(Lookup::Fetch { from: first * BLOCK_SECS, to: last * BLOCK_SECS + BLOCK_SECS })
                }
            },
        }
    }

    /// Takes in what a fetch of whole blocks brought, and gives the candles of
    /// the span that was wanted.
    pub fn store_fetched(
        &mut self,
        candles: &Vec<CandleStick>,
        block_from: u64,
        block_to: u64,
        from: u64,
        to: u64,
        now: u64,
    ) -> (r: Vec<CandleStick>)
        requires
            old(self).inv(),
            block_from < block_to,
            block_to + BLOCK_SECS <= i64::MAX,
        ensures
            CandleBlocks::updated(*old(self), *final(self), candles@, block_from as int, block_to as int, now < to),
            r@ == span_of(candles@, from as int, to as int),
    {
        self.update_blocks(candles, block_from, block_to, to, now);
        candles_within(candles, from, to)
    }
}

/// The most times that an empty reply is asked for again.
pub const MAX_RETRIES: u32 = 3;

/// What to do with a reply.
#[derive(Clone, Copy, Debug, PartialEq, Eq, Structural)]
pub enum Reply {
    /// Take it as it is.
    Take,
    /// Wait a moment and ask again.
    AskAgain,
    /// Give up: the data is late.
    TimedOut,
}

/// What to do with the reply to request number `asked` (the first is 0). An
/// empty reply stands where the span lies behind the clock; else it is asked for
/// again, a few times.
pub fn judge_reply(empty: bool, asked: u32, to: u64, now: u64) -> (r: Reply)
    ensures
        r == (if !empty || (asked == 0 && to <= now) {
            Reply::Take
        } else if asked >= MAX_RETRIES {
            Reply::TimedOut
        } else {
            Reply::AskAgain
        }),
{
    if !empty || (asked == 0 && to <= now) {
        Reply::Take
    } else if asked >= MAX_RETRIES {
        Reply::TimedOut
    } else {
        Reply::AskAgain
    }
}

/// The key under which the blocks of a resolution are kept for trading.
pub fn trade_key(resolution: &str) -> (s: String)
    ensures
        s@ == resolution@ + ":trade"@,
{
    let mut s = resolution.to_owned();
    s.append(":trade");
    s
}

/// The key under which the blocks of a resolution are kept for building plans.
pub fn analysis_key(resolution: &str) -> (s: String)
    ensures
        s@ == resolution@ + ":analysis"@,
{
    let mut s = resolution.to_owned();
    s.append(":analysis");
    s
}

proof fn lemma_extended(
    a: CandleBlocks,
    before: Seq<CandleStick>,
    part: Seq<CandleStick>,
    bid: int,
    from: int,
    to: int,
    after: Seq<CandleStick>,
)
    requires
        a.inv(),
        0 <= bid <= u64::MAX,
        a.lru.has(bid as u64),
        after == before + part,
        in_time_order(before),
        in_time_order(part),
        forall|c: CandleStick| #[trigger]
            before.contains(c) <==> within(c, from, to) && a.keeps(c) && block_of(c.t as int) < bid,
        forall|c: CandleStick| #[trigger]
            part.contains(c) <==> a.lru.at(bid as u64).candles@.contains(c) && within(
                c,
                greater_of(from, block_start(bid)),
                lesser_of(to, block_start(bid + 1)),
            ),
    ensures
        in_time_order(after),
        forall|c: CandleStick| #[trigger]
            after.contains(c) <==> within(c, from, to) && a.keeps(c) && block_of(c.t as int) < bid + 1,
{
    let block = a.lru.at(bid as u64);
    assert(block.sound(bid));
    assert forall|c: CandleStick| block.candles@.contains(c) implies block_of(c.t as int) == bid && 0 <= c.t by {
        let i = choose|i: int| 0 <= i < block.candles@.len() && block.candles@[i] == c;
        assert(block.candles@[i].t >= 0);
    }
    assert forall|i: int, j: int| 0 <= i < j < after.len() implies (#[trigger] after[i]).t < (#[trigger] after[j]).t by {
        if j < before.len() {
            assert(before[i].t < before[j].t);
        } else if i >= before.len() {
            assert(part[i - before.len()].t < part[j - before.len()].t);
        } else {
            assert(before.contains(before[i]));
            assert(part.contains(part[j - before.len()]));
        }
    }
    assert forall|c: CandleStick| #[trigger] after.contains(c) <==> within(c, from, to) && a.keeps(c) && block_of(
        c.t as int,
    ) < bid + 1 by {
        if after.contains(c) {
            let i = choose|i: int| 0 <= i < after.len() && after[i] == c;
            if i < before.len() {
                assert(before[i] == c);
                assert(before.contains(c));
            } else {
                assert(part[i - before.len()] == c);
                assert(part.contains(c));
            }
        }
        if within(c, from, to) && a.keeps(c) && block_of(c.t as int) < bid + 1 {
            if block_of(c.t as int) < bid {
                assert(before.contains(c));
                let i = choose|i: int| 0 <= i < before.len() && before[i] == c;
                assert(after[i] == c);
            } else {
                assert(part.contains(c));
                let i = choose|i: int| 0 <= i < part.len() && part[i] == c;
                assert(after[before.len() + i] == c);
            }
        }
    }
}

proof fn lemma_merged_sound(prev: BlockCache, candles: Seq<CandleStick>, bid: int, merged: Seq<CandleStick>)
    requires
        prev.sound(bid),
        0 <= bid,
        arranged(prev.candles@ + span_of(candles, block_start(bid), block_start(bid + 1)), merged),
    ensures
        forall|i: int|
            0 <= i < merged.len() ==> (#[trigger] merged[i]).t >= 0 && block_of(merged[i].t as int) == bid,
{
    let group = span_of(candles, block_start(bid), block_start(bid + 1));
    let all = prev.candles@ + group;
    lemma_span_members(candles, block_start(bid), block_start(bid + 1));
    assert forall|i: int| 0 <= i < merged.len() implies (#[trigger] merged[i]).t >= 0 && block_of(merged[i].t as int)
        == bid by {
        let c = merged[i];
        assert(merged.contains(c));
        assert(is_first(all, c));
        let k = choose|k: int|
            0 <= k < all.len() && #[trigger] all[k] == c && forall|j: int| 0 <= j < k ==> (#[trigger] all[j]).t != c.t;
        if k < prev.candles@.len() {
            assert(prev.candles@[k] == c);
        } else {
            assert(group[k - prev.candles@.len()] == c);
            assert(within(c, block_start(bid), block_start(bid + 1)));
        }
    }
}

pub proof fn lemma_span_members(s: Seq<CandleStick>, from: int, to: int)
    ensures
        forall|i: int| 0 <= i < span_of(s, from, to).len() ==> within(#[trigger] span_of(s, from, to)[i], from, to),
        forall|c: CandleStick| s.contains(c) && within(c, from, to) ==> #[trigger] span_of(s, from, to).contains(c),
    decreases s.len(),
{
    reveal(Seq::filter);
    let r = span_of(s, from, to);
    if s.len() > 0 {
        let d = s.drop_last();
        lemma_span_members(d, from, to);
        let rd = span_of(d, from, to);
        assert forall|c: CandleStick| s.contains(c) && within(c, from, to) implies #[trigger] r.contains(c) by {
            let i = choose|i: int| 0 <= i < s.len() && s[i] == c;
            if i < d.len() {
                assert(d[i] == c);
                assert(rd.contains(c));
                let k = choose|k: int| 0 <= k < rd.len() && rd[k] == c;
                assert(r[k] == c);
            } else {
                assert(r[rd.len() as int] == c);
            }
        }
        assert forall|i: int| 0 <= i < r.len() implies within(#[trigger] r[i], from, to) by {
            if i < rd.len() {
                assert(r[i] == rd[i]);
            }
        }
    }
}

proof fn lemma_gap_small(s: Seq<CandleStick>)
    requires
        in_time_order(s),
        forall|i: int| 0 <= i < s.len() ==> (#[trigger] s[i]).t >= 0,
    ensures
        0 < least_gap(s) <= i64::MAX,
    decreases s.len(),
{
    if s.len() >= 2 {
        assert(s[s.len() - 2].t < s[s.len() - 1].t);
        if s.len() > 2 {
            let d = s.drop_last();
            assert forall|i: int, j: int| 0 <= i < j < d.len() implies (#[trigger] d[i]).t < (#[trigger] d[j]).t by {
                assert(s[i].t < s[j].t);
            }
            assert forall|i: int| 0 <= i < d.len() implies (#[trigger] d[i]).t >= 0 by {
                assert(s[i].t >= 0);
            }
            lemma_gap_small(d);
        }
    }
}

} // verus!
