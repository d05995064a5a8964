//! What a history of orders amounts to.
use vstd::prelude::*;

use crate::arith::{
    add_up, calculate, calculates, count, difference, product, quotient, ratio, ratio_or, root, sum, total, unsigned,
    without_sign, Calculation, HUNDRED_BITS, ONE_BITS,
};
use crate::num::{Num, INFINITY_BITS};
use crate::order::{Order, OrderType};
use crate::score::{empty_report, Report};

verus! {

/// The profits of the closed orders among the first `n`, in their order.
pub open spec fn profits_to(orders: Seq<Order>, n: nat) -> Seq<Num>
    decreases n,
{
    if n == 0 {
        Seq::empty()
    } else {
        let before = profits_to(orders, (n - 1) as nat);
        match orders[n - 1].pnl_pct {
            Some(p) => before.push(p),
            None => before,
        }
    }
}

/// Whether a profit is a win. What is no number is a loss.
pub open spec fn won(p: Num) -> bool {
    (Num { bits: 0 }).below(p)
}

/// Whether an order was closed.
pub open spec fn is_closed(o: Order) -> bool {
    o.pnl_pct is Some
}

/// How many of the first `n` orders were closed on this side, and how many of
/// those won.
pub open spec fn side_count(orders: Seq<Order>, side: OrderType, winners: bool, n: nat) -> nat
    decreases n,
{
    if n == 0 {
        0
    } else {
        let o = orders[n - 1];
        let one: nat = if is_closed(o) && o.dtype == side && (winners ==> won(o.pnl_pct->0)) {
            1
        } else {
            0
        };
        side_count(orders, side, winners, (n - 1) as nat) + one
    }
}

/// How many of the profits are wins.
pub open spec fn wins_in(p: Seq<Num>) -> nat
    decreases p.len(),
{
    if p.len() == 0 {
        0
    } else {
        wins_in(p.drop_last()) + if won(p.last()) {
            1nat
        } else {
            0nat
        }
    }
}

/// Whether the `len` profits before `end` are all losses.
pub open spec fn losing_run(p: Seq<Num>, end: int, len: int) -> bool {
    &&& 0 <= len <= end <= p.len()
    &&& forall|k: int| end - len <= k < end ==> !won(#[trigger] p[k])
}

/// Whether `n` is the length of the longest run of losses.
pub open spec fn is_longest_losing_run(p: Seq<Num>, n: int) -> bool {
    &&& exists|end: int| #[trigger] losing_run(p, end, n)
    &&& forall|end: int, len: int| #[trigger] losing_run(p, end, len) ==> len <= n
}

/// The counts that a report is made of.
#[derive(Debug)]
pub struct Tally {
    /// Every order of the history, closed or not.
    pub total_trades: usize,
    pub wins: usize,
    pub long_trades: usize,
    pub long_wins: usize,
    pub short_trades: usize,
    pub short_wins: usize,
    pub max_consecutive_losses: usize,
    /// The profits of the closed orders, in their order.
    pub profits: Vec<Num>,
}

/// Whether a tally is that of a history.
pub open spec fn tallied(orders: Seq<Order>, t: Tally) -> bool {
    let n = orders.len();
    let p = profits_to(orders, n);
    &&& t.total_trades == n
    &&& t.profits@ == p
    &&& t.wins == wins_in(p)
    &&& t.long_trades == side_count(orders, OrderType::Long, false, n)
    &&& t.long_wins == side_count(orders, OrderType::Long, true, n)
    &&& t.short_trades == side_count(orders, OrderType::Short, false, n)
    &&& t.short_wins == side_count(orders, OrderType::Short, true, n)
    &&& is_longest_losing_run(p, t.max_consecutive_losses as int)
}

/// Counts a history of orders.
pub fn convert_order_history_into_tally(orders: &Vec<Order>) -> (t: Tally)
    ensures
        tallied(orders@, t),
{
    let ghost os = orders@;
    let n: usize = orders.len();
    let mut profits: Vec<Num> = Vec::new();
    let mut wins: usize = 0;
    let mut long_trades: usize = 0;
    let mut long_wins: usize = 0;
    let mut short_trades: usize = 0;
    let mut short_wins: usize = 0;
    let mut run: usize = 0;
    let mut longest: usize = 0;
    let mut i: usize = 0;
    proof {
        assert(losing_run(profits@, 0, 0));
    }
    while i < n
        invariant
            os == orders@,
            n == os.len(),
            i <= n,
            profits@ == profits_to(os, i as nat),
            profits@.len() <= i,
            wins == wins_in(profits@),
            wins <= i,
            long_trades == side_count(os, OrderType::Long, false, i as nat),
            long_wins == side_count(os, OrderType::Long, true, i as nat),
            short_trades == side_count(os, OrderType::Short, false, i as nat),
            short_wins == side_count(os, OrderType::Short, true, i as nat),
            long_trades <= i && long_wins <= i && short_trades <= i && short_wins <= i,
            run <= i && longest <= i,
            losing_run(profits@, profits@.len() as int, run as int),
            run < profits@.len() ==> won(profits@[profits@.len() - run - 1]),
            is_longest_losing_run(profits@, longest as int),
        decreases n - i,
    {
        let o = orders[i];
        let ghost before = profits@;
        if let Some(pnl) = o.pnl_pct {
            profits.push(pnl);
            let good = pnl.is_positive();
            assert(good == won(pnl));
            assert(profits@.drop_last() =~= before);
            match o.dtype {
                OrderType::Long => {
                    long_trades += 1;
                    if good {
                        long_wins += 1;
                    }
                },
                OrderType::Short => {
                    short_trades += 1;
                    if good {
                        short_wins += 1;
                    }
                },
                _ => {},
            }
            let ghost was = longest;
            let ghost run0 = run;
            if good {
                wins += 1;
                run = 0;
            } else {
                run += 1;
                if run > longest {
                    longest = run;
                }
            }
            proof {
                lemma_longer(before, profits@, pnl, run0 as int, was as int, run as int, longest as int);
            }
        }
        i += 1;
    }
    Tally {
        total_trades: n,
        wins,
        long_trades,
        long_wins,
        short_trades,
        short_wins,
        max_consecutive_losses: longest,
        profits,
    }
}

proof fn lemma_longer(before: Seq<Num>, after: Seq<Num>, p: Num, run0: int, longest0: int, run: int, longest: int)
    requires
        after == before.push(p),
        losing_run(before, before.len() as int, run0),
        run0 < before.len() ==> won(before[before.len() - run0 - 1]),
        is_longest_losing_run(before, longest0),
        run == (if won(p) {
            0
        } else {
            run0 + 1
        }),
        longest == (if run > longest0 {
            run
        } else {
            longest0
        }),
    ensures
        losing_run(after, after.len() as int, run),
        run < after.len() ==> won(after[after.len() - run - 1]),
        is_longest_losing_run(after, longest),
{
    assert forall|k: int| after.len() - run <= k < after.len() implies !won(#[trigger] after[k]) by {
        if k < before.len() {
            assert(after[k] == before[k]);
        }
    }
    assert(losing_run(after, after.len() as int, run));
    if run < after.len() {
        if won(p) {
            assert(after[after.len() - 1] == p);
        } else {
            assert(after[after.len() - run - 1] == before[before.len() - run0 - 1]);
        }
    }
    let e = choose|e: int| #[trigger] losing_run(before, e, longest0);
    assert(losing_run(after, e, longest0)) by {
        assert forall|k: int| e - longest0 <= k < e implies !won(#[trigger] after[k]) by {
            assert(after[k] == before[k]);
        }
    }
    assert forall|end: int, len: int| #[trigger] losing_run(after, end, len) implies len <= longest by {
        if end <= before.len() {
            assert forall|k: int| end - len <= k < end implies !won(#[trigger] before[k]) by {
                assert(after[k] == before[k]);
            }
            assert(losing_run(before, end, len));
        } else if len > run {
            assert(!won(after[after.len() - run - 1]));
        }
    }
}

/// Wins and losses make up the closed orders, and either side's wins are among
/// its trades.
pub proof fn counts_agree(orders: Seq<Order>, t: Tally)
    requires
        tallied(orders, t),
    ensures
        t.wins <= t.profits@.len() <= t.total_trades,
        t.long_wins <= t.long_trades,
        t.short_wins <= t.short_trades,
        t.long_trades + t.short_trades <= t.profits@.len(),
        t.max_consecutive_losses + t.wins <= t.profits@.len(),
{
    let n = orders.len();
    lemma_counts(orders, n);
    let p = t.profits@;
    let end = choose|end: int| #[trigger] losing_run(p, end, t.max_consecutive_losses as int);
    lemma_wins_outside(p, end, t.max_consecutive_losses as int);
}

proof fn lemma_counts(orders: Seq<Order>, n: nat)
    requires
        n <= orders.len(),
    ensures
        profits_to(orders, n).len() <= n,
        side_count(orders, OrderType::Long, true, n) <= side_count(orders, OrderType::Long, false, n),
        side_count(orders, OrderType::Short, true, n) <= side_count(orders, OrderType::Short, false, n),
        side_count(orders, OrderType::Long, false, n) + side_count(orders, OrderType::Short, false, n) <= profits_to(
            orders,
            n,
        ).len(),
    decreases n,
{
    if n > 0 {
        lemma_counts(orders, (n - 1) as nat);
    }
}

proof fn lemma_wins_outside(p: Seq<Num>, end: int, len: int)
    requires
        losing_run(p, end, len),
    ensures
        wins_in(p) + len <= p.len(),
    decreases p.len(),
{
    if p.len() > 0 {
        let d = p.drop_last();
        if end == p.len() && len > 0 {
            assert(!won(p[p.len() - 1]));
            assert forall|k: int| end - len <= k < end - 1 implies !won(#[trigger] d[k]) by {
                assert(d[k] == p[k]);
            }
            assert(losing_run(d, end - 1, len - 1));
            lemma_wins_outside(d, end - 1, len - 1);
        } else {
            let e = if end == p.len() { end - 1 } else { end };
            assert forall|k: int| e - len <= k < e implies !won(#[trigger] d[k]) by {
                assert(d[k] == p[k]);
            }
            assert(losing_run(d, e, len));
            lemma_wins_outside(d, e, len);
        }
    }
}

/// The highest that a running sum of profits has stood, zero at the start.
pub open spec fn peak<F: Fn(Calculation) -> Num>(f: F, p: Seq<Num>) -> Num
    decreases p.len(),
{
    if p.len() == 0 {
        Num { bits: 0 }
    } else {
        let before = peak(f, p.drop_last());
        if before.below(total(f, p)) {
            total(f, p)
        } else {
            before
        }
    }
}

/// The deepest that a running sum of profits has stood below its peak.
pub open spec fn drawdown<F: Fn(Calculation) -> Num>(f: F, p: Seq<Num>) -> Num
    decreases p.len(),
{
    if p.len() == 0 {
        Num { bits: 0 }
    } else {
        let before = drawdown(f, p.drop_last());
        let high = peak(f, p.drop_last());
        if high.below(total(f, p)) {
            before
        } else {
            before.greater(difference(f, high, total(f, p)))
        }
    }
}

/// A drawdown is not negative, whatever the profits are.
pub proof fn a_drawdown_is_not_negative<F: Fn(Calculation) -> Num>(f: F, p: Seq<Num>)
    ensures
        (Num { bits: 0 }).at_most(drawdown(f, p)),
    decreases p.len(),
{
    if p.len() > 0 {
        a_drawdown_is_not_negative(f, p.drop_last());
    }
}

/// What the wins earned.
pub open spec fn gross_profit<F: Fn(Calculation) -> Num>(f: F, p: Seq<Num>) -> Num
    decreases p.len(),
{
    if p.len() == 0 {
        Num { bits: 0 }
    } else {
        let before = gross_profit(f, p.drop_last());
        if won(p.last()) {
            sum(f, before, p.last())
        } else {
            before
        }
    }
}

/// What the losses cost.
pub open spec fn gross_loss<F: Fn(Calculation) -> Num>(f: F, p: Seq<Num>) -> Num
    decreases p.len(),
{
    if p.len() == 0 {
        Num { bits: 0 }
    } else {
        let before = gross_loss(f, p.drop_last());
        if won(p.last()) {
            before
        } else {
            sum(f, before, unsigned(p.last()))
        }
    }
}

/// The sum of the squared distances from a mean.
pub open spec fn spread<F: Fn(Calculation) -> Num>(f: F, p: Seq<Num>, mean: Num) -> Num
    decreases p.len(),
{
    if p.len() == 0 {
        Num { bits: 0 }
    } else {
        let d = difference(f, p.last(), mean);
        sum(f, spread(f, p.drop_last(), mean), product(f, d, d))
    }
}

/// The sum of the squares of what is below zero.
pub open spec fn downside<F: Fn(Calculation) -> Num>(f: F, p: Seq<Num>) -> Num
    decreases p.len(),
{
    if p.len() == 0 {
        Num { bits: 0 }
    } else {
        let before = downside(f, p.drop_last());
        if p.last().below(Num { bits: 0 }) {
            sum(f, before, product(f, p.last(), p.last()))
        } else {
            before
        }
    }
}

/// The profit in money of the first `n` orders.
pub open spec fn earned<F: Fn(Calculation) -> Num>(f: F, orders: Seq<Order>, n: nat) -> Num
    decreases n,
{
    if n == 0 {
        Num { bits: 0 }
    } else {
        let before = earned(f, orders, (n - 1) as nat);
        match orders[n - 1].pnl_pct {
            Some(p) => sum(f, before, product(f, orders[n - 1].size, p)),
            None => before,
        }
    }
}

/// A number as a percentage.
pub open spec fn percent<F: Fn(Calculation) -> Num>(f: F, a: Num) -> Num {
    product(f, a, Num { bits: HUNDRED_BITS })
}

/// The mean of a sum, where there is anything to divide by.
pub open spec fn mean_of<F: Fn(Calculation) -> Num>(f: F, a: Num, n: usize) -> Num {
    if n > 0 {
        quotient(f, a, count(f, n as int))
    } else {
        Num { bits: 0 }
    }
}

/// The share of wins in trades as a percentage; zero without trades.
pub open spec fn win_share<F: Fn(Calculation) -> Num>(f: F, wins: usize, trades: usize) -> Num {
    if trades > 0 {
        percent(f, quotient(f, count(f, wins as int), count(f, trades as int)))
    } else {
        Num { bits: 0 }
    }
}

/// A mean over a deviation, scaled to the number of trades; zero where nothing
/// deviates.
pub open spec fn scaled<F: Fn(Calculation) -> Num>(f: F, mean: Num, deviation: Num, trades: usize) -> Num {
    if (Num { bits: 0 }).below(deviation) {
        product(f, quotient(f, mean, deviation), root(f, count(f, trades as int)))
    } else {
        Num { bits: 0 }
    }
}

/// The report of a history that is not empty, given its counts.
pub open spec fn report_of<F: Fn(Calculation) -> Num>(f: F, orders: Seq<Order>, t: Tally) -> Report {
    let p = t.profits@;
    let n = count(f, t.total_trades as int);
    let zero = Num { bits: 0 };
    let endless = Num { bits: INFINITY_BITS };
    let net = total(f, p);
    let mean = quotient(f, net, n);
    let win_rate = quotient(f, count(f, t.wins as int), n);
    let avg_win = mean_of(f, gross_profit(f, p), t.wins);
    let avg_loss = mean_of(f, gross_loss(f, p), (t.total_trades - t.wins) as usize);
    let deviation = root(f, quotient(f, spread(f, p, mean), n));
    let down = root(f, quotient(f, downside(f, p), n));
    Report {
        total_trades: t.total_trades,
        win_rate: percent(f, win_rate),
        net_pnl_pct: percent(f, net),
        total_return: percent(f, net),
        profit_factor: ratio(f, gross_profit(f, p), gross_loss(f, p), endless),
        expectancy: percent(
            f,
            difference(
                f,
                product(f, win_rate, avg_win),
                product(f, difference(f, Num { bits: ONE_BITS }, win_rate), avg_loss),
            ),
        ),
        sharpe_ratio: scaled(f, mean, deviation, t.total_trades),
        sortino_ratio: scaled(f, mean, down, t.total_trades),
        calmar_ratio: ratio(f, net, drawdown(f, p), zero),
        max_drawdown_pct: percent(f, drawdown(f, p)),
        max_consecutive_losses: t.max_consecutive_losses,
        avg_win_pct: percent(f, avg_win),
        avg_loss_pct: percent(f, avg_loss),
        win_loss_ratio: ratio(f, avg_win, avg_loss, endless),
        long_trades: t.long_trades,
        long_win_rate: win_share(f, t.long_wins, t.long_trades),
        short_trades: t.short_trades,
        short_win_rate: win_share(f, t.short_wins, t.short_trades),
        net_pnl_abs: earned(f, orders, orders.len()),
    }
}

/// Whether a report is that of a history.
pub open spec fn is_report_of<F: Fn(Calculation) -> Num>(f: F, orders: Seq<Order>, r: Report) -> bool {
    &&& orders.len() == 0 ==> r == empty_report()
    &&& orders.len() > 0 ==> exists|t: Tally| #[trigger] tallied(orders, t) && r == report_of(f, orders, t)
}

/// How many of the first `n` orders are picked.
spec fn picked(orders: Seq<Order>, pick: spec_fn(Order) -> bool, n: nat) -> nat
    decreases n,
{
    if n == 0 {
        0
    } else {
        picked(orders, pick, (n - 1) as nat) + if pick(orders[n - 1]) {
            1nat
        } else {
            0nat
        }
    }
}

proof fn lemma_picked_of_all(orders: Seq<Order>, pick: spec_fn(Order) -> bool, n: nat)
    requires
        n <= orders.len(),
    ensures
        picked(orders, pick, n) == orders.take(n as int).to_multiset().filter(pick).len(),
    decreases n,
{
    broadcast use vstd::seq_lib::group_to_multiset_ensures;
    broadcast use vstd::multiset::group_multiset_axioms;

    if n == 0 {
        assert(orders.take(0) =~= Seq::empty());
        assert(orders.take(0).to_multiset().filter(pick) =~= vstd::multiset::Multiset::empty());
    } else {
        lemma_picked_of_all(orders, pick, (n - 1) as nat);
        let before = orders.take(n - 1);
        let o = orders[n - 1];
        assert(orders.take(n as int) =~= before.push(o));
        let m = before.to_multiset();
        assert(before.push(o).to_multiset() =~= m.insert(o));
        if pick(o) {
            assert(m.insert(o).filter(pick) =~= m.filter(pick).insert(o));
        } else {
            assert(m.insert(o).filter(pick) =~= m.filter(pick));
        }
    }
}

proof fn lemma_side_picked(orders: Seq<Order>, side: OrderType, winners: bool, n: nat)
    ensures
        side_count(orders, side, winners, n) == picked(
            orders,
            |o: Order| is_closed(o) && o.dtype == side && (winners ==> won(o.pnl_pct->0)),
            n,
        ),
    decreases n,
{
    if n > 0 {
        lemma_side_picked(orders, side, winners, (n - 1) as nat);
    }
}

proof fn lemma_wins_picked(orders: Seq<Order>, n: nat)
    ensures
        wins_in(profits_to(orders, n)) == picked(orders, |o: Order| is_closed(o) && won(o.pnl_pct->0), n),
    decreases n,
{
    if n > 0 {
        lemma_wins_picked(orders, (n - 1) as nat);
        let before = profits_to(orders, (n - 1) as nat);
        if let Some(p) = orders[n - 1].pnl_pct {
            assert(before.push(p).drop_last() =~= before);
        }
    }
}

proof fn lemma_reordered(a: Seq<Order>, b: Seq<Order>, pick: spec_fn(Order) -> bool)
    requires
        a.to_multiset() == b.to_multiset(),
    ensures
        a.len() == b.len(),
        picked(a, pick, a.len()) == picked(b, pick, b.len()),
{
    broadcast use vstd::seq_lib::group_to_multiset_ensures;

    assert(a.len() == a.to_multiset().len());
    assert(b.len() == b.to_multiset().len());
    lemma_picked_of_all(a, pick, a.len());
    lemma_picked_of_all(b, pick, b.len());
    assert(a.take(a.len() as int) =~= a);
    assert(b.take(b.len() as int) =~= b);
}

/// What a report counts does not depend on the order of the history: reports of
/// the same orders in another order agree on the trades, the wins, and those of
/// either side. All orders are trades, and either side's are among them.
pub proof fn a_reordered_history_counts_the_same<F: Fn(Calculation) -> Num>(
    f: F,
    a: Seq<Order>,
    b: Seq<Order>,
    x: Report,
    y: Report,
)
    requires
        a.to_multiset() == b.to_multiset(),
        is_report_of(f, a, x),
        is_report_of(f, b, y),
    ensures
        x.total_trades == y.total_trades,
        x.win_rate == y.win_rate,
        x.long_trades == y.long_trades,
        x.long_win_rate == y.long_win_rate,
        x.short_trades == y.short_trades,
        x.short_win_rate == y.short_win_rate,
        x.total_trades == a.len(),
        x.long_trades + x.short_trades <= x.total_trades,
{
    let n = a.len();
    lemma_reordered(a, b, |o: Order| is_closed(o) && won(o.pnl_pct->0));
    lemma_wins_picked(a, n);
    lemma_wins_picked(b, n);
    assert forall|side: OrderType, winners: bool|
        side_count(a, side, winners, n) == #[trigger] side_count(b, side, winners, n) by {
        lemma_side_picked(a, side, winners, n);
        lemma_side_picked(b, side, winners, n);
        lemma_reordered(a, b, |o: Order| is_closed(o) && o.dtype == side && (winners ==> won(o.pnl_pct->0)));
    }
    if n > 0 {
        let s = choose|t: Tally| #[trigger] tallied(a, t) && x == report_of(f, a, t);
        let t = choose|t: Tally| #[trigger] tallied(b, t) && y == report_of(f, b, t);
        counts_agree(a, s);
        assert(s.long_trades == t.long_trades && s.short_trades == t.short_trades);
        assert(s.long_wins == t.long_wins && s.short_wins == t.short_wins);
        assert(s.wins == t.wins);
    }
}

fn as_percent<F: Fn(Calculation) -> Num>(f: &F, a: Num) -> (r: Num)
    requires
        calculates(*f),
    ensures
        r == percent(*f, a),
{
    calculate(f, Calculation::Product(a, Num { bits: HUNDRED_BITS }))
}

fn mean<F: Fn(Calculation) -> Num>(f: &F, a: Num, n: usize) -> (r: Num)
    requires
        calculates(*f),
    ensures
        r == mean_of(*f, a, n),
{
    if n > 0 {
        let c = calculate(f, Calculation::Count(n as u128));
        calculate(f, Calculation::Quotient(a, c))
    } else {
        Num::zero()
    }
}

fn share_of_wins<F: Fn(Calculation) -> Num>(f: &F, wins: usize, trades: usize) -> (r: Num)
    requires
        calculates(*f),
    ensures
        r == win_share(*f, wins, trades),
{
    if trades > 0 {
        let w = calculate(f, Calculation::Count(wins as u128));
        let t = calculate(f, Calculation::Count(trades as u128));
        as_percent(f, calculate(f, Calculation::Quotient(w, t)))
    } else {
        Num::zero()
    }
}

fn scale<F: Fn(Calculation) -> Num>(f: &F, mean: Num, deviation: Num, trades: usize) -> (r: Num)
    requires
        calculates(*f),
    ensures
        r == scaled(*f, mean, deviation, trades),
{
    if deviation.is_positive() {
        let q = calculate(f, Calculation::Quotient(mean, deviation));
        let n = calculate(f, Calculation::Count(trades as u128));
        let s = calculate(f, Calculation::Root(n));
        calculate(f, Calculation::Product(q, s))
    } else {
        Num::zero()
    }
}

fn root_of_mean<F: Fn(Calculation) -> Num>(f: &F, a: Num, n: Num) -> (r: Num)
    requires
        calculates(*f),
    ensures
        r == root(*f, quotient(*f, a, n)),
{
    let q = calculate(f, Calculation::Quotient(a, n));
    calculate(f, Calculation::Root(q))
}

/// The drawdown, the gross profit, the gross loss and the squares of what is
/// below zero.
fn course<F: Fn(Calculation) -> Num>(f: &F, p: &Vec<Num>) -> (r: (Num, Num, Num, Num))
    requires
        calculates(*f),
    ensures
        r == (drawdown(*f, p@), gross_profit(*f, p@), gross_loss(*f, p@), downside(*f, p@)),
{
    let zero = Num::zero();
    let mut equity = zero;
    let mut high = zero;
    let mut deepest = zero;
    let mut profit = zero;
    let mut loss = zero;
    let mut down = zero;
    let mut i: usize = 0;
    while i < p.len()
        invariant
            i <= p@.len(),
            zero == (Num { bits: 0 }),
            calculates(*f),
            equity == total(*f, p@.take(i as int)),
            high == peak(*f, p@.take(i as int)),
            deepest == drawdown(*f, p@.take(i as int)),
            profit == gross_profit(*f, p@.take(i as int)),
            loss == gross_loss(*f, p@.take(i as int)),
            down == downside(*f, p@.take(i as int)),
        decreases p@.len() - i,
    {
        let x = p[i];
        proof {
            let next = p@.take(i + 1);
            assert(next.drop_last() =~= p@.take(i as int));
            assert(next.last() == x);
        }
        equity = calculate(f, Calculation::Sum(equity, x));
        if high.lt(equity) {
            high = equity;
        } else {
            deepest = deepest.max(calculate(f, Calculation::Difference(high, equity)));
        }
        if x.is_positive() {
            profit = calculate(f, Calculation::Sum(profit, x));
        } else {
            loss = calculate(f, Calculation::Sum(loss, without_sign(x)));
        }
        if x.lt(zero) {
            let sq = calculate(f, Calculation::Product(x, x));
            down = calculate(f, Calculation::Sum(down, sq));
        }
        i += 1;
    }
    assert(p@.take(i as int) =~= p@);
    (deepest, profit, loss, down)
}

fn spread_around<F: Fn(Calculation) -> Num>(f: &F, p: &Vec<Num>, mean: Num) -> (r: Num)
    requires
        calculates(*f),
    ensures
        r == spread(*f, p@, mean),
{
    let mut s = Num::zero();
    let mut i: usize = 0;
    while i < p.len()
        invariant
            i <= p@.len(),
            calculates(*f),
            s == spread(*f, p@.take(i as int), mean),
        decreases p@.len() - i,
    {
        proof {
            assert(p@.take(i + 1).drop_last() =~= p@.take(i as int));
            assert(p@.take(i + 1).last() == p@[i as int]);
        }
        let d = calculate(f, Calculation::Difference(p[i], mean));
        let sq = calculate(f, Calculation::Product(d, d));
        s = calculate(f, Calculation::Sum(s, sq));
        i += 1;
    }
    assert(p@.take(i as int) =~= p@);
    s
}

fn money<F: Fn(Calculation) -> Num>(f: &F, orders: &Vec<Order>) -> (r: Num)
    requires
        calculates(*f),
    ensures
        r == earned(*f, orders@, orders@.len()),
{
    let mut m = Num::zero();
    let mut i: usize = 0;
    while i < orders.len()
        invariant
            i <= orders@.len(),
            calculates(*f),
            m == earned(*f, orders@, i as nat),
        decreases orders@.len() - i,
    {
        let o = orders[i];
        if let Some(p) = o.pnl_pct {
            let x = calculate(f, Calculation::Product(o.size, p));
            m = calculate(f, Calculation::Sum(m, x));
        }
        i += 1;
    }
    m
}

/// The report of a history of orders.
pub fn convert_order_history_into_report<F: Fn(Calculation) -> Num>(orders: &Vec<Order>, f: &F) -> (r: Report)
    requires
        calculates(*f),
    ensures
        is_report_of(*f, orders@, r),
{
    if orders.len() == 0 {
        return Report::default();
    }
    let t = convert_order_history_into_tally(orders);
    proof {
        counts_agree(orders@, t);
    }
    let n = calculate(f, Calculation::Count(t.total_trades as u128));
    let net = add_up(f, &t.profits);
    let (deepest, profit, loss, down) = course(f, &t.profits);
    let average = calculate(f, Calculation::Quotient(net, n));
    let won_count = calculate(f, Calculation::Count(t.wins as u128));
    let win_rate = calculate(f, Calculation::Quotient(won_count, n));
    let avg_win = mean(f, profit, t.wins);
    let avg_loss = mean(f, loss, t.total_trades - t.wins);
    let deviation = root_of_mean(f, spread_around(f, &t.profits, average), n);
    let down_deviation = root_of_mean(f, down, n);
    let gain = calculate(f, Calculation::Product(win_rate, avg_win));
    let lose_rate = calculate(f, Calculation::Difference(Num { bits: ONE_BITS }, win_rate));
    let cost = calculate(f, Calculation::Product(lose_rate, avg_loss));
    let expected = calculate(f, Calculation::Difference(gain, cost));
    let zero = Num::zero();
    let endless = Num { bits: INFINITY_BITS };
    let r = Report {
        total_trades: t.total_trades,
        win_rate: as_percent(f, win_rate),
        net_pnl_pct: as_percent(f, net),
        total_return: as_percent(f, net),
        profit_factor: ratio_or(f, profit, loss, endless),
        expectancy: as_percent(f, expected),
        sharpe_ratio: scale(f, average, deviation, t.total_trades),
        sortino_ratio: scale(f, average, down_deviation, t.total_trades),
        calmar_ratio: ratio_or(f, net, deepest, zero),
        max_drawdown_pct: as_percent(f, deepest),
        max_consecutive_losses: t.max_consecutive_losses,
        avg_win_pct: as_percent(f, avg_win),
        avg_loss_pct: as_percent(f, avg_loss),
        win_loss_ratio: ratio_or(f, avg_win, avg_loss, endless),
        long_trades: t.long_trades,
        long_win_rate: share_of_wins(f, t.long_wins, t.long_trades),
        short_trades: t.short_trades,
        short_win_rate: share_of_wins(f, t.short_wins, t.short_trades),
        net_pnl_abs: money(f, orders),
    };
    assert(r == report_of(*f, orders@, t));
    r
}

} // verus!
