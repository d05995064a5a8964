//! Scores: one number for a report, to compare trials by.
use vstd::prelude::*;

use crate::num::Num;

verus! {

/// What a run of trades amounts to.
#[derive(Clone, Copy, Debug, PartialEq, Eq, Structural)]
pub struct Report {
    pub total_trades: usize,
    pub win_rate: Num,
    pub net_pnl_pct: Num,
    pub total_return: Num,
    pub profit_factor: Num,
    pub expectancy: Num,
    pub sharpe_ratio: Num,
    pub sortino_ratio: Num,
    pub calmar_ratio: Num,
    pub max_drawdown_pct: Num,
    pub max_consecutive_losses: usize,
    pub avg_win_pct: Num,
    pub avg_loss_pct: Num,
    pub win_loss_ratio: Num,
    pub long_trades: usize,
    pub long_win_rate: Num,
    pub short_trades: usize,
    pub short_win_rate: Num,
    /// The profit in money, each trade weighted by its size.
    pub net_pnl_abs: Num,
}

/// The report of no trades.
pub open spec fn empty_report() -> Report {
    let z = Num { bits: 0 };
    Report {
        total_trades: 0,
        win_rate: z,
        net_pnl_pct: z,
        total_return: z,
        profit_factor: z,
        expectancy: z,
        sharpe_ratio: z,
        sortino_ratio: z,
        calmar_ratio: z,
        max_drawdown_pct: z,
        max_consecutive_losses: 0,
        avg_win_pct: z,
        avg_loss_pct: z,
        win_loss_ratio: z,
        long_trades: 0,
        long_win_rate: z,
        short_trades: 0,
        short_win_rate: z,
        net_pnl_abs: z,
    }
}

impl Default for Report {
    fn default() -> (r: Report)
        ensures
            r == empty_report(),
    {
        let z = Num::zero();
        Report {
            total_trades: 0,
            win_rate: z,
            net_pnl_pct: z,
            total_return: z,
            profit_factor: z,
            expectancy: z,
            sharpe_ratio: z,
            sortino_ratio: z,
            calmar_ratio: z,
            max_drawdown_pct: z,
            max_consecutive_losses: 0,
            avg_win_pct: z,
            avg_loss_pct: z,
            win_loss_ratio: z,
            long_trades: 0,
            long_win_rate: z,
            short_trades: 0,
            short_win_rate: z,
            net_pnl_abs: z,
        }
    }
}

/// A way to score a report.
pub trait Score {
    /// What the score of a report is.
    spec fn scored(&self, report: Report) -> Num;

    /// The score of a report.
    fn score(&self, report: &Report) -> (r: Num)
        ensures
            r == self.scored(*report),
    ;
}

/// The Sharpe ratio; nothing without trades.
#[derive(Clone, Copy, Debug, Default)]
pub struct SharpeScore;

impl Score for SharpeScore {
    open spec fn scored(&self, report: Report) -> Num {
        if report.total_trades == 0 {
            Num { bits: 0 }
        } else {
            report.sharpe_ratio
        }
    }

    fn score(&self, report: &Report) -> (r: Num) {
        if report.total_trades == 0 {
            Num::zero()
        } else {
            report.sharpe_ratio
        }
    }
}

/// The profit in money.
#[derive(Clone, Copy, Debug, Default)]
pub struct NetPnlScore;

impl Score for NetPnlScore {
    open spec fn scored(&self, report: Report) -> Num {
        report.net_pnl_abs
    }

    fn score(&self, report: &Report) -> (r: Num) {
        report.net_pnl_abs
    }
}

} // verus!
