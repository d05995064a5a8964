//! The score that a search for parameters climbs.
use vstd::prelude::*;

use crate::num::Num;
use crate::score::{Report, Score};

verus! {

/// The trades below which a Sharpe ratio says nothing.
pub const MIN_TRADES: usize = 3;

/// The Sharpe ratio, so that a loss scores below zero; nothing with too few
/// trades.
#[derive(Clone, Debug)]
pub struct SharpeScore;

impl Score for SharpeScore {
    open spec fn scored(&self, report: Report) -> Num {
        if report.total_trades < MIN_TRADES {
            Num { bits: 0 }
        } else {
            report.sharpe_ratio
        }
    }

    fn score(&self, report: &Report) -> (r: Num) {
        if report.total_trades < MIN_TRADES {
            Num::zero()
        } else {
            report.sharpe_ratio
        }
    }
}

} // verus!
