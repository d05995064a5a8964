//! What a trade costs.
use vstd::prelude::*;

use crate::arith::{calculate, calculates, difference, product, quotient, sum, Calculation, TWO_BITS};
use crate::num::Num;

verus! {

/// 0.0005
pub const FULL_COMMISSION_BITS: u64 = 0x3F40_624D_D2F1_A9FC;

/// 0.0003
pub const REDUCED_COMMISSION_BITS: u64 = 0x3F33_A92A_3055_3261;

/// 0.00045
pub const MBS_COMMISSION_BITS: u64 = 0x3F3D_7DBF_487F_CB92;

/// 10000.0
pub const VPS_MIN_COMMISSION_BITS: u64 = 0x40C3_8800_0000_0000;

/// 8000.0
pub const SSI_MIN_COMMISSION_BITS: u64 = 0x40BF_4000_0000_0000;

/// 3300.0
pub const VSD_FEE_BITS: u64 = 0x40A9_C800_0000_0000;

/// 0.001
pub const TAX_RATE_BITS: u64 = 0x3F50_624D_D2F1_A9FC;

/// 100000.0
pub const CONTRACT_MULTIPLIER_BITS: u64 = 0x40F8_6A00_0000_0000;

/// The fee of opening and closing at one rate.
pub open spec fn both_sides<F: Fn(Calculation) -> Num>(f: F, rate: Num) -> Num {
    product(f, rate, Num { bits: TWO_BITS })
}

/// What a trade costs, as a fraction of its value.
pub trait Fee<F: Fn(Calculation) -> Num> {
    /// The fee of one side.
    spec fn rated(&self, f: F) -> Num;

    /// The fee of opening and closing.
    open spec fn round_trip_rated(&self, f: F) -> Num {
        both_sides(f, self.rated(f))
    }

    /// The fee of one side.
    fn rate(&self, f: &F) -> (r: Num)
        requires
            calculates(*f),
        ensures
            r == self.rated(*f),
    ;

    /// The fee of opening and closing. An order is worth placing where it is
    /// expected to earn more, and is booked with it when it closes.
    fn round_trip_rate(&self, f: &F) -> (r: Num)
        requires
            calculates(*f),
        ensures
            r == self.round_trip_rated(*f),
    ;

    /// What is left of a move of the price after the fee of both sides.
    fn net_pnl_pct(&self, gross_pnl_pct: Num, f: &F) -> (r: Num)
        requires
            calculates(*f),
        ensures
            r == difference(*f, gross_pnl_pct, self.round_trip_rated(*f)),
    {
        let both = self.round_trip_rate(f);
        calculate(f, Calculation::Difference(gross_pnl_pct, both))
    }
}

fn twice<F: Fn(Calculation) -> Num>(rate: Num, f: &F) -> (r: Num)
    requires
        calculates(*f),
    ensures
        r == both_sides(*f, rate),
{
    calculate(f, Calculation::Product(rate, Num { bits: TWO_BITS }))
}

/// The fee of a derivative contract: a commission, a fixed fee and a tax.
#[derive(Clone, Copy, Debug, PartialEq, Eq, Structural)]
pub struct DerivativeFee {
    pub commission_rate: Num,
    /// The least commission of a contract; zero where there is none.
    pub min_commission: Num,
    /// The depository's fee, for a contract and a side.
    pub vsd_fee: Num,
    pub tax_rate: Num,
    pub contract_multiplier: Num,
    /// The price that fixed fees are related to.
    pub assumed_price: Num,
}

impl DerivativeFee {
    /// The value of one contract.
    pub open spec fn valued<F: Fn(Calculation) -> Num>(self, f: F) -> Num {
        product(f, self.assumed_price, self.contract_multiplier)
    }

    /// The fee of one side of one contract: the commission, at least the least
    /// one, the fixed fee and the tax.
    pub open spec fn side<F: Fn(Calculation) -> Num>(self, f: F) -> Num {
        let cv = self.valued(f);
        let commission = product(f, self.commission_rate, cv).greater(self.min_commission);
        sum(f, sum(f, commission, self.vsd_fee), product(f, self.tax_rate, cv))
    }

    /// The value of one contract.
    pub fn contract_value<F: Fn(Calculation) -> Num>(&self, f: &F) -> (r: Num)
        requires
            calculates(*f),
        ensures
            r == self.valued(*f),
    {
        calculate(f, Calculation::Product(self.assumed_price, self.contract_multiplier))
    }

    /// The fee of one side of one contract.
    pub fn fee_per_side<F: Fn(Calculation) -> Num>(&self, f: &F) -> (r: Num)
        requires
            calculates(*f),
        ensures
            r == self.side(*f),
    {
        let cv = self.contract_value(f);
        let commission = calculate(f, Calculation::Product(self.commission_rate, cv)).max(self.min_commission);
        let with_vsd = calculate(f, Calculation::Sum(commission, self.vsd_fee));
        let tax = calculate(f, Calculation::Product(self.tax_rate, cv));
        calculate(f, Calculation::Sum(with_vsd, tax))
    }

    /// The fee of opening and closing one contract.
    pub fn fee_round_trip<F: Fn(Calculation) -> Num>(&self, f: &F) -> (r: Num)
        requires
            calculates(*f),
        ensures
            r == both_sides(*f, self.side(*f)),
    {
        twice(self.fee_per_side(f), f)
    }

    /// A fee of a broker: its commission, and the fixed fee, the tax and the
    /// multiplier that all of them have.
    pub open spec fn of_broker(commission: u64, least: u64, assumed_price: Num) -> DerivativeFee {
        DerivativeFee {
            commission_rate: Num { bits: commission },
            min_commission: Num { bits: least },
            vsd_fee: Num { bits: VSD_FEE_BITS },
            tax_rate: Num { bits: TAX_RATE_BITS },
            contract_multiplier: Num { bits: CONTRACT_MULTIPLIER_BITS },
            assumed_price,
        }
    }

    fn broker(commission: u64, least: u64, assumed_price: Num) -> (r: DerivativeFee)
        ensures
            r == DerivativeFee::of_broker(commission, least, assumed_price),
    {
        DerivativeFee {
            commission_rate: Num { bits: commission },
            min_commission: Num { bits: least },
            vsd_fee: Num { bits: VSD_FEE_BITS },
            tax_rate: Num { bits: TAX_RATE_BITS },
            contract_multiplier: Num { bits: CONTRACT_MULTIPLIER_BITS },
            assumed_price,
        }
    }
}

impl<F: Fn(Calculation) -> Num> Fee<F> for DerivativeFee {
    /// The fee of one side over the value of a contract; without a value, the
    /// commission and the tax.
    open spec fn rated(&self, f: F) -> Num {
        if self.valued(f).at_most(Num { bits: 0 }) {
            sum(f, self.commission_rate, self.tax_rate)
        } else {
            quotient(f, self.side(f), self.valued(f))
        }
    }

    fn rate(&self, f: &F) -> (r: Num) {
        let cv = self.contract_value(f);
        if cv.le(Num::zero()) {
            return calculate(f, Calculation::Sum(self.commission_rate, self.tax_rate));
        }
        let side = self.fee_per_side(f);
        calculate(f, Calculation::Quotient(side, cv))
    }

    fn round_trip_rate(&self, f: &F) -> (r: Num) {
        twice(self.rate(f), f)
    }
}

/// The fee of VPS.
#[derive(Clone, Copy, Debug, PartialEq, Eq, Structural)]
pub struct VpsDerivativeFee(pub DerivativeFee);

impl VpsDerivativeFee {
    /// The fee that everyone pays.
    pub fn standard(assumed_price: Num) -> (r: VpsDerivativeFee)
        ensures
            r.0 == DerivativeFee::of_broker(FULL_COMMISSION_BITS, VPS_MIN_COMMISSION_BITS, assumed_price),
    {
        VpsDerivativeFee(DerivativeFee::broker(FULL_COMMISSION_BITS, VPS_MIN_COMMISSION_BITS, assumed_price))
    }

    /// The fee of insiders.
    pub fn internal(assumed_price: Num) -> (r: VpsDerivativeFee)
        ensures
            r.0 == DerivativeFee::of_broker(REDUCED_COMMISSION_BITS, VPS_MIN_COMMISSION_BITS, assumed_price),
    {
        VpsDerivativeFee(DerivativeFee::broker(REDUCED_COMMISSION_BITS, VPS_MIN_COMMISSION_BITS, assumed_price))
    }
}

impl<F: Fn(Calculation) -> Num> Fee<F> for VpsDerivativeFee {
    open spec fn rated(&self, f: F) -> Num {
        self.0.rated(f)
    }

    fn rate(&self, f: &F) -> (r: Num) {
        self.0.rate(f)
    }

    fn round_trip_rate(&self, f: &F) -> (r: Num) {
        twice(self.rate(f), f)
    }
}

/// The fee of MBS, which has no least commission.
#[derive(Clone, Copy, Debug, PartialEq, Eq, Structural)]
pub struct MbsDerivativeFee(pub DerivativeFee);

impl MbsDerivativeFee {
    /// The fee that everyone pays.
    pub fn standard(assumed_price: Num) -> (r: MbsDerivativeFee)
        ensures
            r.0 == DerivativeFee::of_broker(MBS_COMMISSION_BITS, 0, assumed_price),
    {
        MbsDerivativeFee(DerivativeFee::broker(MBS_COMMISSION_BITS, 0, assumed_price))
    }

    /// The fee of those who pay ahead.
    pub fn prepaid(assumed_price: Num) -> (r: MbsDerivativeFee)
        ensures
            r.0 == DerivativeFee::of_broker(REDUCED_COMMISSION_BITS, 0, assumed_price),
    {
        MbsDerivativeFee(DerivativeFee::broker(REDUCED_COMMISSION_BITS, 0, assumed_price))
    }
}

impl<F: Fn(Calculation) -> Num> Fee<F> for MbsDerivativeFee {
    open spec fn rated(&self, f: F) -> Num {
        self.0.rated(f)
    }

    fn rate(&self, f: &F) -> (r: Num) {
        self.0.rate(f)
    }

    fn round_trip_rate(&self, f: &F) -> (r: Num) {
        twice(self.rate(f), f)
    }
}

/// The fee of SSI.
#[derive(Clone, Copy, Debug, PartialEq, Eq, Structural)]
pub struct SsiDerivativeFee(pub DerivativeFee);

impl SsiDerivativeFee {
    /// The fee that everyone pays.
    pub fn standard(assumed_price: Num) -> (r: SsiDerivativeFee)
        ensures
            r.0 == DerivativeFee::of_broker(FULL_COMMISSION_BITS, SSI_MIN_COMMISSION_BITS, assumed_price),
    {
        SsiDerivativeFee(DerivativeFee::broker(FULL_COMMISSION_BITS, SSI_MIN_COMMISSION_BITS, assumed_price))
    }
}

impl<F: Fn(Calculation) -> Num> Fee<F> for SsiDerivativeFee {
    open spec fn rated(&self, f: F) -> Num {
        self.0.rated(f)
    }

    fn rate(&self, f: &F) -> (r: Num) {
        self.0.rate(f)
    }

    fn round_trip_rate(&self, f: &F) -> (r: Num) {
        twice(self.rate(f), f)
    }
}

/// One fixed rate.
#[derive(Clone, Copy, Debug, PartialEq, Eq, Structural)]
pub struct SimpleFixedFee {
    pub rate_value: Num,
}

impl SimpleFixedFee {
    /// A fee of this rate for each side.
    pub fn new(rate_value: Num) -> (r: SimpleFixedFee)
        ensures
            r.rate_value == rate_value,
    {
        SimpleFixedFee { rate_value }
    }
}

impl<F: Fn(Calculation) -> Num> Fee<F> for SimpleFixedFee {
    open spec fn rated(&self, f: F) -> Num {
        self.rate_value
    }

    fn rate(&self, f: &F) -> (r: Num) {
        self.rate_value
    }

    fn round_trip_rate(&self, f: &F) -> (r: Num) {
        twice(self.rate(f), f)
    }
}

} // verus!
