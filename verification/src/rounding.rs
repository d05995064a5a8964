//! Whole numbers out of numbers.
//!
//! A pattern of exponent `e` and fraction `m` (with its leading one) stands for
//! `m * 2^(e - 1075)`. What a conversion gives is stated over that product.
use vstd::arithmetic::power2::{lemma2_to64, lemma2_to64_rest, lemma_pow2_pos, lemma_pow2_strictly_increases, pow2};
use vstd::bits::{lemma_u64_shl_is_mul, lemma_u64_shr_is_div};
use vstd::prelude::*;

use crate::num::{Num, SIGN_BIT};

verus! {

/// Two to the 52nd, the first pattern with an exponent of one.
pub const FRACTION: u64 = 0x10_0000_0000_0000;

impl Num {
    /// The exponent of a pattern.
    pub open spec fn exponent(self) -> nat {
        (self.magnitude() / FRACTION as int) as nat
    }

    /// The fraction of a pattern, with its leading one.
    pub open spec fn fraction(self) -> nat {
        (self.magnitude() % FRACTION as int + FRACTION) as nat
    }

    /// The number without its sign, rounded towards zero.
    pub open spec fn whole(self) -> nat {
        let e = self.exponent();
        if e < 1023 {
            0
        } else if e < 1075 {
            self.fraction() / pow2((1075 - e) as nat)
        } else {
            self.fraction() * pow2((e - 1075) as nat)
        }
    }

    /// The number without its sign, rounded to the nearest; halves go up.
    pub open spec fn nearest(self) -> nat {
        let e = self.exponent();
        if e < 1022 {
            0
        } else if e < 1075 {
            (self.fraction() + pow2((1074 - e) as nat)) / pow2((1075 - e) as nat)
        } else {
            self.whole()
        }
    }

    /// The number without its sign, rounded away from zero.
    pub open spec fn above(self) -> nat {
        let e = self.exponent();
        if self.magnitude() == 0 {
            0
        } else if e < 1023 {
            1
        } else if e < 1075 {
            (self.fraction() + pow2((1075 - e) as nat) - 1) as nat / pow2((1075 - e) as nat)
        } else {
            self.whole()
        }
    }
}

/// A count that a word holds: the number itself, or the largest one.
pub open spec fn saturated(n: nat) -> u64 {
    if n > u64::MAX {
        u64::MAX
    } else {
        n as u64
    }
}

/// A conversion of a number: nothing for what is not a number or below zero.
pub open spec fn in_word(x: Num, n: nat) -> u64 {
    if x.nan() || x.bits >= SIGN_BIT {
        0
    } else {
        saturated(n)
    }
}

proof fn lemma_large(m: nat, k: nat)
    requires
        m >= FRACTION,
        k >= 12,
    ensures
        m * pow2(k) > u64::MAX,
{
    lemma2_to64();
    lemma2_to64_rest();
    lemma_pow2_pos(k);
    if k > 12 {
        lemma_pow2_strictly_increases(12, k);
    }
    assert(pow2(k) >= 4096);
    assert(m * pow2(k) >= 0x10_0000_0000_0000 * 4096) by (nonlinear_arith)
        requires
            m >= 0x10_0000_0000_0000,
            pow2(k) >= 4096,
    ;
}

proof fn lemma_small(m: u64, k: u64)
    requires
        m < 2 * FRACTION,
        k <= 11,
    ensures
        m * pow2(k as nat) <= u64::MAX,
        m << k == m * pow2(k as nat),
{
    lemma2_to64();
    lemma2_to64_rest();
    if k < 11 {
        lemma_pow2_strictly_increases(k as nat, 11);
    }
    assert(m * pow2(k as nat) <= (0x20_0000_0000_0000 - 1) * 2048) by (nonlinear_arith)
        requires
            m < 0x20_0000_0000_0000,
            pow2(k as nat) <= 2048,
    ;
    lemma_u64_shl_is_mul(m, k);
}

/// What is left of the parts of a pattern: its exponent and its fraction.
fn parts(x: Num) -> (r: (u64, u64))
    requires
        x.bits < SIGN_BIT,
        !x.nan(),
    ensures
        r.0 == x.exponent(),
        r.1 == x.fraction(),
        r.0 <= 2047,
        FRACTION <= r.1 < 2 * FRACTION,
{
    (x.bits / FRACTION, x.bits % FRACTION + FRACTION)
}

fn scaled_up(m: u64, e: u64) -> (r: u64)
    requires
        1075 <= e <= 2047,
        FRACTION <= m < 2 * FRACTION,
    ensures
        r == saturated((m * pow2((e - 1075) as nat)) as nat),
{
    if e >= 1087 {
        proof {
            lemma_large(m as nat, (e - 1075) as nat);
        }
        u64::MAX
    } else {
        let k: u64 = e - 1075;
        proof {
            lemma_small(m, k);
        }
        m << k
    }
}

/// The number rounded towards zero, as a count.
pub fn truncate(x: Num) -> (r: u64)
    ensures
        r == in_word(x, x.whole()),
{
    if x.is_nan() || x.bits >= SIGN_BIT {
        return 0;
    }
    let (e, m) = parts(x);
    if e < 1023 {
        0
    } else if e < 1075 {
        let k: u64 = 1075 - e;
        proof {
            lemma_pow2_pos(k as nat);
            lemma_u64_shr_is_div(m, k);
            lemma_quotient(m as nat, pow2(k as nat));
        }
        m >> k
    } else {
        scaled_up(m, e)
    }
}

proof fn lemma_quotient(m: nat, d: nat)
    requires
        d >= 1,
    ensures
        m / d <= m,
{
    assert(m / d <= m) by (nonlinear_arith)
        requires
            d >= 1,
    ;
}

proof fn lemma_power_of_shift(k: u64)
    requires
        k <= 53,
    ensures
        1u64 << k == pow2(k as nat),
        1 <= pow2(k as nat) <= 2 * FRACTION,
{
    lemma2_to64();
    lemma2_to64_rest();
    lemma_pow2_pos(k as nat);
    if k < 53 {
        lemma_pow2_strictly_increases(k as nat, 53);
    }
    lemma_u64_shl_is_mul(1, k);
}

/// The number rounded to the nearest whole one, as a count.
pub fn round(x: Num) -> (r: u64)
    ensures
        r == in_word(x, x.nearest()),
{
    if x.is_nan() || x.bits >= SIGN_BIT {
        return 0;
    }
    let (e, m) = parts(x);
    if e < 1022 {
        0
    } else if e < 1075 {
        let k: u64 = 1075 - e;
        proof {
            lemma_power_of_shift((k - 1) as u64);
            lemma_power_of_shift(k);
        }
        let half: u64 = 1u64 << (k - 1);
        let n: u64 = m + half;
        proof {
            lemma_u64_shr_is_div(n, k);
            lemma_quotient(n as nat, pow2(k as nat));
        }
        n >> k
    } else {
        scaled_up(m, e)
    }
}

/// The number rounded up, as a count.
pub fn round_up(x: Num) -> (r: u64)
    ensures
        r == in_word(x, x.above()),
{
    if x.is_nan() || x.bits >= SIGN_BIT {
        return 0;
    }
    if x.bits == 0 {
        return 0;
    }
    let (e, m) = parts(x);
    if e < 1023 {
        1
    } else if e < 1075 {
        let k: u64 = 1075 - e;
        proof {
            lemma_power_of_shift(k);
        }
        let n: u64 = m + ((1u64 << k) - 1);
        proof {
            lemma_u64_shr_is_div(n, k);
            lemma_quotient(n as nat, pow2(k as nat));
        }
        n >> k
    } else {
        scaled_up(m, e)
    }
}

/// A count as a place in memory: itself, or the largest place.
pub open spec fn in_memory(n: u64) -> usize {
    if n > usize::MAX {
        usize::MAX
    } else {
        n as usize
    }
}

/// A count as a place in memory.
pub fn as_place(n: u64) -> (r: usize)
    ensures
        r == in_memory(n),
{
    if n > usize::MAX as u64 {
        usize::MAX
    } else {
        n as usize
    }
}

} // verus!
