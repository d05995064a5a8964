//! Market calendars: when the next candle of a market is due.
//!
//! - [`CryptoCalendar`]: open all the time.
//! - [`ForexCalendar`]: closed on Saturday and Sunday, in UTC.
//! - [`StockCalendar`]: open from 9:00 to 15:00 Vietnam time (UTC+7), Monday to
//!   Friday.
use vstd::prelude::*;

use crate::text::{all_digits, chars_of, digits_value, is_digit, parse_digits, same};

verus! {

pub const HOUR_SECS: u64 = 3_600;

pub const DAY_SECS: u64 = 86_400;

/// `s` without the characters after its last digit.
pub open spec fn to_last_digit(s: Seq<char>) -> Seq<char>
    decreases s.len(),
{
    if s.len() > 0 && !is_digit(s.last()) {
        to_last_digit(s.drop_last())
    } else {
        s
    }
}

/// The unsigned number that `s` writes, with an optional plus sign, where it
/// fits in 64 bits.
pub open spec fn unsigned_value(s: Seq<char>) -> Option<nat> {
    let d = if s.len() > 0 && s[0] == '+' {
        s.drop_first()
    } else {
        s
    };
    if all_digits(d) && digits_value(d) <= u64::MAX {
        Some(digits_value(d))
    } else {
        None
    }
}

/// The seconds of one candle of the given resolution. A resolution outside the
/// list counts as the number it starts with, or as a minute where it starts
/// with none.
pub open spec fn resolution_secs(s: Seq<char>) -> nat {
    if s == "1"@ || s == "1m"@ {
        60
    } else if s == "5"@ || s == "5m"@ {
        300
    } else if s == "15"@ || s == "15m"@ {
        900
    } else if s == "30"@ || s == "30m"@ {
        1_800
    } else if s == "1H"@ || s == "60"@ {
        3_600
    } else if s == "4H"@ {
        14_400
    } else if s == "1D"@ {
        86_400
    } else {
        match unsigned_value(to_last_digit(s)) {
            Some(n) => n,
            None => 60,
        }
    }
}

/// The seconds of one candle of the given resolution.
pub fn to_timestamp_secs(resolution: &str) -> (r: u64)
    ensures
        r == resolution_secs(resolution@),
{
    if same(resolution, "1") || same(resolution, "1m") {
        60
    } else if same(resolution, "5") || same(resolution, "5m") {
        300
    } else if same(resolution, "15") || same(resolution, "15m") {
        900
    } else if same(resolution, "30") || same(resolution, "30m") {
        1_800
    } else if same(resolution, "1H") || same(resolution, "60") {
        3_600
    } else if same(resolution, "4H") {
        14_400
    } else if same(resolution, "1D") {
        86_400
    } else {
        let v = chars_of(resolution);
        let mut end: usize = v.len();
        assert(v@.subrange(0, end as int) =~= resolution@);
        while end > 0 && !('0' <= v[end - 1] && v[end - 1] <= '9')
            invariant
                end <= v@.len(),
                v@ == resolution@,
                to_last_digit(resolution@) == to_last_digit(v@.subrange(0, end as int)),
            ensures
                end <= v@.len(),
                to_last_digit(resolution@) == v@.subrange(0, end as int),
            decreases end,
        {
            assert(v@.subrange(0, end as int).drop_last() =~= v@.subrange(0, end - 1));
            end -= 1;
        }
        let ghost s = v@.subrange(0, end as int);
        let start: usize = if end > 0 && v[0] == '+' { 1 } else { 0 };
        assert(start == 1 ==> s.drop_first() =~= v@.subrange(1, end as int));
        match parse_digits(&v, start, end, u64::MAX) {
            Some(n) => n,
            None => 60,
        }
    }
}

/// The hour of the day in Vietnam (UTC+7).
pub open spec fn vn_hour(ts: int) -> int {
    ((ts % 86_400) / 3_600 + 7) % 24
}

/// The day of the week in UTC: 0 is Sunday, 6 is Saturday. The epoch was a
/// Thursday.
pub open spec fn weekday(ts: int) -> int {
    (ts / 86_400 + 4) % 7
}

/// Whether `ts` falls on a Saturday or a Sunday, in UTC.
pub open spec fn weekend(ts: int) -> bool {
    weekday(ts) == 0 || weekday(ts) == 6
}

/// The hour of the day in Vietnam.
pub fn hour_vn(ts: u64) -> (r: u32)
    ensures
        r == vn_hour(ts as int),
{
    let utc_hour: u64 = (ts % 86_400) / 3_600;
    ((utc_hour + 7) % 24) as u32
}

/// Whether `ts` falls on a Saturday or a Sunday.
pub fn is_weekend(ts: u64) -> (r: bool)
    ensures
        r == weekend(ts as int),
{
    let days: u64 = ts / 86_400;
    let dow: u64 = (days + 4) % 7;
    dow == 0 || dow == 6
}

/// The start of the next Monday for a day of the weekend, the start of the day
/// itself for any other.
pub open spec fn monday_00(ts: int) -> int {
    let add: int = if weekday(ts) == 0 {
        1
    } else if weekday(ts) == 6 {
        2
    } else {
        0
    };
    (ts / 86_400 + add) * 86_400
}

/// The start of the next Monday for a day of the weekend.
pub fn next_monday_00(ts: u64) -> (r: u64)
    requires
        ts + 2 * DAY_SECS <= u64::MAX,
    ensures
        r == monday_00(ts as int),
{
    let days: u64 = ts / 86_400;
    let dow: u64 = (days + 4) % 7;
    let ahead: u64 = if dow == 0 {
        1
    } else if dow == 6 {
        2
    } else {
        0
    };
    (days + ahead) * 86_400
}

/// 9:00 Vietnam time, which is 2:00 UTC, of the next Monday for a day of the
/// weekend.
pub fn next_monday_09(ts: u64) -> (r: u64)
    requires
        ts + 2 * DAY_SECS + 2 * HOUR_SECS <= u64::MAX,
    ensures
        r == monday_00(ts as int) + 2 * HOUR_SECS,
{
    next_monday_00(ts) + 2 * 3_600
}

/// A market calendar.
pub trait Calendar {
    /// Whether the market has candles at `ts`.
    spec fn open_at(&self, ts: int) -> bool;

    /// The candles that must pass before an order may be closed.
    spec fn settlement(&self) -> u64;

    /// The most seconds that pass from a moment to the next one at which the
    /// market is open.
    spec fn longest_close(&self) -> nat;

    /// The time of the next candle: the first moment the market is open, at
    /// least one candle after `current_ts`.
    fn next(&self, current_ts: u64, resolution: &str) -> (r: u64)
        requires
            current_ts + resolution_secs(resolution@) + self.longest_close() <= u64::MAX,
        ensures
            self.open_at(r as int),
            current_ts + resolution_secs(resolution@) <= r <= current_ts + resolution_secs(resolution@)
                + self.longest_close(),
            forall|t: int| current_ts + resolution_secs(resolution@) <= t < r ==> !self.open_at(t),
    ;

    /// The candles that must pass before an order may be closed (T+N).
    fn settlement_candles(&self) -> (r: u64)
        ensures
            r == self.settlement(),
    ;
}

/// A market that never closes.
#[derive(Clone, Copy, Debug, PartialEq, Eq, Structural)]
pub struct CryptoCalendar;

impl Calendar for CryptoCalendar {
    open spec fn open_at(&self, ts: int) -> bool {
        true
    }

    open spec fn longest_close(&self) -> nat {
        0
    }

    open spec fn settlement(&self) -> u64 {
        0
    }

    fn next(&self, current_ts: u64, resolution: &str) -> (r: u64) {
        current_ts + to_timestamp_secs(resolution)
    }

    fn settlement_candles(&self) -> (r: u64) {
        0
    }
}

/// A market that closes over the weekend.
#[derive(Clone, Copy, Debug, PartialEq, Eq, Structural)]
pub struct ForexCalendar;

impl Calendar for ForexCalendar {
    open spec fn open_at(&self, ts: int) -> bool {
        !weekend(ts)
    }

    open spec fn longest_close(&self) -> nat {
        2 * DAY_SECS as nat
    }

    open spec fn settlement(&self) -> u64 {
        0
    }

    fn next(&self, current_ts: u64, resolution: &str) -> (r: u64) {
        let ts = current_ts + to_timestamp_secs(resolution);
        if is_weekend(ts) {
            next_monday_00(ts)
        } else {
            ts
        }
    }

    fn settlement_candles(&self) -> (r: u64) {
        0
    }
}

/// The Vietnamese stock market.
#[derive(Clone, Copy, Debug, PartialEq, Eq, Structural)]
pub struct StockCalendar;

impl Calendar for StockCalendar {
    open spec fn open_at(&self, ts: int) -> bool {
        !weekend(ts) && 9 <= vn_hour(ts) < 15
    }

    open spec fn longest_close(&self) -> nat {
        3 * DAY_SECS as nat
    }

    open spec fn settlement(&self) -> u64 {
        3
    }

    #[verifier::rlimit(30)]
    fn next(&self, current_ts: u64, resolution: &str) -> (r: u64) {
        let start = current_ts + to_timestamp_secs(resolution);
        let mut ts: u64 = start;
        if !is_weekend(ts) {
            let hour = hour_vn(ts);
            if 9 <= hour && hour < 15 {
                return ts;
            }
            // 9:00 Vietnam time is 2:00 UTC: the one of this UTC day, or of the
            // next where it has passed.
            let into_day: u64 = ts % 86_400;
            if into_day < 7_200 {
                ts = ts - into_day + 7_200;
            } else {
                ts = ts - into_day + 86_400 + 7_200;
            }
            assert(forall|t: int| start <= t < ts ==> !self.open_at(t));
        }
        if is_weekend(ts) {
            let ghost before = ts;
            ts = next_monday_09(ts);
            assert(forall|t: int| before <= t < ts ==> !self.open_at(t));
        }
        ts
    }

    fn settlement_candles(&self) -> (r: u64) {
        3
    }
}

/// `s` from its first character that is no digit.
pub open spec fn after_digits(s: Seq<char>) -> Seq<char>
    decreases s.len(),
{
    if s.len() > 0 && is_digit(s[0]) {
        after_digits(s.drop_first())
    } else {
        s
    }
}

/// The number that the leading digits of `s` write; 1 where there are none or
/// they do not fit in 64 bits.
pub open spec fn leading_number(s: Seq<char>) -> nat {
    let d = s.take(s.len() - after_digits(s).len());
    if all_digits(d) && digits_value(d) <= u64::MAX {
        digits_value(d)
    } else {
        1
    }
}

/// The seconds of one unit of a resolution; an unknown unit counts as minutes.
pub open spec fn unit_secs(unit: Seq<char>) -> nat {
    if unit == "s"@ {
        1
    } else if unit == "H"@ || unit == "h"@ {
        3_600
    } else if unit == "D"@ || unit == "d"@ {
        86_400
    } else if unit == "W"@ || unit == "w"@ {
        604_800
    } else {
        60
    }
}

/// The seconds of a resolution written as a number and a unit.
pub fn resolution_to_seconds(res: &str) -> (r: u64)
    requires
        leading_number(res@) * unit_secs(after_digits(res@)) <= u64::MAX,
    ensures
        r == leading_number(res@) * unit_secs(after_digits(res@)),
{
    let v = chars_of(res);
    let n: usize = v.len();
    let mut k: usize = 0;
    assert(v@.subrange(0, n as int) =~= res@);
    while k < n && '0' <= v[k] && v[k] <= '9'
        invariant
            k <= n == v@.len(),
            v@ == res@,
            after_digits(res@) == after_digits(v@.subrange(k as int, n as int)),
        ensures
            k <= n,
            after_digits(res@) == v@.subrange(k as int, n as int),
        decreases n - k,
    {
        assert(v@.subrange(k as int, n as int).drop_first() =~= v@.subrange(k + 1, n as int));
        k += 1;
    }
    let ghost digits = v@.subrange(0, k as int);
    assert(res@.take(res@.len() - after_digits(res@).len()) =~= digits);
    let num: u64 = match parse_digits(&v, 0, k, u64::MAX) {
        Some(n) => n,
        None => 1,
    };
    let unit = crate::text::text_of(&v, k, n);
    let scale: u64 = if same(&unit, "s") {
        1
    } else if same(&unit, "H") || same(&unit, "h") {
        3_600
    } else if same(&unit, "D") || same(&unit, "d") {
        86_400
    } else if same(&unit, "W") || same(&unit, "w") {
        604_800
    } else {
        60
    };
    num * scale
}

} // verus!
