//! Counting over the cells of a price range.
//!
//! A range is divided into a power of two of cells. Halving the cells never
//! lowers how many cell borders a series crosses, and the finest division
//! before the crossings jump is the one to use.
use vstd::prelude::*;
use vstd::seq_lib::to_multiset_insert;

use crate::arith::{calculate, calculates, count, difference, product, quotient, sum, Calculation, ONE_BITS};
use crate::candle::CandleStick;
use crate::grid::repeat;
use crate::num::Num;
use crate::rounding::{as_place, in_word, in_memory, round_up, truncate};

verus! {

/// The distance of two numbers.
pub open spec fn apart(a: int, b: int) -> int {
    if a >= b {
        a - b
    } else {
        b - a
    }
}

/// The cell of the coarser division that a cell lies in.
pub open spec fn coarser(cell: u64, shift: u32) -> u64 {
    cell >> shift
}

/// The borders that the first `n` moves cross, in the coarser division.
pub open spec fn crossings_to(cells: Seq<u64>, shift: u32, n: nat) -> int
    decreases n,
{
    if n == 0 {
        0
    } else {
        crossings_to(cells, shift, (n - 1) as nat) + apart(
            coarser(cells[n - 1], shift) as int,
            coarser(cells[n as int], shift) as int,
        )
    }
}

/// The moves between neighbours of a series.
pub open spec fn moves(cells: Seq<u64>) -> nat {
    if cells.len() == 0 {
        0
    } else {
        (cells.len() - 1) as nat
    }
}

/// The borders that a series crosses, in the coarser division.
pub open spec fn crossings_of(cells: Seq<u64>, shift: u32) -> int {
    crossings_to(cells, shift, moves(cells))
}

/// A coarser division is never crossed more often.
pub proof fn coarser_cells_cross_less(cells: Seq<u64>, fine: u32, coarse: u32, n: nat)
    requires
        fine <= coarse < 64,
    ensures
        0 <= crossings_to(cells, coarse, n) <= crossings_to(cells, fine, n),
    decreases n, coarse - fine,
{
    if n > 0 {
        coarser_cells_cross_less(cells, fine, coarse, (n - 1) as nat);
        lemma_apart_coarser(cells[n - 1], cells[n as int], fine, coarse);
    }
}

proof fn lemma_apart_coarser(a: u64, b: u64, fine: u32, coarse: u32)
    requires
        fine <= coarse < 64,
    ensures
        0 <= apart(coarser(a, coarse) as int, coarser(b, coarse) as int) <= apart(
            coarser(a, fine) as int,
            coarser(b, fine) as int,
        ),
    decreases coarse - fine,
{
    if fine < coarse {
        let mid = (coarse - 1) as u32;
        lemma_apart_coarser(a, b, fine, mid);
        let x = a >> mid;
        let y = b >> mid;
        assert(a >> coarse == (a >> mid) / 2) by (bit_vector)
            requires
                mid < 63,
                coarse == mid + 1,
        ;
        assert(b >> coarse == (b >> mid) / 2) by (bit_vector)
            requires
                mid < 63,
                coarse == mid + 1,
        ;
    }
}

proof fn lemma_crossings_bound(cells: Seq<u64>, shift: u32, n: nat)
    requires
        n <= u64::MAX,
    ensures
        0 <= crossings_to(cells, shift, n) <= n * u64::MAX,
        n * u64::MAX <= u128::MAX,
    decreases n,
{
    assert(n * 0xFFFF_FFFF_FFFF_FFFF <= 0xFFFF_FFFF_FFFF_FFFF * 0xFFFF_FFFF_FFFF_FFFF) by (nonlinear_arith)
        requires
            n <= 0xFFFF_FFFF_FFFF_FFFF,
    ;
    if n > 0 {
        lemma_crossings_bound(cells, shift, (n - 1) as nat);
        assert(n * 0xFFFF_FFFF_FFFF_FFFF == (n - 1) * 0xFFFF_FFFF_FFFF_FFFF + 0xFFFF_FFFF_FFFF_FFFF)
            by (nonlinear_arith);
    }
}

/// The borders that a series of cells crosses, in a division that is coarser by
/// `shift` halvings.
pub fn crossings(cells: &Vec<u64>, shift: u32) -> (r: u128)
    requires
        shift < 64,
    ensures
        r == crossings_of(cells@, shift),
{
    let n: usize = cells.len();
    if n == 0 {
        return 0;
    }
    let mut c: u128 = 0;
    let mut i: usize = 0;
    while i < n - 1
        invariant
            n == cells@.len(),
            0 < n,
            i <= n - 1,
            shift < 64,
            c == crossings_to(cells@, shift, i as nat),
        decreases n - i,
    {
        let a = cells[i] >> shift;
        let b = cells[i + 1] >> shift;
        proof {
            lemma_crossings_bound(cells@, shift, (i + 1) as nat);
        }
        c = c + (if b > a { b - a } else { a - b }) as u128;
        i += 1;
    }
    c
}

/// When a search for a division stops.
#[derive(Clone, Copy, Debug, PartialEq, Eq, Structural)]
pub struct SieveConfig {
    /// The growth that counts as a jump, as a multiple of the growth before.
    pub delta_multiplier: Num,
    /// The least growth that counts at all.
    pub min_abs_delta: Num,
}

/// 1.3
pub const DELTA_MULTIPLIER_BITS: u64 = 0x3FF4_CCCC_CCCC_CCCD;

/// 0.02
pub const MIN_ABS_DELTA_BITS: u64 = 0x3F94_7AE1_47AE_147B;

impl Default for SieveConfig {
    fn default() -> (r: SieveConfig)
        ensures
            r.delta_multiplier.bits == DELTA_MULTIPLIER_BITS,
            r.min_abs_delta.bits == MIN_ABS_DELTA_BITS,
    {
        SieveConfig {
            delta_multiplier: Num { bits: DELTA_MULTIPLIER_BITS },
            min_abs_delta: Num { bits: MIN_ABS_DELTA_BITS },
        }
    }
}

/// The width of a cell where a range is halved `level` times.
pub open spec fn width_at<F: Fn(Calculation) -> Num>(f: F, capacity: Num, level: u32) -> Num {
    quotient(f, capacity, count(f, (1u64 << level) as int))
}

/// Whether cells of this width can be told apart.
pub open spec fn usable_width(width: Num) -> bool {
    width.finite() && !width.at_most(Num { bits: 0 })
}

/// A search for the finest division of a range whose crossings do not jump.
///
/// Each level halves the cells. A level is dropped, and with it every finer
/// one, where its crossings grow faster than those of the level before.
#[derive(Debug)]
pub struct Sieve {
    /// The cells of the finest division.
    pub cells: Vec<u64>,
    pub max_bit: u32,
    /// The range that is divided.
    pub capacity: Num,
    pub config: SieveConfig,
    /// The level to look at next.
    pub level: u32,
    /// The crossings of the last level that was kept, and how they had grown.
    pub prev_crossings: u128,
    pub prev_delta: Num,
    /// The last level that was kept.
    pub best: Option<u32>,
}

impl Sieve {
    /// The crossings at a level.
    pub open spec fn crossings_at(self, level: int) -> int {
        crossings_of(self.cells@, (self.max_bit - level) as u32)
    }

    /// The crossings kept are those of an earlier level.
    pub open spec fn inv(self) -> bool {
        &&& self.max_bit < 64
        &&& self.level <= self.max_bit + 1
        &&& self.level <= self.max_bit ==> self.prev_crossings <= self.crossings_at(self.level as int)
        &&& self.best matches Some(b) ==> b < self.level
    }

    /// The moves that crossings are counted over, at least one.
    pub open spec fn segments(self) -> int {
        if moves(self.cells@) > 1 {
            moves(self.cells@) as int
        } else {
            1
        }
    }

    /// How much the crossings have grown for each move at the level to look at;
    /// nothing at the first one.
    pub open spec fn delta<F: Fn(Calculation) -> Num>(self, f: F) -> Num {
        if self.level == 0 {
            Num { bits: 0 }
        } else {
            quotient(
                f,
                count(f, self.crossings_at(self.level as int) - self.prev_crossings),
                count(f, self.segments()),
            )
        }
    }

    /// Whether a level's growth ends the search: it is past the first two, the
    /// growth before was something, and this one is above its multiple and not
    /// below the least growth that counts.
    pub open spec fn jumps<F: Fn(Calculation) -> Num>(self, f: F) -> bool {
        &&& self.level >= 2
        &&& product(f, self.prev_delta, self.config.delta_multiplier).below(self.delta(f))
        &&& self.config.min_abs_delta.at_most(self.delta(f))
        &&& (Num { bits: 0 }).below(self.prev_delta)
    }

    /// The search past a level that it does not keep.
    pub open spec fn skipped(self) -> Sieve {
        Sieve { level: (self.level + 1) as u32, ..self }
    }

    /// The search once its level is kept.
    pub open spec fn kept<F: Fn(Calculation) -> Num>(self, f: F) -> Sieve {
        Sieve {
            level: (self.level + 1) as u32,
            best: Some(self.level),
            prev_crossings: self.crossings_at(self.level as int) as u128,
            prev_delta: self.delta(f),
            ..self
        }
    }

    /// The last level that the search keeps. A level whose cells have no width is
    /// passed over.
    pub open spec fn found<F: Fn(Calculation) -> Num>(self, f: F) -> Option<u32>
        decreases self.max_bit + 1 - self.level,
        when self.max_bit < u32::MAX
    {
        if self.level > self.max_bit {
            self.best
        } else if !usable_width(width_at(f, self.capacity, self.level)) {
            self.skipped().found(f)
        } else if self.jumps(f) {
            self.best
        } else {
            self.kept(f).found(f)
        }
    }

    /// A search over cells of a division into `2^max_bit`.
    pub open spec fn start(cells: Seq<u64>, max_bit: u32, capacity: Num, config: SieveConfig, s: Sieve) -> bool {
        &&& s.cells@ == cells && s.max_bit == max_bit && s.capacity == capacity && s.config == config
        &&& s.level == 0 && s.prev_crossings == 0 && s.prev_delta.bits == 0 && s.best is None
    }

    /// A search over cells of a division into `2^max_bit`.
    pub fn new(cells: Vec<u64>, max_bit: u32, capacity: Num, config: SieveConfig) -> (r: Sieve)
        requires
            max_bit < 64,
        ensures
            r.inv(),
            Sieve::start(cells@, max_bit, capacity, config, r),
    {
        proof {
            coarser_cells_cross_less(cells@, 0, max_bit, moves(cells@));
        }
        Sieve {
            cells,
            max_bit,
            capacity,
            config,
            level: 0,
            prev_crossings: 0,
            prev_delta: Num::zero(),
            best: None,
        }
    }

    /// Runs the search to its end, and gives the last level that was kept.
    pub fn search<F: Fn(Calculation) -> Num>(self, f: &F) -> (r: Option<u32>)
        requires
            self.inv(),
            calculates(*f),
        ensures
            r == self.found(*f),
            r matches Some(b) ==> b <= self.max_bit,
    {
        let n: usize = self.cells.len();
        let segments: usize = if n > 2 {
            n - 1
        } else {
            1
        };
        let per = calculate(f, Calculation::Count(segments as u128));
        let mut s = self;
        while s.level <= s.max_bit
            invariant
                s.inv(),
                calculates(*f),
                s.max_bit == self.max_bit,
                s.cells == self.cells,
                per == count(*f, self.segments()),
                s.found(*f) == self.found(*f),
            ensures
                s.inv(),
                s.max_bit == self.max_bit,
                s.best == self.found(*f),
            decreases s.max_bit + 1 - s.level,
        {
            proof {
                if s.level < s.max_bit {
                    coarser_cells_cross_less(
                        s.cells@,
                        (s.max_bit - s.level - 1) as u32,
                        (s.max_bit - s.level) as u32,
                        moves(s.cells@),
                    );
                }
            }
            let parts: u64 = 1u64 << s.level;
            let pn = calculate(f, Calculation::Count(parts as u128));
            let width = calculate(f, Calculation::Quotient(s.capacity, pn));
            if !width.is_finite() || width.le(Num::zero()) {
                s.level = s.level + 1;
                continue;
            }
            let c = crossings(&s.cells, s.max_bit - s.level);
            let delta = if s.level == 0 {
                Num::zero()
            } else {
                let grown = calculate(f, Calculation::Count(c - s.prev_crossings));
                calculate(f, Calculation::Quotient(grown, per))
            };
            if s.level >= 2 {
                let limit = calculate(f, Calculation::Product(s.prev_delta, s.config.delta_multiplier));
                if limit.lt(delta) && s.config.min_abs_delta.le(delta) && s.prev_delta.is_positive() {
                    break;
                }
            }
            assert(!s.jumps(*f));
            s.best = Some(s.level);
            s.prev_crossings = c;
            s.prev_delta = delta;
            s.level = s.level + 1;
        }
        s.best
    }
}

/// A range of prices divided into even cells.
#[derive(Clone, Copy, Debug, PartialEq, Eq, Structural)]
pub struct AnalysisGrid {
    pub step: Num,
    pub offset: Num,
    pub min: Num,
    pub max: Num,
    pub max_bit: u32,
}

/// The place of a value among the cells of the finest division.
pub open spec fn place_of<F: Fn(Calculation) -> Num>(f: F, y: Num, min: Num, max: Num, max_bit: u32) -> u64 {
    let all = 1u64 << max_bit;
    if y.at_most(min) {
        0
    } else if max.at_most(y) {
        (all - 1) as u64
    } else {
        let x = product(
            f,
            quotient(f, difference(f, y, min), difference(f, max, min)),
            count(f, all as int),
        );
        in_word(x, x.whole())
    }
}

/// The places of values.
pub open spec fn places_of<F: Fn(Calculation) -> Num>(
    f: F,
    values: Seq<Num>,
    min: Num,
    max: Num,
    max_bit: u32,
) -> Seq<u64> {
    Seq::new(values.len(), |i: int| place_of(f, values[i], min, max, max_bit))
}

fn places<F: Fn(Calculation) -> Num>(f: &F, values: &Vec<Num>, min: Num, max: Num, max_bit: u32) -> (r: Vec<u64>)
    requires
        calculates(*f),
        max_bit < 64,
    ensures
        r@ == places_of(*f, values@, min, max, max_bit),
{
    let capacity = calculate(f, Calculation::Difference(max, min));
    let all: u64 = 1u64 << max_bit;
    assert(1u64 << max_bit >= 1) by (bit_vector)
        requires
            max_bit < 64,
    ;
    let scale = calculate(f, Calculation::Count(all as u128));
    let ghost want = places_of(*f, values@, min, max, max_bit);
    let mut out: Vec<u64> = Vec::new();
    let mut i: usize = 0;
    while i < values.len()
        invariant
            i <= values@.len(),
            calculates(*f),
            all == 1u64 << max_bit,
            all >= 1,
            capacity == difference(*f, max, min),
            scale == count(*f, all as int),
            want == places_of(*f, values@, min, max, max_bit),
            out@ == want.take(i as int),
        decreases values@.len() - i,
    {
        let y = values[i];
        let place = if y.le(min) {
            0
        } else if max.le(y) {
            all - 1
        } else {
            let off = calculate(f, Calculation::Difference(y, min));
            let part = calculate(f, Calculation::Quotient(off, capacity));
            truncate(calculate(f, Calculation::Product(part, scale)))
        };
        out.push(place);
        i += 1;
        assert(out@ =~= want.take(i as int));
    }
    assert(out@ =~= want);
    out
}

impl AnalysisGrid {
    /// The number of cells.
    pub open spec fn cells_of<F: Fn(Calculation) -> Num>(self, f: F) -> usize {
        let x = quotient(f, difference(f, self.max, self.offset), self.step);
        let n = in_memory(in_word(x, x.above()));
        if n > 1 {
            n
        } else {
            1
        }
    }

    /// The cell that a value lies in.
    pub open spec fn cell_of<F: Fn(Calculation) -> Num>(self, f: F, y: Num) -> usize {
        if y.at_most(self.min) {
            0
        } else if self.max.at_most(y) {
            (self.cells_of(f) - 1) as usize
        } else {
            let x = quotient(f, difference(f, y, self.offset), self.step);
            in_memory(in_word(x, x.whole()))
        }
    }

    /// The bounds of a cell.
    pub open spec fn range_of<F: Fn(Calculation) -> Num>(self, f: F, cell: int) -> (Num, Num) {
        let low = sum(f, self.min, product(f, count(f, cell), self.step));
        (low, sum(f, low, self.step))
    }

    /// The finest division of a range before the crossings jump; one cell of
    /// width one where there is no range or no value.
    pub open spec fn divided<F: Fn(Calculation) -> Num>(
        f: F,
        values: Seq<Num>,
        min: Num,
        max: Num,
        max_bit: u32,
        config: SieveConfig,
        r: AnalysisGrid,
    ) -> bool {
        let capacity = difference(f, max, min);
        if capacity.at_most(Num { bits: 0 }) || values.len() == 0 {
            r == (AnalysisGrid { step: Num { bits: ONE_BITS }, offset: min, min, max, max_bit })
        } else {
            exists|s: Sieve| #[trigger]
                Sieve::start(places_of(f, values, min, max, max_bit), max_bit, capacity, config, s) && r == (AnalysisGrid {
                    step: (match s.found(f) {
                        Some(level) => width_at(f, capacity, level),
                        None => capacity,
                    }),
                    offset: min,
                    min,
                    max,
                    max_bit,
                })
        }
    }

    /// The finest division of a range before the crossings jump.
    pub fn new<F: Fn(Calculation) -> Num>(values: &Vec<Num>, min: Num, max: Num, max_bit: u32, f: &F) -> (r: AnalysisGrid)
        requires
            calculates(*f),
            max_bit < 64,
        ensures
            AnalysisGrid::divided(*f, values@, min, max, max_bit, default_config(), r),
    {
        AnalysisGrid::with_config(values, min, max, max_bit, SieveConfig::default(), f)
    }

    /// The finest division of a range before the crossings jump, with limits of
    /// one's own.
    pub fn with_config<F: Fn(Calculation) -> Num>(
        values: &Vec<Num>,
        min: Num,
        max: Num,
        max_bit: u32,
        config: SieveConfig,
        f: &F,
    ) -> (r: AnalysisGrid)
        requires
            calculates(*f),
            max_bit < 64,
        ensures
            AnalysisGrid::divided(*f, values@, min, max, max_bit, config, r),
    {
        let capacity = calculate(f, Calculation::Difference(max, min));
        if capacity.le(Num::zero()) || values.len() == 0 {
            return AnalysisGrid { step: Num { bits: ONE_BITS }, offset: min, min, max, max_bit };
        }
        let sieve = Sieve::new(places(f, values, min, max, max_bit), max_bit, capacity, config);
        let ghost started = sieve;
        let best = sieve.search(f);
        let step = match best {
            Some(level) => {
                let parts: u64 = 1u64 << level;
                let pn = calculate(f, Calculation::Count(parts as u128));
                calculate(f, Calculation::Quotient(capacity, pn))
            },
            None => capacity,
        };
        assert(Sieve::start(places_of(*f, values@, min, max, max_bit), max_bit, capacity, config, started));
        AnalysisGrid { step, offset: min, min, max, max_bit }
    }

    /// The number of cells.
    pub fn num_cells<F: Fn(Calculation) -> Num>(&self, f: &F) -> (r: usize)
        requires
            calculates(*f),
        ensures
            r == self.cells_of(*f),
    {
        let width = calculate(f, Calculation::Difference(self.max, self.offset));
        let x = calculate(f, Calculation::Quotient(width, self.step));
        let n = as_place(round_up(x));
        if n > 1 {
            n
        } else {
            1
        }
    }

    /// The number of borders, one more than cells.
    pub fn num_lines<F: Fn(Calculation) -> Num>(&self, f: &F) -> (r: usize)
        requires
            calculates(*f),
            self.cells_of(*f) < usize::MAX,
        ensures
            r == self.cells_of(*f) + 1,
    {
        self.num_cells(f) + 1
    }

    /// The cell that a value lies in.
    pub fn cell<F: Fn(Calculation) -> Num>(&self, y: Num, f: &F) -> (r: usize)
        requires
            calculates(*f),
        ensures
            r == self.cell_of(*f, y),
    {
        if y.le(self.min) {
            0
        } else if self.max.le(y) {
            self.num_cells(f) - 1
        } else {
            let off = calculate(f, Calculation::Difference(y, self.offset));
            as_place(truncate(calculate(f, Calculation::Quotient(off, self.step))))
        }
    }

    /// The cells of values.
    pub open spec fn cells_at<F: Fn(Calculation) -> Num>(self, f: F, values: Seq<Num>) -> Seq<u64> {
        Seq::new(values.len(), |i: int| self.cell_of(f, values[i]) as u64)
    }

    /// The borders that a series of values crosses.
    pub fn crossings<F: Fn(Calculation) -> Num>(&self, values: &Vec<Num>, f: &F) -> (r: u128)
        requires
            calculates(*f),
        ensures
            r == crossings_of(self.cells_at(*f, values@), 0),
    {
        let ghost want = self.cells_at(*f, values@);
        let mut cells: Vec<u64> = Vec::new();
        let mut i: usize = 0;
        while i < values.len()
            invariant
                i <= values@.len(),
                calculates(*f),
                want == self.cells_at(*f, values@),
                cells@ == want.take(i as int),
            decreases values@.len() - i,
        {
            cells.push(self.cell(values[i], f) as u64);
            i += 1;
            assert(cells@ =~= want.take(i as int));
        }
        assert(cells@ =~= want);
        crossings(&cells, 0)
    }

    /// The points of a series, by time and cell.
    pub open spec fn points_at<F: Fn(Calculation) -> Num>(self, f: F, data: Seq<(i64, Num)>) -> Seq<(i64, usize)> {
        Seq::new(data.len(), |i: int| (data[i].0, self.cell_of(f, data[i].1)))
    }

    /// The points of each cell in each bucket of time; the points are in the
    /// order of time, and lie in cells.
    pub fn occupancy<F: Fn(Calculation) -> Num>(&self, data: &Vec<(i64, Num)>, interval_secs: i64, f: &F) -> (r: Vec<
        Vec<usize>,
    >)
        requires
            calculates(*f),
            countable_points(self.points_at(*f, data@), self.cells_of(*f), interval_secs),
        ensures
            is_occupancy(self.points_at(*f, data@), self.cells_of(*f), interval_secs, r@),
    {
        let ghost want = self.points_at(*f, data@);
        let mut points: Vec<(i64, usize)> = Vec::new();
        let mut i: usize = 0;
        while i < data.len()
            invariant
                i <= data@.len(),
                calculates(*f),
                want == self.points_at(*f, data@),
                points@ == want.take(i as int),
            decreases data@.len() - i,
        {
            points.push((data[i].0, self.cell(data[i].1, f)));
            i += 1;
            assert(points@ =~= want.take(i as int));
        }
        assert(points@ =~= want);
        occupancy(&points, self.num_cells(f), interval_secs)
    }

    /// The bounds of a cell; none for what is no cell.
    pub fn cell_range<F: Fn(Calculation) -> Num>(&self, cell: usize, f: &F) -> (r: Option<(Num, Num)>)
        requires
            calculates(*f),
        ensures
            r is Some <==> cell < self.cells_of(*f),
            r matches Some(x) ==> x == self.range_of(*f, cell as int),
    {
        if cell >= self.num_cells(f) {
            return None;
        }
        let c = calculate(f, Calculation::Count(cell as u128));
        let off = calculate(f, Calculation::Product(c, self.step));
        let low = calculate(f, Calculation::Sum(self.min, off));
        Some((low, calculate(f, Calculation::Sum(low, self.step))))
    }

    /// The bounds of all cells, with their numbers.
    pub fn cell_ranges<F: Fn(Calculation) -> Num>(&self, f: &F) -> (r: Vec<(usize, Num, Num)>)
        requires
            calculates(*f),
        ensures
            r@ == Seq::new(
                self.cells_of(*f) as nat,
                |i: int| (i as usize, self.range_of(*f, i).0, self.range_of(*f, i).1),
            ),
    {
        let ghost want = Seq::new(
            self.cells_of(*f) as nat,
            |i: int| (i as usize, self.range_of(*f, i).0, self.range_of(*f, i).1),
        );
        let n: usize = self.num_cells(f);
        let mut out: Vec<(usize, Num, Num)> = Vec::new();
        let mut i: usize = 0;
        while i < n
            invariant
                i <= n == self.cells_of(*f),
                calculates(*f),
                want == Seq::new(
                    self.cells_of(*f) as nat,
                    |i: int| (i as usize, self.range_of(*f, i).0, self.range_of(*f, i).1),
                ),
                out@ == want.take(i as int),
            decreases n - i,
        {
            if let Some((low, high)) = self.cell_range(i, f) {
                out.push((i, low, high));
            }
            i += 1;
            assert(out@ =~= want.take(i as int));
        }
        assert(out@ =~= want);
        out
    }
}

/// The limits of a search where none are given.
pub open spec fn default_config() -> SieveConfig {
    SieveConfig {
        delta_multiplier: Num { bits: DELTA_MULTIPLIER_BITS },
        min_abs_delta: Num { bits: MIN_ABS_DELTA_BITS },
    }
}

/// Which bucket of time a point is in.
pub open spec fn bucket_of(t: int, start: int, interval: int) -> int {
    (t - start) / interval
}

/// How many of the first `n` points are in a bucket and a cell.
pub open spec fn points_in(data: Seq<(i64, usize)>, interval: int, bucket: int, cell: int, n: nat) -> nat
    decreases n,
{
    if n == 0 {
        0
    } else {
        let p = data[n - 1];
        let one: nat = if bucket_of(p.0 as int, data[0].0 as int, interval) == bucket && p.1 == cell {
            1
        } else {
            0
        };
        points_in(data, interval, bucket, cell, (n - 1) as nat) + one
    }
}

/// Whether points can be counted: each lies in a cell, and their times are in
/// order and no further apart than a machine word says.
pub open spec fn countable_points(data: Seq<(i64, usize)>, num_cells: usize, interval_secs: i64) -> bool {
    &&& forall|i: int| 0 <= i < data.len() ==> (#[trigger] data[i]).1 < num_cells
    &&& forall|i: int| 0 <= i < data.len() ==> data[0].0 <= (#[trigger] data[i]).0 <= data[data.len() - 1].0
    &&& data.len() > 0 ==> data[data.len() - 1].0 - data[0].0 <= i64::MAX
    &&& data.len() > 0 && interval_secs > 0 ==> bucket_of(
        data[data.len() - 1].0 as int,
        data[0].0 as int,
        interval_secs as int,
    ) < usize::MAX
}

/// Whether `r` holds the points by bucket of time and by cell; it is empty
/// without points or without an interval.
pub open spec fn is_occupancy(data: Seq<(i64, usize)>, num_cells: usize, interval_secs: i64, r: Seq<Vec<usize>>) -> bool {
    &&& data.len() == 0 || interval_secs <= 0 ==> r.len() == 0
    &&& data.len() > 0 && interval_secs > 0 ==> r.len() == bucket_of(
        data[data.len() - 1].0 as int,
        data[0].0 as int,
        interval_secs as int,
    ) + 1
    &&& forall|b: int| 0 <= b < r.len() ==> (#[trigger] r[b])@.len() == num_cells
    &&& forall|b: int, c: int|
        0 <= b < r.len() && 0 <= c < num_cells ==> #[trigger] r[b]@[c] == points_in(
            data,
            interval_secs as int,
            b,
            c,
            data.len(),
        )
}

/// Counts points by bucket of time and by cell. The points are in the order of
/// time; each is a time and a cell.
pub fn occupancy(data: &Vec<(i64, usize)>, num_cells: usize, interval_secs: i64) -> (r: Vec<Vec<usize>>)
    requires
        countable_points(data@, num_cells, interval_secs),
    ensures
        is_occupancy(data@, num_cells, interval_secs, r@),
{
    let n: usize = data.len();
    if n == 0 || interval_secs <= 0 {
        return Vec::new();
    }
    let start = data[0].0;
    let span: u64 = (data[n - 1].0 - start) as u64;
    let step: u64 = interval_secs as u64;
    let buckets: usize = (span / step) as usize + 1;
    let mut r: Vec<Vec<usize>> = Vec::new();
    let mut b: usize = 0;
    while b < buckets
        invariant
            b <= buckets,
            r@.len() == b,
            forall|k: int| 0 <= k < b ==> (#[trigger] r@[k])@ == crate::grid::repeated(0usize, num_cells as nat),
        decreases buckets - b,
    {
        r.push(repeat(0usize, num_cells));
        b += 1;
    }
    let mut i: usize = 0;
    while i < n
        invariant
            n == data@.len(),
            n > 0,
            i <= n,
            interval_secs > 0,
            step == interval_secs,
            start == data@[0].0,
            buckets == bucket_of(data@[n - 1].0 as int, start as int, interval_secs as int) + 1,
            data@[n - 1].0 - data@[0].0 <= i64::MAX,
            forall|i: int| 0 <= i < data@.len() ==> (#[trigger] data@[i]).1 < num_cells,
            forall|i: int|
                0 <= i < data@.len() ==> data@[0].0 <= (#[trigger] data@[i]).0 <= data@[data@.len() - 1].0,
            r@.len() == buckets,
            forall|b: int| 0 <= b < r@.len() ==> (#[trigger] r@[b])@.len() == num_cells,
            forall|b: int, c: int|
                0 <= b < r@.len() && 0 <= c < num_cells ==> #[trigger] r@[b]@[c] == points_in(
                    data@,
                    interval_secs as int,
                    b,
                    c,
                    i as nat,
                ),
        decreases n - i,
    {
        let (ts, cell) = data[i];
        let off: u64 = (ts - start) as u64;
        let bucket: usize = (off / step) as usize;
        proof {
            let last = data@[n - 1].0 - start;
            assert(off / step <= last / (step as int)) by (nonlinear_arith)
                requires
                    off <= last,
                    step > 0,
            ;
        }
        proof {
            lemma_points_bound(data@, interval_secs as int, bucket as int, cell as int, i as nat);
        }
        let ghost before = r@;
        let count: usize = r[bucket][cell] + 1;
        r[bucket][cell] = count;
        proof {
            assert forall|b: int, c: int| 0 <= b < r@.len() && 0 <= c < num_cells implies #[trigger] r@[b]@[c]
                == points_in(data@, interval_secs as int, b, c, (i + 1) as nat) by {
                assert(before[b]@[c] == points_in(data@, interval_secs as int, b, c, i as nat));
            }
        }
        i += 1;
    }
    r
}

proof fn lemma_points_bound(data: Seq<(i64, usize)>, interval: int, bucket: int, cell: int, n: nat)
    ensures
        points_in(data, interval, bucket, cell, n) <= n,
    decreases n,
{
    if n > 0 {
        lemma_points_bound(data, interval, bucket, cell, (n - 1) as nat);
    }
}

/// The times between neighbouring candles.
pub open spec fn gaps(candles: Seq<CandleStick>) -> Seq<int> {
    Seq::new(
        if candles.len() == 0 {
            0
        } else {
            (candles.len() - 1) as nat
        },
        |i: int| candles[i + 1].t - candles[i].t,
    )
}

/// Whether the numbers do not fall.
pub open spec fn not_falling(s: Seq<i64>) -> bool {
    forall|i: int, j: int| 0 <= i <= j < s.len() ==> #[trigger] s[i] <= #[trigger] s[j]
}

/// Whether `r` is the upper median of the gaps, at least one second; one hour
/// where there is no gap.
pub open spec fn is_median_gap(candles: Seq<CandleStick>, r: i64) -> bool {
    exists|sorted: Seq<i64>|
        {
            &&& #[trigger] not_falling(sorted)
            &&& sorted.map_values(|g: i64| g as int).to_multiset() == gaps(candles).to_multiset()
            &&& sorted.len() == gaps(candles).len()
            &&& sorted.len() == 0 ==> r == 3600
            &&& sorted.len() > 0 ==> r == (if sorted[sorted.len() as int / 2] >= 1 {
                sorted[sorted.len() as int / 2]
            } else {
                1
            })
        }
}

/// The usual time between candles: the upper median of the gaps.
pub fn median_gap(candles: &Vec<CandleStick>) -> (r: i64)
    requires
        forall|i: int| 0 <= i < gaps(candles@).len() ==> i64::MIN <= #[trigger] gaps(candles@)[i] <= i64::MAX,
    ensures
        is_median_gap(candles@, r),
{
    let n: usize = candles.len();
    let ghost all = gaps(candles@);
    let mut out: Vec<i64> = Vec::new();
    let mut i: usize = 1;
    let ghost as_int = |g: i64| g as int;
    assert(all.take(0) =~= out@.map_values(as_int));
    while i < n
        invariant
            n == candles@.len(),
            1 <= i,
            n > 0 ==> i <= n,
            n == 0 ==> i == 1,
            all == gaps(candles@),
            as_int == (|g: i64| g as int),
            forall|i: int| 0 <= i < all.len() ==> i64::MIN <= #[trigger] all[i] <= i64::MAX,
            out@.len() == i - 1,
            not_falling(out@),
            out@.map_values(as_int).to_multiset() == all.take(i - 1).to_multiset(),
        decreases n - i,
    {
        assert(all[i - 1] == candles@[i as int].t - candles@[i - 1].t);
        let x: i64 = candles[i].t - candles[i - 1].t;
        let mut p: usize = 0;
        while p < out.len() && out[p] <= x
            invariant
                p <= out@.len(),
                forall|k: int| 0 <= k < p ==> #[trigger] out@[k] <= x,
            decreases out@.len() - p,
        {
            p += 1;
        }
        let ghost before = out@;
        out.insert(p, x);
        proof {
            let bi = before.map_values(as_int);
            assert(out@.map_values(as_int) =~= bi.insert(p as int, x as int));
            to_multiset_insert(bi, p as int, x as int);
            to_multiset_insert(all.take(i - 1), i - 1, x as int);
            assert(all.take(i as int) =~= all.take(i - 1).insert(i - 1, x as int));
            assert forall|a: int, b: int| 0 <= a <= b < out@.len() implies #[trigger] out@[a] <= #[trigger] out@[b] by {
                let a0 = if a < p { a } else { a - 1 };
                let b0 = if b < p { b } else { b - 1 };
                if a != p {
                    assert(out@[a] == before[a0]);
                }
                if b != p {
                    assert(out@[b] == before[b0]);
                }
                if a == p && b > p {
                    assert(before[p as int] <= before[b0]);
                }
            }
        }
        i += 1;
    }
    proof {
        if n > 0 {
            assert(all.take(i - 1) =~= all);
        } else {
            assert(out@.map_values(as_int) =~= all);
        }
        assert(not_falling(out@));
    }
    let m: usize = out.len();
    if m == 0 {
        3600
    } else {
        let g = out[m / 2];
        if g >= 1 {
            g
        } else {
            1
        }
    }
}

} // verus!
