//! The weights of the blur: a neighbour at distance `d` from the pixel
//! weighs `1 / (d + 1)`, held as a fixed-point number of 54 fractional bits.
//!
//! With `d2` the square of the distance, the weight is the largest integer `w`
//! with `w * (1 + sqrt(d2)) <= 2^54`. Squaring `w * sqrt(d2) <= 2^54 - w`
//! states the same over integers alone, which is the form used here.

use vstd::arithmetic::div_mod::lemma_div_is_ordered;
use vstd::arithmetic::div_mod::lemma_div_multiples_vanish;
use vstd::arithmetic::div_mod::lemma_fundamental_div_mod;
use vstd::arithmetic::div_mod::lemma_fundamental_div_mod_converse;
use vstd::arithmetic::mul::lemma_mul_inequality;
use vstd::arithmetic::mul::lemma_mul_upper_bound;
use vstd::prelude::*;

verus! {

/// The weight of the pixel itself: 1.0 in fixed point.
pub const WEIGHT_ONE: u64 = 0x40_0000_0000_0000;

/// The squared distance between two pixels `dx` columns and `dy` rows apart.
pub open spec fn distance_squared(dx: int, dy: int) -> int {
    dx * dx + dy * dy
}

/// Whether `w * (1 + sqrt(d2)) <= 2^54`, for `w` from 0 to 2^54.
pub open spec fn fits(d2: int, w: int) -> bool {
    0 <= w <= WEIGHT_ONE && w * w * d2 <= (WEIGHT_ONE - w) * (WEIGHT_ONE - w)
}

/// Whether `w` is the weight at squared distance `d2`: the largest `w` that
/// fits.
pub open spec fn is_weight(d2: int, w: int) -> bool {
    fits(d2, w) && !fits(d2, w + 1)
}

/// The weight at squared distance `d2`.
pub open spec fn weight_of(d2: int) -> int {
    choose|w: int| is_weight(d2, w)
}

/// What fits keeps fitting when made smaller.
pub proof fn lemma_fits_below(d2: int, small: int, large: int)
    requires
        0 <= d2,
        0 <= small <= large,
        fits(d2, large),
    ensures
        fits(d2, small),
{
    assert(small * small * d2 <= large * large * d2) by (nonlinear_arith)
        requires
            0 <= d2,
            0 <= small <= large,
    ;
    let a: int = WEIGHT_ONE - large;
    let b: int = WEIGHT_ONE - small;
    assert(a * a <= b * b) by (nonlinear_arith)
        requires
            0 <= a <= b,
    ;
}

/// At each squared distance one number at most is the weight.
pub proof fn lemma_weight_unique(d2: int, w: int)
    requires
        0 <= d2,
        is_weight(d2, w),
    ensures
        weight_of(d2) == w,
{
    let v: int = weight_of(d2);
    assert(is_weight(d2, v));
    if v < w {
        lemma_fits_below(d2, v + 1, w);
    }
    if w < v {
        lemma_fits_below(d2, w + 1, v);
    }
}

/// Between a number that fits and a larger one that does not lies the weight.
proof fn lemma_weight_between(d2: int, low: int, high: int)
    requires
        low < high,
        fits(d2, low),
        !fits(d2, high),
    ensures
        exists|w: int| is_weight(d2, w),
    decreases high - low,
{
    if fits(d2, low + 1) {
        lemma_weight_between(d2, low + 1, high);
    } else {
        assert(is_weight(d2, low));
    }
}

/// Every squared distance has its weight, between 0 and 1.0; the pixel
/// itself weighs 1.0.
pub proof fn lemma_weight_exists(d2: int)
    requires
        0 <= d2,
    ensures
        is_weight(d2, weight_of(d2)),
        0 <= weight_of(d2) <= WEIGHT_ONE,
        d2 == 0 ==> weight_of(d2) == WEIGHT_ONE,
{
    assert(fits(d2, 0)) by (nonlinear_arith)
        requires
            0 <= d2,
    ;
    lemma_weight_between(d2, 0, WEIGHT_ONE + 1);
    if d2 == 0 {
        assert(is_weight(0, WEIGHT_ONE as int)) by (nonlinear_arith);
        lemma_weight_unique(0, WEIGHT_ONE as int);
    }
}

/// For a positive `q`, `d <= r / q` says the same as `d * q <= r`.
proof fn lemma_quotient_bound(d: int, r: int, q: int)
    requires
        0 <= d,
        0 <= r,
        0 < q,
    ensures
        d <= r / q <==> d * q <= r,
{
    lemma_fundamental_div_mod(r, q);
    assert(q * (r / q) == (r / q) * q) by (nonlinear_arith);
    if d <= r / q {
        lemma_mul_inequality(d, r / q, q);
    }
    if d * q <= r {
        lemma_div_is_ordered(d * q, r, q);
        lemma_div_multiples_vanish(d, q);
        assert(q * d == d * q) by (nonlinear_arith);
    }
}

/// Whether `w` fits at squared distance `d2`.
fn fits_at(d2: u128, w: u64) -> (r: bool)
    ensures
        r == fits(d2 as int, w as int),
{
    if w > WEIGHT_ONE {
        return false;
    }
    if w == 0 {
        assert(fits(d2 as int, 0)) by (nonlinear_arith)
            requires
                0 <= d2,
        ;
        return true;
    }
    let wide: u128 = w as u128;
    let rest: u128 = (WEIGHT_ONE - w) as u128;
    proof {
        lemma_mul_upper_bound(wide as int, WEIGHT_ONE as int, wide as int, WEIGHT_ONE as int);
        lemma_mul_upper_bound(rest as int, WEIGHT_ONE as int, rest as int, WEIGHT_ONE as int);
        assert(WEIGHT_ONE * WEIGHT_ONE == 0x1000_0000_0000_0000_0000_0000_0000) by (nonlinear_arith);
        assert(0 < wide * wide) by (nonlinear_arith)
            requires
                0 < wide,
        ;
        assert(0 <= rest * rest) by (nonlinear_arith);
        lemma_quotient_bound(d2 as int, rest * rest, wide * wide);
        assert(w * w * d2 == d2 * (wide * wide)) by (nonlinear_arith)
            requires
                wide == w,
        ;
    }
    d2 <= (rest * rest) / (wide * wide)
}

/// The weight at squared distance `d2`, found by bisection.
pub fn weight(d2: u128) -> (w: u64)
    ensures
        w == weight_of(d2 as int),
        w <= WEIGHT_ONE,
        d2 == 0 ==> w == WEIGHT_ONE,
{
    let mut low: u64 = 0;
    let mut high: u64 = WEIGHT_ONE + 1;
    proof {
        assert(fits(d2 as int, 0)) by (nonlinear_arith)
            requires
                0 <= d2,
        ;
    }
    while high - low > 1
        invariant
            low < high <= WEIGHT_ONE + 1,
            fits(d2 as int, low as int),
            !fits(d2 as int, high as int),
        decreases high - low,
    {
        let middle: u64 = low + (high - low) / 2;
        if fits_at(d2, middle) {
            low = middle;
        } else {
            high = middle;
        }
    }
    proof {
        lemma_weight_unique(d2 as int, low as int);
        lemma_weight_exists(d2 as int);
    }
    low
}

/// The weights of a window, worked out once: one for each pair of offsets
/// `dx` below `columns` and `dy` below `rows`.
pub struct WeightTable {
    columns: usize,
    rows: usize,
    weights: Vec<u64>,
}

impl WeightTable {
    /// The number of column offsets that the table covers.
    pub closed spec fn columns(&self) -> int {
        self.columns as int
    }

    /// The number of row offsets that the table covers.
    pub closed spec fn rows(&self) -> int {
        self.rows as int
    }

    /// Whether the table holds, row offset by row offset, the weight of each
    /// pair of offsets.
    pub closed spec fn wf(&self) -> bool {
        &&& 0 < self.columns <= 0x1_0000_0000
        &&& self.rows <= 0x1_0000_0000
        &&& self.weights@.len() == self.columns * self.rows
        &&& forall|i: int|
            0 <= i < self.weights@.len() ==> #[trigger] self.weights@[i] == weight_of(
                distance_squared(i % self.columns as int, i / self.columns as int),
            )
    }

    /// Works out the weights for the offsets below `columns` and `rows`.
    pub fn new(columns: usize, rows: usize) -> (table: WeightTable)
        requires
            0 < columns <= 0x1_0000_0000,
            rows <= 0x1_0000_0000,
            columns * rows <= usize::MAX,
        ensures
            table.wf(),
            table.columns() == columns,
            table.rows() == rows,
    {
        let mut weights: Vec<u64> = Vec::new();
        let mut dy: usize = 0;
        while dy < rows
            invariant
                dy <= rows,
                0 < columns <= 0x1_0000_0000,
                rows <= 0x1_0000_0000,
                weights@.len() == dy * columns,
                forall|i: int|
                    0 <= i < weights@.len() ==> #[trigger] weights@[i] == weight_of(
                        distance_squared(i % columns as int, i / columns as int),
                    ),
            decreases rows - dy,
        {
            let mut dx: usize = 0;
            while dx < columns
                invariant
                    dx <= columns,
                    dy < rows,
                    0 < columns <= 0x1_0000_0000,
                    rows <= 0x1_0000_0000,
                    weights@.len() == dy * columns + dx,
                    forall|i: int|
                        0 <= i < weights@.len() ==> #[trigger] weights@[i] == weight_of(
                            distance_squared(i % columns as int, i / columns as int),
                        ),
                decreases columns - dx,
            {
                proof {
                    lemma_mul_upper_bound(dx as int, 0xFFFF_FFFF, dx as int, 0xFFFF_FFFF);
                    lemma_mul_upper_bound(dy as int, 0xFFFF_FFFF, dy as int, 0xFFFF_FFFF);
                    assert(0 <= dx * dx && 0 <= dy * dy) by (nonlinear_arith);
                    lemma_fundamental_div_mod_converse(
                        dy * columns + dx,
                        columns as int,
                        dy as int,
                        dx as int,
                    );
                }
                let d2: u128 = (dx as u128) * (dx as u128) + (dy as u128) * (dy as u128);
                weights.push(weight(d2));
                dx = dx + 1;
            }
            proof {
                assert((dy + 1) * columns == dy * columns + columns) by (nonlinear_arith);
            }
            dy = dy + 1;
        }
        proof {
            assert(rows * columns == columns * rows) by (nonlinear_arith);
        }
        WeightTable { columns, rows, weights }
    }

    /// The weight of a pixel `dx` columns and `dy` rows away.
    pub fn get(&self, dx: usize, dy: usize) -> (w: u64)
        requires
            self.wf(),
            dx < self.columns(),
            dy < self.rows(),
        ensures
            w == weight_of(distance_squared(dx as int, dy as int)),
            w <= WEIGHT_ONE,
            dx == 0 && dy == 0 ==> w == WEIGHT_ONE,
    {
        let len: usize = self.weights.len();
        proof {
            let columns: int = self.columns as int;
            let rows: int = self.rows as int;
            assert(dy * columns + dx < columns * rows) by (nonlinear_arith)
                requires
                    0 <= dx < columns,
                    0 <= dy < rows,
            ;
            assert(0 <= dy * columns) by (nonlinear_arith)
                requires
                    0 <= dy,
                    0 < columns,
            ;
            lemma_fundamental_div_mod_converse(dy * columns + dx, columns, dy as int, dx as int);
            assert(0 <= distance_squared(dx as int, dy as int)) by (nonlinear_arith);
            lemma_weight_exists(distance_squared(dx as int, dy as int));
            if dx == 0 && dy == 0 {
                assert(dx * dx + dy * dy == 0) by (nonlinear_arith)
                    requires
                        dx == 0,
                        dy == 0,
                ;
            }
        }
        self.weights[dy * self.columns + dx]
    }
}

} // verus!
