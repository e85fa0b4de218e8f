//! Exact slopes. The edges of an arc are fractions of integers, and every
//! comparison is made by cross-multiplication, so no rounding takes part in
//! deciding which cells a row holds.

use vstd::prelude::*;
use vstd::arithmetic::div_mod::lemma_fundamental_div_mod;
use vstd::arithmetic::div_mod::lemma_fundamental_div_mod_converse;
use vstd::arithmetic::div_mod::lemma_mod_bound;

verus! {

/// The fraction `num / den` of two mathematical integers, `den` positive.
pub struct Ratio {
    pub num: int,
    pub den: int,
}

impl Ratio {
    /// `self >= other`, for positive denominators.
    pub open spec fn at_least(self, other: Ratio) -> bool {
        self.num * other.den >= other.num * self.den
    }

    /// The greatest integer that is at most `d * self`.
    pub open spec fn floor_times(self, d: int) -> int {
        (d * self.num) / self.den
    }

    /// The least integer that is at least `d * self`.
    pub open spec fn ceil_times(self, d: int) -> int {
        -((-(d * self.num)) / self.den)
    }

    /// The slope half a cell before the centre of offset `i` in the row at
    /// distance `d`: `(i - 1/2) / d`.
    pub open spec fn before(i: int, d: int) -> Ratio {
        Ratio { num: 2 * i - 1, den: 2 * d }
    }

    /// The slope half a cell past the centre of offset `i` in the row at
    /// distance `d`: `(i + 1/2) / d`.
    pub open spec fn after(i: int, d: int) -> Ratio {
        Ratio { num: 2 * i + 1, den: 2 * d }
    }

    /// `self <= i / d`: the cell at offset `i` in the row at distance `d`
    /// lies at this slope or above it.
    pub open spec fn not_above(self, d: int, i: int) -> bool {
        self.num * d <= i * self.den
    }

    /// `i / d <= self`: the cell at offset `i` in the row at distance `d`
    /// lies at this slope or below it.
    pub open spec fn not_below(self, d: int, i: int) -> bool {
        i * self.den <= self.num * d
    }

    /// A slope that may open an arc: at least -1 and at most `1 + 1/den`.
    /// The slopes from -1 to 1 are among them, and so is the edge half a cell
    /// past the last cell of a row, which opens an arc that holds nothing.
    pub open spec fn opens_arc(self) -> bool {
        self.den > 0 && -self.den <= self.num <= self.den + 1
    }

    /// A slope that may close an arc: at most 1 and at least `-1 - 1/den`.
    /// The slopes from -1 to 1 are among them, and so is the edge half a cell
    /// before the first cell of a row, which closes an arc that holds nothing.
    pub open spec fn closes_arc(self) -> bool {
        self.den > 0 && -self.den - 1 <= self.num <= self.den
    }
}

/// `floor_times` is the floor: the one integer `q` with
/// `q <= d * r < q + 1`.
pub proof fn lemma_floor_times(r: Ratio, d: int)
    requires
        r.den > 0,
    ensures
        r.floor_times(d) * r.den <= d * r.num < (r.floor_times(d) + 1) * r.den,
{
    let n = d * r.num;
    lemma_fundamental_div_mod(n, r.den);
    lemma_mod_bound(n, r.den);
    assert(r.den * (n / r.den) == (n / r.den) * r.den) by (nonlinear_arith);
    assert((n / r.den + 1) * r.den == (n / r.den) * r.den + r.den) by (nonlinear_arith);
}

/// `ceil_times` is the ceiling: the one integer `q` with
/// `q - 1 < d * r <= q`.
pub proof fn lemma_ceil_times(r: Ratio, d: int)
    requires
        r.den > 0,
    ensures
        (r.ceil_times(d) - 1) * r.den < d * r.num <= r.ceil_times(d) * r.den,
{
    let n = -(d * r.num);
    let k = n / r.den;
    lemma_fundamental_div_mod(n, r.den);
    lemma_mod_bound(n, r.den);
    assert(r.den * k == k * r.den) by (nonlinear_arith);
    assert((-k) * r.den == -(k * r.den)) by (nonlinear_arith);
    assert((-k - 1) * r.den == -(k * r.den) - r.den) by (nonlinear_arith);
}

/// A row at distance `d` lies within `[-d, d]` when its arc lies within
/// `[-1, 1]`: the offsets start at `-d` or later and end at `d` or earlier.
pub proof fn lemma_offsets_within_row(lo: Ratio, hi: Ratio, d: int)
    requires
        d >= 0,
        lo.opens_arc(),
        hi.closes_arc(),
    ensures
        -d <= lo.ceil_times(d) <= 2 * d,
        -2 * d <= hi.floor_times(d) <= d,
{
    lemma_ceil_times(lo, d);
    lemma_floor_times(hi, d);
    let a = lo.ceil_times(d);
    let b = hi.floor_times(d);
    assert(a >= -d) by (nonlinear_arith)
        requires
            d >= 0,
            lo.den > 0,
            -lo.den <= lo.num,
            d * lo.num <= a * lo.den,
    ;
    assert(a <= 2 * d) by (nonlinear_arith)
        requires
            d >= 0,
            lo.den > 0,
            lo.num <= lo.den + 1,
            (a - 1) * lo.den < d * lo.num,
    ;
    assert(b <= d) by (nonlinear_arith)
        requires
            d >= 0,
            hi.den > 0,
            hi.num <= hi.den,
            b * hi.den <= d * hi.num,
    ;
    assert(b >= -2 * d) by (nonlinear_arith)
        requires
            d >= 0,
            hi.den > 0,
            -hi.den - 1 <= hi.num,
            d * hi.num < (b + 1) * hi.den,
    ;
}

/// Fractions with positive denominators are ordered by cross-multiplication,
/// and that order is transitive: `a1/b1 <= a2/b2 <= a3/b3`.
pub proof fn lemma_ratio_order_chain(a1: int, b1: int, a2: int, b2: int, a3: int, b3: int)
    requires
        b1 > 0,
        b2 > 0,
        b3 > 0,
        a1 * b2 <= a2 * b1,
        a2 * b3 <= a3 * b2,
    ensures
        a1 * b3 <= a3 * b1,
{
    assert((a1 * b2) * b3 <= (a2 * b1) * b3) by (nonlinear_arith)
        requires
            a1 * b2 <= a2 * b1,
            b3 > 0,
    ;
    assert((a2 * b3) * b1 <= (a3 * b2) * b1) by (nonlinear_arith)
        requires
            a2 * b3 <= a3 * b2,
            b1 > 0,
    ;
    assert((a2 * b1) * b3 == (a2 * b3) * b1) by (nonlinear_arith);
    assert((a1 * b2) * b3 == (a1 * b3) * b2) by (nonlinear_arith);
    assert((a3 * b2) * b1 == (a3 * b1) * b2) by (nonlinear_arith);
    assert(a1 * b3 <= a3 * b1) by (nonlinear_arith)
        requires
            (a1 * b3) * b2 <= (a3 * b1) * b2,
            b2 > 0,
    ;
}

/// A slope held as two machine integers.
#[derive(Clone, Copy, Debug)]
pub struct Slope {
    pub num: i64,
    pub den: i64,
}

impl View for Slope {
    type V = Ratio;

    open spec fn view(&self) -> Ratio {
        Ratio { num: self.num as int, den: self.den as int }
    }
}

/// The product of two 64-bit integers, which always fits in 128 bits.
fn wide_mul(a: i64, b: i64) -> (p: i128)
    ensures
        p == a * b,
        -0x4000_0000_0000_0000_0000_0000_0000_0000 <= p
            <= 0x4000_0000_0000_0000_0000_0000_0000_0000,
{
    assert(-0x4000_0000_0000_0000_0000_0000_0000_0000 <= a * b
        <= 0x4000_0000_0000_0000_0000_0000_0000_0000) by (nonlinear_arith)
        requires
            -0x8000_0000_0000_0000 <= a <= 0x8000_0000_0000_0000,
            -0x8000_0000_0000_0000 <= b <= 0x8000_0000_0000_0000,
    ;
    (a as i128) * (b as i128)
}

/// Division rounded toward minus infinity. The quotient lies between the
/// dividend and zero.
fn floor_div(n: i128, den: i128) -> (q: i128)
    requires
        den > 0,
        n > i128::MIN,
    ensures
        q == n / den,
        n >= 0 ==> 0 <= q <= n,
        n < 0 ==> n <= q < 0,
{
    if n >= 0 {
        let q: i128 = n / den;
        proof {
            lemma_fundamental_div_mod(n as int, den as int);
            lemma_mod_bound(n as int, den as int);
            assert(0 <= q <= n) by (nonlinear_arith)
                requires
                    den >= 1,
                    n >= 0,
                    n == den * q + (n as int) % (den as int),
                    0 <= (n as int) % (den as int) < den,
            ;
        }
        q
    } else {
        let m: i128 = -(n + 1);
        let k: i128 = m / den;
        proof {
            lemma_fundamental_div_mod(m as int, den as int);
            lemma_mod_bound(m as int, den as int);
            let r = (m as int) % (den as int);
            assert(0 <= k <= m) by (nonlinear_arith)
                requires
                    den >= 1,
                    m >= 0,
                    m == den * k + r,
                    0 <= r < den,
            ;
            assert(den * k == k * den) by (nonlinear_arith);
            assert((-k - 1) * den == -(k * den) - den) by (nonlinear_arith);
            assert(n == (-k - 1) * den + (den - r - 1));
            lemma_fundamental_div_mod_converse(n as int, den as int, -k - 1, den - r - 1);
        }
        -k - 1
    }
}

impl Slope {
    /// The whole number `n` as a slope. A quadrant lies between `whole(-1)`
    /// and `whole(1)`.
    pub fn whole(n: i64) -> (s: Slope)
        ensures
            s@ == (Ratio { num: n as int, den: 1 }),
    {
        Slope { num: n, den: 1 }
    }

    /// The slope `(offset - 1/2) / distance`, half a cell before the centre of
    /// the cell at `offset` in the row at `distance`.
    pub fn before(offset: i64, distance: u32) -> (s: Slope)
        requires
            distance > 0,
            i64::MIN <= 2 * offset - 1,
            2 * offset + 1 <= i64::MAX,
        ensures
            s@ == Ratio::before(offset as int, distance as int),
    {
        Slope { num: 2 * offset - 1, den: 2 * (distance as i64) }
    }

    /// The slope `(offset + 1/2) / distance`, half a cell past the centre of
    /// the cell at `offset` in the row at `distance`.
    pub fn after(offset: i64, distance: u32) -> (s: Slope)
        requires
            distance > 0,
            i64::MIN <= 2 * offset - 1,
            2 * offset + 1 <= i64::MAX,
        ensures
            s@ == Ratio::after(offset as int, distance as int),
    {
        Slope { num: 2 * offset + 1, den: 2 * (distance as i64) }
    }

    /// Whether `self >= other`, for positive denominators.
    pub fn at_least(self, other: Slope) -> (r: bool)
        ensures
            r == self@.at_least(other@),
    {
        wide_mul(self.num, other.den) >= wide_mul(other.num, self.den)
    }

    /// The first offset of the row at `distance` that an arc opened by this
    /// slope holds: the ceiling of `distance * self`.
    pub fn first_offset(self, distance: u32) -> (i: i128)
        requires
            self.den > 0,
        ensures
            i == self@.ceil_times(distance as int),
    {
        let n: i128 = wide_mul(distance as i64, self.num);
        -floor_div(-n, self.den as i128)
    }

    /// The last offset of the row at `distance` that an arc closed by this
    /// slope holds: the floor of `distance * self`.
    pub fn last_offset(self, distance: u32) -> (i: i128)
        requires
            self.den > 0,
        ensures
            i == self@.floor_times(distance as int),
    {
        let n: i128 = wide_mul(distance as i64, self.num);
        floor_div(n, self.den as i128)
    }
}

} // verus!
