//! Fixed-point scalars.
//!
//! Positions, velocities, accelerations and health are signed 64-bit counts of
//! sub-block units. One block is [`UNIT`] units, chosen so that every physics
//! constant of the simulation is a whole number of units. All arithmetic on
//! scalars saturates at the ends of the 64-bit range.

use vstd::prelude::*;

verus! {

/// A fixed-point quantity measured in sub-block units.
pub type Scalar = i64;

/// Number of sub-block units in one block.
pub const UNIT: i64 = 1_562_500;

/// Half a block, in sub-block units.
pub const HALF_UNIT: i64 = 781_250;

/// The integer `v` forced into the 64-bit signed range.
pub open spec fn clamp_i64(v: int) -> i64 {
    if v > i64::MAX {
        i64::MAX
    } else if v < i64::MIN {
        i64::MIN
    } else {
        v as i64
    }
}

/// The grid cell nearest to the coordinate `v`; a coordinate exactly half way
/// between two cells belongs to the one farther from zero.
pub open spec fn nearest_cell(v: int) -> int {
    if v >= 0 {
        (v + HALF_UNIT) / (UNIT as int)
    } else {
        -((-v + HALF_UNIT) / (UNIT as int))
    }
}

/// Whether the coordinate `v` lies exactly on a cell boundary.
pub open spec fn is_whole(v: int) -> bool {
    v % (UNIT as int) == 0
}

/// The coordinate of the lower edge of cell `c`.
pub open spec fn cell_origin(c: int) -> int {
    c * UNIT
}

/// The grid cell nearest to `v`, as an unsigned cell index: cells left of or
/// below the origin count as cell 0, cells beyond the 32-bit range as the last
/// 32-bit cell.
pub open spec fn nearest_block(v: int) -> u32 {
    let c = nearest_cell(v);
    if c < 0 {
        0u32
    } else if c > u32::MAX {
        u32::MAX
    } else {
        c as u32
    }
}

/// Saturating sum of two scalars.
pub fn sat_add(a: Scalar, b: Scalar) -> (r: Scalar)
    ensures
        r == clamp_i64(a + b),
{
    if b > 0 && a > i64::MAX - b {
        i64::MAX
    } else if b < 0 && a < i64::MIN - b {
        i64::MIN
    } else {
        a + b
    }
}

/// Saturating difference of two scalars.
pub fn sat_sub(a: Scalar, b: Scalar) -> (r: Scalar)
    ensures
        r == clamp_i64(a - b),
{
    if b < 0 && a > i64::MAX + b {
        i64::MAX
    } else if b > 0 && a < i64::MIN + b {
        i64::MIN
    } else {
        a - b
    }
}

/// Saturating negation of a scalar.
pub fn sat_neg(a: Scalar) -> (r: Scalar)
    ensures
        r == clamp_i64(-a),
{
    if a == i64::MIN {
        i64::MAX
    } else {
        -a
    }
}

/// The magnitude of a scalar as an unsigned number.
pub fn magnitude(v: Scalar) -> (m: u64)
    ensures
        m == if v >= 0 { v as int } else { -(v as int) },
{
    if v >= 0 {
        v as u64
    } else {
        let below: i64 = -(v + 1);
        (below as u64) + 1
    }
}

/// The grid cell nearest to the coordinate `v`.
pub fn round_to_cell(v: Scalar) -> (c: i64)
    ensures
        c == nearest_cell(v as int),
        -5_902_958_103_587 <= c <= 5_902_958_103_587,
{
    let m: u64 = magnitude(v);
    let q: u64 = (m + 781_250u64) / 1_562_500u64;
    assert(q <= 5_902_958_103_587);
    if v >= 0 {
        q as i64
    } else {
        -(q as i64)
    }
}

/// The coordinate `v` moved onto the lower edge of its nearest cell.
pub open spec fn snapped(v: int) -> int {
    cell_origin(nearest_cell(v))
}

/// The coordinate `v` moved onto the lower edge of its nearest cell.
pub fn snap(v: Scalar) -> (s: Scalar)
    ensures
        s == snapped(v as int),
        is_whole(s as int),
        -(HALF_UNIT as int) <= v - s <= HALF_UNIT as int,
{
    let cell: i64 = round_to_cell(v);
    proof {
        lemma_cell_origin_round_trip(cell as int);
        lemma_nearest_cell_is_near(v as int);
    }
    cell * UNIT
}

/// The grid cell nearest to the coordinate `v` as an unsigned cell index.
pub fn round_to_block(v: Scalar) -> (c: u32)
    ensures
        c == nearest_block(v as int),
{
    let cell: i64 = round_to_cell(v);
    if cell < 0 {
        0u32
    } else if cell > 0xffff_ffffi64 {
        u32::MAX
    } else {
        cell as u32
    }
}

/// Whether the coordinate `v` lies exactly on a cell boundary.
pub fn on_grid(v: Scalar) -> (b: bool)
    ensures
        b == is_whole(v as int),
{
    let m: u64 = magnitude(v);
    let rem: u64 = m % 1_562_500u64;
    proof {
        lemma_whole_symmetric(v as int);
    }
    rem == 0
}

/// The coordinate of the lower edge of cell `c`, for any cell a 32-bit world
/// can address and its immediate surroundings.
pub fn cell_to_scalar(c: i64) -> (v: Scalar)
    requires
        -5_000_000_000 <= c <= 5_000_000_000,
    ensures
        v == cell_origin(c as int),
        is_whole(v as int),
        nearest_cell(v as int) == c,
{
    proof {
        lemma_cell_origin_round_trip(c as int);
    }
    c * UNIT
}

/// The coordinate of the lower edge of block `b`.
pub fn block_to_scalar(b: u32) -> (v: Scalar)
    ensures
        v == cell_origin(b as int),
        is_whole(v as int),
        nearest_cell(v as int) == b,
        nearest_block(v as int) == b,
{
    cell_to_scalar(b as i64)
}

/// Whether `r` is the square root of `n`, rounded down.
pub open spec fn is_sqrt_floor(n: int, r: int) -> bool {
    0 <= r && r * r <= n < (r + 1) * (r + 1)
}

/// The square root of `n`, rounded down.
pub open spec fn sqrt_floor(n: int) -> int {
    choose|r: int| is_sqrt_floor(n, r)
}

/// The quotient of `a` by a positive `b`, rounded towards zero.
pub open spec fn trunc_div(a: int, b: int) -> int {
    if a >= 0 {
        a / b
    } else {
        -((-a) / b)
    }
}

/// A number has one square root rounded down.
pub proof fn lemma_sqrt_floor_unique(n: int, r1: int, r2: int)
    requires
        is_sqrt_floor(n, r1),
        is_sqrt_floor(n, r2),
    ensures
        r1 == r2,
{
    assert(r1 == r2) by (nonlinear_arith)
        requires
            0 <= r1,
            0 <= r2,
            r1 * r1 <= n < (r1 + 1) * (r1 + 1),
            r2 * r2 <= n < (r2 + 1) * (r2 + 1),
    {
        if r1 < r2 {
            assert((r1 + 1) * (r1 + 1) <= r2 * r2);
        }
        if r2 < r1 {
            assert((r2 + 1) * (r2 + 1) <= r1 * r1);
        }
    }
}

/// The square root of `n`, rounded down, for `n` below two to the 48th.
pub fn isqrt(n: u64) -> (r: u64)
    requires
        n < 0x1_0000_0000_0000,
    ensures
        is_sqrt_floor(n as int, r as int),
        r == sqrt_floor(n as int),
        r <= 0x100_0000,
{
    let mut lo: u64 = 0;
    let mut hi: u64 = 0x100_0000;
    assert(0x100_0000 * 0x100_0000 == 0x1_0000_0000_0000) by (nonlinear_arith);
    while hi - lo > 1
        invariant
            0 <= lo < hi <= 0x100_0000,
            lo * lo <= n < hi * hi,
        decreases hi - lo,
    {
        let mid: u64 = lo + (hi - lo) / 2;
        assert(mid * mid <= 0x100_0000 * 0x100_0000) by (nonlinear_arith)
            requires
                0 <= mid <= 0x100_0000,
        ;
        if mid * mid <= n {
            lo = mid;
        } else {
            hi = mid;
        }
    }
    proof {
        assert(hi == lo + 1);
        assert(is_sqrt_floor(n as int, lo as int));
        lemma_sqrt_floor_unique(n as int, lo as int, sqrt_floor(n as int));
    }
    lo
}

/// A coordinate is whole exactly when its mirror image is.
pub proof fn lemma_whole_symmetric(v: int)
    ensures
        is_whole(v) <==> (if v >= 0 { v } else { -v }) % (UNIT as int) == 0,
{
    if v < 0 {
        let u = UNIT as int;
        assert(v % u == 0 <==> (-v) % u == 0) by (nonlinear_arith)
            requires
                u == 1_562_500,
        ;
    }
}

/// The lower edge of a cell is whole and rounds back to that cell.
pub proof fn lemma_cell_origin_round_trip(c: int)
    ensures
        is_whole(cell_origin(c)),
        nearest_cell(cell_origin(c)) == c,
{
    let u = UNIT as int;
    assert((c * u) % u == 0) by (nonlinear_arith)
        requires
            u == 1_562_500,
    ;
    if c >= 0 {
        assert((c * u + 781_250) / u == c) by (nonlinear_arith)
            requires
                u == 1_562_500,
                c >= 0,
        ;
    } else {
        assert((-(c * u) + 781_250) / u == -c) by (nonlinear_arith)
            requires
                u == 1_562_500,
                c < 0,
        ;
    }
}

/// A coordinate is never farther than half a block from its nearest cell.
pub proof fn lemma_nearest_cell_is_near(v: int)
    ensures
        -(HALF_UNIT as int) <= v - cell_origin(nearest_cell(v)) <= HALF_UNIT as int,
{
    let u = UNIT as int;
    if v >= 0 {
        let q = (v + 781_250) / u;
        assert(q * u <= v + 781_250 < q * u + u) by (nonlinear_arith)
            requires
                u == 1_562_500,
                q == (v + 781_250) / u,
                v >= 0,
        ;
    } else {
        let q = (-v + 781_250) / u;
        assert(q * u <= -v + 781_250 < q * u + u) by (nonlinear_arith)
            requires
                u == 1_562_500,
                q == (-v + 781_250) / u,
                v < 0,
        ;
        assert((-q) * u == -(q * u)) by (nonlinear_arith);
    }
}

} // verus!
