//! Partition geometry: how a logical image is cut into a row-major grid of
//! tiles, each no larger than the hardware tile limit.

use vstd::prelude::*;

verus! {

use vstd::math::min;

/// Integer ceiling of `a / b` for `a >= 0`, `b > 0`.
pub open spec fn spec_ceil_div(a: int, b: int) -> int
    recommends
        a >= 0,
        b > 0,
{
    (a + b - 1) / b
}

/// Shape of the tile grid: tile counts per axis and the stride (in pixels)
/// from one tile's origin to the next. Edge tiles may be narrower or shorter
/// than the stride; all interior tiles have exactly the stride as extent.
#[derive(Clone, Copy, Debug, PartialEq, Eq, Structural)]
pub struct TileGrid {
    pub col_count: u32,
    pub row_count: u32,
    pub col_translation: u32,
    pub row_translation: u32,
}

/// One axis of a grid is valid for a logical extent `e` when the tile count
/// `c` and stride `t` cover `e` exactly: the first `c - 1` strides fall short
/// of `e` and `c` strides reach it.
pub open spec fn axis_valid(c: int, t: int, e: int) -> bool {
    &&& 1 <= c
    &&& 1 <= t <= e
    &&& (c - 1) * t < e <= c * t
}

/// The grid covers a `w` by `h` logical image.
pub open spec fn grid_valid(g: TileGrid, w: int, h: int) -> bool {
    &&& axis_valid(g.col_count as int, g.col_translation as int, w)
    &&& axis_valid(g.row_count as int, g.row_translation as int, h)
}

/// Grid position of tile `i` in row-major order.
pub open spec fn tile_col(g: TileGrid, i: int) -> int {
    i % (g.col_count as int)
}

pub open spec fn tile_row(g: TileGrid, i: int) -> int {
    i / (g.col_count as int)
}

/// Pixel rectangle of tile `i`: origin and extent, clipped to the image.
pub open spec fn tile_x(g: TileGrid, i: int) -> int {
    tile_col(g, i) * (g.col_translation as int)
}

pub open spec fn tile_y(g: TileGrid, i: int) -> int {
    tile_row(g, i) * (g.row_translation as int)
}

pub open spec fn tile_w(g: TileGrid, i: int, w: int) -> int {
    min(g.col_translation as int, w - tile_x(g, i))
}

pub open spec fn tile_h(g: TileGrid, i: int, h: int) -> int {
    min(g.row_translation as int, h - tile_y(g, i))
}

/// Pixel (px, py) lies inside tile `i`'s rectangle.
pub open spec fn tile_contains(g: TileGrid, i: int, w: int, h: int, px: int, py: int) -> bool {
    &&& tile_x(g, i) <= px < tile_x(g, i) + tile_w(g, i, w)
    &&& tile_y(g, i) <= py < tile_y(g, i) + tile_h(g, i, h)
}

/// Index of the tile whose rectangle holds pixel (px, py).
pub open spec fn covering_tile(g: TileGrid, px: int, py: int) -> int {
    (py / (g.row_translation as int)) * (g.col_count as int) + px / (g.col_translation as int)
}

/// Computes the ceiling of `a / b`.
pub fn ceil_div(a: u32, b: u32) -> (r: u32)
    requires
        b > 0,
    ensures
        r == spec_ceil_div(a as int, b as int),
{
    let q: u32 = a / b;
    proof {
        let aa = a as int;
        let bb = b as int;
        if aa % bb == 0 {
            assert((aa + bb - 1) / bb == aa / bb) by (nonlinear_arith)
                requires
                    bb > 0,
                    aa >= 0,
                    aa % bb == 0,
            ;
        } else {
            assert((aa + bb - 1) / bb == aa / bb + 1 && aa / bb < aa) by (nonlinear_arith)
                requires
                    bb > 0,
                    aa >= 0,
                    aa % bb != 0,
            ;
        }
    }
    if a % b == 0 {
        q
    } else {
        q + 1
    }
}

/// One axis of the partition: `ceil(extent / limit)` tiles with stride
/// `min(extent, limit)` are a valid covering of the axis.
pub proof fn lemma_axis_of_partition(e: int, l: int)
    requires
        e >= 1,
        l >= 1,
    ensures
        axis_valid(spec_ceil_div(e, l), min(e, l), e),
        e <= l ==> spec_ceil_div(e, l) == 1,
        e > l ==> spec_ceil_div(e, l) > 1,
{
    let c = spec_ceil_div(e, l);
    if e <= l {
        assert((e + l - 1) / l == 1) by (nonlinear_arith)
            requires
                1 <= e <= l,
        ;
        assert(axis_valid(1, e, e)) by (nonlinear_arith)
            requires
                e >= 1,
        ;
    } else {
        assert((c - 1) * l < e <= c * l && c > 1) by (nonlinear_arith)
            requires
                e > l >= 1,
                c == (e + l - 1) / l,
        ;
    }
}

/// Locating a coordinate on one axis: `x` falls in stripe `x / t`, and in no
/// other stripe.
pub proof fn lemma_axis_locate(c: int, t: int, e: int, x: int)
    requires
        axis_valid(c, t, e),
        0 <= x < e,
    ensures
        0 <= x / t < c,
        (x / t) * t <= x < (x / t) * t + min(t, e - (x / t) * t),
        forall|j: int| #[trigger] (j * t) <= x < j * t + min(t, e - j * t) ==> j == x / t,
{
    assert(0 <= x / t < c && (x / t) * t <= x < (x / t) * t + t) by (nonlinear_arith)
        requires
            axis_valid(c, t, e),
            0 <= x < e,
    ;
    assert forall|j: int| #[trigger] (j * t) <= x < j * t + min(t, e - j * t) implies j == x
        / t by {
        assert(j == x / t) by (nonlinear_arith)
            requires
                t >= 1,
                j * t <= x < j * t + t,
        ;
    }
}

/// Every tile of a valid grid lies inside the image, is at most one stride in
/// extent, and is at least one pixel wide and tall.
pub proof fn lemma_tile_in_bounds(g: TileGrid, w: int, h: int, i: int)
    requires
        grid_valid(g, w, h),
        0 <= i < (g.col_count as int) * (g.row_count as int),
    ensures
        0 <= tile_col(g, i) < g.col_count as int,
        0 <= tile_row(g, i) < g.row_count as int,
        0 <= tile_x(g, i),
        0 <= tile_y(g, i),
        tile_x(g, i) + tile_w(g, i, w) <= w,
        tile_y(g, i) + tile_h(g, i, h) <= h,
        1 <= tile_w(g, i, w) <= g.col_translation as int,
        1 <= tile_h(g, i, h) <= g.row_translation as int,
{
    let cc = g.col_count as int;
    let rc = g.row_count as int;
    let ct = g.col_translation as int;
    let rt = g.row_translation as int;
    assert(0 <= i % cc < cc && 0 <= i / cc < rc) by (nonlinear_arith)
        requires
            cc >= 1,
            rc >= 1,
            0 <= i < cc * rc,
    ;
    assert(0 <= (i % cc) * ct && (i % cc) * ct < w) by (nonlinear_arith)
        requires
            axis_valid(cc, ct, w),
            0 <= i % cc < cc,
    ;
    assert(0 <= (i / cc) * rt && (i / cc) * rt < h) by (nonlinear_arith)
        requires
            axis_valid(rc, rt, h),
            0 <= i / cc < rc,
    ;
}

/// The tiles of a valid grid cover the image with no gap and no overlap:
/// every pixel of the image lies in the rectangle of exactly one tile.
pub proof fn lemma_tiles_cover(g: TileGrid, w: int, h: int, px: int, py: int)
    requires
        grid_valid(g, w, h),
        0 <= px < w,
        0 <= py < h,
    ensures
        0 <= covering_tile(g, px, py) < (g.col_count as int) * (g.row_count as int),
        tile_contains(g, covering_tile(g, px, py), w, h, px, py),
        forall|j: int|
            0 <= j < (g.col_count as int) * (g.row_count as int) && tile_contains(
                g,
                j,
                w,
                h,
                px,
                py,
            ) ==> j == covering_tile(g, px, py),
{
    let cc = g.col_count as int;
    let rc = g.row_count as int;
    let ct = g.col_translation as int;
    let rt = g.row_translation as int;
    let col = px / ct;
    let row = py / rt;
    let i = row * cc + col;
    lemma_axis_locate(cc, ct, w, px);
    lemma_axis_locate(rc, rt, h, py);
    assert(0 <= i < cc * rc && i % cc == col && i / cc == row) by (nonlinear_arith)
        requires
            cc >= 1,
            0 <= col < cc,
            0 <= row < rc,
            i == row * cc + col,
    ;
    assert forall|j: int| 0 <= j < cc * rc && tile_contains(g, j, w, h, px, py) implies j == i by {
        lemma_tile_in_bounds(g, w, h, j);
        assert(tile_col(g, j) == col && tile_row(g, j) == row);
        assert(j == row * cc + col) by (nonlinear_arith)
            requires
                cc >= 1,
                j % cc == col,
                j / cc == row,
        ;
    }
}

/// Computes the tile grid for a `width` by `height` image under the given
/// hardware tile limit: `ceil(width / limit)` columns and
/// `ceil(height / limit)` rows, walked with stride `min(extent, limit)`.
/// The grid degenerates to a single tile exactly when both extents fit the
/// limit.
pub fn compute_grid(width: u32, height: u32, limit: u32) -> (g: TileGrid)
    requires
        width >= 1,
        height >= 1,
        limit >= 1,
    ensures
        g.col_count == spec_ceil_div(width as int, limit as int),
        g.row_count == spec_ceil_div(height as int, limit as int),
        g.col_translation == min(width as int, limit as int),
        g.row_translation == min(height as int, limit as int),
        g.col_translation <= limit,
        g.row_translation <= limit,
        grid_valid(g, width as int, height as int),
        (g.col_count == 1 && g.row_count == 1) <==> (width <= limit && height <= limit),
{
    let col_count = ceil_div(width, limit);
    let row_count = ceil_div(height, limit);
    let col_translation = if width <= limit {
        width
    } else {
        limit
    };
    let row_translation = if height <= limit {
        height
    } else {
        limit
    };
    proof {
        lemma_axis_of_partition(width as int, limit as int);
        lemma_axis_of_partition(height as int, limit as int);
    }
    TileGrid { col_count, row_count, col_translation, row_translation }
}

/// Start and extent of stripe `index` along one axis of a valid grid: the
/// stripe begins `index` strides in and runs for a full stride, clipped to
/// the axis extent.
pub fn axis_span(index: u32, stride: u32, extent: u32) -> (r: (u32, u32))
    requires
        exists|c: int| axis_valid(c, stride as int, extent as int) && index < c,
    ensures
        r.0 == index * stride,
        r.1 == min(stride as int, extent as int - r.0 as int),
        r.0 + r.1 <= extent,
        1 <= r.1 <= stride,
{
    proof {
        let c = choose|c: int| axis_valid(c, stride as int, extent as int) && index < c;
        assert((index as int) * (stride as int) <= (c - 1) * (stride as int)) by (nonlinear_arith)
            requires
                stride >= 1,
                index < c,
        ;
    }
    let start: u32 = index * stride;
    let size: u32 = if stride <= extent - start {
        stride
    } else {
        extent - start
    };
    (start, size)
}

} // verus!
