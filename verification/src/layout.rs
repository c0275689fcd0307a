//! The layout engine: pure geometry transforms driven by the cache.
//!
//! All non-Full modes compute cells in logical 96-DPI-reference units, then
//! expand each cell outward by the window's non-client inset (derived from
//! the difference between its outer and client rectangles), then scale by
//! `dpi/96` back to device pixels. The engine only computes target
//! rectangles; issuing the placement calls is the caller's business.
//!
//! Coordinates entering the engine must lie within `COORD_LIMIT` (a million
//! pixels, far beyond any desktop) and the DPI within its OS range; these
//! bounds are what keep every intermediate product inside `i32`/`i64`.

use vstd::prelude::*;

verus! {

use crate::cache::{
    Cache, Layout, Monitor, Window, layout_of, lemma_mon_index_converse, mon_index, win_index,
    lemma_win_index_props,
};
use crate::rect::{
    Rect, inset_adjust, inset_fits, round_mul_div, lemma_round_mul_div_mag, lemma_mul_le,
    scale_fits, spec_inset_adjust, spec_scale_rect, spec_border, spec_title,
};

/// Largest coordinate magnitude the layout engine accepts.
pub const COORD_LIMIT: i32 = 0x10_0000;

/// Smallest DPI value the OS reports (100% scaling).
pub const DPI_MIN: u32 = 96;

/// Largest DPI value the engine accepts.
pub const DPI_MAX: u32 = 8192;

/// Is the coordinate within the engine's working range?
pub open spec fn coord_ok(v: int) -> bool {
    -0x10_0000 <= v <= 0x10_0000
}

/// A rectangle with non-negative extent whose fields are all in range.
pub open spec fn rect_in_range(r: Rect) -> bool {
    coord_ok(r.x as int) && coord_ok(r.y as int) && coord_ok(r.width as int) && coord_ok(
        r.height as int,
    ) && 0 <= r.width && 0 <= r.height
}

/// A DPI value the engine accepts.
pub open spec fn dpi_ok(dpi: int) -> bool {
    96 <= dpi <= 8192
}

/// Every field of `r` has magnitude at most `b`.
pub open spec fn small_rect(r: Rect, b: int) -> bool {
    -b <= r.x <= b && -b <= r.y <= b && -b <= r.width <= b && -b <= r.height <= b
}

/// Dividing a value bounded by the divisor's multiple of `c` stays below
/// `c` plus one; the workhorse bound for unscaling by `96/dpi`.
proof fn lemma_unscale_val_bound(v: int, dpi: int, c: int)
    requires
        dpi_ok(dpi),
        0 <= c,
        -c <= v <= c,
    ensures
        -(c + 1) <= round_mul_div(v, 96, dpi) <= c + 1,
        v >= 0 ==> round_mul_div(v, 96, dpi) >= 0,
{
    lemma_round_mul_div_mag(v, 96, dpi, c);
    assert((c * 96 + dpi / 2) / dpi <= c + 1) by {
        assert(c * 96 <= c * dpi) by {
            vstd::arithmetic::mul::lemma_mul_inequality(96, dpi, c);
        }
        assert(c * 96 + dpi / 2 <= c * dpi + dpi / 2);
        vstd::arithmetic::div_mod::lemma_div_is_ordered(c * 96 + dpi / 2, c * dpi + dpi / 2, dpi);
        assert((dpi * c + dpi / 2) / dpi == c) by {
            vstd::arithmetic::div_mod::lemma_div_multiples_vanish_fancy(c, dpi / 2, dpi);
        }
        assert(c * dpi == dpi * c) by {
            vstd::arithmetic::mul::lemma_mul_is_commutative(c, dpi);
        }
    }
    if v >= 0 {
        vstd::arithmetic::div_mod::lemma_div_pos_is_pos(v * 96 + dpi / 2, dpi);
    }
}

/// Scaling a value of magnitude at most `0x80_0000` back to device pixels
/// stays well inside `i32`.
proof fn lemma_scale_back_fits(v: int, dpi: int)
    requires
        dpi_ok(dpi),
        -0x80_0000 <= v <= 0x80_0000,
    ensures
        -0x4000_0000 <= round_mul_div(v, dpi, 96) <= 0x4000_0000,
        v >= 0 ==> round_mul_div(v, dpi, 96) >= 0,
{
    lemma_round_mul_div_mag(v, dpi, 96, 0x80_0000);
    assert((0x80_0000 * dpi + 48) / 96 <= 0x4000_0000) by {
        assert(0x80_0000 * dpi <= 0x80_0000 * 8192) by {
            vstd::arithmetic::mul::lemma_mul_inequality(dpi, 8192, 0x80_0000);
            vstd::arithmetic::mul::lemma_mul_is_commutative(0x80_0000, dpi);
            vstd::arithmetic::mul::lemma_mul_is_commutative(0x80_0000, 8192);
        }
        vstd::arithmetic::div_mod::lemma_div_is_ordered(
            0x80_0000 * dpi + 48,
            0x80_0000int * 8192 + 48,
            96,
        );
    }
    if v >= 0 {
        vstd::arithmetic::div_mod::lemma_div_pos_is_pos(v * dpi + 48, 96);
    }
}

/// The bounding rectangle converted to logical 96-DPI units.
pub open spec fn logical_bounding(bounding: Rect, dpi: int) -> Rect {
    spec_scale_rect(bounding, 96, dpi)
}

/// An in-range bounding rectangle unscales to an in-range logical one.
pub proof fn lemma_logical_bounding_ok(bounding: Rect, dpi: int)
    requires
        rect_in_range(bounding),
        dpi_ok(dpi),
    ensures
        scale_fits(bounding, 96, dpi),
        small_rect(logical_bounding(bounding, dpi), 0x10_0001),
        logical_bounding(bounding, dpi).width >= 0,
        logical_bounding(bounding, dpi).height >= 0,
{
    lemma_unscale_val_bound(bounding.x as int, dpi, 0x10_0000);
    lemma_unscale_val_bound(bounding.y as int, dpi, 0x10_0000);
    lemma_unscale_val_bound(bounding.width as int, dpi, 0x10_0000);
    lemma_unscale_val_bound(bounding.height as int, dpi, 0x10_0000);
}

/// The `i`-th stack cell of a logical bounding rectangle holding `n`
/// windows: the first window takes the left half at full height, the rest
/// split the right half into equal-height bands, top to bottom.
pub open spec fn stack_cell(b: Rect, n: int, i: int) -> Rect
    recommends
        n >= 2,
        0 <= i < n,
{
    let pw = b.width as int / 2;
    let ph = b.height as int / (n - 1);
    if i == 0 {
        Rect { x: b.x, y: b.y, width: pw as i32, height: b.height }
    } else {
        Rect {
            x: (b.x + pw) as i32,
            y: (b.y + (i - 1) * ph) as i32,
            width: pw as i32,
            height: ph as i32,
        }
    }
}

/// Stack cells of a small logical rectangle are themselves small, with
/// non-negative extents and in-range `i32` fields.
pub proof fn lemma_stack_cell_small(b: Rect, n: int, i: int)
    requires
        small_rect(b, 0x10_0001),
        b.width >= 0,
        b.height >= 0,
        n >= 2,
        0 <= i < n,
    ensures
        small_rect(stack_cell(b, n, i), 0x20_0002),
        stack_cell(b, n, i).width >= 0,
        stack_cell(b, n, i).height >= 0,
        stack_cell(b, n, i).x as int == b.x + if i == 0 {
            0int
        } else {
            b.width as int / 2
        },
        stack_cell(b, n, i).y as int == b.y + if i == 0 {
            0int
        } else {
            (i - 1) * (b.height as int / (n - 1))
        },
        stack_cell(b, n, i).width as int == b.width as int / 2,
        stack_cell(b, n, i).height as int == if i == 0 {
            b.height as int
        } else {
            b.height as int / (n - 1)
        },
{
    let pw = b.width as int / 2;
    let ph = b.height as int / (n - 1);
    assert(0 <= pw <= b.width) by {
        vstd::arithmetic::div_mod::lemma_div_pos_is_pos(b.width as int, 2);
        vstd::arithmetic::div_mod::lemma_div_nonincreasing(b.width as int, 2);
    }
    assert(0 <= ph <= b.height) by {
        vstd::arithmetic::div_mod::lemma_div_pos_is_pos(b.height as int, n - 1);
        vstd::arithmetic::div_mod::lemma_div_nonincreasing(b.height as int, n - 1);
    }
    if i > 0 {
        assert(0 <= (i - 1) * ph <= b.height) by {
            vstd::arithmetic::mul::lemma_mul_nonnegative(i - 1, ph);
            assert((i - 1) * ph <= (n - 1) * ph) by {
                vstd::arithmetic::mul::lemma_mul_inequality(i - 1, n - 1, ph);
            }
            assert((n - 1) * ph <= b.height) by {
                vstd::arithmetic::div_mod::lemma_fundamental_div_mod(b.height as int, n - 1);
                vstd::arithmetic::div_mod::lemma_mod_division_less_than_divisor(
                    b.height as int,
                    n - 1,
                );
            }
        }
    }
}

/// Smallest `r >= 0` with `r * r >= n`: the number of grid rows for `n`
/// windows.
pub open spec fn spec_ceil_sqrt(n: int) -> int
    decreases n,
{
    if n <= 0 {
        0
    } else {
        let r = spec_ceil_sqrt(n - 1);
        if r * r >= n {
            r
        } else {
            r + 1
        }
    }
}

/// The defining properties of the ceiling square root.
pub proof fn lemma_ceil_sqrt_props(n: int)
    ensures
        spec_ceil_sqrt(n) >= 0,
        spec_ceil_sqrt(n) * spec_ceil_sqrt(n) >= n,
        n >= 1 ==> spec_ceil_sqrt(n) >= 1 && (spec_ceil_sqrt(n) - 1) * (spec_ceil_sqrt(n) - 1)
            < n,
        spec_ceil_sqrt(n) <= if n >= 0 {
            n
        } else {
            0
        },
    decreases n,
{
    if n > 0 {
        lemma_ceil_sqrt_props(n - 1);
        let r = spec_ceil_sqrt(n - 1);
        if r * r < n {
            assert((r + 1) * (r + 1) >= n) by (nonlinear_arith)
                requires
                    r >= 0,
                    r * r >= n - 1,
            ;
            assert(spec_ceil_sqrt(n) == r + 1);
            assert((r + 1 - 1) * (r + 1 - 1) < n);
        } else {
            assert(spec_ceil_sqrt(n) == r);
            if n >= 1 {
                assert(r >= 1) by (nonlinear_arith)
                    requires
                        r >= 0,
                        r * r >= n,
                        n >= 1,
                ;
                if n == 1 {
                    assert(spec_ceil_sqrt(0int) == 0);
                    assert(r == 0);
                } else {
                    assert((r - 1) * (r - 1) < n - 1);
                }
            }
        }
    }
}

/// Any value with the ceiling-square-root properties is the ceiling square
/// root.
pub proof fn lemma_ceil_sqrt_unique(n: int, r: int)
    requires
        r >= 0,
        r * r >= n,
        r == 0 || (r - 1) * (r - 1) < n,
    ensures
        r == spec_ceil_sqrt(n),
{
    lemma_ceil_sqrt_props(n);
    let s = spec_ceil_sqrt(n);
    if r < s {
        assert(r * r >= n && (s - 1) * (s - 1) < n && r <= s - 1);
        assert(false) by (nonlinear_arith)
            requires
                0 <= r <= s - 1,
                r * r >= n,
                (s - 1) * (s - 1) < n,
        ;
    }
    if s < r {
        assert(false) by (nonlinear_arith)
            requires
                0 <= s <= r - 1,
                s * s >= n,
                (r - 1) * (r - 1) < n,
        ;
    }
}

/// The number of grid rows for `n` windows: `ceil(sqrt(n))`.
pub fn ceil_sqrt(n: usize) -> (r: usize)
    requires
        n <= 0xffff,
    ensures
        r as int == spec_ceil_sqrt(n as int),
        r <= 256,
    decreases n,
{
    let mut r: usize = 0;
    while r * r < n
        invariant
            n <= 0xffff,
            r <= 256,
            (r as int) * (r as int) <= 0x2_0000,
            r == 0 || ((r - 1) as int) * ((r - 1) as int) < n,
        decreases n - r,
    {
        proof {
            assert(r < 256 && r < n && ((r + 1) as int) * ((r + 1) as int) <= 0x2_0000) by (
            nonlinear_arith)
                requires
                    (r as int) * (r as int) < n,
                    n <= 0xffff,
                    0 <= r <= 256,
            ;
        }
        r = r + 1;
    }
    proof {
        lemma_ceil_sqrt_unique(n as int, r as int);
    }
    r
}

/// The `i`-th grid cell: `rows * cols` equal cells filled row-major; when
/// `n` is odd the last window's cell spans the full row width instead.
pub open spec fn grid_cell(b: Rect, n: int, i: int) -> Rect
    recommends
        n >= 2,
        0 <= i < n,
{
    let rows = spec_ceil_sqrt(n);
    let cols = (n + rows - 1) / rows;
    let cw = b.width as int / cols;
    let ch = b.height as int / rows;
    if n % 2 == 1 && i == n - 1 {
        Rect { x: b.x, y: (b.y + (i / cols) * ch) as i32, width: b.width, height: ch as i32 }
    } else {
        Rect {
            x: (b.x + (i % cols) * cw) as i32,
            y: (b.y + (i / cols) * ch) as i32,
            width: cw as i32,
            height: ch as i32,
        }
    }
}

/// Grid cells of a small logical rectangle are small, with non-negative
/// extents, and their fields are the exact cell formulas.
pub proof fn lemma_grid_cell_small(b: Rect, n: int, i: int)
    requires
        small_rect(b, 0x10_0001),
        b.width >= 0,
        b.height >= 0,
        2 <= n <= 0xffff,
        0 <= i < n,
    ensures
        small_rect(grid_cell(b, n, i), 0x20_0002),
        grid_cell(b, n, i).width >= 0,
        grid_cell(b, n, i).height >= 0,
        ({
            let rows = spec_ceil_sqrt(n);
            let cols = (n + rows - 1) / rows;
            let cw = b.width as int / cols;
            let ch = b.height as int / rows;
            &&& 1 <= rows
            &&& 1 <= cols
            &&& 0 <= (i / cols) * ch <= b.height
            &&& 0 <= (i % cols) * cw <= b.width
            &&& grid_cell(b, n, i).y as int == b.y + (i / cols) * ch
            &&& grid_cell(b, n, i).height as int == ch
            &&& (!(n % 2 == 1 && i == n - 1) ==> grid_cell(b, n, i).x as int == b.x + (i % cols)
                * cw && grid_cell(b, n, i).width as int == cw)
            &&& (n % 2 == 1 && i == n - 1 ==> grid_cell(b, n, i).x == b.x && grid_cell(
                b,
                n,
                i,
            ).width == b.width)
        }),
{
    let rows = spec_ceil_sqrt(n);
    lemma_ceil_sqrt_props(n);
    let cols = (n + rows - 1) / rows;
    let cw = b.width as int / cols;
    let ch = b.height as int / rows;
    assert(cols >= 1) by {
        assert((n + rows - 1) / rows >= 1) by (nonlinear_arith)
            requires
                rows >= 1,
                n >= 2,
        ;
    }
    assert(0 <= cw <= b.width) by {
        vstd::arithmetic::div_mod::lemma_div_pos_is_pos(b.width as int, cols);
        vstd::arithmetic::div_mod::lemma_div_nonincreasing(b.width as int, cols);
    }
    assert(0 <= ch <= b.height) by {
        vstd::arithmetic::div_mod::lemma_div_pos_is_pos(b.height as int, rows);
        vstd::arithmetic::div_mod::lemma_div_nonincreasing(b.height as int, rows);
    }
    let row = i / cols;
    let col = i % cols;
    vstd::arithmetic::div_mod::lemma_fundamental_div_mod(n + rows - 1, rows);
    vstd::arithmetic::div_mod::lemma_mod_bound(n + rows - 1, rows);
    vstd::arithmetic::div_mod::lemma_fundamental_div_mod(i, cols);
    vstd::arithmetic::div_mod::lemma_mod_bound(i, cols);
    vstd::arithmetic::div_mod::lemma_div_pos_is_pos(i, cols);
    assert(0 <= row < rows) by {
        assert(i < rows * cols) by (nonlinear_arith)
            requires
                rows >= 1,
                cols >= 1,
                i < n,
                n + rows - 1 == rows * cols + (n + rows - 1) % rows,
                0 <= (n + rows - 1) % rows < rows,
        ;
        assert(row < rows) by (nonlinear_arith)
            requires
                i < rows * cols,
                cols >= 1,
                row == i / cols,
                i == cols * (i / cols) + i % cols,
                0 <= i % cols < cols,
        ;
    }
    assert(0 <= col < cols) by {
        vstd::arithmetic::div_mod::lemma_mod_division_less_than_divisor(i, cols);
        vstd::arithmetic::div_mod::lemma_mod_bound(i, cols);
    }
    assert(0 <= row * ch <= b.height) by {
        vstd::arithmetic::mul::lemma_mul_nonnegative(row, ch);
        assert(row * ch <= rows * ch) by {
            vstd::arithmetic::mul::lemma_mul_inequality(row, rows, ch);
        }
        assert(rows * ch <= b.height) by {
            vstd::arithmetic::div_mod::lemma_fundamental_div_mod(b.height as int, rows);
            vstd::arithmetic::div_mod::lemma_mod_division_less_than_divisor(b.height as int, rows);
        }
    }
    assert(0 <= col * cw <= b.width) by {
        vstd::arithmetic::mul::lemma_mul_nonnegative(col, cw);
        assert(col * cw <= cols * cw) by {
            vstd::arithmetic::mul::lemma_mul_inequality(col, cols, cw);
        }
        assert(cols * cw <= b.width) by {
            vstd::arithmetic::div_mod::lemma_fundamental_div_mod(b.width as int, cols);
            vstd::arithmetic::div_mod::lemma_mod_division_less_than_divisor(b.width as int, cols);
        }
    }
}

/// Two distinct stack cells never overlap: the first cell is separated
/// from the bands by the half-width split, and the bands are separated from
/// each other by their equal heights.
pub proof fn lemma_stack_cells_disjoint(b: Rect, n: int, i: int, j: int)
    requires
        small_rect(b, 0x10_0001),
        b.width >= 0,
        b.height >= 0,
        n >= 2,
        0 <= i < j < n,
    ensures
        !crate::rect::rects_overlap(stack_cell(b, n, i), stack_cell(b, n, j)),
{
    lemma_stack_cell_small(b, n, i);
    lemma_stack_cell_small(b, n, j);
    let pw = b.width as int / 2;
    let ph = b.height as int / (n - 1);
    vstd::arithmetic::div_mod::lemma_div_pos_is_pos(b.width as int, 2);
    vstd::arithmetic::div_mod::lemma_div_pos_is_pos(b.height as int, n - 1);
    if i == 0 {
        // the left half ends where the bands start
        assert(stack_cell(b, n, i).x + stack_cell(b, n, i).width <= stack_cell(b, n, j).x);
    } else {
        // band i ends at or above where band j starts
        assert((i - 1) * ph + ph <= (j - 1) * ph) by {
            assert((i - 1) * ph + ph == i * ph) by {
                vstd::arithmetic::mul::lemma_mul_is_distributive_sub_other_way(ph, i, 1);
            }
            vstd::arithmetic::mul::lemma_mul_inequality(i, j - 1, ph);
        }
        assert(stack_cell(b, n, i).y + stack_cell(b, n, i).height <= stack_cell(b, n, j).y);
    }
}

/// Sum of the areas of the first `k` stack cells.
pub open spec fn stack_cells_area(b: Rect, n: int, k: int) -> int
    decreases k,
{
    if k <= 0 {
        0
    } else {
        stack_cells_area(b, n, k - 1) + crate::rect::spec_area(stack_cell(b, n, k - 1))
    }
}

/// The first `k` stack cells together cover at most `pw * H + (k-1) * pw * ph`.
proof fn lemma_stack_area_sum(b: Rect, n: int, k: int)
    requires
        small_rect(b, 0x10_0001),
        b.width >= 0,
        b.height >= 0,
        n >= 2,
        1 <= k <= n,
    ensures
        stack_cells_area(b, n, k) <= (b.width as int / 2) * (b.height as int) + (k - 1) * ((b.width
            as int / 2) * (b.height as int / (n - 1))),
    decreases k,
{
    let pw = b.width as int / 2;
    let ph = b.height as int / (n - 1);
    lemma_stack_cell_small(b, n, k - 1);
    assert(stack_cells_area(b, n, k) == stack_cells_area(b, n, k - 1) + crate::rect::spec_area(
        stack_cell(b, n, k - 1),
    ));
    if k == 1 {
        assert(stack_cells_area(b, n, 0) == 0);
        assert(crate::rect::spec_area(stack_cell(b, n, 0)) == pw * b.height);
        assert((k - 1) * (pw * ph) == 0) by (nonlinear_arith)
            requires
                k == 1,
        ;
    } else {
        lemma_stack_area_sum(b, n, k - 1);
        assert(crate::rect::spec_area(stack_cell(b, n, k - 1)) == pw * ph);
        assert((k - 2) * (pw * ph) + pw * ph == (k - 1) * (pw * ph)) by (nonlinear_arith);
    }
}

/// The stack layout on `n` windows over a monitor of extent `W x H`
/// produces `n` pairwise non-overlapping cells (insets and DPI scaling
/// aside) whose areas sum to at most `W * H`.
pub proof fn lemma_stack_layout_partition(b: Rect, n: int)
    requires
        small_rect(b, 0x10_0001),
        b.width >= 0,
        b.height >= 0,
        n >= 2,
    ensures
        forall|i: int, j: int|
            0 <= i < j < n ==> !crate::rect::rects_overlap(
                stack_cell(b, n, i),
                stack_cell(b, n, j),
            ),
        stack_cells_area(b, n, n) <= b.width * b.height,
{
    assert forall|i: int, j: int| 0 <= i < j < n implies !crate::rect::rects_overlap(
        stack_cell(b, n, i),
        stack_cell(b, n, j),
    ) by {
        lemma_stack_cells_disjoint(b, n, i, j);
    }
    let pw = b.width as int / 2;
    let ph = b.height as int / (n - 1);
    lemma_stack_area_sum(b, n, n);
    vstd::arithmetic::div_mod::lemma_div_pos_is_pos(b.width as int, 2);
    vstd::arithmetic::div_mod::lemma_div_pos_is_pos(b.height as int, n - 1);
    assert((n - 1) * (pw * ph) == pw * ((n - 1) * ph)) by (nonlinear_arith);
    assert((n - 1) * ph <= b.height) by {
        vstd::arithmetic::div_mod::lemma_fundamental_div_mod(b.height as int, n - 1);
        vstd::arithmetic::div_mod::lemma_mod_bound(b.height as int, n - 1);
    }
    assert(pw * ((n - 1) * ph) <= pw * b.height) by (nonlinear_arith)
        requires
            pw >= 0,
            (n - 1) * ph <= b.height,
    ;
    assert(pw * b.height + pw * b.height == (2 * pw) * b.height) by (nonlinear_arith);
    assert(2 * pw <= b.width) by {
        vstd::arithmetic::div_mod::lemma_fundamental_div_mod(b.width as int, 2);
        vstd::arithmetic::div_mod::lemma_mod_bound(b.width as int, 2);
    }
    assert((2 * pw) * b.height <= b.width * b.height) by {
        vstd::arithmetic::mul::lemma_mul_inequality(2 * pw, b.width as int, b.height as int);
    }
}

/// Small cells grown by insets from in-range windows stay small enough to
/// scale back to device pixels.
proof fn lemma_inset_small(target: Rect, outer: Rect, client: Rect)
    requires
        small_rect(target, 0x20_0002),
        rect_in_range(outer),
        rect_in_range(client),
    ensures
        inset_fits(target, outer, client),
        small_rect(spec_inset_adjust(target, outer, client), 0x80_0000),
{
    let d = outer.width - client.width;
    let b = spec_border(outer, client);
    assert(-0x10_0000 <= b <= 0x10_0000) by {
        if d >= 0 {
            vstd::arithmetic::div_mod::lemma_div_pos_is_pos(d as int, 2);
            vstd::arithmetic::div_mod::lemma_div_nonincreasing(d as int, 2);
        } else {
            vstd::arithmetic::div_mod::lemma_div_pos_is_pos(-d as int, 2);
            vstd::arithmetic::div_mod::lemma_div_nonincreasing(-d as int, 2);
        }
    }
}

/// The device-pixel target rectangle for one window: its logical cell,
/// grown by its non-client insets, scaled by `dpi/96`.
fn place_cell(cell: Rect, outer: &Rect, client: &Rect, dpi: u32) -> (r: Rect)
    requires
        small_rect(cell, 0x20_0002),
        rect_in_range(*outer),
        rect_in_range(*client),
        dpi_ok(dpi as int),
    ensures
        r == spec_scale_rect(spec_inset_adjust(cell, *outer, *client), dpi as int, 96),
{
    proof {
        lemma_inset_small(cell, *outer, *client);
        let a = spec_inset_adjust(cell, *outer, *client);
        lemma_scale_back_fits(a.x as int, dpi as int);
        lemma_scale_back_fits(a.y as int, dpi as int);
        lemma_scale_back_fits(a.width as int, dpi as int);
        lemma_scale_back_fits(a.height as int, dpi as int);
    }
    let adjusted = inset_adjust(&cell, outer, client);
    adjusted.scale(dpi, 96)
}

/// The final device-pixel rectangle of window `i` under the stack layout.
pub open spec fn stack_target(
    bounding: Rect,
    dpi: int,
    n: int,
    outer: Seq<Rect>,
    client: Seq<Rect>,
    i: int,
) -> Rect {
    spec_scale_rect(
        spec_inset_adjust(stack_cell(logical_bounding(bounding, dpi), n, i), outer[i], client[i]),
        dpi,
        96,
    )
}

/// The final device-pixel rectangle of window `i` under the grid layout.
pub open spec fn grid_target(
    bounding: Rect,
    dpi: int,
    n: int,
    outer: Seq<Rect>,
    client: Seq<Rect>,
    i: int,
) -> Rect {
    spec_scale_rect(
        spec_inset_adjust(grid_cell(logical_bounding(bounding, dpi), n, i), outer[i], client[i]),
        dpi,
        96,
    )
}

/// All rectangles a transform takes are in the engine's working range.
pub open spec fn rects_in_range(rs: Seq<Rect>) -> bool {
    forall|i: int| 0 <= i < rs.len() ==> rect_in_range(#[trigger] rs[i])
}

/// Target rectangles for the stack layout: the first window takes the left
/// half of the monitor at full height, the rest split the right half into
/// equal-height bands top to bottom, each then adjusted by its window's
/// insets and DPI.
pub fn transform_rects_for_stack(
    bounding: Rect,
    dpi: u32,
    windows_rect: &Vec<Rect>,
    windows_client_rect: &Vec<Rect>,
) -> (out: Vec<Rect>)
    requires
        rect_in_range(bounding),
        dpi_ok(dpi as int),
        windows_rect@.len() == windows_client_rect@.len(),
        2 <= windows_rect@.len() <= 0xffff,
        rects_in_range(windows_rect@),
        rects_in_range(windows_client_rect@),
    ensures
        out@.len() == windows_rect@.len(),
        forall|i: int|
            0 <= i < out@.len() ==> out@[i] == stack_target(
                bounding,
                dpi as int,
                windows_rect@.len() as int,
                windows_rect@,
                windows_client_rect@,
                i,
            ),
{
    proof {
        lemma_logical_bounding_ok(bounding, dpi as int);
    }
    let lb = bounding.scale(96, dpi);
    let n = windows_rect.len();
    let ghost nn = n as int;
    let pw: i32 = ((lb.width as u32) / 2) as i32;
    let ph: i32 = ((lb.height as u64) / ((n - 1) as u64)) as i32;
    proof {
        vstd::arithmetic::div_mod::lemma_div_pos_is_pos(lb.height as int, nn - 1);
        vstd::arithmetic::div_mod::lemma_div_nonincreasing(lb.height as int, nn - 1);
    }
    let mut out: Vec<Rect> = Vec::new();
    let mut i: usize = 0;
    while i < n
        invariant
            n == windows_rect@.len(),
            windows_rect@.len() == windows_client_rect@.len(),
            2 <= n <= 0xffff,
            rect_in_range(bounding),
            dpi_ok(dpi as int),
            rects_in_range(windows_rect@),
            rects_in_range(windows_client_rect@),
            lb == logical_bounding(bounding, dpi as int),
            small_rect(lb, 0x10_0001),
            lb.width >= 0,
            lb.height >= 0,
            pw as int == lb.width as int / 2,
            ph as int == lb.height as int / (n as int - 1),
            i <= n,
            out@.len() == i,
            forall|j: int|
                0 <= j < i ==> out@[j] == stack_target(
                    bounding,
                    dpi as int,
                    n as int,
                    windows_rect@,
                    windows_client_rect@,
                    j,
                ),
        decreases n - i,
    {
        proof {
            lemma_stack_cell_small(lb, n as int, i as int);
        }
        let cell: Rect = if i == 0 {
            Rect { x: lb.x, y: lb.y, width: pw, height: lb.height }
        } else {
            let y64: i64 = lb.y as i64 + ((i - 1) as i64) * (ph as i64);
            proof {
                assert(((i - 1) as i64) * (ph as i64) == (i as int - 1) * (ph as int));
            }
            Rect { x: lb.x + pw, y: y64 as i32, width: pw, height: ph }
        };
        proof {
            assert(cell == stack_cell(lb, n as int, i as int));
        }
        let target = place_cell(cell, &windows_rect[i], &windows_client_rect[i], dpi);
        out.push(target);
        i = i + 1;
    }
    out
}

/// Target rectangles for the grid layout: `ceil(sqrt(n))` rows of equal
/// cells filled row-major, the last cell spanning the full row width when
/// `n` is odd, each then adjusted by its window's insets and DPI.
pub fn transform_rects_for_grid(
    bounding: Rect,
    dpi: u32,
    windows_rect: &Vec<Rect>,
    windows_client_rect: &Vec<Rect>,
) -> (out: Vec<Rect>)
    requires
        rect_in_range(bounding),
        dpi_ok(dpi as int),
        windows_rect@.len() == windows_client_rect@.len(),
        2 <= windows_rect@.len() <= 0xffff,
        rects_in_range(windows_rect@),
        rects_in_range(windows_client_rect@),
    ensures
        out@.len() == windows_rect@.len(),
        forall|i: int|
            0 <= i < out@.len() ==> out@[i] == grid_target(
                bounding,
                dpi as int,
                windows_rect@.len() as int,
                windows_rect@,
                windows_client_rect@,
                i,
            ),
{
    proof {
        lemma_logical_bounding_ok(bounding, dpi as int);
        lemma_ceil_sqrt_props(windows_rect@.len() as int);
    }
    let lb = bounding.scale(96, dpi);
    let n = windows_rect.len();
    let rows = ceil_sqrt(n);
    let cols = (n + rows - 1) / rows;
    proof {
        assert(cols >= 1) by (nonlinear_arith)
            requires
                rows >= 1,
                n >= 2,
                cols == ((n + rows - 1) as int) / (rows as int),
        ;
    }
    let cw: i32 = ((lb.width as u64) / (cols as u64)) as i32;
    let ch: i32 = ((lb.height as u64) / (rows as u64)) as i32;
    proof {
        vstd::arithmetic::div_mod::lemma_div_pos_is_pos(lb.width as int, cols as int);
        vstd::arithmetic::div_mod::lemma_div_nonincreasing(lb.width as int, cols as int);
        vstd::arithmetic::div_mod::lemma_div_pos_is_pos(lb.height as int, rows as int);
        vstd::arithmetic::div_mod::lemma_div_nonincreasing(lb.height as int, rows as int);
    }
    let mut out: Vec<Rect> = Vec::new();
    let mut i: usize = 0;
    while i < n
        invariant
            n == windows_rect@.len(),
            windows_rect@.len() == windows_client_rect@.len(),
            2 <= n <= 0xffff,
            rect_in_range(bounding),
            dpi_ok(dpi as int),
            rects_in_range(windows_rect@),
            rects_in_range(windows_client_rect@),
            lb == logical_bounding(bounding, dpi as int),
            small_rect(lb, 0x10_0001),
            lb.width >= 0,
            lb.height >= 0,
            rows as int == spec_ceil_sqrt(n as int),
            1 <= rows <= 256,
            cols as int == (n as int + rows as int - 1) / (rows as int),
            cols >= 1,
            cw as int == lb.width as int / (cols as int),
            ch as int == lb.height as int / (rows as int),
            0 <= cw <= lb.width,
            0 <= ch <= lb.height,
            i <= n,
            out@.len() == i,
            forall|j: int|
                0 <= j < i ==> out@[j] == grid_target(
                    bounding,
                    dpi as int,
                    n as int,
                    windows_rect@,
                    windows_client_rect@,
                    j,
                ),
        decreases n - i,
    {
        proof {
            lemma_grid_cell_small(lb, n as int, i as int);
            vstd::arithmetic::div_mod::lemma_fundamental_div_mod(i as int, cols as int);
            vstd::arithmetic::div_mod::lemma_mod_bound(i as int, cols as int);
            vstd::arithmetic::div_mod::lemma_div_pos_is_pos(i as int, cols as int);
        }
        let row = i / cols;
        let col = i % cols;
        let ghost gcell = grid_cell(lb, n as int, i as int);
        proof {
            assert(0 <= (row as int) * (ch as int) <= lb.height);
            assert(0 <= (col as int) * (cw as int) <= lb.width);
        }
        let y64: i64 = lb.y as i64 + (row as i64) * (ch as i64);
        let cell: Rect = if n % 2 == 1 && i == n - 1 {
            Rect { x: lb.x, y: y64 as i32, width: lb.width, height: ch }
        } else {
            let x64: i64 = lb.x as i64 + (col as i64) * (cw as i64);
            Rect { x: x64 as i32, y: y64 as i32, width: cw, height: ch }
        };
        proof {
            assert(cell == gcell);
        }
        let target = place_cell(cell, &windows_rect[i], &windows_client_rect[i], dpi);
        out.push(target);
        i = i + 1;
    }
    out
}

/// A direction of 2-d navigation across windows or monitors.
#[derive(Copy, Clone, Debug, PartialEq, Eq, Structural)]
pub enum Direction {
    Left,
    Right,
    Up,
    Down,
}

/// Signed gap between `origin` and `r` when moving in direction `d`;
/// negative when `r` reaches past `origin` in that direction.
pub open spec fn dir_distance(origin: Rect, r: Rect, d: Direction) -> int {
    match d {
        Direction::Left => origin.x - (r.x + r.width),
        Direction::Right => r.x - (origin.x + origin.width),
        Direction::Up => origin.y - (r.y + r.height),
        Direction::Down => r.y - (origin.y + origin.height),
    }
}

/// Do `origin` and `r` overlap on the axis orthogonal to `d`?
pub open spec fn dir_overlaps(origin: Rect, r: Rect, d: Direction) -> bool {
    match d {
        Direction::Left | Direction::Right => r.y < origin.y + origin.height && r.y + r.height
            > origin.y,
        Direction::Up | Direction::Down => r.x < origin.x + origin.width && r.x + r.width
            > origin.x,
    }
}

/// Does `r` extend beyond `origin` in direction `d`?
pub open spec fn dir_is_bigger(origin: Rect, r: Rect, d: Direction) -> bool {
    match d {
        Direction::Left => r.x < origin.x,
        Direction::Right => r.x + r.width > origin.x + origin.width,
        Direction::Up => r.y < origin.y,
        Direction::Down => r.y + r.height > origin.y + origin.height,
    }
}

/// Index of the first rectangle equal to `origin`, or `-1`.
pub open spec fn first_pos(rects: Seq<Rect>, origin: Rect) -> int
    decreases rects.len(),
{
    if rects.len() == 0 {
        -1
    } else if rects[0] == origin {
        0
    } else {
        let r = first_pos(rects.drop_first(), origin);
        if r < 0 {
            -1
        } else {
            1 + r
        }
    }
}

/// What `first_pos` promises: a valid first hit, or no hit at all.
pub proof fn lemma_first_pos_props(rects: Seq<Rect>, origin: Rect)
    ensures
        first_pos(rects, origin) >= 0 ==> first_pos(rects, origin) < rects.len() && rects[first_pos(
            rects,
            origin,
        )] == origin,
        first_pos(rects, origin) < 0 ==> forall|j: int|
            0 <= j < rects.len() ==> rects[j] != origin,
    decreases rects.len(),
{
    if rects.len() > 0 && rects[0] != origin {
        lemma_first_pos_props(rects.drop_first(), origin);
        let r = first_pos(rects.drop_first(), origin);
        if r < 0 {
            assert forall|j: int| 0 <= j < rects.len() implies rects[j] != origin by {
                if j > 0 {
                    assert(rects.drop_first()[j - 1] != origin);
                }
            }
        }
    }
}

/// The first hit determines `first_pos`.
pub proof fn lemma_first_pos_converse(rects: Seq<Rect>, origin: Rect, i: int)
    requires
        0 <= i < rects.len(),
        rects[i] == origin,
        forall|j: int| 0 <= j < i ==> rects[j] != origin,
    ensures
        first_pos(rects, origin) == i,
    decreases rects.len(),
{
    if i > 0 {
        lemma_first_pos_converse(rects.drop_first(), origin, i - 1);
    }
}

/// The sentinel "no candidate seen yet" distance.
pub open spec fn no_candidate() -> int {
    0x7fff_ffff_ffff_ffff
}

/// The navigation scan from position `i` with the best candidate so far
/// (`ci` at distance `cd`): the first rectangle that already reaches past
/// the origin, overlaps it orthogonally and extends beyond it wins
/// immediately; otherwise the smallest non-negative gap wins; with no
/// candidate at all, the origin's own position (or 0) is kept.
pub open spec fn find_rect_from(
    origin: Rect,
    rects: Seq<Rect>,
    d: Direction,
    i: int,
    ci: int,
    cd: int,
) -> int
    decreases rects.len() - i,
{
    if i < 0 || i >= rects.len() {
        if cd == no_candidate() {
            let p = first_pos(rects, origin);
            if p >= 0 {
                p
            } else {
                0
            }
        } else {
            ci
        }
    } else {
        let r = rects[i];
        if r == origin {
            find_rect_from(origin, rects, d, i + 1, ci, cd)
        } else {
            let dist = dir_distance(origin, r, d);
            if dist < 0 {
                if dir_overlaps(origin, r, d) && dir_is_bigger(origin, r, d) {
                    i
                } else {
                    find_rect_from(origin, rects, d, i + 1, ci, cd)
                }
            } else if dist < cd {
                find_rect_from(origin, rects, d, i + 1, i, dist)
            } else {
                find_rect_from(origin, rects, d, i + 1, ci, cd)
            }
        }
    }
}

/// The whole navigation scan.
pub open spec fn spec_find_rect(origin: Rect, rects: Seq<Rect>, d: Direction) -> int {
    find_rect_from(origin, rects, d, 0, 0, no_candidate())
}

/// Pick the neighbouring rectangle in direction `d`: the one that already
/// reaches past the origin (overlapping and extending beyond it), else the
/// one with the smallest non-negative gap, else the origin itself.
pub fn find_rect(origin: Rect, rects: &[Rect], direction: Direction) -> (idx: usize)
    ensures
        idx as int == spec_find_rect(origin, rects@, direction),
        rects@.len() > 0 ==> idx < rects@.len(),
        rects@.len() == 0 ==> idx == 0,
{
    let n = rects.len();
    let mut ci: usize = 0;
    let mut cd: i64 = 0x7fff_ffff_ffff_ffff;
    let mut i: usize = 0;
    while i < n
        invariant
            i <= n,
            n == rects@.len(),
            spec_find_rect(origin, rects@, direction) == find_rect_from(
                origin,
                rects@,
                direction,
                i as int,
                ci as int,
                cd as int,
            ),
            cd as int == no_candidate() || (0 <= cd && ci < n),
        decreases n - i,
    {
        let r = rects[i];
        let same = r.x == origin.x && r.y == origin.y && r.width == origin.width && r.height
            == origin.height;
        if !same {
            let dist: i64 = match direction {
                Direction::Left => origin.x as i64 - (r.x as i64 + r.width as i64),
                Direction::Right => r.x as i64 - (origin.x as i64 + origin.width as i64),
                Direction::Up => origin.y as i64 - (r.y as i64 + r.height as i64),
                Direction::Down => r.y as i64 - (origin.y as i64 + origin.height as i64),
            };
            if dist < 0 {
                let overlaps = match direction {
                    Direction::Left | Direction::Right => (r.y as i64) < origin.y as i64
                        + origin.height as i64 && r.y as i64 + r.height as i64 > origin.y as i64,
                    Direction::Up | Direction::Down => (r.x as i64) < origin.x as i64
                        + origin.width as i64 && r.x as i64 + r.width as i64 > origin.x as i64,
                };
                let bigger = match direction {
                    Direction::Left => r.x < origin.x,
                    Direction::Right => r.x as i64 + r.width as i64 > origin.x as i64
                        + origin.width as i64,
                    Direction::Up => r.y < origin.y,
                    Direction::Down => r.y as i64 + r.height as i64 > origin.y as i64
                        + origin.height as i64,
                };
                if overlaps && bigger {
                    return i;
                }
            } else if dist < cd {
                ci = i;
                cd = dist;
            }
        }
        i = i + 1;
    }
    if cd == 0x7fff_ffff_ffff_ffff {
        let mut j: usize = 0;
        while j < n
            invariant
                j <= n,
                n == rects@.len(),
                cd as int == no_candidate(),
                spec_find_rect(origin, rects@, direction) == find_rect_from(
                    origin,
                    rects@,
                    direction,
                    n as int,
                    ci as int,
                    cd as int,
                ),
                forall|k: int| 0 <= k < j ==> rects@[k] != origin,
            decreases n - j,
        {
            let r = rects[j];
            if r.x == origin.x && r.y == origin.y && r.width == origin.width && r.height
                == origin.height {
                proof {
                    lemma_first_pos_converse(rects@, origin, j as int);
                }
                return j;
            }
            j = j + 1;
        }
        proof {
            lemma_first_pos_props(rects@, origin);
        }
        0
    } else {
        ci
    }
}


/// One window-placement command for the caller to issue to the OS.
#[derive(Copy, Clone, Debug, PartialEq, Eq, Structural)]
pub enum Placement {
    Move(Window, Rect),
    Maximize(Window),
}

/// A maximize command for every listed window, in order.
pub open spec fn maximize_all(windows: Seq<Window>) -> Seq<Placement> {
    Seq::new(windows.len(), |i: int| Placement::Maximize(windows[i]))
}

/// The placements a layout produces for the given windows and geometry:
/// none when the layout is off or no window is present, a plain maximize
/// for a single window or the full layout, and one move per window to its
/// stack or grid target otherwise.
pub open spec fn spec_layout_placements(
    layout: Layout,
    windows: Seq<Window>,
    bounding: Rect,
    dpi: int,
    outer: Seq<Rect>,
    client: Seq<Rect>,
) -> Seq<Placement> {
    match layout {
        Layout::Off => Seq::empty(),
        Layout::Full => maximize_all(windows),
        Layout::Stack => if windows.len() == 0 {
            Seq::empty()
        } else if windows.len() == 1 {
            maximize_all(windows)
        } else {
            Seq::new(
                windows.len(),
                |i: int|
                    Placement::Move(
                        windows[i],
                        stack_target(bounding, dpi, windows.len() as int, outer, client, i),
                    ),
            )
        },
        Layout::Grid => if windows.len() == 0 {
            Seq::empty()
        } else if windows.len() == 1 {
            maximize_all(windows)
        } else {
            Seq::new(
                windows.len(),
                |i: int|
                    Placement::Move(
                        windows[i],
                        grid_target(bounding, dpi, windows.len() as int, outer, client, i),
                    ),
            )
        },
    }
}

/// Maximize every window on the monitor: the full layout.
pub fn set_full_layout(windows: &Vec<Window>) -> (out: Vec<Placement>)
    ensures
        out@ == maximize_all(windows@),
{
    let mut out: Vec<Placement> = Vec::new();
    let mut i: usize = 0;
    while i < windows.len()
        invariant
            i <= windows@.len(),
            out@.len() == i,
            forall|j: int| 0 <= j < i ==> out@[j] == Placement::Maximize(windows@[j]),
        decreases windows@.len() - i,
    {
        out.push(Placement::Maximize(windows[i]));
        i = i + 1;
    }
    proof {
        assert(out@ =~= maximize_all(windows@));
    }
    out
}

/// Pair every window with its target rectangle.
fn zip_moves(windows: &Vec<Window>, rects: &Vec<Rect>) -> (out: Vec<Placement>)
    requires
        windows@.len() == rects@.len(),
    ensures
        out@.len() == windows@.len(),
        forall|j: int|
            0 <= j < out@.len() ==> out@[j] == Placement::Move(windows@[j], rects@[j]),
{
    let mut out: Vec<Placement> = Vec::new();
    let mut i: usize = 0;
    while i < windows.len()
        invariant
            i <= windows@.len(),
            windows@.len() == rects@.len(),
            out@.len() == i,
            forall|j: int| 0 <= j < i ==> out@[j] == Placement::Move(windows@[j], rects@[j]),
        decreases windows@.len() - i,
    {
        out.push(Placement::Move(windows[i], rects[i]));
        i = i + 1;
    }
    out
}

/// The geometry preconditions the stack and grid transforms need.
pub open spec fn layout_geometry_ok(
    layout: Layout,
    windows: Seq<Window>,
    bounding: Rect,
    dpi: int,
    outer: Seq<Rect>,
    client: Seq<Rect>,
) -> bool {
    (layout == Layout::Stack || layout == Layout::Grid) && windows.len() >= 2 ==> rect_in_range(
        bounding,
    ) && dpi_ok(dpi) && windows.len() <= 0xffff && rects_in_range(outer) && rects_in_range(client)
}

/// Remember `layout` for `monitor` and compute the placement commands for
/// the given windows of that monitor: the layout memory is last-writer-wins
/// and the commands follow the remembered mode exactly.
pub fn apply_layout(
    cache: &mut Cache,
    monitor: Monitor,
    layout: Layout,
    windows: &Vec<Window>,
    bounding: Rect,
    dpi: u32,
    outer: &Vec<Rect>,
    client: &Vec<Rect>,
) -> (out: Vec<Placement>)
    requires
        old(cache).wf(),
        windows@.len() == outer@.len(),
        windows@.len() == client@.len(),
        layout_geometry_ok(layout, windows@, bounding, dpi as int, outer@, client@),
    ensures
        final(cache).wf(),
        forall|m2: Monitor|
            layout_of(final(cache).layouts_view(), m2) == if m2 == monitor {
                layout
            } else {
                layout_of(old(cache).layouts_view(), m2)
            },
        final(cache).queues_view() == old(cache).queues_view(),
        final(cache).keymap_view() == old(cache).keymap_view(),
        out@ == spec_layout_placements(
            layout,
            windows@,
            bounding,
            dpi as int,
            outer@,
            client@,
        ),
{
    cache.save_layout(monitor, layout);
    let ghost target = spec_layout_placements(
        layout,
        windows@,
        bounding,
        dpi as int,
        outer@,
        client@,
    );
    let out: Vec<Placement> = match layout {
        Layout::Off => Vec::new(),
        Layout::Full => set_full_layout(windows),
        Layout::Stack => {
            if windows.len() == 0 {
                Vec::new()
            } else if windows.len() == 1 {
                set_full_layout(windows)
            } else {
                let rects = transform_rects_for_stack(bounding, dpi, outer, client);
                zip_moves(windows, &rects)
            }
        },
        Layout::Grid => {
            if windows.len() == 0 {
                Vec::new()
            } else if windows.len() == 1 {
                set_full_layout(windows)
            } else {
                let rects = transform_rects_for_grid(bounding, dpi, outer, client);
                zip_moves(windows, &rects)
            }
        },
    };
    proof {
        assert(out@ =~= target);
    }
    out
}

/// Remember `layout` for `monitor` without rearranging anything.
pub fn save_layout(cache: &mut Cache, monitor: Monitor, layout: Layout)
    requires
        old(cache).wf(),
    ensures
        final(cache).wf(),
        forall|m2: Monitor|
            layout_of(final(cache).layouts_view(), m2) == if m2 == monitor {
                layout
            } else {
                layout_of(old(cache).layouts_view(), m2)
            },
        final(cache).queues_view() == old(cache).queues_view(),
        final(cache).keymap_view() == old(cache).keymap_view(),
{
    cache.save_layout(monitor, layout);
}

/// The layout remembered for `monitor`; `Off` when none was saved.
pub fn layout_on(cache: &Cache, monitor: Monitor) -> (l: Layout)
    requires
        cache.wf(),
    ensures
        l == layout_of(cache.layouts_view(), monitor),
{
    cache.layout_on(monitor)
}

/// All cached monitors, in focus order.
pub fn get_monitors(ctx: &crate::Context) -> (out: Vec<Monitor>)
    ensures
        out@ == crate::cache::monitors_of(ctx.cache.queues_view()),
{
    ctx.cache.monitors()
}

/// All cached windows, queue by queue in monitor order.
pub fn get_windows(ctx: &crate::Context) -> (out: Vec<Window>)
    ensures
        out@ == crate::cache::all_windows(ctx.cache.queues_view()),
{
    ctx.cache.windows()
}

/// The windows cached on `monitor`, most recently focused first.
pub fn get_windows_on_monitor(ctx: &crate::Context, monitor: Monitor) -> (out: Vec<Window>)
    ensures
        out@ == if mon_index(ctx.cache.queues_view(), monitor) >= 0 {
            ctx.cache.queues_view()[mon_index(ctx.cache.queues_view(), monitor)].1
        } else {
            Seq::<Window>::empty()
        },
{
    ctx.cache.windows_on_monitor(monitor)
}

/// The monitor whose queue holds `window`, or the sentinel.
pub fn get_monitor_with_window(ctx: &crate::Context, window: Window) -> (m: Monitor)
    ensures
        m == if win_index(ctx.cache.queues_view(), window) >= 0 {
            ctx.cache.queues_view()[win_index(ctx.cache.queues_view(), window)].0
        } else {
            Monitor { handle: 0 }
        },
{
    ctx.cache.monitor_with_window(window)
}

/// The monitor currently holding focus, or the sentinel.
pub fn get_focused_monitor(ctx: &crate::Context) -> (m: Monitor)
    ensures
        m == if ctx.cache.queues_view().len() > 0 {
            ctx.cache.queues_view()[0].0
        } else {
            Monitor { handle: 0 }
        },
{
    ctx.cache.focused_monitor()
}

/// The focused window, or the sentinel.
pub fn get_focused_window(ctx: &crate::Context) -> (w: Window)
    ensures
        w == if ctx.cache.queues_view().len() > 0 && ctx.cache.queues_view()[0].1.len() > 0 {
            ctx.cache.queues_view()[0].1[0]
        } else {
            Window { handle: 0 }
        },
{
    ctx.cache.focused_window()
}

/// The window adjacent to `window` in the given direction, among the
/// windows cached on `window`'s monitor. The caller supplies `window`'s
/// current rectangle and the rectangles of those windows, in queue order.
pub fn get_adjacent_window(
    cache: &Cache,
    window: Window,
    origin_rect: Rect,
    rects: &Vec<Rect>,
    direction: Direction,
) -> (w: Window)
    requires
        cache.wf(),
        win_index(cache.queues_view(), window) >= 0,
        rects@.len() == cache.queues_view()[win_index(cache.queues_view(), window)].1.len(),
        rects@.len() > 0,
    ensures
        w == cache.queues_view()[win_index(cache.queues_view(), window)].1[spec_find_rect(
            origin_rect,
            rects@,
            direction,
        )],
{
    let ghost qs = cache.queues_view();
    let ghost wi = win_index(qs, window);
    let monitor = cache.monitor_with_window(window);
    proof {
        lemma_win_index_props(qs, window);
        assert forall|j: int| 0 <= j < wi implies (#[trigger] qs[j]).0 != qs[wi].0 by {}
        lemma_mon_index_converse(qs, qs[wi].0, wi);
    }
    let wins = cache.windows_on_monitor(monitor);
    let idx = find_rect(origin_rect, rects.as_slice(), direction);
    wins[idx]
}

/// The window to focus when moving focus from the focused window in the
/// given direction. The caller supplies the focused window's rectangle and
/// the rectangles of the windows on the focused monitor, in queue order.
pub fn move_focus(
    cache: &Cache,
    direction: Direction,
    origin_rect: Rect,
    rects: &Vec<Rect>,
) -> (w: Window)
    requires
        cache.wf(),
        cache.queues_view().len() > 0,
        cache.queues_view()[0].1.len() > 0,
        rects@.len() == cache.queues_view()[0].1.len(),
    ensures
        w == cache.queues_view()[0].1[spec_find_rect(origin_rect, rects@, direction)],
{
    let ghost qs = cache.queues_view();
    let origin = cache.focused_window();
    proof {
        assert(qs[0].1.contains(qs[0].1[0]));
        crate::cache::lemma_win_index_converse(qs, qs[0].1[0], 0);
    }
    get_adjacent_window(cache, origin, origin_rect, rects, direction)
}

/// Swap the rectangles of two windows.
pub fn swap(w1: Window, w2: Window, r1: Rect, r2: Rect) -> (out: Vec<Placement>)
    ensures
        out@ == seq![Placement::Move(w1, r2), Placement::Move(w2, r1)],
{
    let mut out: Vec<Placement> = Vec::new();
    out.push(Placement::Move(w1, r2));
    out.push(Placement::Move(w2, r1));
    proof {
        assert(out@ =~= seq![Placement::Move(w1, r2), Placement::Move(w2, r1)]);
    }
    out
}

/// Swap `window` with its neighbour in the given direction: the window
/// takes the neighbour's rectangle and the neighbour takes the window's.
pub fn swap_adjacent(
    cache: &Cache,
    window: Window,
    origin_rect: Rect,
    rects: &Vec<Rect>,
    direction: Direction,
) -> (out: Vec<Placement>)
    requires
        cache.wf(),
        win_index(cache.queues_view(), window) >= 0,
        rects@.len() == cache.queues_view()[win_index(cache.queues_view(), window)].1.len(),
        rects@.len() > 0,
    ensures
        ({
            let qs = cache.queues_view();
            let wi = win_index(qs, window);
            let fi = spec_find_rect(origin_rect, rects@, direction);
            out@ == seq![
                Placement::Move(window, rects@[fi]),
                Placement::Move(qs[wi].1[fi], origin_rect),
            ]
        }),
{
    let other = get_adjacent_window(cache, window, origin_rect, rects, direction);
    let idx = find_rect(origin_rect, rects.as_slice(), direction);
    swap(window, other, origin_rect, rects[idx])
}

/// The monitor adjacent to `monitor` in the given direction, among all
/// cached monitors. The caller supplies `monitor`'s rectangle and the
/// rectangles of all cached monitors, in monitor order.
pub fn get_adjacent_monitor(
    cache: &Cache,
    monitor: Monitor,
    origin_rect: Rect,
    rects: &Vec<Rect>,
    direction: Direction,
) -> (m: Monitor)
    requires
        cache.wf(),
        rects@.len() == cache.queues_view().len(),
        rects@.len() > 0,
    ensures
        m == cache.queues_view()[spec_find_rect(origin_rect, rects@, direction)].0,
{
    let mons = cache.monitors();
    let idx = find_rect(origin_rect, rects.as_slice(), direction);
    mons[idx]
}

/// Send `window` to `monitor`: compute the placements that arrange the
/// monitor's windows plus the incoming one under the monitor's remembered
/// layout, and name the monitor the window leaves so the caller can
/// re-apply its layout. Only the hands-off and stack modes are supported
/// here.
pub fn send(
    cache: &Cache,
    window: Window,
    monitor: Monitor,
    bounding: Rect,
    dpi: u32,
    outer: &Vec<Rect>,
    client: &Vec<Rect>,
) -> (res: (Vec<Placement>, Monitor))
    requires
        cache.wf(),
        layout_of(cache.layouts_view(), monitor) == Layout::Off || layout_of(
            cache.layouts_view(),
            monitor,
        ) == Layout::Stack,
        ({
            let qs = cache.queues_view();
            let mi = mon_index(qs, monitor);
            let count = if mi >= 0 {
                qs[mi].1.len() + 1
            } else {
                1nat
            };
            &&& outer@.len() == count
            &&& client@.len() == count
            &&& (layout_of(cache.layouts_view(), monitor) == Layout::Stack ==> count >= 2
                && count <= 0xffff && rect_in_range(bounding) && dpi_ok(dpi as int)
                && rects_in_range(outer@) && rects_in_range(client@))
        }),
    ensures
        ({
            let qs = cache.queues_view();
            let mi = mon_index(qs, monitor);
            let wins = if mi >= 0 {
                qs[mi].1.push(window)
            } else {
                seq![window]
            };
            &&& res.1 == (if win_index(qs, window) >= 0 {
                qs[win_index(qs, window)].0
            } else {
                Monitor { handle: 0 }
            })
            &&& (layout_of(cache.layouts_view(), monitor) == Layout::Off ==> res.0@
                == Seq::<Placement>::empty())
            &&& (layout_of(cache.layouts_view(), monitor) == Layout::Stack ==> res.0@ == Seq::new(
                wins.len(),
                |i: int|
                    Placement::Move(
                        wins[i],
                        stack_target(
                            bounding,
                            dpi as int,
                            wins.len() as int,
                            outer@,
                            client@,
                            i,
                        ),
                    ),
            ))
        }),
{
    let origin = cache.monitor_with_window(window);
    let layout = cache.layout_on(monitor);
    let mut wins = cache.windows_on_monitor(monitor);
    wins.push(window);
    match layout {
        Layout::Off => (Vec::new(), origin),
        Layout::Stack => {
            let rects = transform_rects_for_stack(bounding, dpi, outer, client);
            let out = zip_moves(&wins, &rects);
            proof {
                let qs = cache.queues_view();
                let mi = mon_index(qs, monitor);
                let winsg = if mi >= 0 {
                    qs[mi].1.push(window)
                } else {
                    seq![window]
                };
                assert(wins@ =~= winsg);
                assert(out@ =~= Seq::new(
                    winsg.len(),
                    |i: int|
                        Placement::Move(
                            winsg[i],
                            stack_target(
                                bounding,
                                dpi as int,
                                winsg.len() as int,
                                outer@,
                                client@,
                                i,
                            ),
                        ),
                ));
            }
            (out, origin)
        },
        Layout::Grid => vstd::pervasive::unreached(),
        Layout::Full => vstd::pervasive::unreached(),
    }
}

} // verus!