//! The block-partitioned scan: counting the pixels that differ between two
//! images inside a rectangle, and reporting the blocks that hold them.
use crate::geometry::Bounds;
use crate::raster::{image_height, image_width, pixel, Image};
use vstd::prelude::*;

verus! {

/// The pixel at `(x, y)` differs between `src` and `tgt` in some channel.
pub open spec fn differs(src: Image, tgt: Image, x: int, y: int) -> bool {
    pixel(src, x, y) != pixel(tgt, x, y)
}

/// Number of differing pixels on row `y` in columns `[x0, x1)`.
pub open spec fn row_count(src: Image, tgt: Image, y: int, x0: int, x1: int) -> nat
    decreases x1 - x0,
{
    if x1 <= x0 {
        0
    } else {
        row_count(src, tgt, y, x0, x1 - 1) + if differs(src, tgt, x1 - 1, y) {
            1nat
        } else {
            0nat
        }
    }
}

/// Number of differing pixels in columns `[x0, x1)` of rows `[y0, y1)`.
pub open spec fn rect_count(src: Image, tgt: Image, x0: int, x1: int, y0: int, y1: int) -> nat
    decreases y1 - y0,
{
    if y1 <= y0 {
        0
    } else {
        rect_count(src, tgt, x0, x1, y0, y1 - 1) + row_count(src, tgt, y1 - 1, x0, x1)
    }
}

/// Number of differing pixels inside `b`.
pub open spec fn bounds_count(src: Image, tgt: Image, b: Bounds) -> nat {
    rect_count(
        src,
        tgt,
        b.min_width as int,
        b.max_width as int,
        b.min_height as int,
        b.max_height as int,
    )
}

/// `b` lies inside both images.
pub open spec fn readable(src: Image, tgt: Image, b: Bounds) -> bool {
    &&& b.max_width <= image_width(src)
    &&& b.max_width <= image_width(tgt)
    &&& b.max_height <= image_height(src)
    &&& b.max_height <= image_height(tgt)
}

proof fn lemma_row_split(src: Image, tgt: Image, y: int, x0: int, x1: int, x2: int)
    requires
        x0 <= x1 <= x2,
    ensures
        row_count(src, tgt, y, x0, x2) == row_count(src, tgt, y, x0, x1) + row_count(
            src,
            tgt,
            y,
            x1,
            x2,
        ),
    decreases x2 - x1,
{
    if x2 > x1 {
        lemma_row_split(src, tgt, y, x0, x1, x2 - 1);
    }
}

proof fn lemma_rect_split_rows(
    src: Image,
    tgt: Image,
    x0: int,
    x1: int,
    y0: int,
    y1: int,
    y2: int,
)
    requires
        y0 <= y1 <= y2,
    ensures
        rect_count(src, tgt, x0, x1, y0, y2) == rect_count(src, tgt, x0, x1, y0, y1) + rect_count(
            src,
            tgt,
            x0,
            x1,
            y1,
            y2,
        ),
    decreases y2 - y1,
{
    if y2 > y1 {
        lemma_rect_split_rows(src, tgt, x0, x1, y0, y1, y2 - 1);
    }
}

proof fn lemma_rect_split_columns(
    src: Image,
    tgt: Image,
    x0: int,
    x1: int,
    x2: int,
    y0: int,
    y1: int,
)
    requires
        x0 <= x1 <= x2,
    ensures
        rect_count(src, tgt, x0, x2, y0, y1) == rect_count(src, tgt, x0, x1, y0, y1) + rect_count(
            src,
            tgt,
            x1,
            x2,
            y0,
            y1,
        ),
    decreases y1 - y0,
{
    if y1 > y0 {
        lemma_rect_split_columns(src, tgt, x0, x1, x2, y0, y1 - 1);
        lemma_row_split(src, tgt, y1 - 1, x0, x1, x2);
    }
}

proof fn lemma_rect_no_columns(src: Image, tgt: Image, x0: int, x1: int, y0: int, y1: int)
    requires
        x1 <= x0,
    ensures
        rect_count(src, tgt, x0, x1, y0, y1) == 0,
    decreases y1 - y0,
{
    if y1 > y0 {
        lemma_rect_no_columns(src, tgt, x0, x1, y0, y1 - 1);
    }
}

proof fn lemma_row_bound(src: Image, tgt: Image, y: int, x0: int, x1: int)
    requires
        x0 <= x1,
    ensures
        row_count(src, tgt, y, x0, x1) <= x1 - x0,
    decreases x1 - x0,
{
    if x1 > x0 {
        lemma_row_bound(src, tgt, y, x0, x1 - 1);
    }
}

proof fn lemma_rect_bound(src: Image, tgt: Image, x0: int, x1: int, y0: int, y1: int)
    requires
        x0 <= x1,
        y0 <= y1,
    ensures
        rect_count(src, tgt, x0, x1, y0, y1) <= (x1 - x0) * (y1 - y0),
    decreases y1 - y0,
{
    if y1 > y0 {
        lemma_rect_bound(src, tgt, x0, x1, y0, y1 - 1);
        lemma_row_bound(src, tgt, y1 - 1, x0, x1);
        assert((x1 - x0) * (y1 - 1 - y0) + (x1 - x0) == (x1 - x0) * (y1 - y0)) by (nonlinear_arith);
    }
}

/// A rectangle of at most `u32::MAX` by `u32::MAX` pixels holds fewer
/// differing pixels than `u64::MAX`.
proof fn lemma_rect_fits(src: Image, tgt: Image, x0: int, x1: int, y0: int, y1: int)
    requires
        0 <= x0 <= x1 <= u32::MAX,
        0 <= y0 <= y1 <= u32::MAX,
    ensures
        rect_count(src, tgt, x0, x1, y0, y1) <= u32::MAX as int * u32::MAX as int,
{
    lemma_rect_bound(src, tgt, x0, x1, y0, y1);
    vstd::arithmetic::mul::lemma_mul_upper_bound(
        x1 - x0,
        u32::MAX as int,
        y1 - y0,
        u32::MAX as int,
    );
}

/// Number of pixels inside `bounds` that differ between the two images.
pub fn pixel_difference(src: &Image, tgt: &Image, bounds: &Bounds) -> (r: u64)
    requires
        readable(*src, *tgt, *bounds),
    ensures
        r == bounds_count(*src, *tgt, *bounds),
{
    let mut diff: u64 = 0;
    let mut y: u32 = bounds.min_height;
    while y < bounds.max_height
        invariant
            readable(*src, *tgt, *bounds),
            bounds.min_height <= y,
            y <= bounds.max_height || y == bounds.min_height,
            diff == rect_count(
                *src,
                *tgt,
                bounds.min_width as int,
                bounds.max_width as int,
                bounds.min_height as int,
                y as int,
            ),
        decreases bounds.max_height - y,
    {
        let mut x: u32 = bounds.min_width;
        while x < bounds.max_width
            invariant
                readable(*src, *tgt, *bounds),
                bounds.min_height <= y < bounds.max_height,
                bounds.min_width <= x,
                x <= bounds.max_width || x == bounds.min_width,
                diff == rect_count(
                    *src,
                    *tgt,
                    bounds.min_width as int,
                    bounds.max_width as int,
                    bounds.min_height as int,
                    y as int,
                ) + row_count(*src, *tgt, y as int, bounds.min_width as int, x as int),
            decreases bounds.max_width - x,
        {
            let a = src.get_pixel(x, y);
            let b = tgt.get_pixel(x, y);
            if a.0 != b.0 || a.1 != b.1 || a.2 != b.2 || a.3 != b.3 {
                proof {
                    lemma_row_split(
                        *src,
                        *tgt,
                        y as int,
                        bounds.min_width as int,
                        x + 1,
                        bounds.max_width as int,
                    );
                    lemma_rect_fits(
                        *src,
                        *tgt,
                        bounds.min_width as int,
                        bounds.max_width as int,
                        bounds.min_height as int,
                        y + 1,
                    );
                }
                diff = diff + 1;
            }
            x = x + 1;
        }
        y = y + 1;
    }
    diff
}

/// The smaller of `a` and `b`.
pub open spec fn min_int(a: int, b: int) -> int {
    if a < b {
        a
    } else {
        b
    }
}

/// The block of the grid of `b` with block size `k` whose top-left pixel is
/// `(sx, sy)`, clipped at the right and bottom edges of `b`.
pub open spec fn cell(b: Bounds, k: int, sx: int, sy: int) -> Bounds {
    Bounds {
        min_width: sx as u32,
        max_width: min_int(sx + k, b.max_width as int) as u32,
        min_height: sy as u32,
        max_height: min_int(sy + k, b.max_height as int) as u32,
    }
}

/// The blocks of the row of the grid that starts at height `sy`, from the
/// block that starts at `sx`, left to right.
pub open spec fn grid_row(b: Bounds, k: int, sy: int, sx: int) -> Seq<Bounds>
    decreases b.max_width + k - sx,
{
    if k <= 0 || sx >= b.max_width {
        seq![]
    } else {
        seq![cell(b, k, sx, sy)] + grid_row(b, k, sy, sx + k)
    }
}

/// The blocks of the rows of the grid from the row that starts at `sy`, top
/// to bottom.
pub open spec fn grid_rows(b: Bounds, k: int, sy: int) -> Seq<Bounds>
    decreases b.max_height + k - sy,
{
    if k <= 0 || sy >= b.max_height {
        seq![]
    } else {
        grid_row(b, k, sy, b.min_width as int) + grid_rows(b, k, sy + k)
    }
}

/// All blocks of `b` with block size `k`, in row-major order.
pub open spec fn grid(b: Bounds, k: int) -> Seq<Bounds> {
    grid_rows(b, k, b.min_height as int)
}

/// A block holds at least one differing pixel.
pub open spec fn has_difference(src: Image, tgt: Image) -> spec_fn(Bounds) -> bool {
    |c: Bounds| bounds_count(src, tgt, c) > 0
}

/// The blocks of the grid of `b` that hold a differing pixel, in scan order.
pub open spec fn differing_blocks(src: Image, tgt: Image, b: Bounds, k: int) -> Seq<Bounds> {
    grid(b, k).filter(has_difference(src, tgt))
}

proof fn lemma_filter_one(c: Bounds, f: spec_fn(Bounds) -> bool)
    ensures
        seq![c].filter(f) == if f(c) {
            seq![c]
        } else {
            Seq::<Bounds>::empty()
        },
{
    reveal_with_fuel(Seq::filter, 2);
    assert(seq![c].drop_last() =~= Seq::<Bounds>::empty());
    if f(c) {
        assert(seq![c].filter(f) =~= seq![c]);
    } else {
        assert(seq![c].filter(f) =~= Seq::<Bounds>::empty());
    }
}

proof fn lemma_row_none(src: Image, tgt: Image, y: int, x0: int, x1: int)
    requires
        forall|x: int| x0 <= x < x1 ==> !#[trigger] differs(src, tgt, x, y),
    ensures
        row_count(src, tgt, y, x0, x1) == 0,
    decreases x1 - x0,
{
    if x1 > x0 {
        lemma_row_none(src, tgt, y, x0, x1 - 1);
    }
}

proof fn lemma_rect_none(src: Image, tgt: Image, x0: int, x1: int, y0: int, y1: int)
    requires
        forall|x: int, y: int| x0 <= x < x1 && y0 <= y < y1 ==> !#[trigger] differs(src, tgt, x, y),
    ensures
        rect_count(src, tgt, x0, x1, y0, y1) == 0,
    decreases y1 - y0,
{
    if y1 > y0 {
        lemma_rect_none(src, tgt, x0, x1, y0, y1 - 1);
        assert forall|x: int| x0 <= x < x1 implies !#[trigger] differs(src, tgt, x, y1 - 1) by {
            assert(y0 <= y1 - 1 < y1);
        }
        lemma_row_none(src, tgt, y1 - 1, x0, x1);
    }
}

proof fn lemma_filter_none(s: Seq<Bounds>, f: spec_fn(Bounds) -> bool)
    requires
        forall|i: int| 0 <= i < s.len() ==> !f(#[trigger] s[i]),
    ensures
        s.filter(f) == Seq::<Bounds>::empty(),
    decreases s.len(),
{
    reveal(Seq::filter);
    if s.len() == 0 {
        assert(s.filter(f) =~= Seq::<Bounds>::empty());
    } else {
        let d = s.drop_last();
        assert forall|i: int| 0 <= i < d.len() implies !f(#[trigger] d[i]) by {
            assert(d[i] == s[i]);
        }
        lemma_filter_none(d, f);
        assert(!f(s[s.len() - 1]));
    }
}

/// A block of the grid of `b`: it starts inside `b`, holds at least one
/// pixel, and is `k` pixels wide and high unless clipped at the right or
/// bottom edge of `b`, where it ends.
pub open spec fn grid_block(b: Bounds, k: int, c: Bounds) -> bool {
    &&& b.min_width <= c.min_width < b.max_width
    &&& b.min_height <= c.min_height < b.max_height
    &&& c.max_width == min_int(c.min_width + k, b.max_width as int)
    &&& c.max_height == min_int(c.min_height + k, b.max_height as int)
}

proof fn lemma_row_blocks(b: Bounds, k: int, sy: int, sx: int)
    requires
        k > 0,
        b.min_width <= sx,
        b.min_height <= sy < b.max_height,
    ensures
        forall|i: int|
            0 <= i < grid_row(b, k, sy, sx).len() ==> grid_block(
                b,
                k,
                #[trigger] grid_row(b, k, sy, sx)[i],
            ),
    decreases b.max_width + k - sx,
{
    if sx < b.max_width {
        lemma_row_blocks(b, k, sy, sx + k);
        let rest = grid_row(b, k, sy, sx + k);
        assert forall|i: int| 0 <= i < grid_row(b, k, sy, sx).len() implies grid_block(
            b,
            k,
            #[trigger] grid_row(b, k, sy, sx)[i],
        ) by {
            if i > 0 {
                assert(grid_row(b, k, sy, sx)[i] == rest[i - 1]);
            }
        }
    }
}

proof fn lemma_rows_blocks(b: Bounds, k: int, sy: int)
    requires
        k > 0,
        b.min_height <= sy,
    ensures
        forall|i: int|
            0 <= i < grid_rows(b, k, sy).len() ==> grid_block(b, k, #[trigger] grid_rows(b, k, sy)[i]),
    decreases b.max_height + k - sy,
{
    if sy < b.max_height {
        lemma_rows_blocks(b, k, sy + k);
        lemma_row_blocks(b, k, sy, b.min_width as int);
        let row = grid_row(b, k, sy, b.min_width as int);
        let rest = grid_rows(b, k, sy + k);
        assert forall|i: int| 0 <= i < grid_rows(b, k, sy).len() implies grid_block(
            b,
            k,
            #[trigger] grid_rows(b, k, sy)[i],
        ) by {
            if i < row.len() {
                assert(grid_rows(b, k, sy)[i] == row[i]);
            } else {
                assert(grid_rows(b, k, sy)[i] == rest[i - row.len()]);
            }
        }
    }
}

proof fn lemma_row_covers(b: Bounds, k: int, sy: int, sx: int, x: int, y: int) -> (i: int)
    requires
        k > 0,
        sx <= x < b.max_width,
        sy <= y < min_int(sy + k, b.max_height as int),
        0 <= sx,
        0 <= sy,
    ensures
        0 <= i < grid_row(b, k, sy, sx).len(),
        grid_row(b, k, sy, sx)[i].contains(x, y),
    decreases b.max_width + k - sx,
{
    if x < sx + k {
        0
    } else {
        let j = lemma_row_covers(b, k, sy, sx + k, x, y);
        j + 1
    }
}

proof fn lemma_rows_cover(b: Bounds, k: int, sy: int, x: int, y: int) -> (i: int)
    requires
        k > 0,
        sy <= y < b.max_height,
        b.min_width <= x < b.max_width,
        0 <= sy,
    ensures
        0 <= i < grid_rows(b, k, sy).len(),
        grid_rows(b, k, sy)[i].contains(x, y),
    decreases b.max_height + k - sy,
{
    let row = grid_row(b, k, sy, b.min_width as int);
    if y < sy + k {
        lemma_row_covers(b, k, sy, b.min_width as int, x, y)
    } else {
        let j = lemma_rows_cover(b, k, sy + k, x, y);
        j + row.len()
    }
}

/// The grid of `b` with block size `k` tiles `b`: every block is a grid
/// block (inside `b`, non-empty, clipped at the right and bottom edges and
/// nowhere else), and every pixel of `b` lies in some block.
pub proof fn lemma_grid_tiles(b: Bounds, k: int)
    requires
        k > 0,
    ensures
        forall|i: int| 0 <= i < grid(b, k).len() ==> grid_block(b, k, #[trigger] grid(b, k)[i]),
        forall|i: int|
            0 <= i < grid(b, k).len() ==> (#[trigger] grid(b, k)[i]).within(b) && grid(
                b,
                k,
            )[i].non_empty(),
        forall|x: int, y: int|
            #[trigger] b.contains(x, y) ==> exists|i: int|
                0 <= i < grid(b, k).len() && #[trigger] grid(b, k)[i].contains(x, y),
{
    lemma_rows_blocks(b, k, b.min_height as int);
    assert forall|x: int, y: int| #[trigger] b.contains(x, y) implies exists|i: int|
        0 <= i < grid(b, k).len() && #[trigger] grid(b, k)[i].contains(x, y) by {
        let i = lemma_rows_cover(b, k, b.min_height as int, x, y);
        assert(grid(b, k)[i].contains(x, y));
    }
}

/// Two images that agree on every pixel of `b` have no differing pixel and
/// no differing block there, whatever the block size.
pub proof fn lemma_identical_no_difference(src: Image, tgt: Image, b: Bounds, k: int)
    requires
        k > 0,
        forall|x: int, y: int| #[trigger] b.contains(x, y) ==> pixel(src, x, y) == pixel(tgt, x, y),
    ensures
        bounds_count(src, tgt, b) == 0,
        differing_blocks(src, tgt, b, k) == Seq::<Bounds>::empty(),
{
    assert forall|x: int, y: int|
        b.min_width <= x < b.max_width && b.min_height <= y < b.max_height implies !#[trigger] differs(
        src,
        tgt,
        x,
        y,
    ) by {
        assert(b.contains(x, y));
    }
    lemma_rect_none(
        src,
        tgt,
        b.min_width as int,
        b.max_width as int,
        b.min_height as int,
        b.max_height as int,
    );
    lemma_grid_tiles(b, k);
    let g = grid(b, k);
    let f = has_difference(src, tgt);
    assert forall|i: int| 0 <= i < g.len() implies !f(#[trigger] g[i]) by {
        let c = g[i];
        assert(c.within(b));
        assert forall|x: int, y: int|
            c.min_width <= x < c.max_width && c.min_height <= y < c.max_height implies !#[trigger] differs(
            src,
            tgt,
            x,
            y,
        ) by {
            assert(b.contains(x, y));
        }
        lemma_rect_none(
            src,
            tgt,
            c.min_width as int,
            c.max_width as int,
            c.min_height as int,
            c.max_height as int,
        );
    }
    lemma_filter_none(g, f);
}

proof fn lemma_filter_from(s: Seq<Bounds>, f: spec_fn(Bounds) -> bool)
    ensures
        forall|i: int|
            0 <= i < s.filter(f).len() ==> exists|j: int|
                0 <= j < s.len() && s[j] == #[trigger] s.filter(f)[i],
    decreases s.len(),
{
    reveal(Seq::filter);
    if s.len() > 0 {
        let d = s.drop_last();
        lemma_filter_from(d, f);
        assert forall|i: int| 0 <= i < s.filter(f).len() implies exists|j: int|
            0 <= j < s.len() && s[j] == #[trigger] s.filter(f)[i] by {
            if i < d.filter(f).len() {
                let j = choose|j: int| 0 <= j < d.len() && d[j] == #[trigger] d.filter(f)[i];
                assert(s[j] == d[j]);
            } else {
                assert(s[s.len() - 1] == s.filter(f)[i]);
            }
        }
    }
}

/// `a` comes before `c` in scan order: on an earlier row, or further left on
/// the same row.
pub open spec fn scanned_before(a: Bounds, c: Bounds) -> bool {
    a.min_height < c.min_height || (a.min_height == c.min_height && a.min_width < c.min_width)
}

/// The blocks of `s` come strictly in scan order, so none comes twice.
pub open spec fn in_scan_order(s: Seq<Bounds>) -> bool {
    forall|i: int, j: int| 0 <= i < j < s.len() ==> scanned_before(#[trigger] s[i], #[trigger] s[j])
}

proof fn lemma_row_order(b: Bounds, k: int, sy: int, sx: int)
    requires
        k > 0,
        b.min_width <= sx,
        b.min_height <= sy < b.max_height,
    ensures
        in_scan_order(grid_row(b, k, sy, sx)),
        forall|i: int|
            0 <= i < grid_row(b, k, sy, sx).len() ==> (#[trigger] grid_row(b, k, sy, sx)[i]).min_height
                == sy && grid_row(b, k, sy, sx)[i].min_width >= sx,
    decreases b.max_width + k - sx,
{
    if sx < b.max_width {
        lemma_row_order(b, k, sy, sx + k);
        let row = grid_row(b, k, sy, sx);
        let rest = grid_row(b, k, sy, sx + k);
        assert forall|i: int| 0 < i < row.len() implies row[i] == rest[i - 1] by {}
    }
}

proof fn lemma_rows_order(b: Bounds, k: int, sy: int)
    requires
        k > 0,
        b.min_height <= sy,
    ensures
        in_scan_order(grid_rows(b, k, sy)),
        forall|i: int|
            0 <= i < grid_rows(b, k, sy).len() ==> (#[trigger] grid_rows(b, k, sy)[i]).min_height
                >= sy,
    decreases b.max_height + k - sy,
{
    if sy < b.max_height {
        lemma_rows_order(b, k, sy + k);
        lemma_row_order(b, k, sy, b.min_width as int);
        let row = grid_row(b, k, sy, b.min_width as int);
        let rest = grid_rows(b, k, sy + k);
        let all = grid_rows(b, k, sy);
        assert forall|i: int| 0 <= i < all.len() implies all[i] == if i < row.len() {
            row[i]
        } else {
            rest[i - row.len()]
        } by {}
        assert forall|i: int, j: int| 0 <= i < j < all.len() implies scanned_before(
            #[trigger] all[i],
            #[trigger] all[j],
        ) by {
            if j < row.len() {
                assert(scanned_before(row[i], row[j]));
            } else if i >= row.len() {
                assert(scanned_before(rest[i - row.len()], rest[j - row.len()]));
            } else {
                assert(rest[j - row.len()].min_height >= sy + k);
            }
        }
        assert forall|i: int| 0 <= i < all.len() implies (#[trigger] all[i]).min_height >= sy by {
            if i >= row.len() {
                assert(rest[i - row.len()].min_height >= sy + k);
            }
        }
    }
}

proof fn lemma_filter_order(s: Seq<Bounds>, f: spec_fn(Bounds) -> bool)
    requires
        in_scan_order(s),
    ensures
        in_scan_order(s.filter(f)),
    decreases s.len(),
{
    reveal(Seq::filter);
    if s.len() > 0 {
        let d = s.drop_last();
        let last = s[s.len() - 1];
        assert forall|i: int, j: int| 0 <= i < j < d.len() implies scanned_before(
            #[trigger] d[i],
            #[trigger] d[j],
        ) by {
            assert(d[i] == s[i] && d[j] == s[j]);
        }
        lemma_filter_order(d, f);
        lemma_filter_from(d, f);
        let fd = d.filter(f);
        if f(last) {
            let out = s.filter(f);
            assert(out == fd.push(last));
            assert forall|i: int, j: int| 0 <= i < j < out.len() implies scanned_before(
                #[trigger] out[i],
                #[trigger] out[j],
            ) by {
                if j == fd.len() {
                    let m = choose|m: int| 0 <= m < d.len() && d[m] == #[trigger] fd[i];
                    assert(s[m] == d[m]);
                    assert(scanned_before(s[m], s[s.len() - 1]));
                } else {
                    assert(out[i] == fd[i] && out[j] == fd[j]);
                }
            }
        }
    }
}

/// Every reported block is a block of the grid of `b` and holds a differing
/// pixel, and the blocks come in scan order, each at most once.
pub proof fn lemma_differing_blocks_in_grid(src: Image, tgt: Image, b: Bounds, k: int)
    requires
        k > 0,
    ensures
        forall|i: int|
            0 <= i < differing_blocks(src, tgt, b, k).len() ==> {
                &&& grid_block(b, k, #[trigger] differing_blocks(src, tgt, b, k)[i])
                &&& differing_blocks(src, tgt, b, k)[i].within(b)
                &&& differing_blocks(src, tgt, b, k)[i].non_empty()
                &&& bounds_count(src, tgt, differing_blocks(src, tgt, b, k)[i]) > 0
            },
        in_scan_order(differing_blocks(src, tgt, b, k)),
{
    let g = grid(b, k);
    let f = has_difference(src, tgt);
    lemma_grid_tiles(b, k);
    lemma_filter_from(g, f);
    lemma_rows_order(b, k, b.min_height as int);
    lemma_filter_order(g, f);
    broadcast use Seq::lemma_filter_pred;
    assert forall|i: int| 0 <= i < g.filter(f).len() implies grid_block(b, k, #[trigger] g.filter(f)[i])
        && g.filter(f)[i].within(b) && g.filter(f)[i].non_empty() by {
        let j = choose|j: int| 0 <= j < g.len() && g[j] == #[trigger] g.filter(f)[i];
        assert(grid_block(b, k, g[j]));
    }
}

/// The outcome of a scan: how many pixels differ, the pixel count that a
/// percentage is taken of, and the blocks that hold a differing pixel. The
/// difference in percent is `differing_pixels / total_pixels * 100`.
pub struct Difference {
    pub differing_pixels: u64,
    pub total_pixels: u64,
    pub blocks: Vec<Bounds>,
}

/// Scans `bounds` in blocks of `block` by `block` pixels, row by row and left
/// to right, the blocks at the right and bottom edges clipped to `bounds`.
/// Counts the pixels that differ and keeps each block that holds one.
pub fn percentage_difference(src: &Image, tgt: &Image, bounds: &Bounds, block: u32) -> (r:
    Difference)
    requires
        block > 0,
        readable(*src, *tgt, *bounds),
    ensures
        r.differing_pixels == bounds_count(*src, *tgt, *bounds),
        r.total_pixels == bounds.total_spec(),
        r.blocks@ == differing_blocks(*src, *tgt, *bounds, block as int),
{
    let ghost f = has_difference(*src, *tgt);
    let ghost b = *bounds;
    let ghost k = block as int;
    let ghost all = differing_blocks(*src, *tgt, *bounds, block as int);
    let kk: u64 = block as u64;
    let max_w: u64 = bounds.max_width as u64;
    let max_h: u64 = bounds.max_height as u64;
    let mut total: u64 = 0;
    let mut blocks: Vec<Bounds> = Vec::new();
    let mut sy: u64 = bounds.min_height as u64;
    while sy < max_h
        invariant
            b == *bounds,
            k == kk,
            0 < kk <= u32::MAX,
            max_w == b.max_width,
            max_h == b.max_height,
            readable(*src, *tgt, b),
            f == has_difference(*src, *tgt),
            all == grid(b, k).filter(f),
            b.min_height <= sy,
            sy < max_h ==> sy <= u32::MAX,
            sy <= u32::MAX + u32::MAX,
            blocks@ + grid_rows(b, k, sy as int).filter(f) == all,
            total == rect_count(
                *src,
                *tgt,
                b.min_width as int,
                b.max_width as int,
                b.min_height as int,
                min_int(sy as int, b.max_height as int),
            ),
        decreases max_h + kk - sy,
    {
        let ey: u64 = if sy + kk < max_h {
            sy + kk
        } else {
            max_h
        };
        proof {
            let row = grid_row(b, k, sy as int, b.min_width as int);
            let rest = grid_rows(b, k, sy + k);
            Seq::filter_distributes_over_add(row, rest, f);
            assert(blocks@ + (row + rest).filter(f) == all);
            assert(blocks@ + row.filter(f) + rest.filter(f) =~= blocks@ + (row.filter(f)
                + rest.filter(f)));
            lemma_rect_no_columns(
                *src,
                *tgt,
                b.min_width as int,
                min_int(b.min_width as int, b.max_width as int),
                sy as int,
                ey as int,
            );
        }
        let mut sx: u64 = bounds.min_width as u64;
        while sx < max_w
            invariant
                b == *bounds,
                k == kk,
                0 < kk <= u32::MAX,
                max_w == b.max_width,
                max_h == b.max_height,
                readable(*src, *tgt, b),
                f == has_difference(*src, *tgt),
                b.min_height <= sy < max_h,
                ey == min_int(sy + k, b.max_height as int),
                b.min_width <= sx,
                sx < max_w ==> sx <= u32::MAX,
                sx <= u32::MAX + u32::MAX,
                blocks@ + grid_row(b, k, sy as int, sx as int).filter(f) + grid_rows(
                    b,
                    k,
                    sy + k,
                ).filter(f) == all,
                total == rect_count(
                    *src,
                    *tgt,
                    b.min_width as int,
                    b.max_width as int,
                    b.min_height as int,
                    sy as int,
                ) + rect_count(
                    *src,
                    *tgt,
                    b.min_width as int,
                    min_int(sx as int, b.max_width as int),
                    sy as int,
                    ey as int,
                ),
            decreases max_w + kk - sx,
        {
            let ex: u64 = if sx + kk < max_w {
                sx + kk
            } else {
                max_w
            };
            let c = Bounds::new(sx as u32, ex as u32, sy as u32, ey as u32);
            assert(c == cell(b, k, sx as int, sy as int));
            let d = pixel_difference(src, tgt, &c);
            proof {
                let rest = grid_row(b, k, sy as int, sx + k);
                let below = grid_rows(b, k, sy + k);
                assert(grid_row(b, k, sy as int, sx as int) == seq![c] + rest);
                Seq::filter_distributes_over_add(seq![c], rest, f);
                lemma_filter_one(c, f);
                lemma_rect_split_columns(
                    *src,
                    *tgt,
                    b.min_width as int,
                    sx as int,
                    ex as int,
                    sy as int,
                    ey as int,
                );
                lemma_rect_split_columns(
                    *src,
                    *tgt,
                    b.min_width as int,
                    ex as int,
                    b.max_width as int,
                    sy as int,
                    ey as int,
                );
                lemma_rect_split_rows(
                    *src,
                    *tgt,
                    b.min_width as int,
                    b.max_width as int,
                    b.min_height as int,
                    sy as int,
                    ey as int,
                );
                lemma_rect_fits(
                    *src,
                    *tgt,
                    b.min_width as int,
                    b.max_width as int,
                    b.min_height as int,
                    ey as int,
                );
                if d != 0 {
                    assert(blocks@.push(c) + rest.filter(f) + below.filter(f) =~= blocks@ + (seq![c]
                        + rest).filter(f) + below.filter(f));
                } else {
                    assert(blocks@ + rest.filter(f) + below.filter(f) =~= blocks@ + (seq![c]
                        + rest).filter(f) + below.filter(f));
                }
            }
            if d != 0 {
                total = total + d;
                blocks.push(c);
            }
            sx = sx + kk;
        }
        proof {
            lemma_rect_split_rows(
                *src,
                *tgt,
                b.min_width as int,
                b.max_width as int,
                b.min_height as int,
                sy as int,
                ey as int,
            );
            assert(grid_row(b, k, sy as int, sx as int) == Seq::<Bounds>::empty());
            assert(Seq::<Bounds>::empty().filter(f) =~= Seq::<Bounds>::empty()) by {
                reveal(Seq::filter);
            }
            assert(blocks@ + Seq::<Bounds>::empty().filter(f) =~= blocks@);
        }
        sy = sy + kk;
    }
    proof {
        assert(grid_rows(b, k, sy as int) == Seq::<Bounds>::empty());
        assert(Seq::<Bounds>::empty().filter(f) =~= Seq::<Bounds>::empty()) by {
            reveal(Seq::filter);
        }
        assert(blocks@ + Seq::<Bounds>::empty().filter(f) =~= blocks@);
    }
    Difference { differing_pixels: total, total_pixels: bounds.total(), blocks }
}

} // verus!
