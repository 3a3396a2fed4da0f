//! Outlining blocks on an image in opaque red.
use crate::geometry::Bounds;
use crate::raster::{image_height, image_width, in_image, pixel, red, same_image, Image};
use vstd::prelude::*;

verus! {

/// `(x, y)` lies on the one-pixel-wide outline of `b`: inside `b`, on its top
/// or bottom row or on its left or right column.
pub open spec fn on_outline(b: Bounds, x: int, y: int) -> bool {
    &&& b.contains(x, y)
    &&& (y == b.min_height || y == b.max_height - 1 || x == b.min_width || x == b.max_width - 1)
}

/// `(x, y)` lies on the outline of one of `blocks`.
pub open spec fn outlined(blocks: Seq<Bounds>, x: int, y: int) -> bool {
    exists|i: int| 0 <= i < blocks.len() && #[trigger] on_outline(blocks[i], x, y)
}

/// `after` is `before` with the outline of each of `blocks` set to opaque red
/// and every other pixel unchanged.
pub open spec fn highlighted(before: Image, blocks: Seq<Bounds>, after: Image) -> bool {
    &&& image_width(after) == image_width(before)
    &&& image_height(after) == image_height(before)
    &&& forall|x: int, y: int|
        #[trigger] in_image(before, x, y) ==> pixel(after, x, y) == if outlined(blocks, x, y) {
            red()
        } else {
            pixel(before, x, y)
        }
}

/// `b` holds at least one pixel and lies inside `img`.
pub open spec fn drawable(img: Image, b: Bounds) -> bool {
    &&& b.non_empty()
    &&& b.max_width <= image_width(img)
    &&& b.max_height <= image_height(img)
}

/// Sets the outline of `b` to opaque red.
fn draw_outline(img: &mut Image, b: &Bounds)
    requires
        drawable(*old(img), *b),
    ensures
        image_width(*final(img)) == image_width(*old(img)),
        image_height(*final(img)) == image_height(*old(img)),
        forall|x: int, y: int|
            #[trigger] in_image(*old(img), x, y) ==> pixel(*final(img), x, y) == if on_outline(
                *b,
                x,
                y,
            ) {
                red()
            } else {
                pixel(*old(img), x, y)
            },
{
    let ghost start = *img;
    let top = b.min_height;
    let bottom = b.max_height - 1;
    let left = b.min_width;
    let right = b.max_width - 1;
    let mut x: u32 = b.min_width;
    while x < b.max_width
        invariant
            drawable(start, *b),
            top == b.min_height,
            bottom == b.max_height - 1,
            b.min_width <= x <= b.max_width,
            image_width(*img) == image_width(start),
            image_height(*img) == image_height(start),
            forall|p: int, q: int|
                #[trigger] in_image(start, p, q) ==> pixel(*img, p, q) == if b.min_width <= p < x
                    && (q == top || q == bottom) {
                    red()
                } else {
                    pixel(start, p, q)
                },
        decreases b.max_width - x,
    {
        img.put_pixel(x, top, (255u8, 0u8, 0u8, 255u8));
        img.put_pixel(x, bottom, (255u8, 0u8, 0u8, 255u8));
        x = x + 1;
    }
    let mut y: u32 = b.min_height;
    while y < b.max_height
        invariant
            drawable(start, *b),
            top == b.min_height,
            bottom == b.max_height - 1,
            left == b.min_width,
            right == b.max_width - 1,
            b.min_height <= y <= b.max_height,
            image_width(*img) == image_width(start),
            image_height(*img) == image_height(start),
            forall|p: int, q: int|
                #[trigger] in_image(start, p, q) ==> pixel(*img, p, q) == if (b.min_width <= p
                    < b.max_width && (q == top || q == bottom)) || (b.min_height <= q < y && (p
                    == left || p == right)) {
                    red()
                } else {
                    pixel(start, p, q)
                },
        decreases b.max_height - y,
    {
        img.put_pixel(left, y, (255u8, 0u8, 0u8, 255u8));
        img.put_pixel(right, y, (255u8, 0u8, 0u8, 255u8));
        y = y + 1;
    }
}

/// Outlines each of `bounds` on `img` in opaque red; every pixel off those
/// outlines keeps its channels.
pub fn highlight(img: &mut Image, bounds: Vec<Bounds>)
    requires
        forall|i: int| 0 <= i < bounds@.len() ==> drawable(*old(img), #[trigger] bounds@[i]),
    ensures
        highlighted(*old(img), bounds@, *final(img)),
{
    let ghost start = *img;
    let mut i: usize = 0;
    while i < bounds.len()
        invariant
            forall|j: int| 0 <= j < bounds@.len() ==> drawable(start, #[trigger] bounds@[j]),
            i <= bounds@.len(),
            highlighted(start, bounds@.take(i as int), *img),
        decreases bounds@.len() - i,
    {
        let ghost before = *img;
        let b = bounds[i];
        draw_outline(img, &b);
        proof {
            let done = bounds@.take(i as int);
            let next = bounds@.take(i + 1);
            assert forall|x: int, y: int| #[trigger] in_image(start, x, y) implies pixel(
                *img,
                x,
                y,
            ) == if outlined(next, x, y) {
                red()
            } else {
                pixel(start, x, y)
            } by {
                assert(in_image(before, x, y));
                if on_outline(b, x, y) {
                    assert(next[i as int] == b);
                } else if outlined(done, x, y) {
                    let j = choose|j: int| 0 <= j < done.len() && #[trigger] on_outline(done[j], x, y);
                    assert(next[j] == done[j]);
                } else {
                    if outlined(next, x, y) {
                        let j = choose|j: int| 0 <= j < next.len() && #[trigger] on_outline(next[j], x, y);
                        if j < i {
                            assert(done[j] == next[j]);
                        }
                    }
                }
            }
        }
        i = i + 1;
    }
    assert(bounds@.take(bounds@.len() as int) =~= bounds@);
}

/// A copy of `tgt` with the outline of each of `bounds` in opaque red; `tgt`
/// itself is left as it was.
pub fn highlighted_copy(tgt: &Image, bounds: Vec<Bounds>) -> (r: Image)
    requires
        forall|i: int| 0 <= i < bounds@.len() ==> drawable(*tgt, #[trigger] bounds@[i]),
    ensures
        highlighted(*tgt, bounds@, r),
{
    let mut out = tgt.copy();
    let ghost copied = out;
    highlight(&mut out, bounds);
    assert forall|x: int, y: int| #[trigger] in_image(*tgt, x, y) implies pixel(out, x, y) == if outlined(
        bounds@,
        x,
        y,
    ) {
        red()
    } else {
        pixel(*tgt, x, y)
    } by {
        assert(in_image(copied, x, y));
    }
    out
}

/// Outlining the same blocks a second time changes nothing: every write sets
/// a pixel to the same absolute colour.
pub proof fn lemma_highlight_idempotent(a: Image, blocks: Seq<Bounds>, b: Image, c: Image)
    requires
        highlighted(a, blocks, b),
        highlighted(b, blocks, c),
    ensures
        same_image(b, c),
{
    assert forall|x: int, y: int| #[trigger] in_image(b, x, y) implies pixel(b, x, y) == pixel(
        c,
        x,
        y,
    ) by {
        assert(in_image(a, x, y));
    }
}

} // verus!
