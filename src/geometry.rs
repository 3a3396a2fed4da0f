//! Image dimensions, rectangular bounds, and the resolution of the common
//! comparison area of two images.
use vstd::prelude::*;

verus! {

/// The size of an image: `(width, height)`.
#[derive(Debug, Clone, Copy, PartialEq, Eq, Structural)]
pub struct Dimensions(pub u32, pub u32);

/// An axis-aligned rectangle of pixels, `[min_width, max_width)` by
/// `[min_height, max_height)`.
#[derive(Debug, Clone, Copy, PartialEq, Eq, Structural)]
pub struct Bounds {
    pub min_width: u32,
    pub max_width: u32,
    pub min_height: u32,
    pub max_height: u32,
}

/// Why a comparison cannot proceed.
#[derive(Debug, Clone, Copy, PartialEq, Eq, Structural)]
pub enum DiffError {
    /// The two images share no width or no height.
    EmptyIntersection,
    /// Exact dimensions were required and the two images differ in size.
    DimensionMismatch,
    /// The area of one block exceeds the comparison area.
    BlockSizeExceedsBounds,
}

impl DiffError {
    /// A message for a person.
    pub fn message(&self) -> (r: String)
        ensures
            *self == DiffError::EmptyIntersection ==> r@ == "Maximum width / height cannot be ZERO (0)."@,
            *self == DiffError::DimensionMismatch ==> r@
                == "'src' & 'tgt' do not have the same dimensions. (Try without 'strict' flag to check the differences)"@,
            *self == DiffError::BlockSizeExceedsBounds ==> r@
                == "block size cannot be greater than the max bound."@,
    {
        match self {
            DiffError::EmptyIntersection => String::from_str("Maximum width / height cannot be ZERO (0)."),
            DiffError::DimensionMismatch => String::from_str(
                "'src' & 'tgt' do not have the same dimensions. (Try without 'strict' flag to check the differences)",
            ),
            DiffError::BlockSizeExceedsBounds => String::from_str(
                "block size cannot be greater than the max bound.",
            ),
        }
    }
}

impl Bounds {
    /// The rectangle holds at least one pixel.
    pub open spec fn non_empty(self) -> bool {
        self.min_width < self.max_width && self.min_height < self.max_height
    }

    /// `(x, y)` lies in the rectangle.
    pub open spec fn contains(self, x: int, y: int) -> bool {
        self.min_width <= x < self.max_width && self.min_height <= y < self.max_height
    }

    /// The rectangle lies inside `outer`.
    pub open spec fn within(self, outer: Bounds) -> bool {
        &&& outer.min_width <= self.min_width
        &&& self.max_width <= outer.max_width
        &&& outer.min_height <= self.min_height
        &&& self.max_height <= outer.max_height
    }

    /// The pixel count that a percentage of this comparison area is taken of:
    /// `max_width * max_height`.
    pub open spec fn total_spec(self) -> nat {
        self.max_width as nat * self.max_height as nat
    }

    /// Creates a new Bounds.
    pub fn new(min_width: u32, max_width: u32, min_height: u32, max_height: u32) -> (r: Bounds)
        ensures
            r == (Bounds { min_width, max_width, min_height, max_height }),
    {
        Bounds { min_width, max_width, min_height, max_height }
    }

    /// `max_width * max_height`, the pixel count of a comparison area that
    /// starts at the origin.
    pub fn total(&self) -> (r: u64)
        ensures
            r == self.total_spec(),
    {
        proof {
            vstd::arithmetic::mul::lemma_mul_upper_bound(
                self.max_width as int,
                u32::MAX as int,
                self.max_height as int,
                u32::MAX as int,
            );
        }
        (self.max_width as u64) * (self.max_height as u64)
    }

    /// The largest area that both images cover, from the origin.
    pub fn get_max_bounds(src: Dimensions, tgt: Dimensions) -> (r: Result<Bounds, DiffError>)
        ensures
            r == max_bounds(src, tgt),
    {
        let Dimensions(w1, h1) = src;
        let Dimensions(w2, h2) = tgt;
        let max_width = if w1 < w2 { w1 } else { w2 };
        let max_height = if h1 < h2 { h1 } else { h2 };
        if max_width == 0 || max_height == 0 {
            return Err(DiffError::EmptyIntersection);
        }
        Ok(Bounds { min_width: 0, max_width, min_height: 0, max_height })
    }

    /// Checks that a block of `block` by `block` pixels does not exceed the
    /// comparison area `max_width * max_height`.
    pub fn check_block_size(&self, block: u32) -> (r: Result<(), DiffError>)
        ensures
            r is Ok <==> block as nat * block as nat <= self.total_spec(),
            r matches Err(e) ==> e == DiffError::BlockSizeExceedsBounds,
    {
        proof {
            vstd::arithmetic::mul::lemma_mul_upper_bound(
                block as int,
                u32::MAX as int,
                block as int,
                u32::MAX as int,
            );
        }
        let area = self.total();
        if (block as u64) * (block as u64) <= area {
            Ok(())
        } else {
            Err(DiffError::BlockSizeExceedsBounds)
        }
    }
}

impl Dimensions {
    /// Creates Dimensions from a `(width, height)` pair.
    pub fn from(d: (u32, u32)) -> (r: Dimensions)
        ensures
            r == Dimensions(d.0, d.1),
    {
        Dimensions(d.0, d.1)
    }

    /// Both width and height are equal.
    pub fn same(d1: &Dimensions, d2: &Dimensions) -> (r: bool)
        ensures
            r <==> *d1 == *d2,
    {
        d1.0 == d2.0 && d1.1 == d2.1
    }
}

/// The smaller of `a` and `b`.
pub open spec fn min_u32(a: u32, b: u32) -> u32 {
    if a < b {
        a
    } else {
        b
    }
}

/// The common comparison area of two images of sizes `src` and `tgt`: from
/// the origin to the smaller width and the smaller height, or
/// `EmptyIntersection` where either is zero.
pub open spec fn max_bounds(src: Dimensions, tgt: Dimensions) -> Result<Bounds, DiffError> {
    let w = min_u32(src.0, tgt.0);
    let h = min_u32(src.1, tgt.1);
    if w == 0 || h == 0 {
        Err(DiffError::EmptyIntersection)
    } else {
        Ok(Bounds { min_width: 0, max_width: w, min_height: 0, max_height: h })
    }
}

/// Any pair of dimensions whose smaller width or smaller height is zero has
/// no comparison area.
pub proof fn lemma_zero_overlap_is_empty(src: Dimensions, tgt: Dimensions)
    requires
        min_u32(src.0, tgt.0) == 0 || min_u32(src.1, tgt.1) == 0,
    ensures
        max_bounds(src, tgt) == Err::<Bounds, DiffError>(DiffError::EmptyIntersection),
{
}

/// The comparison area does not depend on which image is the source.
pub proof fn lemma_max_bounds_commutative(a: Dimensions, b: Dimensions)
    ensures
        max_bounds(a, b) == max_bounds(b, a),
{
}

/// A comparison area that resolves is non-empty and lies inside both images.
pub proof fn lemma_max_bounds_within(src: Dimensions, tgt: Dimensions)
    ensures
        max_bounds(src, tgt) matches Ok(b) ==> {
            &&& b.non_empty()
            &&& b.max_width <= src.0 && b.max_width <= tgt.0
            &&& b.max_height <= src.1 && b.max_height <= tgt.1
            &&& b.min_width == 0 && b.min_height == 0
        },
{
}

} // verus!
