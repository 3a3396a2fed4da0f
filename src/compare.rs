//! A whole comparison run: the strict size check, the comparison area, the
//! block size check, and the scan.
use crate::geometry::{max_bounds, Bounds, DiffError, Dimensions};
use crate::raster::{image_height, image_width, Image};
use crate::highlight::{drawable, highlighted, highlighted_copy};
use crate::scan::{
    bounds_count,
    differing_blocks,
    lemma_differing_blocks_in_grid,
    percentage_difference,
    readable,
    Difference,
};
use vstd::prelude::*;

verus! {

/// The size of an image.
pub open spec fn dims_of(img: Image) -> Dimensions {
    Dimensions(image_width(img), image_height(img))
}

/// The comparison area that a run compares, or the error that stops it: a
/// size mismatch in strict mode, then an empty intersection, then a block
/// whose area exceeds the comparison area.
pub open spec fn comparison_area(src: Image, tgt: Image, strict: bool, block: u32) -> Result<
    Bounds,
    DiffError,
> {
    if strict && dims_of(src) != dims_of(tgt) {
        Err(DiffError::DimensionMismatch)
    } else {
        match max_bounds(dims_of(src), dims_of(tgt)) {
            Err(e) => Err(e),
            Ok(b) => if block as nat * block as nat > b.total_spec() {
                Err(DiffError::BlockSizeExceedsBounds)
            } else {
                Ok(b)
            },
        }
    }
}

/// `d` is what a scan of `b` in blocks of `block` pixels reports.
pub open spec fn scan_of(src: Image, tgt: Image, b: Bounds, block: u32, d: Difference) -> bool {
    &&& d.differing_pixels == bounds_count(src, tgt, b)
    &&& d.total_pixels == b.total_spec()
    &&& d.blocks@ == differing_blocks(src, tgt, b, block as int)
}

/// Compares `src` with `tgt` in blocks of `block` by `block` pixels over the
/// area that both cover; in strict mode the two must have the same size.
/// Returns the comparison area and what the scan found there.
pub fn compare(src: &Image, tgt: &Image, strict: bool, block: u32) -> (r: Result<
    (Bounds, Difference),
    DiffError,
>)
    requires
        block > 0,
    ensures
        r is Ok <==> comparison_area(*src, *tgt, strict, block) is Ok,
        r matches Err(e) ==> comparison_area(*src, *tgt, strict, block) == Err::<Bounds, DiffError>(
            e,
        ),
        r matches Ok((b, d)) ==> {
            &&& comparison_area(*src, *tgt, strict, block) == Ok::<Bounds, DiffError>(b)
            &&& scan_of(*src, *tgt, b, block, d)
            &&& forall|i: int| 0 <= i < d.blocks@.len() ==> drawable(*tgt, #[trigger] d.blocks@[i])
        },
{
    let (sw, sh) = src.dimensions();
    let (tw, th) = tgt.dimensions();
    let src_dims = Dimensions::from((sw, sh));
    let tgt_dims = Dimensions::from((tw, th));
    if strict && !Dimensions::same(&src_dims, &tgt_dims) {
        return Err(DiffError::DimensionMismatch);
    }
    let bounds = match Bounds::get_max_bounds(src_dims, tgt_dims) {
        Ok(b) => b,
        Err(e) => return Err(e),
    };
    match bounds.check_block_size(block) {
        Ok(()) => {},
        Err(e) => return Err(e),
    }
    assert(readable(*src, *tgt, bounds));
    let d = percentage_difference(src, tgt, &bounds, block);
    proof {
        lemma_differing_blocks_in_grid(*src, *tgt, bounds, block as int);
        assert forall|i: int| 0 <= i < d.blocks@.len() implies drawable(
            *tgt,
            #[trigger] d.blocks@[i],
        ) by {
            assert(d.blocks@[i].within(bounds));
        }
    }
    Ok((bounds, d))
}

/// What a run produces: the comparison area, what the scan found there, and
/// the annotated copy of the target where one was asked for and a pixel
/// differs.
pub struct Outcome {
    pub bounds: Bounds,
    pub difference: Difference,
    pub annotated: Option<Image>,
}

/// Compares `src` with `tgt` as `compare` does; where `highlight` is set and
/// some pixel differs, also outlines each differing block in opaque red on a
/// copy of `tgt`.
pub fn run_comparison(src: &Image, tgt: &Image, strict: bool, block: u32, highlight: bool) -> (r:
    Result<Outcome, DiffError>)
    requires
        block > 0,
    ensures
        r is Ok <==> comparison_area(*src, *tgt, strict, block) is Ok,
        r matches Err(e) ==> comparison_area(*src, *tgt, strict, block) == Err::<Bounds, DiffError>(
            e,
        ),
        r matches Ok(o) ==> {
            &&& comparison_area(*src, *tgt, strict, block) == Ok::<Bounds, DiffError>(o.bounds)
            &&& scan_of(*src, *tgt, o.bounds, block, o.difference)
            &&& (o.annotated is Some <==> highlight && o.difference.differing_pixels > 0)
            &&& o.annotated matches Some(img) ==> highlighted(*tgt, o.difference.blocks@, img)
        },
{
    let (bounds, difference) = match compare(src, tgt, strict, block) {
        Ok(found) => found,
        Err(e) => return Err(e),
    };
    if !highlight || difference.differing_pixels == 0 {
        return Ok(Outcome { bounds, difference, annotated: None });
    }
    let mut blocks: Vec<Bounds> = Vec::new();
    let mut i: usize = 0;
    while i < difference.blocks.len()
        invariant
            i <= difference.blocks@.len(),
            blocks@ == difference.blocks@.take(i as int),
        decreases difference.blocks@.len() - i,
    {
        blocks.push(difference.blocks[i]);
        i = i + 1;
        assert(blocks@ =~= difference.blocks@.take(i as int));
    }
    assert(blocks@ =~= difference.blocks@);
    let annotated = highlighted_copy(tgt, blocks);
    Ok(Outcome { bounds, difference, annotated: Some(annotated) })
}

} // verus!
