use idiff::compare::{compare, run_comparison};
use idiff::geometry::{Bounds, DiffError, Dimensions};
use idiff::highlight::{highlight, highlighted_copy};
use idiff::raster::Image;
use idiff::scan::{percentage_difference, pixel_difference, Difference};

const RED: (u8, u8, u8, u8) = (255, 0, 0, 255);
const GREY: (u8, u8, u8, u8) = (10, 10, 10, 255);

/// An all-zero image, as `ImageBuffer::new` makes one.
fn blank(width: u32, height: u32) -> Image {
    Image::from_rgba(width, height, vec![0u8; (width * height * 4) as usize]).unwrap()
}

fn percentage(d: &Difference) -> f64 {
    (d.differing_pixels as f64 / d.total_pixels as f64) * 100.0
}

#[test]
fn should_return_true_for_matching_dimensions() {
    let src = Dimensions(1, 1);
    let tgt = Dimensions(1, 1);

    assert!(Dimensions::same(&src, &tgt));
}

#[test]
fn should_return_false_for_mismatching_dimensions() {
    let src = Dimensions(0, 0);
    let tgt = Dimensions(1, 1);

    assert!(!Dimensions::same(&src, &tgt));
}

#[test]
fn should_return_zero_for_matching_images() {
    let src = blank(100, 100);
    let tgt = blank(100, 100);
    let bounds = Bounds::new(0, 100, 0, 100);

    assert_eq!(0, pixel_difference(&src, &tgt, &bounds));
}

#[test]
fn should_return_non_zero_value_for_mismatching_images() {
    let src = blank(100, 100);

    let mut tgt = blank(100, 100);
    tgt.put_pixel(10, 10, GREY);
    tgt.put_pixel(20, 20, GREY);

    let bounds = Bounds::new(0, 100, 0, 100);

    assert_eq!(2, pixel_difference(&src, &tgt, &bounds));
}

#[test]
fn should_return_ok_for_non_zero_bounds() {
    let src = Dimensions::from((10, 100));
    let tgt = Dimensions::from((100, 10));

    assert_eq!(
        Ok(Bounds::new(0, 10, 0, 10)),
        Bounds::get_max_bounds(src, tgt)
    );
}

#[test]
fn should_return_err_for_zero_bounds() {
    let src = Dimensions::from((0, 0));
    let tgt = Dimensions::from((1, 1));

    assert_eq!(
        Err(String::from("Maximum width / height cannot be ZERO (0).")),
        Bounds::get_max_bounds(src, tgt).map_err(|e| e.message())
    );
}

#[test]
fn should_return_zero_value_tuple_when_differences_are_observed() {
    let src = blank(100, 100);
    let tgt = blank(100, 100);

    let bounds = Bounds::new(0, 20, 0, 20);

    let d = percentage_difference(&src, &tgt, &bounds, 10);

    assert_eq!(0.0, percentage(&d));
    assert_eq!(Vec::<Bounds>::new(), d.blocks);
}

#[test]
fn should_return_non_zero_tuple_when_differences_are_observed() {
    let src = blank(100, 100);

    let mut tgt = blank(100, 100);
    tgt.put_pixel(15, 15, GREY);
    tgt.put_pixel(55, 55, GREY);

    let bounds = Bounds::new(0, 20, 0, 20);

    let d = percentage_difference(&src, &tgt, &bounds, 10);

    assert_eq!(0.25, percentage(&d));
    assert_eq!(vec![Bounds::new(10, 20, 10, 20)], d.blocks);
}

#[test]
fn should_highlight_only_the_specified_bounds() {
    let img = blank(100, 100);

    let mut img_clone1 = img.copy();
    let bounds = vec![Bounds::new(10, 20, 10, 20), Bounds::new(50, 60, 50, 60)];
    highlight(&mut img_clone1, bounds);

    let mut img_clone2 = img.copy();
    for i in 10..20 {
        img_clone2.put_pixel(i, 10, RED);
        img_clone2.put_pixel(i, 19, RED);
        img_clone2.put_pixel(10, i, RED);
        img_clone2.put_pixel(19, i, RED);
    }
    for i in 50..60 {
        img_clone2.put_pixel(i, 50, RED);
        img_clone2.put_pixel(i, 59, RED);
        img_clone2.put_pixel(50, i, RED);
        img_clone2.put_pixel(59, i, RED);
    }

    let highlighted = img_clone1.into_rgba();
    assert_ne!(img.into_rgba(), highlighted);
    assert_eq!(img_clone2.into_rgba(), highlighted);
}

#[test]
fn full_scan_of_two_differing_pixels_is_two_hundredths_of_a_percent() {
    let src = blank(100, 100);
    let mut tgt = blank(100, 100);
    tgt.put_pixel(10, 10, GREY);
    tgt.put_pixel(20, 20, GREY);

    let d = percentage_difference(&src, &tgt, &Bounds::new(0, 100, 0, 100), 10);

    assert_eq!(2, d.differing_pixels);
    assert_eq!(10000, d.total_pixels);
    assert_eq!(0.02, percentage(&d));
    assert_eq!(
        vec![Bounds::new(10, 20, 10, 20), Bounds::new(20, 30, 20, 30)],
        d.blocks
    );
}

#[test]
fn identical_images_have_no_difference_for_any_block_size() {
    let mut src = blank(23, 17);
    for i in 0..17 {
        src.put_pixel(i, i, GREY);
    }
    let tgt = src.copy();
    let bounds = Bounds::new(0, 23, 0, 17);
    for block in [1, 3, 4, 10, 17] {
        let d = percentage_difference(&src, &tgt, &bounds, block);
        assert_eq!(0, d.differing_pixels);
        assert_eq!(0.0, percentage(&d));
        assert!(d.blocks.is_empty());
    }
}

#[test]
fn max_bounds_do_not_depend_on_the_order_of_the_images() {
    let a = Dimensions(10, 100);
    let b = Dimensions(100, 10);
    assert_eq!(Bounds::get_max_bounds(a, b), Bounds::get_max_bounds(b, a));
    let c = Dimensions(0, 7);
    assert_eq!(
        Err(DiffError::EmptyIntersection),
        Bounds::get_max_bounds(c, b)
    );
    assert_eq!(
        Err(DiffError::EmptyIntersection),
        Bounds::get_max_bounds(b, c)
    );
    assert_eq!(
        Err(DiffError::EmptyIntersection),
        Bounds::get_max_bounds(Dimensions(5, 3), Dimensions(4, 0))
    );
}

#[test]
fn fringe_blocks_are_clipped_to_the_bounds() {
    let src = blank(30, 30);
    let mut tgt = blank(30, 30);
    // one differing pixel in each block of a 25 by 15 area scanned in tens
    for (x, y) in [(0, 0), (12, 3), (24, 9), (5, 14), (19, 10), (22, 14)] {
        tgt.put_pixel(x, y, GREY);
    }
    // and one outside the area
    tgt.put_pixel(27, 27, GREY);

    let d = percentage_difference(&src, &tgt, &Bounds::new(0, 25, 0, 15), 10);

    assert_eq!(6, d.differing_pixels);
    assert_eq!(375, d.total_pixels);
    assert_eq!(
        vec![
            Bounds::new(0, 10, 0, 10),
            Bounds::new(10, 20, 0, 10),
            Bounds::new(20, 25, 0, 10),
            Bounds::new(0, 10, 10, 15),
            Bounds::new(10, 20, 10, 15),
            Bounds::new(20, 25, 10, 15),
        ],
        d.blocks
    );
}

#[test]
fn a_block_as_large_as_the_bounds_gives_one_block() {
    let src = blank(10, 10);
    let mut tgt = blank(10, 10);
    tgt.put_pixel(9, 9, GREY);
    let d = percentage_difference(&src, &tgt, &Bounds::new(0, 10, 0, 10), 10);
    assert_eq!(vec![Bounds::new(0, 10, 0, 10)], d.blocks);
    assert_eq!(1.0, percentage(&d));
}

#[test]
fn one_pixel_bounds_and_block() {
    let src = blank(1, 1);
    let mut tgt = blank(1, 1);
    tgt.put_pixel(0, 0, GREY);
    let d = percentage_difference(&src, &tgt, &Bounds::new(0, 1, 0, 1), 1);
    assert_eq!(vec![Bounds::new(0, 1, 0, 1)], d.blocks);
    assert_eq!(100.0, percentage(&d));

    let mut out = tgt.copy();
    highlight(&mut out, d.blocks);
    assert_eq!(RED, out.get_pixel(0, 0));
}

#[test]
fn scan_counts_only_inside_the_bounds_from_a_non_zero_origin() {
    let src = blank(40, 40);
    let mut tgt = blank(40, 40);
    tgt.put_pixel(5, 5, GREY);
    tgt.put_pixel(12, 31, GREY);
    let d = percentage_difference(&src, &tgt, &Bounds::new(10, 20, 30, 40), 4);
    assert_eq!(1, d.differing_pixels);
    assert_eq!(800, d.total_pixels);
    assert_eq!(vec![Bounds::new(10, 14, 30, 34)], d.blocks);
}

#[test]
fn highlighting_twice_changes_nothing() {
    let mut img = blank(30, 30);
    img.put_pixel(3, 3, GREY);
    img.put_pixel(15, 15, GREY);
    let blocks = vec![Bounds::new(0, 10, 0, 10), Bounds::new(5, 20, 5, 20)];
    let once = highlighted_copy(&img, blocks.clone());
    let twice = highlighted_copy(&once, blocks);
    assert_eq!(once.into_rgba(), twice.into_rgba());
}

#[test]
fn highlighted_copy_leaves_the_target_untouched() {
    let mut tgt = blank(20, 20);
    tgt.put_pixel(15, 15, GREY);
    let before = tgt.copy().into_rgba();
    let out = highlighted_copy(&tgt, vec![Bounds::new(10, 20, 10, 20)]);
    assert_eq!(before, tgt.copy().into_rgba());
    assert_eq!(RED, out.get_pixel(10, 12));
    assert_eq!(RED, out.get_pixel(19, 19));
    assert_eq!(GREY, out.get_pixel(15, 15));
    assert_eq!((0, 0, 0, 0), out.get_pixel(11, 11));
    assert_eq!((0, 0, 0, 0), out.get_pixel(9, 12));
}

#[test]
fn image_round_trips_through_raw_bytes() {
    let data: Vec<u8> = (0..24u8).collect();
    let img = Image::from_rgba(3, 2, data.clone()).unwrap();
    assert_eq!((3, 2), img.dimensions());
    assert_eq!((4, 5, 6, 7), img.get_pixel(1, 0));
    assert_eq!((20, 21, 22, 23), img.get_pixel(2, 1));
    assert_eq!(data, img.into_rgba());
    assert!(Image::from_rgba(3, 2, vec![0u8; 23]).is_none());
}

#[test]
fn compare_reports_each_error() {
    let a = blank(10, 10);
    let b = blank(10, 12);
    let empty = blank(0, 5);
    assert_eq!(
        Some(DiffError::DimensionMismatch),
        compare(&a, &b, true, 2).err()
    );
    assert_eq!(
        Some(DiffError::EmptyIntersection),
        compare(&a, &empty, false, 2).err()
    );
    assert_eq!(
        Some(DiffError::BlockSizeExceedsBounds),
        compare(&a, &b, false, 11).err()
    );
    assert_eq!(
        Err(DiffError::BlockSizeExceedsBounds),
        Bounds::new(0, 10, 0, 10).check_block_size(11)
    );
    assert_eq!(Ok(()), Bounds::new(0, 10, 0, 10).check_block_size(10));
}

#[test]
fn compare_scans_the_common_area() {
    let a = blank(10, 20);
    let mut b = blank(30, 8);
    b.put_pixel(7, 7, GREY);
    b.put_pixel(25, 2, GREY);
    let (bounds, d) = compare(&a, &b, false, 5).ok().unwrap();
    assert_eq!(Bounds::new(0, 10, 0, 8), bounds);
    assert_eq!(1, d.differing_pixels);
    assert_eq!(80, d.total_pixels);
    assert_eq!(vec![Bounds::new(5, 10, 5, 8)], d.blocks);
}

#[test]
fn error_messages() {
    assert_eq!(
        "Maximum width / height cannot be ZERO (0).",
        DiffError::EmptyIntersection.message()
    );
    assert!(DiffError::DimensionMismatch.message().contains("same dimensions"));
    assert!(DiffError::BlockSizeExceedsBounds.message().contains("block size"));
}

#[test]
fn run_comparison_annotates_only_when_asked_and_different() {
    let src = blank(20, 20);
    let mut tgt = blank(20, 20);
    tgt.put_pixel(3, 14, GREY);

    let plain = run_comparison(&src, &tgt, true, 10, false).ok().unwrap();
    assert!(plain.annotated.is_none());
    assert_eq!(1, plain.difference.differing_pixels);

    let same = run_comparison(&src, &src, true, 10, true).ok().unwrap();
    assert!(same.annotated.is_none());
    assert_eq!(0, same.difference.differing_pixels);

    let marked = run_comparison(&src, &tgt, true, 10, true).ok().unwrap();
    assert_eq!(Bounds::new(0, 20, 0, 20), marked.bounds);
    assert_eq!(vec![Bounds::new(0, 10, 10, 20)], marked.difference.blocks);
    let img = marked.annotated.unwrap();
    assert_eq!(RED, img.get_pixel(0, 10));
    assert_eq!(RED, img.get_pixel(9, 19));
    assert_eq!(RED, img.get_pixel(5, 19));
    assert_eq!(GREY, img.get_pixel(3, 14));
    assert_eq!((0, 0, 0, 0), img.get_pixel(10, 10));
    assert_eq!((0, 0, 0, 0), tgt.get_pixel(0, 10));

    assert_eq!(
        Some(DiffError::DimensionMismatch),
        run_comparison(&src, &blank(20, 21), true, 10, true).err()
    );
}
