use longstitch::stitch::{align_width, find_seam};
use longstitch::{
    choose_candidate, compose, stitch_rasters, stitch_rasters_smart, stitch_two_images,
    stitch_two_images_smart, FailureKind, OverlapRun, RasterImage, Ratio,
};
use image::{Rgba, RgbaImage};

fn to_png(img: &RgbaImage) -> Vec<u8> {
    let mut bytes = Vec::new();
    img.write_to(&mut std::io::Cursor::new(&mut bytes), image::ImageFormat::Png).unwrap();
    bytes
}

/// A colour that is distinct for each row number below 1024 and survives
/// quantization; the last byte varies along the row without changing means.
fn row_colour(row: u32, x: u32) -> Rgba<u8> {
    Rgba([((row % 32) * 8) as u8, ((row / 32) * 8) as u8, 128, (x % 7) as u8 + 200])
}

/// An image whose row `y` shows row number `first + y` of a long page.
fn page(width: u32, first: u32, height: u32) -> RgbaImage {
    RgbaImage::from_fn(width, height, |x, y| row_colour(first + y, x))
}

fn raster(img: &RgbaImage) -> RasterImage {
    RasterImage::new(img.width(), img.height(), img.as_raw().clone()).unwrap()
}

fn tenth() -> Ratio {
    Ratio::new(1, 10).unwrap()
}

#[test]
fn stitch_joins_at_the_shared_rows() {
    // The second capture repeats the last 12 rows of the first and adds 20.
    let img1 = page(30, 0, 40);
    let img2 = page(30, 28, 32);
    let out = stitch_two_images(&to_png(&img1), &to_png(&img2), 0, tenth()).unwrap();
    let composite = image::load_from_memory(&out).unwrap().to_rgba8();
    assert_eq!(composite.width(), 30);
    assert_eq!(composite.height(), 40 + 20);
    assert_eq!(composite, page(30, 0, 60));
    assert_eq!(image::guess_format(&out).unwrap(), image::ImageFormat::Png);
}

#[test]
fn stitch_without_overlap_concatenates() {
    let img1 = page(16, 0, 10);
    let img2 = page(16, 100, 7);
    let out = stitch_two_images(&to_png(&img1), &to_png(&img2), 0, tenth()).unwrap();
    let composite = image::load_from_memory(&out).unwrap().to_rgba8();
    assert_eq!(composite.height(), 17);
    let mut expected = img1.as_raw().clone();
    expected.extend_from_slice(img2.as_raw());
    assert_eq!(composite.as_raw(), &expected);
}

#[test]
fn stitch_rejects_an_overlap_that_is_too_short() {
    // Two shared rows out of twenty are less than a quarter.
    let img1 = page(8, 0, 20);
    let img2 = page(8, 18, 20);
    let quarter = Ratio::new(1, 4).unwrap();
    let joined = stitch_rasters(&raster(&img1), &raster(&img2), 0, quarter).unwrap();
    assert_eq!(joined.height, 40);
    let joined = stitch_rasters(&raster(&img1), &raster(&img2), 0, tenth()).unwrap();
    assert_eq!(joined.height, 38);
    assert_eq!(joined.pixels, page(8, 0, 38).into_raw());
}

#[test]
fn stitch_searches_only_the_tail_of_the_first_image() {
    // Rows 0..5 of the page appear at the top of the first image and in the
    // second, but the top lies outside the tail that is searched.
    let img1 = page(8, 0, 30);
    let img2 = page(8, 0, 5);
    let r1 = raster(&img1);
    let r2 = raster(&img2);
    assert_eq!(find_seam(&r1, &r2, 0, tenth()), (30, 0));
    assert_eq!(stitch_rasters(&r1, &r2, 0, tenth()).unwrap().height, 35);
    // A second image that repeats the last five rows is found there.
    let img3 = page(8, 25, 5);
    assert_eq!(find_seam(&r1, &raster(&img3), 0, tenth()), (30, 5));
    assert_eq!(stitch_rasters(&r1, &raster(&img3), 0, tenth()).unwrap().height, 30);
}

#[test]
fn stitch_can_shrink_where_the_longest_run_sits_early() {
    // First image: rows X, Y, A. Second: A, X, Y. The run X, Y beats A.
    let img1 = RgbaImage::from_fn(4, 3, |x, y| row_colour([1, 2, 3][y as usize], x));
    let img2 = RgbaImage::from_fn(4, 3, |x, y| row_colour([3, 1, 2][y as usize], x));
    let r1 = raster(&img1);
    let r2 = raster(&img2);
    assert_eq!(find_seam(&r1, &r2, 0, tenth()), (2, 3));
    let direct = stitch_rasters(&r1, &r2, 0, tenth()).unwrap();
    assert_eq!(direct.height, 2);
    // The smart strategy finds the run A, which overlaps X, Y nowhere.
    let smart = stitch_rasters_smart(&r1, &r2, 0, tenth()).unwrap();
    assert_eq!(smart.height, 5);
    assert_eq!(&smart.pixels[..48], &img1.as_raw()[..]);
    assert_eq!(&smart.pixels[48..], &img2.as_raw()[16..]);
}

#[test]
fn smart_stitch_takes_the_longest_when_all_shrink() {
    // First image: A, B, C. Second: Q, A, B. The only diverse run is A, B.
    let img1 = RgbaImage::from_fn(4, 3, |x, y| row_colour([1, 2, 3][y as usize], x));
    let img2 = RgbaImage::from_fn(4, 3, |x, y| row_colour([9, 1, 2][y as usize], x));
    let smart = stitch_rasters_smart(&raster(&img1), &raster(&img2), 0, tenth()).unwrap();
    assert_eq!(smart.height, 2);
    assert_eq!(&smart.pixels[..], &img1.as_raw()[..32]);
}

#[test]
fn smart_stitch_joins_at_the_shared_rows() {
    let img1 = page(20, 0, 50);
    let img2 = page(20, 35, 40);
    let hundredth = Ratio::new(1, 100).unwrap();
    let out = stitch_two_images_smart(&to_png(&img1), &to_png(&img2), 0, hundredth).unwrap();
    let composite = image::load_from_memory(&out).unwrap().to_rgba8();
    assert_eq!(composite.height(), 75);
    assert!(composite.height() >= img1.height());
    assert_eq!(composite, page(20, 0, 75));
}

#[test]
fn smart_stitch_reports_no_overlap() {
    let img1 = page(16, 0, 10);
    let img2 = page(16, 100, 7);
    let r = stitch_two_images_smart(&to_png(&img1), &to_png(&img2), 0, tenth());
    assert_eq!(r.unwrap_err().kind(), FailureKind::NoOverlap);
    let r = stitch_rasters_smart(&raster(&img1), &raster(&img2), 0, tenth());
    assert_eq!(r.unwrap_err().kind(), FailureKind::NoOverlap);
}

#[test]
fn stitch_reports_malformed_input() {
    let good = to_png(&page(4, 0, 4));
    let junk = [9u8, 9, 9];
    assert_eq!(
        stitch_two_images(&junk, &good, 0, tenth()).unwrap_err().kind(),
        FailureKind::Decode
    );
    assert_eq!(
        stitch_two_images(&good, &junk, 0, tenth()).unwrap_err().kind(),
        FailureKind::Decode
    );
    assert_eq!(
        stitch_two_images_smart(&good, &junk, 0, tenth()).unwrap_err().kind(),
        FailureKind::Decode
    );
}

#[test]
fn stitch_scales_the_first_image_to_the_second() {
    // Uniform rows scale to uniform rows, so the fingerprints still match.
    let img1 = RgbaImage::from_fn(20, 40, |_x, y| Rgba([((y / 2) * 8) as u8, 0, 0, 255]));
    let img2 = RgbaImage::from_fn(10, 10, |_x, y| Rgba([200, (y * 8) as u8, 0, 255]));
    let out = stitch_two_images(&to_png(&img1), &to_png(&img2), 0, tenth()).unwrap();
    let composite = image::load_from_memory(&out).unwrap().to_rgba8();
    assert_eq!(composite.width(), 10);
    // 40 * 10 / 20 rows of the first image, and all rows of the second.
    assert_eq!(composite.height(), 20 + 10);
    for y in 0..10 {
        for x in 0..10 {
            assert_eq!(composite.get_pixel(x, 20 + y), img2.get_pixel(x, y));
        }
    }
}

#[test]
fn align_width_keeps_proportions() {
    let img = raster(&RgbaImage::from_fn(30, 20, |_x, _y| Rgba([50, 60, 70, 255])));
    let same = align_width(raster(&page(30, 0, 20)), 30).unwrap();
    assert_eq!(same.pixels, page(30, 0, 20).into_raw());
    let scaled = align_width(img, 45).unwrap();
    assert_eq!((scaled.width, scaled.height), (45, 30));
    assert_eq!(scaled.pixels.len(), 45 * 30 * 4);
    assert_eq!(&scaled.pixels[..4], &[50, 60, 70, 255]);
    // 7 * 10 / 4 = 17, rounded down.
    let img = raster(&RgbaImage::from_fn(4, 7, |_x, _y| Rgba([1, 2, 3, 255])));
    let scaled = align_width(img, 10).unwrap();
    assert_eq!((scaled.width, scaled.height), (10, 17));
    let empty = RasterImage::new(0, 5, vec![]).unwrap();
    assert_eq!(align_width(empty, 3).unwrap_err().kind(), FailureKind::EmptyImage);
}

#[test]
fn compose_copies_rows_as_they_are() {
    let a = RasterImage::new(1, 3, vec![1, 1, 1, 1, 2, 2, 2, 2, 3, 3, 3, 3]).unwrap();
    let b = RasterImage::new(1, 2, vec![7, 7, 7, 7, 8, 8, 8, 8]).unwrap();
    let out = compose(&a, &b, 2, 1).unwrap();
    assert_eq!((out.width, out.height), (1, 3));
    assert_eq!(out.pixels, vec![1, 1, 1, 1, 2, 2, 2, 2, 8, 8, 8, 8]);
    let out = compose(&a, &b, 3, 0).unwrap();
    assert_eq!(out.height, 5);
    // Skipping more rows than the second image has leaves none of it.
    let out = compose(&a, &b, 1, 9).unwrap();
    assert_eq!(out.pixels, vec![1, 1, 1, 1]);
    let out = compose(&a, &b, 0, 2).unwrap();
    assert_eq!((out.height, out.pixels.len()), (0, 0));
}

#[test]
fn candidate_choice_avoids_shrinking() {
    let early = OverlapRun { start1: 0, start2: 1, length: 4 };
    let late = OverlapRun { start1: 7, start2: 0, length: 3 };
    // First image of 10 rows, second of 10, whole first image searched.
    // early: 4 + (10 - 5) = 9 rows; late: 10 + (10 - 3) = 17 rows.
    assert_eq!(choose_candidate(&vec![early, late], 0, 10, 10), Some(late));
    assert_eq!(choose_candidate(&vec![late, early], 0, 10, 10), Some(late));
    assert_eq!(choose_candidate(&vec![early], 0, 10, 10), Some(early));
    let tiny = OverlapRun { start1: 0, start2: 9, length: 1 };
    assert_eq!(choose_candidate(&vec![early, tiny], 0, 10, 10), Some(early));
    assert_eq!(choose_candidate(&vec![], 0, 10, 10), None);
    // With an offset of one, early gives exactly ten rows and is accepted.
    assert_eq!(choose_candidate(&vec![early, late], 1, 10, 10), Some(early));
}

#[test]
fn default_ratios() {
    let direct = longstitch::stitch::default_overlap_ratio();
    assert_eq!((direct.numer(), direct.denom()), (1, 10));
    let smart = longstitch::stitch::default_smart_overlap_ratio();
    assert_eq!((smart.numer(), smart.denom()), (1, 100));
    assert_eq!(longstitch::stitch::DEFAULT_IGNORE_RIGHT_PIXELS, 20);
    assert_eq!(longstitch::stitch::SMART_CANDIDATES, 5);
    assert_eq!(longstitch::hashing::DEFAULT_HASH_SIZE, 8);
}

#[test]
fn oversize_results_are_refused() {
    // Rasters without columns hold no bytes, whatever their height.
    let tall = RasterImage::new(0, u32::MAX, vec![]).unwrap();
    let one = RasterImage::new(0, 1, vec![]).unwrap();
    assert_eq!(compose(&tall, &one, u32::MAX, 0).unwrap_err().kind(), FailureKind::Oversize);
    assert_eq!(compose(&tall, &one, u32::MAX - 1, 0).unwrap().height, u32::MAX);
    assert_eq!(compose(&tall, &one, u32::MAX, 1).unwrap().height, u32::MAX);
    // Scaling one pixel to the largest width asks for more bytes than fit.
    let dot = RasterImage::new(1, 1, vec![1, 2, 3, 4]).unwrap();
    assert_eq!(align_width(dot, u32::MAX).unwrap_err().kind(), FailureKind::Oversize);
}

#[test]
fn failures_describe_themselves() {
    let img1 = page(16, 0, 10);
    let img2 = page(16, 100, 7);
    let failure = stitch_rasters_smart(&raster(&img1), &raster(&img2), 0, tenth()).unwrap_err();
    assert_eq!(failure.message(), "No overlap found");
    let failure = stitch_two_images(&[0u8; 4], &to_png(&img2), 0, tenth()).unwrap_err();
    assert_eq!(failure.kind(), FailureKind::Decode);
    assert!(!failure.message().is_empty());
    let empty = RasterImage::new(0, 5, vec![]).unwrap();
    assert_eq!(align_width(empty, 3).unwrap_err().message(), "Image has no pixels");
    let dot = RasterImage::new(1, 1, vec![1, 2, 3, 4]).unwrap();
    assert_eq!(align_width(dot, u32::MAX).unwrap_err().message(), "Image is too large");
}
