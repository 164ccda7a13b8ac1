use longstitch::hashing::{average_hash, difference_hash};
use longstitch::row_hash::row_hashes;
use longstitch::{
    compute_ahash, compute_dhash, compute_row_hashes, hamming_distance, FailureKind, RasterImage,
};
use image::{Rgba, RgbaImage};

fn encode(img: &RgbaImage) -> Vec<u8> {
    let mut bytes = Vec::new();
    img.write_to(&mut std::io::Cursor::new(&mut bytes), image::ImageFormat::Png).unwrap();
    bytes
}

fn mixed(r: u64, g: u64, b: u64) -> u64 {
    r * 73856093 + g * 19349663 + b * 83492791
}

#[test]
fn test_dhash_identical_images() {
    let img = RgbaImage::from_fn(64, 64, |x, y| {
        Rgba([(x * 4) as u8, (y * 4) as u8, ((x + y) * 2) as u8, 255])
    });
    let bytes1 = encode(&img);

    let hash1 = compute_dhash(&bytes1, 8).unwrap();
    let hash2 = compute_dhash(&bytes1, 8).unwrap();

    assert_eq!(hash1, hash2);
    assert_eq!(hamming_distance(hash1, hash2), 0);
}

#[test]
fn test_row_hashes() {
    let img = RgbaImage::from_fn(100, 50, |_x, y| {
        Rgba([(y * 5) as u8, (y * 5) as u8, (y * 5) as u8, 255])
    });
    let bytes = encode(&img);

    let hashes = compute_row_hashes(&bytes, 0).unwrap();
    assert_eq!(hashes.len(), 50);

    assert_eq!(hashes[0], hashes[0]);
}

#[test]
fn row_hash_has_exact_value() {
    let img = RgbaImage::from_fn(10, 3, |_x, y| Rgba([10 + y as u8 * 20, 100, 255, 255]));
    let hashes = compute_row_hashes(&encode(&img), 0).unwrap();
    assert_eq!(hashes, vec![mixed(8, 96, 248), mixed(24, 96, 248), mixed(48, 96, 248)]);
    assert_eq!(mixed(8, 8, 8), 1413588376);
}

#[test]
fn row_hash_ignores_right_margin() {
    // Eight columns of one colour, two columns of another on the right.
    let img = RgbaImage::from_fn(10, 2, |x, _y| {
        if x < 8 { Rgba([40, 80, 120, 255]) } else { Rgba([255, 255, 255, 255]) }
    });
    let bytes = encode(&img);
    let trimmed = compute_row_hashes(&bytes, 2).unwrap();
    assert_eq!(trimmed, vec![mixed(40, 80, 120), mixed(40, 80, 120)]);
    // (8 * 40 + 2 * 255) / 10 = 83, (8 * 80 + 510) / 10 = 115, (8 * 120 + 510) / 10 = 147.
    let full = compute_row_hashes(&bytes, 0).unwrap();
    assert_eq!(full, vec![mixed(80, 112, 144), mixed(80, 112, 144)]);
    // A margin as wide as the image, or wider, is not applied.
    assert_eq!(compute_row_hashes(&bytes, 10).unwrap(), full);
    assert_eq!(compute_row_hashes(&bytes, 11).unwrap(), full);
    assert_eq!(compute_row_hashes(&bytes, 9).unwrap(), vec![mixed(40, 80, 120); 2]);
}

#[test]
fn row_hash_absorbs_noise_within_a_step() {
    let img = RgbaImage::from_fn(4, 4, |_x, y| match y {
        0 => Rgba([8, 16, 24, 255]),
        1 => Rgba([15, 23, 31, 255]),
        2 => Rgba([7, 16, 24, 255]),
        _ => Rgba([8, 16, 24, 0]),
    });
    let hashes = compute_row_hashes(&encode(&img), 0).unwrap();
    assert_eq!(hashes[0], hashes[1]);
    // One level below the step the red mean rounds to zero.
    assert_ne!(hashes[0], hashes[2]);
    assert_eq!(hashes[2], mixed(0, 16, 24));
    // Alpha plays no part.
    assert_eq!(hashes[0], hashes[3]);
}

#[test]
fn row_hashes_of_a_raster() {
    let pixels = vec![1, 2, 3, 255, 17, 34, 51, 255, 100, 100, 100, 255, 200, 200, 200, 255];
    let img = RasterImage::new(2, 2, pixels).unwrap();
    assert_eq!(row_hashes(&img, 0), vec![mixed(8, 16, 24), mixed(144, 144, 144)]);
    assert_eq!(row_hashes(&img, 1), vec![mixed(0, 0, 0), mixed(96, 96, 96)]);
    let empty = RasterImage::new(0, 3, vec![]).unwrap();
    assert_eq!(row_hashes(&empty, 0), vec![0, 0, 0]);
}

#[test]
fn re_encoding_keeps_the_fingerprints() {
    let img = RgbaImage::from_fn(48, 40, |x, y| {
        Rgba([(x * 5) as u8, (y * 6) as u8, ((x * y) % 256) as u8, 255])
    });
    let png = encode(&img);
    let mut bmp = Vec::new();
    img.write_to(&mut std::io::Cursor::new(&mut bmp), image::ImageFormat::Bmp).unwrap();
    assert_ne!(png, bmp);
    assert_eq!(compute_row_hashes(&png, 20).unwrap(), compute_row_hashes(&bmp, 20).unwrap());
    assert_eq!(compute_dhash(&png, 8).unwrap(), compute_dhash(&bmp, 8).unwrap());
    assert_eq!(compute_ahash(&png, 8).unwrap(), compute_ahash(&bmp, 8).unwrap());
}

#[test]
fn malformed_bytes_fail_to_decode() {
    let junk = [1u8, 2, 3, 4, 5];
    assert_eq!(compute_dhash(&junk, 8).unwrap_err().kind(), FailureKind::Decode);
    assert_eq!(compute_ahash(&junk, 8).unwrap_err().kind(), FailureKind::Decode);
    assert_eq!(compute_row_hashes(&junk, 0).unwrap_err().kind(), FailureKind::Decode);
    assert_eq!(compute_row_hashes(&[], 0).unwrap_err().kind(), FailureKind::Decode);
}

#[test]
fn dhash_of_gradients() {
    // Brightness grows to the right: every pixel is darker than its right neighbour.
    let rising = RgbaImage::from_fn(64, 64, |x, _y| {
        Rgba([(x * 4) as u8, (x * 4) as u8, (x * 4) as u8, 255])
    });
    assert_eq!(compute_dhash(&encode(&rising), 8).unwrap(), u64::MAX);
    let falling = RgbaImage::from_fn(64, 64, |x, _y| {
        Rgba([255 - (x * 4) as u8, 255 - (x * 4) as u8, 255 - (x * 4) as u8, 255])
    });
    assert_eq!(compute_dhash(&encode(&falling), 8).unwrap(), 0);
    assert_eq!(hamming_distance(u64::MAX, 0), 64);
    // With four bits per side only sixteen bits are used.
    assert_eq!(compute_dhash(&encode(&rising), 4).unwrap(), 0xffff);
}

#[test]
fn ahash_of_two_halves() {
    let img = RgbaImage::from_fn(64, 64, |x, _y| {
        if x < 32 { Rgba([0, 0, 0, 255]) } else { Rgba([255, 255, 255, 255]) }
    });
    assert_eq!(compute_ahash(&encode(&img), 8).unwrap(), 0xf0f0_f0f0_f0f0_f0f0);
    let flat = RgbaImage::from_fn(16, 16, |_x, _y| Rgba([90, 90, 90, 255]));
    assert_eq!(compute_ahash(&encode(&flat), 8).unwrap(), u64::MAX);
    assert_eq!(compute_dhash(&encode(&flat), 8).unwrap(), 0);
}

#[test]
fn ahash_goes_by_luminance() {
    // Green is bright, blue is dark, though neither has any red.
    let img = RgbaImage::from_fn(64, 64, |x, _y| {
        if x < 32 { Rgba([0, 255, 0, 255]) } else { Rgba([0, 0, 255, 255]) }
    });
    assert_eq!(compute_ahash(&encode(&img), 8).unwrap(), 0x0f0f_0f0f_0f0f_0f0f);
}

#[test]
fn hashes_read_off_a_thumbnail() {
    // Three by two pixels, grey values in the first channel.
    let values: [u8; 6] = [10, 20, 20, 30, 5, 6];
    let mut pixels = Vec::new();
    for v in values {
        pixels.extend_from_slice(&[v, v, v, 255]);
    }
    let thumb = RasterImage::new(3, 2, pixels).unwrap();
    // Row 0: 10 < 20 sets bit 0, 20 < 20 does not set bit 1.
    // Row 1: 30 < 5 does not set bit 2, 5 < 6 sets bit 3.
    assert_eq!(difference_hash(&thumb, 2), 0b1001);

    let values: [u8; 4] = [10, 20, 30, 40];
    let mut pixels = Vec::new();
    for v in values {
        pixels.extend_from_slice(&[v, v, v, 255]);
    }
    let thumb = RasterImage::new(2, 2, pixels).unwrap();
    // The mean is 25: pixels 2 and 3 reach it.
    assert_eq!(average_hash(&thumb, 2), 0b1100);
}

#[test]
fn hamming_distance_counts_differing_bits() {
    assert_eq!(hamming_distance(0b1011, 0b0001), 2);
    assert_eq!(hamming_distance(0b0001, 0b1011), 2);
    assert_eq!(hamming_distance(0, 0), 0);
    assert_eq!(hamming_distance(0xdead_beef, 0xdead_beef), 0);
    assert_eq!(hamming_distance(1 << 63, 0), 1);
    assert_eq!(hamming_distance(u64::MAX, 0x0f0f_0f0f_0f0f_0f0f), 32);
}

#[test]
fn raster_checks_its_length() {
    assert!(RasterImage::new(2, 2, vec![0; 16]).is_some());
    assert!(RasterImage::new(2, 2, vec![0; 15]).is_none());
    assert!(RasterImage::new(0, 5, vec![]).is_some());
    let img = RasterImage::new(2, 1, vec![1, 2, 3, 4, 5, 6, 7, 8]).unwrap();
    assert_eq!(img.get(1, 0, 2), 7);
    assert_eq!(img.get(0, 0, 3), 4);
}

#[test]
fn batch_hashing_reports_each_image() {
    let rising = RgbaImage::from_fn(64, 64, |x, _y| {
        Rgba([(x * 4) as u8, (x * 4) as u8, (x * 4) as u8, 255])
    });
    let halves = RgbaImage::from_fn(64, 64, |x, _y| {
        if x < 32 { Rgba([0, 0, 0, 255]) } else { Rgba([255, 255, 255, 255]) }
    });
    let list = vec![encode(&rising), vec![1, 2, 3], encode(&halves)];
    let out = longstitch::hashing::batch_compute_hash(
        &list,
        longstitch::hashing::HashMethod::Difference,
        8,
    );
    assert_eq!(out.len(), 3);
    assert_eq!(*out[0].as_ref().unwrap(), u64::MAX);
    assert_eq!(out[1].as_ref().unwrap_err().kind(), FailureKind::Decode);
    assert_eq!(*out[2].as_ref().unwrap(), compute_dhash(&list[2], 8).unwrap());
    let out = longstitch::hashing::batch_compute_hash(
        &list,
        longstitch::hashing::HashMethod::Average,
        8,
    );
    assert_eq!(*out[2].as_ref().unwrap(), 0xf0f0_f0f0_f0f0_f0f0);
    assert!(out[1].is_err());
    assert!(longstitch::hashing::batch_compute_hash(
        &Vec::new(),
        longstitch::hashing::HashMethod::Average,
        8
    )
    .is_empty());
}

#[test]
fn hashing_a_raster_without_pixels_fails() {
    let empty = RasterImage::new(0, 4, vec![]).unwrap();
    let r = longstitch::hashing::hash_raster(longstitch::hashing::HashMethod::Difference, &empty, 8);
    assert_eq!(r.unwrap_err().kind(), FailureKind::EmptyImage);
    let one = RasterImage::new(1, 1, vec![9, 9, 9, 255]).unwrap();
    let r = longstitch::hashing::hash_raster(longstitch::hashing::HashMethod::Average, &one, 8);
    assert_eq!(r.unwrap(), u64::MAX);
}
