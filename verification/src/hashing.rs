//! Whole-image fingerprints of 64 bits, and the distance between two of them.

use vstd::prelude::*;
use crate::raster::{RasterImage, Failure, FailureKind};
use crate::codec::{
    decoded_rgba, decode_rgba, gray_pixels, grayscale, resample, resampled, resample_fits,
    fits_resample, ResampleFilter,
};

verus! {

/// Number of the lowest `n` bits of `x` that are set.
pub open spec fn bits_set(x: u64, n: nat) -> nat
    decreases n,
{
    if n == 0 {
        0
    } else {
        bits_set(x, (n - 1) as nat) + if (x >> ((n - 1) as u64)) & 1 == 1 {
            1nat
        } else {
            0nat
        }
    }
}

/// Number of bit positions in which two fingerprints differ.
pub open spec fn hamming(a: u64, b: u64) -> nat {
    bits_set(a ^ b, 64)
}

/// Bit `i` where `set` holds, no bit otherwise.
pub open spec fn bit_if(set: bool, i: int) -> u64 {
    if set {
        1u64 << (i as u64)
    } else {
        0
    }
}

/// The fingerprint bits `0..count` of a thumbnail of `size + 1` by `size`
/// pixels: bit `y * size + x` is set when the pixel at `(x, y)` is darker
/// than its right neighbour.
pub open spec fn difference_bits(thumb: Seq<u8>, size: int, count: int) -> u64
    decreases count,
{
    if count <= 0 {
        0
    } else {
        let i = count - 1;
        let left = thumb[((i / size) * (size + 1) + i % size) * 4];
        let right = thumb[((i / size) * (size + 1) + i % size + 1) * 4];
        difference_bits(thumb, size, i) | bit_if(left < right, i)
    }
}

/// Sum of the grey values of the first `count` pixels of a thumbnail.
pub open spec fn gray_total(thumb: Seq<u8>, count: int) -> int
    decreases count,
{
    if count <= 0 {
        0
    } else {
        gray_total(thumb, count - 1) + thumb[(count - 1) * 4] as int
    }
}

/// The fingerprint bits `0..count` of a thumbnail against a threshold: bit
/// `i` is set when pixel `i` is at least as bright as `mean`.
pub open spec fn average_bits(thumb: Seq<u8>, mean: int, count: int) -> u64
    decreases count,
{
    if count <= 0 {
        0
    } else {
        average_bits(thumb, mean, count - 1) | bit_if(thumb[(count - 1) * 4] >= mean, count - 1)
    }
}

/// The whole-image fingerprints that work on integers alone.
#[derive(Clone, Copy, Debug, PartialEq, Eq, Structural)]
pub enum HashMethod {
    /// Each bit compares a pixel with its right neighbour.
    Difference,
    /// Each bit compares a pixel with the mean.
    Average,
}

/// Side of the fingerprint grid used when none is asked for: 64 bits.
pub const DEFAULT_HASH_SIZE: usize = 8;

/// Width of the thumbnail that a method reads.
pub open spec fn thumb_width(method: HashMethod, size: int) -> int {
    match method {
        HashMethod::Difference => size + 1,
        HashMethod::Average => size,
    }
}

/// The fingerprint that a method reads off a grey thumbnail.
pub open spec fn thumb_hash(method: HashMethod, thumb: Seq<u8>, size: int) -> u64 {
    match method {
        HashMethod::Difference => difference_bits(thumb, size, size * size),
        HashMethod::Average => average_bits(
            thumb,
            gray_total(thumb, size * size) / (size * size),
            size * size,
        ),
    }
}

/// The fingerprint of a decoded image: the image is turned grey and shrunk
/// with the triangle filter, and the bits are read off the thumbnail. Fails
/// for an image without pixels and where the thumbnail cannot be made.
pub open spec fn hash_of_pixels(
    method: HashMethod,
    width: u32,
    height: u32,
    pixels: Seq<u8>,
    size: int,
) -> Result<u64, FailureKind> {
    if width == 0 || height == 0 {
        Err(FailureKind::EmptyImage)
    } else if !resample_fits(width, thumb_width(method, size) as u32, size as u32) {
        Err(FailureKind::Oversize)
    } else {
        Ok(
            thumb_hash(
                method,
                resampled(
                    width,
                    height,
                    gray_pixels(pixels),
                    thumb_width(method, size) as u32,
                    size as u32,
                    ResampleFilter::Triangle,
                ),
                size,
            ),
        )
    }
}

/// The fingerprint of an encoded image; a decoding failure where the bytes
/// are no image.
pub open spec fn hash_of_bytes(method: HashMethod, bytes: Seq<u8>, size: int) -> Result<
    u64,
    FailureKind,
> {
    match decoded_rgba(bytes) {
        Some((width, height, pixels)) => hash_of_pixels(method, width, height, pixels, size),
        None => Err(FailureKind::Decode),
    }
}

/// `r` is the fingerprint `expected` describes, or fails in the way it names.
pub open spec fn hash_matches(r: Result<u64, Failure>, expected: Result<u64, FailureKind>) -> bool {
    match expected {
        Ok(hash) => r is Ok && r->Ok_0 == hash,
        Err(kind) => r is Err && r->Err_0.kind() == kind,
    }
}

/// Counts the bit positions in which two fingerprints differ.
pub fn hamming_distance(hash1: u64, hash2: u64) -> (d: u32)
    ensures
        d == hamming(hash1, hash2),
        d <= 64,
{
    let x: u64 = hash1 ^ hash2;
    let mut count: u32 = 0;
    let mut k: u64 = 0;
    while k < 64
        invariant
            k <= 64,
            count <= k,
            count == bits_set(x, k as nat),
        decreases 64 - k,
    {
        if (x >> k) & 1 == 1 {
            count = count + 1;
        }
        k = k + 1;
    }
    count
}

/// Reads the difference fingerprint off a grey thumbnail of `size + 1` by
/// `size` pixels.
pub fn difference_hash(thumb: &RasterImage, hash_size: usize) -> (hash: u64)
    requires
        1 <= hash_size <= 8,
        thumb.wf(),
        thumb.width == hash_size + 1,
        thumb.height == hash_size,
    ensures
        hash == difference_bits(thumb.pixels@, hash_size as int, hash_size * hash_size),
{
    assert(1 <= hash_size * hash_size <= 64) by (nonlinear_arith)
        requires
            1 <= hash_size <= 8,
    ;
    let total: usize = hash_size * hash_size;
    let mut hash: u64 = 0;
    let mut i: usize = 0;
    assert(thumb.pixels@.len() == (hash_size + 1) * hash_size * 4) by (nonlinear_arith)
        requires
            thumb.pixels@.len() == (thumb.width as int) * (thumb.height as int) * 4,
            thumb.width == hash_size + 1,
            thumb.height == hash_size,
    ;
    while i < total
        invariant
            1 <= hash_size <= 8,
            total == hash_size * hash_size,
            total <= 64,
            i <= total,
            thumb.pixels@.len() == (hash_size + 1) * hash_size * 4,
            hash == difference_bits(thumb.pixels@, hash_size as int, i as int),
        decreases total - i,
    {
        let y: usize = i / hash_size;
        let x: usize = i % hash_size;
        assert(y < hash_size) by (nonlinear_arith)
            requires
                y == i / hash_size,
                i < hash_size * hash_size,
                hash_size > 0,
        ;
        assert((y * (hash_size + 1) + x + 1) * 4 < (hash_size + 1) * hash_size * 4)
            by (nonlinear_arith)
            requires
                y < hash_size,
                x < hash_size,
        ;
        assert(y * (hash_size + 1) <= 8 * 9) by (nonlinear_arith)
            requires
                y < hash_size,
                hash_size <= 8,
        ;
        let left: u8 = thumb.pixels[(y * (hash_size + 1) + x) * 4];
        let right: u8 = thumb.pixels[(y * (hash_size + 1) + x + 1) * 4];
        if left < right {
            hash = hash | (1u64 << (i as u64));
        } else {
            assert(hash | 0 == hash) by (bit_vector);
        }
        i = i + 1;
    }
    hash
}

/// Reads the average fingerprint off a grey thumbnail of `size` by `size`
/// pixels.
pub fn average_hash(thumb: &RasterImage, hash_size: usize) -> (hash: u64)
    requires
        1 <= hash_size <= 8,
        thumb.wf(),
        thumb.width == hash_size,
        thumb.height == hash_size,
    ensures
        hash == average_bits(
            thumb.pixels@,
            gray_total(thumb.pixels@, hash_size * hash_size) / (hash_size * hash_size),
            hash_size * hash_size,
        ),
{
    assert(1 <= hash_size * hash_size <= 64) by (nonlinear_arith)
        requires
            1 <= hash_size <= 8,
    ;
    let total: usize = hash_size * hash_size;
    assert(thumb.pixels@.len() == total * 4) by (nonlinear_arith)
        requires
            thumb.pixels@.len() == (thumb.width as int) * (thumb.height as int) * 4,
            thumb.width == hash_size,
            thumb.height == hash_size,
            total == hash_size * hash_size,
    ;
    let mut sum: u64 = 0;
    let mut i: usize = 0;
    while i < total
        invariant
            total <= 64,
            i <= total,
            thumb.pixels@.len() == total * 4,
            sum == gray_total(thumb.pixels@, i as int),
            sum <= 255 * i,
        decreases total - i,
    {
        sum = sum + thumb.pixels[i * 4] as u64;
        i = i + 1;
    }
    let mean: u64 = sum / (total as u64);
    let mut hash: u64 = 0;
    let mut k: usize = 0;
    while k < total
        invariant
            total <= 64,
            k <= total,
            thumb.pixels@.len() == total * 4,
            hash == average_bits(thumb.pixels@, mean as int, k as int),
        decreases total - k,
    {
        if thumb.pixels[k * 4] as u64 >= mean {
            hash = hash | (1u64 << (k as u64));
        } else {
            assert(hash | 0 == hash) by (bit_vector);
        }
        k = k + 1;
    }
    hash
}

/// Computes the fingerprint of a decoded image by the method named.
pub fn hash_raster(method: HashMethod, img: &RasterImage, hash_size: usize) -> (r: Result<
    u64,
    Failure,
>)
    requires
        1 <= hash_size <= 8,
        img.wf(),
    ensures
        hash_matches(
            r,
            hash_of_pixels(method, img.width, img.height, img.pixels@, hash_size as int),
        ),
{
    if img.width == 0 || img.height == 0 {
        return Err(Failure::EmptyImage);
    }
    let width: u32 = match method {
        HashMethod::Difference => (hash_size + 1) as u32,
        HashMethod::Average => hash_size as u32,
    };
    if !fits_resample(img.width, width, hash_size as u32) {
        return Err(Failure::Oversize);
    }
    let gray: RasterImage = grayscale(img);
    let thumb: RasterImage = resample(&gray, width, hash_size as u32, ResampleFilter::Triangle);
    match method {
        HashMethod::Difference => Ok(difference_hash(&thumb, hash_size)),
        HashMethod::Average => Ok(average_hash(&thumb, hash_size)),
    }
}

/// Computes the fingerprint of an encoded image by the method named.
pub fn compute_hash(method: HashMethod, image_bytes: &[u8], hash_size: usize) -> (r: Result<
    u64,
    Failure,
>)
    requires
        1 <= hash_size <= 8,
    ensures
        hash_matches(r, hash_of_bytes(method, image_bytes@, hash_size as int)),
{
    match decode_rgba(image_bytes) {
        Ok(img) => hash_raster(method, &img, hash_size),
        Err(message) => Err(Failure::Decode(message)),
    }
}

/// Computes the difference fingerprint of an encoded image: the image is
/// decoded, turned grey and shrunk to `hash_size + 1` by `hash_size` pixels,
/// and each bit tells whether a pixel is darker than its right neighbour.
pub fn compute_dhash(image_bytes: &[u8], hash_size: usize) -> (r: Result<u64, Failure>)
    requires
        1 <= hash_size <= 8,
    ensures
        hash_matches(r, hash_of_bytes(HashMethod::Difference, image_bytes@, hash_size as int)),
{
    compute_hash(HashMethod::Difference, image_bytes, hash_size)
}

/// Computes the average fingerprint of an encoded image: the image is
/// decoded, turned grey and shrunk to `hash_size` by `hash_size` pixels, and
/// each bit tells whether a pixel is at least as bright as the mean.
pub fn compute_ahash(image_bytes: &[u8], hash_size: usize) -> (r: Result<u64, Failure>)
    requires
        1 <= hash_size <= 8,
    ensures
        hash_matches(r, hash_of_bytes(HashMethod::Average, image_bytes@, hash_size as int)),
{
    compute_hash(HashMethod::Average, image_bytes, hash_size)
}

/// Computes the fingerprint of every image of a list by one method. Each
/// image has its own outcome, in the order of the list: a failure of one
/// image is reported in its place and touches no other.
pub fn batch_compute_hash(
    image_bytes_list: &Vec<Vec<u8>>,
    method: HashMethod,
    hash_size: usize,
) -> (r: Vec<Result<u64, Failure>>)
    requires
        1 <= hash_size <= 8,
    ensures
        r@.len() == image_bytes_list@.len(),
        forall|i: int|
            0 <= i < r@.len() ==> hash_matches(
                #[trigger] r@[i],
                hash_of_bytes(method, image_bytes_list@[i]@, hash_size as int),
            ),
{
    let mut out: Vec<Result<u64, Failure>> = Vec::new();
    let mut i: usize = 0;
    while i < image_bytes_list.len()
        invariant
            1 <= hash_size <= 8,
            i <= image_bytes_list@.len(),
            out@.len() == i,
            forall|q: int|
                0 <= q < i ==> hash_matches(
                    #[trigger] out@[q],
                    hash_of_bytes(method, image_bytes_list@[q]@, hash_size as int),
                ),
        decreases image_bytes_list@.len() - i,
    {
        let bytes: &[u8] = image_bytes_list[i].as_slice();
        let one: Result<u64, Failure> = compute_hash(method, bytes, hash_size);
        out.push(one);
        i = i + 1;
    }
    out
}

/// The distance does not depend on the order of the two fingerprints.
pub proof fn lemma_hamming_symmetric(a: u64, b: u64)
    ensures
        hamming(a, b) == hamming(b, a),
{
    assert(a ^ b == b ^ a) by (bit_vector);
}

/// No bit of zero is set.
pub proof fn lemma_bits_set_zero(n: nat)
    requires
        n <= 64,
    ensures
        bits_set(0, n) == 0,
    decreases n,
{
    if n > 0 {
        lemma_bits_set_zero((n - 1) as nat);
        let k: u64 = (n - 1) as u64;
        assert((0u64 >> k) & 1 == 0) by (bit_vector);
    }
}

/// A fingerprint is at distance zero from itself.
pub proof fn lemma_hamming_self(a: u64)
    ensures
        hamming(a, a) == 0,
{
    assert(a ^ a == 0) by (bit_vector);
    lemma_bits_set_zero(64);
}

/// Hashing is a function of the pixels. Two byte buffers that decode to the
/// same pixels, as the same bytes do, or an image and its lossless
/// re-encoding, succeed or fail alike, and their fingerprints are equal and
/// at distance zero.
pub proof fn lemma_hash_depends_on_pixels(
    method: HashMethod,
    bytes1: Seq<u8>,
    bytes2: Seq<u8>,
    size: int,
    r1: Result<u64, Failure>,
    r2: Result<u64, Failure>,
)
    requires
        decoded_rgba(bytes1) == decoded_rgba(bytes2),
        hash_matches(r1, hash_of_bytes(method, bytes1, size)),
        hash_matches(r2, hash_of_bytes(method, bytes2, size)),
    ensures
        r1 is Ok <==> r2 is Ok,
        r1 is Ok ==> r1->Ok_0 == r2->Ok_0 && hamming(r1->Ok_0, r2->Ok_0) == 0,
        r1 is Err ==> r1->Err_0.kind() == r2->Err_0.kind(),
{
    if r1 is Ok {
        lemma_hamming_self(r1->Ok_0);
    }
}

} // verus!
