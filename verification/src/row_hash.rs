//! One fingerprint per pixel row, coarse enough to survive compression noise.

use vstd::prelude::*;
use crate::raster::{RasterImage, Failure, FailureKind, channel_index, row_bytes};
use crate::codec::{decoded_rgba, decode_rgba};

verus! {

/// Multiplier of the red mean in a row fingerprint.
pub const MIX_RED: u64 = 73856093;

/// Multiplier of the green mean in a row fingerprint.
pub const MIX_GREEN: u64 = 19349663;

/// Multiplier of the blue mean in a row fingerprint.
pub const MIX_BLUE: u64 = 83492791;

/// Width of the steps to which channel means are rounded down.
pub const QUANTUM: u64 = 8;

/// Number of pixels of a row that count, once a margin of `ignore_right`
/// pixels is left out on the right. A margin of zero, or one that would leave
/// nothing, is not applied.
pub open spec fn effective_width(width: u32, ignore_right: u32) -> int {
    if 0 < ignore_right < width {
        width - ignore_right
    } else {
        width as int
    }
}

/// Sum of channel `c` over the first `count` pixels of row `y`.
pub open spec fn channel_sum(pixels: Seq<u8>, width: int, y: int, c: int, count: int) -> int
    decreases count,
{
    if count <= 0 {
        0
    } else {
        channel_sum(pixels, width, y, c, count - 1) + pixels[channel_index(
            width,
            count - 1,
            y,
            c,
        )] as int
    }
}

/// Mean of channel `c` over the first `count` pixels of row `y`, rounded down.
pub open spec fn channel_mean(pixels: Seq<u8>, width: int, y: int, c: int, count: int) -> int {
    channel_sum(pixels, width, y, c, count) / count
}

/// A mean rounded down to a multiple of eight.
pub open spec fn quantize(mean: int) -> int {
    (mean / (QUANTUM as int)) * QUANTUM
}

/// The three rounded means folded into one number, modulo 2^64.
pub open spec fn mix_channels(r: int, g: int, b: int) -> u64 {
    ((r * MIX_RED + g * MIX_GREEN + b * MIX_BLUE) % 0x1_0000_0000_0000_0000) as u64
}

/// Fingerprint of row `y`, taken over its first `count` pixels; zero when no
/// pixel counts.
pub open spec fn row_fingerprint(pixels: Seq<u8>, width: int, y: int, count: int) -> u64 {
    if count > 0 {
        mix_channels(
            quantize(channel_mean(pixels, width, y, 0, count)),
            quantize(channel_mean(pixels, width, y, 1, count)),
            quantize(channel_mean(pixels, width, y, 2, count)),
        )
    } else {
        0
    }
}

/// The fingerprints of all rows of an image, top to bottom.
pub open spec fn row_fingerprints(width: u32, height: u32, pixels: Seq<u8>, ignore_right: u32) -> Seq<
    u64,
> {
    Seq::new(
        height as nat,
        |y: int| row_fingerprint(pixels, width as int, y, effective_width(width, ignore_right)),
    )
}

/// A sum of `count` channel values is at most `255 * count`.
pub proof fn lemma_channel_sum_bounds(pixels: Seq<u8>, width: int, y: int, c: int, count: int)
    requires
        0 <= count,
    ensures
        0 <= channel_sum(pixels, width, y, c, count) <= 255 * count,
    decreases count,
{
    if count > 0 {
        lemma_channel_sum_bounds(pixels, width, y, c, count - 1);
    }
}

/// Folds three rounded channel means into a fingerprint.
fn mix(r: u64, g: u64, b: u64) -> (h: u64)
    requires
        r <= 255,
        g <= 255,
        b <= 255,
    ensures
        h == mix_channels(r as int, g as int, b as int),
{
    r * MIX_RED + g * MIX_GREEN + b * MIX_BLUE
}

/// Rounds a channel mean down to a multiple of eight.
fn quantized_mean(sum: u64, count: u64) -> (q: u64)
    requires
        count > 0,
        sum <= 255 * count,
    ensures
        q == quantize(sum as int / count as int),
        q <= 255,
{
    assert(sum as int / count as int <= 255) by (nonlinear_arith)
        requires
            count > 0,
            sum <= 255 * count,
    ;
    ((sum / count) / QUANTUM) * QUANTUM
}

/// Computes the fingerprint of every row of a raster, top to bottom. The
/// rightmost `ignore_right_pixels` columns are left out, so that a scrollbar
/// does not disturb the match.
pub fn row_hashes(img: &RasterImage, ignore_right_pixels: u32) -> (hashes: Vec<u64>)
    requires
        img.wf(),
    ensures
        hashes@ == row_fingerprints(img.width, img.height, img.pixels@, ignore_right_pixels),
{
    let width: u32 = img.width;
    let height: u32 = img.height;
    let count: u32 = if ignore_right_pixels > 0 && width > ignore_right_pixels {
        width - ignore_right_pixels
    } else {
        width
    };
    let ghost px = img.pixels@;
    let ghost w = width as int;
    let mut hashes: Vec<u64> = Vec::new();
    let mut y: u32 = 0;
    while y < height
        invariant
            img.wf(),
            width == img.width,
            height == img.height,
            px == img.pixels@,
            w == width,
            count == effective_width(width, ignore_right_pixels),
            count <= width,
            y <= height,
            hashes@.len() == y,
            forall|q: int|
                0 <= q < y ==> #[trigger] hashes@[q] == row_fingerprint(px, w, q, count as int),
        decreases height - y,
    {
        let mut r_sum: u64 = 0;
        let mut g_sum: u64 = 0;
        let mut b_sum: u64 = 0;
        let mut x: u32 = 0;
        while x < count
            invariant
                img.wf(),
                width == img.width,
                height == img.height,
                px == img.pixels@,
                w == width,
                count <= width,
                y < height,
                x <= count,
                r_sum == channel_sum(px, w, y as int, 0, x as int),
                g_sum == channel_sum(px, w, y as int, 1, x as int),
                b_sum == channel_sum(px, w, y as int, 2, x as int),
            decreases count - x,
        {
            proof {
                lemma_channel_sum_bounds(px, w, y as int, 0, x as int);
                lemma_channel_sum_bounds(px, w, y as int, 1, x as int);
                lemma_channel_sum_bounds(px, w, y as int, 2, x as int);
            }
            r_sum = r_sum + img.get(x, y, 0) as u64;
            g_sum = g_sum + img.get(x, y, 1) as u64;
            b_sum = b_sum + img.get(x, y, 2) as u64;
            x = x + 1;
        }
        let hash: u64 = if count > 0 {
            proof {
                lemma_channel_sum_bounds(px, w, y as int, 0, count as int);
                lemma_channel_sum_bounds(px, w, y as int, 1, count as int);
                lemma_channel_sum_bounds(px, w, y as int, 2, count as int);
            }
            let n: u64 = count as u64;
            mix(quantized_mean(r_sum, n), quantized_mean(g_sum, n), quantized_mean(b_sum, n))
        } else {
            0
        };
        hashes.push(hash);
        y = y + 1;
    }
    assert(hashes@ =~= row_fingerprints(img.width, img.height, img.pixels@, ignore_right_pixels));
    hashes
}

/// The row fingerprints of an encoded image; a decoding failure where the
/// bytes are no image.
pub open spec fn row_hashes_of_bytes(bytes: Seq<u8>, ignore_right: u32) -> Result<
    Seq<u64>,
    FailureKind,
> {
    match decoded_rgba(bytes) {
        Some((width, height, pixels)) => Ok(row_fingerprints(width, height, pixels, ignore_right)),
        None => Err(FailureKind::Decode),
    }
}

/// `r` holds the fingerprints `expected` describes, or fails in the way it
/// names.
pub open spec fn hashes_match(
    r: Result<Vec<u64>, Failure>,
    expected: Result<Seq<u64>, FailureKind>,
) -> bool {
    match expected {
        Ok(hashes) => r is Ok && r->Ok_0@ == hashes,
        Err(kind) => r is Err && r->Err_0.kind() == kind,
    }
}

/// Decodes an image and computes the fingerprint of every row, top to bottom.
/// Fails exactly when the bytes do not decode.
pub fn compute_row_hashes(image_bytes: &[u8], ignore_right_pixels: u32) -> (r: Result<
    Vec<u64>,
    Failure,
>)
    ensures
        hashes_match(r, row_hashes_of_bytes(image_bytes@, ignore_right_pixels)),
{
    match decode_rgba(image_bytes) {
        Ok(img) => Ok(row_hashes(&img, ignore_right_pixels)),
        Err(message) => Err(Failure::Decode(message)),
    }
}

/// Rows whose channel means fall into the same steps of eight have the same
/// fingerprint, whatever else differs between them: noise of up to seven
/// levels that stays inside a step is absorbed.
pub proof fn lemma_noise_within_step_absorbed(
    pixels1: Seq<u8>,
    width1: int,
    y1: int,
    count1: int,
    pixels2: Seq<u8>,
    width2: int,
    y2: int,
    count2: int,
)
    requires
        count1 > 0,
        count2 > 0,
        forall|c: int|
            0 <= c < 3 ==> {
                let m1 = #[trigger] channel_mean(pixels1, width1, y1, c, count1);
                let m2 = channel_mean(pixels2, width2, y2, c, count2);
                -7 <= m1 - m2 <= 7 && m1 / 8 == m2 / 8
            },
    ensures
        row_fingerprint(pixels1, width1, y1, count1) == row_fingerprint(
            pixels2,
            width2,
            y2,
            count2,
        ),
{
    assert(channel_mean(pixels1, width1, y1, 0, count1) / 8 == channel_mean(
        pixels2,
        width2,
        y2,
        0,
        count2,
    ) / 8);
    assert(channel_mean(pixels1, width1, y1, 1, count1) / 8 == channel_mean(
        pixels2,
        width2,
        y2,
        1,
        count2,
    ) / 8);
    assert(channel_mean(pixels1, width1, y1, 2, count1) / 8 == channel_mean(
        pixels2,
        width2,
        y2,
        2,
        count2,
    ) / 8);
}

/// A mean that lies up to seven levels above a multiple of eight rounds down
/// to that multiple.
pub proof fn lemma_quantize_floor(base: int, noise: int)
    requires
        0 <= base,
        base % 8 == 0,
        0 <= noise <= 7,
    ensures
        quantize(base + noise) == base,
{
}

/// Row fingerprints are a function of the pixels. Two byte buffers that
/// decode to the same pixels, as the same bytes do, or an image and its
/// lossless re-encoding, succeed or fail alike and have the same
/// fingerprints.
pub proof fn lemma_row_hashes_depend_on_pixels(
    bytes1: Seq<u8>,
    bytes2: Seq<u8>,
    ignore_right: u32,
    r1: Result<Vec<u64>, Failure>,
    r2: Result<Vec<u64>, Failure>,
)
    requires
        decoded_rgba(bytes1) == decoded_rgba(bytes2),
        hashes_match(r1, row_hashes_of_bytes(bytes1, ignore_right)),
        hashes_match(r2, row_hashes_of_bytes(bytes2, ignore_right)),
    ensures
        r1 is Ok <==> r2 is Ok,
        r1 is Ok ==> r1->Ok_0@ == r2->Ok_0@,
        r1 is Err ==> r1->Err_0.kind() == r2->Err_0.kind(),
{
}

/// Rows that hold the same bytes have the same channel sums.
proof fn lemma_equal_rows_equal_sums(
    pixels1: Seq<u8>,
    pixels2: Seq<u8>,
    width: int,
    y1: int,
    y2: int,
    c: int,
    count: int,
)
    requires
        0 <= count <= width,
        0 <= y1,
        0 <= y2,
        0 <= c < 4,
        (y1 + 1) * width * 4 <= pixels1.len(),
        (y2 + 1) * width * 4 <= pixels2.len(),
        row_bytes(pixels1, width, y1) == row_bytes(pixels2, width, y2),
    ensures
        channel_sum(pixels1, width, y1, c, count) == channel_sum(pixels2, width, y2, c, count),
    decreases count,
{
    if count > 0 {
        lemma_equal_rows_equal_sums(pixels1, pixels2, width, y1, y2, c, count - 1);
        let x = count - 1;
        let at = x * 4 + c;
        assert(0 <= at < width * 4);
        assert(channel_index(width, x, y1, c) == y1 * width * 4 + at) by (nonlinear_arith)
            requires
                at == x * 4 + c,
        ;
        assert(channel_index(width, x, y2, c) == y2 * width * 4 + at) by (nonlinear_arith)
            requires
                at == x * 4 + c,
        ;
        assert((y1 + 1) * width * 4 == y1 * width * 4 + width * 4) by (nonlinear_arith);
        assert((y2 + 1) * width * 4 == y2 * width * 4 + width * 4) by (nonlinear_arith);
        assert(0 <= y1 * width * 4 && 0 <= y2 * width * 4) by (nonlinear_arith)
            requires
                0 <= y1,
                0 <= y2,
                0 <= width,
        ;
        assert(row_bytes(pixels1, width, y1)[at] == pixels1[y1 * width * 4 + at]);
        assert(row_bytes(pixels2, width, y2)[at] == pixels2[y2 * width * 4 + at]);
    }
}

/// Rows that hold the same bytes have the same fingerprint.
pub proof fn lemma_equal_rows_equal_fingerprints(
    pixels1: Seq<u8>,
    pixels2: Seq<u8>,
    width: int,
    y1: int,
    y2: int,
    count: int,
)
    requires
        0 <= count <= width,
        0 <= y1,
        0 <= y2,
        (y1 + 1) * width * 4 <= pixels1.len(),
        (y2 + 1) * width * 4 <= pixels2.len(),
        row_bytes(pixels1, width, y1) == row_bytes(pixels2, width, y2),
    ensures
        row_fingerprint(pixels1, width, y1, count) == row_fingerprint(pixels2, width, y2, count),
{
    lemma_equal_rows_equal_sums(pixels1, pixels2, width, y1, y2, 0, count);
    lemma_equal_rows_equal_sums(pixels1, pixels2, width, y1, y2, 1, count);
    lemma_equal_rows_equal_sums(pixels1, pixels2, width, y1, y2, 2, count);
}

} // verus!
