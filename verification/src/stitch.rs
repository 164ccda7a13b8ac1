//! Merging two captures of a scrolled surface into one image.

use vstd::prelude::*;
use vstd::slice::slice_subrange;
use crate::raster::{
    RasterImage, Failure, FailureKind, raster_len, raster_matches, bytes_match, row_bytes,
};
use crate::codec::{
    decoded_rgba, decode_rgba, png_encoded, encode_png, resample, resampled, resample_fits,
    fits_resample, ResampleFilter,
};
use crate::row_hash::{
    row_hashes, row_fingerprints, effective_width, lemma_equal_rows_equal_fingerprints,
};
use crate::matcher::{
    Ratio, OverlapRun, min_run_length, all_runs_shorter, is_first_longest,
    lemma_first_longest_unique, find_longest_run, find_top_runs, top_selection,
    lemma_top_selection_is, run_ending_at, end_cell,
};

verus! {

/// Number of candidate runs that the smart strategy looks at.
pub const SMART_CANDIDATES: usize = 5;

/// Width of the right margin that is left out of row fingerprints when none
/// is asked for: room for a scrollbar.
pub const DEFAULT_IGNORE_RIGHT_PIXELS: u32 = 20;

/// The share of the shorter image that an overlap must cover for the direct
/// strategy when none is asked for: one tenth.
pub fn default_overlap_ratio() -> (r: Ratio)
    ensures
        r.wf(),
        r.num() == 1,
        r.den() == 10,
{
    match Ratio::new(1, 10) {
        Some(r) => r,
        None => unreached(),
    }
}

/// The share of the shorter image that an overlap must cover for the smart
/// strategy when none is asked for: one hundredth.
pub fn default_smart_overlap_ratio() -> (r: Ratio)
    ensures
        r.wf(),
        r.num() == 1,
        r.den() == 100,
{
    match Ratio::new(1, 100) {
        Some(r) => r,
        None => unreached(),
    }
}

/// Where the search region starts in the first fingerprint sequence: only its
/// tail, as long as the second sequence, is searched.
pub open spec fn tail_offset(len1: int, len2: int) -> int {
    if len1 > len2 {
        len1 - len2
    } else {
        0
    }
}

/// The tail of the first fingerprint sequence that is searched.
pub open spec fn search_region(fp1: Seq<u64>, fp2: Seq<u64>) -> Seq<u64> {
    fp1.subrange(tail_offset(fp1.len() as int, fp2.len() as int), fp1.len() as int)
}

/// The shortest run that counts between the search region and the second
/// sequence.
pub open spec fn seam_threshold(fp1: Seq<u64>, fp2: Seq<u64>, ratio: Ratio) -> int {
    min_run_length(search_region(fp1, fp2).len(), fp2.len(), ratio) as int
}

/// `keep1` rows of the first image and all but `skip2` rows of the second
/// are what the direct strategy keeps: with no acceptable run, everything;
/// else the first image up to the end of the first longest run and the
/// second image from the end of that run.
pub open spec fn is_direct_seam(
    fp1: Seq<u64>,
    fp2: Seq<u64>,
    ratio: Ratio,
    keep1: int,
    skip2: int,
) -> bool {
    if all_runs_shorter(search_region(fp1, fp2), fp2, seam_threshold(fp1, fp2, ratio)) {
        keep1 == fp1.len() && skip2 == 0
    } else {
        is_first_longest(
            search_region(fp1, fp2),
            fp2,
            keep1 - tail_offset(fp1.len() as int, fp2.len() as int),
            skip2,
        )
    }
}

/// The seam of the direct strategy: rows kept of the first image, rows
/// skipped of the second.
pub open spec fn direct_seam(fp1: Seq<u64>, fp2: Seq<u64>, ratio: Ratio) -> (int, int) {
    choose|s: (int, int)| is_direct_seam(fp1, fp2, ratio, s.0, s.1)
}

/// The direct strategy has one seam.
pub proof fn lemma_direct_seam_is(
    fp1: Seq<u64>,
    fp2: Seq<u64>,
    ratio: Ratio,
    keep1: int,
    skip2: int,
)
    requires
        is_direct_seam(fp1, fp2, ratio, keep1, skip2),
    ensures
        direct_seam(fp1, fp2, ratio) == (keep1, skip2),
{
    let w = (keep1, skip2);
    assert(is_direct_seam(fp1, fp2, ratio, w.0, w.1));
    let s = direct_seam(fp1, fp2, ratio);
    assert(is_direct_seam(fp1, fp2, ratio, s.0, s.1));
    if !all_runs_shorter(search_region(fp1, fp2), fp2, seam_threshold(fp1, fp2, ratio)) {
        let offset = tail_offset(fp1.len() as int, fp2.len() as int);
        lemma_first_longest_unique(
            search_region(fp1, fp2),
            fp2,
            keep1 - offset,
            skip2,
            s.0 - offset,
            s.1,
        );
    }
}

/// Rows of the second image that remain once `skip2` rows are skipped.
pub open spec fn rows_after(h2: int, skip2: int) -> int {
    if h2 > skip2 {
        h2 - skip2
    } else {
        0
    }
}

/// The composite: the first `keep1` rows of the first image, then the second
/// image without its first `skip2` rows. Fails where the height does not fit.
pub open spec fn composed(
    width: u32,
    rows1: Seq<u8>,
    h2: u32,
    rows2: Seq<u8>,
    keep1: int,
    skip2: int,
) -> Result<(u32, u32, Seq<u8>), FailureKind> {
    let height = keep1 + rows_after(h2 as int, skip2);
    if height > u32::MAX {
        Err(FailureKind::Oversize)
    } else {
        Ok(
            (
                width,
                height as u32,
                rows1.subrange(0, keep1 * width * 4) + rows2.subrange(
                    (h2 - rows_after(h2 as int, skip2)) * width * 4,
                    h2 * width * 4,
                ),
            ),
        )
    }
}

/// What the direct strategy makes of two rasters of one width.
pub open spec fn stitched(
    width: u32,
    h1: u32,
    rows1: Seq<u8>,
    h2: u32,
    rows2: Seq<u8>,
    ignore_right: u32,
    ratio: Ratio,
) -> Result<(u32, u32, Seq<u8>), FailureKind> {
    let seam = direct_seam(
        row_fingerprints(width, h1, rows1, ignore_right),
        row_fingerprints(width, h2, rows2, ignore_right),
        ratio,
    );
    composed(width, rows1, h2, rows2, seam.0, seam.1)
}

/// The composite would have fewer rows than the first image has.
pub open spec fn shrinks(run: OverlapRun, offset: int, h1: int, h2: int) -> bool {
    offset + run.start1 + run.length + rows_after(h2, run.start2 + run.length) < h1
}

/// Index of the first candidate from `from` on that does not shrink the
/// result; the number of candidates when there is none.
pub open spec fn first_growing(
    cands: Seq<OverlapRun>,
    offset: int,
    h1: int,
    h2: int,
    from: int,
) -> int
    decreases cands.len() - from,
{
    if from < 0 || from >= cands.len() {
        cands.len() as int
    } else if !shrinks(cands[from], offset, h1, h2) {
        from
    } else {
        first_growing(cands, offset, h1, h2, from + 1)
    }
}

/// The candidate that the smart strategy accepts: the first that does not
/// shrink the result, the first of all when every one shrinks it, none when
/// there is no candidate.
pub open spec fn accepted_candidate(cands: Seq<OverlapRun>, offset: int, h1: int, h2: int) -> Option<
    OverlapRun,
> {
    if cands.len() == 0 {
        None
    } else if first_growing(cands, offset, h1, h2, 0) < cands.len() {
        Some(cands[first_growing(cands, offset, h1, h2, 0)])
    } else {
        Some(cands[0])
    }
}

/// The candidates of the smart strategy: the greedy selection between the
/// search region and the second sequence.
pub open spec fn smart_candidates(fp1: Seq<u64>, fp2: Seq<u64>, ratio: Ratio) -> Seq<OverlapRun> {
    top_selection(
        search_region(fp1, fp2),
        fp2,
        seam_threshold(fp1, fp2, ratio),
        SMART_CANDIDATES as int,
    )
}

/// What the smart strategy makes of two rasters of one width.
pub open spec fn smart_stitched(
    width: u32,
    h1: u32,
    rows1: Seq<u8>,
    h2: u32,
    rows2: Seq<u8>,
    ignore_right: u32,
    ratio: Ratio,
) -> Result<(u32, u32, Seq<u8>), FailureKind> {
    let fp1 = row_fingerprints(width, h1, rows1, ignore_right);
    let fp2 = row_fingerprints(width, h2, rows2, ignore_right);
    let offset = tail_offset(h1 as int, h2 as int);
    match accepted_candidate(smart_candidates(fp1, fp2, ratio), offset, h1 as int, h2 as int) {
        Some(run) => composed(
            width,
            rows1,
            h2,
            rows2,
            offset + run.start1 + run.length,
            run.start2 + run.length,
        ),
        None => Err(FailureKind::NoOverlap),
    }
}

/// Height of the first image once it is scaled to the width `w2`, its
/// proportions kept: rounded down, and no more than a height can be.
pub open spec fn aligned_height(w1: u32, h1: u32, w2: u32) -> int {
    if (h1 * w2) / (w1 as int) > u32::MAX {
        u32::MAX as int
    } else {
        (h1 * w2) / (w1 as int)
    }
}

/// The first image brought to the width of the second: unchanged where the
/// widths agree, resampled otherwise.
pub open spec fn aligned(w1: u32, h1: u32, rows1: Seq<u8>, w2: u32) -> Result<
    (u32, u32, Seq<u8>),
    FailureKind,
> {
    if w1 == w2 {
        Ok((w1, h1, rows1))
    } else if w1 == 0 || h1 == 0 {
        Err(FailureKind::EmptyImage)
    } else if !resample_fits(w1, w2, aligned_height(w1, h1, w2) as u32) {
        Err(FailureKind::Oversize)
    } else {
        Ok(
            (
                w2,
                aligned_height(w1, h1, w2) as u32,
                resampled(
                    w1,
                    h1,
                    rows1,
                    w2,
                    aligned_height(w1, h1, w2) as u32,
                    ResampleFilter::Lanczos3,
                ),
            ),
        )
    }
}

/// The composite that stitching makes of two encoded images: both are
/// decoded, the first is brought to the width of the second, and the rasters
/// are merged by the direct or the smart strategy.
pub open spec fn stitched_raster(
    bytes1: Seq<u8>,
    bytes2: Seq<u8>,
    ignore_right: u32,
    ratio: Ratio,
    smart: bool,
) -> Result<(u32, u32, Seq<u8>), FailureKind> {
    match (decoded_rgba(bytes1), decoded_rgba(bytes2)) {
        (Some((w1, h1, rows1)), Some((w2, h2, rows2))) => match aligned(w1, h1, rows1, w2) {
            Ok((wa, ha, rows_a)) => if smart {
                smart_stitched(wa, ha, rows_a, h2, rows2, ignore_right, ratio)
            } else {
                stitched(wa, ha, rows_a, h2, rows2, ignore_right, ratio)
            },
            Err(kind) => Err(kind),
        },
        _ => Err(FailureKind::Decode),
    }
}

/// What stitching returns for two encoded images: the composite as a PNG
/// file, or the failure on the way to it.
pub open spec fn stitched_bytes(
    bytes1: Seq<u8>,
    bytes2: Seq<u8>,
    ignore_right: u32,
    ratio: Ratio,
    smart: bool,
) -> Result<Seq<u8>, FailureKind> {
    match stitched_raster(bytes1, bytes2, ignore_right, ratio, smart) {
        Ok((w, h, rows)) => match png_encoded(w, h, rows) {
            Some(bytes) => Ok(bytes),
            None => Err(FailureKind::Encode),
        },
        Err(kind) => Err(kind),
    }
}

/// Copies `count` bytes of `src` from `start` on to the end of `dst`.
fn append_bytes(dst: &mut Vec<u8>, src: &Vec<u8>, start: usize, count: usize)
    requires
        start + count <= src@.len(),
    ensures
        final(dst)@ == old(dst)@ + src@.subrange(start as int, start + count),
{
    let ghost before = dst@;
    let available: usize = src.len();
    let mut k: usize = 0;
    while k < count
        invariant
            k <= count,
            start + count <= src@.len(),
            src@.len() == available,
            dst@ == before + src@.subrange(start as int, start + k),
        decreases count - k,
    {
        dst.push(src[start + k]);
        k = k + 1;
        assert(dst@ =~= before + src@.subrange(start as int, start + k));
    }
    assert(dst@ =~= before + src@.subrange(start as int, start + count));
}

/// Builds the composite of two rasters of one width: the first `keep_first`
/// rows of the first, then the second without its first `skip_second` rows,
/// copied as they are.
pub fn compose(img1: &RasterImage, img2: &RasterImage, keep_first: u32, skip_second: u32) -> (r:
    Result<RasterImage, Failure>)
    requires
        img1.wf(),
        img2.wf(),
        img1.width == img2.width,
        keep_first <= img1.height,
    ensures
        raster_matches(
            r,
            composed(
                img2.width,
                img1.pixels@,
                img2.height,
                img2.pixels@,
                keep_first as int,
                skip_second as int,
            ),
        ),
{
    let width: u32 = img2.width;
    let kept_second: u32 = if img2.height > skip_second {
        img2.height - skip_second
    } else {
        0
    };
    let height: u64 = keep_first as u64 + kept_second as u64;
    if height > u32::MAX as u64 {
        return Err(Failure::Oversize);
    }
    let ghost w = width as int;
    let len1: usize = img1.pixels.len();
    let len2: usize = img2.pixels.len();
    assert(keep_first * w * 4 <= img1.height * w * 4) by (nonlinear_arith)
        requires
            keep_first <= img1.height,
            0 <= w,
    ;
    assert((img2.height - kept_second) * w * 4 + kept_second * w * 4 == img2.height * w * 4)
        by (nonlinear_arith);
    assert(0 <= kept_second * w * 4 && 0 <= (img2.height - kept_second) * w * 4
        && 0 <= keep_first * w) by (nonlinear_arith)
        requires
            0 <= kept_second <= img2.height,
            0 <= w,
            0 <= keep_first,
    ;
    assert(img1.height * w * 4 == w * img1.height * 4) by (nonlinear_arith);
    assert(img2.height * w * 4 == w * img2.height * 4) by (nonlinear_arith);
    assert(0 <= (img2.height - kept_second) * w && 0 <= kept_second * w) by (nonlinear_arith)
        requires
            0 <= kept_second <= img2.height,
            0 <= w,
    ;
    assert(keep_first * w * 4 == (keep_first * w) * 4);
    let count1: usize = (keep_first as usize) * (width as usize) * 4;
    let start2: usize = ((img2.height - kept_second) as usize) * (width as usize) * 4;
    let count2: usize = (kept_second as usize) * (width as usize) * 4;
    let mut pixels: Vec<u8> = Vec::new();
    append_bytes(&mut pixels, &img1.pixels, 0, count1);
    append_bytes(&mut pixels, &img2.pixels, start2, count2);
    assert(raster_len(w, height as int) == count1 + count2) by (nonlinear_arith)
        requires
            height == keep_first + kept_second,
            count1 == keep_first * w * 4,
            count2 == kept_second * w * 4,
    ;
    Ok(RasterImage { width, height: height as u32, pixels })
}

/// Finds where the direct strategy joins two rasters of one width: the rows
/// to keep of the first and the rows to skip of the second.
pub fn find_seam(
    img1: &RasterImage,
    img2: &RasterImage,
    ignore_right_pixels: u32,
    min_overlap_ratio: Ratio,
) -> (seam: (u32, u32))
    requires
        img1.wf(),
        img2.wf(),
        img1.width == img2.width,
    ensures
        (seam.0 as int, seam.1 as int) == direct_seam(
            row_fingerprints(img1.width, img1.height, img1.pixels@, ignore_right_pixels),
            row_fingerprints(img2.width, img2.height, img2.pixels@, ignore_right_pixels),
            min_overlap_ratio,
        ),
        seam.0 <= img1.height,
        seam.1 <= img2.height,
{
    let hashes1: Vec<u64> = row_hashes(img1, ignore_right_pixels);
    let hashes2: Vec<u64> = row_hashes(img2, ignore_right_pixels);
    let len1: usize = hashes1.len();
    let len2: usize = hashes2.len();
    let offset: usize = if len1 > len2 { len1 - len2 } else { 0 };
    let region: &[u64] = slice_subrange(hashes1.as_slice(), offset, len1);
    let ghost fp1 = hashes1@;
    let ghost fp2 = hashes2@;
    assert(region@ == search_region(fp1, fp2));
    let found: Option<OverlapRun> = find_longest_run(region, hashes2.as_slice(), min_overlap_ratio);
    let seam: (u32, u32) = match found {
        Some(run) => {
            proof {
                let i = run.start1 + run.length;
                let j = run.start2 + run.length;
                assert(end_cell(region@, fp2, i, j));
                let limit = seam_threshold(fp1, fp2, min_overlap_ratio);
                assert(run_ending_at(region@, fp2, i, j) >= limit);
                assert(!all_runs_shorter(region@, fp2, limit));
            }
            ((offset + run.start1 + run.length) as u32, (run.start2 + run.length) as u32)
        },
        None => (img1.height, 0),
    };
    proof {
        assert(is_direct_seam(fp1, fp2, min_overlap_ratio, seam.0 as int, seam.1 as int));
        lemma_direct_seam_is(fp1, fp2, min_overlap_ratio, seam.0 as int, seam.1 as int);
    }
    seam
}

/// Merges two rasters of one width by the direct strategy: the longest run of
/// rows that the tail of the first shares with the second is found, the
/// first is kept up to the end of that run and the second from its end on.
/// With no acceptable run the second is put below the first.
pub fn stitch_rasters(
    img1: &RasterImage,
    img2: &RasterImage,
    ignore_right_pixels: u32,
    min_overlap_ratio: Ratio,
) -> (r: Result<RasterImage, Failure>)
    requires
        img1.wf(),
        img2.wf(),
        img1.width == img2.width,
    ensures
        raster_matches(
            r,
            stitched(
                img2.width,
                img1.height,
                img1.pixels@,
                img2.height,
                img2.pixels@,
                ignore_right_pixels,
                min_overlap_ratio,
            ),
        ),
{
    let seam: (u32, u32) = find_seam(img1, img2, ignore_right_pixels, min_overlap_ratio);
    compose(img1, img2, seam.0, seam.1)
}

/// Picks the candidate that the smart strategy accepts: the first whose
/// composite has at least the `h1` rows of the first image; the first of all
/// when every candidate would shrink the result; none from an empty list.
pub fn choose_candidate(cands: &Vec<OverlapRun>, offset: usize, h1: usize, h2: usize) -> (r: Option<
    OverlapRun,
>)
    ensures
        r == accepted_candidate(cands@, offset as int, h1 as int, h2 as int),
        r is Some ==> cands@.contains(r->0),
{
    if cands.len() == 0 {
        return None;
    }
    let mut k: usize = 0;
    while k < cands.len()
        invariant
            k <= cands@.len(),
            cands@.len() > 0,
            first_growing(cands@, offset as int, h1 as int, h2 as int, 0) == first_growing(
                cands@,
                offset as int,
                h1 as int,
                h2 as int,
                k as int,
            ),
        decreases cands@.len() - k,
    {
        let run: OverlapRun = cands[k];
        let end2: u128 = run.start2 as u128 + run.length as u128;
        let rest: u128 = if h2 as u128 > end2 {
            h2 as u128 - end2
        } else {
            0
        };
        let total: u128 = offset as u128 + run.start1 as u128 + run.length as u128 + rest;
        if total >= h1 as u128 {
            assert(cands@[k as int] == run);
            return Some(run);
        }
        k = k + 1;
    }
    assert(cands@[0] == cands[0]);
    Some(cands[0])
}

/// Merges two rasters of one width by the smart strategy: up to five runs
/// that the tail of the first shares with the second are tried, longest
/// first, and the first whose composite is no shorter than the first image
/// is taken; when every one would shorten it, the longest is taken. Fails
/// when the rasters share no acceptable run.
pub fn stitch_rasters_smart(
    img1: &RasterImage,
    img2: &RasterImage,
    ignore_right_pixels: u32,
    min_overlap_ratio: Ratio,
) -> (r: Result<RasterImage, Failure>)
    requires
        img1.wf(),
        img2.wf(),
        img1.width == img2.width,
    ensures
        raster_matches(
            r,
            smart_stitched(
                img2.width,
                img1.height,
                img1.pixels@,
                img2.height,
                img2.pixels@,
                ignore_right_pixels,
                min_overlap_ratio,
            ),
        ),
{
    let hashes1: Vec<u64> = row_hashes(img1, ignore_right_pixels);
    let hashes2: Vec<u64> = row_hashes(img2, ignore_right_pixels);
    let len1: usize = hashes1.len();
    let len2: usize = hashes2.len();
    let offset: usize = if len1 > len2 { len1 - len2 } else { 0 };
    let region: &[u64] = slice_subrange(hashes1.as_slice(), offset, len1);
    let ghost fp1 = hashes1@;
    let ghost fp2 = hashes2@;
    assert(region@ == search_region(fp1, fp2));
    let cands: Vec<OverlapRun> = find_top_runs(
        region,
        hashes2.as_slice(),
        min_overlap_ratio,
        SMART_CANDIDATES,
    );
    proof {
        lemma_top_selection_is(
            region@,
            fp2,
            seam_threshold(fp1, fp2, min_overlap_ratio),
            SMART_CANDIDATES as int,
            cands@,
        );
    }
    match choose_candidate(&cands, offset, len1, len2) {
        Some(run) => {
            let keep_first: usize = offset + run.start1 + run.length;
            let skip_second: usize = run.start2 + run.length;
            compose(img1, img2, keep_first as u32, skip_second as u32)
        },
        None => Err(Failure::NoOverlap),
    }
}

/// Brings a raster to the given width, its proportions kept. A raster of
/// that width is returned as it is; another is resampled with the Lanczos
/// filter.
pub fn align_width(img: RasterImage, width: u32) -> (r: Result<RasterImage, Failure>)
    requires
        img.wf(),
    ensures
        raster_matches(r, aligned(img.width, img.height, img.pixels@, width)),
{
    if img.width == width {
        return Ok(img);
    }
    if img.width == 0 || img.height == 0 {
        return Err(Failure::EmptyImage);
    }
    assert(0 <= (img.height as int) * (width as int) <= 0xffff_ffff * 0xffff_ffff)
        by (nonlinear_arith)
        requires
            0 <= img.height <= 0xffff_ffff,
            0 <= width <= 0xffff_ffff,
    ;
    let scaled: u64 = (img.height as u64) * (width as u64) / (img.width as u64);
    let new_height: u32 = if scaled > u32::MAX as u64 {
        u32::MAX
    } else {
        scaled as u32
    };
    if !fits_resample(img.width, width, new_height) {
        return Err(Failure::Oversize);
    }
    Ok(resample(&img, width, new_height, ResampleFilter::Lanczos3))
}

/// Decodes two images, brings the first to the width of the second, merges
/// them by the strategy named and encodes the composite.
fn stitch_encoded(
    img1_bytes: &[u8],
    img2_bytes: &[u8],
    ignore_right_pixels: u32,
    min_overlap_ratio: Ratio,
    smart: bool,
) -> (r: Result<Vec<u8>, Failure>)
    ensures
        bytes_match(
            r,
            stitched_bytes(
                img1_bytes@,
                img2_bytes@,
                ignore_right_pixels,
                min_overlap_ratio,
                smart,
            ),
        ),
{
    let decoded1: RasterImage = match decode_rgba(img1_bytes) {
        Ok(img) => img,
        Err(message) => {
            return Err(Failure::Decode(message));
        },
    };
    let img2: RasterImage = match decode_rgba(img2_bytes) {
        Ok(img) => img,
        Err(message) => {
            return Err(Failure::Decode(message));
        },
    };
    let img1: RasterImage = match align_width(decoded1, img2.width) {
        Ok(img) => img,
        Err(failure) => {
            return Err(failure);
        },
    };
    let merged: Result<RasterImage, Failure> = if smart {
        stitch_rasters_smart(&img1, &img2, ignore_right_pixels, min_overlap_ratio)
    } else {
        stitch_rasters(&img1, &img2, ignore_right_pixels, min_overlap_ratio)
    };
    match merged {
        Ok(composite) => match encode_png(&composite) {
            Ok(bytes) => Ok(bytes),
            Err(message) => Err(Failure::Encode(message)),
        },
        Err(failure) => Err(failure),
    }
}

/// Stitches two encoded captures into one PNG by the direct strategy. The
/// first image is scaled to the width of the second where they differ; the
/// two are joined at the longest run of rows that the tail of the first
/// shares with the second, or put one below the other when they share none.
pub fn stitch_two_images(
    img1_bytes: &[u8],
    img2_bytes: &[u8],
    ignore_right_pixels: u32,
    min_overlap_ratio: Ratio,
) -> (r: Result<Vec<u8>, Failure>)
    ensures
        bytes_match(
            r,
            stitched_bytes(
                img1_bytes@,
                img2_bytes@,
                ignore_right_pixels,
                min_overlap_ratio,
                false,
            ),
        ),
{
    stitch_encoded(img1_bytes, img2_bytes, ignore_right_pixels, min_overlap_ratio, false)
}

/// Stitches two encoded captures into one PNG by the smart strategy, which
/// tries several shared runs and avoids, where it can, a composite shorter
/// than the first image. Fails when the captures share no acceptable run.
pub fn stitch_two_images_smart(
    img1_bytes: &[u8],
    img2_bytes: &[u8],
    ignore_right_pixels: u32,
    min_overlap_ratio: Ratio,
) -> (r: Result<Vec<u8>, Failure>)
    ensures
        bytes_match(
            r,
            stitched_bytes(
                img1_bytes@,
                img2_bytes@,
                ignore_right_pixels,
                min_overlap_ratio,
                true,
            ),
        ),
{
    stitch_encoded(img1_bytes, img2_bytes, ignore_right_pixels, min_overlap_ratio, true)
}

/// With no acceptable run between the two images, the direct strategy puts
/// the second image below the first: the composite has the rows of both.
pub proof fn lemma_no_overlap_concatenates(
    width: u32,
    h1: u32,
    rows1: Seq<u8>,
    h2: u32,
    rows2: Seq<u8>,
    ignore_right: u32,
    ratio: Ratio,
)
    requires
        rows1.len() == raster_len(width as int, h1 as int),
        rows2.len() == raster_len(width as int, h2 as int),
        h1 + h2 <= u32::MAX,
        all_runs_shorter(
            search_region(
                row_fingerprints(width, h1, rows1, ignore_right),
                row_fingerprints(width, h2, rows2, ignore_right),
            ),
            row_fingerprints(width, h2, rows2, ignore_right),
            seam_threshold(
                row_fingerprints(width, h1, rows1, ignore_right),
                row_fingerprints(width, h2, rows2, ignore_right),
                ratio,
            ),
        ),
    ensures
        stitched(width, h1, rows1, h2, rows2, ignore_right, ratio) == Ok::<
            (u32, u32, Seq<u8>),
            FailureKind,
        >((width, (h1 + h2) as u32, rows1 + rows2)),
{
    let fp1 = row_fingerprints(width, h1, rows1, ignore_right);
    let fp2 = row_fingerprints(width, h2, rows2, ignore_right);
    assert(is_direct_seam(fp1, fp2, ratio, h1 as int, 0));
    lemma_direct_seam_is(fp1, fp2, ratio, h1 as int, 0);
    assert(h1 * width * 4 == width * h1 * 4) by (nonlinear_arith);
    assert(h2 * width * 4 == width * h2 * 4) by (nonlinear_arith);
    assert((h2 - h2) * width * 4 == 0) by (nonlinear_arith);
    assert(rows1.subrange(0, h1 * width * 4) =~= rows1);
    assert(rows2.subrange(0, h2 * width * 4) =~= rows2);
}

/// In a buffer made of a first image followed by the rows of a second from
/// row `k` on, the rows of the first come first, unchanged, and the rows of
/// the second follow from row `k` on, unchanged.
pub proof fn lemma_rows_of_composite(
    rows1: Seq<u8>,
    rows2: Seq<u8>,
    w: int,
    h1: int,
    h2: int,
    k: int,
)
    requires
        0 <= w,
        0 <= h1,
        0 <= k <= h2,
        rows1.len() == raster_len(w, h1),
        rows2.len() == raster_len(w, h2),
    ensures
        forall|y: int|
            0 <= y < h1 ==> #[trigger] row_bytes(
                rows1 + rows2.subrange(k * w * 4, h2 * w * 4),
                w,
                y,
            ) == row_bytes(rows1, w, y),
        forall|y: int|
            0 <= y < h2 - k ==> #[trigger] row_bytes(
                rows1 + rows2.subrange(k * w * 4, h2 * w * 4),
                w,
                h1 + y,
            ) == row_bytes(rows2, w, k + y),
{
    let out = rows1 + rows2.subrange(k * w * 4, h2 * w * 4);
    assert(w * h1 * 4 == h1 * w * 4) by (nonlinear_arith);
    assert(w * h2 * 4 == h2 * w * 4) by (nonlinear_arith);
    assert(0 <= k * w * 4 <= h2 * w * 4) by (nonlinear_arith)
        requires
            0 <= k <= h2,
            0 <= w,
    ;
    assert forall|y: int| 0 <= y < h1 implies #[trigger] row_bytes(out, w, y) == row_bytes(
        rows1,
        w,
        y,
    ) by {
        assert(0 <= y * w * 4 <= (y + 1) * w * 4 <= h1 * w * 4) by (nonlinear_arith)
            requires
                0 <= y < h1,
                0 <= w,
        ;
        assert(row_bytes(out, w, y) =~= row_bytes(rows1, w, y));
    }
    assert forall|y: int| 0 <= y < h2 - k implies #[trigger] row_bytes(out, w, h1 + y)
        == row_bytes(rows2, w, k + y) by {
        assert(0 <= y * w * 4 <= (y + 1) * w * 4 <= (h2 - k) * w * 4) by (nonlinear_arith)
            requires
                0 <= y < h2 - k,
                0 <= w,
        ;
        assert((h1 + y) * w * 4 == h1 * w * 4 + y * w * 4) by (nonlinear_arith);
        assert((h1 + y + 1) * w * 4 == h1 * w * 4 + (y + 1) * w * 4) by (nonlinear_arith);
        assert((k + y) * w * 4 == k * w * 4 + y * w * 4) by (nonlinear_arith);
        assert((k + y + 1) * w * 4 == k * w * 4 + (y + 1) * w * 4) by (nonlinear_arith);
        assert((h2 - k) * w * 4 == h2 * w * 4 - k * w * 4) by (nonlinear_arith);
        assert(row_bytes(out, w, h1 + y) =~= row_bytes(rows2, w, k + y));
    }
}

/// Where the sequences agree only on the last `k` positions of the first and
/// the first `k` of the second, position by position, the common run that
/// ends at `(i, j)` has `j` positions on that diagonal and none elsewhere.
proof fn lemma_runs_on_shared_rows(tail: Seq<u64>, fp2: Seq<u64>, k: int, i: int, j: int)
    requires
        1 <= k <= tail.len(),
        k <= fp2.len(),
        forall|a: int, b: int|
            #![trigger tail[a], fp2[b]]
            0 <= a < tail.len() && 0 <= b < fp2.len() ==> (tail[a] == fp2[b] <==> b < k && a
                == tail.len() - k + b),
        0 <= i <= tail.len(),
        0 <= j <= fp2.len(),
    ensures
        run_ending_at(tail, fp2, i, j) == (if 1 <= j <= k && i - j == tail.len() - k {
            j
        } else {
            0
        }),
    decreases i,
{
    if 0 < i && 0 < j {
        lemma_runs_on_shared_rows(tail, fp2, k, i - 1, j - 1);
        let same = tail[i - 1] == fp2[j - 1];
        assert(same <==> j - 1 < k && i - 1 == tail.len() - k + (j - 1));
    }
}

/// Where the second sequence starts with the last `k` fingerprints of the
/// first, no other two positions hold the same fingerprint, and `k` reaches
/// the threshold, the direct strategy keeps the whole first image and skips
/// the first `k` rows of the second.
pub proof fn lemma_shared_rows_give_seam(fp1: Seq<u64>, fp2: Seq<u64>, ratio: Ratio, k: int)
    requires
        1 <= k <= fp1.len(),
        k <= fp2.len(),
        k >= seam_threshold(fp1, fp2, ratio),
        forall|i: int, j: int|
            #![trigger fp1[i], fp2[j]]
            0 <= i < fp1.len() && 0 <= j < fp2.len() ==> (fp1[i] == fp2[j] <==> j < k && i
                == fp1.len() - k + j),
    ensures
        is_direct_seam(fp1, fp2, ratio, fp1.len() as int, k),
{
    let offset = tail_offset(fp1.len() as int, fp2.len() as int);
    let tail = search_region(fp1, fp2);
    let n = tail.len() as int;
    assert forall|a: int, b: int|
        #![trigger tail[a], fp2[b]]
        0 <= a < tail.len() && 0 <= b < fp2.len() implies (tail[a] == fp2[b] <==> b < k && a
            == tail.len() - k + b) by {
        assert(tail[a] == fp1[offset + a]);
    }
    assert forall|a: int, b: int| end_cell(tail, fp2, a, b) implies #[trigger] run_ending_at(
        tail,
        fp2,
        a,
        b,
    ) == (if 1 <= b <= k && a - b == n - k {
        b
    } else {
        0
    }) by {
        lemma_runs_on_shared_rows(tail, fp2, k, a, b);
    }
    assert(end_cell(tail, fp2, n, k));
    assert(run_ending_at(tail, fp2, n, k) == k);
    assert(!all_runs_shorter(tail, fp2, seam_threshold(fp1, fp2, ratio)));
    assert(is_first_longest(tail, fp2, n, k));
}

/// Stitching a capture with the one scrolled further down. Where the second
/// image starts with the last `k` rows of the first, those rows are enough
/// to count as an overlap, and no other row of the first image has a
/// fingerprint in common with a row of the second, the composite is the
/// whole first image followed by the new rows of the second: its height is
/// that of the first image plus the new rows, the rows above the seam are
/// those of the first image and the rows below it the new rows of the
/// second, every pixel as it was.
pub proof fn lemma_overlap_at_bottom(
    width: u32,
    h1: u32,
    rows1: Seq<u8>,
    h2: u32,
    rows2: Seq<u8>,
    ignore_right: u32,
    ratio: Ratio,
    k: int,
)
    requires
        rows1.len() == raster_len(width as int, h1 as int),
        rows2.len() == raster_len(width as int, h2 as int),
        1 <= k <= h1,
        k <= h2,
        h1 + (h2 - k) <= u32::MAX,
        forall|j: int|
            0 <= j < k ==> #[trigger] row_bytes(rows2, width as int, j) == row_bytes(
                rows1,
                width as int,
                h1 - k + j,
            ),
        forall|i: int, j: int|
            #![trigger
                row_fingerprints(width, h1, rows1, ignore_right)[i],
                row_fingerprints(width, h2, rows2, ignore_right)[j]
            ]
            0 <= i < h1 && 0 <= j < h2 && row_fingerprints(width, h1, rows1, ignore_right)[i]
                == row_fingerprints(width, h2, rows2, ignore_right)[j] ==> j < k && i == h1 - k
                + j,
        k >= seam_threshold(
            row_fingerprints(width, h1, rows1, ignore_right),
            row_fingerprints(width, h2, rows2, ignore_right),
            ratio,
        ),
    ensures
        stitched(width, h1, rows1, h2, rows2, ignore_right, ratio) == Ok::<
            (u32, u32, Seq<u8>),
            FailureKind,
        >((width, (h1 + (h2 - k)) as u32, rows1 + rows2.subrange(k * width * 4, h2 * width * 4))),
        forall|y: int|
            0 <= y < h1 ==> #[trigger] row_bytes(
                stitched(width, h1, rows1, h2, rows2, ignore_right, ratio)->Ok_0.2,
                width as int,
                y,
            ) == row_bytes(rows1, width as int, y),
        forall|y: int|
            0 <= y < h2 - k ==> #[trigger] row_bytes(
                stitched(width, h1, rows1, h2, rows2, ignore_right, ratio)->Ok_0.2,
                width as int,
                h1 + y,
            ) == row_bytes(rows2, width as int, k + y),
{
    let w = width as int;
    let fp1 = row_fingerprints(width, h1, rows1, ignore_right);
    let fp2 = row_fingerprints(width, h2, rows2, ignore_right);
    let count = effective_width(width, ignore_right);
    assert forall|i: int, j: int|
        #![trigger fp1[i], fp2[j]]
        0 <= i < fp1.len() && 0 <= j < fp2.len() implies (fp1[i] == fp2[j] <==> j < k && i
            == fp1.len() - k + j) by {
        if j < k && i == h1 - k + j {
            assert(row_bytes(rows2, w, j) == row_bytes(rows1, w, h1 - k + j));
            assert((i + 1) * w * 4 <= w * h1 * 4) by (nonlinear_arith)
                requires
                    0 <= i < h1,
                    0 <= w,
            ;
            assert((j + 1) * w * 4 <= w * h2 * 4) by (nonlinear_arith)
                requires
                    0 <= j < h2,
                    0 <= w,
            ;
            lemma_equal_rows_equal_fingerprints(rows1, rows2, w, i, j, count);
        }
    }
    lemma_shared_rows_give_seam(fp1, fp2, ratio, k);
    lemma_direct_seam_is(fp1, fp2, ratio, h1 as int, k);
    assert(h1 * width * 4 == width * h1 * 4) by (nonlinear_arith);
    assert(rows1.subrange(0, h1 * width * 4) =~= rows1);
    lemma_rows_of_composite(rows1, rows2, width as int, h1 as int, h2 as int, k);
}

/// From some index on a candidate does not shrink the result: then the first
/// such candidate exists and does not shrink it.
proof fn lemma_first_growing_found(
    cands: Seq<OverlapRun>,
    offset: int,
    h1: int,
    h2: int,
    from: int,
    k: int,
)
    requires
        0 <= from <= k < cands.len(),
        !shrinks(cands[k], offset, h1, h2),
    ensures
        from <= first_growing(cands, offset, h1, h2, from) <= k,
        !shrinks(cands[first_growing(cands, offset, h1, h2, from)], offset, h1, h2),
    decreases k - from,
{
    if shrinks(cands[from], offset, h1, h2) {
        lemma_first_growing_found(cands, offset, h1, h2, from + 1, k);
    }
}

/// The smart strategy does not return a composite with fewer rows than the
/// first image has, as long as one of its candidates allows that. (When
/// every candidate would shorten the result, the longest is taken all the
/// same, and the composite is shorter.)
pub proof fn lemma_smart_never_shrinks(
    width: u32,
    h1: u32,
    rows1: Seq<u8>,
    h2: u32,
    rows2: Seq<u8>,
    ignore_right: u32,
    ratio: Ratio,
    k: int,
)
    requires
        0 <= k < smart_candidates(
            row_fingerprints(width, h1, rows1, ignore_right),
            row_fingerprints(width, h2, rows2, ignore_right),
            ratio,
        ).len(),
        !shrinks(
            smart_candidates(
                row_fingerprints(width, h1, rows1, ignore_right),
                row_fingerprints(width, h2, rows2, ignore_right),
                ratio,
            )[k],
            tail_offset(h1 as int, h2 as int),
            h1 as int,
            h2 as int,
        ),
        smart_stitched(width, h1, rows1, h2, rows2, ignore_right, ratio) is Ok,
    ensures
        smart_stitched(width, h1, rows1, h2, rows2, ignore_right, ratio)->Ok_0.1 >= h1,
{
    let fp1 = row_fingerprints(width, h1, rows1, ignore_right);
    let fp2 = row_fingerprints(width, h2, rows2, ignore_right);
    let cands = smart_candidates(fp1, fp2, ratio);
    lemma_first_growing_found(cands, tail_offset(h1 as int, h2 as int), h1 as int, h2 as int, 0, k);
}

} // verus!
