//! Fingerprinting and overlap stitching for scrolled screen captures.
//!
//! Two captures of a scrolled surface are aligned by comparing one coarse
//! fingerprint per pixel row, and merged at the seam that the longest run of
//! equal fingerprints gives. Whole-image fingerprints of 64 bits serve to
//! compare captures at a glance.

pub mod raster;
pub mod codec;
pub mod matcher;
pub mod row_hash;
pub mod hashing;
pub mod stitch;
pub mod recorder;
pub mod overlay;

pub use crate::raster::{Failure, FailureKind, RasterImage};
pub use crate::matcher::{
    find_longest_common_substring, find_longest_run, find_top_common_substrings, find_top_runs,
    OverlapRun, Ratio,
};
pub use crate::row_hash::{compute_row_hashes, row_hashes};
pub use crate::hashing::{compute_ahash, compute_dhash, hamming_distance};
pub use crate::stitch::{
    choose_candidate, compose, stitch_rasters, stitch_rasters_smart, stitch_two_images,
    stitch_two_images_smart,
};
pub use crate::recorder::{
    RecordConfig, RecordFormat, RecordRegion, RecordState, RecorderError, ScreenRecorder,
};
pub use crate::overlay::overlay_image;
