//! Decoded images as plain values: four 8-bit channels per pixel, row-major.

use vstd::prelude::*;

verus! {

/// Ways an operation on images can fail.
#[derive(Debug)]
pub enum Failure {
    /// The bytes are not an image that the decoder accepts; holds its message.
    Decode(String),
    /// The encoder refused the raster; holds its message.
    Encode(String),
    /// The image has no pixels, so there is nothing to sample.
    EmptyImage,
    /// A dimension of the result does not fit its integer type.
    Oversize,
    /// No run of rows is shared by the two images.
    NoOverlap,
}

/// The ways of failing, without their messages.
#[derive(Clone, Copy, Debug, PartialEq, Eq, Structural)]
pub enum FailureKind {
    Decode,
    Encode,
    EmptyImage,
    Oversize,
    NoOverlap,
}

impl Failure {
    /// Which way of failing this is.
    pub open spec fn kind_spec(&self) -> FailureKind {
        match self {
            Failure::Decode(_) => FailureKind::Decode,
            Failure::Encode(_) => FailureKind::Encode,
            Failure::EmptyImage => FailureKind::EmptyImage,
            Failure::Oversize => FailureKind::Oversize,
            Failure::NoOverlap => FailureKind::NoOverlap,
        }
    }

    /// Which way of failing this is.
    #[verifier::when_used_as_spec(kind_spec)]
    pub fn kind(&self) -> (k: FailureKind)
        ensures
            k == self.kind_spec(),
    {
        match self {
            Failure::Decode(_) => FailureKind::Decode,
            Failure::Encode(_) => FailureKind::Encode,
            Failure::EmptyImage => FailureKind::EmptyImage,
            Failure::Oversize => FailureKind::Oversize,
            Failure::NoOverlap => FailureKind::NoOverlap,
        }
    }
}

impl Failure {
    /// The words that describe this failure: the codec's own message where
    /// it gave one.
    pub open spec fn message_spec(&self) -> Seq<char> {
        match self {
            Failure::Decode(message) => message@,
            Failure::Encode(message) => message@,
            Failure::EmptyImage => ("Image has no pixels")@,
            Failure::Oversize => ("Image is too large")@,
            Failure::NoOverlap => ("No overlap found")@,
        }
    }

    /// The words that describe this failure.
    pub fn message(&self) -> (m: String)
        ensures
            m@ == self.message_spec(),
    {
        match self {
            Failure::Decode(message) => message.clone(),
            Failure::Encode(message) => message.clone(),
            Failure::EmptyImage => "Image has no pixels".to_owned(),
            Failure::Oversize => "Image is too large".to_owned(),
            Failure::NoOverlap => "No overlap found".to_owned(),
        }
    }
}

/// `r` is the raster `expected` describes, or fails in the way it names.
pub open spec fn raster_matches(
    r: Result<RasterImage, Failure>,
    expected: Result<(u32, u32, Seq<u8>), FailureKind>,
) -> bool {
    match expected {
        Ok((width, height, pixels)) => r is Ok && r->Ok_0.width == width && r->Ok_0.height
            == height && r->Ok_0.pixels@ == pixels && r->Ok_0.wf(),
        Err(kind) => r is Err && r->Err_0.kind() == kind,
    }
}

/// `r` holds the bytes `expected` describes, or fails in the way it names.
pub open spec fn bytes_match(
    r: Result<Vec<u8>, Failure>,
    expected: Result<Seq<u8>, FailureKind>,
) -> bool {
    match expected {
        Ok(bytes) => r is Ok && r->Ok_0@ == bytes,
        Err(kind) => r is Err && r->Err_0.kind() == kind,
    }
}

/// A decoded image: `pixels` holds `height` rows of `width` pixels, each pixel
/// as red, green, blue, alpha.
#[derive(Debug)]
pub struct RasterImage {
    pub width: u32,
    pub height: u32,
    pub pixels: Vec<u8>,
}

/// Number of bytes that a raster of the given size holds.
pub open spec fn raster_len(width: int, height: int) -> int {
    width * height * 4
}

/// Position in the pixel buffer of channel `c` of the pixel at column `x` of row `y`.
pub open spec fn channel_index(width: int, x: int, y: int, c: int) -> int {
    (y * width + x) * 4 + c
}

/// The bytes of row `y` of a buffer whose rows are `width` pixels wide.
pub open spec fn row_bytes(pixels: Seq<u8>, width: int, y: int) -> Seq<u8> {
    pixels.subrange(y * width * 4, (y + 1) * width * 4)
}

/// A channel of a pixel inside the image lies inside the buffer, within the
/// bytes of its row.
pub proof fn lemma_channel_index_bounds(width: int, height: int, x: int, y: int, c: int)
    requires
        0 <= x < width,
        0 <= y < height,
        0 <= c < 4,
    ensures
        0 <= channel_index(width, x, y, c) < raster_len(width, height),
        y * width * 4 <= channel_index(width, x, y, c) < (y + 1) * width * 4,
        (y + 1) * width * 4 <= raster_len(width, height),
{
    assert(y * width + x < height * width) by (nonlinear_arith)
        requires 0 <= x < width, 0 <= y < height;
    assert(0 <= y * width) by (nonlinear_arith)
        requires 0 <= width, 0 <= y;
    assert(width * height == height * width) by (nonlinear_arith);
    assert(width * height * 4 == (width * height) * 4);
    assert((y + 1) * width * 4 == (y * width + width) * 4) by (nonlinear_arith);
    assert(y * width * 4 == (y * width) * 4);
    assert((y + 1) * width <= height * width) by (nonlinear_arith)
        requires 0 <= y < height, 0 <= width;
    assert((y + 1) * width * 4 == ((y + 1) * width) * 4);
}

impl RasterImage {
    /// The buffer holds exactly `width * height` pixels.
    pub open spec fn wf(&self) -> bool {
        self.pixels@.len() == raster_len(self.width as int, self.height as int)
    }

    /// Channel `c` of the pixel at column `x` of row `y`.
    pub open spec fn channel(&self, x: int, y: int, c: int) -> u8 {
        self.pixels@[channel_index(self.width as int, x, y, c)]
    }

    /// Builds a raster from its parts; `None` when the buffer's length is not
    /// that of a `width` by `height` image.
    pub fn new(width: u32, height: u32, pixels: Vec<u8>) -> (r: Option<RasterImage>)
        ensures
            r is Some <==> pixels@.len() == raster_len(width as int, height as int),
            r is Some ==> r->0.width == width && r->0.height == height && r->0.pixels == pixels
                && r->0.wf(),
    {
        assert(0 <= (width as int) * (height as int) <= 0xffff_ffff * 0xffff_ffff)
            by (nonlinear_arith)
            requires
                0 <= width <= 0xffff_ffff,
                0 <= height <= 0xffff_ffff,
        ;
        let need: u128 = (width as u128) * (height as u128) * 4;
        if pixels.len() as u128 == need {
            Some(RasterImage { width, height, pixels })
        } else {
            None
        }
    }

    /// Reads one channel of one pixel.
    pub fn get(&self, x: u32, y: u32, c: usize) -> (v: u8)
        requires
            self.wf(),
            x < self.width,
            y < self.height,
            c < 4,
        ensures
            v == self.channel(x as int, y as int, c as int),
    {
        proof {
            lemma_channel_index_bounds(
                self.width as int,
                self.height as int,
                x as int,
                y as int,
                c as int,
            );
            assert(0 <= (y as int) * (self.width as int)) by (nonlinear_arith);
        }
        let len: usize = self.pixels.len();
        let idx: usize = ((y as usize) * (self.width as usize) + (x as usize)) * 4 + c;
        self.pixels[idx]
    }
}

} // verus!
