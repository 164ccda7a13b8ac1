//! Recording a region of the screen: the settings, the recorder's states, and
//! the work on frames that needs no device.

use vstd::prelude::*;
use crate::raster::{RasterImage, raster_len, channel_index};

verus! {

/// The file formats a recording can be saved in.
#[derive(Debug, Clone, Copy, PartialEq, Eq, Structural)]
pub enum RecordFormat {
    Mp4,
    Gif,
}

/// The part of the screen that is recorded.
#[derive(Debug, Clone, Copy, PartialEq, Eq, Structural)]
pub struct RecordRegion {
    pub x: i32,
    pub y: i32,
    pub width: u32,
    pub height: u32,
}

/// What the recorder is doing.
#[derive(Debug, Clone, Copy, PartialEq, Eq, Structural)]
pub enum RecordState {
    Idle,
    Recording,
    Stopped,
}

/// The settings of one recording.
#[derive(Debug, Clone)]
pub struct RecordConfig {
    pub format: RecordFormat,
    pub fps: u32,
    pub region: RecordRegion,
    pub output_path: String,
}

/// Why the recorder refuses a request.
#[derive(Debug, Clone, Copy, PartialEq, Eq, Structural)]
pub enum RecorderError {
    /// No settings were given.
    NoConfig,
    /// A recording is under way or waits to be saved.
    AlreadyRunning,
    /// No recording is under way.
    NotRunning,
    /// The recording holds no frame.
    NoFrames,
}

/// The region lies inside a screen of the given size.
pub open spec fn region_fits(region: RecordRegion, width: int, height: int) -> bool {
    region.x >= 0 && region.y >= 0 && region.x + region.width <= width && region.y
        + region.height <= height
}

/// Position in a captured frame of the first byte of the pixel that shows at
/// `(x, y)` of the region.
pub open spec fn source_index(region: RecordRegion, width: int, x: int, y: int) -> int {
    ((region.y + y) * width + (region.x + x)) * 4
}

/// Channel `c` of the cropped pixel `(x, y)`. A frame stores blue, green,
/// red, alpha; the crop stores red, green, blue, alpha. A pixel that the
/// frame does not hold in full stays zero.
pub open spec fn cropped_channel(
    frame: Seq<u8>,
    width: int,
    region: RecordRegion,
    x: int,
    y: int,
    c: int,
) -> u8 {
    let src = source_index(region, width, x, y);
    if src + 3 < frame.len() {
        if c == 0 {
            frame[src + 2]
        } else if c == 2 {
            frame[src]
        } else {
            frame[src + c]
        }
    } else {
        0
    }
}

/// `img` is the region cut out of the frame.
pub open spec fn is_crop(img: RasterImage, frame: Seq<u8>, width: int, region: RecordRegion) -> bool {
    &&& img.wf()
    &&& img.width == region.width
    &&& img.height == region.height
    &&& forall|x: int, y: int, c: int|
        0 <= x < region.width && 0 <= y < region.height && 0 <= c < 4 ==> #[trigger] img.channel(
            x,
            y,
            c,
        ) == cropped_channel(frame, width, region, x, y, c)
}

/// Cuts the region out of a captured frame of `width` by `height` pixels and
/// swaps red and blue. Returns `None` when the region does not lie inside
/// the screen.
pub fn crop_frame(frame: &[u8], width: usize, height: usize, region: &RecordRegion) -> (r: Option<
    RasterImage,
>)
    requires
        raster_len(region.width as int, region.height as int) <= usize::MAX,
    ensures
        r is Some <==> region_fits(*region, width as int, height as int),
        r is Some ==> is_crop(r->0, frame@, width as int, *region),
{
    if region.x < 0 || region.y < 0 {
        return None;
    }
    if region.x as u64 + region.width as u64 > width as u64 {
        return None;
    }
    if region.y as u64 + region.height as u64 > height as u64 {
        return None;
    }
    let ghost w = region.width as int;
    let ghost h = region.height as int;
    let frame_len: usize = frame.len();
    let mut pixels: Vec<u8> = Vec::new();
    let mut y: u32 = 0;
    while y < region.height
        invariant
            0 <= region.x,
            0 <= region.y,
            region.x + region.width <= width,
            region.y + region.height <= height,
            w == region.width,
            h == region.height,
            raster_len(w, h) <= usize::MAX,
            frame_len == frame@.len(),
            y <= region.height,
            pixels@.len() == y * w * 4,
            forall|xx: int, yy: int, c: int|
                0 <= xx < w && 0 <= yy < y && 0 <= c < 4 ==> pixels@[#[trigger] channel_index(
                    w,
                    xx,
                    yy,
                    c,
                )] == cropped_channel(frame@, width as int, *region, xx, yy, c),
        decreases region.height - y,
    {
        let mut x: u32 = 0;
        while x < region.width
            invariant
                0 <= region.x,
                0 <= region.y,
                region.x + region.width <= width,
                region.y + region.height <= height,
                w == region.width,
                h == region.height,
                raster_len(w, h) <= usize::MAX,
                frame_len == frame@.len(),
                y < region.height,
                x <= region.width,
                pixels@.len() == (y * w + x) * 4,
                forall|xx: int, yy: int, c: int|
                    0 <= xx < w && 0 <= c < 4 && (0 <= yy < y || (yy == y && xx < x))
                        ==> pixels@[#[trigger] channel_index(w, xx, yy, c)] == cropped_channel(
                        frame@,
                        width as int,
                        *region,
                        xx,
                        yy,
                        c,
                    ),
            decreases region.width - x,
        {
            let src_x: u128 = region.x as u128 + x as u128;
            let src_y: u128 = region.y as u128 + y as u128;
            assert(0 <= (src_y as int) * (width as int) <= 0x2_0000_0000
                * 0xffff_ffff_ffff_ffff) by (nonlinear_arith)
                requires
                    0 <= src_y <= 0x2_0000_0000,
                    0 <= width <= 0xffff_ffff_ffff_ffff,
            ;
            let src: u128 = (src_y * (width as u128) + src_x) * 4;
            assert(src == source_index(*region, width as int, x as int, y as int));
            let ghost before = pixels@;
            if src + 3 < frame_len as u128 {
                let at: usize = src as usize;
                pixels.push(frame[at + 2]);
                pixels.push(frame[at + 1]);
                pixels.push(frame[at]);
                pixels.push(frame[at + 3]);
            } else {
                pixels.push(0);
                pixels.push(0);
                pixels.push(0);
                pixels.push(0);
            }
            proof {
                assert forall|xx: int, yy: int, c: int|
                    0 <= xx < w && 0 <= c < 4 && (0 <= yy < y || (yy == y && xx < x + 1))
                        implies pixels@[#[trigger] channel_index(w, xx, yy, c)] == cropped_channel(
                    frame@,
                    width as int,
                    *region,
                    xx,
                    yy,
                    c,
                ) by {
                    if yy == y && xx == x {
                        assert(channel_index(w, xx, yy, c) == before.len() + c);
                    } else {
                        lemma_cell_order(w, xx, yy, x as int, y as int);
                        assert(channel_index(w, xx, yy, c) < before.len());
                        assert(pixels@[channel_index(w, xx, yy, c)] == before[channel_index(
                            w,
                            xx,
                            yy,
                            c,
                        )]);
                    }
                }
            }
            x = x + 1;
        }
        assert((y * w + w) * 4 == (y + 1) * w * 4) by (nonlinear_arith);
        y = y + 1;
    }
    assert(pixels@.len() == raster_len(w, h)) by (nonlinear_arith)
        requires
            pixels@.len() == y * w * 4,
            y == h,
    ;
    let img = RasterImage { width: region.width, height: region.height, pixels };
    assert(is_crop(img, frame@, width as int, *region));
    Some(img)
}

/// A pixel that comes earlier in row-major order has a smaller index.
proof fn lemma_cell_order(w: int, xx: int, yy: int, x: int, y: int)
    requires
        0 <= xx < w,
        0 <= x < w,
        0 <= yy,
        yy < y || (yy == y && xx < x),
    ensures
        0 <= yy * w + xx < y * w + x,
{
    assert(0 <= yy * w) by (nonlinear_arith)
        requires
            0 <= yy,
            0 <= w,
    ;
    if yy < y {
        assert((yy + 1) * w <= y * w) by (nonlinear_arith)
            requires
                yy + 1 <= y,
                0 <= w,
        ;
        assert((yy + 1) * w == yy * w + w) by (nonlinear_arith);
    }
}

/// Number of colours in the fixed palette.
pub const PALETTE_COLOURS: usize = 256;

/// Byte `k` of the fixed palette: 216 colours with each channel at one of
/// six evenly spaced levels, red slowest and blue fastest, then 40 greys
/// from black to white.
pub open spec fn palette_byte(k: int) -> u8 {
    let colour = k / 3;
    let channel = k % 3;
    if colour < 216 {
        if channel == 0 {
            ((colour / 36) * 51) as u8
        } else if channel == 1 {
            (((colour / 6) % 6) * 51) as u8
        } else {
            ((colour % 6) * 51) as u8
        }
    } else {
        (((colour - 216) * 255) / 39) as u8
    }
}

/// Builds the fixed palette of 256 colours, three bytes each.
pub fn generate_palette() -> (palette: Vec<u8>)
    ensures
        palette@.len() == 3 * PALETTE_COLOURS,
        forall|k: int| 0 <= k < 3 * PALETTE_COLOURS ==> #[trigger] palette@[k] == palette_byte(k),
{
    let mut palette: Vec<u8> = Vec::new();
    let mut colour: usize = 0;
    while colour < 216
        invariant
            colour <= 216,
            palette@.len() == 3 * colour,
            forall|k: int| 0 <= k < 3 * colour ==> #[trigger] palette@[k] == palette_byte(k),
        decreases 216 - colour,
    {
        palette.push(((colour / 36) * 51) as u8);
        palette.push((((colour / 6) % 6) * 51) as u8);
        palette.push(((colour % 6) * 51) as u8);
        colour = colour + 1;
    }
    while colour < 256
        invariant
            216 <= colour <= 256,
            palette@.len() == 3 * colour,
            forall|k: int| 0 <= k < 3 * colour ==> #[trigger] palette@[k] == palette_byte(k),
        decreases 256 - colour,
    {
        let gray: u8 = (((colour - 216) * 255) / 39) as u8;
        palette.push(gray);
        palette.push(gray);
        palette.push(gray);
        colour = colour + 1;
    }
    palette
}

/// Squared distance between a colour and entry `j` of a palette.
pub open spec fn colour_distance(r: u8, g: u8, b: u8, palette: Seq<u8>, j: int) -> int {
    (r - palette[3 * j]) * (r - palette[3 * j]) + (g - palette[3 * j + 1]) * (g - palette[3 * j
        + 1]) + (b - palette[3 * j + 2]) * (b - palette[3 * j + 2])
}

/// Entry `j` is the nearest of the palette's `count` entries to the colour,
/// and the first among equally near ones. With an empty palette `j` is zero.
pub open spec fn is_nearest_entry(r: u8, g: u8, b: u8, palette: Seq<u8>, count: int, j: int) -> bool {
    if count == 0 {
        j == 0
    } else {
        &&& 0 <= j < count
        &&& forall|k: int|
            0 <= k < count ==> colour_distance(r, g, b, palette, j) <= #[trigger] colour_distance(
                r,
                g,
                b,
                palette,
                k,
            )
        &&& forall|k: int|
            0 <= k < j ==> colour_distance(r, g, b, palette, j) < #[trigger] colour_distance(
                r,
                g,
                b,
                palette,
                k,
            )
    }
}

/// Squared distance between a colour and a palette entry.
fn distance_to(r: u8, g: u8, b: u8, palette: &[u8], j: usize) -> (d: u32)
    requires
        3 * j + 2 < palette@.len(),
        palette@.len() <= 3 * PALETTE_COLOURS,
    ensures
        d == colour_distance(r, g, b, palette@, j as int),
        d <= 3 * 255 * 255,
{
    let dr: i32 = r as i32 - palette[3 * j] as i32;
    let dg: i32 = g as i32 - palette[3 * j + 1] as i32;
    let db: i32 = b as i32 - palette[3 * j + 2] as i32;
    assert(0 <= dr * dr <= 255 * 255) by (nonlinear_arith)
        requires
            -255 <= dr <= 255,
    ;
    assert(0 <= dg * dg <= 255 * 255) by (nonlinear_arith)
        requires
            -255 <= dg <= 255,
    ;
    assert(0 <= db * db <= 255 * 255) by (nonlinear_arith)
        requires
            -255 <= db <= 255,
    ;
    (dr * dr + dg * dg + db * db) as u32
}

/// Replaces each pixel of a buffer of red, green, blue, alpha by the index
/// of the nearest palette colour. Bytes after the last whole pixel are left
/// out. The palette holds three bytes per colour and at most 256 colours.
pub fn quantize_image(rgba_data: &[u8], palette: &[u8]) -> (indexed: Vec<u8>)
    requires
        palette@.len() % 3 == 0,
        palette@.len() <= 3 * PALETTE_COLOURS,
    ensures
        indexed@.len() == rgba_data@.len() / 4,
        forall|i: int|
            0 <= i < indexed@.len() ==> is_nearest_entry(
                rgba_data@[4 * i],
                rgba_data@[4 * i + 1],
                rgba_data@[4 * i + 2],
                palette@,
                palette@.len() as int / 3,
                #[trigger] indexed@[i] as int,
            ),
{
    let pixel_count: usize = rgba_data.len() / 4;
    let colours: usize = palette.len() / 3;
    let mut indexed: Vec<u8> = Vec::new();
    let mut i: usize = 0;
    while i < pixel_count
        invariant
            pixel_count == rgba_data@.len() / 4,
            rgba_data@.len() <= usize::MAX,
            palette@.len() <= 3 * PALETTE_COLOURS,
            colours == palette@.len() / 3,
            palette@.len() % 3 == 0,
            colours <= 256,
            i <= pixel_count,
            indexed@.len() == i,
            forall|q: int|
                0 <= q < i ==> is_nearest_entry(
                    rgba_data@[4 * q],
                    rgba_data@[4 * q + 1],
                    rgba_data@[4 * q + 2],
                    palette@,
                    colours as int,
                    #[trigger] indexed@[q] as int,
                ),
        decreases pixel_count - i,
    {
        let r: u8 = rgba_data[i * 4];
        let g: u8 = rgba_data[i * 4 + 1];
        let b: u8 = rgba_data[i * 4 + 2];
        let mut min_dist: u32 = u32::MAX;
        let mut best_index: usize = 0;
        let mut j: usize = 0;
        while j < colours
            invariant
                colours == palette@.len() / 3,
                palette@.len() % 3 == 0,
                palette@.len() <= 3 * PALETTE_COLOURS,
                colours <= 256,
                j <= colours,
                best_index < colours || (best_index == 0 && j == 0),
                j == 0 ==> min_dist == u32::MAX && best_index == 0,
                j > 0 ==> best_index < j && min_dist == colour_distance(
                    r,
                    g,
                    b,
                    palette@,
                    best_index as int,
                ),
                forall|k: int|
                    0 <= k < j ==> min_dist <= #[trigger] colour_distance(r, g, b, palette@, k),
                forall|k: int|
                    0 <= k < best_index ==> min_dist < #[trigger] colour_distance(
                        r,
                        g,
                        b,
                        palette@,
                        k,
                    ),
            decreases colours - j,
        {
            let dist: u32 = distance_to(r, g, b, palette, j);
            if dist < min_dist {
                min_dist = dist;
                best_index = j;
            }
            j = j + 1;
        }
        indexed.push(best_index as u8);
        i = i + 1;
    }
    indexed
}

/// The state of a recording session: its settings, what it is doing, and the
/// frames taken so far.
pub struct ScreenRecorder {
    config: Option<RecordConfig>,
    state: RecordState,
    frames: Vec<RasterImage>,
}

impl ScreenRecorder {
    /// The settings, if any were given.
    pub closed spec fn config(&self) -> Option<RecordConfig> {
        self.config
    }

    /// What the recorder is doing.
    pub closed spec fn state(&self) -> RecordState {
        self.state
    }

    /// The frames taken so far.
    pub closed spec fn frames(&self) -> Seq<RasterImage> {
        self.frames@
    }

    /// A recorder that is idle, without settings or frames.
    pub fn new() -> (r: ScreenRecorder)
        ensures
            r.config() is None,
            r.state() == RecordState::Idle,
            r.frames().len() == 0,
    {
        ScreenRecorder { config: None, state: RecordState::Idle, frames: Vec::new() }
    }

    /// Replaces the settings.
    pub fn set_config(&mut self, config: RecordConfig)
        ensures
            final(self).config() == Some(config),
            final(self).state() == old(self).state(),
            final(self).frames() == old(self).frames(),
    {
        self.config = Some(config);
    }

    /// Starts a recording. Refused without settings, and unless the recorder
    /// is idle; a refusal changes nothing.
    pub fn start_recording(&mut self) -> (r: Result<(), RecorderError>)
        ensures
            final(self).config() == old(self).config(),
            final(self).frames() == old(self).frames(),
            old(self).config() is None ==> r == Err::<(), RecorderError>(RecorderError::NoConfig),
            old(self).config() is Some && old(self).state() != RecordState::Idle ==> r == Err::<
                (),
                RecorderError,
            >(RecorderError::AlreadyRunning),
            old(self).config() is Some && old(self).state() == RecordState::Idle ==> r is Ok,
            r is Ok ==> final(self).state() == RecordState::Recording,
            r is Err ==> final(self).state() == old(self).state(),
    {
        if self.config.is_none() {
            return Err(RecorderError::NoConfig);
        }
        if self.state != RecordState::Idle {
            return Err(RecorderError::AlreadyRunning);
        }
        self.state = RecordState::Recording;
        Ok(())
    }

    /// Takes in one captured frame of `width` by `height` pixels: while a
    /// recording is under way, the region of the settings is cut out and
    /// kept, if it lies inside the frame and its size fits a buffer. Tells
    /// whether a frame was kept.
    pub fn record_frame(&mut self, frame: &[u8], width: usize, height: usize) -> (kept: bool)
        ensures
            final(self).config() == old(self).config(),
            final(self).state() == old(self).state(),
            kept <==> old(self).state() == RecordState::Recording && old(self).config() is Some
                && region_fits(old(self).config()->0.region, width as int, height as int)
                && raster_len(
                old(self).config()->0.region.width as int,
                old(self).config()->0.region.height as int,
            ) <= usize::MAX,
            !kept ==> final(self).frames() == old(self).frames(),
            kept ==> final(self).frames().len() == old(self).frames().len() + 1
                && final(self).frames().drop_last() == old(self).frames() && is_crop(
                final(self).frames().last(),
                frame@,
                width as int,
                old(self).config()->0.region,
            ),
    {
        if self.state != RecordState::Recording {
            return false;
        }
        let region: RecordRegion = match &self.config {
            Some(config) => config.region,
            None => {
                return false;
            },
        };
        assert(0 <= (region.width as int) * (region.height as int) <= 0xffff_ffff * 0xffff_ffff)
            by (nonlinear_arith)
            requires
                0 <= region.width <= 0xffff_ffff,
                0 <= region.height <= 0xffff_ffff,
        ;
        let need: u128 = (region.width as u128) * (region.height as u128) * 4;
        if need > usize::MAX as u128 {
            return false;
        }
        match crop_frame(frame, width, height, &region) {
            Some(cropped) => {
                let ghost before = self.frames@;
                self.frames.push(cropped);
                assert(self.frames@.drop_last() =~= before);
                true
            },
            None => false,
        }
    }

    /// Ends the recording under way, so that its frames can be saved.
    /// Refused unless a recording is under way. A recording without frames
    /// is ended too, and reported as such.
    pub fn stop_recording(&mut self) -> (r: Result<(), RecorderError>)
        ensures
            final(self).config() == old(self).config(),
            final(self).frames() == old(self).frames(),
            old(self).state() != RecordState::Recording ==> r == Err::<(), RecorderError>(
                RecorderError::NotRunning,
            ) && final(self).state() == old(self).state(),
            old(self).state() == RecordState::Recording ==> final(self).state()
                == RecordState::Stopped,
            old(self).state() == RecordState::Recording && old(self).frames().len() == 0 ==> r
                == Err::<(), RecorderError>(RecorderError::NoFrames),
            old(self).state() == RecordState::Recording && old(self).frames().len() > 0 ==> r
                is Ok,
    {
        if self.state != RecordState::Recording {
            return Err(RecorderError::NotRunning);
        }
        self.state = RecordState::Stopped;
        if self.frames.len() == 0 {
            return Err(RecorderError::NoFrames);
        }
        Ok(())
    }

    /// Hands over the frames of an ended recording once they are saved, and
    /// makes the recorder idle again. In any other state nothing changes and
    /// nothing is handed over.
    pub fn finish_saving(&mut self) -> (saved: Vec<RasterImage>)
        ensures
            final(self).config() == old(self).config(),
            old(self).state() == RecordState::Stopped ==> final(self).state() == RecordState::Idle
                && final(self).frames().len() == 0 && saved@ == old(self).frames(),
            old(self).state() != RecordState::Stopped ==> final(self).state() == old(
                self,
            ).state() && final(self).frames() == old(self).frames() && saved@.len() == 0,
    {
        if self.state != RecordState::Stopped {
            return Vec::new();
        }
        self.state = RecordState::Idle;
        let mut saved: Vec<RasterImage> = Vec::new();
        core::mem::swap(&mut saved, &mut self.frames);
        saved
    }

    /// What the recorder is doing.
    pub fn get_state(&self) -> (s: RecordState)
        ensures
            s == self.state(),
    {
        self.state
    }

    /// Number of frames taken so far.
    pub fn get_frame_count(&self) -> (n: usize)
        ensures
            n == self.frames().len(),
    {
        self.frames.len()
    }

    /// The frame at `index`.
    pub fn frame(&self, index: usize) -> (f: &RasterImage)
        requires
            index < self.frames().len(),
        ensures
            *f == self.frames()[index as int],
    {
        &self.frames[index]
    }
}

} // verus!
