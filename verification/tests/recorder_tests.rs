use longstitch::recorder::{crop_frame, generate_palette, quantize_image};
use longstitch::{
    RecordConfig, RecordFormat, RecordRegion, RecordState, RecorderError, ScreenRecorder,
};

fn config(region: RecordRegion) -> RecordConfig {
    RecordConfig {
        format: RecordFormat::Gif,
        fps: 10,
        region,
        output_path: String::from("out.gif"),
    }
}

/// A frame of `width` by `height` pixels stored as blue, green, red, alpha,
/// in which the pixel at `(x, y)` holds `(x, y, x + y, 255)` in that order.
fn frame(width: usize, height: usize) -> Vec<u8> {
    let mut bytes = Vec::new();
    for y in 0..height {
        for x in 0..width {
            bytes.extend_from_slice(&[x as u8, y as u8, (x + y) as u8, 255]);
        }
    }
    bytes
}

#[test]
fn crop_cuts_the_region_and_swaps_red_and_blue() {
    let region = RecordRegion { x: 1, y: 2, width: 2, height: 2 };
    let img = crop_frame(&frame(4, 5), 4, 5, &region).unwrap();
    assert_eq!((img.width, img.height), (2, 2));
    assert_eq!(
        img.pixels,
        vec![3, 2, 1, 255, 4, 2, 2, 255, 4, 3, 1, 255, 5, 3, 2, 255]
    );
}

#[test]
fn crop_refuses_a_region_outside_the_screen() {
    let bytes = frame(4, 4);
    let inside = RecordRegion { x: 0, y: 0, width: 4, height: 4 };
    assert!(crop_frame(&bytes, 4, 4, &inside).is_some());
    for region in [
        RecordRegion { x: -1, y: 0, width: 2, height: 2 },
        RecordRegion { x: 0, y: -1, width: 2, height: 2 },
        RecordRegion { x: 3, y: 0, width: 2, height: 2 },
        RecordRegion { x: 0, y: 3, width: 2, height: 2 },
    ] {
        assert!(crop_frame(&bytes, 4, 4, &region).is_none());
    }
}

#[test]
fn crop_leaves_missing_pixels_black() {
    // The frame holds only its first row, though the screen has two.
    let bytes = frame(2, 1);
    let region = RecordRegion { x: 0, y: 0, width: 2, height: 2 };
    let img = crop_frame(&bytes, 2, 2, &region).unwrap();
    assert_eq!(img.pixels, vec![0, 0, 0, 255, 1, 0, 1, 255, 0, 0, 0, 0, 0, 0, 0, 0]);
}

#[test]
fn palette_has_a_colour_cube_and_greys() {
    let palette = generate_palette();
    assert_eq!(palette.len(), 768);
    assert_eq!(&palette[..6], &[0, 0, 0, 0, 0, 51]);
    assert_eq!(&palette[3 * 6..3 * 7], &[0, 51, 0]);
    assert_eq!(&palette[3 * 36..3 * 37], &[51, 0, 0]);
    assert_eq!(&palette[3 * 215..3 * 216], &[255, 255, 255]);
    assert_eq!(&palette[3 * 216..3 * 217], &[0, 0, 0]);
    assert_eq!(&palette[3 * 217..3 * 218], &[6, 6, 6]);
    assert_eq!(&palette[3 * 255..], &[255, 255, 255]);
}

#[test]
fn quantize_picks_the_first_nearest_colour() {
    let palette = generate_palette();
    // Black and white occur twice in the palette: the first entry wins.
    let indexed = quantize_image(
        &[0, 0, 0, 255, 255, 255, 255, 255, 50, 1, 0, 0, 250, 0, 0, 9, 6, 6, 6, 1, 77],
        &palette,
    );
    assert_eq!(indexed, vec![0, 215, 36, 180, 217]);
    let two = [10u8, 10, 10, 200, 200, 200];
    assert_eq!(quantize_image(&[100, 100, 100, 0, 110, 110, 110, 0], &two), vec![0, 1]);
    // The colour halfway between two entries goes to the first.
    assert_eq!(quantize_image(&[105, 105, 105, 0], &two), vec![0]);
    assert_eq!(quantize_image(&[1, 2, 3, 4], &[]), vec![0]);
    assert_eq!(quantize_image(&[1, 2, 3], &two), Vec::<u8>::new());
}

#[test]
fn recorder_goes_through_its_states() {
    let mut recorder = ScreenRecorder::new();
    assert_eq!(recorder.get_state(), RecordState::Idle);
    assert_eq!(recorder.get_frame_count(), 0);
    assert_eq!(recorder.start_recording(), Err(RecorderError::NoConfig));
    assert_eq!(recorder.stop_recording(), Err(RecorderError::NotRunning));

    recorder.set_config(config(RecordRegion { x: 1, y: 1, width: 2, height: 2 }));
    assert!(!recorder.record_frame(&frame(4, 4), 4, 4));
    assert_eq!(recorder.start_recording(), Ok(()));
    assert_eq!(recorder.get_state(), RecordState::Recording);
    assert_eq!(recorder.start_recording(), Err(RecorderError::AlreadyRunning));

    assert!(recorder.record_frame(&frame(4, 4), 4, 4));
    assert!(!recorder.record_frame(&frame(2, 2), 2, 2));
    assert!(recorder.record_frame(&frame(3, 3), 3, 3));
    assert_eq!(recorder.get_frame_count(), 2);
    assert_eq!(&recorder.frame(0).pixels[..4], &[2, 1, 1, 255]);

    assert!(recorder.finish_saving().is_empty());
    assert_eq!(recorder.get_state(), RecordState::Recording);
    assert_eq!(recorder.stop_recording(), Ok(()));
    assert_eq!(recorder.get_state(), RecordState::Stopped);
    assert_eq!(recorder.start_recording(), Err(RecorderError::AlreadyRunning));
    assert_eq!(recorder.stop_recording(), Err(RecorderError::NotRunning));

    let saved = recorder.finish_saving();
    assert_eq!(saved.len(), 2);
    assert_eq!(recorder.get_state(), RecordState::Idle);
    assert_eq!(recorder.get_frame_count(), 0);
    assert_eq!(recorder.start_recording(), Ok(()));
}

#[test]
fn recorder_reports_an_empty_recording() {
    let mut recorder = ScreenRecorder::new();
    recorder.set_config(config(RecordRegion { x: 0, y: 0, width: 1, height: 1 }));
    assert_eq!(recorder.start_recording(), Ok(()));
    assert_eq!(recorder.stop_recording(), Err(RecorderError::NoFrames));
    assert_eq!(recorder.get_state(), RecordState::Stopped);
    assert!(recorder.finish_saving().is_empty());
    assert_eq!(recorder.get_state(), RecordState::Idle);
}
