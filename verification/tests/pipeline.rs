//! Tests for the per-frame pipeline sequencing and the UI decision cores.

use webcam_mouse::{CameraViewState, PixelBuffer, Pipeline, Point, SelectionController};

fn solid(w: usize, h: usize, color: (u8, u8, u8)) -> PixelBuffer {
    let mut data = Vec::with_capacity(w * h * 3);
    for _ in 0..w * h {
        data.push(color.0);
        data.push(color.1);
        data.push(color.2);
    }
    PixelBuffer::from_raw(w, h, data).expect("dimensions match data length")
}

#[test]
fn first_frame_has_no_difference() {
    let mut pipeline = Pipeline::new();
    let result = pipeline.process(solid(8, 6, (0, 0, 0)));
    assert_eq!(result.mirrored.width(), 8);
    assert_eq!(result.mirrored.height(), 6);
    assert_eq!(result.processed.width(), 8);
    assert_eq!(result.processed.height(), 6);
    assert!(result.difference.is_none());
    assert!(result.motion.is_none());
}

#[test]
fn second_frame_yields_difference_and_motion() {
    let mut pipeline = Pipeline::new();
    let first = pipeline.process(solid(8, 6, (0, 0, 0)));
    assert!(first.difference.is_none());
    let second = pipeline.process(solid(8, 6, (255, 255, 255)));
    let diff = second.difference.expect("same dimensions, so a difference image");
    // All-black versus all-white: every channel changes by 255, far above
    // the dead zone, so every pixel is non-black and the rightmost
    // bottom-most pixel wins.
    assert_eq!(diff.get_pixel(0, 0), (224, 224, 224));
    assert_eq!(second.motion, Some(Point { x: 7, y: 5 }));
}

#[test]
fn static_scene_reports_no_motion() {
    let mut pipeline = Pipeline::new();
    pipeline.process(solid(8, 6, (90, 90, 90)));
    let second = pipeline.process(solid(8, 6, (90, 90, 90)));
    assert!(second.difference.is_some());
    assert!(second.motion.is_none());
}

#[test]
fn resolution_change_skips_difference_then_recovers() {
    let mut pipeline = Pipeline::new();
    pipeline.process(solid(8, 6, (10, 10, 10)));
    let switched = pipeline.process(solid(4, 4, (10, 10, 10)));
    assert!(switched.difference.is_none());
    assert!(switched.motion.is_none());
    let recovered = pipeline.process(solid(4, 4, (10, 10, 10)));
    assert!(recovered.difference.is_some());
}

#[test]
fn mirrored_frame_is_flipped_input() {
    let mut pipeline = Pipeline::new();
    let mut data = Vec::new();
    for y in 0..2usize {
        for x in 0..4usize {
            data.push((x * 10 + y) as u8);
            data.push(0);
            data.push(0);
        }
    }
    let frame = PixelBuffer::from_raw(4, 2, data).expect("dimensions match data length");
    let result = pipeline.process(frame);
    for y in 0..2usize {
        for x in 0..4usize {
            assert_eq!(result.mirrored.get_pixel(x, y), (((3 - x) * 10 + y) as u8, 0, 0));
        }
    }
}

#[test]
fn selection_update_forwards_only_changes() {
    let controller = SelectionController::new();
    assert_eq!(controller.selection_update(0, 2), Some(2));
    assert_eq!(controller.selection_update(1, 0), Some(0));
    assert_eq!(controller.selection_update(3, 3), None);
}

#[test]
fn camera_view_state_tracks_messages() {
    let mut state = CameraViewState::default();
    assert_eq!(state.image_dimensions, (0, 0));
    assert_eq!(state.detected_point, (0, 0));
    let before = state;
    state.on_frame(640, 480);
    assert_eq!(state.image_dimensions, (640, 480));
    assert_eq!(state.detected_point, (0, 0));
    assert!(state.needs_layout(&before));
    let sized = state;
    state.on_point(400, 300);
    assert_eq!(state.detected_point, (400, 300));
    assert_eq!(state.image_dimensions, (640, 480));
    assert!(!state.needs_layout(&sized));
}
