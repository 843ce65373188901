//! Decision cores of the user-interface controllers.
//!
//! The widget plumbing (event loops, painting, channels) lives with the
//! application; the pure decisions it makes — when a camera pick is
//! forwarded, how the camera view's state reacts to incoming frame and
//! point messages — live here, where they are verified.

use vstd::prelude::*;

verus! {

/// Decision core of the camera-picker dropdown controller: it forwards a
/// newly selected camera index exactly when the selection changed.
pub struct SelectionController {}

impl SelectionController {
    /// Create a new SelectionController.
    pub fn new() -> (r: SelectionController) {
        SelectionController {}
    }

    /// The index to forward after a selection update: the new index when
    /// it differs from the old one, nothing otherwise.
    pub fn selection_update(&self, old_index: usize, new_index: usize) -> (r: Option<usize>)
        ensures
            old_index != new_index ==> r == Some(new_index),
            old_index == new_index ==> r is None,
    {
        if old_index != new_index {
            Some(new_index)
        } else {
            None
        }
    }
}

/// State of a camera view: the dimensions of the image on display and the
/// last detected motion point, both updated by incoming messages.
#[derive(Clone, Copy, Debug)]
pub struct CameraViewState {
    /// Width and height of the displayed image.
    pub image_dimensions: (u32, u32),
    /// Detected point position on the image.
    pub detected_point: (u32, u32),
}

impl CameraViewState {
    /// A new frame arrived: record its dimensions; the detected point is
    /// untouched.
    pub fn on_frame(&mut self, width: u32, height: u32)
        ensures
            final(self).image_dimensions == (width, height),
            final(self).detected_point == old(self).detected_point,
    {
        self.image_dimensions = (width, height);
    }

    /// A detected point arrived: record it; the dimensions are untouched.
    pub fn on_point(&mut self, x: u32, y: u32)
        ensures
            final(self).detected_point == (x, y),
            final(self).image_dimensions == old(self).image_dimensions,
    {
        self.detected_point = (x, y);
    }

    /// Whether a state update requires the view to be laid out again: only
    /// when the image dimensions changed.
    pub fn needs_layout(&self, old_state: &CameraViewState) -> (r: bool)
        ensures
            r == (self.image_dimensions != old_state.image_dimensions),
    {
        self.image_dimensions.0 != old_state.image_dimensions.0 || self.image_dimensions.1
            != old_state.image_dimensions.1
    }
}

impl Default for CameraViewState {
    /// The state before any message arrived: zero dimensions, origin point.
    fn default() -> (r: CameraViewState)
        ensures
            r.image_dimensions == (0u32, 0u32),
            r.detected_point == (0u32, 0u32),
    {
        CameraViewState { image_dimensions: (0, 0), detected_point: (0, 0) }
    }
}

} // verus!
