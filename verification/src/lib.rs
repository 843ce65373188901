//! Frame-analysis pipeline for camera-driven pointer control.
//!
//! Raw camera frames are mirrored, denoised (median filter followed by a
//! smoothing blur), compared against the previous denoised frame with a
//! dead-zone threshold, and reduced to the single rightmost point of motion,
//! which the surrounding application uses as a cursor signal.

pub mod buffer;
pub mod denoise;
pub mod difference;
pub mod locate;
pub mod median;
pub mod mirror;
pub mod pipeline;
pub mod ui;

pub use buffer::PixelBuffer;
pub use denoise::{blur, denoise};
pub use difference::{difference, DimensionMismatch};
pub use locate::{locate_rightmost_motion, Point};
pub use median::{median_filter, median_filter_reference, median_of_samples};
pub use mirror::mirror;
pub use pipeline::{FrameAnalysis, Pipeline};
pub use ui::{CameraViewState, SelectionController};
