//! Per-frame sequencing of the four analysis stages.
//!
//! For every captured frame, in strict order: mirror in place, denoise,
//! difference against the previous denoised frame, locate the motion
//! point. The only state kept across frames is the single previous
//! denoised frame slot, replaced wholesale after every call; a frame whose
//! dimensions differ from the previous frame's (right after a camera
//! switch) is dropped from the motion-detection path but still analyzed
//! and returned for display.

use vstd::prelude::*;
use crate::buffer::PixelBuffer;
use crate::denoise::{denoise, denoised_bytes};
use crate::difference::{diff_bytes, difference};
use crate::locate::{is_rightmost_motion, locate_rightmost_motion, Point};
use crate::mirror::{mirror, mirror_bytes};

verus! {

/// Everything the pipeline produces for one captured frame: the mirrored
/// raw frame and the denoised frame (both published for display), and,
/// when a comparable previous frame existed, the thresholded difference
/// image and the detected motion point.
pub struct FrameAnalysis {
    /// The input frame, horizontally flipped in place.
    pub mirrored: PixelBuffer,
    /// The mirrored frame after median filtering and blurring.
    pub processed: PixelBuffer,
    /// Dead-zone-thresholded difference against the previous denoised
    /// frame, when one of equal dimensions existed.
    pub difference: Option<PixelBuffer>,
    /// The rightmost non-black position of the difference image, when a
    /// difference was computed and was not all black.
    pub motion: Option<Point>,
}

/// The frame-analysis pipeline: owns the single "previous denoised frame"
/// slot that differencing compares against.
pub struct Pipeline {
    previous: Option<PixelBuffer>,
}

impl Pipeline {
    /// The retained previous denoised frame, if any.
    pub closed spec fn previous_frame(self) -> Option<PixelBuffer> {
        self.previous
    }

    /// The pipeline invariant: whatever sits in the slot is well-formed.
    pub open spec fn wf(self) -> bool {
        match self.previous_frame() {
            Some(b) => b.wf(),
            None => true,
        }
    }

    /// A pipeline with an empty previous-frame slot.
    pub fn new() -> (r: Pipeline)
        ensures
            r.wf(),
            r.previous_frame() is None,
    {
        Pipeline { previous: None }
    }

    /// Run one frame through all four stages and retain its denoised form
    /// as the next call's previous frame.
    pub fn process(&mut self, frame: PixelBuffer) -> (r: FrameAnalysis)
        requires
            old(self).wf(),
            frame.wf(),
        ensures
            final(self).wf(),
            r.mirrored.wf(),
            r.mirrored.w() == frame.w(),
            r.mirrored.h() == frame.h(),
            r.mirrored.bytes() == mirror_bytes(frame.w(), frame.h(), frame.bytes()),
            r.processed.wf(),
            r.processed.w() == frame.w(),
            r.processed.h() == frame.h(),
            r.processed.bytes() == denoised_bytes(
                frame.w(),
                frame.h(),
                mirror_bytes(frame.w(), frame.h(), frame.bytes()),
            ),
            final(self).previous_frame() is Some,
            final(self).previous_frame()->Some_0.w() == frame.w(),
            final(self).previous_frame()->Some_0.h() == frame.h(),
            final(self).previous_frame()->Some_0.bytes() == r.processed.bytes(),
            match old(self).previous_frame() {
                Some(prev) => {
                    if prev.w() == frame.w() && prev.h() == frame.h() {
                        &&& r.difference is Some
                        &&& r.difference->Some_0.wf()
                        &&& r.difference->Some_0.w() == frame.w()
                        &&& r.difference->Some_0.h() == frame.h()
                        &&& r.difference->Some_0.bytes() == diff_bytes(
                            frame.w(),
                            frame.h(),
                            prev.bytes(),
                            r.processed.bytes(),
                        )
                        &&& is_rightmost_motion(
                            frame.w(),
                            frame.h(),
                            r.difference->Some_0.bytes(),
                            r.motion,
                        )
                    } else {
                        r.difference is None && r.motion is None
                    }
                },
                None => r.difference is None && r.motion is None,
            },
    {
        let mut current = frame;
        mirror(&mut current);
        let processed = denoise(&current);
        let mut diff_image: Option<PixelBuffer> = None;
        let mut motion: Option<Point> = None;
        match &self.previous {
            Some(prev) => {
                if prev.width() == processed.width() && prev.height() == processed.height() {
                    match difference(prev, &processed) {
                        Ok(d) => {
                            motion = locate_rightmost_motion(&d);
                            diff_image = Some(d);
                        },
                        Err(_) => {
                            proof {
                                assert(false);
                            }
                        },
                    }
                }
            },
            None => {},
        }
        let kept = processed.duplicate();
        self.previous = Some(kept);
        FrameAnalysis { mirrored: current, processed, difference: diff_image, motion }
    }
}

} // verus!
