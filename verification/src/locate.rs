//! Motion-point localization: the rightmost non-black pixel of a
//! difference image.
//!
//! Each row is scanned from its last column toward the first for its
//! rightmost non-black pixel; among the rows' candidates the maximum
//! column wins, and on a column tie the larger row index (the bottom-most
//! row) wins. The result is the per-frame cursor signal.

use vstd::prelude::*;
use crate::buffer::{pix_at, PixelBuffer};

verus! {

/// A detected motion location: integer pixel coordinates inside the frame,
/// recomputed fresh for every frame.
#[derive(Clone, Copy, Debug, PartialEq, Eq, Structural)]
pub struct Point {
    pub x: usize,
    pub y: usize,
}

/// Whether the pixel at `(x, y)` is exactly black: all three channels zero.
pub open spec fn pixel_black(w: int, s: Seq<u8>, x: int, y: int) -> bool {
    &&& pix_at(w, s, x, y, 0) == 0
    &&& pix_at(w, s, x, y, 1) == 0
    &&& pix_at(w, s, x, y, 2) == 0
}

/// Whether every pixel of the image is exactly black.
pub open spec fn all_black(w: int, h: int, s: Seq<u8>) -> bool {
    forall|x: int, y: int| 0 <= x < w && 0 <= y < h ==> #[trigger] pixel_black(w, s, x, y)
}

/// What `locate_rightmost_motion` returns: `None` exactly on an all-black
/// image, otherwise the non-black pixel with the greatest column index,
/// ties broken toward the greatest row index.
pub open spec fn is_rightmost_motion(w: int, h: int, s: Seq<u8>, r: Option<Point>) -> bool {
    match r {
        None => all_black(w, h, s),
        Some(p) => {
            &&& p.x < w
            &&& p.y < h
            &&& !pixel_black(w, s, p.x as int, p.y as int)
            &&& forall|x: int, y: int|
                0 <= x < w && 0 <= y < h && !#[trigger] pixel_black(w, s, x, y) ==> x < p.x as int
                    || (x == p.x as int && y <= p.y as int)
        },
    }
}

/// Scan the difference image for the rightmost non-black pixel and return
/// its position, or `None` when every pixel is black. On a column tie the
/// bottom-most row wins.
pub fn locate_rightmost_motion(diff: &PixelBuffer) -> (r: Option<Point>)
    requires
        diff.wf(),
    ensures
        is_rightmost_motion(diff.w(), diff.h(), diff.bytes(), r),
{
    let ghost w0 = diff.w();
    let ghost h0 = diff.h();
    let ghost s0 = diff.bytes();
    let w = diff.width();
    let h = diff.height();
    let mut best: Option<Point> = None;
    let mut y: usize = 0;
    while y < h
        invariant
            y <= h,
            diff.wf(),
            w == diff.w(),
            h == diff.h(),
            w0 == diff.w(),
            h0 == diff.h(),
            s0 == diff.bytes(),
            best is None ==> forall|x2: int, y2: int|
                0 <= x2 < w0 && 0 <= y2 < y ==> #[trigger] pixel_black(w0, s0, x2, y2),
            best is Some ==> {
                let p = best->Some_0;
                &&& p.x < w0
                &&& (p.y as int) < y
                &&& !pixel_black(w0, s0, p.x as int, p.y as int)
                &&& forall|x2: int, y2: int|
                    0 <= x2 < w0 && 0 <= y2 < y && !#[trigger] pixel_black(w0, s0, x2, y2) ==> x2
                        < p.x as int || (x2 == p.x as int && y2 <= p.y as int)
            },
        decreases h - y,
    {
        let mut xi: usize = w;
        let mut row_hit: Option<usize> = None;
        while xi > 0
            invariant
                xi <= w,
                y < h,
                diff.wf(),
                w == diff.w(),
                h == diff.h(),
                w0 == diff.w(),
                h0 == diff.h(),
                s0 == diff.bytes(),
                row_hit is None ==> forall|x2: int|
                    xi <= x2 < w0 ==> #[trigger] pixel_black(w0, s0, x2, y as int),
                row_hit is Some ==> {
                    let rx = row_hit->Some_0;
                    &&& xi <= rx < w0
                    &&& !pixel_black(w0, s0, rx as int, y as int)
                    &&& forall|x2: int|
                        rx < x2 < w0 ==> #[trigger] pixel_black(w0, s0, x2, y as int)
                },
            decreases xi,
        {
            xi = xi - 1;
            if row_hit.is_none() {
                let p = diff.get_pixel(xi, y);
                if p.0 != 0 || p.1 != 0 || p.2 != 0 {
                    row_hit = Some(xi);
                }
            }
        }
        match row_hit {
            Some(rx) => {
                let take = match &best {
                    None => true,
                    Some(p) => rx >= p.x,
                };
                if take {
                    best = Some(Point { x: rx, y });
                }
            },
            None => {},
        }
        y = y + 1;
    }
    best
}

} // verus!
