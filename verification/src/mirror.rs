//! Horizontal mirroring of a frame, in place.
//!
//! Cameras present a mirrored view; flipping each row restores the natural
//! left/right correspondence before any further processing.

use vstd::prelude::*;
use crate::buffer::{buf_wf, lemma_bytes_pointwise_eq, lemma_map_pixels_at, map_pixels, pix_at,
    PixelBuffer};

verus! {

/// The byte sequence of the horizontally flipped image: the pixel at column
/// `x` takes the value of the pixel at column `w - 1 - x` of the same row,
/// its three channel bytes moving together.
pub open spec fn mirror_bytes(w: int, h: int, s: Seq<u8>) -> Seq<u8> {
    map_pixels(w, s.len() as int, |x: int, y: int, c: int| pix_at(w, s, w - 1 - x, y, c))
}

/// Reverse the pixel order of every row of `buffer`, in place. Vertical
/// order and pixel values are unchanged; a zero-width or zero-height buffer
/// is left as it is.
pub fn mirror(buffer: &mut PixelBuffer)
    requires
        old(buffer).wf(),
    ensures
        final(buffer).wf(),
        final(buffer).w() == old(buffer).w(),
        final(buffer).h() == old(buffer).h(),
        final(buffer).bytes() == mirror_bytes(old(buffer).w(), old(buffer).h(), old(buffer).bytes()),
{
    let w = buffer.width();
    let h = buffer.height();
    let ghost w0 = buffer.w();
    let ghost h0 = buffer.h();
    let ghost s0 = buffer.bytes();
    let mut y: usize = 0;
    while y < h
        invariant
            y <= h,
            buffer.wf(),
            buffer.w() == w0,
            buffer.h() == h0,
            w == w0,
            h == h0,
            buf_wf(w0, h0, s0),
            forall|x2: int, y2: int, c2: int|
                0 <= x2 < w0 && 0 <= y2 < h0 && 0 <= c2 < 3 ==> #[trigger] buffer.at(x2, y2, c2)
                    == if y2 < y {
                    pix_at(w0, s0, w0 - 1 - x2, y2, c2)
                } else {
                    pix_at(w0, s0, x2, y2, c2)
                },
        decreases h - y,
    {
        let mut x: usize = 0;
        while x < w / 2
            invariant
                x <= w / 2,
                y < h,
                buffer.wf(),
                buffer.w() == w0,
                buffer.h() == h0,
                w == w0,
                h == h0,
                buf_wf(w0, h0, s0),
                forall|x2: int, y2: int, c2: int|
                    0 <= x2 < w0 && 0 <= y2 < h0 && 0 <= c2 < 3 && y2 != y
                        ==> #[trigger] buffer.at(x2, y2, c2) == if y2 < y {
                        pix_at(w0, s0, w0 - 1 - x2, y2, c2)
                    } else {
                        pix_at(w0, s0, x2, y2, c2)
                    },
                forall|x2: int, c2: int|
                    0 <= x2 < w0 && 0 <= c2 < 3 ==> #[trigger] buffer.at(x2, y as int, c2)
                        == if x2 < x || x2 > w0 - 1 - x {
                        pix_at(w0, s0, w0 - 1 - x2, y as int, c2)
                    } else {
                        pix_at(w0, s0, x2, y as int, c2)
                    },
            decreases w / 2 - x,
        {
            let xr = w - 1 - x;
            let left = buffer.get_pixel(x, y);
            let right = buffer.get_pixel(xr, y);
            buffer.set_pixel(x, y, right);
            buffer.set_pixel(xr, y, left);
            x = x + 1;
        }
        proof {
            // The middle pixel of an odd-width row mirrors to itself.
            assert forall|x2: int, c2: int| 0 <= x2 < w0 && 0 <= c2 < 3 implies #[trigger] buffer
                .at(x2, y as int, c2) == pix_at(w0, s0, w0 - 1 - x2, y as int, c2) by {
                if !(x2 < w / 2 || x2 > w0 - 1 - w / 2) {
                    assert(x2 == w0 - 1 - x2);
                }
            }
        }
        y = y + 1;
    }
    proof {
        let m = mirror_bytes(w0, h0, s0);
        assert forall|x2: int, y2: int, c2: int|
            0 <= x2 < w0 && 0 <= y2 < h0 && 0 <= c2 < 3 implies buffer.at(x2, y2, c2)
            == #[trigger] pix_at(w0, m, x2, y2, c2) by {
            lemma_map_pixels_at(
                w0,
                h0,
                s0.len() as int,
                |x3: int, y3: int, c3: int| pix_at(w0, s0, w0 - 1 - x3, y3, c3),
                x2,
                y2,
                c2,
            );
        }
        lemma_bytes_pointwise_eq(w0, h0, buffer.bytes(), m);
    }
}

/// Reading the mirrored image at `(x, y, c)` yields the source image's value
/// at `(w - 1 - x, y, c)`.
pub proof fn lemma_mirror_at(w: int, h: int, s: Seq<u8>, x: int, y: int, c: int)
    requires
        buf_wf(w, h, s),
        0 <= x < w,
        0 <= y < h,
        0 <= c < 3,
    ensures
        pix_at(w, mirror_bytes(w, h, s), x, y, c) == pix_at(w, s, w - 1 - x, y, c),
{
    lemma_map_pixels_at(
        w,
        h,
        s.len() as int,
        |x3: int, y3: int, c3: int| pix_at(w, s, w - 1 - x3, y3, c3),
        x,
        y,
        c,
    );
}

/// Mirroring is an involution: flipping a buffer twice restores the original
/// bytes exactly.
pub proof fn lemma_mirror_involution(w: int, h: int, s: Seq<u8>)
    requires
        buf_wf(w, h, s),
    ensures
        mirror_bytes(w, h, mirror_bytes(w, h, s)) == s,
{
    let m = mirror_bytes(w, h, s);
    let mm = mirror_bytes(w, h, m);
    assert(buf_wf(w, h, m));
    assert(buf_wf(w, h, mm));
    assert forall|x: int, y: int, c: int|
        0 <= x < w && 0 <= y < h && 0 <= c < 3 implies pix_at(w, mm, x, y, c) == #[trigger] pix_at(
        w,
        s,
        x,
        y,
        c,
    ) by {
        lemma_mirror_at(w, h, m, x, y, c);
        lemma_mirror_at(w, h, s, w - 1 - x, y, c);
    }
    lemma_bytes_pointwise_eq(w, h, mm, s);
}

/// A horizontally symmetric image is a fixed point of mirroring.
pub proof fn lemma_mirror_symmetric_fixed_point(w: int, h: int, s: Seq<u8>)
    requires
        buf_wf(w, h, s),
        forall|x: int, y: int, c: int|
            0 <= x < w && 0 <= y < h && 0 <= c < 3 ==> #[trigger] pix_at(w, s, x, y, c) == pix_at(
                w,
                s,
                w - 1 - x,
                y,
                c,
            ),
    ensures
        mirror_bytes(w, h, s) == s,
{
    let m = mirror_bytes(w, h, s);
    assert(buf_wf(w, h, m));
    assert forall|x: int, y: int, c: int|
        0 <= x < w && 0 <= y < h && 0 <= c < 3 implies pix_at(w, m, x, y, c) == #[trigger] pix_at(
        w,
        s,
        x,
        y,
        c,
    ) by {
        lemma_mirror_at(w, h, s, x, y, c);
    }
    lemma_bytes_pointwise_eq(w, h, m, s);
}

} // verus!
