//! Noise suppression: the 5-by-5 median filter followed by a smoothing
//! blur.
//!
//! The blur is a fixed, symmetric, normalized 3-by-3 convolution with
//! integer weights 1-2-1 / 2-4-2 / 1-2-1 over 16, sampled with edge
//! clamping — a low-pass kernel that stabilizes frame differencing.

use vstd::prelude::*;
use crate::buffer::{buf_wf, lemma_bytes_pointwise_eq, lemma_index_decompose, lemma_map_pixels_at,
    map_pixels, pix_at, rgb_channel, PixelBuffer};
use crate::median::{clamp_coord, clamped, lemma_median_of_constant, median_bytes, median_filter,
    window5};

verus! {

/// The edge-clamped sample of channel `c` at offset `(dx, dy)` from
/// `(x, y)`, as an integer.
pub open spec fn blur_sample(
    w: int,
    h: int,
    s: Seq<u8>,
    x: int,
    y: int,
    c: int,
    dx: int,
    dy: int,
) -> int {
    pix_at(w, s, clamp_coord(x + dx, w), clamp_coord(y + dy, h), c) as int
}

/// The weighted neighborhood sum of the 3-by-3 blur kernel at `(x, y)`:
/// weights 1-2-1 / 2-4-2 / 1-2-1, which total 16.
pub open spec fn blur_sum(w: int, h: int, s: Seq<u8>, x: int, y: int, c: int) -> int {
    blur_sample(w, h, s, x, y, c, -1, -1) + 2 * blur_sample(w, h, s, x, y, c, 0, -1)
        + blur_sample(w, h, s, x, y, c, 1, -1) + 2 * blur_sample(w, h, s, x, y, c, -1, 0) + 4
        * blur_sample(w, h, s, x, y, c, 0, 0) + 2 * blur_sample(w, h, s, x, y, c, 1, 0)
        + blur_sample(w, h, s, x, y, c, -1, 1) + 2 * blur_sample(w, h, s, x, y, c, 0, 1)
        + blur_sample(w, h, s, x, y, c, 1, 1)
}

/// The blurred value of channel `c` at `(x, y)`: the weighted sum divided
/// by the kernel total.
pub open spec fn blur_at(w: int, h: int, s: Seq<u8>, x: int, y: int, c: int) -> u8 {
    (blur_sum(w, h, s, x, y, c) / 16) as u8
}

/// The byte sequence of the blurred image.
pub open spec fn blur_bytes(w: int, h: int, s: Seq<u8>) -> Seq<u8> {
    map_pixels(w, s.len() as int, |x: int, y: int, c: int| blur_at(w, h, s, x, y, c))
}

/// The byte sequence of the fully denoised image: median filter first,
/// then the smoothing blur.
pub open spec fn denoised_bytes(w: int, h: int, s: Seq<u8>) -> Seq<u8> {
    blur_bytes(w, h, median_bytes(w, h, s))
}

/// Apply the 3-by-3 smoothing kernel to every channel of every pixel, with
/// edge-clamped sampling.
pub fn blur(buffer: &PixelBuffer) -> (r: PixelBuffer)
    requires
        buffer.wf(),
    ensures
        r.wf(),
        r.w() == buffer.w(),
        r.h() == buffer.h(),
        r.bytes() == blur_bytes(buffer.w(), buffer.h(), buffer.bytes()),
{
    let ghost w0 = buffer.w();
    let ghost h0 = buffer.h();
    let ghost s0 = buffer.bytes();
    let ghost target = blur_bytes(w0, h0, s0);
    let w = buffer.width();
    let h = buffer.height();
    let mut out: Vec<u8> = Vec::new();
    if w == 0 || h == 0 {
        proof {
            assert(w0 * h0 * 3 == 0) by (nonlinear_arith)
                requires
                    w0 == 0 || h0 == 0,
            ;
            assert(out@ =~= target);
        }
        return PixelBuffer::assemble(w, h, out);
    }
    let n = buffer.byte_len();
    proof {
        crate::median::lemma_axis_bounds(w0, h0, s0);
    }
    let row = w * 3;
    let mut i: usize = 0;
    proof {
        assert(out@ =~= target.take(0));
    }
    while i < n
        invariant
            i <= n,
            buffer.wf(),
            w == buffer.w(),
            h == buffer.h(),
            1 <= w,
            1 <= h,
            w + 5 <= usize::MAX,
            h + 5 <= usize::MAX,
            row == w * 3,
            n == buffer.bytes().len(),
            w0 == buffer.w(),
            h0 == buffer.h(),
            s0 == buffer.bytes(),
            target == blur_bytes(w0, h0, s0),
            target.len() == n,
            out@ == target.take(i as int),
        decreases n - i,
    {
        let y = i / row;
        let x = (i % row) / 3;
        let c = i % 3;
        proof {
            lemma_index_decompose(w0, h0, i as int);
        }
        let xl = clamped(x, 1, w);
        let xm = clamped(x, 2, w);
        let xr = clamped(x, 3, w);
        let yt = clamped(y, 1, h);
        let ym = clamped(y, 2, h);
        let yb = clamped(y, 3, h);
        let sum: u32 = buffer.get(xl, yt, c) as u32 + 2 * buffer.get(xm, yt, c) as u32
            + buffer.get(xr, yt, c) as u32 + 2 * buffer.get(xl, ym, c) as u32 + 4 * buffer.get(
            xm,
            ym,
            c,
        ) as u32 + 2 * buffer.get(xr, ym, c) as u32 + buffer.get(xl, yb, c) as u32 + 2
            * buffer.get(xm, yb, c) as u32 + buffer.get(xr, yb, c) as u32;
        let v = (sum / 16) as u8;
        out.push(v);
        proof {
            assert(sum as int == blur_sum(w0, h0, s0, x as int, y as int, c as int));
            assert(target[i as int] == v);
            assert(target.take(i as int + 1) =~= target.take(i as int).push(target[i as int]));
        }
        i = i + 1;
    }
    proof {
        assert(out@ =~= target);
    }
    PixelBuffer::assemble(w, h, out)
}

/// Denoise a frame: 5-by-5 median filter, then the smoothing blur. Returns
/// a new buffer of identical dimensions.
pub fn denoise(buffer: &PixelBuffer) -> (r: PixelBuffer)
    requires
        buffer.wf(),
    ensures
        r.wf(),
        r.w() == buffer.w(),
        r.h() == buffer.h(),
        r.bytes() == denoised_bytes(buffer.w(), buffer.h(), buffer.bytes()),
{
    let filtered = median_filter(buffer);
    blur(&filtered)
}

/// A uniformly colored image is unchanged by denoising: the median of a
/// constant field is that constant, and the normalized blur of a constant
/// field returns the same constant.
pub proof fn lemma_denoise_uniform(w: int, h: int, s: Seq<u8>, color: (u8, u8, u8))
    requires
        buf_wf(w, h, s),
        forall|x: int, y: int, c: int|
            0 <= x < w && 0 <= y < h && 0 <= c < 3 ==> #[trigger] pix_at(w, s, x, y, c)
                == rgb_channel(color, c),
    ensures
        denoised_bytes(w, h, s) == s,
{
    lemma_median_uniform(w, h, s, color);
    lemma_blur_uniform(w, h, s, color);
}

/// The median filter leaves a uniformly colored image unchanged.
proof fn lemma_median_uniform(w: int, h: int, s: Seq<u8>, color: (u8, u8, u8))
    requires
        buf_wf(w, h, s),
        forall|x: int, y: int, c: int|
            0 <= x < w && 0 <= y < h && 0 <= c < 3 ==> #[trigger] pix_at(w, s, x, y, c)
                == rgb_channel(color, c),
    ensures
        median_bytes(w, h, s) == s,
{
    let m = median_bytes(w, h, s);
    assert(buf_wf(w, h, m));
    assert forall|x: int, y: int, c: int|
        0 <= x < w && 0 <= y < h && 0 <= c < 3 implies pix_at(w, m, x, y, c) == #[trigger] pix_at(
        w,
        s,
        x,
        y,
        c,
    ) by {
        lemma_map_pixels_at(
            w,
            h,
            s.len() as int,
            |x3: int, y3: int, c3: int| crate::median::median_of(window5(w, h, s, x3, y3, c3)),
            x,
            y,
            c,
        );
        let win = window5(w, h, s, x, y, c);
        assert forall|k: int| 0 <= k < win.len() implies win[k] == rgb_channel(color, c) by {
            assert(0 <= clamp_coord(x + k / 5 - 2, w) < w);
            assert(0 <= clamp_coord(y + k % 5 - 2, h) < h);
        }
        lemma_median_of_constant(win, rgb_channel(color, c));
    }
    lemma_bytes_pointwise_eq(w, h, m, s);
}

/// The normalized blur leaves a uniformly colored image unchanged.
proof fn lemma_blur_uniform(w: int, h: int, s: Seq<u8>, color: (u8, u8, u8))
    requires
        buf_wf(w, h, s),
        forall|x: int, y: int, c: int|
            0 <= x < w && 0 <= y < h && 0 <= c < 3 ==> #[trigger] pix_at(w, s, x, y, c)
                == rgb_channel(color, c),
    ensures
        blur_bytes(w, h, s) == s,
{
    let b = blur_bytes(w, h, s);
    assert(buf_wf(w, h, b));
    assert forall|x: int, y: int, c: int|
        0 <= x < w && 0 <= y < h && 0 <= c < 3 implies pix_at(w, b, x, y, c) == #[trigger] pix_at(
        w,
        s,
        x,
        y,
        c,
    ) by {
        lemma_map_pixels_at(
            w,
            h,
            s.len() as int,
            |x3: int, y3: int, c3: int| blur_at(w, h, s, x3, y3, c3),
            x,
            y,
            c,
        );
        let k = rgb_channel(color, c) as int;
        assert forall|dx: int, dy: int|
            -1 <= dx <= 1 && -1 <= dy <= 1 implies #[trigger] blur_sample(w, h, s, x, y, c, dx, dy)
            == k by {
            assert(0 <= clamp_coord(x + dx, w) < w);
            assert(0 <= clamp_coord(y + dy, h) < h);
        }
        assert(blur_sum(w, h, s, x, y, c) == 16 * k);
        assert(blur_at(w, h, s, x, y, c) as int == k);
    }
    lemma_bytes_pointwise_eq(w, h, b, s);
}

} // verus!
