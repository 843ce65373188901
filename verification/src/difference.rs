//! Frame differencing with a dead-zone threshold.
//!
//! Each channel byte of the result is the absolute difference between the
//! two frames' bytes, quantized by the bit mask `0xE0`: differences below
//! 32 are zeroed out, so a static scene yields an all-black difference
//! image despite sensor-level jitter. The mask keeps the top three bits,
//! quantizing the surviving magnitudes to eight levels.

use vstd::prelude::*;
use crate::buffer::{lemma_index_decompose, map_pixels, pix_at, PixelBuffer};

verus! {

/// The two buffers handed to `difference` did not have equal width and
/// height. Recoverable: the caller skips differencing for that frame.
#[derive(Clone, Copy, Debug, PartialEq, Eq, Structural)]
pub struct DimensionMismatch;

/// Absolute difference of two channel bytes; never wraps.
pub open spec fn abs_diff_byte(a: u8, b: u8) -> u8 {
    if a >= b {
        (a - b) as u8
    } else {
        (b - a) as u8
    }
}

/// The dead-zone threshold: keep the top three bits of a difference
/// magnitude, zeroing everything below 32.
pub open spec fn dead_zone(d: u8) -> u8 {
    d & 0xE0
}

/// The byte sequence of the difference image of two equally sized frames.
pub open spec fn diff_bytes(w: int, h: int, prev: Seq<u8>, cur: Seq<u8>) -> Seq<u8> {
    map_pixels(
        w,
        prev.len() as int,
        |x: int, y: int, c: int|
            dead_zone(abs_diff_byte(pix_at(w, prev, x, y, c), pix_at(w, cur, x, y, c))),
    )
}

/// An all-black byte sequence of the given length.
pub open spec fn black_bytes(len: int) -> Seq<u8> {
    Seq::new(len as nat, |i: int| 0u8)
}

/// Per-pixel change magnitude between two denoised frames, with the
/// dead-zone threshold applied to every channel. Rejects buffers whose
/// dimensions differ, and succeeds exactly when they agree.
pub fn difference(previous: &PixelBuffer, current: &PixelBuffer) -> (r: Result<
    PixelBuffer,
    DimensionMismatch,
>)
    requires
        previous.wf(),
        current.wf(),
    ensures
        r is Ok <==> previous.same_dims(*current),
        r is Ok ==> {
            let d = r->Ok_0;
            &&& d.wf()
            &&& d.w() == previous.w()
            &&& d.h() == previous.h()
            &&& d.bytes() == diff_bytes(
                previous.w(),
                previous.h(),
                previous.bytes(),
                current.bytes(),
            )
        },
{
    if previous.width() != current.width() || previous.height() != current.height() {
        return Err(DimensionMismatch);
    }
    let ghost w0 = previous.w();
    let ghost h0 = previous.h();
    let ghost sp = previous.bytes();
    let ghost sc = current.bytes();
    let ghost target = diff_bytes(w0, h0, sp, sc);
    let w = previous.width();
    let h = previous.height();
    let n = previous.byte_len();
    let mut out: Vec<u8> = Vec::new();
    let mut i: usize = 0;
    proof {
        assert(out@ =~= target.take(0));
    }
    while i < n
        invariant
            i <= n,
            previous.wf(),
            current.wf(),
            previous.same_dims(*current),
            w0 == previous.w(),
            h0 == previous.h(),
            sp == previous.bytes(),
            sc == current.bytes(),
            n == sp.len(),
            n == sc.len(),
            target == diff_bytes(w0, h0, sp, sc),
            target.len() == n,
            out@ == target.take(i as int),
        decreases n - i,
    {
        let a = previous.byte_at(i);
        let b = current.byte_at(i);
        let d = if a >= b {
            a - b
        } else {
            b - a
        };
        let v = d & 0xE0;
        out.push(v);
        proof {
            lemma_index_decompose(w0, h0, i as int);
            assert(target[i as int] == v);
            assert(target.take(i as int + 1) =~= target.take(i as int).push(target[i as int]));
        }
        i = i + 1;
    }
    proof {
        assert(out@ =~= target);
    }
    Ok(PixelBuffer::assemble(w, h, out))
}

/// The difference of a frame with itself is all black: every channel's
/// absolute difference is zero, and zero lies inside the dead zone.
pub proof fn lemma_difference_identical(w: int, h: int, s: Seq<u8>)
    ensures
        diff_bytes(w, h, s, s) == black_bytes(s.len() as int),
{
    let d = diff_bytes(w, h, s, s);
    assert(0u8 & 0xE0 == 0u8) by (bit_vector);
    assert forall|i: int| 0 <= i < d.len() implies d[i] == 0u8 by {
        assert(abs_diff_byte(
            pix_at(w, s, crate::buffer::col_of(w, i), crate::buffer::row_of(w, i), i % 3),
            pix_at(w, s, crate::buffer::col_of(w, i), crate::buffer::row_of(w, i), i % 3),
        ) == 0u8);
    }
    assert(d =~= black_bytes(s.len() as int));
}

/// The dead zone zeroes a difference exactly when it is below 32; any
/// magnitude of 32 or more survives as a non-zero quantized value.
pub proof fn lemma_dead_zone_threshold(d: u8)
    ensures
        dead_zone(d) == 0 <==> d < 32,
        d >= 32 ==> dead_zone(d) >= 32,
        dead_zone(d) <= d,
{
    assert((d & 0xE0 == 0 <==> d < 32) && (d >= 32 ==> d & 0xE0 >= 32) && d & 0xE0 <= d)
        by (bit_vector);
}

} // verus!
