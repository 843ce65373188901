//! Median filter with a 5-by-5 edge-clamped window, applied per channel.
//!
//! The median of the 25 samples is the value at cumulative rank 13 (the 13th
//! smallest), found by accumulating an 8-bit value histogram and walking it
//! in ascending value order. Two implementations share one specification: a
//! per-pixel recount, and a sliding-window variant that updates the
//! histogram incrementally along each row. Both produce bit-identical
//! output.

use vstd::prelude::*;
use vstd::arithmetic::div_mod::lemma_fundamental_div_mod_converse;
use vstd::pervasive::VecAdditionalExecFns;
use crate::buffer::{buf_wf, lemma_index_decompose, lemma_pix_bounds, map_pixels, pix_at,
    pix_index, PixelBuffer};

verus! {

/// How many of the values in `s` are at most `v`.
pub open spec fn count_le(s: Seq<u8>, v: int) -> int
    decreases s.len(),
{
    if s.len() == 0 {
        0
    } else {
        count_le(s.drop_last(), v) + if s.last() as int <= v {
            1int
        } else {
            0int
        }
    }
}

/// How many of the values in `s` equal `v`.
pub open spec fn count_eq(s: Seq<u8>, v: int) -> int
    decreases s.len(),
{
    if s.len() == 0 {
        0
    } else {
        count_eq(s.drop_last(), v) + if s.last() as int == v {
            1int
        } else {
            0int
        }
    }
}

/// The cumulative rank of the median of a sample list: for 25 samples,
/// rank 13, the 13th smallest.
pub open spec fn median_rank(s: Seq<u8>) -> int {
    s.len() as int / 2 + 1
}

/// The rank walk from value `v` upward: the least value at or above `v`
/// whose cumulative count reaches the median rank, or 255 when none below
/// 255 does.
pub open spec fn median_from(s: Seq<u8>, v: int) -> u8
    decreases 255 - v,
{
    if v < 0 || v >= 255 {
        255
    } else if count_le(s, v) >= median_rank(s) {
        v as u8
    } else {
        median_from(s, v + 1)
    }
}

/// The median of the values in `s`: the smallest value whose cumulative
/// count reaches the median rank.
pub open spec fn median_of(s: Seq<u8>) -> u8 {
    median_from(s, 0)
}

/// Appending one value raises its counts by one and leaves the others.
proof fn lemma_count_push(s: Seq<u8>, e: u8, v: int)
    ensures
        count_le(s.push(e), v) == count_le(s, v) + if e as int <= v {
            1int
        } else {
            0int
        },
        count_eq(s.push(e), v) == count_eq(s, v) + if e as int == v {
            1int
        } else {
            0int
        },
{
    assert(s.push(e).drop_last() =~= s);
    assert(s.push(e).last() == e);
}

/// Counts lie between zero and the number of samples.
proof fn lemma_count_bounds(s: Seq<u8>, v: int)
    ensures
        0 <= count_le(s, v) <= s.len(),
        0 <= count_eq(s, v) <= s.len(),
    decreases s.len(),
{
    if s.len() > 0 {
        lemma_count_bounds(s.drop_last(), v);
    }
}

/// Counts split across concatenation.
proof fn lemma_count_concat(a: Seq<u8>, b: Seq<u8>, v: int)
    ensures
        count_le(a + b, v) == count_le(a, v) + count_le(b, v),
        count_eq(a + b, v) == count_eq(a, v) + count_eq(b, v),
    decreases b.len(),
{
    if b.len() == 0 {
        assert(a + b =~= a);
    } else {
        assert((a + b).drop_last() =~= a + b.drop_last());
        assert((a + b).last() == b.last());
        lemma_count_concat(a, b.drop_last(), v);
    }
}

/// The cumulative count at `v` is the cumulative count below `v` plus the
/// exact count at `v`.
proof fn lemma_count_le_split(s: Seq<u8>, v: int)
    ensures
        count_le(s, v) == count_le(s, v - 1) + count_eq(s, v),
    decreases s.len(),
{
    if s.len() > 0 {
        lemma_count_le_split(s.drop_last(), v);
    }
}

/// No value is at most a negative bound.
proof fn lemma_count_le_neg(s: Seq<u8>, v: int)
    requires
        v < 0,
    ensures
        count_le(s, v) == 0,
    decreases s.len(),
{
    if s.len() > 0 {
        lemma_count_le_neg(s.drop_last(), v);
    }
}

/// Every value is at most 255.
proof fn lemma_count_le_max(s: Seq<u8>)
    ensures
        count_le(s, 255) == s.len(),
    decreases s.len(),
{
    if s.len() > 0 {
        lemma_count_le_max(s.drop_last());
    }
}

/// The rank walk stops exactly at the first value whose cumulative count
/// reaches the median rank.
proof fn lemma_median_from_reaches(s: Seq<u8>, lo: int, v: int)
    requires
        0 <= lo <= v <= 255,
        count_le(s, v) >= median_rank(s),
        forall|u: int| lo <= u < v ==> count_le(s, u) < median_rank(s),
    ensures
        median_from(s, lo) as int == v,
    decreases v - lo,
{
    if lo < v {
        assert(count_le(s, lo) < median_rank(s));
        lemma_median_from_reaches(s, lo + 1, v);
    }
}

/// In a constant sample list every sample equals the median.
pub proof fn lemma_median_of_constant(s: Seq<u8>, k: u8)
    requires
        s.len() >= 1,
        forall|i: int| 0 <= i < s.len() ==> s[i] == k,
    ensures
        median_of(s) == k,
{
    lemma_count_le_all_eq(s, k);
    assert forall|u: int| 0 <= u < k as int implies count_le(s, u) < median_rank(s) by {
        lemma_count_le_all_eq(s, k);
    }
    lemma_median_from_reaches(s, 0, k as int);
}

/// Counting in a constant list: everything or nothing, depending on the
/// bound.
proof fn lemma_count_le_all_eq(s: Seq<u8>, k: u8)
    requires
        forall|i: int| 0 <= i < s.len() ==> s[i] == k,
    ensures
        forall|v: int|
            #[trigger] count_le(s, v) == if k as int <= v {
                s.len() as int
            } else {
                0int
            },
    decreases s.len(),
{
    if s.len() > 0 {
        assert(forall|i: int| 0 <= i < s.drop_last().len() ==> s.drop_last()[i] == k);
        lemma_count_le_all_eq(s.drop_last(), k);
        assert(s.last() == k);
        assert forall|v: int|
            #[trigger] count_le(s, v) == if k as int <= v {
                s.len() as int
            } else {
                0int
            } by {
            assert(count_le(s.drop_last(), v) == if k as int <= v {
                s.drop_last().len() as int
            } else {
                0int
            });
        }
    } else {
        assert forall|v: int|
            #[trigger] count_le(s, v) == if k as int <= v {
                s.len() as int
            } else {
                0int
            } by {
            assert(count_le(s, v) == 0);
        }
    }
}

/// Walk the value histogram `hist` of the sample list `samples` in
/// ascending value order and return the value at the median rank.
fn median_from_hist(hist: &Vec<usize>, rank: usize, Ghost(samples): Ghost<Seq<u8>>) -> (m: u8)
    requires
        hist@.len() == 256,
        1 <= samples.len() <= usize::MAX,
        rank == median_rank(samples),
        forall|u: int| 0 <= u < 256 ==> hist@[u] == count_eq(samples, u),
    ensures
        m == median_of(samples),
{
    let mut cum: usize = 0;
    let mut v: usize = 0;
    proof {
        lemma_count_le_neg(samples, -1);
    }
    while v < 255
        invariant
            v <= 255,
            1 <= samples.len() <= usize::MAX,
            hist@.len() == 256,
            rank == median_rank(samples),
            forall|u: int| 0 <= u < 256 ==> hist@[u] == count_eq(samples, u),
            cum == count_le(samples, v as int - 1),
            forall|u: int| 0 <= u < v ==> count_le(samples, u) < median_rank(samples),
        decreases 255 - v,
    {
        let hv = hist[v];
        proof {
            lemma_count_le_split(samples, v as int);
            lemma_count_bounds(samples, v as int);
            lemma_count_bounds(samples, v as int - 1);
        }
        if cum + hv >= rank {
            proof {
                lemma_median_from_reaches(samples, 0, v as int);
            }
            return v as u8;
        }
        cum = cum + hv;
        v = v + 1;
    }
    proof {
        lemma_count_le_max(samples);
        lemma_median_from_reaches(samples, 0, 255);
    }
    255
}

/// The 8-bit value histogram of `samples`.
fn hist_of_samples(samples: &Vec<u8>) -> (hist: Vec<usize>)
    ensures
        hist@.len() == 256,
        forall|u: int| 0 <= u < 256 ==> hist@[u] == count_eq(samples@, u),
{
    let n = samples.len();
    let mut hist: Vec<usize> = Vec::new();
    while hist.len() < 256
        invariant
            hist@.len() <= 256,
            forall|u: int| 0 <= u < hist@.len() ==> hist@[u] == 0int,
        decreases 256 - hist@.len(),
    {
        hist.push(0);
    }
    let mut k: usize = 0;
    proof {
        assert(samples@.take(0) =~= Seq::<u8>::empty());
    }
    while k < n
        invariant
            k <= n,
            n == samples@.len(),
            hist@.len() == 256,
            forall|u: int| 0 <= u < 256 ==> hist@[u] == count_eq(samples@.take(k as int), u),
        decreases n - k,
    {
        let v = samples[k] as usize;
        proof {
            lemma_count_bounds(samples@.take(k as int), v as int);
        }
        let cur = hist[v];
        hist.set(v, cur + 1);
        proof {
            assert forall|u: int| 0 <= u < 256 implies hist@[u] == count_eq(
                samples@.take(k as int + 1),
                u,
            ) by {
                assert(samples@.take(k as int + 1) =~= samples@.take(k as int).push(samples@[
                    k as int]));
                lemma_count_push(samples@.take(k as int), samples@[k as int], u);
            }
        }
        k = k + 1;
    }
    proof {
        assert(samples@.take(n as int) =~= samples@);
    }
    hist
}

/// The median of the values in `samples`, via a fresh 8-bit histogram and a
/// rank walk.
pub fn median_of_samples(samples: &Vec<u8>) -> (m: u8)
    requires
        samples@.len() >= 1,
    ensures
        m == median_of(samples@),
{
    let hist = hist_of_samples(samples);
    proof {
        vstd::std_specs::vec::axiom_spec_len(samples);
    }
    let rank = samples.len() / 2 + 1;
    median_from_hist(&hist, rank, Ghost(samples@))
}

/// The nearest in-bounds coordinate: out-of-range neighbors are clamped to
/// the edge, never zero-padded.
pub open spec fn clamp_coord(i: int, n: int) -> int {
    if i < 0 {
        0
    } else if i >= n {
        n - 1
    } else {
        i
    }
}

/// The 25 edge-clamped samples of channel `c` around `(x, y)`, listed
/// column by column: sample `k` comes from the window column `k / 5` and
/// window row `k % 5`.
pub open spec fn window5(w: int, h: int, s: Seq<u8>, x: int, y: int, c: int) -> Seq<u8> {
    Seq::new(
        25,
        |k: int|
            pix_at(w, s, clamp_coord(x + k / 5 - 2, w), clamp_coord(y + k % 5 - 2, h), c),
    )
}

/// The byte sequence of the median-filtered image: every channel of every
/// pixel becomes the median of its 25 edge-clamped neighborhood samples.
pub open spec fn median_bytes(w: int, h: int, s: Seq<u8>) -> Seq<u8> {
    map_pixels(
        w,
        s.len() as int,
        |x: int, y: int, c: int| median_of(window5(w, h, s, x, y, c)),
    )
}

/// Clamped window coordinate `pos + delta - 2` over an axis of length `n`.
pub(crate) fn clamped(pos: usize, delta: usize, n: usize) -> (r: usize)
    requires
        1 <= n,
        pos < n,
        delta <= 5,
        n + 5 <= usize::MAX,
    ensures
        r as int == clamp_coord(pos as int + delta as int - 2, n as int),
        r < n,
{
    let q = pos + delta;
    let r = if q < 2 {
        0
    } else {
        q - 2
    };
    if r >= n {
        n - 1
    } else {
        r
    }
}

/// The dimensions of a well-formed non-empty buffer leave room above each
/// axis, so clamped neighbor arithmetic cannot overflow.
pub(crate) proof fn lemma_axis_bounds(w: int, h: int, s: Seq<u8>)
    requires
        buf_wf(w, h, s),
        1 <= w,
        1 <= h,
        s.len() <= usize::MAX,
    ensures
        w + 5 <= usize::MAX,
        h + 5 <= usize::MAX,
        w * 3 <= s.len(),
{
    assert(w * 3 <= w * h * 3 && h * 3 <= w * h * 3) by (nonlinear_arith)
        requires
            1 <= w,
            1 <= h,
    ;
}

/// Gather the 25 edge-clamped window samples of channel `c` around
/// `(x, y)`, column by column.
fn gather_window(buffer: &PixelBuffer, x: usize, y: usize, c: usize) -> (samples: Vec<u8>)
    requires
        buffer.wf(),
        x < buffer.w(),
        y < buffer.h(),
        c < 3,
        buffer.w() + 5 <= usize::MAX,
        buffer.h() + 5 <= usize::MAX,
    ensures
        samples@ == window5(buffer.w(), buffer.h(), buffer.bytes(), x as int, y as int, c as int),
{
    let ghost win = window5(buffer.w(), buffer.h(), buffer.bytes(), x as int, y as int, c as int);
    let w = buffer.width();
    let h = buffer.height();
    let mut samples: Vec<u8> = Vec::new();
    let mut dx: usize = 0;
    proof {
        assert(samples@ =~= win.take(0));
    }
    while dx < 5
        invariant
            dx <= 5,
            buffer.wf(),
            x < buffer.w(),
            y < buffer.h(),
            c < 3,
            w == buffer.w(),
            h == buffer.h(),
            buffer.w() + 5 <= usize::MAX,
            buffer.h() + 5 <= usize::MAX,
            win == window5(buffer.w(), buffer.h(), buffer.bytes(), x as int, y as int, c as int),
            samples@ == win.take(5 * dx),
        decreases 5 - dx,
    {
        let cx = clamped(x, dx, w);
        let mut dy: usize = 0;
        while dy < 5
            invariant
                dy <= 5,
                dx < 5,
                buffer.wf(),
                x < buffer.w(),
                y < buffer.h(),
                c < 3,
                w == buffer.w(),
                h == buffer.h(),
                buffer.w() + 5 <= usize::MAX,
                buffer.h() + 5 <= usize::MAX,
                cx < buffer.w(),
                cx as int == clamp_coord(x as int + dx as int - 2, w as int),
                win == window5(
                    buffer.w(),
                    buffer.h(),
                    buffer.bytes(),
                    x as int,
                    y as int,
                    c as int,
                ),
                samples@ == win.take(5 * dx + dy),
            decreases 5 - dy,
        {
            let cy = clamped(y, dy, h);
            let v = buffer.get(cx, cy, c);
            samples.push(v);
            proof {
                let k = 5 * dx as int + dy as int;
                lemma_fundamental_div_mod_converse(k, 5, dx as int, dy as int);
                assert(win[k] == v);
                assert(win.take(k + 1) =~= win.take(k).push(win[k]));
            }
            dy = dy + 1;
        }
        dx = dx + 1;
    }
    proof {
        assert(samples@ =~= win);
    }
    samples
}

/// Median-filter `buffer` by recomputing the 25-sample histogram afresh for
/// every output channel. The straightforward reference implementation; the
/// sliding-window variant must match it byte for byte.
pub fn median_filter_reference(buffer: &PixelBuffer) -> (r: PixelBuffer)
    requires
        buffer.wf(),
    ensures
        r.wf(),
        r.w() == buffer.w(),
        r.h() == buffer.h(),
        r.bytes() == median_bytes(buffer.w(), buffer.h(), buffer.bytes()),
{
    let ghost w0 = buffer.w();
    let ghost h0 = buffer.h();
    let ghost s0 = buffer.bytes();
    let ghost target = median_bytes(w0, h0, s0);
    let w = buffer.width();
    let h = buffer.height();
    let mut out: Vec<u8> = Vec::new();
    if w == 0 || h == 0 {
        proof {
            assert(w0 * h0 * 3 == 0) by (nonlinear_arith)
                requires
                    w0 == 0 || h0 == 0,
            ;
            assert(out@ =~= target);
        }
        return PixelBuffer::assemble(w, h, out);
    }
    let n = buffer.byte_len();
    proof {
        lemma_axis_bounds(w0, h0, s0);
    }
    let row = w * 3;
    let mut i: usize = 0;
    proof {
        assert(out@ =~= target.take(0));
    }
    while i < n
        invariant
            i <= n,
            buffer.wf(),
            w == buffer.w(),
            h == buffer.h(),
            1 <= w,
            1 <= h,
            w + 5 <= usize::MAX,
            h + 5 <= usize::MAX,
            row == w * 3,
            n == buffer.bytes().len(),
            w0 == buffer.w(),
            h0 == buffer.h(),
            s0 == buffer.bytes(),
            target == median_bytes(w0, h0, s0),
            target.len() == n,
            out@ == target.take(i as int),
        decreases n - i,
    {
        let y = i / row;
        let x = (i % row) / 3;
        let c = i % 3;
        proof {
            lemma_index_decompose(w0, h0, i as int);
        }
        let samples = gather_window(buffer, x, y, c);
        let m = median_of_samples(&samples);
        out.push(m);
        proof {
            assert(target[i as int] == m);
            assert(target.take(i as int + 1) =~= target.take(i as int).push(target[i as int]));
        }
        i = i + 1;
    }
    proof {
        assert(out@ =~= target);
    }
    PixelBuffer::assemble(w, h, out)
}

/// The window column that enters when the window slides one pixel to the
/// right of `x`: the five edge-clamped samples of column `x + 3`.
pub open spec fn entering_col(w: int, h: int, s: Seq<u8>, x: int, y: int, c: int) -> Seq<u8> {
    Seq::new(5, |d: int| pix_at(w, s, clamp_coord(x + 3, w), clamp_coord(y + d - 2, h), c))
}

/// Sliding the window one pixel to the right drops exactly the leftmost
/// window column and appends the entering column.
proof fn lemma_window_slide(w: int, h: int, s: Seq<u8>, x: int, y: int, c: int)
    requires
        0 <= x,
        x + 1 < w,
        0 <= y < h,
        0 <= c < 3,
    ensures
        window5(w, h, s, x + 1, y, c) == window5(w, h, s, x, y, c).skip(5) + entering_col(
            w,
            h,
            s,
            x,
            y,
            c,
        ),
{
    let g = window5(w, h, s, x, y, c);
    let gn = window5(w, h, s, x + 1, y, c);
    let e = entering_col(w, h, s, x, y, c);
    let rhs = g.skip(5) + e;
    assert forall|k: int| 0 <= k < 25 implies gn[k] == rhs[k] by {
        vstd::arithmetic::div_mod::lemma_fundamental_div_mod(k, 5);
        if k < 20 {
            lemma_fundamental_div_mod_converse(k + 5, 5, k / 5 + 1, k % 5);
            assert(rhs[k] == g[k + 5]);
        } else {
            lemma_fundamental_div_mod_converse(k, 5, 4, k - 20);
            assert(rhs[k] == e[k - 20]);
        }
    }
    assert(gn =~= rhs);
}

/// Advance the histogram of the 25 window samples at `(x, y)` to the
/// window at `(x + 1, y)`: subtract the leaving column's five samples and
/// add the entering column's five.
fn slide_hist(buffer: &PixelBuffer, hist: &mut Vec<usize>, x: usize, y: usize, c: usize)
    requires
        buffer.wf(),
        x + 1 < buffer.w(),
        y < buffer.h(),
        c < 3,
        buffer.w() + 5 <= usize::MAX,
        buffer.h() + 5 <= usize::MAX,
        old(hist)@.len() == 256,
        forall|u: int|
            0 <= u < 256 ==> old(hist)@[u] == count_eq(
                window5(buffer.w(), buffer.h(), buffer.bytes(), x as int, y as int, c as int),
                u,
            ),
    ensures
        final(hist)@.len() == 256,
        forall|u: int|
            0 <= u < 256 ==> final(hist)@[u] == count_eq(
                window5(buffer.w(), buffer.h(), buffer.bytes(), x as int + 1, y as int, c as int),
                u,
            ),
{
    let ghost w0 = buffer.w();
    let ghost h0 = buffer.h();
    let ghost s0 = buffer.bytes();
    let ghost g = window5(w0, h0, s0, x as int, y as int, c as int);
    let ghost e = entering_col(w0, h0, s0, x as int, y as int, c as int);
    let w = buffer.width();
    let h = buffer.height();
    let cxl = clamped(x, 0, w);
    let mut dy: usize = 0;
    proof {
        assert(g.take(0) =~= Seq::<u8>::empty());
    }
    while dy < 5
        invariant
            dy <= 5,
            buffer.wf(),
            x < buffer.w(),
            y < buffer.h(),
            c < 3,
            w == buffer.w(),
            h == buffer.h(),
            buffer.h() + 5 <= usize::MAX,
            cxl < buffer.w(),
            cxl as int == clamp_coord(x as int - 2, w as int),
            g == window5(w0, h0, s0, x as int, y as int, c as int),
            w0 == buffer.w(),
            h0 == buffer.h(),
            s0 == buffer.bytes(),
            hist@.len() == 256,
            forall|u: int|
                0 <= u < 256 ==> hist@[u] == count_eq(g, u) - count_eq(g.take(dy as int), u),
        decreases 5 - dy,
    {
        let cy = clamped(y, dy, h);
        let v = buffer.get(cxl, cy, c);
        proof {
            assert(g[dy as int] == v);
            assert(g =~= g.take(dy as int + 1) + g.skip(dy as int + 1));
            lemma_count_concat(g.take(dy as int + 1), g.skip(dy as int + 1), v as int);
            lemma_count_bounds(g.skip(dy as int + 1), v as int);
            assert(g.take(dy as int + 1) =~= g.take(dy as int).push(g[dy as int]));
            lemma_count_push(g.take(dy as int), g[dy as int], v as int);
            lemma_count_bounds(g.take(dy as int), v as int);
        }
        let hv = hist[v as usize];
        hist.set(v as usize, hv - 1);
        proof {
            assert forall|u: int| 0 <= u < 256 implies hist@[u] == count_eq(g, u) - count_eq(
                g.take(dy as int + 1),
                u,
            ) by {
                assert(g.take(dy as int + 1) =~= g.take(dy as int).push(g[dy as int]));
                lemma_count_push(g.take(dy as int), g[dy as int], u);
            }
        }
        dy = dy + 1;
    }
    proof {
        assert(g =~= g.take(5) + g.skip(5));
        assert forall|u: int| 0 <= u < 256 implies hist@[u] == count_eq(g.skip(5), u) by {
            lemma_count_concat(g.take(5), g.skip(5), u);
        }
        assert(e.take(0) =~= Seq::<u8>::empty());
    }
    let cxe = clamped(x, 5, w);
    let mut da: usize = 0;
    while da < 5
        invariant
            da <= 5,
            buffer.wf(),
            x < buffer.w(),
            y < buffer.h(),
            c < 3,
            w == buffer.w(),
            h == buffer.h(),
            buffer.h() + 5 <= usize::MAX,
            cxe < buffer.w(),
            cxe as int == clamp_coord(x as int + 3, w as int),
            g == window5(w0, h0, s0, x as int, y as int, c as int),
            e == entering_col(w0, h0, s0, x as int, y as int, c as int),
            w0 == buffer.w(),
            h0 == buffer.h(),
            s0 == buffer.bytes(),
            hist@.len() == 256,
            forall|u: int|
                0 <= u < 256 ==> hist@[u] == count_eq(g.skip(5), u) + count_eq(
                    e.take(da as int),
                    u,
                ),
        decreases 5 - da,
    {
        let cy = clamped(y, da, h);
        let v = buffer.get(cxe, cy, c);
        proof {
            assert(e[da as int] == v);
            lemma_count_bounds(g.skip(5), v as int);
            lemma_count_bounds(e.take(da as int), v as int);
        }
        let hv = hist[v as usize];
        hist.set(v as usize, hv + 1);
        proof {
            assert forall|u: int| 0 <= u < 256 implies hist@[u] == count_eq(g.skip(5), u)
                + count_eq(e.take(da as int + 1), u) by {
                assert(e.take(da as int + 1) =~= e.take(da as int).push(e[da as int]));
                lemma_count_push(e.take(da as int), e[da as int], u);
            }
        }
        da = da + 1;
    }
    proof {
        lemma_window_slide(w0, h0, s0, x as int, y as int, c as int);
        assert(e.take(5) =~= e);
        assert forall|u: int| 0 <= u < 256 implies hist@[u] == count_eq(
            window5(w0, h0, s0, x as int + 1, y as int, c as int),
            u,
        ) by {
            lemma_count_concat(g.skip(5), e, u);
        }
    }
}

/// Median-filter `buffer` with a sliding per-row histogram: for each row
/// and channel the window histogram is built once at the left edge and then
/// updated incrementally as the scan moves one column to the right.
/// Byte-identical to `median_filter_reference`.
pub fn median_filter(buffer: &PixelBuffer) -> (r: PixelBuffer)
    requires
        buffer.wf(),
    ensures
        r.wf(),
        r.w() == buffer.w(),
        r.h() == buffer.h(),
        r.bytes() == median_bytes(buffer.w(), buffer.h(), buffer.bytes()),
{
    let ghost w0 = buffer.w();
    let ghost h0 = buffer.h();
    let ghost s0 = buffer.bytes();
    let ghost target = median_bytes(w0, h0, s0);
    let w = buffer.width();
    let h = buffer.height();
    let mut out: Vec<u8> = Vec::new();
    if w == 0 || h == 0 {
        proof {
            assert(w0 * h0 * 3 == 0) by (nonlinear_arith)
                requires
                    w0 == 0 || h0 == 0,
            ;
            assert(out@ =~= target);
        }
        return PixelBuffer::assemble(w, h, out);
    }
    let n = buffer.byte_len();
    proof {
        lemma_axis_bounds(w0, h0, s0);
    }
    while out.len() < n
        invariant
            out@.len() <= n,
            forall|j: int| 0 <= j < out@.len() ==> out@[j] == 0u8,
        decreases n - out@.len(),
    {
        out.push(0);
    }
    let mut y: usize = 0;
    while y < h
        invariant
            y <= h,
            buffer.wf(),
            w == buffer.w(),
            h == buffer.h(),
            1 <= w,
            1 <= h,
            w + 5 <= usize::MAX,
            h + 5 <= usize::MAX,
            n == buffer.bytes().len(),
            w0 == buffer.w(),
            h0 == buffer.h(),
            s0 == buffer.bytes(),
            target == median_bytes(w0, h0, s0),
            target.len() == n,
            out@.len() == n,
            forall|x2: int, y2: int, c2: int|
                #![trigger pix_index(w0, x2, y2, c2)]
                0 <= x2 < w0 && 0 <= y2 < h0 && 0 <= c2 < 3 && y2 < y ==> out@[pix_index(
                    w0,
                    x2,
                    y2,
                    c2,
                )] == target[pix_index(w0, x2, y2, c2)],
        decreases h - y,
    {
        let mut c: usize = 0;
        while c < 3
            invariant
                c <= 3,
                y < h,
                buffer.wf(),
                w == buffer.w(),
                h == buffer.h(),
                1 <= w,
                1 <= h,
                w + 5 <= usize::MAX,
                h + 5 <= usize::MAX,
                n == buffer.bytes().len(),
                w0 == buffer.w(),
                h0 == buffer.h(),
                s0 == buffer.bytes(),
                target == median_bytes(w0, h0, s0),
                target.len() == n,
                out@.len() == n,
                forall|x2: int, y2: int, c2: int|
                    #![trigger pix_index(w0, x2, y2, c2)]
                    0 <= x2 < w0 && 0 <= y2 < h0 && 0 <= c2 < 3 && (y2 < y || (y2 == y && c2 < c))
                        ==> out@[pix_index(w0, x2, y2, c2)] == target[pix_index(w0, x2, y2, c2)],
            decreases 3 - c,
        {
            let samples = gather_window(buffer, 0, y, c);
            let mut hist = hist_of_samples(&samples);
            let mut x: usize = 0;
            while x < w
                invariant
                    x <= w,
                    c < 3,
                    y < h,
                    buffer.wf(),
                    w == buffer.w(),
                    h == buffer.h(),
                    1 <= w,
                    1 <= h,
                    w + 5 <= usize::MAX,
                    h + 5 <= usize::MAX,
                    n == buffer.bytes().len(),
                    w0 == buffer.w(),
                    h0 == buffer.h(),
                    s0 == buffer.bytes(),
                    target == median_bytes(w0, h0, s0),
                    target.len() == n,
                    out@.len() == n,
                    hist@.len() == 256,
                    x < w ==> forall|u: int|
                        0 <= u < 256 ==> hist@[u] == count_eq(
                            window5(w0, h0, s0, x as int, y as int, c as int),
                            u,
                        ),
                    forall|x2: int, y2: int, c2: int|
                        #![trigger pix_index(w0, x2, y2, c2)]
                        0 <= x2 < w0 && 0 <= y2 < h0 && 0 <= c2 < 3 && (y2 < y || (y2 == y && c2
                            < c) || (y2 == y && c2 == c && x2 < x)) ==> out@[pix_index(
                            w0,
                            x2,
                            y2,
                            c2,
                        )] == target[pix_index(w0, x2, y2, c2)],
                decreases w - x,
            {
                let ghost win = window5(w0, h0, s0, x as int, y as int, c as int);
                proof {
                    assert(median_rank(win) == 13);
                }
                let m = median_from_hist(&hist, 13, Ghost(win));
                proof {
                    lemma_pix_bounds(w0, h0, x as int, y as int, c as int);
                }
                let idx = (y * w + x) * 3 + c;
                out.set(idx, m);
                proof {
                    assert forall|x2: int, y2: int, c2: int|
                        #![trigger pix_index(w0, x2, y2, c2)]
                        0 <= x2 < w0 && 0 <= y2 < h0 && 0 <= c2 < 3 && (y2 < y || (y2 == y && c2
                            < c) || (y2 == y && c2 == c && x2 < x + 1)) implies out@[pix_index(
                        w0,
                        x2,
                        y2,
                        c2,
                    )] == target[pix_index(w0, x2, y2, c2)] by {
                        lemma_pix_bounds(w0, h0, x2, y2, c2);
                        if x2 == x && y2 == y && c2 == c {
                            assert(target[idx as int] == median_of(win));
                        }
                    }
                }
                if x + 1 < w {
                    slide_hist(buffer, &mut hist, x, y, c);
                }
                x = x + 1;
            }
            c = c + 1;
        }
        y = y + 1;
    }
    proof {
        assert forall|i: int| 0 <= i < n implies out@[i] == target[i] by {
            lemma_index_decompose(w0, h0, i);
        }
        assert(out@ =~= target);
    }
    PixelBuffer::assemble(w, h, out)
}

} // verus!
