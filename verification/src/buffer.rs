//! Pixel-buffer data model: an owned, contiguous, row-major byte image with
//! three 8-bit channels (red, green, blue) per pixel.

use vstd::prelude::*;
use vstd::arithmetic::div_mod::{lemma_fundamental_div_mod, lemma_fundamental_div_mod_converse};

verus! {

/// Flat byte index of channel `c` of the pixel at column `x`, row `y`, in a
/// buffer that is `w` pixels wide.
pub open spec fn pix_index(w: int, x: int, y: int, c: int) -> int {
    (y * w + x) * 3 + c
}

/// Value of channel `c` of the pixel at `(x, y)` in the flat byte sequence `s`.
pub open spec fn pix_at(w: int, s: Seq<u8>, x: int, y: int, c: int) -> u8 {
    s[pix_index(w, x, y, c)]
}

/// Column of the pixel that owns flat byte index `i`.
pub open spec fn col_of(w: int, i: int) -> int {
    (i % (w * 3)) / 3
}

/// Row of the pixel that owns flat byte index `i`.
pub open spec fn row_of(w: int, i: int) -> int {
    i / (w * 3)
}

/// A well-formed `w` by `h` image: exactly `3` bytes per pixel, row-major,
/// with no padding between rows.
pub open spec fn buf_wf(w: int, h: int, s: Seq<u8>) -> bool {
    &&& 0 <= w
    &&& 0 <= h
    &&& s.len() == w * h * 3
}

/// The byte sequence of a `w`-wide image of `len` bytes whose channel at
/// `(x, y, c)` is `f(x, y, c)`.
pub open spec fn map_pixels(w: int, len: int, f: spec_fn(int, int, int) -> u8) -> Seq<u8> {
    Seq::new(len as nat, |i: int| f(col_of(w, i), row_of(w, i), i % 3))
}

/// A pixel coordinate and its channel index determine the flat byte index,
/// and the flat index decomposes back into exactly that coordinate.
pub proof fn lemma_pix_bounds(w: int, h: int, x: int, y: int, c: int)
    requires
        0 <= x < w,
        0 <= y < h,
        0 <= c < 3,
    ensures
        0 <= pix_index(w, x, y, c) < w * h * 3,
        0 <= y * w,
        y * w + x <= pix_index(w, x, y, c),
        row_of(w, pix_index(w, x, y, c)) == y,
        col_of(w, pix_index(w, x, y, c)) == x,
        pix_index(w, x, y, c) % 3 == c,
{
    let i = pix_index(w, x, y, c);
    assert((y * w + x) * 3 + c == y * (w * 3) + (x * 3 + c)) by (nonlinear_arith);
    assert(x * 3 + c < w * 3) by (nonlinear_arith)
        requires
            x < w,
            c < 3,
    ;
    assert(0 <= y * (w * 3)) by (nonlinear_arith)
        requires
            0 <= y,
            0 <= w,
    ;
    assert(0 <= y * w) by (nonlinear_arith)
        requires
            0 <= y,
            0 <= w,
    ;
    lemma_fundamental_div_mod_converse(i, w * 3, y, x * 3 + c);
    lemma_fundamental_div_mod_converse(x * 3 + c, 3, x, c);
    lemma_fundamental_div_mod_converse(i, 3, y * w + x, c);
    assert(i < w * h * 3) by (nonlinear_arith)
        requires
            i == y * (w * 3) + (x * 3 + c),
            0 <= y < h,
            x * 3 + c < w * 3,
            0 <= x * 3 + c,
    ;
}

/// Every flat byte index of a well-formed image belongs to exactly one
/// in-range channel coordinate `(col_of, row_of, i % 3)`.
pub proof fn lemma_index_decompose(w: int, h: int, i: int)
    requires
        0 <= w,
        0 <= h,
        0 <= i < w * h * 3,
    ensures
        0 <= col_of(w, i) < w,
        0 <= row_of(w, i) < h,
        0 <= i % 3 < 3,
        pix_index(w, col_of(w, i), row_of(w, i), i % 3) == i,
{
    assert(0 < w && 0 < h) by (nonlinear_arith)
        requires
            0 <= w,
            0 <= h,
            0 <= i < w * h * 3,
    ;
    let row = w * 3;
    lemma_fundamental_div_mod(i, row);
    let y = i / row;
    let r = i % row;
    assert(0 <= r < row);
    assert(0 <= y) by (nonlinear_arith)
        requires
            i == row * y + r,
            0 <= i,
            0 <= r < row,
            0 < row,
    ;
    assert(y < h) by (nonlinear_arith)
        requires
            i == row * y + r,
            i < w * h * 3,
            row == w * 3,
            0 <= r,
            0 <= y,
            0 < w,
    ;
    lemma_fundamental_div_mod(r, 3);
    let x = r / 3;
    let c = r % 3;
    assert(x < w) by (nonlinear_arith)
        requires
            r == 3 * x + c,
            r < row,
            row == w * 3,
            0 <= c,
    ;
    assert(0 <= x) by (nonlinear_arith)
        requires
            r == 3 * x + c,
            0 <= r,
            0 <= c < 3,
    ;
    assert(pix_index(w, x, y, c) == i) by (nonlinear_arith)
        requires
            i == row * y + r,
            r == 3 * x + c,
            row == w * 3,
    ;
    assert(c == i % 3) by {
        assert(i == (y * w + x) * 3 + c) by (nonlinear_arith)
            requires
                i == row * y + r,
                r == 3 * x + c,
                row == w * 3,
        ;
        lemma_fundamental_div_mod_converse(i, 3, y * w + x, c);
    }
}

/// Two well-formed images of the same dimensions that agree on every channel
/// of every pixel have equal byte sequences.
pub proof fn lemma_bytes_pointwise_eq(w: int, h: int, s1: Seq<u8>, s2: Seq<u8>)
    requires
        buf_wf(w, h, s1),
        buf_wf(w, h, s2),
        forall|x: int, y: int, c: int|
            0 <= x < w && 0 <= y < h && 0 <= c < 3 ==> pix_at(w, s1, x, y, c) == #[trigger] pix_at(
                w,
                s2,
                x,
                y,
                c,
            ),
    ensures
        s1 == s2,
{
    assert forall|i: int| 0 <= i < s1.len() implies s1[i] == s2[i] by {
        lemma_index_decompose(w, h, i);
        let x = col_of(w, i);
        let y = row_of(w, i);
        let c = i % 3;
        assert(pix_at(w, s1, x, y, c) == pix_at(w, s2, x, y, c));
    }
    assert(s1 =~= s2);
}

/// Reading a mapped image back at an in-range coordinate yields the mapping
/// function's value there.
pub proof fn lemma_map_pixels_at(
    w: int,
    h: int,
    len: int,
    f: spec_fn(int, int, int) -> u8,
    x: int,
    y: int,
    c: int,
)
    requires
        len == w * h * 3,
        0 <= x < w,
        0 <= y < h,
        0 <= c < 3,
    ensures
        pix_at(w, map_pixels(w, len, f), x, y, c) == f(x, y, c),
{
    lemma_pix_bounds(w, h, x, y, c);
}

/// Channel `c` of an `(r, g, b)` color triple.
pub open spec fn rgb_channel(p: (u8, u8, u8), c: int) -> u8 {
    if c == 0 {
        p.0
    } else if c == 1 {
        p.1
    } else {
        p.2
    }
}

/// An owned rectangular image: `width * height` pixels of three bytes each,
/// stored row-major with a stride of exactly `width * 3` bytes.
#[derive(Debug)]
pub struct PixelBuffer {
    width: usize,
    height: usize,
    data: Vec<u8>,
}

impl PixelBuffer {
    /// Width in pixels.
    pub closed spec fn w(self) -> int {
        self.width as int
    }

    /// Height in pixels.
    pub closed spec fn h(self) -> int {
        self.height as int
    }

    /// The raw bytes, row-major.
    pub closed spec fn bytes(self) -> Seq<u8> {
        self.data@
    }

    /// The buffer invariant: storage holds exactly `width * height` pixels.
    pub open spec fn wf(self) -> bool {
        buf_wf(self.w(), self.h(), self.bytes())
    }

    /// Value of channel `c` of the pixel at `(x, y)`.
    pub open spec fn at(self, x: int, y: int, c: int) -> u8 {
        pix_at(self.w(), self.bytes(), x, y, c)
    }

    /// Whether `self` and `other` have the same width and height.
    pub open spec fn same_dims(self, other: PixelBuffer) -> bool {
        self.w() == other.w() && self.h() == other.h()
    }

    /// Width in pixels.
    pub fn width(&self) -> (r: usize)
        ensures
            r == self.w(),
    {
        self.width
    }

    /// Height in pixels.
    pub fn height(&self) -> (r: usize)
        ensures
            r == self.h(),
    {
        self.height
    }

    /// Total number of stored bytes: `width * height * 3`.
    pub fn byte_len(&self) -> (r: usize)
        ensures
            r == self.bytes().len(),
    {
        self.data.len()
    }

    /// Wrap raw row-major bytes as an image. Fails fast (returns `None`)
    /// when the byte count does not match the dimensions.
    pub fn from_raw(width: usize, height: usize, data: Vec<u8>) -> (r: Option<PixelBuffer>)
        ensures
            r is Some <==> data@.len() == width * height * 3,
            r is Some ==> {
                let b = r->Some_0;
                &&& b.wf()
                &&& b.w() == width
                &&& b.h() == height
                &&& b.bytes() == data@
            },
    {
        proof {
            vstd::std_specs::vec::axiom_spec_len(&data);
        }
        let pixels = match width.checked_mul(height) {
            Some(p) => p,
            None => {
                proof {
                    assert(width * height * 3 >= width * height) by (nonlinear_arith)
                        requires
                            width * height > usize::MAX,
                    ;
                }
                return None;
            },
        };
        let len = match pixels.checked_mul(3) {
            Some(l) => l,
            None => {
                return None;
            },
        };
        if data.len() == len {
            Some(PixelBuffer { width, height, data })
        } else {
            None
        }
    }

    /// Wrap bytes whose length is already known to match the dimensions.
    pub(crate) fn assemble(width: usize, height: usize, data: Vec<u8>) -> (r: PixelBuffer)
        requires
            buf_wf(width as int, height as int, data@),
        ensures
            r.wf(),
            r.w() == width,
            r.h() == height,
            r.bytes() == data@,
    {
        PixelBuffer { width, height, data }
    }

    /// Read the byte at flat index `i` of the row-major storage.
    pub fn byte_at(&self, i: usize) -> (v: u8)
        requires
            i < self.bytes().len(),
        ensures
            v == self.bytes()[i as int],
    {
        self.data[i]
    }

    /// Read channel `c` of the pixel at `(x, y)`.
    pub fn get(&self, x: usize, y: usize, c: usize) -> (v: u8)
        requires
            self.wf(),
            x < self.w(),
            y < self.h(),
            c < 3,
        ensures
            v == self.at(x as int, y as int, c as int),
    {
        proof {
            vstd::std_specs::vec::axiom_spec_len(&self.data);
            lemma_pix_bounds(self.w(), self.h(), x as int, y as int, c as int);
        }
        self.data[(y * self.width + x) * 3 + c]
    }

    /// Write channel `c` of the pixel at `(x, y)`; every other channel of
    /// every pixel is unchanged.
    pub fn set(&mut self, x: usize, y: usize, c: usize, v: u8)
        requires
            old(self).wf(),
            x < old(self).w(),
            y < old(self).h(),
            c < 3,
        ensures
            final(self).wf(),
            final(self).w() == old(self).w(),
            final(self).h() == old(self).h(),
            final(self).at(x as int, y as int, c as int) == v,
            forall|x2: int, y2: int, c2: int|
                0 <= x2 < old(self).w() && 0 <= y2 < old(self).h() && 0 <= c2 < 3 && !(x2 == x && y2
                    == y && c2 == c) ==> #[trigger] final(self).at(x2, y2, c2) == old(self).at(
                    x2,
                    y2,
                    c2,
                ),
    {
        proof {
            vstd::std_specs::vec::axiom_spec_len(&self.data);
            lemma_pix_bounds(self.w(), self.h(), x as int, y as int, c as int);
        }
        let i = (y * self.width + x) * 3 + c;
        self.data.set(i, v);
        proof {
            assert forall|x2: int, y2: int, c2: int|
                0 <= x2 < old(self).w() && 0 <= y2 < old(self).h() && 0 <= c2 < 3 && !(x2 == x && y2
                    == y && c2 == c) implies #[trigger] final(self).at(x2, y2, c2) == old(self).at(
                x2,
                y2,
                c2,
            ) by {
                lemma_pix_bounds(old(self).w(), old(self).h(), x2, y2, c2);
            }
        }
    }

    /// Read the pixel at `(x, y)` as an `(r, g, b)` triple.
    pub fn get_pixel(&self, x: usize, y: usize) -> (p: (u8, u8, u8))
        requires
            self.wf(),
            x < self.w(),
            y < self.h(),
        ensures
            p.0 == self.at(x as int, y as int, 0),
            p.1 == self.at(x as int, y as int, 1),
            p.2 == self.at(x as int, y as int, 2),
    {
        (self.get(x, y, 0), self.get(x, y, 1), self.get(x, y, 2))
    }

    /// Overwrite the pixel at `(x, y)` with the `(r, g, b)` triple `p`.
    pub fn set_pixel(&mut self, x: usize, y: usize, p: (u8, u8, u8))
        requires
            old(self).wf(),
            x < old(self).w(),
            y < old(self).h(),
        ensures
            final(self).wf(),
            final(self).w() == old(self).w(),
            final(self).h() == old(self).h(),
            final(self).at(x as int, y as int, 0) == p.0,
            final(self).at(x as int, y as int, 1) == p.1,
            final(self).at(x as int, y as int, 2) == p.2,
            forall|x2: int, y2: int, c2: int|
                0 <= x2 < old(self).w() && 0 <= y2 < old(self).h() && 0 <= c2 < 3 && !(x2 == x && y2
                    == y) ==> #[trigger] final(self).at(x2, y2, c2) == old(self).at(x2, y2, c2),
    {
        self.set(x, y, 0, p.0);
        self.set(x, y, 1, p.1);
        self.set(x, y, 2, p.2);
    }

    /// A buffer with the same dimensions and the same bytes as `self`.
    pub fn duplicate(&self) -> (r: PixelBuffer)
        requires
            self.wf(),
        ensures
            r.wf(),
            r.w() == self.w(),
            r.h() == self.h(),
            r.bytes() == self.bytes(),
    {
        let mut data: Vec<u8> = Vec::new();
        let n = self.data.len();
        let mut i: usize = 0;
        while i < n
            invariant
                i <= n,
                n == self.bytes().len(),
                data@ =~= self.bytes().take(i as int),
            decreases n - i,
        {
            data.push(self.data[i]);
            i = i + 1;
        }
        proof {
            assert(data@ =~= self.bytes());
        }
        PixelBuffer { width: self.width, height: self.height, data }
    }
}

impl PartialEq for PixelBuffer {
    /// Buffers are equal when their dimensions and all their bytes agree.
    fn eq(&self, other: &PixelBuffer) -> (r: bool) {
        if self.width != other.width || self.height != other.height {
            return false;
        }
        if self.data.len() != other.data.len() {
            return false;
        }
        let n = self.data.len();
        let mut i: usize = 0;
        while i < n
            invariant
                i <= n,
                n == self.data@.len(),
                n == other.data@.len(),
                forall|j: int| 0 <= j < i ==> self.data@[j] == other.data@[j],
            decreases n - i,
        {
            if self.data[i] != other.data[i] {
                return false;
            }
            i = i + 1;
        }
        proof {
            assert(self.data@ =~= other.data@);
        }
        true
    }
}

impl vstd::std_specs::cmp::PartialEqSpecImpl for PixelBuffer {
    open spec fn obeys_eq_spec() -> bool {
        true
    }

    open spec fn eq_spec(&self, other: &PixelBuffer) -> bool {
        &&& self.w() == other.w()
        &&& self.h() == other.h()
        &&& self.bytes() == other.bytes()
    }
}

} // verus!
