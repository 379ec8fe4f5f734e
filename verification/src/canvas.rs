//! The per-tick canvas: one tightly packed RGBA pixel buffer, four bytes per
//! pixel in row-major order, spanning the bounding box of all monitors.  It
//! is rebuilt from scratch every tick and discarded after extraction.

use vstd::prelude::*;

verus! {

/// Byte index of channel `c` of pixel `(x, y)` in a row-major RGBA buffer
/// of width `w`.
pub open spec fn pix_idx(w: int, x: int, y: int, c: int) -> int {
    (y * w + x) * 4 + c
}

pub proof fn lemma_pix_idx_bounds(w: int, h: int, x: int, y: int, c: int)
    requires
        0 <= x < w,
        0 <= y < h,
        0 <= c < 4,
    ensures
        0 <= pix_idx(w, x, y, c) < w * h * 4,
        0 <= y * w + x < w * h,
        w * h <= w * h * 4,
    decreases 0int,
{
    assert(0 <= (y * w + x) * 4 + c < w * h * 4 && 0 <= y * w + x < w * h && w * h <= w * h * 4)
        by (nonlinear_arith)
        requires
            0 <= x < w,
            0 <= y < h,
            0 <= c < 4,
    ;
}

/// Distinct in-bounds coordinates land on distinct bytes.
pub proof fn lemma_pix_idx_injective(w: int, x1: int, y1: int, c1: int, x2: int, y2: int, c2: int)
    requires
        0 <= x1 < w,
        0 <= y1,
        0 <= c1 < 4,
        0 <= x2 < w,
        0 <= y2,
        0 <= c2 < 4,
        pix_idx(w, x1, y1, c1) == pix_idx(w, x2, y2, c2),
    ensures
        x1 == x2 && y1 == y2 && c1 == c2,
    decreases 0int,
{
    assert(x1 == x2 && y1 == y2 && c1 == c2) by (nonlinear_arith)
        requires
            0 <= x1 < w,
            0 <= y1,
            0 <= c1 < 4,
            0 <= x2 < w,
            0 <= y2,
            0 <= c2 < 4,
            (y1 * w + x1) * 4 + c1 == (y2 * w + x2) * 4 + c2,
    ;
}

/// Every byte index below `w * h * 4` is the index of exactly one in-bounds
/// coordinate: channel `i % 4` of pixel `((i / 4) % w, (i / 4) / w)`.
pub proof fn lemma_pix_idx_decode(w: int, h: int, i: int)
    requires
        w > 0,
        h > 0,
        0 <= i < w * h * 4,
    ensures
        0 <= i % 4 < 4,
        0 <= (i / 4) % w < w,
        0 <= (i / 4) / w < h,
        pix_idx(w, (i / 4) % w, (i / 4) / w, i % 4) == i,
    decreases 0int,
{
    let p = i / 4;
    let c = i % 4;
    vstd::arithmetic::div_mod::lemma_fundamental_div_mod(i, 4);
    vstd::arithmetic::div_mod::lemma_mod_bound(i, 4);
    vstd::arithmetic::div_mod::lemma_fundamental_div_mod(p, w);
    vstd::arithmetic::div_mod::lemma_mod_bound(p, w);
    assert(0 <= p < w * h) by (nonlinear_arith)
        requires
            0 <= i < w * h * 4,
            i == 4 * p + c,
            0 <= c < 4,
    ;
    let x = p % w;
    let y = p / w;
    assert(0 <= y < h && (y * w + x) * 4 + c == i) by (nonlinear_arith)
        requires
            w > 0,
            h > 0,
            0 <= p < w * h,
            p == w * y + x,
            0 <= x < w,
            i == 4 * p + c,
    ;
}

/// The ephemeral composited image of one tick.
pub struct Canvas {
    pub width: usize,
    pub height: usize,
    pub data: Vec<u8>,
}

impl Canvas {
    /// The buffer holds exactly `width * height` packed RGBA pixels.
    pub open spec fn wf(&self) -> bool {
        self.data@.len() == self.width * self.height * 4
    }

    /// A `Vec` never holds more than `usize::MAX` elements.
    proof fn lemma_len_bound(&self)
        ensures
            self.data@.len() <= usize::MAX,
    {
        assert(vstd::std_specs::vec::spec_vec_len(&self.data) == self.data@.len());
    }

    /// A zero-filled canvas: every byte 0, so every absent region shows
    /// black and transparent.
    pub fn new(width: usize, height: usize) -> (c: Canvas)
        requires
            width * height * 4 <= usize::MAX,
        ensures
            c.wf(),
            c.width == width,
            c.height == height,
            forall|i: int| 0 <= i < c.data@.len() ==> c.data@[i] == 0u8,
    {
        proof {
            assert(width * height <= width * height * 4 <= usize::MAX) by (nonlinear_arith)
                requires
                    width * height * 4 <= usize::MAX,
            ;
        }
        let len: usize = width * height * 4;
        let mut data: Vec<u8> = Vec::new();
        let mut j: usize = 0;
        while j < len
            invariant
                data@.len() == j,
                j <= len,
                forall|i: int| 0 <= i < j ==> data@[i] == 0u8,
            decreases len - j,
        {
            data.push(0u8);
            j = j + 1;
        }
        Canvas { width, height, data }
    }

    /// Read one channel of one pixel.
    pub fn channel_at(&self, x: usize, y: usize, c: usize) -> (v: u8)
        requires
            self.wf(),
            x < self.width,
            y < self.height,
            c < 4,
        ensures
            v == self.data@[pix_idx(self.width as int, x as int, y as int, c as int)],
    {
        proof {
            self.lemma_len_bound();
            lemma_pix_idx_bounds(self.width as int, self.height as int, x as int, y as int,
                c as int);
        }
        self.data[(y * self.width + x) * 4 + c]
    }

    /// Write one channel of one pixel; every other byte is untouched.
    pub fn set_channel(&mut self, x: usize, y: usize, c: usize, v: u8)
        requires
            old(self).wf(),
            x < old(self).width,
            y < old(self).height,
            c < 4,
        ensures
            final(self).wf(),
            final(self).width == old(self).width,
            final(self).height == old(self).height,
            final(self).data@ == old(self).data@.update(
                pix_idx(old(self).width as int, x as int, y as int, c as int),
                v,
            ),
    {
        proof {
            self.lemma_len_bound();
            lemma_pix_idx_bounds(self.width as int, self.height as int, x as int, y as int,
                c as int);
        }
        let i: usize = (y * self.width + x) * 4 + c;
        self.data.set(i, v);
    }

    /// Overwrite every pixel with one RGBA color.
    pub fn fill(&mut self, r: u8, g: u8, b: u8, a: u8)
        requires
            old(self).wf(),
        ensures
            final(self).wf(),
            final(self).width == old(self).width,
            final(self).height == old(self).height,
            forall|x: int, y: int|
                0 <= x < final(self).width && 0 <= y < final(self).height ==> {
                    &&& final(self).data@[pix_idx(final(self).width as int, x, y, 0)] == r
                    &&& final(self).data@[pix_idx(final(self).width as int, x, y, 1)] == g
                    &&& final(self).data@[pix_idx(final(self).width as int, x, y, 2)] == b
                    &&& final(self).data@[pix_idx(final(self).width as int, x, y, 3)] == a
                },
    {
        let w = self.width;
        let h = self.height;
        let mut y: usize = 0;
        while y < h
            invariant
                y <= h,
                self.wf(),
                self.width == w,
                self.height == h,
                forall|xx: int, yy: int|
                    0 <= xx < w && 0 <= yy < y ==> {
                        &&& self.data@[pix_idx(w as int, xx, yy, 0)] == r
                        &&& self.data@[pix_idx(w as int, xx, yy, 1)] == g
                        &&& self.data@[pix_idx(w as int, xx, yy, 2)] == b
                        &&& self.data@[pix_idx(w as int, xx, yy, 3)] == a
                    },
            decreases h - y,
        {
            let mut x: usize = 0;
            while x < w
                invariant
                    x <= w,
                    y < h,
                    self.wf(),
                    self.width == w,
                    self.height == h,
                    forall|xx: int, yy: int|
                        0 <= xx < w && 0 <= yy < y ==> {
                            &&& self.data@[pix_idx(w as int, xx, yy, 0)] == r
                            &&& self.data@[pix_idx(w as int, xx, yy, 1)] == g
                            &&& self.data@[pix_idx(w as int, xx, yy, 2)] == b
                            &&& self.data@[pix_idx(w as int, xx, yy, 3)] == a
                        },
                    forall|xx: int|
                        0 <= xx < x ==> {
                            &&& self.data@[pix_idx(w as int, xx, y as int, 0)] == r
                            &&& self.data@[pix_idx(w as int, xx, y as int, 1)] == g
                            &&& self.data@[pix_idx(w as int, xx, y as int, 2)] == b
                            &&& self.data@[pix_idx(w as int, xx, y as int, 3)] == a
                        },
                decreases w - x,
            {
                self.set_channel(x, y, 0, r);
                self.set_channel(x, y, 1, g);
                self.set_channel(x, y, 2, b);
                self.set_channel(x, y, 3, a);
                proof {
                    lemma_pixel_write_isolated(w as int, h as int, x as int, y as int);
                }
                x = x + 1;
            }
            y = y + 1;
        }
    }
}

/// Writing the four channels of `(x, y)` moves only those four bytes: any
/// other in-bounds coordinate keeps its bytes.
pub proof fn lemma_pixel_write_isolated(w: int, h: int, x: int, y: int)
    requires
        0 <= x < w,
        0 <= y < h,
    ensures
        forall|xx: int, yy: int, cc: int|
            0 <= xx < w && 0 <= yy < h && 0 <= cc < 4 ==> 0 <= #[trigger] pix_idx(w, xx, yy, cc)
                < w * h * 4,
        forall|xx: int, yy: int, cc: int|
            0 <= xx < w && 0 <= yy < h && 0 <= cc < 4 && !(xx == x && yy == y) ==> #[trigger] pix_idx(
                w,
                xx,
                yy,
                cc,
            ) != pix_idx(w, x, y, 0) && pix_idx(w, xx, yy, cc) != pix_idx(w, x, y, 1) && pix_idx(
                w,
                xx,
                yy,
                cc,
            ) != pix_idx(w, x, y, 2) && pix_idx(w, xx, yy, cc) != pix_idx(w, x, y, 3),
{
    assert forall|xx: int, yy: int, cc: int|
        0 <= xx < w && 0 <= yy < h && 0 <= cc < 4 implies 0 <= #[trigger] pix_idx(w, xx, yy, cc)
        < w * h * 4 by {
        lemma_pix_idx_bounds(w, h, xx, yy, cc);
    }
    assert forall|xx: int, yy: int, cc: int|
        0 <= xx < w && 0 <= yy < h && 0 <= cc < 4 && !(xx == x && yy == y) implies #[trigger] pix_idx(
        w,
        xx,
        yy,
        cc,
    ) != pix_idx(w, x, y, 0) && pix_idx(w, xx, yy, cc) != pix_idx(w, x, y, 1) && pix_idx(
        w,
        xx,
        yy,
        cc,
    ) != pix_idx(w, x, y, 2) && pix_idx(w, xx, yy, cc) != pix_idx(w, x, y, 3) by {
        if pix_idx(w, xx, yy, cc) == pix_idx(w, x, y, 0) {
            lemma_pix_idx_injective(w, xx, yy, cc, x, y, 0);
        }
        if pix_idx(w, xx, yy, cc) == pix_idx(w, x, y, 1) {
            lemma_pix_idx_injective(w, xx, yy, cc, x, y, 1);
        }
        if pix_idx(w, xx, yy, cc) == pix_idx(w, x, y, 2) {
            lemma_pix_idx_injective(w, xx, yy, cc, x, y, 2);
        }
        if pix_idx(w, xx, yy, cc) == pix_idx(w, x, y, 3) {
            lemma_pix_idx_injective(w, xx, yy, cc, x, y, 3);
        }
    }
}

} // verus!
