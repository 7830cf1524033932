use vstd::prelude::*;

use crate::raster::{Image, ImageV, Pixel};

verus! {

/// One channel of a pixel, selected by index: 0 = red, 1 = green, 2 = blue,
/// 3 = alpha.
pub open spec fn chan(p: Pixel, c: int) -> int {
    if c == 0 {
        p.r as int
    } else if c == 1 {
        p.g as int
    } else if c == 2 {
        p.b as int
    } else {
        p.a as int
    }
}

/// Sum of channel `c` over the pixel column `x`, rows `y0` (inclusive) to
/// `y1` (exclusive).
pub open spec fn col_chan_sum(v: ImageV, x: int, y0: int, y1: int, c: int) -> int
    decreases y1 - y0,
{
    if y0 >= y1 {
        0
    } else {
        chan(v.pix(x, y0), c) + col_chan_sum(v, x, y0 + 1, y1, c)
    }
}

/// Sum of channel `c` over the rectangle of columns `x0..x1`, rows `y0..y1`
/// (both half-open).
pub open spec fn rect_chan_sum(v: ImageV, x0: int, x1: int, y0: int, y1: int, c: int) -> int
    decreases x1 - x0,
{
    if x0 >= x1 {
        0
    } else {
        col_chan_sum(v, x0, y0, y1, c) + rect_chan_sum(v, x0 + 1, x1, y0, y1, c)
    }
}

/// First coordinate of the window around `c` with the given radius, clipped
/// at the raster edge.
pub open spec fn win_lo(c: int, radius: int) -> int {
    if c < radius {
        0
    } else {
        c - radius
    }
}

/// One past the last coordinate of the window around `c`, clipped at the
/// raster edge (`max` is the number of pixels along this axis).
pub open spec fn win_hi(c: int, radius: int, max: int) -> int {
    if c + radius + 1 > max {
        max
    } else {
        c + radius + 1
    }
}

/// The averaged pixel at `(x, y)`: each channel is the truncating integer
/// average of that channel over the clipped square neighborhood.
pub open spec fn blurred_pix(v: ImageV, radius: int, x: int, y: int) -> Pixel {
    let x0 = win_lo(x, radius);
    let x1 = win_hi(x, radius, v.width);
    let y0 = win_lo(y, radius);
    let y1 = win_hi(y, radius, v.height);
    let n = (x1 - x0) * (y1 - y0);
    Pixel {
        r: (rect_chan_sum(v, x0, x1, y0, y1, 0) / n) as u8,
        g: (rect_chan_sum(v, x0, x1, y0, y1, 1) / n) as u8,
        b: (rect_chan_sum(v, x0, x1, y0, y1, 2) / n) as u8,
        a: (rect_chan_sum(v, x0, x1, y0, y1, 3) / n) as u8,
    }
}

/// One full box-averaging pass over the raster.
pub open spec fn blur_once_v(v: ImageV, radius: int) -> ImageV {
    ImageV {
        width: v.width,
        height: v.height,
        pixels: Seq::new(
            (v.width * v.height) as nat,
            |i: int| blurred_pix(v, radius, i % v.width, i / v.width),
        ),
    }
}

/// `rounds` successive box-averaging passes, each over the previous output.
pub open spec fn blur_rounds_v(v: ImageV, radius: int, rounds: nat) -> ImageV
    decreases rounds,
{
    if rounds == 0 {
        v
    } else {
        blur_once_v(blur_rounds_v(v, radius, (rounds - 1) as nat), radius)
    }
}

/// The normalized window size: even sizes are rounded up to the next odd
/// value, and the result is clamped to at least 3.
pub open spec fn normalize_box_spec(s: usize) -> int {
    if s % 2 == 0 {
        if s + 1 >= 3 {
            s + 1
        } else {
            3
        }
    } else {
        if s >= 3 {
            s as int
        } else {
            3
        }
    }
}

/// The window size used by `blur` for a given request: 15 when absent,
/// otherwise the normalized request.
pub open spec fn box_size_spec(box_size: Option<usize>) -> int {
    match box_size {
        None => 15,
        Some(s) => normalize_box_spec(s),
    }
}

/// The number of passes used by `blur` for a given request.
pub open spec fn rounds_spec(round: Option<usize>) -> nat {
    match round {
        None => 1,
        Some(n) => n as nat,
    }
}

/// Normalizes a requested window size.
///
/// Every possible request, zero and even sizes included, yields an odd
/// window of at least 3, so the neighborhood always has a center pixel.
pub fn normalize_box_size(s: usize) -> (r: usize)
    ensures
        r == normalize_box_spec(s),
        r % 2 == 1,
        r >= 3,
{
    if s % 2 == 0 {
        if s + 1 >= 3 {
            s + 1
        } else {
            3
        }
    } else {
        if s >= 3 {
            s
        } else {
            3
        }
    }
}

/// The two raster operations of this library: box-average blurring, and
/// recovering text from a blurred raster given pre-blurred reference glyphs.
pub trait ImageBlur: View<V = ImageV> + Sized {
    /// Blurs this raster with a box filter.
    ///
    /// The window defaults to 15 when absent and is otherwise normalized to
    /// an odd size of at least 3; the whole pass runs `round` times (default
    /// 1), each over the previous output. The result has the input's
    /// dimensions, and every pixel is the channel-wise truncating average of
    /// its clipped square neighborhood.
    fn blur(&self, box_size: Option<usize>, round: Option<usize>) -> (r: Self)
        requires
            self@.wf(),
            255 * (self@.width * self@.height) <= usize::MAX,
        ensures
            r@.wf(),
            r@ == blur_rounds_v(self@, (box_size_spec(box_size) - 1) / 2, rounds_spec(round)),
    ;

    /// Recovers the text encoded in this blurred raster. `glyph_sets[s]`
    /// must hold every alphabet character's reference glyph blurred at
    /// strength `s` (in tenths of sigma); the walk calibrates the strength
    /// on the first cell and then classifies every cell of the grid.
    fn unblur_text(&self, glyph_sets: &Vec<Vec<Image>>, alphabet: &Vec<char>) -> (r: String)
        requires
            self@.wf(),
            glyph_sets@.len() == crate::recover::SIGMA_STEPS,
            forall|s: int|
                0 <= s < glyph_sets@.len() ==> (#[trigger] glyph_sets@[s])@.len()
                    == alphabet@.len(),
            forall|s: int, i: int|
                0 <= s < glyph_sets@.len() && 0 <= i < glyph_sets@[s]@.len() ==> (
                #[trigger] glyph_sets@[s]@[i]).wf() && glyph_sets@[s]@[i].width
                    == crate::raster::CHAR_WIDTH && glyph_sets@[s]@[i].height
                    == crate::raster::CHAR_HEIGHT,
        ensures
            r@ == crate::recover::recover_spec(self@, glyph_sets@, alphabet@),
    ;
}

/// Box-average passes keep the raster's dimensions and well-formedness.
pub(crate) proof fn lemma_blur_rounds_dims(v: ImageV, radius: int, rounds: nat)
    requires
        v.wf(),
    ensures
        blur_rounds_v(v, radius, rounds).width == v.width,
        blur_rounds_v(v, radius, rounds).height == v.height,
        blur_rounds_v(v, radius, rounds).wf(),
    decreases rounds,
{
    if rounds == 0 {
    } else {
        lemma_blur_rounds_dims(v, radius, (rounds - 1) as nat);
    }
}

proof fn lemma_col_sum_bounds(v: ImageV, x: int, y0: int, y1: int, c: int)
    requires
        y0 <= y1,
    ensures
        0 <= col_chan_sum(v, x, y0, y1, c),
        col_chan_sum(v, x, y0, y1, c) <= 255 * (y1 - y0),
    decreases y1 - y0,
{
    if y0 >= y1 {
    } else {
        lemma_col_sum_bounds(v, x, y0 + 1, y1, c);
    }
}

proof fn lemma_rect_sum_bounds(v: ImageV, x0: int, x1: int, y0: int, y1: int, c: int)
    requires
        x0 <= x1,
        y0 <= y1,
    ensures
        0 <= rect_chan_sum(v, x0, x1, y0, y1, c),
        rect_chan_sum(v, x0, x1, y0, y1, c) <= 255 * ((x1 - x0) * (y1 - y0)),
    decreases x1 - x0,
{
    if x0 >= x1 {
        assert(255 * ((x1 - x0) * (y1 - y0)) == 0) by (nonlinear_arith)
            requires
                x1 == x0,
        ;
    } else {
        lemma_col_sum_bounds(v, x0, y0, y1, c);
        lemma_rect_sum_bounds(v, x0 + 1, x1, y0, y1, c);
        assert(255 * (y1 - y0) + 255 * ((x1 - x0 - 1) * (y1 - y0)) == 255 * ((x1 - x0) * (y1
            - y0))) by (nonlinear_arith);
    }
}

proof fn lemma_col_sum_snoc(v: ImageV, x: int, y0: int, y1: int, c: int)
    requires
        y0 <= y1,
    ensures
        col_chan_sum(v, x, y0, y1 + 1, c) == col_chan_sum(v, x, y0, y1, c) + chan(v.pix(x, y1), c),
    decreases y1 - y0,
{
    if y0 >= y1 {
        assert(col_chan_sum(v, x, y1 + 1, y1 + 1, c) == 0);
        assert(col_chan_sum(v, x, y0, y1 + 1, c) == chan(v.pix(x, y0), c) + col_chan_sum(
            v,
            x,
            y0 + 1,
            y1 + 1,
            c,
        ));
    } else {
        lemma_col_sum_snoc(v, x, y0 + 1, y1, c);
    }
}

proof fn lemma_rect_sum_snoc(v: ImageV, x0: int, x1: int, y0: int, y1: int, c: int)
    requires
        x0 <= x1,
    ensures
        rect_chan_sum(v, x0, x1 + 1, y0, y1, c) == rect_chan_sum(v, x0, x1, y0, y1, c)
            + col_chan_sum(v, x1, y0, y1, c),
    decreases x1 - x0,
{
    if x0 >= x1 {
        assert(rect_chan_sum(v, x1 + 1, x1 + 1, y0, y1, c) == 0);
        assert(rect_chan_sum(v, x0, x1 + 1, y0, y1, c) == col_chan_sum(v, x0, y0, y1, c)
            + rect_chan_sum(v, x0 + 1, x1 + 1, y0, y1, c));
    } else {
        lemma_rect_sum_snoc(v, x0 + 1, x1, y0, y1, c);
    }
}

impl Image {
    /// Returns a pixel-for-pixel copy of this raster.
    pub fn duplicate(&self) -> (r: Image)
        requires
            self.wf(),
        ensures
            r@ == self@,
    {
        let mut px: Vec<Pixel> = Vec::new();
        let n = self.pixels.len();
        let mut i: usize = 0;
        while i < n
            invariant
                i <= n,
                n == self.pixels@.len(),
                px@ == self.pixels@.take(i as int),
            decreases n - i,
        {
            px.push(self.pixels[i]);
            proof {
                assert(px@ =~= self.pixels@.take(i + 1));
            }
            i = i + 1;
        }
        proof {
            assert(px@ =~= self.pixels@);
        }
        Image { width: self.width, height: self.height, pixels: px }
    }

    /// One box-averaging pass: every output pixel is the channel-wise
    /// truncating average of the input pixels in the clipped square
    /// neighborhood of the given radius.
    #[verifier::rlimit(60)]
    pub fn blur_once(&self, radius: usize) -> (r: Image)
        requires
            self.wf(),
            255 * (self@.width * self@.height) <= usize::MAX,
        ensures
            r.wf(),
            r@ == blur_once_v(self@, radius as int),
    {
        let w = self.width;
        let h = self.height;
        let ghost v = self@;
        let mut out: Vec<Pixel> = Vec::new();
        let mut y: usize = 0;
        while y < h
            invariant
                self.wf(),
                255 * (v.width * v.height) <= usize::MAX,
                v == self@,
                w == self.width,
                h == self.height,
                y <= h,
                out@.len() == y * w,
                forall|i: int|
                    0 <= i < out@.len() ==> out@[i] == blurred_pix(v, radius as int, i % w as int, i / w as int),
            decreases h - y,
        {
            let mut x: usize = 0;
            proof {
                assert(y * w + w <= h * w) by (nonlinear_arith)
                    requires
                        0 <= y < h,
                        0 <= w,
                ;
                assert(h * w <= 255 * (w * h)) by (nonlinear_arith)
                    requires
                        0 <= w,
                        0 <= h,
                ;
            }
            while x < w
                invariant
                    self.wf(),
                    255 * (v.width * v.height) <= usize::MAX,
                    v == self@,
                    w == self.width,
                    h == self.height,
                    y < h,
                    x <= w,
                    y * w + w <= h * w,
                    h * w <= 255 * (w * h),
                    out@.len() == y * w + x,
                    forall|i: int|
                        0 <= i < out@.len() ==> out@[i] == blurred_pix(v, radius as int, i % w as int, i / w as int),
                decreases w - x,
            {
                let x0 = if x < radius {
                    0
                } else {
                    x - radius
                };
                let x1 = if w - 1 - x < radius {
                    w
                } else {
                    x + radius + 1
                };
                let y0 = if y < radius {
                    0
                } else {
                    y - radius
                };
                let y1 = if h - 1 - y < radius {
                    h
                } else {
                    y + radius + 1
                };
                proof {
                    assert(x0 == win_lo(x as int, radius as int));
                    assert(x1 == win_hi(x as int, radius as int, w as int));
                    assert(y0 == win_lo(y as int, radius as int));
                    assert(y1 == win_hi(y as int, radius as int, h as int));
                    assert((x1 - x0) * (y1 - y0) <= w * h) by (nonlinear_arith)
                        requires
                            0 < x1 - x0 <= w,
                            0 < y1 - y0 <= h,
                    ;
                }
                let mut sr: usize = 0;
                let mut sg: usize = 0;
                let mut sb: usize = 0;
                let mut sa: usize = 0;
                let mut xx = x0;
                while xx < x1
                    invariant
                        self.wf(),
                        v == self@,
                        w == self.width,
                        h == self.height,
                        0 <= x0 <= xx <= x1 <= w,
                        0 <= y0 < y1 <= h,
                        (x1 - x0) * (y1 - y0) <= w * h,
                        255 * (v.width * v.height) <= usize::MAX,
                        sr == rect_chan_sum(v, x0 as int, xx as int, y0 as int, y1 as int, 0),
                        sg == rect_chan_sum(v, x0 as int, xx as int, y0 as int, y1 as int, 1),
                        sb == rect_chan_sum(v, x0 as int, xx as int, y0 as int, y1 as int, 2),
                        sa == rect_chan_sum(v, x0 as int, xx as int, y0 as int, y1 as int, 3),
                    decreases x1 - xx,
                {
                    let mut yy = y0;
                    while yy < y1
                        invariant
                            self.wf(),
                            v == self@,
                            w == self.width,
                            h == self.height,
                            0 <= x0 <= xx < x1 <= w,
                            0 <= y0 <= yy <= y1 <= h,
                            (x1 - x0) * (y1 - y0) <= w * h,
                            255 * (v.width * v.height) <= usize::MAX,
                            sr == rect_chan_sum(v, x0 as int, xx as int, y0 as int, y1 as int, 0)
                                + col_chan_sum(v, xx as int, y0 as int, yy as int, 0),
                            sg == rect_chan_sum(v, x0 as int, xx as int, y0 as int, y1 as int, 1)
                                + col_chan_sum(v, xx as int, y0 as int, yy as int, 1),
                            sb == rect_chan_sum(v, x0 as int, xx as int, y0 as int, y1 as int, 2)
                                + col_chan_sum(v, xx as int, y0 as int, yy as int, 2),
                            sa == rect_chan_sum(v, x0 as int, xx as int, y0 as int, y1 as int, 3)
                                + col_chan_sum(v, xx as int, y0 as int, yy as int, 3),
                        decreases y1 - yy,
                    {
                        let p = self.get(xx, yy);
                        proof {
                            lemma_rect_sum_bounds(v, x0 as int, xx as int, y0 as int, y1 as int, 0);
                            lemma_rect_sum_bounds(v, x0 as int, xx as int, y0 as int, y1 as int, 1);
                            lemma_rect_sum_bounds(v, x0 as int, xx as int, y0 as int, y1 as int, 2);
                            lemma_rect_sum_bounds(v, x0 as int, xx as int, y0 as int, y1 as int, 3);
                            lemma_col_sum_bounds(v, xx as int, y0 as int, yy as int, 0);
                            lemma_col_sum_bounds(v, xx as int, y0 as int, yy as int, 1);
                            lemma_col_sum_bounds(v, xx as int, y0 as int, yy as int, 2);
                            lemma_col_sum_bounds(v, xx as int, y0 as int, yy as int, 3);
                            assert(255 * ((xx - x0) * (y1 - y0)) + 255 * (yy - y0) + 255 <= 255 * (
                            (x1 - x0) * (y1 - y0))) by (nonlinear_arith)
                                requires
                                    x0 <= xx < x1,
                                    y0 <= yy < y1,
                            ;
                            assert(255 * ((x1 - x0) * (y1 - y0)) <= 255 * (w * h)) by (nonlinear_arith)
                                requires
                                    (x1 - x0) * (y1 - y0) <= w * h,
                            ;
                            lemma_col_sum_snoc(v, xx as int, y0 as int, yy as int, 0);
                            lemma_col_sum_snoc(v, xx as int, y0 as int, yy as int, 1);
                            lemma_col_sum_snoc(v, xx as int, y0 as int, yy as int, 2);
                            lemma_col_sum_snoc(v, xx as int, y0 as int, yy as int, 3);
                        }
                        sr = sr + p.r as usize;
                        sg = sg + p.g as usize;
                        sb = sb + p.b as usize;
                        sa = sa + p.a as usize;
                        yy = yy + 1;
                    }
                    proof {
                        lemma_rect_sum_snoc(v, x0 as int, xx as int, y0 as int, y1 as int, 0);
                        lemma_rect_sum_snoc(v, x0 as int, xx as int, y0 as int, y1 as int, 1);
                        lemma_rect_sum_snoc(v, x0 as int, xx as int, y0 as int, y1 as int, 2);
                        lemma_rect_sum_snoc(v, x0 as int, xx as int, y0 as int, y1 as int, 3);
                    }
                    xx = xx + 1;
                }
                proof {
                    assert(0 < (x1 - x0) * (y1 - y0)) by (nonlinear_arith)
                        requires
                            0 < x1 - x0,
                            0 < y1 - y0,
                    ;
                }
                let n = (x1 - x0) * (y1 - y0);
                proof {
                    lemma_rect_sum_bounds(v, x0 as int, x1 as int, y0 as int, y1 as int, 0);
                    lemma_rect_sum_bounds(v, x0 as int, x1 as int, y0 as int, y1 as int, 1);
                    lemma_rect_sum_bounds(v, x0 as int, x1 as int, y0 as int, y1 as int, 2);
                    lemma_rect_sum_bounds(v, x0 as int, x1 as int, y0 as int, y1 as int, 3);
                    vstd::arithmetic::div_mod::lemma_div_multiples_vanish(255, n as int);
                    vstd::arithmetic::div_mod::lemma_div_is_ordered(sr as int, 255 * (n as int), n as int);
                    vstd::arithmetic::div_mod::lemma_div_is_ordered(sg as int, 255 * (n as int), n as int);
                    vstd::arithmetic::div_mod::lemma_div_is_ordered(sb as int, 255 * (n as int), n as int);
                    vstd::arithmetic::div_mod::lemma_div_is_ordered(sa as int, 255 * (n as int), n as int);
                }
                let pr = sr / n;
                let pg = sg / n;
                let pb = sb / n;
                let pa = sa / n;
                out.push(
                    Pixel { r: pr as u8, g: pg as u8, b: pb as u8, a: pa as u8 },
                );
                proof {
                    let i = y * w + x;
                    vstd::arithmetic::div_mod::lemma_fundamental_div_mod_converse(
                        i as int,
                        w as int,
                        y as int,
                        x as int,
                    );
                    assert(out@[i as int] == blurred_pix(v, radius as int, x as int, y as int));
                }
                x = x + 1;
            }
            y = y + 1;
            proof {
                assert(y * w == (y - 1) * w + w) by (nonlinear_arith);
            }
        }
        proof {
            assert(out@.len() == h * w);
            assert(v.width * v.height == h * w) by (nonlinear_arith)
                requires
                    v.width == w as int,
                    v.height == h as int,
            ;
        }
        let r = Image { width: w, height: h, pixels: out };
        proof {
            assert(r@ =~= blur_once_v(self@, radius as int));
        }
        r
    }
}

/// Averaging over a uniform column is `(length) * (channel value)`.
proof fn lemma_uniform_col_sum(v: ImageV, p: Pixel, x: int, y0: int, y1: int, c: int)
    requires
        v.wf(),
        forall|i: int| 0 <= i < v.pixels.len() ==> v.pixels[i] == p,
        0 <= x < v.width,
        0 <= y0,
        y1 <= v.height,
    ensures
        y0 <= y1 ==> col_chan_sum(v, x, y0, y1, c) == (y1 - y0) * chan(p, c),
    decreases y1 - y0,
{
    if y0 >= y1 {
        if y0 == y1 {
            assert((y1 - y0) * chan(p, c) == 0) by (nonlinear_arith)
                requires
                    y1 == y0,
            ;
        }
    } else {
        assert(0 <= y0 * v.width + x < v.pixels.len()) by (nonlinear_arith)
            requires
                0 <= x < v.width,
                0 <= y0 < v.height,
                v.pixels.len() == v.width * v.height,
        ;
        assert(v.pix(x, y0) == p);
        lemma_uniform_col_sum(v, p, x, y0 + 1, y1, c);
        assert(chan(p, c) + (y1 - y0 - 1) * chan(p, c) == (y1 - y0) * chan(p, c)) by (nonlinear_arith);
    }
}

proof fn lemma_uniform_rect_sum(v: ImageV, p: Pixel, x0: int, x1: int, y0: int, y1: int, c: int)
    requires
        v.wf(),
        forall|i: int| 0 <= i < v.pixels.len() ==> v.pixels[i] == p,
        0 <= x0,
        x1 <= v.width,
        0 <= y0,
        y1 <= v.height,
        y0 <= y1,
    ensures
        x0 <= x1 ==> rect_chan_sum(v, x0, x1, y0, y1, c) == ((x1 - x0) * (y1 - y0)) * chan(p, c),
    decreases x1 - x0,
{
    if x0 >= x1 {
        if x0 == x1 {
            assert(((x1 - x0) * (y1 - y0)) * chan(p, c) == 0) by (nonlinear_arith)
                requires
                    x1 == x0,
            ;
        }
    } else {
        lemma_uniform_col_sum(v, p, x0, y0, y1, c);
        lemma_uniform_rect_sum(v, p, x0 + 1, x1, y0, y1, c);
        assert((y1 - y0) * chan(p, c) + ((x1 - x0 - 1) * (y1 - y0)) * chan(p, c) == ((x1 - x0) * (y1
            - y0)) * chan(p, c)) by (nonlinear_arith);
    }
}

/// Averaging a uniform raster is a no-op: with every pixel equal, each
/// neighborhood average equals that pixel, for any radius and any number of
/// passes. This is the box filter's fixed-point law.
pub proof fn lemma_uniform_blur_identity(v: ImageV, p: Pixel, radius: int, rounds: nat)
    requires
        v.wf(),
        radius >= 0,
        forall|i: int| 0 <= i < v.pixels.len() ==> v.pixels[i] == p,
    ensures
        blur_rounds_v(v, radius, rounds) == v,
    decreases rounds,
{
    if rounds == 0 {
    } else {
        lemma_uniform_blur_identity(v, p, radius, (rounds - 1) as nat);
        let w = blur_once_v(v, radius);
        assert forall|i: int| 0 <= i < w.pixels.len() implies w.pixels[i] == v.pixels[i] by {
            let x = i % v.width;
            let y = i / v.width;
            assert(0 <= x < v.width && 0 <= y < v.height) by (nonlinear_arith)
                requires
                    0 <= i < v.width * v.height,
                    x == i % v.width,
                    y == i / v.width,
                    0 < v.width,
            ;
            let x0 = win_lo(x, radius);
            let x1 = win_hi(x, radius, v.width);
            let y0 = win_lo(y, radius);
            let y1 = win_hi(y, radius, v.height);
            assert(0 <= x0 <= x && x < x1 <= v.width);
            assert(0 <= y0 <= y && y < y1 <= v.height);
            lemma_uniform_rect_sum(v, p, x0, x1, y0, y1, 0);
            lemma_uniform_rect_sum(v, p, x0, x1, y0, y1, 1);
            lemma_uniform_rect_sum(v, p, x0, x1, y0, y1, 2);
            lemma_uniform_rect_sum(v, p, x0, x1, y0, y1, 3);
            let n = (x1 - x0) * (y1 - y0);
            assert(0 < n) by (nonlinear_arith)
                requires
                    n == (x1 - x0) * (y1 - y0),
                    0 < x1 - x0,
                    0 < y1 - y0,
            ;
            vstd::arithmetic::div_mod::lemma_div_multiples_vanish(chan(p, 0), n);
            vstd::arithmetic::div_mod::lemma_div_multiples_vanish(chan(p, 1), n);
            vstd::arithmetic::div_mod::lemma_div_multiples_vanish(chan(p, 2), n);
            vstd::arithmetic::div_mod::lemma_div_multiples_vanish(chan(p, 3), n);
            assert((n * chan(p, 0)) / n == chan(p, 0));
            assert(v.pixels[i] == p);
        }
        assert(w =~= v);
    }
}

} // verus!
