//! Images held as rows of RGBA pixels, and the whole-image measures that the
//! approximation uses: sum of squared differences and average colour.

use vstd::prelude::*;

use crate::pixel::{
    Rgba, blend, pixel_sq_diff, pixel_squared_difference, lemma_pixel_sq_diff_bounds,
    max_pixel_sq_diff,
};
use crate::sums::{sum_range, lemma_sum_ext, lemma_sum_zero, lemma_sum_nonneg, lemma_sum_const};

verus! {

/// What a canvas is: its width and height, and its pixels row after row.
pub struct CanvasModel {
    pub width: nat,
    pub height: nat,
    pub pixels: Seq<Rgba>,
}

impl CanvasModel {
    /// There is one pixel for each position.
    pub open spec fn wf(self) -> bool {
        self.pixels.len() == self.width * self.height
    }

    /// The position `(x, y)` lies on the canvas.
    pub open spec fn in_bounds(self, x: int, y: int) -> bool {
        0 <= x < self.width && 0 <= y < self.height
    }

    /// Where the pixel at `(x, y)` is stored.
    pub open spec fn index(self, x: int, y: int) -> int {
        y * self.width + x
    }

    /// The pixel at `(x, y)`.
    pub open spec fn pixel_at(self, x: int, y: int) -> Rgba {
        self.pixels[self.index(x, y)]
    }

    /// A `width` by `height` canvas of which every pixel is `p`.
    pub open spec fn uniform(width: nat, height: nat, p: Rgba) -> CanvasModel {
        CanvasModel { width, height, pixels: Seq::new(width * height, |i: int| p) }
    }

    /// The canvas with the pixel at `(x, y)` replaced by `p`.
    pub open spec fn with_pixel(self, x: int, y: int, p: Rgba) -> CanvasModel {
        CanvasModel { pixels: self.pixels.update(self.index(x, y), p), ..self }
    }
}

/// The storage index of a position on the canvas lies in the storage.
pub proof fn lemma_index_in_bounds(w: nat, h: nat, x: int, y: int)
    requires
        0 <= x < w,
        0 <= y < h,
    ensures
        0 <= y * w + x < w * h,
{
    assert(0 <= y * w + x < w * h) by (nonlinear_arith)
        requires
            0 <= x < w,
            0 <= y < h,
    ;
}

/// An RGBA image: `width` by `height` pixels stored row after row.
pub struct Canvas {
    width: u32,
    height: u32,
    pixels: Vec<Rgba>,
}

impl View for Canvas {
    type V = CanvasModel;

    closed spec fn view(&self) -> CanvasModel {
        CanvasModel { width: self.width as nat, height: self.height as nat, pixels: self.pixels@ }
    }
}

impl Clone for Canvas {
    fn clone(&self) -> (res: Self)
        ensures
            res@ == self@,
    {
        proof {
            use_type_invariant(self);
        }
        let mut pixels: Vec<Rgba> = Vec::new();
        let n = self.pixels.len();
        for i in 0..n
            invariant
                n == self.pixels@.len(),
                pixels@ == self.pixels@.subrange(0, i as int),
        {
            pixels.push(self.pixels[i]);
            assert(pixels@ =~= self.pixels@.subrange(0, i + 1));
        }
        assert(pixels@ =~= self.pixels@);
        Canvas { width: self.width, height: self.height, pixels }
    }
}

impl Canvas {
    /// One pixel for each position, always.
    #[verifier::type_invariant]
    pub closed spec fn inv(self) -> bool {
        self@.wf()
    }

    /// Every canvas holds one pixel for each position.
    pub fn is_well_formed(&self) -> (res: bool)
        ensures
            res,
            self@.wf(),
    {
        proof {
            use_type_invariant(self);
        }
        true
    }

    /// The canvas of the given size holding `pixels` row after row, or
    /// `None` when the number of pixels is not `width * height`.
    pub fn from_pixels(width: u32, height: u32, pixels: Vec<Rgba>) -> (res: Option<Canvas>)
        ensures
            res is Some <==> pixels@.len() == width * height,
            res matches Some(c) ==> c@ == (CanvasModel {
                width: width as nat,
                height: height as nat,
                pixels: pixels@,
            }),
            res matches Some(c) ==> c@.wf(),
    {
        assert(width * height <= u64::MAX) by (nonlinear_arith)
            requires
                width <= u32::MAX,
                height <= u32::MAX,
        ;
        let n: u64 = width as u64 * height as u64;
        if pixels.len() as u64 == n {
            Some(Canvas { width, height, pixels })
        } else {
            None
        }
    }

    /// A `width` by `height` canvas filled with `pixel`.
    pub fn from_pixel(width: u32, height: u32, pixel: Rgba) -> (res: Canvas)
        requires
            width * height * 4 <= usize::MAX,
        ensures
            res@ == CanvasModel::uniform(width as nat, height as nat, pixel),
            res@.wf(),
    {
        let n: usize = width as usize * height as usize;
        let mut pixels: Vec<Rgba> = Vec::new();
        for i in 0..n
            invariant
                pixels@ == Seq::new(i as nat, |j: int| pixel),
        {
            pixels.push(pixel);
            assert(pixels@ =~= Seq::new((i + 1) as nat, |j: int| pixel));
        }
        let res = Canvas { width, height, pixels };
        assert(res@.pixels =~= CanvasModel::uniform(width as nat, height as nat, pixel).pixels);
        res
    }

    /// The width in pixels.
    pub fn width(&self) -> (res: u32)
        ensures
            res == self@.width,
    {
        self.width
    }

    /// The height in pixels.
    pub fn height(&self) -> (res: u32)
        ensures
            res == self@.height,
    {
        self.height
    }

    /// The pixels, row after row.
    pub fn pixels(&self) -> (res: &Vec<Rgba>)
        ensures
            res@ == self@.pixels,
    {
        &self.pixels
    }

    /// The pixel at `(x, y)`.
    pub fn get_pixel(&self, x: u32, y: u32) -> (res: Rgba)
        requires
            self@.in_bounds(x as int, y as int),
        ensures
            res == self@.pixel_at(x as int, y as int),
    {
        proof {
            use_type_invariant(self);
            lemma_index_in_bounds(self@.width, self@.height, x as int, y as int);
            assert(y * self.width <= y * self.width + x);
            assert(self.pixels.len() == self.pixels@.len());
        }
        let i: usize = y as usize * self.width as usize + x as usize;
        self.pixels[i]
    }

    /// Composites `fg` over the pixel at `(x, y)`.
    pub fn blend_pixel(&mut self, x: u32, y: u32, fg: Rgba)
        requires
            old(self)@.in_bounds(x as int, y as int),
        ensures
            final(self)@ == old(self)@.with_pixel(
                x as int,
                y as int,
                old(self)@.pixel_at(x as int, y as int).blended(fg),
            ),
            final(self)@.wf(),
    {
        proof {
            use_type_invariant(&*self);
            lemma_index_in_bounds(self@.width, self@.height, x as int, y as int);
            assert(y * self.width <= y * self.width + x);
            assert(self.pixels.len() == self.pixels@.len());
        }
        let i: usize = y as usize * self.width as usize + x as usize;
        let p = blend(self.pixels[i], fg);
        self.pixels[i] = p;
    }
}

/// The sum, over the pixels that the two canvases have in common in storage
/// order, of the squared channel differences.
pub open spec fn ssd(t: CanvasModel, a: CanvasModel) -> int {
    sum_range(
        |i: int| pixel_sq_diff(t.pixels[i], a.pixels[i]),
        0,
        if t.pixels.len() <= a.pixels.len() {
            t.pixels.len() as int
        } else {
            a.pixels.len() as int
        },
    )
}

/// The sum of squared differences between the channels of `target` and
/// `actual`, pixel by pixel in storage order, over as many pixels as the
/// shorter of the two holds.
pub fn calculate_total_sum_of_differences(target: &Canvas, actual: &Canvas) -> (res: u128)
    ensures
        res == ssd(target@, actual@),
{
    let tp = target.pixels();
    let ap = actual.pixels();
    let n: usize = if tp.len() <= ap.len() {
        tp.len()
    } else {
        ap.len()
    };
    let ghost f = |i: int| pixel_sq_diff(target@.pixels[i], actual@.pixels[i]);
    let mut total: u128 = 0;
    for i in 0..n
        invariant
            n <= tp@.len(),
            n <= ap@.len(),
            tp@ == target@.pixels,
            ap@ == actual@.pixels,
            f == (|i: int| pixel_sq_diff(target@.pixels[i], actual@.pixels[i])),
            total == sum_range(f, 0, i as int),
            total <= max_pixel_sq_diff() * i,
    {
        proof {
            lemma_pixel_sq_diff_bounds(tp@[i as int], ap@[i as int]);
        }
        let d = pixel_squared_difference(tp[i], ap[i]);
        total = total + d as u128;
    }
    total
}

/// The value of channel `k` (0 red, 1 green, 2 blue, 3 alpha) of `p`.
pub open spec fn channel(p: Rgba, k: int) -> int {
    if k == 0 {
        p.r as int
    } else if k == 1 {
        p.g as int
    } else if k == 2 {
        p.b as int
    } else {
        p.a as int
    }
}

/// The sum of channel `k` over the first `n` pixels of `pixels`.
pub open spec fn channel_sum(pixels: Seq<Rgba>, k: int, n: int) -> int {
    sum_range(|i: int| channel(pixels[i], k), 0, n)
}

/// The average of channel `k` over the pixels of `c`, rounded down.
pub open spec fn channel_average(c: CanvasModel, k: int) -> int {
    channel_sum(c.pixels, k, c.pixels.len() as int) / (c.pixels.len() as int)
}

/// The average colour of `c`: each channel is averaged over all pixels and
/// rounded down.
pub open spec fn average_pixel(c: CanvasModel) -> Rgba {
    Rgba {
        r: channel_average(c, 0) as u8,
        g: channel_average(c, 1) as u8,
        b: channel_average(c, 2) as u8,
        a: channel_average(c, 3) as u8,
    }
}

proof fn lemma_average_fits(s: int, n: int)
    requires
        0 <= s <= 255 * n,
        n > 0,
    ensures
        0 <= s / n <= 255,
{
    assert(0 <= s / n <= 255) by (nonlinear_arith)
        requires
            0 <= s <= 255 * n,
            n > 0,
    ;
}

/// The average colour of `image`, each channel summed over all pixels and
/// divided, rounding down, by the number of pixels.
pub fn get_average_pixel(image: &Canvas) -> (res: Rgba)
    requires
        0 < image@.width * image@.height <= u32::MAX,
    ensures
        res == average_pixel(image@),
        channel_average(image@, 0) == res.r,
        channel_average(image@, 1) == res.g,
        channel_average(image@, 2) == res.b,
        channel_average(image@, 3) == res.a,
{
    image.is_well_formed();
    let px = image.pixels();
    let n = px.len();
    let ghost s = image@.pixels;
    let mut sr: u64 = 0;
    let mut sg: u64 = 0;
    let mut sb: u64 = 0;
    let mut sa: u64 = 0;
    for i in 0..n
        invariant
            n == s.len(),
            n <= u32::MAX,
            px@ == s,
            sr == channel_sum(s, 0, i as int),
            sg == channel_sum(s, 1, i as int),
            sb == channel_sum(s, 2, i as int),
            sa == channel_sum(s, 3, i as int),
            sr <= 255 * i,
            sg <= 255 * i,
            sb <= 255 * i,
            sa <= 255 * i,
    {
        let p = px[i];
        sr = sr + p.r as u64;
        sg = sg + p.g as u64;
        sb = sb + p.b as u64;
        sa = sa + p.a as u64;
    }
    let count: u64 = n as u64;
    proof {
        lemma_average_fits(sr as int, n as int);
        lemma_average_fits(sg as int, n as int);
        lemma_average_fits(sb as int, n as int);
        lemma_average_fits(sa as int, n as int);
    }
    Rgba {
        r: (sr / count) as u8,
        g: (sg / count) as u8,
        b: (sb / count) as u8,
        a: (sa / count) as u8,
    }
}

/// Law: an image differs from itself by nothing, and the sum of squared
/// differences does not depend on which image is the target.
pub proof fn lemma_ssd_self_and_symmetric(a: CanvasModel, b: CanvasModel)
    ensures
        ssd(a, a) == 0,
        ssd(a, b) == ssd(b, a),
        ssd(a, b) >= 0,
{
    let n = a.pixels.len() as int;
    let m = if a.pixels.len() <= b.pixels.len() {
        a.pixels.len() as int
    } else {
        b.pixels.len() as int
    };
    let same = |i: int| pixel_sq_diff(a.pixels[i], a.pixels[i]);
    assert forall|i: int| 0 <= i < n implies #[trigger] same(i) == 0 by {
        lemma_pixel_sq_diff_bounds(a.pixels[i], a.pixels[i]);
    }
    lemma_sum_zero(same, 0, n);
    let ab = |i: int| pixel_sq_diff(a.pixels[i], b.pixels[i]);
    let ba = |i: int| pixel_sq_diff(b.pixels[i], a.pixels[i]);
    assert forall|i: int| 0 <= i < m implies #[trigger] ab(i) == ba(i) && ab(i) >= 0 by {
        lemma_pixel_sq_diff_bounds(a.pixels[i], b.pixels[i]);
    }
    lemma_sum_ext(ab, ba, 0, m);
    lemma_sum_nonneg(ab, 0, m);
}

/// Law: the average colour of a canvas filled with one pixel is that pixel.
pub proof fn lemma_average_of_uniform(width: nat, height: nat, p: Rgba)
    requires
        width * height > 0,
    ensures
        average_pixel(CanvasModel::uniform(width, height, p)) == p,
{
    let c = CanvasModel::uniform(width, height, p);
    let n = (width * height) as int;
    assert forall|k: int| 0 <= k < 4 implies channel_average(c, k) == channel(p, k) by {
        let f = |i: int| channel(c.pixels[i], k);
        lemma_sum_const(f, channel(p, k), n);
        assert(channel_sum(c.pixels, k, n) == n * channel(p, k));
        vstd::arithmetic::div_mod::lemma_div_multiples_vanish(channel(p, k), n);
        vstd::arithmetic::mul::lemma_mul_is_commutative(n, channel(p, k));
    }
    assert(channel_average(c, 0) == channel(p, 0));
    assert(channel_average(c, 1) == channel(p, 1));
    assert(channel_average(c, 2) == channel(p, 2));
    assert(channel_average(c, 3) == channel(p, 3));
}

} // verus!
