//! RGBA pixels with eight bits per channel, alpha blending and squared
//! differences.

use vstd::prelude::*;

verus! {

/// A pixel with red, green, blue and alpha channels.
#[derive(Clone, Copy, PartialEq, Eq, Structural, Debug)]
pub struct Rgba {
    pub r: u8,
    pub g: u8,
    pub b: u8,
    pub a: u8,
}

/// The result of compositing `fg` over `bg` as the `image` crate's
/// `Pixel::blend` computes it for `Rgba<u8>`.
pub uninterp spec fn spec_blend(bg: (u8, u8, u8, u8), fg: (u8, u8, u8, u8)) -> (u8, u8, u8, u8);

impl Rgba {
    /// The channels as a tuple `(r, g, b, a)`.
    pub open spec fn channels(self) -> (u8, u8, u8, u8) {
        (self.r, self.g, self.b, self.a)
    }

    /// The pixel whose channels are the tuple `t`.
    pub open spec fn from_channels(t: (u8, u8, u8, u8)) -> Rgba {
        Rgba { r: t.0, g: t.1, b: t.2, a: t.3 }
    }

    /// What compositing `fg` over `self` gives: a transparent `fg` leaves
    /// `self` as it is, an opaque `fg` replaces it, and in between the
    /// channels are those that `image` computes (`spec_blend`).
    pub open spec fn blended(self, fg: Rgba) -> Rgba {
        if fg.a == 0 {
            self
        } else if fg.a == 255 {
            fg
        } else {
            Rgba::from_channels(spec_blend(self.channels(), fg.channels()))
        }
    }
}

/// Composites `fg` over `bg` through `image::Pixel::blend` on `Rgba<u8>`.
///
/// Trusted.  The source of `image` (`Blend for Rgba<T>`) returns early in
/// two cases, both stated: a foreground with alpha 0 leaves the background
/// unchanged, and a foreground with alpha 255 replaces it.  Otherwise the
/// crate computes the source-over formula in `f32` and casts back; that
/// result is named `spec_blend` of the two pixels' channels and is not
/// otherwise stated.
#[verifier::external_body]
fn blend_channels(bg: Rgba, fg: Rgba) -> (res: Rgba)
    ensures
        fg.a == 0 ==> res == bg,
        fg.a == 255 ==> res == fg,
        fg.a != 0 && fg.a != 255 ==> res.channels() == spec_blend(bg.channels(), fg.channels()),
{
    let mut p = image::Rgba([bg.r, bg.g, bg.b, bg.a]);
    image::Pixel::blend(&mut p, &image::Rgba([fg.r, fg.g, fg.b, fg.a]));
    Rgba { r: p.0[0], g: p.0[1], b: p.0[2], a: p.0[3] }
}

/// Composites `fg` over `bg` (alpha "source over").
pub fn blend(bg: Rgba, fg: Rgba) -> (res: Rgba)
    ensures
        res == bg.blended(fg),
        fg.a == 0 ==> res == bg,
        fg.a == 255 ==> res == fg,
        fg.a != 0 && fg.a != 255 ==> res.channels() == spec_blend(bg.channels(), fg.channels()),
{
    blend_channels(bg, fg)
}

/// Law: compositing reads the whole background, its alpha included: a
/// transparent foreground keeps the background, an opaque one replaces it,
/// and any other is composited over the background's own four channels, so
/// two backgrounds that differ only in alpha are composited from different
/// inputs.
pub proof fn lemma_blend_uses_whole_background(bg: Rgba, fg: Rgba)
    ensures
        fg.a == 0 ==> bg.blended(fg) == bg,
        fg.a == 255 ==> bg.blended(fg) == fg,
        fg.a != 0 && fg.a != 255 ==> bg.blended(fg).channels() == spec_blend(
            (bg.r, bg.g, bg.b, bg.a),
            (fg.r, fg.g, fg.b, fg.a),
        ),
{
}

/// Squared difference of two channel values.
pub open spec fn sq_diff(x: u8, y: u8) -> int {
    (x - y) * (x - y)
}

/// Sum over the four channels of the squared differences of `t` and `a`.
pub open spec fn pixel_sq_diff(t: Rgba, a: Rgba) -> int {
    sq_diff(t.r, a.r) + sq_diff(t.g, a.g) + sq_diff(t.b, a.b) + sq_diff(t.a, a.a)
}

/// The largest value `pixel_sq_diff` takes: four times 255 squared.
pub open spec fn max_pixel_sq_diff() -> int {
    260100
}

/// `sq_diff` lies between 0 and 255 squared.
pub proof fn lemma_sq_diff_bounds(x: u8, y: u8)
    ensures
        0 <= sq_diff(x, y) <= 65025,
        sq_diff(x, y) == sq_diff(y, x),
        x == y ==> sq_diff(x, y) == 0,
{
    let d: int = x - y;
    assert(0 <= d * d <= 65025) by (nonlinear_arith)
        requires
            -255 <= d <= 255,
    ;
    assert((y - x) * (y - x) == d * d) by (nonlinear_arith)
        requires
            d == x - y,
    ;
    assert(sq_diff(x, y) == d * d);
    assert(sq_diff(y, x) == (y - x) * (y - x));
    if x == y {
        assert(d * d == 0) by (nonlinear_arith)
            requires
                d == 0,
        ;
    }
}

/// `pixel_sq_diff` lies between 0 and `max_pixel_sq_diff`, is symmetric and
/// is 0 on equal pixels.
pub proof fn lemma_pixel_sq_diff_bounds(t: Rgba, a: Rgba)
    ensures
        0 <= pixel_sq_diff(t, a) <= max_pixel_sq_diff(),
        pixel_sq_diff(t, a) == pixel_sq_diff(a, t),
        t == a ==> pixel_sq_diff(t, a) == 0,
{
    lemma_sq_diff_bounds(t.r, a.r);
    lemma_sq_diff_bounds(t.g, a.g);
    lemma_sq_diff_bounds(t.b, a.b);
    lemma_sq_diff_bounds(t.a, a.a);
}

fn channel_sq_diff(x: u8, y: u8) -> (res: u32)
    ensures
        res == sq_diff(x, y),
        res <= 65025,
{
    let d: i32 = x as i32 - y as i32;
    proof {
        lemma_sq_diff_bounds(x, y);
    }
    assert(0 <= d * d <= 65025) by (nonlinear_arith)
        requires -255 <= d <= 255;
    (d * d) as u32
}

/// Sum over the channels of the squared differences of two pixels.
pub fn pixel_squared_difference(t: Rgba, a: Rgba) -> (res: u32)
    ensures
        res == pixel_sq_diff(t, a),
{
    proof {
        lemma_pixel_sq_diff_bounds(t, a);
    }
    channel_sq_diff(t.r, a.r) + channel_sq_diff(t.g, a.g) + channel_sq_diff(t.b, a.b)
        + channel_sq_diff(t.a, a.a)
}

} // verus!
