//! Blocks resolved to pixels: the rectangle of a canvas that a textured block
//! covers, and for each covered column and row the texture column and row
//! that lands there.  Stamping a block onto a canvas, scoring it by the
//! change it makes to the sum of squared differences, and building a whole
//! picture from a list of blocks.

use vstd::prelude::*;

use crate::canvas::{Canvas, CanvasModel, lemma_index_in_bounds, ssd};
use crate::pixel::{
    Rgba, blend, pixel_sq_diff, pixel_squared_difference, lemma_pixel_sq_diff_bounds,
};
use crate::sums::{
    span, sum_range, sum_stepped, count_stepped, lemma_count_le_span, lemma_stepped_zero,
    lemma_stepped_one, lemma_stepped_ext, lemma_sum_ext, lemma_sum_rows, lemma_sum_sub, lemma_sum_support,
    lemma_sum_zero,
};

verus! {

/// Why a block could not be resolved to a footprint.
#[derive(Clone, Copy, PartialEq, Eq, Structural, Debug)]
pub enum FootprintError {
    /// The texture has no pixel columns or no pixel rows.
    TextureTooSmall,
    /// A texture map does not have one entry per covered column (or row), or
    /// names a texture column (or row) that does not exist.
    TextureMapMismatch,
}

/// What a footprint is: the canvas size it was resolved for, the covered
/// rectangle `[x_start, x_end) x [y_start, y_end)` (empty when a start is not
/// below its end), the texture column for each covered column, the texture
/// row for each covered row, and the texture.
pub struct FootprintModel {
    pub canvas_width: nat,
    pub canvas_height: nat,
    pub x_start: int,
    pub x_end: int,
    pub y_start: int,
    pub y_end: int,
    pub cols: Seq<u32>,
    pub rows: Seq<u32>,
    pub texture: CanvasModel,
}

impl FootprintModel {
    /// The rectangle lies on the canvas, the texture is a well-formed image
    /// with at least one pixel, and the maps have one in-range entry per
    /// covered column and row.
    pub open spec fn wf(self) -> bool {
        &&& self.texture.wf()
        &&& self.texture.width >= 1
        &&& self.texture.height >= 1
        &&& 0 <= self.x_start <= self.canvas_width
        &&& 0 <= self.x_end <= self.canvas_width
        &&& 0 <= self.y_start <= self.canvas_height
        &&& 0 <= self.y_end <= self.canvas_height
        &&& self.cols.len() == span(self.x_start, self.x_end)
        &&& self.rows.len() == span(self.y_start, self.y_end)
        &&& forall|i: int| 0 <= i < self.cols.len() ==> #[trigger] self.cols[i] < self.texture.width
        &&& forall|i: int| 0 <= i < self.rows.len() ==> #[trigger] self.rows[i] < self.texture.height
    }

    /// The block covers the canvas position `(x, y)`.
    pub open spec fn covers(self, x: int, y: int) -> bool {
        self.x_start <= x < self.x_end && self.y_start <= y < self.y_end
    }

    /// The texture pixel that lands on the covered position `(x, y)`.
    pub open spec fn texel(self, x: int, y: int) -> Rgba {
        self.texture.pixel_at(
            self.cols[x - self.x_start] as int,
            self.rows[y - self.y_start] as int,
        )
    }

    /// The footprint was resolved for a canvas of `c`'s size.
    pub open spec fn fits(self, c: CanvasModel) -> bool {
        self.canvas_width == c.width && self.canvas_height == c.height
    }
}

/// `v`, or `limit` when `v` is larger.
pub open spec fn clamp_to(v: int, limit: int) -> int {
    if v <= limit {
        v
    } else {
        limit
    }
}

/// `c` after stamping the block: each covered pixel is the texel composited
/// over it, every other pixel is unchanged.
pub open spec fn apply_block(fp: FootprintModel, c: CanvasModel) -> CanvasModel {
    CanvasModel {
        pixels: Seq::new(
            c.pixels.len(),
            |i: int|
                {
                    let x = i % (c.width as int);
                    let y = i / (c.width as int);
                    if fp.covers(x, y) {
                        c.pixels[i].blended(fp.texel(x, y))
                    } else {
                        c.pixels[i]
                    }
                },
        ),
        ..c
    }
}

/// `c` with the covered pixels before `(x_lim, y_lim)` in row-major order
/// stamped.
spec fn apply_block_partial(fp: FootprintModel, c: CanvasModel, y_lim: int, x_lim: int) -> CanvasModel {
    CanvasModel {
        pixels: Seq::new(
            c.pixels.len(),
            |i: int|
                {
                    let x = i % (c.width as int);
                    let y = i / (c.width as int);
                    if fp.covers(x, y) && (y < y_lim || (y == y_lim && x < x_lim)) {
                        c.pixels[i].blended(fp.texel(x, y))
                    } else {
                        c.pixels[i]
                    }
                },
        ),
        ..c
    }
}

/// A storage index splits into its row and column.
pub proof fn lemma_split_index(i: int, w: int)
    requires
        w > 0,
        0 <= i,
    ensures
        i == (i / w) * w + i % w,
        0 <= i % w < w,
        0 <= i / w,
{
    vstd::arithmetic::div_mod::lemma_fundamental_div_mod(i, w);
    vstd::arithmetic::mul::lemma_mul_is_commutative(w, i / w);
    vstd::arithmetic::div_mod::lemma_mod_bound(i, w);
    vstd::arithmetic::div_mod::lemma_div_pos_is_pos(i, w);
}

/// The row and column of the storage index of `(x, y)` are `y` and `x`.
pub proof fn lemma_index_parts(x: int, y: int, w: int)
    requires
        0 <= x < w,
        0 <= y,
    ensures
        (y * w + x) % w == x,
        (y * w + x) / w == y,
{
    vstd::arithmetic::div_mod::lemma_fundamental_div_mod_converse(y * w + x, w, y, x);
}

/// Stamping a block leaves its canvas's size and well-formedness alone, and
/// gives, at each position on the canvas, the texel composited over the old
/// pixel where the block covers it and the old pixel elsewhere.
pub proof fn lemma_apply_block_pixel(fp: FootprintModel, c: CanvasModel, x: int, y: int)
    requires
        c.wf(),
        c.in_bounds(x, y),
    ensures
        apply_block(fp, c).wf(),
        apply_block(fp, c).width == c.width,
        apply_block(fp, c).height == c.height,
        apply_block(fp, c).pixel_at(x, y) == (if fp.covers(x, y) {
            c.pixel_at(x, y).blended(fp.texel(x, y))
        } else {
            c.pixel_at(x, y)
        }),
{
    lemma_index_in_bounds(c.width, c.height, x, y);
    lemma_index_parts(x, y, c.width as int);
}

/// How stamping the block changes the squared difference to `t` at `(x, y)`:
/// the squared difference of the target pixel and the texel composited over
/// `c`'s pixel, less that of the target pixel and `c`'s pixel.
pub open spec fn pixel_delta(fp: FootprintModel, t: CanvasModel, c: CanvasModel, x: int, y: int) -> int {
    pixel_sq_diff(t.pixel_at(x, y), c.pixel_at(x, y).blended(fp.texel(x, y))) - pixel_sq_diff(
        t.pixel_at(x, y),
        c.pixel_at(x, y),
    )
}

/// `pixel_delta` along row `y`, as a function of the column.
pub open spec fn row_deltas(fp: FootprintModel, t: CanvasModel, c: CanvasModel, y: int) -> spec_fn(
    int,
) -> int {
    |x: int| pixel_delta(fp, t, c, x, y)
}

/// The sum of `pixel_delta` over the sampled columns of row `y`: every
/// `step`-th covered column, starting with the first.
pub open spec fn row_delta(fp: FootprintModel, t: CanvasModel, c: CanvasModel, y: int, step: int) -> int {
    sum_stepped(row_deltas(fp, t, c, y), fp.x_start, fp.x_end, step)
}

/// `row_delta` as a function of the row.
pub open spec fn row_delta_fn(fp: FootprintModel, t: CanvasModel, c: CanvasModel, step: int) -> spec_fn(
    int,
) -> int {
    |y: int| row_delta(fp, t, c, y, step)
}

/// The sum of `pixel_delta` over the sampled positions: every `step`-th
/// covered column of every `step`-th covered row, starting with the first.
pub open spec fn sampled_delta(fp: FootprintModel, t: CanvasModel, c: CanvasModel, step: int) -> int {
    sum_stepped(row_delta_fn(fp, t, c, step), fp.y_start, fp.y_end, step)
}

/// The number of sampled positions.
pub open spec fn sampled_count(fp: FootprintModel, step: int) -> int {
    count_stepped(fp.y_start, fp.y_end, step) * count_stepped(fp.x_start, fp.x_end, step)
}

/// The change a block makes to the squared difference, summed over the
/// sampled positions, and the number of positions sampled.
pub struct SampledDelta {
    pub delta: i128,
    pub sampled: u64,
}

/// The per-pixel change of the squared difference when `c` becomes
/// `apply_block(fp, c)`, by storage index.
spec fn stamp_change(fp: FootprintModel, t: CanvasModel, c: CanvasModel) -> spec_fn(int) -> int {
    |i: int|
        pixel_sq_diff(t.pixels[i], apply_block(fp, c).pixels[i]) - pixel_sq_diff(
            t.pixels[i],
            c.pixels[i],
        )
}

/// The change summed along row `y` is the block's row delta on covered
/// rows and zero elsewhere.
proof fn lemma_stamp_change_row(fp: FootprintModel, t: CanvasModel, c: CanvasModel, y: int)
    requires
        fp.wf(),
        t.wf(),
        c.wf(),
        fp.fits(t),
        c.width == t.width,
        c.height == t.height,
        0 <= y < t.height,
    ensures
        sum_range(|x: int| stamp_change(fp, t, c)(y * (t.width as int) + x), 0, t.width as int) == (
        if fp.y_start <= y < fp.y_end {
            row_delta(fp, t, c, y, 1)
        } else {
            0
        }),
{
    let w = t.width as int;
    let h = |x: int| stamp_change(fp, t, c)(y * w + x);
    assert forall|x: int| 0 <= x < w implies #[trigger] h(x) == (if fp.covers(x, y) {
        pixel_delta(fp, t, c, x, y)
    } else {
        0
    }) by {
        lemma_apply_block_pixel(fp, c, x, y);
    }
    if fp.y_start <= y < fp.y_end {
        lemma_sum_support(h, 0, fp.x_start, fp.x_end, w);
        lemma_sum_ext(h, row_deltas(fp, t, c, y), fp.x_start, fp.x_end);
        lemma_stepped_one(row_deltas(fp, t, c, y), fp.x_start, fp.x_end);
    } else {
        lemma_sum_zero(h, 0, w);
    }
}

/// Law: scoring every covered pixel (step 1) gives exactly how much stamping
/// the block changes the sum of squared differences to the target, so the
/// incremental score of a block equals the full recomputation after
/// stamping it.
pub proof fn lemma_incremental_score_exact(fp: FootprintModel, t: CanvasModel, c: CanvasModel)
    requires
        fp.wf(),
        t.wf(),
        c.wf(),
        fp.fits(t),
        c.width == t.width,
        c.height == t.height,
    ensures
        ssd(t, apply_block(fp, c)) == ssd(t, c) + sampled_delta(fp, t, c, 1),
{
    let w = t.width as int;
    let hh = t.height as int;
    let n = w * hh;
    let c2 = apply_block(fp, c);
    assert(c2.pixels.len() == n);
    let f1 = |i: int| pixel_sq_diff(t.pixels[i], c2.pixels[i]);
    let f0 = |i: int| pixel_sq_diff(t.pixels[i], c.pixels[i]);
    let g = stamp_change(fp, t, c);
    lemma_sum_ext(|i: int| pixel_sq_diff(t.pixels[i], c2.pixels[i]), f1, 0, n);
    lemma_sum_ext(|i: int| pixel_sq_diff(t.pixels[i], c.pixels[i]), f0, 0, n);
    lemma_sum_sub(f1, f0, 0, n);
    lemma_sum_ext(|i: int| f1(i) - f0(i), g, 0, n);
    assert(0 * w == 0);
    assert(hh * w == n) by (nonlinear_arith)
        requires
            n == w * hh,
    ;
    lemma_sum_rows(g, w, 0, hh);
    let rows = |y: int| sum_range(|x: int| g(y * w + x), 0, w);
    assert forall|y: int| 0 <= y < hh implies #[trigger] rows(y) == (if fp.y_start <= y
        < fp.y_end {
        row_delta_fn(fp, t, c, 1)(y)
    } else {
        0
    }) by {
        lemma_stamp_change_row(fp, t, c, y);
        lemma_sum_ext(
            |x: int| g(y * w + x),
            |x: int| stamp_change(fp, t, c)(y * (t.width as int) + x),
            0,
            w,
        );
    }
    lemma_sum_support(rows, 0, fp.y_start, fp.y_end, hh);
    lemma_sum_ext(rows, row_delta_fn(fp, t, c, 1), fp.y_start, fp.y_end);
    lemma_stepped_one(row_delta_fn(fp, t, c, 1), fp.y_start, fp.y_end);
}

/// A resolved block: the pixels of a canvas of a given size that it covers,
/// and where in its texture each of them is sampled.
pub struct BlockFootprint {
    canvas_width: u32,
    canvas_height: u32,
    x_start: u32,
    x_end: u32,
    y_start: u32,
    y_end: u32,
    cols: Vec<u32>,
    rows: Vec<u32>,
    texture: Canvas,
}

impl View for BlockFootprint {
    type V = FootprintModel;

    closed spec fn view(&self) -> FootprintModel {
        FootprintModel {
            canvas_width: self.canvas_width as nat,
            canvas_height: self.canvas_height as nat,
            x_start: self.x_start as int,
            x_end: self.x_end as int,
            y_start: self.y_start as int,
            y_end: self.y_end as int,
            cols: self.cols@,
            rows: self.rows@,
            texture: self.texture@,
        }
    }
}

fn copy_indices(v: &Vec<u32>) -> (res: Vec<u32>)
    ensures
        res@ == v@,
{
    let mut res: Vec<u32> = Vec::new();
    for i in 0..v.len()
        invariant
            res@ == v@.subrange(0, i as int),
    {
        res.push(v[i]);
        assert(res@ =~= v@.subrange(0, i + 1));
    }
    assert(res@ =~= v@);
    res
}

impl Clone for BlockFootprint {
    fn clone(&self) -> (res: Self)
        ensures
            res@ == self@,
    {
        proof {
            use_type_invariant(self);
        }
        BlockFootprint {
            canvas_width: self.canvas_width,
            canvas_height: self.canvas_height,
            x_start: self.x_start,
            x_end: self.x_end,
            y_start: self.y_start,
            y_end: self.y_end,
            cols: copy_indices(&self.cols),
            rows: copy_indices(&self.rows),
            texture: self.texture.clone(),
        }
    }
}

impl BlockFootprint {
    #[verifier::type_invariant]
    spec fn inv(self) -> bool {
        self@.wf()
    }

    /// Resolves a block for a `canvas_width` by `canvas_height` canvas.  The
    /// raw bounds are clamped to the canvas; `cols[i]` is the texture column
    /// sampled on covered column `x_start + i` and `rows[j]` the texture row
    /// sampled on covered row `y_start + j`.
    pub fn new(
        canvas_width: u32,
        canvas_height: u32,
        raw_x_start: u32,
        raw_x_end: u32,
        raw_y_start: u32,
        raw_y_end: u32,
        cols: Vec<u32>,
        rows: Vec<u32>,
        texture: Canvas,
    ) -> (res: Result<BlockFootprint, FootprintError>)
        ensures
            (texture@.width == 0 || texture@.height == 0) <==> res == Err::<
                BlockFootprint,
                FootprintError,
            >(FootprintError::TextureTooSmall),
            res is Ok <==> (FootprintModel {
                canvas_width: canvas_width as nat,
                canvas_height: canvas_height as nat,
                x_start: clamp_to(raw_x_start as int, canvas_width as int),
                x_end: clamp_to(raw_x_end as int, canvas_width as int),
                y_start: clamp_to(raw_y_start as int, canvas_height as int),
                y_end: clamp_to(raw_y_end as int, canvas_height as int),
                cols: cols@,
                rows: rows@,
                texture: texture@,
            }).wf(),
            res matches Ok(fp) ==> fp@ == (FootprintModel {
                canvas_width: canvas_width as nat,
                canvas_height: canvas_height as nat,
                x_start: clamp_to(raw_x_start as int, canvas_width as int),
                x_end: clamp_to(raw_x_end as int, canvas_width as int),
                y_start: clamp_to(raw_y_start as int, canvas_height as int),
                y_end: clamp_to(raw_y_end as int, canvas_height as int),
                cols: cols@,
                rows: rows@,
                texture: texture@,
            }),
    {
        texture.is_well_formed();
        let tw = texture.width();
        let th = texture.height();
        if tw < 1 || th < 1 {
            return Err(FootprintError::TextureTooSmall);
        }
        let x_start = if raw_x_start <= canvas_width { raw_x_start } else { canvas_width };
        let x_end = if raw_x_end <= canvas_width { raw_x_end } else { canvas_width };
        let y_start = if raw_y_start <= canvas_height { raw_y_start } else { canvas_height };
        let y_end = if raw_y_end <= canvas_height { raw_y_end } else { canvas_height };
        let span_x: usize = if x_start < x_end { (x_end - x_start) as usize } else { 0 };
        let span_y: usize = if y_start < y_end { (y_end - y_start) as usize } else { 0 };
        if cols.len() != span_x || rows.len() != span_y {
            return Err(FootprintError::TextureMapMismatch);
        }
        for i in 0..cols.len()
            invariant
                tw == texture@.width,
                th == texture@.height,
                tw >= 1,
                th >= 1,
                forall|j: int| 0 <= j < i ==> #[trigger] cols@[j] < tw,
        {
            if cols[i] >= tw {
                return Err(FootprintError::TextureMapMismatch);
            }
        }
        for i in 0..rows.len()
            invariant
                tw == texture@.width,
                th == texture@.height,
                tw >= 1,
                th >= 1,
                forall|j: int| 0 <= j < cols@.len() ==> #[trigger] cols@[j] < tw,
                forall|j: int| 0 <= j < i ==> #[trigger] rows@[j] < th,
        {
            if rows[i] >= th {
                return Err(FootprintError::TextureMapMismatch);
            }
        }
        Ok(
            BlockFootprint {
                canvas_width,
                canvas_height,
                x_start,
                x_end,
                y_start,
                y_end,
                cols,
                rows,
                texture,
            },
        )
    }

    /// The covered rectangle `(x_start, x_end, y_start, y_end)`.
    pub fn bounds(&self) -> (res: (u32, u32, u32, u32))
        ensures
            res.0 == self@.x_start,
            res.1 == self@.x_end,
            res.2 == self@.y_start,
            res.3 == self@.y_end,
    {
        (self.x_start, self.x_end, self.y_start, self.y_end)
    }

    /// The canvas width and height the footprint was resolved for.
    pub fn canvas_size(&self) -> (res: (u32, u32))
        ensures
            res.0 == self@.canvas_width,
            res.1 == self@.canvas_height,
    {
        (self.canvas_width, self.canvas_height)
    }

    /// The texel on the covered position `(x, y)`.
    fn texel_at(&self, x: u32, y: u32) -> (res: Rgba)
        requires
            self@.covers(x as int, y as int),
        ensures
            res == self@.texel(x as int, y as int),
    {
        proof {
            use_type_invariant(self);
        }
        let tx = self.cols[(x - self.x_start) as usize];
        let ty = self.rows[(y - self.y_start) as usize];
        self.texture.get_pixel(tx, ty)
    }

    /// Samples every `step`-th covered column of every `step`-th covered row
    /// and sums how much stamping the block would change the squared
    /// difference between `target` and `canvas` there.
    pub fn score_delta(&self, target: &Canvas, canvas: &Canvas, step: usize) -> (res: SampledDelta)
        requires
            step >= 1,
            self@.fits(target@),
            canvas@.width >= target@.width,
            canvas@.height >= target@.height,
        ensures
            res.delta == sampled_delta(self@, target@, canvas@, step as int),
            res.sampled == sampled_count(self@, step as int),
    {
        proof {
            use_type_invariant(self);
        }

        target.is_well_formed();
        canvas.is_well_formed();
        let ghost fp = self@;
        let ghost t = target@;
        let ghost c = canvas@;
        let ghost s = step as int;
        let ghost total = sampled_delta(fp, t, c, s);
        let ghost cx = count_stepped(fp.x_start, fp.x_end, s);
        let ghost cy = count_stepped(fp.y_start, fp.y_end, s);
        if !(self.x_start < self.x_end && self.y_start < self.y_end) {
            proof {
                if fp.y_start < fp.y_end {
                    assert forall|y: int| fp.y_start <= y < fp.y_end implies #[trigger] row_delta_fn(
                        fp,
                        t,
                        c,
                        s,
                    )(y) == 0 by {}
                    lemma_stepped_zero(row_delta_fn(fp, t, c, s), fp.y_start, fp.y_end, s);
                }
            }
            return SampledDelta { delta: 0, sampled: 0 };
        }
        proof {
            lemma_count_le_span(fp.x_start, fp.x_end, s);
            lemma_count_le_span(fp.y_start, fp.y_end, s);
        }
        let step_w: u128 = step as u128;
        let x_end: u128 = self.x_end as u128;
        let y_end: u128 = self.y_end as u128;
        let mut delta: i128 = 0;
        let mut sampled: u64 = 0;
        let mut y: u128 = self.y_start as u128;
        let ghost mut ky: int = 0;
        while y < y_end
            invariant
                fp == self@,
                fp.wf(),
                t == target@,
                c == canvas@,
                t.wf(),
                c.wf(),
                fp.fits(t),
                c.width >= t.width,
                c.height >= t.height,
                s == step,
                s >= 1,
                step_w == step,
                x_end == fp.x_end,
                y_end == fp.y_end,
                fp.x_start < fp.x_end,
                fp.y_start <= y,
                total == sampled_delta(fp, t, c, s),
                cx == count_stepped(fp.x_start, fp.x_end, s),
                cy == count_stepped(fp.y_start, fp.y_end, s),
                0 <= cx <= u32::MAX,
                0 <= cy <= u32::MAX,
                delta + sum_stepped(row_delta_fn(fp, t, c, s), y as int, fp.y_end, s) == total,
                cy == ky + count_stepped(y as int, fp.y_end, s),
                0 <= ky,
                sampled == ky * cx,
                -260100 * sampled <= delta <= 260100 * sampled,
            decreases span(y as int, y_end as int),
        {
            let yy = y as u32;
            let ghost row = row_deltas(fp, t, c, y as int);
            let mut x: u128 = self.x_start as u128;
            let ghost mut kx: int = 0;
            proof {
                lemma_count_le_span(y as int, fp.y_end, s);
                lemma_count_le_span(y + s, fp.y_end, s);
            }
            while x < x_end
                invariant
                    fp == self@,
                    fp.wf(),
                    t == target@,
                    c == canvas@,
                    t.wf(),
                    c.wf(),
                    fp.fits(t),
                    c.width >= t.width,
                    c.height >= t.height,
                    s == step,
                    s >= 1,
                    step_w == step,
                    x_end == fp.x_end,
                    fp.y_start <= yy < fp.y_end,
                    yy == y,
                    fp.x_start <= x,
                    row == row_deltas(fp, t, c, y as int),
                    total == sampled_delta(fp, t, c, s),
                    cx == count_stepped(fp.x_start, fp.x_end, s),
                    0 <= cx <= u32::MAX,
                    0 <= cy <= u32::MAX,
                    0 <= ky < cy,
                    delta + sum_stepped(row, x as int, fp.x_end, s) + sum_stepped(
                        row_delta_fn(fp, t, c, s),
                        y + s,
                        fp.y_end,
                        s,
                    ) == total,
                    cx == kx + count_stepped(x as int, fp.x_end, s),
                    0 <= kx,
                    sampled == ky * cx + kx,
                    -260100 * sampled <= delta <= 260100 * sampled,
                decreases span(x as int, x_end as int),
            {
                let xx = x as u32;
                let tp = target.get_pixel(xx, yy);
                let cp = canvas.get_pixel(xx, yy);
                let texel = self.texel_at(xx, yy);
                let after = blend(cp, texel);
                proof {
                    lemma_pixel_sq_diff_bounds(tp, after);
                    lemma_pixel_sq_diff_bounds(tp, cp);
                    lemma_count_le_span(x as int, fp.x_end, s);
                    lemma_count_le_span(x + s, fp.x_end, s);
                    assert(ky * cx + kx + 1 <= cy * cx) by (nonlinear_arith)
                        requires
                            0 <= ky < cy,
                            0 <= kx < cx,
                    ;
                    assert(cy * cx <= 0xFFFF_FFFFu64 * 0xFFFF_FFFFu64) by (nonlinear_arith)
                        requires
                            0 <= cx <= 0xFFFF_FFFFu64,
                            0 <= cy <= 0xFFFF_FFFFu64,
                    ;
                }
                let d: i64 = pixel_squared_difference(tp, after) as i64 - pixel_squared_difference(
                    tp,
                    cp,
                ) as i64;
                delta = delta + d as i128;
                sampled = sampled + 1;
                x = x + step_w;
                proof {
                    kx = kx + 1;
                }
            }
            proof {
                assert(sampled == (ky + 1) * cx) by (nonlinear_arith)
                    requires
                        sampled == ky * cx + kx,
                        kx == cx,
                ;
                ky = ky + 1;
            }
            y = y + step_w;
        }
        SampledDelta { delta, sampled }
    }

    /// Stamps the block onto `canvas`: every covered pixel gets its texel
    /// composited over it, in row-major order.
    pub fn apply_to(&self, canvas: &mut Canvas)
        requires
            self@.fits(old(canvas)@),
        ensures
            final(canvas)@ == apply_block(self@, old(canvas)@),
    {
        proof {
            use_type_invariant(self);
        }
        canvas.is_well_formed();
        let ghost c0 = canvas@;
        let ghost fp = self@;
        let ghost w = c0.width as int;
        if self.x_start < self.x_end && self.y_start < self.y_end {
            proof {
                let a = apply_block_partial(fp, c0, fp.y_start, fp.x_start);
                assert(c0.pixels =~= a.pixels);
            }
            let mut y = self.y_start;
            while y < self.y_end
                invariant
                    fp == self@,
                    fp.wf(),
                    c0.wf(),
                    w == c0.width,
                    fp.fits(c0),
                    self.x_start < self.x_end,
                    self.y_start <= y <= self.y_end,
                    canvas@ == apply_block_partial(fp, c0, y as int, fp.x_start),
                decreases self.y_end - y,
            {
                let mut x = self.x_start;
                while x < self.x_end
                    invariant
                        fp == self@,
                        fp.wf(),
                        c0.wf(),
                        w == c0.width,
                        fp.fits(c0),
                        self.y_start <= y < self.y_end,
                        self.x_start <= x <= self.x_end,
                        canvas@ == apply_block_partial(fp, c0, y as int, x as int),
                    decreases self.x_end - x,
                {
                    let texel = self.texel_at(x, y);
                    let ghost before = canvas@;
                    proof {
                        lemma_index_in_bounds(c0.width, c0.height, x as int, y as int);
                        lemma_index_parts(x as int, y as int, w);
                    }
                    canvas.blend_pixel(x, y, texel);
                    proof {
                        let target = apply_block_partial(fp, c0, y as int, x + 1);
                        assert forall|i: int| 0 <= i < c0.pixels.len() implies canvas@.pixels[i]
                            == target.pixels[i] by {
                            lemma_split_index(i, w);
                            if i == y * w + x {
                            } else {
                                let xi = i % w;
                                let yi = i / w;
                                if xi == x && yi == y {
                                    assert(i == y * w + x);
                                }
                            }
                        }
                        assert(canvas@.pixels =~= target.pixels);
                    }
                    x = x + 1;
                }
                proof {
                    let a = apply_block_partial(fp, c0, y as int, x as int);
                    let b = apply_block_partial(fp, c0, y + 1, fp.x_start);
                    assert(a.pixels =~= b.pixels);
                }
                y = y + 1;
            }
            proof {
                let a = apply_block_partial(fp, c0, y as int, fp.x_start);
                assert(a.pixels =~= apply_block(fp, c0).pixels);
            }
        } else {
            proof {
                assert(c0.pixels =~= apply_block(fp, c0).pixels);
            }
        }
    }
}

/// The models of a list of footprints.
pub open spec fn footprint_models(blocks: Seq<BlockFootprint>) -> Seq<FootprintModel> {
    blocks.map_values(|b: BlockFootprint| b@)
}

/// `start` with the blocks stamped in order; a block resolved for a canvas of
/// another size is passed over.
pub open spec fn stamp_all(blocks: Seq<FootprintModel>, start: CanvasModel) -> CanvasModel
    decreases blocks.len(),
{
    if blocks.len() == 0 {
        start
    } else {
        let before = stamp_all(blocks.drop_last(), start);
        if blocks.last().fits(before) {
            apply_block(blocks.last(), before)
        } else {
            before
        }
    }
}

/// The canvas a picture starts from: the base image when there is one,
/// otherwise a canvas of the target's size filled with the average pixel.
pub open spec fn starting_canvas(
    width: u32,
    height: u32,
    average: Rgba,
    base: Option<CanvasModel>,
) -> CanvasModel {
    match base {
        Some(b) => b,
        None => CanvasModel::uniform(width as nat, height as nat, average),
    }
}

/// Stamping all blocks keeps a canvas's size and well-formedness.
pub proof fn lemma_stamp_all_dims(blocks: Seq<FootprintModel>, start: CanvasModel)
    requires
        start.wf(),
    ensures
        stamp_all(blocks, start).wf(),
        stamp_all(blocks, start).width == start.width,
        stamp_all(blocks, start).height == start.height,
    decreases blocks.len(),
{
    if blocks.len() > 0 {
        lemma_stamp_all_dims(blocks.drop_last(), start);
    }
}

/// A picture under construction: the blocks chosen so far, in the order they
/// were chosen.
pub struct ConstructedImage {
    pub blocks: Vec<BlockFootprint>,
}

impl ConstructedImage {
    /// A picture with no blocks.
    pub fn new() -> (res: ConstructedImage)
        ensures
            res.blocks@.len() == 0,
    {
        ConstructedImage { blocks: Vec::new() }
    }

    /// Renders the picture: starting from `base_image` when there is one,
    /// otherwise from a `target_image_width` by `target_image_height`
    /// canvas filled with `average_target_image_pixel`, each block is
    /// stamped in turn.  A block resolved for a canvas of another size is
    /// passed over.
    pub fn construct_image(
        &self,
        target_image_width: u32,
        target_image_height: u32,
        average_target_image_pixel: &Rgba,
        base_image: &Option<Canvas>,
    ) -> (res: Canvas)
        requires
            base_image is None ==> target_image_width * target_image_height * 4 <= usize::MAX,
        ensures
            res@ == stamp_all(
                footprint_models(self.blocks@),
                starting_canvas(
                    target_image_width,
                    target_image_height,
                    *average_target_image_pixel,
                    match base_image {
                        Some(b) => Some(b@),
                        None => None,
                    },
                ),
            ),
            res@.wf(),
    {
        let mut constructed_image = match base_image {
            Some(image) => image.clone(),
            None => Canvas::from_pixel(
                target_image_width,
                target_image_height,
                *average_target_image_pixel,
            ),
        };
        constructed_image.is_well_formed();
        let ghost start = constructed_image@;
        let ghost models = footprint_models(self.blocks@);
        let img_width = constructed_image.width();
        let img_height = constructed_image.height();
        let n = self.blocks.len();
        for i in 0..n
            invariant
                n == self.blocks@.len(),
                models == footprint_models(self.blocks@),
                start.wf(),
                img_width == start.width,
                img_height == start.height,
                constructed_image@ == stamp_all(models.subrange(0, i as int), start),
        {
            let block = &self.blocks[i];
            proof {
                lemma_stamp_all_dims(models.subrange(0, i as int), start);
                assert(models.subrange(0, i + 1).drop_last() =~= models.subrange(0, i as int));
                assert(models.subrange(0, i + 1).last() == block@);
            }
            let (cw, ch) = block.canvas_size();
            if cw == img_width && ch == img_height {
                block.apply_to(&mut constructed_image);
            }
        }
        proof {
            assert(models.subrange(0, n as int) =~= models);
            lemma_stamp_all_dims(models, start);
        }
        constructed_image
    }
}

/// Law: a picture with no blocks is its starting canvas.
pub proof fn lemma_no_blocks(start: CanvasModel)
    ensures
        stamp_all(Seq::empty(), start) == start,
{
}

/// Law: with step 1 every covered position is sampled, so the number of
/// samples is the area of the covered rectangle.
pub proof fn lemma_full_sampling_count(fp: FootprintModel)
    ensures
        sampled_count(fp, 1) == span(fp.y_start, fp.y_end) * span(fp.x_start, fp.x_end),
{
    crate::sums::lemma_count_one(fp.x_start, fp.x_end);
    crate::sums::lemma_count_one(fp.y_start, fp.y_end);
}

/// Law: rendering a picture with one more block is stamping that block onto
/// the rendering without it.
pub proof fn lemma_stamp_push(blocks: Seq<FootprintModel>, b: FootprintModel, start: CanvasModel)
    ensures
        stamp_all(blocks.push(b), start) == (if b.fits(stamp_all(blocks, start)) {
            apply_block(b, stamp_all(blocks, start))
        } else {
            stamp_all(blocks, start)
        }),
{
    assert(blocks.push(b).drop_last() =~= blocks);
}

/// Law: adding a block to a picture changes the picture's sum of squared
/// differences to the target by exactly the block's full-resolution score
/// delta on the picture rendered without it.
pub proof fn lemma_adding_block_score(
    blocks: Seq<FootprintModel>,
    b: FootprintModel,
    start: CanvasModel,
    t: CanvasModel,
)
    requires
        b.wf(),
        t.wf(),
        start.wf(),
        start.width == t.width,
        start.height == t.height,
        b.fits(t),
    ensures
        ssd(t, stamp_all(blocks.push(b), start)) == ssd(t, stamp_all(blocks, start))
            + sampled_delta(b, t, stamp_all(blocks, start), 1),
{
    lemma_stamp_all_dims(blocks, start);
    lemma_stamp_push(blocks, b, start);
    lemma_incremental_score_exact(b, t, stamp_all(blocks, start));
}

/// Law: rendering the concatenation of two block lists is rendering the
/// second list over the rendering of the first: blocks are painted in order,
/// each over the result of those before it.
pub proof fn lemma_stamp_concat(
    first: Seq<FootprintModel>,
    second: Seq<FootprintModel>,
    start: CanvasModel,
)
    ensures
        stamp_all(first + second, start) == stamp_all(second, stamp_all(first, start)),
    decreases second.len(),
{
    if second.len() == 0 {
        assert(first + second =~= first);
    } else {
        lemma_stamp_concat(first, second.drop_last(), start);
        assert((first + second).drop_last() =~= first + second.drop_last());
        assert((first + second).last() == second.last());
    }
}

/// Every texture pixel of the block is fully transparent.
pub open spec fn is_transparent(fp: FootprintModel) -> bool {
    forall|i: int| 0 <= i < fp.texture.pixels.len() ==> (#[trigger] fp.texture.pixels[i]).a == 0
}

/// The block's rectangle is empty, as it is for a block wholly off the
/// canvas.
pub open spec fn covers_nothing(fp: FootprintModel) -> bool {
    fp.x_start >= fp.x_end || fp.y_start >= fp.y_end
}

/// Law: stamping a block that covers nothing, or whose texture is wholly
/// transparent, leaves the canvas as it is.
pub proof fn lemma_neutral_block(fp: FootprintModel, c: CanvasModel)
    requires
        fp.wf(),
        c.wf(),
        is_transparent(fp) || covers_nothing(fp),
    ensures
        apply_block(fp, c) == c,
{
    let w = c.width as int;
    assert forall|i: int| 0 <= i < c.pixels.len() implies #[trigger] apply_block(fp, c).pixels[i]
        == c.pixels[i] by {
        let x = i % w;
        let y = i / w;
        if fp.covers(x, y) {
            let col = fp.cols[x - fp.x_start] as int;
            let row = fp.rows[y - fp.y_start] as int;
            lemma_index_in_bounds(fp.texture.width, fp.texture.height, col, row);
            assert(fp.texture.pixels[fp.texture.index(col, row)].a == 0);
        }
    }
    assert(apply_block(fp, c).pixels =~= c.pixels);
}

/// Law: inserting a block that covers nothing, or whose texture is wholly
/// transparent, anywhere in a picture's block list leaves the rendering
/// unchanged.
pub proof fn lemma_neutral_block_insert(
    before: Seq<FootprintModel>,
    b: FootprintModel,
    after: Seq<FootprintModel>,
    start: CanvasModel,
)
    requires
        b.wf(),
        start.wf(),
        is_transparent(b) || covers_nothing(b),
    ensures
        stamp_all(before.push(b) + after, start) == stamp_all(before + after, start),
{
    lemma_stamp_concat(before.push(b), after, start);
    lemma_stamp_concat(before, after, start);
    lemma_stamp_push(before, b, start);
    lemma_stamp_all_dims(before, start);
    lemma_neutral_block(b, stamp_all(before, start));
}

/// How stamping the block changes the squared difference to `t` at `(x, y)`,
/// read off the stamped canvas itself.
pub open spec fn stamped_change(fp: FootprintModel, t: CanvasModel, c: CanvasModel, x: int, y: int) -> int {
    pixel_sq_diff(t.pixel_at(x, y), apply_block(fp, c).pixel_at(x, y)) - pixel_sq_diff(
        t.pixel_at(x, y),
        c.pixel_at(x, y),
    )
}

/// `stamped_change` along row `y`, as a function of the column.
pub open spec fn stamped_row(fp: FootprintModel, t: CanvasModel, c: CanvasModel, y: int) -> spec_fn(
    int,
) -> int {
    |x: int| stamped_change(fp, t, c, x, y)
}

/// Law: for every sampling step, the score of a block is the change that
/// stamping it (`apply_block`, what `apply_to` and `construct_image` do)
/// makes to the squared difference, summed over the sampled positions:
/// every `step`-th covered column of every `step`-th covered row.
pub proof fn lemma_sampled_delta_is_stamped_change(
    fp: FootprintModel,
    t: CanvasModel,
    c: CanvasModel,
    step: int,
)
    requires
        fp.wf(),
        c.wf(),
        fp.fits(c),
        step >= 1,
    ensures
        sampled_delta(fp, t, c, step) == sum_stepped(
            |y: int| sum_stepped(stamped_row(fp, t, c, y), fp.x_start, fp.x_end, step),
            fp.y_start,
            fp.y_end,
            step,
        ),
{
    let outer = |y: int| sum_stepped(stamped_row(fp, t, c, y), fp.x_start, fp.x_end, step);
    assert forall|y: int| fp.y_start <= y < fp.y_end implies #[trigger] row_delta_fn(fp, t, c, step)(y)
        == outer(y) by {
        assert forall|x: int| fp.x_start <= x < fp.x_end implies #[trigger] row_deltas(fp, t, c, y)(x)
            == stamped_row(fp, t, c, y)(x) by {
            lemma_apply_block_pixel(fp, c, x, y);
        }
        lemma_stepped_ext(
            row_deltas(fp, t, c, y),
            stamped_row(fp, t, c, y),
            fp.x_start,
            fp.x_end,
            step,
        );
    }
    lemma_stepped_ext(row_delta_fn(fp, t, c, step), outer, fp.y_start, fp.y_end, step);
}

/// Law: a block whose texture is wholly transparent, or that covers
/// nothing, scores no change at any sampling step.
pub proof fn lemma_neutral_block_scores_zero(
    fp: FootprintModel,
    t: CanvasModel,
    c: CanvasModel,
    step: int,
)
    requires
        fp.wf(),
        c.wf(),
        fp.fits(c),
        step >= 1,
        is_transparent(fp) || covers_nothing(fp),
    ensures
        sampled_delta(fp, t, c, step) == 0,
{
    lemma_sampled_delta_is_stamped_change(fp, t, c, step);
    lemma_neutral_block(fp, c);
    let outer = |y: int| sum_stepped(stamped_row(fp, t, c, y), fp.x_start, fp.x_end, step);
    assert forall|y: int| fp.y_start <= y < fp.y_end implies #[trigger] outer(y) == 0 by {
        assert forall|x: int| fp.x_start <= x < fp.x_end implies #[trigger] stamped_row(fp, t, c, y)(x) == 0 by {}
        lemma_stepped_zero(stamped_row(fp, t, c, y), fp.x_start, fp.x_end, step);
    }
    lemma_stepped_zero(outer, fp.y_start, fp.y_end, step);
}

} // verus!
