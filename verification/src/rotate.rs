//! Rotation of pixel buffers: exact quarter-turn permutations, nearest-pixel
//! decimation, and the general-angle inverse-sampling kernel that consumes a
//! pre-magnified buffer.
//!
//! A rotation reaches this module in one of two forms (see [`Angle`]): an
//! exact count of 90-degree steps, which is carried out as a lossless index
//! permutation after decimation, or a general angle's sampling table, which
//! maps every destination pixel of the rotated canvas back to the source cell
//! it samples. The table's coordinates are plain integers (the floor of the
//! inverse-rotated position), so the kernel itself is exact: a destination
//! pixel copies its source pixel when the source cell lies inside the buffer
//! and keeps the caller's empty-color sentinel otherwise.

use vstd::prelude::*;
use vstd::arithmetic::div_mod::{
    lemma_fundamental_div_mod,
    lemma_fundamental_div_mod_converse_div,
    lemma_fundamental_div_mod_converse_mod,
    lemma_mod_bound,
    lemma_div_is_ordered,
    lemma_div_pos_is_pos,
    lemma_div_nonincreasing,
    lemma_multiply_divide_lt,
};
use vstd::arithmetic::mul::lemma_mul_inequality;
use vstd::pervasive::VecAdditionalExecFns;
use crate::grid::{pixel_model, lemma_grid_index, dup};

verus! {

/// A quarter turn rotates `[1, 2, 3; 4, 5, 6]` into `[4, 1; 5, 2; 6, 3]`:
/// destination pixel `(x, y)` of the `h` by `w` output is source pixel
/// `(y, h - 1 - x)`. Width and height swap.
pub open spec fn rotate90_spec<P>(s: Seq<P>, w: int, h: int) -> Seq<P> {
    Seq::new((w * h) as nat, |j: int| s[(h - 1 - j % h) * w + j / h])
}

/// A half turn is a full reversal of the buffer; the dimensions are unchanged.
pub open spec fn rotate180_spec<P>(s: Seq<P>) -> Seq<P> {
    Seq::new(s.len(), |j: int| s[s.len() - 1 - j])
}

/// Three quarter turns: a quarter turn followed by a half turn.
pub open spec fn rotate270_spec<P>(s: Seq<P>, w: int, h: int) -> Seq<P> {
    rotate180_spec(rotate90_spec(s, w, h))
}

/// Decimation by `f`: the output keeps the top-left pixel of every `f` by `f`
/// block of the input, so output pixel `(x, y)` is input pixel `(x*f, y*f)`.
pub open spec fn downscale_spec<P>(s: Seq<P>, w: int, h: int, f: int) -> Seq<P> {
    Seq::new(((w / f) * (h / f)) as nat, |j: int| s[(j / (w / f)) * f * w + (j % (w / f)) * f])
}

/// The quotient of `a` by `b` rounded toward positive infinity.
pub open spec fn ceil_div(a: int, b: int) -> int {
    (a + b - 1) / b
}

/// One destination pixel's inverse-rotated source location, truncated to the
/// integer grid cell that contains it.
#[derive(Clone, Copy, PartialEq, Eq, Structural, Debug)]
pub struct SamplePoint {
    pub x: i64,
    pub y: i64,
}

/// The sampling table for a general-angle rotation: the dimensions of the
/// rotated canvas at full (pre-decimation) resolution, and, row-major, the
/// source cell that each destination pixel of that canvas samples. The caller
/// computes the table by rotating each destination pixel's offset from the
/// canvas center back onto the source buffer (the inverse mapping).
pub struct SampleGrid {
    pub width: usize,
    pub height: usize,
    pub points: Vec<SamplePoint>,
}

/// A rotation, reduced to what the pixel pipeline reads of the angle: either
/// an exact number of 90-degree steps (`count` may be any integer; four steps
/// are a full turn), or a general angle's sampling table.
pub enum Angle {
    Turns { count: i64 },
    Sampled { grid: SampleGrid },
}

/// Whether a sample point falls inside a `w` by `h` source buffer.
pub open spec fn sample_in_bounds(p: SamplePoint, w: int, h: int) -> bool {
    0 <= (p.x as int) < w && 0 <= (p.y as int) < h
}

/// The rotated canvas after the first `k` destination pixels (in row-major
/// order of the full-resolution canvas) have been processed: a pixel whose
/// sample lies inside the source copies that source pixel into its decimated
/// destination cell, overwriting what an earlier pixel of the same cell wrote;
/// a pixel whose sample falls outside writes nothing. The canvas starts as
/// `rbw * rbh` copies of the empty color.
pub open spec fn sampled_fill<P>(
    s: Seq<P>,
    empty: P,
    w: int,
    h: int,
    gw: int,
    f: int,
    rbw: int,
    rbh: int,
    pts: Seq<SamplePoint>,
    k: nat,
) -> Seq<P>
    decreases k,
{
    if k == 0 {
        Seq::new((rbw * rbh) as nat, |i: int| empty)
    } else {
        let prev = sampled_fill(s, empty, w, h, gw, f, rbw, rbh, pts, (k - 1) as nat);
        let i = k - 1;
        let p = pts[i];
        if sample_in_bounds(p, w, h) {
            prev.update(
                ((i / gw) / f) * rbw + (i % gw) / f,
                s[(p.y as int) * w + p.x as int],
            )
        } else {
            prev
        }
    }
}

/// The sampled canvas always has `rbw * rbh` pixels, however many destination
/// pixels have been processed, and every write lands inside it.
pub(crate) proof fn lemma_sampled_fill_len<P>(
    s: Seq<P>,
    empty: P,
    w: int,
    h: int,
    gw: int,
    gh: int,
    f: int,
    rbw: int,
    rbh: int,
    pts: Seq<SamplePoint>,
    k: nat,
)
    requires
        gw >= 1,
        gh >= 1,
        f >= 1,
        rbw == ceil_div(gw, f),
        rbh == ceil_div(gh, f),
        k <= gw * gh,
    ensures
        sampled_fill(s, empty, w, h, gw, f, rbw, rbh, pts, k).len() == ((rbw * rbh) as nat),
    decreases k,
{
    if k > 0 {
        lemma_sampled_fill_len(s, empty, w, h, gw, gh, f, rbw, rbh, pts, (k - 1) as nat);
        let i = k - 1;
        let x = i % gw;
        let y = i / gw;
        lemma_mod_bound(i, gw);
        lemma_div_pos_is_pos(i, gw);
        lemma_multiply_divide_lt(i, gw, gh);
        lemma_ceil_div_bounds(gw, f);
        lemma_ceil_div_bounds(gh, f);
        lemma_div_pos_is_pos(x, f);
        lemma_div_pos_is_pos(y, f);
        lemma_grid_index(rbw, rbh, x / f, y / f);
    }
}

/// The sampled rotation never synthesizes a color: every pixel of the filled
/// canvas is either the empty color or a pixel of the source buffer.
pub proof fn lemma_sampled_fill_palette<P>(
    s: Seq<P>,
    empty: P,
    w: int,
    h: int,
    gw: int,
    gh: int,
    f: int,
    rbw: int,
    rbh: int,
    pts: Seq<SamplePoint>,
    k: nat,
)
    requires
        s.len() == w * h,
        gw >= 1,
        gh >= 1,
        f >= 1,
        rbw == ceil_div(gw, f),
        rbh == ceil_div(gh, f),
        k <= gw * gh,
    ensures
        forall|d: int|
            0 <= d < sampled_fill(s, empty, w, h, gw, f, rbw, rbh, pts, k).len()
                ==> #[trigger] sampled_fill(s, empty, w, h, gw, f, rbw, rbh, pts, k)[d] == empty
                || s.contains(sampled_fill(s, empty, w, h, gw, f, rbw, rbh, pts, k)[d]),
    decreases k,
{
    let cur = sampled_fill(s, empty, w, h, gw, f, rbw, rbh, pts, k);
    if k > 0 {
        lemma_sampled_fill_palette(s, empty, w, h, gw, gh, f, rbw, rbh, pts, (k - 1) as nat);
        lemma_sampled_fill_len(s, empty, w, h, gw, gh, f, rbw, rbh, pts, (k - 1) as nat);
        let prev = sampled_fill(s, empty, w, h, gw, f, rbw, rbh, pts, (k - 1) as nat);
        let i = k - 1;
        let p = pts[i];
        if sample_in_bounds(p, w, h) {
            let x = i % gw;
            let y = i / gw;
            lemma_mod_bound(i, gw);
            lemma_div_pos_is_pos(i, gw);
            lemma_multiply_divide_lt(i, gw, gh);
            lemma_ceil_div_bounds(gw, f);
            lemma_ceil_div_bounds(gh, f);
            lemma_div_pos_is_pos(x, f);
            lemma_div_pos_is_pos(y, f);
            lemma_grid_index(rbw, rbh, x / f, y / f);
            let idx = (y / f) * rbw + x / f;
            lemma_grid_index(w, h, p.x as int, p.y as int);
            let v = s[(p.y as int) * w + p.x as int];
            assert(s.contains(v));
            assert forall|d: int| 0 <= d < cur.len() implies cur[d] == empty || s.contains(
                cur[d],
            ) by {
                if d != idx {
                    assert(cur[d] == prev[d]);
                }
            }
        }
    }
}

/// How the rounded-up quotient relates to the floor quotient, and that every
/// index below `a` lands in a decimated cell below `ceil_div(a, b)`.
pub(crate) proof fn lemma_ceil_div_bounds(a: int, b: int)
    requires
        a >= 0,
        b >= 1,
    ensures
        ceil_div(a, b) == a / b + if a % b == 0 { 0int } else { 1int },
        0 <= ceil_div(a, b) <= a,
        forall|x: int| 0 <= x < a ==> #[trigger] (x / b) < ceil_div(a, b),
{
    lemma_fundamental_div_mod(a, b);
    lemma_mod_bound(a, b);
    let q = a / b;
    let r = a % b;
    lemma_div_pos_is_pos(a, b);
    lemma_div_nonincreasing(a, b);
    if r == 0 {
        assert(a + b - 1 == q * b + (b - 1)) by (nonlinear_arith)
            requires a == b * q + r, r == 0;
        lemma_fundamental_div_mod_converse_div(a + b - 1, b, q, b - 1);
    } else {
        assert(a + b - 1 == (q + 1) * b + (r - 1)) by (nonlinear_arith)
            requires a == b * q + r;
        lemma_fundamental_div_mod_converse_div(a + b - 1, b, q + 1, r - 1);
        assert(q + 1 <= a) by (nonlinear_arith)
            requires a == b * q + r, 1 <= r < b, q >= 0, b >= 1;
    }
    assert forall|x: int| 0 <= x < a implies #[trigger] (x / b) < ceil_div(a, b) by {
        lemma_div_is_ordered(x, a - 1, b);
        if r == 0 {
            assert(a - 1 == (q - 1) * b + (b - 1)) by (nonlinear_arith)
                requires a == b * q + r, r == 0;
            assert(q >= 1) by (nonlinear_arith)
                requires a == b * q + r, r == 0, a >= 1, b >= 1, q >= 0;
            lemma_fundamental_div_mod_converse_div(a - 1, b, q - 1, b - 1);
        } else {
            assert(a - 1 == q * b + (r - 1)) by (nonlinear_arith)
                requires a == b * q + r;
            lemma_fundamental_div_mod_converse_div(a - 1, b, q, r - 1);
        }
    }
}

/// The decimated canvas never has more pixels than the full-resolution canvas.
proof fn lemma_sampled_dims(gw: int, gh: int, f: int)
    requires
        gw >= 0,
        gh >= 0,
        f >= 1,
    ensures
        0 <= ceil_div(gw, f) <= gw,
        0 <= ceil_div(gh, f) <= gh,
        ceil_div(gw, f) * ceil_div(gh, f) <= gw * gh,
{
    lemma_ceil_div_bounds(gw, f);
    lemma_ceil_div_bounds(gh, f);
    let cw = ceil_div(gw, f);
    let ch = ceil_div(gh, f);
    lemma_mul_inequality(cw, gw, ch);
    lemma_mul_inequality(ch, gh, gw);
    assert(gw * ch == ch * gw && cw * ch <= gw * ch) by (nonlinear_arith)
        requires cw <= gw, ch >= 0, gw * ch == gw * ch;
    assert(ch * gw <= gh * gw && gh * gw == gw * gh) by (nonlinear_arith)
        requires ch <= gh, gw >= 0;
}

/// Rotate a buffer by a quarter turn: destination column `y` (counted from the
/// left) holds source row `y`'s pixels read from the bottom up, so width and
/// height swap.
pub fn rotate90<P: Eq + Clone>(buf: &Vec<P>, width: usize, height: usize) -> (r: (
    usize,
    usize,
    Vec<P>,
))
    requires
        pixel_model::<P>(),
        buf@.len() == width * height,
    ensures
        r.0 == height,
        r.1 == width,
        r.2@ == rotate90_spec(buf@, width as int, height as int),
{
    let mut rotated: Vec<P> = Vec::new();
    proof {
        assert(buf@.len() <= usize::MAX) by {
            assert(buf.len() == buf@.len());
        }
        assert((0int) * (height as int) == 0) by (nonlinear_arith);
    }
    for y in 0..width
        invariant
            pixel_model::<P>(),
            buf@.len() == width * height,
            buf@.len() <= usize::MAX,
            rotated@.len() == y * height,
            forall|j: int|
                0 <= j < rotated@.len() ==> #[trigger] rotated@[j] == rotate90_spec(
                    buf@,
                    width as int,
                    height as int,
                )[j],
    {
        for x in 0..height
            invariant
                pixel_model::<P>(),
                buf@.len() == width * height,
                buf@.len() <= usize::MAX,
                y < width,
                rotated@.len() == y * height + x,
                forall|j: int|
                    0 <= j < rotated@.len() ==> #[trigger] rotated@[j] == rotate90_spec(
                        buf@,
                        width as int,
                        height as int,
                    )[j],
        {
            proof {
                lemma_grid_index(width as int, height as int, y as int, height - 1 - x as int);
                lemma_grid_index(height as int, width as int, x as int, y as int);
                assert((height as int) * width == (width as int) * height) by (nonlinear_arith);
                lemma_fundamental_div_mod_converse_div(
                    (y as int) * height + x,
                    height as int,
                    y as int,
                    x as int,
                );
                lemma_fundamental_div_mod_converse_mod(
                    (y as int) * height + x,
                    height as int,
                    y as int,
                    x as int,
                );
            }
            let v = dup(&buf[(height - 1 - x) * width + y]);
            rotated.push(v);
        }
        proof {
            assert((y as int + 1) * height == y * height + height) by (nonlinear_arith);
        }
    }
    proof {
        assert(rotated@ =~= rotate90_spec(buf@, width as int, height as int));
    }
    (height, width, rotated)
}

/// Rotate a buffer by a half turn: the buffer is reversed and the dimensions
/// are kept.
pub fn rotate180<P: Eq + Clone>(buf: &Vec<P>, width: usize, height: usize) -> (r: (
    usize,
    usize,
    Vec<P>,
))
    requires
        pixel_model::<P>(),
        buf@.len() == width * height,
    ensures
        r.0 == width,
        r.1 == height,
        r.2@ == rotate180_spec(buf@),
{
    let n = buf.len();
    let mut rotated: Vec<P> = Vec::new();
    for i in 0..n
        invariant
            pixel_model::<P>(),
            n == buf@.len(),
            rotated@.len() == i,
            forall|j: int| 0 <= j < i ==> #[trigger] rotated@[j] == buf@[n - 1 - j],
    {
        let v = dup(&buf[n - 1 - i]);
        rotated.push(v);
    }
    proof {
        assert(rotated@ =~= rotate180_spec(buf@));
    }
    (width, height, rotated)
}

/// Rotate a buffer by three quarter turns, as a quarter turn followed by a
/// half turn; width and height swap.
pub fn rotate270<P: Eq + Clone>(buf: &Vec<P>, width: usize, height: usize) -> (r: (
    usize,
    usize,
    Vec<P>,
))
    requires
        pixel_model::<P>(),
        buf@.len() == width * height,
    ensures
        r.0 == height,
        r.1 == width,
        r.2@ == rotate270_spec(buf@, width as int, height as int),
{
    let (w, h, rotated) = rotate90(buf, width, height);
    proof {
        assert((height as int) * width == (width as int) * height) by (nonlinear_arith);
    }
    rotate180(&rotated, w, h)
}

/// Every block's top-left pixel addresses a valid index of the source buffer.
proof fn lemma_decimation_index(w: int, h: int, f: int, x: int, y: int)
    requires
        f >= 1,
        w % f == 0,
        h % f == 0,
        0 <= x < w / f,
        0 <= y < h / f,
    ensures
        0 <= x * f < w,
        0 <= y * f < h,
        0 <= (y * f) * w + x * f < w * h,
{
    lemma_fundamental_div_mod(w, f);
    lemma_fundamental_div_mod(h, f);
    assert(0 <= x * f < w && 0 <= y * f < h) by (nonlinear_arith)
        requires
            w == f * (w / f) + w % f,
            h == f * (h / f) + h % f,
            w % f == 0,
            h % f == 0,
            f >= 1,
            0 <= x < w / f,
            0 <= y < h / f,
    ;
    lemma_grid_index(w, h, x * f, y * f);
}

/// Decimate a buffer by an integer factor that divides both dimensions,
/// keeping the top-left pixel of every `factor` by `factor` block.
pub fn downscale<P: Eq + Clone>(buf: &Vec<P>, width: usize, height: usize, factor: usize) -> (r: (
    usize,
    usize,
    Vec<P>,
))
    requires
        pixel_model::<P>(),
        buf@.len() == width * height,
        width >= 1,
        height >= 1,
        factor >= 1,
        width % factor == 0,
        height % factor == 0,
    ensures
        r.0 == width / factor,
        r.1 == height / factor,
        r.2@ == downscale_spec(buf@, width as int, height as int, factor as int),
{
    let new_width = width / factor;
    let new_height = height / factor;
    proof {
        assert(buf@.len() <= usize::MAX) by {
            assert(buf.len() == buf@.len());
        }
        lemma_fundamental_div_mod(width as int, factor as int);
        lemma_fundamental_div_mod(height as int, factor as int);
        lemma_div_pos_is_pos(width as int, factor as int);
        lemma_div_pos_is_pos(height as int, factor as int);
        assert(new_width >= 1 && new_height >= 1) by (nonlinear_arith)
            requires
                width == (factor as int) * (new_width as int) + (width as int) % (factor as int),
                height == (factor as int) * (new_height as int) + (height as int) % (
                factor as int),
                (width as int) % (factor as int) == 0,
                (height as int) % (factor as int) == 0,
                width >= 1,
                height >= 1,
                factor >= 1,
                new_width >= 0,
                new_height >= 0,
        ;
        assert((0int) * (new_width as int) == 0) by (nonlinear_arith);
    }
    let mut scaled: Vec<P> = Vec::new();
    for y in 0..new_height
        invariant
            pixel_model::<P>(),
            buf@.len() == width * height,
            buf@.len() <= usize::MAX,
            factor >= 1,
            width % factor == 0,
            height % factor == 0,
            new_width == width / factor,
            new_height == height / factor,
            scaled@.len() == y * new_width,
            forall|j: int|
                0 <= j < scaled@.len() ==> #[trigger] scaled@[j] == downscale_spec(
                    buf@,
                    width as int,
                    height as int,
                    factor as int,
                )[j],
    {
        for x in 0..new_width
            invariant
                pixel_model::<P>(),
                buf@.len() == width * height,
                buf@.len() <= usize::MAX,
                factor >= 1,
                width % factor == 0,
                height % factor == 0,
                new_width == width / factor,
                new_height == height / factor,
                y < new_height,
                scaled@.len() == y * new_width + x,
                forall|j: int|
                    0 <= j < scaled@.len() ==> #[trigger] scaled@[j] == downscale_spec(
                        buf@,
                        width as int,
                        height as int,
                        factor as int,
                    )[j],
        {
            proof {
                lemma_decimation_index(
                    width as int,
                    height as int,
                    factor as int,
                    x as int,
                    y as int,
                );
                lemma_grid_index(new_width as int, new_height as int, x as int, y as int);
                lemma_fundamental_div_mod_converse_div(
                    (y as int) * new_width + x,
                    new_width as int,
                    y as int,
                    x as int,
                );
                lemma_fundamental_div_mod_converse_mod(
                    (y as int) * new_width + x,
                    new_width as int,
                    y as int,
                    x as int,
                );
            }
            let v = dup(&buf[y * factor * width + x * factor]);
            scaled.push(v);
        }
        proof {
            assert((y as int + 1) * new_width == y * new_width + new_width) by (nonlinear_arith);
        }
    }
    proof {
        assert((new_height as int) * new_width == (new_width as int) * new_height)
            by (nonlinear_arith);
        assert(scaled@ =~= downscale_spec(buf@, width as int, height as int, factor as int));
    }
    (new_width, new_height, scaled)
}

/// A value of one sequence whose every element occurs in another occurs in
/// that other sequence too.
pub(crate) proof fn lemma_contains_chain<P>(s: Seq<P>, u: Seq<P>, v: P)
    requires
        u.contains(v),
        forall|j: int| 0 <= j < u.len() ==> s.contains(#[trigger] u[j]),
    ensures
        s.contains(v),
{
    let i = choose|i: int| 0 <= i < u.len() && u[i] == v;
    assert(s.contains(u[i]));
}

/// A quarter turn only permutes the buffer: every pixel of the result occurs
/// in the input.
pub proof fn lemma_rotate90_palette<P>(s: Seq<P>, w: int, h: int)
    requires
        w >= 1,
        h >= 1,
        s.len() == w * h,
    ensures
        forall|j: int|
            0 <= j < rotate90_spec(s, w, h).len() ==> s.contains(#[trigger] rotate90_spec(s, w, h)[j]),
{
    let g = rotate90_spec(s, w, h);
    assert forall|j: int| 0 <= j < g.len() implies s.contains(#[trigger] g[j]) by {
        assert(h * w == w * h) by (nonlinear_arith);
        lemma_mod_bound(j, h);
        lemma_div_pos_is_pos(j, h);
        lemma_multiply_divide_lt(j, h, w);
        lemma_grid_index(w, h, j / h, h - 1 - j % h);
        assert(s[(h - 1 - j % h) * w + j / h] == g[j]);
    }
}

/// A half turn only reverses the buffer: every pixel of the result occurs in
/// the input.
pub proof fn lemma_rotate180_palette<P>(s: Seq<P>)
    ensures
        forall|j: int|
            0 <= j < rotate180_spec(s).len() ==> s.contains(#[trigger] rotate180_spec(s)[j]),
{
    let g = rotate180_spec(s);
    assert forall|j: int| 0 <= j < g.len() implies s.contains(#[trigger] g[j]) by {
        assert(s[s.len() - 1 - j] == g[j]);
    }
}

/// Three quarter turns only permute the buffer: every pixel of the result
/// occurs in the input.
pub proof fn lemma_rotate270_palette<P>(s: Seq<P>, w: int, h: int)
    requires
        w >= 1,
        h >= 1,
        s.len() == w * h,
    ensures
        forall|j: int|
            0 <= j < rotate270_spec(s, w, h).len() ==> s.contains(
                #[trigger] rotate270_spec(s, w, h)[j],
            ),
{
    let g90 = rotate90_spec(s, w, h);
    let g = rotate270_spec(s, w, h);
    lemma_rotate90_palette(s, w, h);
    lemma_rotate180_palette(g90);
    assert forall|j: int| 0 <= j < g.len() implies s.contains(#[trigger] g[j]) by {
        lemma_contains_chain(s, g90, g[j]);
    }
}

/// Decimation only drops pixels: every pixel of the result occurs in the
/// input.
pub proof fn lemma_downscale_palette<P>(s: Seq<P>, w: int, h: int, f: int)
    requires
        w >= 1,
        h >= 1,
        f >= 1,
        w % f == 0,
        h % f == 0,
        s.len() == w * h,
    ensures
        forall|j: int|
            0 <= j < downscale_spec(s, w, h, f).len() ==> s.contains(
                #[trigger] downscale_spec(s, w, h, f)[j],
            ),
{
    let g = downscale_spec(s, w, h, f);
    let nw = w / f;
    let nh = h / f;
    assert forall|j: int| 0 <= j < g.len() implies s.contains(#[trigger] g[j]) by {
        lemma_mod_bound(j, nw);
        lemma_div_pos_is_pos(j, nw);
        lemma_multiply_divide_lt(j, nw, nh);
        lemma_decimation_index(w, h, f, j % nw, j / nw);
        assert(((j / nw) * f) * w + (j % nw) * f == (j / nw) * f * w + (j % nw) * f);
        assert(s[(j / nw) * f * w + (j % nw) * f] == g[j]);
    }
}

/// The result of the exact quarter-turn regime: decimate, then permute by the
/// step count taken modulo four.
pub open spec fn rotate_turns_spec<P>(s: Seq<P>, w: int, h: int, count: int, f: int) -> (
    int,
    int,
    Seq<P>,
) {
    let dw = w / f;
    let dh = h / f;
    let d = downscale_spec(s, w, h, f);
    if count % 4 == 0 {
        (dw, dh, d)
    } else if count % 4 == 1 {
        (dh, dw, rotate90_spec(d, dw, dh))
    } else if count % 4 == 2 {
        (dw, dh, rotate180_spec(d))
    } else {
        (dh, dw, rotate270_spec(d, dw, dh))
    }
}

/// The exact quarter-turn regime only selects pixels of its input: every
/// pixel of the result occurs in the buffer that was rotated.
pub proof fn lemma_rotate_turns_palette<P>(s: Seq<P>, w: int, h: int, count: int, f: int)
    requires
        w >= 1,
        h >= 1,
        f >= 1,
        w % f == 0,
        h % f == 0,
        s.len() == w * h,
    ensures
        forall|j: int|
            0 <= j < rotate_turns_spec(s, w, h, count, f).2.len() ==> s.contains(
                #[trigger] rotate_turns_spec(s, w, h, count, f).2[j],
            ),
{
    let dw = w / f;
    let dh = h / f;
    let d = downscale_spec(s, w, h, f);
    lemma_downscale_palette(s, w, h, f);
    lemma_fundamental_div_mod(w, f);
    lemma_fundamental_div_mod(h, f);
    lemma_div_pos_is_pos(w, f);
    lemma_div_pos_is_pos(h, f);
    assert(dw >= 1 && dh >= 1) by (nonlinear_arith)
        requires
            w == f * dw + w % f,
            h == f * dh + h % f,
            w % f == 0,
            h % f == 0,
            w >= 1,
            h >= 1,
            f >= 1,
            dw >= 0,
            dh >= 0,
    ;
    let t = rotate_turns_spec(s, w, h, count, f);
    if count % 4 == 1 {
        lemma_rotate90_palette(d, dw, dh);
        assert forall|j: int| 0 <= j < t.2.len() implies s.contains(#[trigger] t.2[j]) by {
            lemma_contains_chain(s, d, t.2[j]);
        }
    } else if count % 4 == 2 {
        lemma_rotate180_palette(d);
        assert forall|j: int| 0 <= j < t.2.len() implies s.contains(#[trigger] t.2[j]) by {
            lemma_contains_chain(s, d, t.2[j]);
        }
    } else if count % 4 == 3 {
        lemma_rotate270_palette(d, dw, dh);
        assert forall|j: int| 0 <= j < t.2.len() implies s.contains(#[trigger] t.2[j]) by {
            lemma_contains_chain(s, d, t.2[j]);
        }
    }
}

/// Rotate a pre-magnified buffer while decimating it by `down_scale_factor`.
///
/// An exact number of quarter turns decimates first and then applies the
/// lossless permutation. A general angle walks the full-resolution rotated
/// canvas row by row; each destination pixel whose sample lands inside the
/// buffer copies that source pixel into its decimated cell (later pixels of a
/// cell overwrite earlier ones), and cells no pixel hits keep the empty color.
pub fn rotate<P: Eq + Clone>(
    buf: &Vec<P>,
    empty_color: &P,
    width: usize,
    height: usize,
    angle: &Angle,
    down_scale_factor: usize,
) -> (r: (usize, usize, Vec<P>))
    requires
        pixel_model::<P>(),
        buf@.len() == width * height,
        width >= 1,
        height >= 1,
        down_scale_factor >= 1,
        *angle matches Angle::Turns { count } ==> width % down_scale_factor == 0 && height
            % down_scale_factor == 0,
        *angle matches Angle::Sampled { grid } ==> grid.points@.len() == grid.width * grid.height,
    ensures
        *angle matches Angle::Turns { count } ==> ({
            let t = rotate_turns_spec(
                buf@,
                width as int,
                height as int,
                count as int,
                down_scale_factor as int,
            );
            r.0 == t.0 && r.1 == t.1 && r.2@ == t.2
        }),
        *angle matches Angle::Sampled { grid } ==> ({
            let rbw = ceil_div(grid.width as int, down_scale_factor as int);
            let rbh = ceil_div(grid.height as int, down_scale_factor as int);
            r.0 == rbw && r.1 == rbh && r.2@ == sampled_fill(
                buf@,
                *empty_color,
                width as int,
                height as int,
                grid.width as int,
                down_scale_factor as int,
                rbw,
                rbh,
                grid.points@,
                (grid.width * grid.height) as nat,
            )
        }),
{
    match angle {
        Angle::Turns { count } => {
            let (dw, dh, down) = downscale(buf, width, height, down_scale_factor);
            let q = (*count).checked_rem_euclid(4).unwrap();
            if q == 1 {
                rotate90(&down, dw, dh)
            } else if q == 2 {
                rotate180(&down, dw, dh)
            } else if q == 3 {
                proof {
                    assert((dh as int) * dw == (dw as int) * dh) by (nonlinear_arith);
                }
                rotate270(&down, dw, dh)
            } else {
                (dw, dh, down)
            }
        },
        Angle::Sampled { grid } => {
            let gw = grid.width;
            let gh = grid.height;
            let f = down_scale_factor;
            let np = grid.points.len();
            proof {
                assert(buf@.len() <= usize::MAX) by {
                    assert(buf.len() == buf@.len());
                }
                lemma_sampled_dims(gw as int, gh as int, f as int);
                lemma_ceil_div_bounds(gw as int, f as int);
                lemma_ceil_div_bounds(gh as int, f as int);
            }
            let rbw = gw / f + if gw % f != 0 {
                1
            } else {
                0
            };
            let rbh = gh / f + if gh % f != 0 {
                1
            } else {
                0
            };
            proof {
                assert((rbw as int) * rbh <= (gw as int) * gh);
            }
            let total = rbw * rbh;
            let ghost fill0 = sampled_fill(
                buf@,
                *empty_color,
                width as int,
                height as int,
                gw as int,
                f as int,
                rbw as int,
                rbh as int,
                grid.points@,
                0,
            );
            let mut rotated: Vec<P> = Vec::new();
            let mut i: usize = 0;
            while i < total
                invariant
                    pixel_model::<P>(),
                    i <= total,
                    rotated@.len() == i,
                    forall|j: int| 0 <= j < i ==> #[trigger] rotated@[j] == *empty_color,
                decreases total - i,
            {
                rotated.push(dup(empty_color));
                i = i + 1;
            }
            proof {
                assert(rotated@ =~= fill0);
                assert((0int) * (gw as int) == 0) by (nonlinear_arith);
            }
            for y in 0..gh
                invariant
                    pixel_model::<P>(),
                    buf@.len() == width * height,
                    buf@.len() <= usize::MAX,
                    f == down_scale_factor,
                    f >= 1,
                    gw == grid.width,
                    gh == grid.height,
                    np == grid.points@.len(),
                    np == gw * gh,
                    np <= usize::MAX,
                    rbw * rbh <= np,
                    rbw == ceil_div(gw as int, f as int),
                    rbh == ceil_div(gh as int, f as int),
                    rotated@ == sampled_fill(
                        buf@,
                        *empty_color,
                        width as int,
                        height as int,
                        gw as int,
                        f as int,
                        rbw as int,
                        rbh as int,
                        grid.points@,
                        (y * gw) as nat,
                    ),
            {
                for x in 0..gw
                    invariant
                        pixel_model::<P>(),
                        buf@.len() == width * height,
                        buf@.len() <= usize::MAX,
                        f == down_scale_factor,
                        f >= 1,
                        gw == grid.width,
                        gh == grid.height,
                        np == grid.points@.len(),
                        np == gw * gh,
                        np <= usize::MAX,
                        rbw * rbh <= np,
                        rbw == ceil_div(gw as int, f as int),
                        rbh == ceil_div(gh as int, f as int),
                        y < gh,
                        rotated@ == sampled_fill(
                            buf@,
                            *empty_color,
                            width as int,
                            height as int,
                            gw as int,
                            f as int,
                            rbw as int,
                            rbh as int,
                            grid.points@,
                            (y * gw + x) as nat,
                        ),
                {
                    proof {
                        lemma_grid_index(gw as int, gh as int, x as int, y as int);
                        lemma_fundamental_div_mod_converse_div(
                            (y as int) * gw + x,
                            gw as int,
                            y as int,
                            x as int,
                        );
                        lemma_fundamental_div_mod_converse_mod(
                            (y as int) * gw + x,
                            gw as int,
                            y as int,
                            x as int,
                        );
                        lemma_sampled_fill_len(
                            buf@,
                            *empty_color,
                            width as int,
                            height as int,
                            gw as int,
                            gh as int,
                            f as int,
                            rbw as int,
                            rbh as int,
                            grid.points@,
                            (y * gw + x) as nat,
                        );
                        lemma_ceil_div_bounds(gw as int, f as int);
                        lemma_ceil_div_bounds(gh as int, f as int);
                    }
                    let p = &grid.points[y * gw + x];
                    if p.x >= 0 && p.y >= 0 && (p.x as u64) < (width as u64) && (p.y as u64) < (
            height as u64) {
                        let sx = p.x as usize;
                        let sy = p.y as usize;
                        proof {
                            lemma_grid_index(width as int, height as int, sx as int, sy as int);
                            lemma_grid_index(
                                rbw as int,
                                rbh as int,
                                (x as int) / (f as int),
                                (y as int) / (f as int),
                            );
                        }
                        let v = dup(&buf[sy * width + sx]);
                        rotated.set(y / f * rbw + x / f, v);
                    }
                    proof {
                        assert(rotated@ == sampled_fill(
                            buf@,
                            *empty_color,
                            width as int,
                            height as int,
                            gw as int,
                            f as int,
                            rbw as int,
                            rbh as int,
                            grid.points@,
                            (y * gw + x + 1) as nat,
                        ));
                    }
                }
                proof {
                    assert((y as int + 1) * gw == y * gw + gw) by (nonlinear_arith);
                }
            }
            proof {
                assert((gh as int) * gw == (gw as int) * gh) by (nonlinear_arith);
            }
            (rbw, rbh, rotated)
        },
    }
}

} // verus!
