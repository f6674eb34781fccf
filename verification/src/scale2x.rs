//! Edge-preserving 2x upscaling of pixel-art buffers (the Scale2x rule).
//!
//! Each source pixel becomes a 2x2 block of destination pixels. A block
//! sub-pixel copies the source pixel itself unless the source pixel's
//! four-neighborhood detects an edge running through that corner, in which
//! case the sub-pixel copies the neighbor on the far side of the edge.
//! Neighbors missing at the grid border are replaced by the center pixel
//! itself (self-padding, not wrap-around). No destination pixel ever holds a
//! value absent from the source buffer.

use vstd::prelude::*;
use vstd::arithmetic::div_mod::{
    lemma_fundamental_div_mod_converse_div,
    lemma_fundamental_div_mod_converse_mod,
    lemma_mod_bound,
    lemma_div_pos_is_pos,
    lemma_multiply_divide_lt,
};
use crate::grid::{pixel_model, pixel_at, lemma_grid_index, dup};

verus! {

/// Top-left sub-pixel: the up neighbor when the edge through this corner
/// joins left and up while both differ from the opposite neighbors.
pub open spec fn block_top_left<P>(c: P, u: P, l: P, d: P, r: P) -> P {
    if l == u && l != d && u != r {
        u
    } else {
        c
    }
}

/// Top-right sub-pixel of the 2x2 block for a source pixel.
pub open spec fn block_top_right<P>(c: P, u: P, l: P, d: P, r: P) -> P {
    if u == r && u != l && r != d {
        r
    } else {
        c
    }
}

/// Bottom-left sub-pixel of the 2x2 block for a source pixel.
pub open spec fn block_bottom_left<P>(c: P, u: P, l: P, d: P, r: P) -> P {
    if d == l && d != r && l != u {
        l
    } else {
        c
    }
}

/// Bottom-right sub-pixel of the 2x2 block for a source pixel.
pub open spec fn block_bottom_right<P>(c: P, u: P, l: P, d: P, r: P) -> P {
    if r == d && r != u && d != l {
        d
    } else {
        c
    }
}

/// The pixel at `(nx, ny)` when that lies inside the grid, else the pixel at
/// `(x, y)` itself: the self-padded neighbor access of the Scale2x rule.
pub open spec fn neighbor_or_self<P>(s: Seq<P>, w: int, h: int, x: int, y: int, nx: int, ny: int) -> P {
    if 0 <= nx < w && 0 <= ny < h {
        pixel_at(s, w, nx, ny)
    } else {
        pixel_at(s, w, x, y)
    }
}

/// The destination pixel that source pixel `(sx, sy)` contributes at block
/// corner `(dx, dy)` (each 0 or 1), i.e. destination `(2*sx+dx, 2*sy+dy)`.
pub open spec fn scale2x_at<P>(s: Seq<P>, w: int, h: int, sx: int, sy: int, dx: int, dy: int) -> P {
    let c = pixel_at(s, w, sx, sy);
    let u = neighbor_or_self(s, w, h, sx, sy, sx, sy - 1);
    let l = neighbor_or_self(s, w, h, sx, sy, sx - 1, sy);
    let d = neighbor_or_self(s, w, h, sx, sy, sx, sy + 1);
    let r = neighbor_or_self(s, w, h, sx, sy, sx + 1, sy);
    if dy == 0 {
        if dx == 0 {
            block_top_left(c, u, l, d, r)
        } else {
            block_top_right(c, u, l, d, r)
        }
    } else {
        if dx == 0 {
            block_bottom_left(c, u, l, d, r)
        } else {
            block_bottom_right(c, u, l, d, r)
        }
    }
}

/// The whole upscaled buffer: a `2*w` by `2*h` grid in row-major order.
pub open spec fn scale2x_spec<P>(s: Seq<P>, w: int, h: int) -> Seq<P> {
    Seq::new(
        (4 * w * h) as nat,
        |j: int|
            scale2x_at(
                s,
                w,
                h,
                (j % (2 * w)) / 2,
                (j / (2 * w)) / 2,
                (j % (2 * w)) % 2,
                (j / (2 * w)) % 2,
            ),
    )
}

/// Where source pixel `(sx, sy)`'s block corner `(dx, dy)` lands in the
/// row-major upscaled buffer, and that the buffer holds the block value there.
proof fn lemma_scale2x_spec_index<P>(s: Seq<P>, w: int, h: int, sx: int, sy: int, dx: int, dy: int)
    requires
        w >= 1,
        h >= 1,
        0 <= sx < w,
        0 <= sy < h,
        0 <= dx < 2,
        0 <= dy < 2,
    ensures
        ({
            let j = (2 * sy + dy) * (2 * w) + (2 * sx + dx);
            &&& 0 <= j < 4 * w * h
            &&& scale2x_spec(s, w, h)[j] == scale2x_at(s, w, h, sx, sy, dx, dy)
        }),
{
    let bw = 2 * w;
    let xx = 2 * sx + dx;
    let yy = 2 * sy + dy;
    let j = yy * bw + xx;
    lemma_grid_index(bw, 2 * h, xx, yy);
    assert((2 * w) * (2 * h) == 4 * w * h) by (nonlinear_arith);
    lemma_fundamental_div_mod_converse_div(j, bw, yy, xx);
    lemma_fundamental_div_mod_converse_mod(j, bw, yy, xx);
    lemma_fundamental_div_mod_converse_div(xx, 2, sx, dx);
    lemma_fundamental_div_mod_converse_mod(xx, 2, sx, dx);
    lemma_fundamental_div_mod_converse_div(yy, 2, sy, dy);
    lemma_fundamental_div_mod_converse_mod(yy, 2, sy, dy);
}

/// The source coordinates and block corner that a row-major index `j` of the
/// upscaled buffer decodes to are in range.
proof fn lemma_scale2x_spec_coords(w: int, h: int, j: int)
    requires
        w >= 1,
        h >= 1,
        0 <= j < 4 * w * h,
    ensures
        0 <= (j % (2 * w)) / 2 < w,
        0 <= (j / (2 * w)) / 2 < h,
        0 <= (j % (2 * w)) % 2 < 2,
        0 <= (j / (2 * w)) % 2 < 2,
{
    let bw = 2 * w;
    lemma_mod_bound(j, bw);
    lemma_div_pos_is_pos(j % bw, 2);
    lemma_multiply_divide_lt(j % bw, 2, w);
    lemma_div_pos_is_pos(j, bw);
    assert((2 * w) * (2 * h) == 4 * w * h) by (nonlinear_arith);
    lemma_multiply_divide_lt(j, bw, 2 * h);
    lemma_div_pos_is_pos(j / bw, 2);
    lemma_multiply_divide_lt(j / bw, 2, h);
    lemma_mod_bound(j % bw, 2);
    lemma_mod_bound(j / bw, 2);
}

/// The self-padded neighbor of an in-range pixel is itself a pixel of the buffer.
proof fn lemma_neighbor_contained<P>(s: Seq<P>, w: int, h: int, x: int, y: int, nx: int, ny: int)
    requires
        w >= 1,
        h >= 1,
        s.len() == w * h,
        0 <= x < w,
        0 <= y < h,
    ensures
        s.contains(neighbor_or_self(s, w, h, x, y, nx, ny)),
{
    if 0 <= nx < w && 0 <= ny < h {
        lemma_grid_index(w, h, nx, ny);
        assert(s[ny * w + nx] == neighbor_or_self(s, w, h, x, y, nx, ny));
    } else {
        lemma_grid_index(w, h, x, y);
        assert(s[y * w + x] == neighbor_or_self(s, w, h, x, y, nx, ny));
    }
}

/// Palette preservation: every pixel of the upscaled buffer already occurs in
/// the source buffer — upscaling introduces no new colors.
pub proof fn lemma_scale2x_palette<P>(s: Seq<P>, w: int, h: int)
    requires
        w >= 1,
        h >= 1,
        s.len() == w * h,
    ensures
        forall|j: int|
            0 <= j < scale2x_spec(s, w, h).len() ==> s.contains(#[trigger] scale2x_spec(s, w, h)[j]),
{
    let g = scale2x_spec(s, w, h);
    assert forall|j: int| 0 <= j < g.len() implies s.contains(#[trigger] g[j]) by {
        lemma_scale2x_spec_coords(w, h, j);
        let bw = 2 * w;
        let sx = (j % bw) / 2;
        let sy = (j / bw) / 2;
        lemma_grid_index(w, h, sx, sy);
        assert(s[sy * w + sx] == pixel_at(s, w, sx, sy));
        lemma_neighbor_contained(s, w, h, sx, sy, sx, sy - 1);
        lemma_neighbor_contained(s, w, h, sx, sy, sx - 1, sy);
        lemma_neighbor_contained(s, w, h, sx, sy, sx, sy + 1);
        lemma_neighbor_contained(s, w, h, sx, sy, sx + 1, sy);
    }
}

/// Uniform-buffer stability: upscaling a buffer whose pixels all equal `v`
/// yields a buffer (of four times the area) whose pixels all equal `v`.
pub proof fn lemma_scale2x_uniform<P>(s: Seq<P>, w: int, h: int, v: P)
    requires
        w >= 1,
        h >= 1,
        s.len() == w * h,
        forall|i: int| 0 <= i < s.len() ==> s[i] == v,
    ensures
        scale2x_spec(s, w, h).len() == 4 * w * h,
        forall|j: int| 0 <= j < 4 * w * h ==> #[trigger] scale2x_spec(s, w, h)[j] == v,
{
    let g = scale2x_spec(s, w, h);
    assert forall|j: int| 0 <= j < 4 * w * h implies #[trigger] g[j] == v by {
        lemma_scale2x_spec_coords(w, h, j);
        let bw = 2 * w;
        let sx = (j % bw) / 2;
        let sy = (j / bw) / 2;
        lemma_grid_index(w, h, sx, sy);
        if 0 <= sy - 1 {
            lemma_grid_index(w, h, sx, sy - 1);
        }
        if 0 <= sx - 1 {
            lemma_grid_index(w, h, sx - 1, sy);
        }
        if sy + 1 < h {
            lemma_grid_index(w, h, sx, sy + 1);
        }
        if sx + 1 < w {
            lemma_grid_index(w, h, sx + 1, sy);
        }
    }
}

/// Convert a single pixel and its four-neighborhood to an upscaled 2x2 block,
/// returned as (top-left, top-right, bottom-left, bottom-right).
fn calculate_scale2x_block<P: Eq + Clone>(
    center: &P,
    up: &P,
    left: &P,
    down: &P,
    right: &P,
) -> (b: (P, P, P, P))
    requires
        pixel_model::<P>(),
    ensures
        b.0 == block_top_left(*center, *up, *left, *down, *right),
        b.1 == block_top_right(*center, *up, *left, *down, *right),
        b.2 == block_bottom_left(*center, *up, *left, *down, *right),
        b.3 == block_bottom_right(*center, *up, *left, *down, *right),
{
    (
        dup(
            if left == up && left != down && up != right {
                up
            } else {
                center
            },
        ),
        dup(
            if up == right && up != left && right != down {
                right
            } else {
                center
            },
        ),
        dup(
            if down == left && down != right && left != up {
                left
            } else {
                center
            },
        ),
        dup(
            if right == down && right != up && down != left {
                down
            } else {
                center
            },
        ),
    )
}

/// Fetch the self-padded four-neighborhood of source pixel `(x, y)` and
/// convert it to its 2x2 destination block.
fn scale2x_block_at<P: Eq + Clone>(
    buf: &Vec<P>,
    width: usize,
    height: usize,
    x: usize,
    y: usize,
) -> (b: (P, P, P, P))
    requires
        pixel_model::<P>(),
        buf@.len() == width * height,
        width * height <= usize::MAX,
        x < width,
        y < height,
    ensures
        b.0 == scale2x_at(buf@, width as int, height as int, x as int, y as int, 0, 0),
        b.1 == scale2x_at(buf@, width as int, height as int, x as int, y as int, 1, 0),
        b.2 == scale2x_at(buf@, width as int, height as int, x as int, y as int, 0, 1),
        b.3 == scale2x_at(buf@, width as int, height as int, x as int, y as int, 1, 1),
{
    proof {
        lemma_grid_index(width as int, height as int, x as int, y as int);
        if y + 1 < height {
            lemma_grid_index(width as int, height as int, x as int, y as int + 1);
        }
        if x + 1 < width {
            lemma_grid_index(width as int, height as int, x as int + 1, y as int);
        }
        if y > 0 {
            lemma_grid_index(width as int, height as int, x as int, y as int - 1);
        }
        assert((y as int - 1) * width == y * width - width) by (nonlinear_arith);
        assert((y as int + 1) * width == y * width + width) by (nonlinear_arith);
    }
    let pos = y * width + x;
    let c = &buf[pos];
    let u = if y > 0 {
        &buf[pos - width]
    } else {
        c
    };
    let l = if x > 0 {
        &buf[pos - 1]
    } else {
        c
    };
    let d = if y + 1 < height {
        &buf[pos + width]
    } else {
        c
    };
    let r = if x + 1 < width {
        &buf[pos + 1]
    } else {
        c
    };
    calculate_scale2x_block(c, u, l, d, r)
}

/// Upscale a `width` by `height` pixel buffer to twice the width and twice the
/// height with the Scale2x rule. Every output pixel already occurs in the
/// input: no new colors are introduced.
pub fn scale2x<P: Eq + Clone>(buf: &Vec<P>, width: usize, height: usize) -> (res: (
    usize,
    usize,
    Vec<P>,
))
    requires
        pixel_model::<P>(),
        width >= 1,
        height >= 1,
        buf@.len() == width * height,
        4 * (width * height) <= usize::MAX,
    ensures
        res.0 == 2 * width,
        res.1 == 2 * height,
        res.2@ == scale2x_spec(buf@, width as int, height as int),
        forall|j: int| 0 <= j < res.2@.len() ==> buf@.contains(#[trigger] res.2@[j]),
{
    let ghost g = scale2x_spec(buf@, width as int, height as int);
    proof {
        assert(2 * (width as int) <= 4 * ((width as int) * (height as int)) && 2 * (height as int)
            <= 4 * ((width as int) * (height as int)) && (width as int) * (height as int) <= 4 * ((
        width as int) * (height as int))) by (nonlinear_arith)
            requires
                (width as int) >= 1,
                (height as int) >= 1,
        ;
    }
    let width2 = 2 * width;
    let height2 = 2 * height;
    let mut scaled: Vec<P> = Vec::new();
    proof {
        assert((0int) * (4 * (width as int)) == 0) by (nonlinear_arith);
    }
    for y in 0..height
        invariant
            pixel_model::<P>(),
            width >= 1,
            height >= 1,
            buf@.len() == width * height,
            width * height <= usize::MAX,
            4 * (width * height) <= usize::MAX,
            g == scale2x_spec(buf@, width as int, height as int),
            scaled@.len() == y * (4 * width),
            forall|j: int| 0 <= j < scaled@.len() ==> #[trigger] scaled@[j] == g[j],
    {
        let mut top: Vec<P> = Vec::new();
        let mut bottom: Vec<P> = Vec::new();
        for x in 0..width
            invariant
                pixel_model::<P>(),
                width >= 1,
                height >= 1,
                y < height,
                buf@.len() == width * height,
                width * height <= usize::MAX,
                g == scale2x_spec(buf@, width as int, height as int),
                top@.len() == 2 * x,
                bottom@.len() == 2 * x,
                forall|i: int|
                    0 <= i < top@.len() ==> #[trigger] top@[i] == g[(2 * y) * (2 * width) + i],
                forall|i: int|
                    0 <= i < bottom@.len() ==> #[trigger] bottom@[i] == g[(2 * y + 1) * (2 * width)
                        + i],
        {
            let b = scale2x_block_at(buf, width, height, x, y);
            proof {
                lemma_scale2x_spec_index(buf@, width as int, height as int, x as int, y as int, 0, 0);
                lemma_scale2x_spec_index(buf@, width as int, height as int, x as int, y as int, 1, 0);
                lemma_scale2x_spec_index(buf@, width as int, height as int, x as int, y as int, 0, 1);
                lemma_scale2x_spec_index(buf@, width as int, height as int, x as int, y as int, 1, 1);
            }
            top.push(b.0);
            top.push(b.1);
            bottom.push(b.2);
            bottom.push(b.3);
        }
        proof {
            assert((2 * (y as int)) * (2 * width) == y * (4 * width)) by (nonlinear_arith);
            assert((2 * (y as int) + 1) * (2 * width) == y * (4 * width) + 2 * width)
                by (nonlinear_arith);
            assert((y as int + 1) * (4 * width) == y * (4 * width) + 4 * width) by (nonlinear_arith);
        }
        scaled.append(&mut top);
        scaled.append(&mut bottom);
    }
    proof {
        assert((height as int) * (4 * width) == 4 * (width as int) * height) by (nonlinear_arith);
        assert(scaled@ =~= g);
        lemma_scale2x_palette(buf@, width as int, height as int);
    }
    (width2, height2, scaled)
}


} // verus!
