//! Pixel-art rotation that preserves hard edges (the RotSprite technique).
//!
//! A sprite is rotated by first magnifying it three times with the
//! edge-preserving Scale2x rule (8x linear magnification), then rotating the
//! magnified buffer while decimating it back by the same factor of 8.
//! Multiples of 90 degrees take an exact, lossless index permutation instead.
//! The rotation never synthesizes a color absent from the input: every output
//! pixel is either a copy of an input pixel or the caller-supplied empty-color
//! sentinel.
//!
//! Pixels are opaque values: any `Eq + Clone` type whose equality test agrees
//! with logical equality and whose clones equal their originals works (see
//! [`grid::pixel_model`]); plain color types such as integers qualify.
//!
//! The angle reaches the library already reduced to what the pixel pipeline
//! reads of it (see [`rotate::Angle`]): an exact count of 90-degree steps, or,
//! for a general angle, the rotated canvas size and the inverse-mapping table
//! that trigonometry determines. Both forms are plain data, so everything the
//! pipeline does with them is verified; computing the table from a real-valued
//! degree angle is the caller's (floating-point) arithmetic.

use vstd::prelude::*;
use vstd::arithmetic::div_mod::{
    lemma_fundamental_div_mod,
    lemma_mod_multiples_vanish,
    lemma_mod_multiples_basic,
};

pub mod grid;
pub mod rotate;
pub mod scale2x;

use crate::grid::{pixel_model, clone_pixels, lemma_quad_area};
use crate::rotate::{
    Angle,
    ceil_div,
    rotate,
    rotate_turns_spec,
    sampled_fill,
    lemma_sampled_fill_len,
    lemma_sampled_fill_palette,
    lemma_rotate_turns_palette,
    lemma_ceil_div_bounds,
    lemma_contains_chain,
};
use crate::scale2x::{scale2x, scale2x_spec, lemma_scale2x_palette};

verus! {

/// The one input validation error: the supplied width does not evenly divide
/// the pixel buffer's length, so no height exists.
#[derive(Debug, PartialEq, Eq, Structural)]
pub enum Error {
    ImageSizeMismatch,
}

/// Three rounds of Scale2x: the buffer magnified 8-fold in each dimension.
pub open spec fn upscale8_spec<P>(s: Seq<P>, w: int, h: int) -> Seq<P> {
    scale2x_spec(scale2x_spec(scale2x_spec(s, w, h), 2 * w, 2 * h), 4 * w, 4 * h)
}

/// The 8-fold magnification only rearranges existing colors: every pixel of
/// the magnified buffer occurs in the source buffer.
pub proof fn lemma_upscale8_palette<P>(s: Seq<P>, w: int, h: int)
    requires
        w >= 1,
        h >= 1,
        s.len() == w * h,
    ensures
        forall|j: int|
            0 <= j < upscale8_spec(s, w, h).len() ==> s.contains(#[trigger] upscale8_spec(s, w, h)[j]),
{
    let g1 = scale2x_spec(s, w, h);
    let g2 = scale2x_spec(g1, 2 * w, 2 * h);
    let g3 = scale2x_spec(g2, 4 * w, 4 * h);
    lemma_scale2x_palette(s, w, h);
    lemma_quad_area(w, h);
    assert(g1.len() == (2 * w) * (2 * h));
    lemma_scale2x_palette(g1, 2 * w, 2 * h);
    lemma_quad_area(2 * w, 2 * h);
    assert(g2.len() == (4 * w) * (4 * h));
    lemma_scale2x_palette(g2, 4 * w, 4 * h);
    assert forall|j: int| 0 <= j < g3.len() implies s.contains(#[trigger] g3[j]) by {
        lemma_contains_chain(g1, g2, g3[j]);
        lemma_contains_chain(s, g1, g3[j]);
    }
}

/// Whether an angle is the exact zero rotation, which short-circuits the
/// pipeline and returns the input unchanged.
pub open spec fn is_zero_turns(angle: Angle) -> bool {
    angle matches Angle::Turns { count } && count == 0
}

/// Everything `rotsprite` does with a quarter-turn angle: reject a width that
/// does not divide the buffer's length; return the buffer unchanged on the
/// exact zero count; otherwise magnify 8-fold, decimate by 8, and permute by
/// the count taken modulo four.
pub open spec fn rotsprite_turns_spec<P>(s: Seq<P>, w: int, count: int) -> Result<
    (int, int, Seq<P>),
    Error,
> {
    if s.len() as int % w != 0 {
        Err(Error::ImageSizeMismatch)
    } else if count == 0 {
        Ok((w, s.len() as int / w, s))
    } else {
        let h = s.len() as int / w;
        Ok(rotate_turns_spec(upscale8_spec(s, w, h), 8 * w, 8 * h, count, 8))
    }
}

/// Periodicity of the rotation: quarter-turn counts that differ by a whole
/// number of full turns rotate a sprite identically. The exact count zero is
/// excluded: by design it short-circuits and returns the input unchanged,
/// while a nonzero multiple of four runs the pipeline (whose magnification and
/// decimation need not cancel exactly on every buffer).
pub proof fn lemma_rotsprite_periodic<P>(s: Seq<P>, w: int, count: int, k: int)
    requires
        count != 0,
        count + 4 * k != 0,
    ensures
        rotsprite_turns_spec::<P>(s, w, count) == rotsprite_turns_spec::<P>(s, w, count + 4 * k),
{
    lemma_mod_multiples_vanish(k, count, 4);
}

/// Clone and rotate a sprite.
///
/// `width` must evenly divide the buffer's length; that is the sole validated
/// input, checked before anything else, and `Err(Error::ImageSizeMismatch)` is
/// returned exactly when it fails. The exact zero rotation then returns the
/// buffer unchanged. Any other angle runs the RotSprite pipeline: three
/// Scale2x passes, then the rotation at decimation factor 8. The result is
/// the new width, the new height, and the new buffer, whose length is always
/// their product. Width and height swap at a quarter or three-quarter turn;
/// a general angle's canvas is the one its sampling grid names.
pub fn rotsprite<P: Eq + Clone>(
    buf: &Vec<P>,
    empty_color: &P,
    width: usize,
    angle: &Angle,
) -> (r: Result<(usize, usize, Vec<P>), Error>)
    requires
        pixel_model::<P>(),
        width >= 1,
        buf@.len() as int % (width as int) == 0 && !is_zero_turns(*angle) ==> 1 <= buf@.len() && 64
            * buf@.len() <= usize::MAX,
        *angle matches Angle::Sampled { grid } ==> grid.points@.len() == grid.width * grid.height,
    ensures
        r is Err <==> buf@.len() as int % (width as int) != 0,
        r matches Err(e) ==> e == Error::ImageSizeMismatch,
        *angle matches Angle::Turns { count } ==> (match r {
            Ok(t) => rotsprite_turns_spec(buf@, width as int, count as int) == Ok::<
                (int, int, Seq<P>),
                Error,
            >((t.0 as int, t.1 as int, t.2@)),
            Err(e) => rotsprite_turns_spec(buf@, width as int, count as int) == Err::<
                (int, int, Seq<P>),
                Error,
            >(e),
        }),
        *angle matches Angle::Sampled { grid } ==> r matches Ok(t) ==> ({
            let h = buf@.len() as int / (width as int);
            let rbw = ceil_div(grid.width as int, 8);
            let rbh = ceil_div(grid.height as int, 8);
            t.0 == rbw && t.1 == rbh && t.2@ == sampled_fill(
                upscale8_spec(buf@, width as int, h),
                *empty_color,
                8 * (width as int),
                8 * h,
                grid.width as int,
                8,
                rbw,
                rbh,
                grid.points@,
                (grid.width * grid.height) as nat,
            )
        }),
        r matches Ok(t) ==> t.2@.len() == t.0 * t.1,
        r matches Ok(t) ==> forall|j: int|
            0 <= j < t.2@.len() ==> #[trigger] t.2@[j] == *empty_color || buf@.contains(t.2@[j]),
{
    let len = buf.len();
    if len % width != 0 {
        return Err(Error::ImageSizeMismatch);
    }
    let height = len / width;
    proof {
        lemma_fundamental_div_mod(len as int, width as int);
    }
    if let Angle::Turns { count } = angle {
        if *count == 0 {
            let copy = clone_pixels(buf);
            proof {
                assert forall|j: int| 0 <= j < copy@.len() implies buf@.contains(
                    #[trigger] copy@[j],
                ) by {
                    assert(buf@[j] == copy@[j]);
                }
            }
            return Ok((width, height, copy));
        }
    }
    proof {
        assert(height >= 1) by (nonlinear_arith)
            requires
                (len as int) == (width as int) * (height as int),
                len >= 1,
                width >= 1,
                height >= 0,
        ;
        lemma_quad_area(width as int, height as int);
    }
    let (w2, h2, s2) = scale2x(buf, width, height);
    proof {
        lemma_quad_area(w2 as int, h2 as int);
    }
    let (w4, h4, s4) = scale2x(&s2, w2, h2);
    proof {
        lemma_quad_area(w4 as int, h4 as int);
    }
    let (w8, h8, s8) = scale2x(&s4, w4, h4);
    proof {
        lemma_quad_area(w8 as int, h8 as int);
        lemma_mod_multiples_basic(width as int, 8);
        lemma_mod_multiples_basic(height as int, 8);
    }
    let rotated = rotate(&s8, empty_color, w8, h8, angle, 8);
    proof {
        lemma_upscale8_palette(buf@, width as int, height as int);
        match angle {
            Angle::Turns { count } => {
                assert((width as int) * height == (height as int) * width) by (nonlinear_arith);
                lemma_rotate_turns_palette(s8@, w8 as int, h8 as int, *count as int, 8);
                assert forall|j: int| 0 <= j < rotated.2@.len() implies #[trigger] rotated.2@[j]
                    == *empty_color || buf@.contains(rotated.2@[j]) by {
                    lemma_contains_chain(buf@, s8@, rotated.2@[j]);
                }
            },
            Angle::Sampled { grid } => {
                let gw = grid.width as int;
                let gh = grid.height as int;
                lemma_ceil_div_bounds(gw, 8);
                lemma_ceil_div_bounds(gh, 8);
                if gw >= 1 && gh >= 1 {
                    lemma_sampled_fill_len(
                        s8@,
                        *empty_color,
                        w8 as int,
                        h8 as int,
                        gw,
                        gh,
                        8,
                        ceil_div(gw, 8),
                        ceil_div(gh, 8),
                        grid.points@,
                        (grid.width * grid.height) as nat,
                    );
                    lemma_sampled_fill_palette(
                        s8@,
                        *empty_color,
                        w8 as int,
                        h8 as int,
                        gw,
                        gh,
                        8,
                        ceil_div(gw, 8),
                        ceil_div(gh, 8),
                        grid.points@,
                        (grid.width * grid.height) as nat,
                    );
                    assert forall|j: int| 0 <= j < rotated.2@.len() implies #[trigger] rotated.2@[j]
                        == *empty_color || buf@.contains(rotated.2@[j]) by {
                        if rotated.2@[j] != *empty_color {
                            lemma_contains_chain(buf@, s8@, rotated.2@[j]);
                        }
                    }
                } else {
                    assert(gw * gh == 0) by (nonlinear_arith)
                        requires gw >= 0, gh >= 0, gw == 0 || gh == 0;
                }
            },
        }
    }
    Ok(rotated)
}

} // verus!
