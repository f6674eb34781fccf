//! The pixel model and row-major grid addressing.
//!
//! A pixel buffer is a flat sequence of pixel values in row-major order:
//! the pixel at column `x` and row `y` of a grid of width `w` sits at
//! index `y * w + x`.

use vstd::prelude::*;
use vstd::std_specs::cmp::PartialEqSpec;
use vstd::arithmetic::mul::{lemma_mul_inequality, lemma_mul_is_distributive_add_other_way};

verus! {

/// What the algorithms assume of a pixel type: equality comparison and cheap
/// duplication, nothing else. Concretely: the `==` test agrees with logical
/// equality, and a clone of a pixel equals the original. Plain color
/// representations (integers, tuples of integers) satisfy all three clauses.
pub open spec fn pixel_model<P: Eq + Clone>() -> bool {
    &&& P::obeys_eq_spec()
    &&& forall|a: P, b: P| #[trigger] a.eq_spec(&b) <==> a == b
    &&& forall|a: P, b: P| #[trigger] cloned::<P>(a, b) ==> a == b
}

/// The pixel at column `x`, row `y` of a row-major grid of width `w`.
pub open spec fn pixel_at<P>(s: Seq<P>, w: int, x: int, y: int) -> P {
    s[y * w + x]
}

/// Duplicate one pixel; under the pixel model the copy equals the original.
pub(crate) fn dup<P: Eq + Clone>(p: &P) -> (r: P)
    requires
        pixel_model::<P>(),
    ensures
        r == *p,
{
    let r = p.clone();
    proof {
        assert(cloned::<P>(*p, r));
    }
    r
}

/// Duplicate a whole pixel buffer; under the pixel model the copy equals the
/// original element for element.
pub(crate) fn clone_pixels<P: Eq + Clone>(buf: &Vec<P>) -> (r: Vec<P>)
    requires
        pixel_model::<P>(),
    ensures
        r@ == buf@,
{
    let r = buf.clone();
    proof {
        assert forall|i: int| 0 <= i < buf@.len() implies r@[i] == buf@[i] by {
            assert(cloned::<P>(buf@[i], r@[i]));
        }
        assert(r@ =~= buf@);
    }
    r
}

/// Doubling both dimensions of a grid quadruples its area.
pub(crate) proof fn lemma_quad_area(c: int, d: int)
    requires
        c >= 0,
        d >= 0,
    ensures
        4 * c * d == 4 * (c * d),
        (2 * c) * (2 * d) == 4 * (c * d),
        4 * (c * d) >= 0,
{
    assert(4 * c * d == 4 * (c * d) && (2 * c) * (2 * d) == 4 * (c * d) && 4 * (c * d) >= 0)
        by (nonlinear_arith)
        requires c >= 0, d >= 0;
}

/// A coordinate pair inside a `w` by `h` grid addresses a valid row-major index.
pub(crate) proof fn lemma_grid_index(w: int, h: int, x: int, y: int)
    requires
        0 <= x < w,
        0 <= y < h,
    ensures
        0 <= y * w + x < w * h,
{
    lemma_mul_inequality(y + 1, h, w);
    lemma_mul_is_distributive_add_other_way(w, y, 1);
    lemma_mul_inequality(0, y, w);
}

} // verus!
