//! Addressing of texels in a texture stored as one flat vector.

use vstd::prelude::*;

verus! {

/// Position of the texel `(major, minor)` in a flat vector whose lines hold
/// `stride` texels: line `major`, place `minor` within the line.
pub open spec fn texel_offset(stride: int, major: int, minor: int) -> int {
    major * stride + minor
}

/// The position of the texel `(major, minor)` in a flat texture whose lines
/// hold `stride` texels.
pub fn texel_index(stride: usize, major: usize, minor: usize) -> (i: usize)
    requires
        texel_offset(stride as int, major as int, minor as int) <= usize::MAX,
    ensures
        i == texel_offset(stride as int, major as int, minor as int),
        i == major * stride + minor,
{
    major * stride + minor
}

/// Texels that lie within a `lines` by `stride` texture have positions below
/// `lines * stride`, and two different such texels have different positions.
pub proof fn lemma_texel_offsets(stride: int, lines: int)
    requires
        0 <= stride,
        0 <= lines,
    ensures
        forall|a: int, b: int|
            0 <= a < lines && 0 <= b < stride ==> 0 <= #[trigger] texel_offset(stride, a, b)
                < lines * stride,
        forall|a: int, b: int, c: int, d: int|
            0 <= a < lines && 0 <= b < stride && 0 <= c < lines && 0 <= d < stride && (a != c || b
                != d) ==> #[trigger] texel_offset(stride, a, b) != #[trigger] texel_offset(
                stride,
                c,
                d,
            ),
{
    assert forall|a: int, b: int|
        0 <= a < lines && 0 <= b < stride implies 0 <= #[trigger] texel_offset(stride, a, b) < lines
        * stride by {
        assert(0 <= a * stride + b < lines * stride) by (nonlinear_arith)
            requires
                0 <= a < lines,
                0 <= b < stride,
        ;
    }
    assert forall|a: int, b: int, c: int, d: int|
        0 <= a < lines && 0 <= b < stride && 0 <= c < lines && 0 <= d < stride && (a != c || b
            != d) implies #[trigger] texel_offset(stride, a, b) != #[trigger] texel_offset(
        stride,
        c,
        d,
    ) by {
        if a == c {
        } else if a < c {
            assert(a * stride + b < c * stride + d) by (nonlinear_arith)
                requires
                    a < c,
                    0 <= b < stride,
                    0 <= d,
            ;
        } else {
            assert(c * stride + d < a * stride + b) by (nonlinear_arith)
                requires
                    c < a,
                    0 <= d < stride,
                    0 <= b,
            ;
        }
    }
}

} // verus!
