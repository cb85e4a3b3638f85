//! Size limits under which every layout computation provably fits in `i64`.
//!
//! Layout arithmetic adds paddings, spacings and preferred sizes to the
//! rectangle a container was given, and hands the results to its children, so
//! coordinates can grow by a bounded step at each level of the tree. The
//! limits below give each level that much headroom: a rectangle handed to a
//! node of depth `d` must satisfy [`rect_bounded`]`(r, d)`, and one layout
//! step over a well-formed container keeps the children's rectangles within
//! the (looser) bound for depth `d - 1`.

use vstd::prelude::*;
use crate::geometry::RectModel;

verus! {

/// Most children a well-formed container may hold.
pub const CHILD_MAX: i64 = 0x100_0000;

/// Longest content (in characters) a well-formed text widget may hold.
pub const TEXT_MAX: i64 = 0x100_0000;

/// Bound on the preferred width and height of a well-formed widget.
pub const PREF_MAX: i64 = 0x1_0000_0000;

/// Bound on the magnitude of each padding inset of a well-formed container.
pub const PAD_MAX: i64 = 0x10_0000;

/// Bound on the magnitude of the spacing of a well-formed container.
pub const SPACING_MAX: i64 = 0x10_0000;

/// Deepest nesting of a well-formed widget tree.
pub const DEPTH_MAX: i64 = 64;

/// Position bound at depth zero.
pub const POS_LIMIT: i64 = 0x2400_0000_0000_0000;

/// How much position headroom one layout level consumes.
pub const POS_SLOP: i64 = 0x80_0000_0000_0000;

/// Extent bound at depth zero.
pub const DIM_LIMIT: i64 = 0x20_0000_0000_0000;

/// How much extent headroom one layout level consumes.
pub const DIM_SLOP: i64 = 0x4000_0000_0000;

/// Position bound for a rectangle handed to a node of depth `d`.
pub open spec fn pos_limit_at(d: int) -> int {
    POS_LIMIT - d * POS_SLOP
}

/// Extent bound for a rectangle handed to a node of depth `d`.
pub open spec fn dim_limit_at(d: int) -> int {
    DIM_LIMIT - d * DIM_SLOP
}

/// A rectangle small enough to be laid out at depth `d` without the
/// arithmetic leaving `i64`.
pub open spec fn rect_bounded(r: RectModel, d: int) -> bool {
    &&& -pos_limit_at(d) <= r.x <= pos_limit_at(d)
    &&& -pos_limit_at(d) <= r.y <= pos_limit_at(d)
    &&& -dim_limit_at(d) <= r.width <= dim_limit_at(d)
    &&& -dim_limit_at(d) <= r.height <= dim_limit_at(d)
}

/// A shallower node admits every rectangle a deeper one does.
pub proof fn lemma_rect_bounded_mono(r: RectModel, d1: int, d2: int)
    requires
        rect_bounded(r, d2),
        0 <= d1 <= d2,
    ensures
        rect_bounded(r, d1),
{
    assert(d1 * POS_SLOP <= d2 * POS_SLOP) by (nonlinear_arith)
        requires 0 <= d1 <= d2 && POS_SLOP >= 0;
    assert(d1 * DIM_SLOP <= d2 * DIM_SLOP) by (nonlinear_arith)
        requires 0 <= d1 <= d2 && DIM_SLOP >= 0;
}

} // verus!
