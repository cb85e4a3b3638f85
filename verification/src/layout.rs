//! The box-layout engine.
//!
//! Assigning a rectangle to a widget (`set_rect`) is the sole entry point
//! that keeps a tree's geometry consistent: a leaf stores the rectangle, a
//! container stores it and then recomputes every child's rectangle from its
//! content box, the children's preferred sizes, the spacing and the
//! alignment. The whole algorithm is stated as the pure functions
//! [`apply_rect`] / [`layout_container`] / [`child_rect`] below, and the
//! executable code is proved to compute exactly them.
//!
//! Degenerate inputs (no children, padding larger than the rectangle,
//! children overflowing the container) never fail: the flex share `extra`
//! simply becomes negative and children may be placed at negative sizes.

use vstd::prelude::*;
use vstd::arithmetic::div_mod::{
    lemma_fundamental_div_mod, lemma_fundamental_div_mod_converse,
    lemma_mod_division_less_than_divisor,
};
use crate::geometry::{Alignment, Direction, Padding, PaddingModel, Rect, RectModel};
use crate::limits::{
    lemma_rect_bounded_mono, rect_bounded, CHILD_MAX, DEPTH_MAX, DIM_SLOP, POS_SLOP, PREF_MAX,
    SPACING_MAX,
};
use crate::widgets::{
    children_depth, container_model, depth, lemma_child_depth_le, lemma_children_depth_nonneg,
    lemma_depth_nonneg, lemma_pref_nonneg, lemma_pref_prefix_le, lemma_pref_prefix_step,
    lemma_seq_pref_nonneg, lemma_wf_pref_bounded, lemma_widgets_model, max_pref_h, max_pref_w,
    pref_h, pref_w, rect_of, sum_pref_h, sum_pref_w, c_wf, wf, widget_model, widgets_model,
    Button, ButtonModel, Container, ContainerModel, Text, TextModel, Widget, WidgetModel,
};

verus! {

/// The container's rectangle inset by its padding. Width and height may come
/// out negative when the padding exceeds the rectangle; this is not clamped.
pub open spec fn content_box(r: RectModel, p: PaddingModel) -> RectModel {
    RectModel {
        x: r.x + p.left,
        y: r.y + p.top,
        width: r.width - (p.left + p.right),
        height: r.height - (p.top + p.bottom),
    }
}

/// The flex share: what is left of the main content extent after spacing and
/// the children's preferred sizes, divided evenly (flooring) among the `n`
/// children. Negative when the children overflow the container.
pub open spec fn layout_extra(content_main: int, spacing: int, n: int, sum_main: int) -> int {
    if n <= 0 {
        0
    } else {
        (content_main - spacing * (n - 1) - sum_main) / n
    }
}

/// Cross-axis position of a child of preferred extent `pref` inside a content
/// interval starting at `start` with extent `avail`.
pub open spec fn align_pos(a: Alignment, start: int, avail: int, pref: int) -> int {
    match a {
        Alignment::Start => start,
        Alignment::Center => start + (avail - pref) / 2,
        Alignment::End => start + avail - pref,
    }
}

/// The rectangle the layout algorithm assigns to child `i` of a container
/// whose own rectangle is already `c.rect`: the main-axis position advances
/// past the preferred sizes, flex shares and spacing of the earlier children;
/// the main-axis extent is the preferred size plus the flex share; the cross
/// axis keeps the preferred extent and is placed by the alignment.
pub open spec fn child_rect(c: ContainerModel, i: int) -> RectModel {
    let cb = content_box(c.rect, c.padding);
    let n = c.children.len() as int;
    let pw = pref_w(c.children[i]);
    let ph = pref_h(c.children[i]);
    match c.direction {
        Direction::Vertical => {
            let extra = layout_extra(cb.height, c.spacing, n, sum_pref_h(c.children));
            RectModel {
                x: align_pos(c.alignment, cb.x, cb.width, pw),
                y: cb.y + sum_pref_h(c.children.subrange(0, i)) + i * (extra + c.spacing),
                width: pw,
                height: ph + extra,
            }
        },
        Direction::Horizontal => {
            let extra = layout_extra(cb.width, c.spacing, n, sum_pref_w(c.children));
            RectModel {
                x: cb.x + sum_pref_w(c.children.subrange(0, i)) + i * (extra + c.spacing),
                y: align_pos(c.alignment, cb.y, cb.height, ph),
                width: pw + extra,
                height: ph,
            }
        },
    }
}

/// The first `k` children of `c2` with their layout rectangles applied.
pub open spec fn laid_prefix(kids: Seq<WidgetModel>, c2: ContainerModel, k: int) -> Seq<
    WidgetModel,
>
    decreases kids, k,
{
    if k <= 0 || kids.len() < k {
        Seq::empty()
    } else {
        laid_prefix(kids, c2, k - 1).push(apply_rect(kids[k - 1], child_rect(c2, k - 1)))
    }
}

/// A widget after `set_rect(r)`: a leaf stores the rectangle; a container
/// stores it and lays its children out inside it.
pub open spec fn apply_rect(w: WidgetModel, r: RectModel) -> WidgetModel
    decreases w, 1int,
{
    match w {
        WidgetModel::Button(b) => WidgetModel::Button(ButtonModel { rect: r, ..b }),
        WidgetModel::Text(t) => WidgetModel::Text(TextModel { rect: r, ..t }),
        WidgetModel::Container(c) => WidgetModel::Container(layout_container(c, r)),
    }
}

/// A container after `set_rect(r)`.
pub open spec fn layout_container(c: ContainerModel, r: RectModel) -> ContainerModel
    decreases c, 0int,
{
    ContainerModel {
        rect: r,
        children: laid_prefix(
            c.children,
            ContainerModel { rect: r, ..c },
            c.children.len() as int,
        ),
        ..c
    }
}

/// A container with one more child appended, before any re-layout.
pub open spec fn pushed(c: ContainerModel, w: WidgetModel) -> ContainerModel {
    ContainerModel { children: c.children.push(w), ..c }
}

/// `laid_prefix` maps the children pointwise.
pub proof fn lemma_laid_prefix(kids: Seq<WidgetModel>, c2: ContainerModel, k: int)
    requires
        0 <= k <= kids.len(),
    ensures
        laid_prefix(kids, c2, k).len() == k,
        forall|i: int|
            0 <= i < k ==> laid_prefix(kids, c2, k)[i] == apply_rect(kids[i], child_rect(c2, i)),
    decreases k,
{
    if k > 0 {
        lemma_laid_prefix(kids, c2, k - 1);
    }
}

/// Two sequences whose elements agree on preferred sizes, depth and
/// well-formedness have the same sums, maxima and greatest depth.
pub proof fn lemma_seq_measures_congruent(s1: Seq<WidgetModel>, s2: Seq<WidgetModel>)
    requires
        s1.len() == s2.len(),
        forall|i: int|
            0 <= i < s1.len() ==> pref_w(s1[i]) == pref_w(#[trigger] s2[i]) && pref_h(s1[i])
                == pref_h(s2[i]) && depth(s1[i]) == depth(s2[i]) && (wf(s1[i]) <==> wf(s2[i])),
    ensures
        sum_pref_w(s1) == sum_pref_w(s2),
        sum_pref_h(s1) == sum_pref_h(s2),
        max_pref_w(s1) == max_pref_w(s2),
        max_pref_h(s1) == max_pref_h(s2),
        children_depth(s1) == children_depth(s2),
    decreases s1.len(),
{
    if s1.len() > 0 {
        assert(forall|i: int|
            0 <= i < s1.len() - 1 ==> s1.drop_last()[i] == s1[i] && #[trigger] s2.drop_last()[i]
                == s2[i]);
        lemma_seq_measures_congruent(s1.drop_last(), s2.drop_last());
        assert(s1.last() == s1[s1.len() - 1] && s2.last() == s2[s2.len() - 1]);
    }
}

/// Layout changes rectangles only: preferred sizes, depth and
/// well-formedness are untouched by `apply_rect`.
pub proof fn lemma_apply_rect_preserves(w: WidgetModel, r: RectModel)
    ensures
        pref_w(apply_rect(w, r)) == pref_w(w),
        pref_h(apply_rect(w, r)) == pref_h(w),
        depth(apply_rect(w, r)) == depth(w),
        wf(apply_rect(w, r)) == wf(w),
    decreases w,
{
    match w {
        WidgetModel::Container(c) => {
            let c2 = ContainerModel { rect: r, ..c };
            let lc = layout_container(c, r);
            let n = c.children.len() as int;
            lemma_laid_prefix(c.children, c2, n);
            assert forall|i: int| 0 <= i < n implies pref_w(#[trigger] lc.children[i]) == pref_w(
                c.children[i],
            ) && pref_h(lc.children[i]) == pref_h(c.children[i]) && depth(lc.children[i]) == depth(
                c.children[i],
            ) && (wf(lc.children[i]) <==> wf(c.children[i])) by {
                lemma_apply_rect_preserves(c.children[i], child_rect(c2, i));
            }
            lemma_seq_measures_congruent(lc.children, c.children);
            assert(pref_w(apply_rect(w, r)) == pref_w(WidgetModel::Container(lc)));
            assert(pref_w(WidgetModel::Container(lc)) == pref_w(w));
            assert(pref_h(WidgetModel::Container(lc)) == pref_h(w));
            assert(depth(WidgetModel::Container(lc)) == depth(w));
            assert(wf(WidgetModel::Container(lc)) == wf(w)) by {
                if wf(w) {
                    assert forall|i: int| 0 <= i < lc.children.len() implies wf(
                        #[trigger] lc.children[i],
                    ) by {
                        assert(wf(c.children[i]));
                    }
                }
                if wf(WidgetModel::Container(lc)) {
                    assert forall|i: int| 0 <= i < c.children.len() implies wf(
                        #[trigger] c.children[i],
                    ) by {
                        assert(wf(lc.children[i]));
                    }
                }
            }
        },
        _ => {},
    }
}

/// A layout pass changes only the children's rectangles: their count, their
/// preferred-size sums, their greatest depth and their well-formedness all
/// survive it.
pub proof fn lemma_layout_children_measures(c: ContainerModel, r: RectModel)
    ensures
        layout_container(c, r).children.len() == c.children.len(),
        sum_pref_w(layout_container(c, r).children) == sum_pref_w(c.children),
        sum_pref_h(layout_container(c, r).children) == sum_pref_h(c.children),
        max_pref_w(layout_container(c, r).children) == max_pref_w(c.children),
        max_pref_h(layout_container(c, r).children) == max_pref_h(c.children),
        children_depth(layout_container(c, r).children) == children_depth(c.children),
        forall|i: int|
            0 <= i < c.children.len() ==> (wf(#[trigger] layout_container(c, r).children[i])
                <==> wf(c.children[i])),
{
    let c2 = ContainerModel { rect: r, ..c };
    let lc = layout_container(c, r);
    let n = c.children.len() as int;
    lemma_laid_prefix(c.children, c2, n);
    assert forall|i: int| 0 <= i < n implies pref_w(#[trigger] lc.children[i]) == pref_w(
        c.children[i],
    ) && pref_h(lc.children[i]) == pref_h(c.children[i]) && depth(lc.children[i]) == depth(
        c.children[i],
    ) && (wf(lc.children[i]) <==> wf(c.children[i])) by {
        lemma_apply_rect_preserves(c.children[i], child_rect(c2, i));
    }
    lemma_seq_measures_congruent(lc.children, c.children);
}

/// The rectangle of a widget after `set_rect(r)` is `r` itself.
pub proof fn lemma_rect_of_apply(w: WidgetModel, r: RectModel)
    ensures
        rect_of(apply_rect(w, r)) == r,
{
}

/// Law: layout is idempotent. Assigning the same rectangle twice to a widget
/// yields exactly the same tree — every child rectangle is a pure function of
/// the widget's rectangle, the children's preferred sizes and the
/// configuration, none of which the first pass changes.
pub proof fn lemma_apply_rect_idempotent(w: WidgetModel, r: RectModel)
    ensures
        apply_rect(apply_rect(w, r), r) == apply_rect(w, r),
    decreases w,
{
    match w {
        WidgetModel::Container(c) => {
            let c2 = ContainerModel { rect: r, ..c };
            let lc = layout_container(c, r);
            let lc2 = ContainerModel { rect: r, ..lc };
            let n = c.children.len() as int;
            assert(lc2 == lc);
            lemma_laid_prefix(c.children, c2, n);
            lemma_laid_prefix(lc.children, lc2, n);
            assert forall|i: int| 0 <= i < n implies pref_w(#[trigger] lc.children[i]) == pref_w(
                c.children[i],
            ) && pref_h(lc.children[i]) == pref_h(c.children[i]) && depth(lc.children[i]) == depth(
                c.children[i],
            ) && (wf(lc.children[i]) <==> wf(c.children[i])) by {
                lemma_apply_rect_preserves(c.children[i], child_rect(c2, i));
            }
            lemma_seq_measures_congruent(lc.children, c.children);
            assert forall|i: int| 0 <= i < n implies child_rect(lc2, i) == child_rect(c2, i) by {
                assert forall|k: int|
                    0 <= k < i implies pref_w(#[trigger] lc.children.subrange(0, i)[k]) == pref_w(
                    c.children.subrange(0, i)[k],
                ) && pref_h(lc.children.subrange(0, i)[k]) == pref_h(
                    c.children.subrange(0, i)[k],
                ) && depth(lc.children.subrange(0, i)[k]) == depth(
                    c.children.subrange(0, i)[k],
                ) && (wf(lc.children.subrange(0, i)[k]) <==> wf(c.children.subrange(0, i)[k])) by {
                    assert(lc.children.subrange(0, i)[k] == lc.children[k]);
                    assert(c.children.subrange(0, i)[k] == c.children[k]);
                }
                lemma_seq_measures_congruent(
                    lc.children.subrange(0, i),
                    c.children.subrange(0, i),
                );
            }
            assert forall|i: int| 0 <= i < n implies #[trigger] layout_container(
                lc,
                r,
            ).children[i] == lc.children[i] by {
                lemma_apply_rect_idempotent(c.children[i], child_rect(c2, i));
            }
            assert(layout_container(lc, r).children =~= lc.children);
            assert(layout_container(lc, r) == lc);
        },
        _ => {},
    }
}

/// Law, stated for containers: repeated `set_rect` with the same rectangle
/// gives the same container, children's rectangles included.
pub proof fn lemma_set_rect_idempotent(c: ContainerModel, r: RectModel)
    ensures
        layout_container(layout_container(c, r), r) == layout_container(c, r),
{
    lemma_apply_rect_idempotent(WidgetModel::Container(c), r);
}

/// Sum of the rectangle heights currently assigned to a sequence of widgets.
pub open spec fn sum_heights(s: Seq<WidgetModel>) -> int
    decreases s,
{
    if s.len() == 0 {
        0
    } else {
        sum_heights(s.drop_last()) + rect_of(s.last()).height
    }
}

/// Sum of the rectangle widths currently assigned to a sequence of widgets.
pub open spec fn sum_widths(s: Seq<WidgetModel>) -> int
    decreases s,
{
    if s.len() == 0 {
        0
    } else {
        sum_widths(s.drop_last()) + rect_of(s.last()).width
    }
}

proof fn lemma_laid_prefix_sum_heights(kids: Seq<WidgetModel>, c2: ContainerModel, k: int)
    requires
        0 <= k <= kids.len(),
        c2.direction == Direction::Vertical,
        kids == c2.children,
    ensures
        sum_heights(laid_prefix(kids, c2, k)) == sum_pref_h(kids.subrange(0, k)) + k
            * layout_extra(
            content_box(c2.rect, c2.padding).height,
            c2.spacing,
            kids.len() as int,
            sum_pref_h(kids),
        ),
    decreases k,
{
    let extra = layout_extra(
        content_box(c2.rect, c2.padding).height,
        c2.spacing,
        kids.len() as int,
        sum_pref_h(kids),
    );
    if k == 0 {
        assert(kids.subrange(0, 0) =~= Seq::<WidgetModel>::empty());
    } else {
        lemma_laid_prefix_sum_heights(kids, c2, k - 1);
        lemma_laid_prefix(kids, c2, k);
        assert(laid_prefix(kids, c2, k).drop_last() =~= laid_prefix(kids, c2, k - 1));
        lemma_rect_of_apply(kids[k - 1], child_rect(c2, k - 1));
        lemma_pref_prefix_step(kids, k - 1);
        assert(child_rect(c2, k - 1).height == pref_h(kids[k - 1]) + extra);
        assert(k * extra == (k - 1) * extra + extra) by (nonlinear_arith);
    }
}

/// Law: the main-axis sum. For a vertical container with `n >= 1` children,
/// the assigned child heights plus the inter-child spacing account for the
/// whole content height, up to the flooring remainder of the flex division.
pub proof fn lemma_axis_sum_vertical(c: ContainerModel, r: RectModel)
    requires
        c.direction == Direction::Vertical,
        c.children.len() >= 1,
    ensures
        sum_heights(layout_container(c, r).children) + c.spacing * (c.children.len() - 1)
            == content_box(r, c.padding).height - (content_box(r, c.padding).height - c.spacing * (
        c.children.len() - 1) - sum_pref_h(c.children)) % (c.children.len() as int),
{
    let c2 = ContainerModel { rect: r, ..c };
    let n = c.children.len() as int;
    let h = content_box(r, c.padding).height;
    let num = h - c.spacing * (n - 1) - sum_pref_h(c.children);
    lemma_laid_prefix_sum_heights(c.children, c2, n);
    assert(c.children.subrange(0, n) =~= c.children);
    lemma_fundamental_div_mod(num, n);
    assert(n * (num / n) == (num / n) * n) by (nonlinear_arith);
}

/// Law: with no remainder to floor away, the assigned heights plus spacing
/// meet the content height exactly, even when the children overflow it.
pub proof fn lemma_axis_sum_vertical_exact(c: ContainerModel, r: RectModel)
    requires
        c.direction == Direction::Vertical,
        c.children.len() >= 1,
        (content_box(r, c.padding).height - c.spacing * (c.children.len() - 1) - sum_pref_h(
            c.children,
        )) % (c.children.len() as int) == 0,
    ensures
        sum_heights(layout_container(c, r).children) + c.spacing * (c.children.len() - 1)
            == content_box(r, c.padding).height,
{
    lemma_axis_sum_vertical(c, r);
}

/// Law: centered cross-axis placement. In a horizontal container with center
/// alignment, every child sits at the vertical midpoint of the content box:
/// its y offset from the content box top is half the leftover height.
pub proof fn lemma_center_alignment(c: ContainerModel, r: RectModel, i: int)
    requires
        c.direction == Direction::Horizontal,
        c.alignment == Alignment::Center,
        0 <= i < c.children.len(),
    ensures
        rect_of(layout_container(c, r).children[i]).y == content_box(r, c.padding).y + (
        content_box(r, c.padding).height - pref_h(c.children[i])) / 2,
{
    let c2 = ContainerModel { rect: r, ..c };
    lemma_laid_prefix(c.children, c2, c.children.len() as int);
    lemma_rect_of_apply(c.children[i], child_rect(c2, i));
}

/// A well-formed widget is nested no deeper than `DEPTH_MAX`.
pub proof fn lemma_wf_depth(w: WidgetModel)
    requires
        wf(w),
    ensures
        0 <= depth(w) <= DEPTH_MAX,
{
    lemma_depth_nonneg(w);
}

/// A child of a container is structurally smaller than the container.
proof fn lemma_container_child_smaller(wm: WidgetModel, i: int)
    requires
        wm is Container,
        0 <= i < wm->Container_0.children.len(),
    ensures
        decreases_to!(wm => wm->Container_0.children[i]),
{
    let c = wm->Container_0;
    assert(decreases_to!(wm => c));
    assert(decreases_to!(c => c.children));
    assert(decreases_to!(c.children => c.children[i]));
}

/// Flooring division by a small positive divisor.
fn div_floor(a: i64, b: i64) -> (q: i64)
    requires
        -0x4000_0000_0000_0000 <= a <= 0x4000_0000_0000_0000,
        1 <= b <= 0x1000_0000,
    ensures
        q == a as int / b as int,
        a >= 0 ==> 0 <= q <= a,
        a < 0 ==> a <= q <= 0,
{
    let bu = b as u64;
    if a >= 0 {
        let qu = (a as u64) / bu;
        proof {
            vstd::arithmetic::div_mod::lemma_div_pos_is_pos(a as int, b as int);
            vstd::arithmetic::div_mod::lemma_div_nonincreasing(a as int, b as int);
        }
        qu as i64
    } else {
        let x = (-a) as u64;
        let u = (x + bu - 1) / bu;
        proof {
            let xi = -(a as int);
            let bi = b as int;
            let ui = (xi + bi - 1) / bi;
            lemma_fundamental_div_mod(xi + bi - 1, bi);
            lemma_mod_division_less_than_divisor(xi + bi - 1, bi);
            let r1 = (xi + bi - 1) % bi;
            let r = bi - 1 - r1;
            assert(a as int == (-ui) * bi + r) by (nonlinear_arith)
                requires
                    xi + bi - 1 == bi * ui + r1,
                    a as int == -xi,
                    r == bi - 1 - r1,
            ;
            assert(0 <= r < bi);
            lemma_fundamental_div_mod_converse(a as int, bi, -ui, r);
            vstd::arithmetic::div_mod::lemma_div_pos_is_pos(xi + bi - 1, bi);
            vstd::arithmetic::div_mod::lemma_div_nonincreasing(xi + bi - 1, bi);
            // ui <= xi, so the result is at least a
            assert(xi + bi - 1 <= bi * xi) by (nonlinear_arith)
                requires xi >= 1 && bi >= 1;
            vstd::arithmetic::div_mod::lemma_div_is_ordered(xi + bi - 1, bi * xi, bi);
            vstd::arithmetic::div_mod::lemma_div_multiples_vanish(xi, bi);
        }
        -(u as i64)
    }
}

/// Bounds on the running main-axis terms of the layout loop: `i` copies of
/// the flex share stay within the divided quantity, and `i` copies of the
/// spacing stay within `CHILD_MAX * SPACING_MAX`.
proof fn lemma_flex_bounds(num: int, n: int, extra: int, spacing: int, i: int)
    requires
        1 <= n <= CHILD_MAX,
        0 <= i <= n,
        extra == num / n,
        -SPACING_MAX <= spacing <= SPACING_MAX,
    ensures
        i * (extra + spacing) == i * extra + i * spacing,
        i * extra <= (if num >= 0 { num } else { 0 }),
        i * extra >= (if num - n <= 0 { num - n } else { 0 }),
        -0x1000_0000_0000 <= i * spacing <= 0x1000_0000_0000,
{
    lemma_fundamental_div_mod(num, n);
    lemma_mod_division_less_than_divisor(num, n);
    let r = num % n;
    assert(n * extra == num - r);
    if extra >= 0 {
        assert(i * extra <= n * extra && 0 <= i * extra) by (nonlinear_arith)
            requires 0 <= i <= n && 0 <= extra;
    } else {
        assert(n * extra <= i * extra && i * extra <= 0) by (nonlinear_arith)
            requires 0 <= i <= n && extra < 0;
        assert(num < 0) by {
            if num >= 0 {
                vstd::arithmetic::div_mod::lemma_div_pos_is_pos(num, n);
            }
        }
    }
    assert(-0x1000_0000_0000 <= i * spacing <= 0x1000_0000_0000) by (nonlinear_arith)
        requires 0 <= i <= 0x100_0000 && -0x10_0000 <= spacing <= 0x10_0000;
    assert(i * (extra + spacing) == i * extra + i * spacing) by (nonlinear_arith);
}

/// Numeric facts about the depth-indexed limits used throughout one layout
/// pass over a container at depth `d`.
proof fn lemma_limit_arith(d: int)
    requires
        1 <= d <= DEPTH_MAX,
    ensures
        0 <= d * POS_SLOP <= DEPTH_MAX * POS_SLOP,
        0 <= d * DIM_SLOP <= DEPTH_MAX * DIM_SLOP,
        (d - 1) * POS_SLOP == d * POS_SLOP - POS_SLOP,
        (d - 1) * DIM_SLOP == d * DIM_SLOP - DIM_SLOP,
{
    assert(0 <= d * POS_SLOP <= DEPTH_MAX * POS_SLOP) by (nonlinear_arith)
        requires 1 <= d <= DEPTH_MAX && POS_SLOP >= 0;
    assert(0 <= d * DIM_SLOP <= DEPTH_MAX * DIM_SLOP) by (nonlinear_arith)
        requires 1 <= d <= DEPTH_MAX && DIM_SLOP >= 0;
    assert((d - 1) * POS_SLOP == d * POS_SLOP - POS_SLOP) by (nonlinear_arith);
    assert((d - 1) * DIM_SLOP == d * DIM_SLOP - DIM_SLOP) by (nonlinear_arith);
}

/// Place the children of a vertical container: walk them in order, assigning
/// each its preferred height plus the flex share, advancing the cursor by the
/// assigned height plus the spacing, and aligning each horizontally.
fn layout_vertical(
    kids: Vec<Widget>,
    Ghost(anchor): Ghost<WidgetModel>,
    Ghost(c2m): Ghost<ContainerModel>,
    cx: i64,
    cy: i64,
    cw: i64,
    ch: i64,
    spacing: i64,
    alignment: Alignment,
) -> (out: Vec<Widget>)
    requires
        anchor is Container,
        anchor->Container_0.children == c2m.children,
        c_wf(c2m),
        c2m.direction == Direction::Vertical,
        kids@.len() == c2m.children.len(),
        1 <= kids@.len(),
        forall|j: int|
            0 <= j < kids@.len() ==> widget_model(#[trigger] kids@[j]) == c2m.children[j],
        rect_bounded(c2m.rect, depth(WidgetModel::Container(c2m))),
        cx == content_box(c2m.rect, c2m.padding).x,
        cy == content_box(c2m.rect, c2m.padding).y,
        cw == content_box(c2m.rect, c2m.padding).width,
        ch == content_box(c2m.rect, c2m.padding).height,
        spacing == c2m.spacing,
        alignment == c2m.alignment,
    ensures
        widgets_model(out@) == laid_prefix(c2m.children, c2m, c2m.children.len() as int),
    decreases anchor, 0int,
{
    let ghost kids_m = c2m.children;
    let ghost cb = content_box(c2m.rect, c2m.padding);
    let ghost d = depth(WidgetModel::Container(c2m));
    let n = kids.len();
    proof {
        lemma_children_depth_nonneg(kids_m);
        lemma_limit_arith(d);
        assert(kids_m.subrange(0, 0) =~= Seq::<WidgetModel>::empty());
    }

    // Sum the children's preferred heights.
    let mut sum_main: i64 = 0;
    let mut j: usize = 0;
    while j < n
        invariant
            c_wf(c2m),
            c2m.direction == Direction::Vertical,
            kids_m == c2m.children,
            n == kids@.len(),
            kids_m.len() == n,
            forall|k: int|
                0 <= k < kids@.len() ==> widget_model(#[trigger] kids@[k]) == kids_m[k],
            j <= n,
            sum_main == sum_pref_h(kids_m.subrange(0, j as int)),
            0 <= sum_main <= PREF_MAX,
        decreases n - j,
    {
        proof {
            assert(wf(kids_m[j as int]));
            lemma_wf_pref_bounded(kids_m[j as int]);
            lemma_pref_prefix_step(kids_m, j as int);
            lemma_pref_prefix_le(kids_m, j as int + 1);
            lemma_seq_pref_nonneg(kids_m.subrange(0, j as int + 1));
        }
        let (_, chj) = kids[j].preferred_size();
        sum_main = sum_main + chj;
        j = j + 1;
    }
    proof {
        assert(kids_m.subrange(0, n as int) =~= kids_m);
    }

    // Flex share of the leftover space.
    proof {
        assert(-0x1000_0000_0000 <= (spacing as int) * (n as int - 1) <= 0x1000_0000_0000)
            by (nonlinear_arith)
            requires
                -SPACING_MAX <= spacing as int <= SPACING_MAX,
                0 <= n as int - 1 < CHILD_MAX,
        ;
    }
    let spacing_total = spacing * ((n as i64) - 1);
    let num = ch - spacing_total - sum_main;
    let extra = div_floor(num, n as i64);
    let ghost extra_m = layout_extra(cb.height, c2m.spacing, n as int, sum_pref_h(kids_m));

    // Walk the children, placing each.
    let mut rest = kids;
    let mut out: Vec<Widget> = Vec::new();
    let mut cursor: i64 = cy;
    let mut i: usize = 0;
    proof {
        assert(widgets_model(out@) =~= Seq::<WidgetModel>::empty());
        assert(laid_prefix(kids_m, c2m, 0) =~= Seq::<WidgetModel>::empty());
    }
    while i < n
        invariant
            anchor is Container,
            anchor->Container_0.children == kids_m,
            c_wf(c2m),
            c2m.direction == Direction::Vertical,
            kids_m == c2m.children,
            kids_m.len() == n,
            1 <= n <= CHILD_MAX,
            d == depth(WidgetModel::Container(c2m)),
            1 <= d <= DEPTH_MAX,
            rect_bounded(c2m.rect, d),
            cb == content_box(c2m.rect, c2m.padding),
            cx == cb.x,
            cy == cb.y,
            cw == cb.width,
            ch == cb.height,
            spacing == c2m.spacing,
            alignment == c2m.alignment,
            sum_main == sum_pref_h(kids_m),
            0 <= sum_main <= PREF_MAX,
            spacing_total == (spacing as int) * (n as int - 1),
            -0x1000_0000_0000 <= spacing_total <= 0x1000_0000_0000,
            num == ch - spacing_total - sum_main,
            extra == num as int / n as int,
            num >= 0 ==> 0 <= extra <= num,
            num < 0 ==> num <= extra <= 0,
            extra == extra_m,
            extra_m == layout_extra(cb.height, c2m.spacing, n as int, sum_pref_h(kids_m)),
            i <= n,
            rest@.len() == n - i,
            forall|k: int|
                0 <= k < rest@.len() ==> widget_model(#[trigger] rest@[k]) == kids_m[i + k],
            out@.len() == i,
            widgets_model(out@) == laid_prefix(kids_m, c2m, i as int),
            cursor == cb.y + sum_pref_h(kids_m.subrange(0, i as int)) + (i as int) * (extra_m
                + c2m.spacing),
        decreases n - i,
    {
        let ghost prev_rest = rest@;
        proof {
            assert(widget_model(rest@[0]) == kids_m[i as int]);
            assert(wf(kids_m[i as int]));
            lemma_wf_pref_bounded(kids_m[i as int]);
            lemma_limit_arith(d);
            lemma_pref_prefix_le(kids_m, i as int);
            lemma_seq_pref_nonneg(kids_m.subrange(0, i as int));
            lemma_flex_bounds(num as int, n as int, extra as int, c2m.spacing, i as int);
        }
        let child = rest.remove(0);
        let (pw, phh) = child.preferred_size();
        let xi: i64 = match alignment {
            Alignment::Start => cx,
            Alignment::Center => cx + div_floor(cw - pw, 2),
            Alignment::End => cx + cw - pw,
        };
        let hi = phh + extra;
        let cr = Rect { x: xi, y: cursor, width: pw, height: hi };
        proof {
            assert(cr@ == child_rect(c2m, i as int));
            lemma_child_depth_le(kids_m, i as int);
            lemma_depth_nonneg(kids_m[i as int]);
            assert(rect_bounded(cr@, d - 1));
            lemma_rect_bounded_mono(cr@, depth(kids_m[i as int]), d - 1);
            lemma_container_child_smaller(anchor, i as int);
        }
        let placed = place_widget(child, cr);
        let ghost prev_out = out@;
        out.push(placed);
        proof {
            assert(out@.drop_last() =~= prev_out);
            assert(out@.last() == placed);
            assert(widgets_model(out@) == widgets_model(prev_out).push(widget_model(placed)));
            assert(widgets_model(out@) == laid_prefix(kids_m, c2m, i as int + 1));
            assert forall|k: int| 0 <= k < rest@.len() implies widget_model(#[trigger] rest@[k])
                == kids_m[i + 1 + k] by {
                assert(rest@[k] == prev_rest[k + 1]);
            }
            lemma_pref_prefix_step(kids_m, i as int);
            lemma_flex_bounds(num as int, n as int, extra as int, c2m.spacing, i as int + 1);
            assert((i as int + 1) * (extra_m + c2m.spacing) == (i as int) * (extra_m + c2m.spacing)
                + (extra_m + c2m.spacing)) by (nonlinear_arith);
        }
        cursor = cursor + phh + extra + spacing;
        i = i + 1;
    }
    out
}

/// Place the children of a horizontal container; the mirror image of
/// [`layout_vertical`] with the axes swapped.
fn layout_horizontal(
    kids: Vec<Widget>,
    Ghost(anchor): Ghost<WidgetModel>,
    Ghost(c2m): Ghost<ContainerModel>,
    cx: i64,
    cy: i64,
    cw: i64,
    ch: i64,
    spacing: i64,
    alignment: Alignment,
) -> (out: Vec<Widget>)
    requires
        anchor is Container,
        anchor->Container_0.children == c2m.children,
        c_wf(c2m),
        c2m.direction == Direction::Horizontal,
        kids@.len() == c2m.children.len(),
        1 <= kids@.len(),
        forall|j: int|
            0 <= j < kids@.len() ==> widget_model(#[trigger] kids@[j]) == c2m.children[j],
        rect_bounded(c2m.rect, depth(WidgetModel::Container(c2m))),
        cx == content_box(c2m.rect, c2m.padding).x,
        cy == content_box(c2m.rect, c2m.padding).y,
        cw == content_box(c2m.rect, c2m.padding).width,
        ch == content_box(c2m.rect, c2m.padding).height,
        spacing == c2m.spacing,
        alignment == c2m.alignment,
    ensures
        widgets_model(out@) == laid_prefix(c2m.children, c2m, c2m.children.len() as int),
    decreases anchor, 0int,
{
    let ghost kids_m = c2m.children;
    let ghost cb = content_box(c2m.rect, c2m.padding);
    let ghost d = depth(WidgetModel::Container(c2m));
    let n = kids.len();
    proof {
        lemma_children_depth_nonneg(kids_m);
        lemma_limit_arith(d);
        assert(kids_m.subrange(0, 0) =~= Seq::<WidgetModel>::empty());
    }

    // Sum the children's preferred widths.
    let mut sum_main: i64 = 0;
    let mut j: usize = 0;
    while j < n
        invariant
            c_wf(c2m),
            c2m.direction == Direction::Horizontal,
            kids_m == c2m.children,
            n == kids@.len(),
            kids_m.len() == n,
            forall|k: int|
                0 <= k < kids@.len() ==> widget_model(#[trigger] kids@[k]) == kids_m[k],
            j <= n,
            sum_main == sum_pref_w(kids_m.subrange(0, j as int)),
            0 <= sum_main <= PREF_MAX,
        decreases n - j,
    {
        proof {
            assert(wf(kids_m[j as int]));
            lemma_wf_pref_bounded(kids_m[j as int]);
            lemma_pref_prefix_step(kids_m, j as int);
            lemma_pref_prefix_le(kids_m, j as int + 1);
            lemma_seq_pref_nonneg(kids_m.subrange(0, j as int + 1));
        }
        let (cwj, _) = kids[j].preferred_size();
        sum_main = sum_main + cwj;
        j = j + 1;
    }
    proof {
        assert(kids_m.subrange(0, n as int) =~= kids_m);
    }

    // Flex share of the leftover space.
    proof {
        assert(-0x1000_0000_0000 <= (spacing as int) * (n as int - 1) <= 0x1000_0000_0000)
            by (nonlinear_arith)
            requires
                -SPACING_MAX <= spacing as int <= SPACING_MAX,
                0 <= n as int - 1 < CHILD_MAX,
        ;
    }
    let spacing_total = spacing * ((n as i64) - 1);
    let num = cw - spacing_total - sum_main;
    let extra = div_floor(num, n as i64);
    let ghost extra_m = layout_extra(cb.width, c2m.spacing, n as int, sum_pref_w(kids_m));

    // Walk the children, placing each.
    let mut rest = kids;
    let mut out: Vec<Widget> = Vec::new();
    let mut cursor: i64 = cx;
    let mut i: usize = 0;
    proof {
        assert(widgets_model(out@) =~= Seq::<WidgetModel>::empty());
        assert(laid_prefix(kids_m, c2m, 0) =~= Seq::<WidgetModel>::empty());
    }
    while i < n
        invariant
            anchor is Container,
            anchor->Container_0.children == kids_m,
            c_wf(c2m),
            c2m.direction == Direction::Horizontal,
            kids_m == c2m.children,
            kids_m.len() == n,
            1 <= n <= CHILD_MAX,
            d == depth(WidgetModel::Container(c2m)),
            1 <= d <= DEPTH_MAX,
            rect_bounded(c2m.rect, d),
            cb == content_box(c2m.rect, c2m.padding),
            cx == cb.x,
            cy == cb.y,
            cw == cb.width,
            ch == cb.height,
            spacing == c2m.spacing,
            alignment == c2m.alignment,
            sum_main == sum_pref_w(kids_m),
            0 <= sum_main <= PREF_MAX,
            spacing_total == (spacing as int) * (n as int - 1),
            -0x1000_0000_0000 <= spacing_total <= 0x1000_0000_0000,
            num == cw - spacing_total - sum_main,
            extra == num as int / n as int,
            num >= 0 ==> 0 <= extra <= num,
            num < 0 ==> num <= extra <= 0,
            extra == extra_m,
            extra_m == layout_extra(cb.width, c2m.spacing, n as int, sum_pref_w(kids_m)),
            i <= n,
            rest@.len() == n - i,
            forall|k: int|
                0 <= k < rest@.len() ==> widget_model(#[trigger] rest@[k]) == kids_m[i + k],
            out@.len() == i,
            widgets_model(out@) == laid_prefix(kids_m, c2m, i as int),
            cursor == cb.x + sum_pref_w(kids_m.subrange(0, i as int)) + (i as int) * (extra_m
                + c2m.spacing),
        decreases n - i,
    {
        let ghost prev_rest = rest@;
        proof {
            assert(widget_model(rest@[0]) == kids_m[i as int]);
            assert(wf(kids_m[i as int]));
            lemma_wf_pref_bounded(kids_m[i as int]);
            lemma_limit_arith(d);
            lemma_pref_prefix_le(kids_m, i as int);
            lemma_seq_pref_nonneg(kids_m.subrange(0, i as int));
            lemma_flex_bounds(num as int, n as int, extra as int, c2m.spacing, i as int);
        }
        let child = rest.remove(0);
        let (pw, phh) = child.preferred_size();
        let yi: i64 = match alignment {
            Alignment::Start => cy,
            Alignment::Center => cy + div_floor(ch - phh, 2),
            Alignment::End => cy + ch - phh,
        };
        let wi = pw + extra;
        let cr = Rect { x: cursor, y: yi, width: wi, height: phh };
        proof {
            assert(cr@ == child_rect(c2m, i as int));
            lemma_child_depth_le(kids_m, i as int);
            lemma_depth_nonneg(kids_m[i as int]);
            assert(rect_bounded(cr@, d - 1));
            lemma_rect_bounded_mono(cr@, depth(kids_m[i as int]), d - 1);
            lemma_container_child_smaller(anchor, i as int);
        }
        let placed = place_widget(child, cr);
        let ghost prev_out = out@;
        out.push(placed);
        proof {
            assert(out@.drop_last() =~= prev_out);
            assert(out@.last() == placed);
            assert(widgets_model(out@) == widgets_model(prev_out).push(widget_model(placed)));
            assert(widgets_model(out@) == laid_prefix(kids_m, c2m, i as int + 1));
            assert forall|k: int| 0 <= k < rest@.len() implies widget_model(#[trigger] rest@[k])
                == kids_m[i + 1 + k] by {
                assert(rest@[k] == prev_rest[k + 1]);
            }
            lemma_pref_prefix_step(kids_m, i as int);
            lemma_flex_bounds(num as int, n as int, extra as int, c2m.spacing, i as int + 1);
            assert((i as int + 1) * (extra_m + c2m.spacing) == (i as int) * (extra_m + c2m.spacing)
                + (extra_m + c2m.spacing)) by (nonlinear_arith);
        }
        cursor = cursor + pw + extra + spacing;
        i = i + 1;
    }
    out
}

/// Assign a rectangle to a widget: store it, and if the widget is a
/// container, lay its children out inside it.
fn place_widget(w: Widget, rect: Rect) -> (res: Widget)
    requires
        wf(w@),
        rect_bounded(rect@, depth(w@)),
    ensures
        res@ == apply_rect(w@, rect@),
    decreases w@, 1int,
{
    let ghost wm = w@;
    match w {
        Widget::Button(b) => Widget::Button(Button { rect, ..b }),
        Widget::Text(t) => Widget::Text(Text { rect, ..t }),
        Widget::Container(c) => {
            let Container { rect: _, padding, children, direction, alignment, spacing } = c;
            let ghost cm = wm->Container_0;
            let ghost c2m = ContainerModel { rect: rect@, ..cm };
            proof {
                lemma_widgets_model(children@);
                assert(c2m.children == cm.children);
                assert(pref_w(WidgetModel::Container(c2m)) == pref_w(WidgetModel::Container(cm)));
                assert(pref_h(WidgetModel::Container(c2m)) == pref_h(WidgetModel::Container(cm)));
                assert(depth(WidgetModel::Container(c2m)) == depth(WidgetModel::Container(cm)));
                assert(c_wf(c2m) == c_wf(cm)) by {
                    if c_wf(cm) {
                        assert(forall|i: int|
                            0 <= i < c2m.children.len() ==> wf(#[trigger] c2m.children[i]));
                    }
                    if c_wf(c2m) {
                        assert(forall|i: int|
                            0 <= i < cm.children.len() ==> wf(#[trigger] cm.children[i]));
                    }
                }
                lemma_wf_depth(wm);
                lemma_children_depth_nonneg(cm.children);
                lemma_limit_arith(depth(wm));
            }
            let cx = rect.x + padding.left;
            let cy = rect.y + padding.top;
            let cw = rect.width - (padding.left + padding.right);
            let ch = rect.height - (padding.top + padding.bottom);
            if children.len() == 0 {
                let res = Container { rect, padding, children, direction, alignment, spacing };
                proof {
                    assert(container_model(res).children =~= laid_prefix(
                        cm.children,
                        c2m,
                        cm.children.len() as int,
                    ));
                    assert(container_model(res) == layout_container(cm, rect@));
                }
                Widget::Container(res)
            } else {
                let out = match direction {
                    Direction::Vertical => layout_vertical(
                        children,
                        Ghost(wm),
                        Ghost(c2m),
                        cx,
                        cy,
                        cw,
                        ch,
                        spacing,
                        alignment,
                    ),
                    Direction::Horizontal => layout_horizontal(
                        children,
                        Ghost(wm),
                        Ghost(c2m),
                        cx,
                        cy,
                        cw,
                        ch,
                        spacing,
                        alignment,
                    ),
                };
                let res = Container { rect, padding, children: out, direction, alignment, spacing };
                proof {
                    assert(container_model(res) == layout_container(cm, rect@));
                }
                Widget::Container(res)
            }
        },
    }
}

impl Widget {
    /// Move or resize this widget; on a container this re-runs the layout of
    /// the whole subtree. The sole sanctioned way to change geometry.
    pub fn set_rect(&mut self, rect: Rect)
        requires
            wf(old(self)@),
            rect_bounded(rect@, DEPTH_MAX as int),
        ensures
            final(self)@ == apply_rect(old(self)@, rect@),
            wf(final(self)@),
    {
        proof {
            lemma_wf_depth(old(self)@);
            lemma_rect_bounded_mono(rect@, depth(old(self)@), DEPTH_MAX as int);
            reveal_strlit("");
        }
        let mut tmp = Widget::Text(Text::new(0, 0, ""));
        core::mem::swap(self, &mut tmp);
        let res = place_widget(tmp, rect);
        proof {
            lemma_apply_rect_preserves(old(self)@, rect@);
        }
        *self = res;
    }
}

impl Container {
    /// Move or resize this container and re-run the layout of its children
    /// inside the new rectangle.
    pub fn set_rect(&mut self, rect: Rect)
        requires
            c_wf(old(self)@),
            rect_bounded(rect@, DEPTH_MAX as int),
        ensures
            final(self)@ == layout_container(old(self)@, rect@),
            c_wf(final(self)@),
    {
        proof {
            lemma_wf_depth(WidgetModel::Container(old(self)@));
            lemma_rect_bounded_mono(
                rect@,
                depth(WidgetModel::Container(old(self)@)),
                DEPTH_MAX as int,
            );
        }
        let mut tmp = Container::new(0, 0, 0, 0);
        core::mem::swap(self, &mut tmp);
        let res = place_widget(Widget::Container(tmp), rect);
        proof {
            lemma_apply_rect_preserves(WidgetModel::Container(old(self)@), rect@);
        }
        match res {
            Widget::Container(c) => {
                *self = c;
            },
            _ => {
                proof {
                    assert(false);
                }
            },
        }
    }

    /// Append a child and re-run the layout inside the current rectangle.
    pub fn add_child(&mut self, widget: Widget)
        requires
            c_wf(pushed(old(self)@, widget@)),
            rect_bounded(old(self)@.rect, DEPTH_MAX as int),
        ensures
            final(self)@ == layout_container(pushed(old(self)@, widget@), old(self)@.rect),
            c_wf(final(self)@),
    {
        let r = self.get_rect();
        let ghost pm = pushed(old(self)@, widget@);
        let ghost prev_kids = self.children@;
        self.children.push(widget);
        proof {
            lemma_widgets_model(prev_kids);
            lemma_widgets_model(self.children@);
            assert(self.children@.drop_last() =~= prev_kids);
            assert(widgets_model(self.children@) =~= pm.children);
            assert(self@ == pm);
        }
        self.set_rect(r);
    }

    /// Append a child and re-run the layout; alias of [`Self::add_child`].
    pub fn add_widget(&mut self, widget: Widget)
        requires
            c_wf(pushed(old(self)@, widget@)),
            rect_bounded(old(self)@.rect, DEPTH_MAX as int),
        ensures
            final(self)@ == layout_container(pushed(old(self)@, widget@), old(self)@.rect),
            c_wf(final(self)@),
    {
        self.add_child(widget);
    }
}

} // verus!
