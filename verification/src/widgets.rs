//! The closed set of widget variants — button, text and container — together
//! with their mathematical models, the well-formedness predicate that layout
//! and rendering rely on, and preferred-size computation.
//!
//! A widget's *preferred size* is its natural size absent space constraints:
//! fixed for a button, derived from the content and the glyph cell for a text,
//! and derived from the children (sum along the main axis, maximum across it)
//! for a container.

use vstd::prelude::*;
use vstd::string::StrSliceExecFns;
use crate::geometry::{Alignment, Direction, Padding, PaddingModel, Rect, RectModel};
use crate::limits::{CHILD_MAX, DEPTH_MAX, PAD_MAX, PREF_MAX, SPACING_MAX, TEXT_MAX};
use crate::renderer::Rgba;

verus! {

/// Width of one glyph cell of the fixed bitmap font.
pub const GLYPH_WIDTH: i64 = 8;

/// Height of one glyph cell of the fixed bitmap font.
pub const GLYPH_HEIGHT: i64 = 8;

/// Preferred width of a button.
pub const BUTTON_PREF_WIDTH: i64 = 200;

/// Preferred height of a button.
pub const BUTTON_PREF_HEIGHT: i64 = 50;

/// A clickable button with a label, transient hover/press state and an
/// optional click handler, carried as an opaque handler id that the host
/// resolves to a callback.
pub struct Button {
    pub rect: Rect,
    pub label: String,
    pub is_hovered: bool,
    pub is_pressed: bool,
    pub on_click: Option<u64>,
}

/// Mathematical model of a `Button`.
pub struct ButtonModel {
    pub rect: RectModel,
    pub label: Seq<char>,
    pub is_hovered: bool,
    pub is_pressed: bool,
    pub on_click: Option<u64>,
}

impl View for Button {
    type V = ButtonModel;

    open spec fn view(&self) -> ButtonModel {
        ButtonModel {
            rect: self.rect@,
            label: self.label@,
            is_hovered: self.is_hovered,
            is_pressed: self.is_pressed,
            on_click: self.on_click,
        }
    }
}

/// A static line of text with a color.
pub struct Text {
    pub rect: Rect,
    pub content: String,
    pub color: Rgba,
}

/// Mathematical model of a `Text`.
pub struct TextModel {
    pub rect: RectModel,
    pub content: Seq<char>,
    pub color: Rgba,
}

impl View for Text {
    type V = TextModel;

    open spec fn view(&self) -> TextModel {
        TextModel { rect: self.rect@, content: self.content@, color: self.color }
    }
}

/// A widget that owns an ordered sequence of children and places them inside
/// its own rectangle; the order of `children` is both the layout order along
/// the main axis and the paint order.
pub struct Container {
    pub rect: Rect,
    pub padding: Padding,
    pub children: Vec<Widget>,
    pub direction: Direction,
    pub alignment: Alignment,
    pub spacing: i64,
}

/// Mathematical model of a `Container`.
pub struct ContainerModel {
    pub rect: RectModel,
    pub padding: PaddingModel,
    pub children: Seq<WidgetModel>,
    pub direction: Direction,
    pub alignment: Alignment,
    pub spacing: int,
}

/// The closed set of widget variants. A container is itself a widget, so
/// trees of arbitrary nesting can be built; exclusive ownership of the
/// children rules out cycles by construction.
pub enum Widget {
    Button(Button),
    Text(Text),
    Container(Container),
}

/// Mathematical model of a `Widget`.
pub enum WidgetModel {
    Button(ButtonModel),
    Text(TextModel),
    Container(ContainerModel),
}

/// Model of a widget: leaves through their own views, containers recursively.
pub open spec fn widget_model(w: Widget) -> WidgetModel
    decreases w,
{
    match w {
        Widget::Button(b) => WidgetModel::Button(b@),
        Widget::Text(t) => WidgetModel::Text(t@),
        Widget::Container(c) => WidgetModel::Container(container_model(c)),
    }
}

/// Models of a sequence of widgets, element by element.
pub open spec fn widgets_model(s: Seq<Widget>) -> Seq<WidgetModel>
    decreases s,
{
    if s.len() == 0 {
        Seq::empty()
    } else {
        widgets_model(s.drop_last()).push(widget_model(s.last()))
    }
}

/// `widgets_model` maps the sequence pointwise.
pub broadcast proof fn lemma_widgets_model(s: Seq<Widget>)
    ensures
        (#[trigger] widgets_model(s)).len() == s.len(),
        forall|i: int| 0 <= i < s.len() ==> widgets_model(s)[i] == widget_model(s[i]),
    decreases s,
{
    if s.len() > 0 {
        lemma_widgets_model(s.drop_last());
        assert forall|i: int| 0 <= i < s.len() implies widgets_model(s)[i] == widget_model(s[i]) by {
            if i < s.len() - 1 {
                assert(s.drop_last()[i] == s[i]);
            }
        }
    }
}

/// Model of a container, with each child modelled in turn.
pub open spec fn container_model(c: Container) -> ContainerModel
    decreases c,
{
    ContainerModel {
        rect: c.rect@,
        padding: c.padding@,
        children: widgets_model(c.children@),
        direction: c.direction,
        alignment: c.alignment,
        spacing: c.spacing as int,
    }
}

impl View for Widget {
    type V = WidgetModel;

    open spec fn view(&self) -> WidgetModel {
        widget_model(*self)
    }
}

impl View for Container {
    type V = ContainerModel;

    open spec fn view(&self) -> ContainerModel {
        container_model(*self)
    }
}

/// The rectangle currently assigned to a widget.
pub open spec fn rect_of(w: WidgetModel) -> RectModel {
    match w {
        WidgetModel::Button(b) => b.rect,
        WidgetModel::Text(t) => t.rect,
        WidgetModel::Container(c) => c.rect,
    }
}

/// Preferred width of a widget.
pub open spec fn pref_w(w: WidgetModel) -> int
    decreases w,
{
    match w {
        WidgetModel::Button(_) => BUTTON_PREF_WIDTH as int,
        WidgetModel::Text(t) => GLYPH_WIDTH * t.content.len(),
        WidgetModel::Container(c) => match c.direction {
            Direction::Horizontal => sum_pref_w(c.children),
            Direction::Vertical => max_pref_w(c.children),
        },
    }
}

/// Preferred height of a widget.
pub open spec fn pref_h(w: WidgetModel) -> int
    decreases w,
{
    match w {
        WidgetModel::Button(_) => BUTTON_PREF_HEIGHT as int,
        WidgetModel::Text(t) => GLYPH_HEIGHT as int,
        WidgetModel::Container(c) => match c.direction {
            Direction::Horizontal => max_pref_h(c.children),
            Direction::Vertical => sum_pref_h(c.children),
        },
    }
}

/// Sum of the children's preferred widths.
pub open spec fn sum_pref_w(s: Seq<WidgetModel>) -> int
    decreases s,
{
    if s.len() == 0 {
        0
    } else {
        sum_pref_w(s.drop_last()) + pref_w(s.last())
    }
}

/// Sum of the children's preferred heights.
pub open spec fn sum_pref_h(s: Seq<WidgetModel>) -> int
    decreases s,
{
    if s.len() == 0 {
        0
    } else {
        sum_pref_h(s.drop_last()) + pref_h(s.last())
    }
}

/// Maximum of the children's preferred widths, zero for no children.
pub open spec fn max_pref_w(s: Seq<WidgetModel>) -> int
    decreases s,
{
    if s.len() == 0 {
        0
    } else {
        let m = max_pref_w(s.drop_last());
        let p = pref_w(s.last());
        if p > m {
            p
        } else {
            m
        }
    }
}

/// Maximum of the children's preferred heights, zero for no children.
pub open spec fn max_pref_h(s: Seq<WidgetModel>) -> int
    decreases s,
{
    if s.len() == 0 {
        0
    } else {
        let m = max_pref_h(s.drop_last());
        let p = pref_h(s.last());
        if p > m {
            p
        } else {
            m
        }
    }
}

/// Nesting depth of a widget: zero for leaves.
pub open spec fn depth(w: WidgetModel) -> int
    decreases w,
{
    match w {
        WidgetModel::Button(_) => 0,
        WidgetModel::Text(_) => 0,
        WidgetModel::Container(c) => 1 + children_depth(c.children),
    }
}

/// Greatest depth among a sequence of widgets, zero for none.
pub open spec fn children_depth(s: Seq<WidgetModel>) -> int
    decreases s,
{
    if s.len() == 0 {
        0
    } else {
        let m = children_depth(s.drop_last());
        let d = depth(s.last());
        if d > m {
            d
        } else {
            m
        }
    }
}

/// Well-formedness of a widget tree: contents and children counts small
/// enough that preferred sizes and layout positions provably fit in `i64`.
pub open spec fn wf(w: WidgetModel) -> bool
    decreases w,
{
    match w {
        WidgetModel::Button(b) => b.label.len() <= TEXT_MAX,
        WidgetModel::Text(t) => t.content.len() <= TEXT_MAX,
        WidgetModel::Container(c) => {
            &&& c.children.len() <= CHILD_MAX
            &&& -PAD_MAX <= c.padding.left <= PAD_MAX
            &&& -PAD_MAX <= c.padding.right <= PAD_MAX
            &&& -PAD_MAX <= c.padding.top <= PAD_MAX
            &&& -PAD_MAX <= c.padding.bottom <= PAD_MAX
            &&& -SPACING_MAX <= c.spacing <= SPACING_MAX
            &&& pref_w(WidgetModel::Container(c)) <= PREF_MAX
            &&& pref_h(WidgetModel::Container(c)) <= PREF_MAX
            &&& depth(WidgetModel::Container(c)) <= DEPTH_MAX
            &&& forall|i: int| 0 <= i < c.children.len() ==> wf(#[trigger] c.children[i])
        },
    }
}

/// Well-formedness of a container, seen as a widget.
pub open spec fn c_wf(c: ContainerModel) -> bool {
    wf(WidgetModel::Container(c))
}

/// Preferred sizes are never negative.
pub proof fn lemma_pref_nonneg(w: WidgetModel)
    ensures
        pref_w(w) >= 0,
        pref_h(w) >= 0,
    decreases w,
{
    match w {
        WidgetModel::Container(c) => lemma_seq_pref_nonneg(c.children),
        _ => {},
    }
}

/// Sums and maxima of preferred sizes are never negative.
pub proof fn lemma_seq_pref_nonneg(s: Seq<WidgetModel>)
    ensures
        sum_pref_w(s) >= 0,
        sum_pref_h(s) >= 0,
        max_pref_w(s) >= 0,
        max_pref_h(s) >= 0,
    decreases s,
{
    if s.len() > 0 {
        lemma_seq_pref_nonneg(s.drop_last());
        lemma_pref_nonneg(s.last());
    }
}

/// A well-formed widget's preferred sizes lie between zero and `PREF_MAX`.
pub proof fn lemma_wf_pref_bounded(w: WidgetModel)
    requires
        wf(w),
    ensures
        0 <= pref_w(w) <= PREF_MAX,
        0 <= pref_h(w) <= PREF_MAX,
{
    lemma_pref_nonneg(w);
    match w {
        WidgetModel::Text(t) => {
            assert(GLYPH_WIDTH * t.content.len() <= GLYPH_WIDTH * TEXT_MAX) by (nonlinear_arith)
                requires t.content.len() <= TEXT_MAX && GLYPH_WIDTH >= 0;
        },
        _ => {},
    }
}

/// Extending a prefix by one element adds that element's preferred sizes to
/// the prefix sums and folds them into the prefix maxima.
pub proof fn lemma_pref_prefix_step(s: Seq<WidgetModel>, i: int)
    requires
        0 <= i < s.len(),
    ensures
        sum_pref_w(s.subrange(0, i + 1)) == sum_pref_w(s.subrange(0, i)) + pref_w(s[i]),
        sum_pref_h(s.subrange(0, i + 1)) == sum_pref_h(s.subrange(0, i)) + pref_h(s[i]),
        max_pref_w(s.subrange(0, i + 1)) == if pref_w(s[i]) > max_pref_w(s.subrange(0, i)) {
            pref_w(s[i])
        } else {
            max_pref_w(s.subrange(0, i))
        },
        max_pref_h(s.subrange(0, i + 1)) == if pref_h(s[i]) > max_pref_h(s.subrange(0, i)) {
            pref_h(s[i])
        } else {
            max_pref_h(s.subrange(0, i))
        },
{
    assert(s.subrange(0, i + 1).drop_last() =~= s.subrange(0, i));
    assert(s.subrange(0, i + 1).last() == s[i]);
}

/// Prefix sums and maxima never exceed those of the whole sequence.
pub proof fn lemma_pref_prefix_le(s: Seq<WidgetModel>, i: int)
    requires
        0 <= i <= s.len(),
    ensures
        sum_pref_w(s.subrange(0, i)) <= sum_pref_w(s),
        sum_pref_h(s.subrange(0, i)) <= sum_pref_h(s),
        max_pref_w(s.subrange(0, i)) <= max_pref_w(s),
        max_pref_h(s.subrange(0, i)) <= max_pref_h(s),
    decreases s.len() - i,
{
    if i == s.len() {
        assert(s.subrange(0, i) =~= s);
    } else {
        lemma_pref_prefix_step(s, i);
        lemma_pref_nonneg(s[i]);
        lemma_pref_prefix_le(s, i + 1);
    }
}

/// With no negative preferred sizes, a maximum never exceeds the sum.
pub proof fn lemma_max_le_sum(s: Seq<WidgetModel>)
    ensures
        max_pref_w(s) <= sum_pref_w(s),
        max_pref_h(s) <= sum_pref_h(s),
    decreases s,
{
    if s.len() > 0 {
        lemma_max_le_sum(s.drop_last());
        lemma_pref_nonneg(s.last());
        lemma_seq_pref_nonneg(s.drop_last());
    }
}

/// Depths are never negative.
pub proof fn lemma_depth_nonneg(w: WidgetModel)
    ensures
        depth(w) >= 0,
    decreases w,
{
    match w {
        WidgetModel::Container(c) => lemma_children_depth_nonneg(c.children),
        _ => {},
    }
}

/// Greatest child depth is never negative.
pub proof fn lemma_children_depth_nonneg(s: Seq<WidgetModel>)
    ensures
        children_depth(s) >= 0,
    decreases s,
{
    if s.len() > 0 {
        lemma_children_depth_nonneg(s.drop_last());
    }
}

/// Each element's depth is bounded by the greatest depth of the sequence.
pub proof fn lemma_child_depth_le(s: Seq<WidgetModel>, i: int)
    requires
        0 <= i < s.len(),
    ensures
        depth(s[i]) <= children_depth(s),
    decreases s.len(),
{
    if i == s.len() - 1 {
    } else {
        lemma_child_depth_le(s.drop_last(), i);
        assert(s.drop_last()[i] == s[i]);
    }
}

impl Button {
    /// A button at the given rectangle with the given label, initially
    /// neither hovered nor pressed and with no click handler.
    pub fn new(x: i64, y: i64, width: i64, height: i64, label: &str) -> (b: Button)
        requires
            label@.len() <= TEXT_MAX,
        ensures
            b@ == (ButtonModel {
                rect: RectModel { x: x as int, y: y as int, width: width as int, height: height as int },
                label: label@,
                is_hovered: false,
                is_pressed: false,
                on_click: None::<u64>,
            }),
    {
        Button {
            rect: Rect { x, y, width, height },
            label: label.to_owned(),
            is_hovered: false,
            is_pressed: false,
            on_click: None,
        }
    }

    /// The rectangle this button currently occupies.
    pub fn get_rect(&self) -> (r: Rect)
        ensures
            r@ == self@.rect,
    {
        self.rect
    }

    /// Move or resize this button; a leaf stores the rectangle as given.
    pub fn set_rect(&mut self, rect: Rect)
        ensures
            final(self)@ == (ButtonModel { rect: rect@, ..old(self)@ }),
    {
        self.rect = rect;
    }

    /// The fixed nominal size a button prefers.
    pub fn preferred_size(&self) -> (s: (i64, i64))
        ensures
            s.0 == BUTTON_PREF_WIDTH,
            s.1 == BUTTON_PREF_HEIGHT,
    {
        (BUTTON_PREF_WIDTH, BUTTON_PREF_HEIGHT)
    }

    /// Attach a click handler, named by an opaque id the host resolves.
    pub fn on_click(self, handler: u64) -> (b: Button)
        ensures
            b@ == (ButtonModel { on_click: Some(handler), ..self@ }),
    {
        Button { on_click: Some(handler), ..self }
    }
}

impl Text {
    /// A text widget whose rectangle is derived from the content length and
    /// the fixed glyph cell; initially white.
    pub fn new(x: i64, y: i64, content: &str) -> (t: Text)
        requires
            content@.len() <= TEXT_MAX,
        ensures
            t@ == (TextModel {
                rect: RectModel {
                    x: x as int,
                    y: y as int,
                    width: GLYPH_WIDTH * content@.len(),
                    height: GLYPH_HEIGHT as int,
                },
                content: content@,
                color: Rgba { r: 255, g: 255, b: 255, a: 255 },
            }),
    {
        let len = content.unicode_len();
        proof {
            assert(GLYPH_WIDTH * content@.len() <= GLYPH_WIDTH * TEXT_MAX) by (nonlinear_arith)
                requires content@.len() <= TEXT_MAX && GLYPH_WIDTH >= 0;
            assert(GLYPH_WIDTH * content@.len() >= 0) by (nonlinear_arith)
                requires content@.len() >= 0 && GLYPH_WIDTH >= 0;
        }
        Text {
            rect: Rect { x, y, width: (len as i64) * GLYPH_WIDTH, height: GLYPH_HEIGHT },
            content: content.to_owned(),
            color: Rgba { r: 255, g: 255, b: 255, a: 255 },
        }
    }

    /// The rectangle this text currently occupies.
    pub fn get_rect(&self) -> (r: Rect)
        ensures
            r@ == self@.rect,
    {
        self.rect
    }

    /// Move or resize this text; a leaf stores the rectangle as given.
    pub fn set_rect(&mut self, rect: Rect)
        ensures
            final(self)@ == (TextModel { rect: rect@, ..old(self)@ }),
    {
        self.rect = rect;
    }

    /// The size this text prefers: its content at one glyph cell per
    /// character, recomputed from the current content.
    pub fn preferred_size(&self) -> (s: (i64, i64))
        requires
            self@.content.len() <= TEXT_MAX,
        ensures
            s.0 == GLYPH_WIDTH * self@.content.len(),
            s.1 == GLYPH_HEIGHT,
    {
        let len = self.content.as_str().unicode_len();
        proof {
            assert(GLYPH_WIDTH * self@.content.len() <= GLYPH_WIDTH * TEXT_MAX) by (nonlinear_arith)
                requires self@.content.len() <= TEXT_MAX && GLYPH_WIDTH >= 0;
            assert(GLYPH_WIDTH * self@.content.len() >= 0) by (nonlinear_arith)
                requires self@.content.len() >= 0 && GLYPH_WIDTH >= 0;
        }
        ((len as i64) * GLYPH_WIDTH, GLYPH_HEIGHT)
    }

    /// The same text in another color.
    pub fn with_color(self, color: Rgba) -> (t: Text)
        ensures
            t@ == (TextModel { color, ..self@ }),
    {
        Text { color, ..self }
    }
}

impl Container {
    /// An empty container at the given rectangle with the default
    /// configuration: vertical, start-aligned, padding 10, spacing 5.
    pub fn new(x: i64, y: i64, width: i64, height: i64) -> (c: Container)
        ensures
            c@ == (ContainerModel {
                rect: RectModel { x: x as int, y: y as int, width: width as int, height: height as int },
                padding: PaddingModel { left: 10, right: 10, top: 10, bottom: 10 },
                children: Seq::<WidgetModel>::empty(),
                direction: Direction::Vertical,
                alignment: Alignment::Start,
                spacing: 5,
            }),
            c_wf(c@),
    {
        let c = Container {
            rect: Rect { x, y, width, height },
            padding: Padding::all(10),
            children: Vec::new(),
            direction: Direction::Vertical,
            alignment: Alignment::Start,
            spacing: 5,
        };
        proof {
            assert(c@.children =~= Seq::<WidgetModel>::empty());
        }
        c
    }

    /// The same container laying its children along the given axis.
    pub fn with_direction(self, direction: Direction) -> (c: Container)
        ensures
            c@ == (ContainerModel { direction, ..self@ }),
    {
        let c = Container { direction, ..self };
        proof {
            assert(c@.children =~= self@.children);
        }
        c
    }

    /// The same container with the given padding.
    pub fn with_padding(self, padding: Padding) -> (c: Container)
        ensures
            c@ == (ContainerModel { padding: padding@, ..self@ }),
    {
        let c = Container { padding, ..self };
        proof {
            assert(c@.children =~= self@.children);
        }
        c
    }

    /// The same container with the given cross-axis alignment.
    pub fn with_alignment(self, alignment: Alignment) -> (c: Container)
        ensures
            c@ == (ContainerModel { alignment, ..self@ }),
    {
        let c = Container { alignment, ..self };
        proof {
            assert(c@.children =~= self@.children);
        }
        c
    }

    /// The same container with the given inter-child spacing.
    pub fn with_spacing(self, spacing: i64) -> (c: Container)
        ensures
            c@ == (ContainerModel { spacing: spacing as int, ..self@ }),
    {
        let c = Container { spacing, ..self };
        proof {
            assert(c@.children =~= self@.children);
        }
        c
    }

    /// The rectangle this container currently occupies.
    pub fn get_rect(&self) -> (r: Rect)
        ensures
            r@ == self@.rect,
    {
        self.rect
    }

    /// Preferred size of this container, derived from the children on every
    /// call: sum of preferred sizes along the main axis, maximum across it.
    pub fn preferred_size(&self) -> (s: (i64, i64))
        requires
            c_wf(self@),
        ensures
            s.0 == pref_w(WidgetModel::Container(self@)),
            s.1 == pref_h(WidgetModel::Container(self@)),
        decreases self@,
    {
        let ghost cm = self@;
        let ghost kids = cm.children;
        let mut main: i64 = 0;
        let mut cross: i64 = 0;
        let n = self.children.len();
        proof {
            lemma_widgets_model(self.children@);
            assert(kids.subrange(0, 0) =~= Seq::<WidgetModel>::empty());
        }
        let mut i: usize = 0;
        while i < n
            invariant
                n == self.children.len(),
                kids == self@.children,
                cm == self@,
                c_wf(self@),
                i <= n,
                kids.len() == n,
                0 <= main <= PREF_MAX,
                0 <= cross <= PREF_MAX,
                main == match cm.direction {
                    Direction::Horizontal => sum_pref_w(kids.subrange(0, i as int)),
                    Direction::Vertical => sum_pref_h(kids.subrange(0, i as int)),
                },
                cross == match cm.direction {
                    Direction::Horizontal => max_pref_h(kids.subrange(0, i as int)),
                    Direction::Vertical => max_pref_w(kids.subrange(0, i as int)),
                },
            decreases n - i,
        {
            let child = &self.children[i];
            proof {
                lemma_widgets_model(self.children@);
                assert(child@ == kids[i as int]);
                assert(wf(kids[i as int]));
                lemma_wf_pref_bounded(kids[i as int]);
                lemma_pref_prefix_step(kids, i as int);
                lemma_pref_prefix_le(kids, i as int + 1);
                assert(c_wf(cm));
                lemma_seq_pref_nonneg(kids.subrange(0, i as int + 1));
            }
            let (cw, ch) = child.preferred_size();
            match self.direction {
                Direction::Horizontal => {
                    main = main + cw;
                    if ch > cross {
                        cross = ch;
                    }
                },
                Direction::Vertical => {
                    main = main + ch;
                    if cw > cross {
                        cross = cw;
                    }
                },
            }
            i = i + 1;
        }
        proof {
            assert(kids.subrange(0, n as int) =~= kids);
        }
        match self.direction {
            Direction::Horizontal => (main, cross),
            Direction::Vertical => (cross, main),
        }
    }
}

impl Widget {
    /// The rectangle this widget currently occupies.
    pub fn get_rect(&self) -> (r: Rect)
        ensures
            r@ == rect_of(self@),
    {
        match self {
            Widget::Button(b) => b.rect,
            Widget::Text(t) => t.rect,
            Widget::Container(c) => c.rect,
        }
    }

    /// Preferred size of this widget.
    pub fn preferred_size(&self) -> (s: (i64, i64))
        requires
            wf(self@),
        ensures
            s.0 == pref_w(self@),
            s.1 == pref_h(self@),
        decreases self@,
    {
        match self {
            Widget::Button(_) => (BUTTON_PREF_WIDTH, BUTTON_PREF_HEIGHT),
            Widget::Text(t) => {
                let len = t.content.as_str().unicode_len();
                proof {
                    assert(GLYPH_WIDTH * t.content@.len() <= GLYPH_WIDTH * TEXT_MAX) by (nonlinear_arith)
                        requires t.content@.len() <= TEXT_MAX && GLYPH_WIDTH >= 0;
                    assert(GLYPH_WIDTH * t.content@.len() >= 0) by (nonlinear_arith)
                        requires t.content@.len() >= 0 && GLYPH_WIDTH >= 0;
                }
                ((len as i64) * GLYPH_WIDTH, GLYPH_HEIGHT)
            },
            Widget::Container(c) => c.preferred_size(),
        }
    }
}

} // verus!
