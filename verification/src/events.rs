//! Input handling. Events travel from the host loop down through containers
//! into every child, depth-first in child order. Only buttons carry
//! interaction state: hover follows the pointer against the current
//! rectangle, a press arms only while hovered, and a release fires the click
//! handler only when still hovered, clearing the pressed flag either way.
//!
//! Handling an event mutates interaction state only — never geometry — and
//! returns the handler ids fired, in tree order, for the host to invoke.

use vstd::prelude::*;
use crate::geometry::rect_contains;
use crate::layout::lemma_seq_measures_congruent;
use crate::widgets::{
    container_model, depth, lemma_widgets_model, pref_h, pref_w, rect_of, wf, widget_model,
    widgets_model, Button, ButtonModel, Container, ContainerModel, Text, Widget, WidgetModel,
};

verus! {

/// The pointer events the widgets understand: motion in logical coordinates,
/// and press / release of the primary button.
#[derive(Clone, Copy, Debug, PartialEq, Eq, Structural)]
pub enum InputEvent {
    PointerMoved { x: i64, y: i64 },
    PointerDown,
    PointerUp,
}

/// Button state after one event: motion recomputes hover against the current
/// rectangle; a press arms the button only while hovered; a release always
/// disarms it.
pub open spec fn button_after_event(b: ButtonModel, e: InputEvent) -> ButtonModel {
    match e {
        InputEvent::PointerMoved { x, y } => ButtonModel {
            is_hovered: rect_contains(b.rect, x as int, y as int),
            ..b
        },
        InputEvent::PointerDown => ButtonModel { is_pressed: b.is_pressed || b.is_hovered, ..b },
        InputEvent::PointerUp => ButtonModel { is_pressed: false, ..b },
    }
}

/// The handler a button fires on an event: its click handler, exactly when a
/// release finds it both pressed and hovered.
pub open spec fn button_fired(b: ButtonModel, e: InputEvent) -> Seq<u64> {
    if e is PointerUp && b.is_pressed && b.is_hovered && b.on_click is Some {
        seq![b.on_click->0]
    } else {
        Seq::empty()
    }
}

/// A widget after one event; text is inert, containers forward to children.
pub open spec fn widget_after_event(w: WidgetModel, e: InputEvent) -> WidgetModel
    decreases w, 1int,
{
    match w {
        WidgetModel::Button(b) => WidgetModel::Button(button_after_event(b, e)),
        WidgetModel::Text(t) => WidgetModel::Text(t),
        WidgetModel::Container(c) => WidgetModel::Container(container_after_event(c, e)),
    }
}

/// A container after one event: every child handles it, in order.
pub open spec fn container_after_event(c: ContainerModel, e: InputEvent) -> ContainerModel
    decreases c, 0int,
{
    ContainerModel { children: children_after_event(c.children, e), ..c }
}

/// A sequence of widgets after one event, element by element.
pub open spec fn children_after_event(s: Seq<WidgetModel>, e: InputEvent) -> Seq<WidgetModel>
    decreases s, 0int,
{
    if s.len() == 0 {
        Seq::empty()
    } else {
        children_after_event(s.drop_last(), e).push(widget_after_event(s.last(), e))
    }
}

/// The handlers a widget subtree fires on an event, in tree order.
pub open spec fn widget_fired(w: WidgetModel, e: InputEvent) -> Seq<u64>
    decreases w, 1int,
{
    match w {
        WidgetModel::Button(b) => button_fired(b, e),
        WidgetModel::Text(_) => Seq::empty(),
        WidgetModel::Container(c) => children_fired(c.children, e),
    }
}

/// The handlers a sequence of widgets fires, concatenated in order.
pub open spec fn children_fired(s: Seq<WidgetModel>, e: InputEvent) -> Seq<u64>
    decreases s, 0int,
{
    if s.len() == 0 {
        Seq::empty()
    } else {
        children_fired(s.drop_last(), e) + widget_fired(s.last(), e)
    }
}

/// `children_after_event` maps the sequence pointwise.
pub proof fn lemma_children_after_event(s: Seq<WidgetModel>, e: InputEvent)
    ensures
        children_after_event(s, e).len() == s.len(),
        forall|i: int|
            0 <= i < s.len() ==> children_after_event(s, e)[i] == widget_after_event(s[i], e),
    decreases s,
{
    if s.len() > 0 {
        lemma_children_after_event(s.drop_last(), e);
        assert forall|i: int| 0 <= i < s.len() implies children_after_event(s, e)[i]
            == widget_after_event(s[i], e) by {
            if i < s.len() - 1 {
                assert(s.drop_last()[i] == s[i]);
            }
        }
    }
}

/// Law: input mutates interaction state only. Handling an event moves no
/// widget: every rectangle, every preferred size, the nesting depth and
/// well-formedness are exactly what they were.
pub proof fn lemma_event_preserves_geometry(w: WidgetModel, e: InputEvent)
    ensures
        rect_of(widget_after_event(w, e)) == rect_of(w),
        pref_w(widget_after_event(w, e)) == pref_w(w),
        pref_h(widget_after_event(w, e)) == pref_h(w),
        depth(widget_after_event(w, e)) == depth(w),
        wf(widget_after_event(w, e)) == wf(w),
    decreases w,
{
    match w {
        WidgetModel::Container(c) => {
            let nc = container_after_event(c, e);
            lemma_children_after_event(c.children, e);
            assert forall|i: int| 0 <= i < c.children.len() implies pref_w(
                #[trigger] nc.children[i],
            ) == pref_w(c.children[i]) && pref_h(nc.children[i])
                == pref_h(c.children[i]) && depth(nc.children[i])
                == depth(c.children[i]) && (wf(nc.children[i])
                <==> wf(c.children[i])) by {
                lemma_event_preserves_geometry(c.children[i], e);
            }
            lemma_seq_measures_congruent(nc.children, c.children);
            assert(wf(WidgetModel::Container(nc)) == wf(w)) by {
                if wf(w) {
                    assert forall|i: int| 0 <= i < nc.children.len() implies wf(
                        #[trigger] nc.children[i],
                    ) by {
                        assert(wf(c.children[i]));
                    }
                }
                if wf(WidgetModel::Container(nc)) {
                    assert forall|i: int| 0 <= i < c.children.len() implies wf(
                        #[trigger] c.children[i],
                    ) by {
                        assert(wf(nc.children[i]));
                    }
                }
            }
        },
        _ => {},
    }
}

/// A child of a container is structurally smaller than the container.
proof fn lemma_event_child_smaller(wm: WidgetModel, i: int)
    requires
        wm is Container,
        0 <= i < wm->Container_0.children.len(),
    ensures
        decreases_to!(wm => wm->Container_0.children[i]),
{
    let c = wm->Container_0;
    assert(decreases_to!(wm => c));
    assert(decreases_to!(c => c.children));
    assert(decreases_to!(c.children => c.children[i]));
}

/// Handle one event in each widget of a sequence, in order; returns the new
/// widgets and the handler ids fired, concatenated in order.
fn dispatch_children(
    kids: Vec<Widget>,
    Ghost(anchor): Ghost<WidgetModel>,
    event: &InputEvent,
) -> (res: (Vec<Widget>, Vec<u64>))
    requires
        anchor is Container,
        kids@.len() == anchor->Container_0.children.len(),
        forall|j: int|
            0 <= j < kids@.len() ==> widget_model(#[trigger] kids@[j])
                == anchor->Container_0.children[j],
    ensures
        widgets_model(res.0@) == children_after_event(anchor->Container_0.children, *event),
        res.1@ == children_fired(anchor->Container_0.children, *event),
    decreases anchor, 0int,
{
    let ghost kids_m = anchor->Container_0.children;
    let n = kids.len();
    let mut rest = kids;
    let mut out: Vec<Widget> = Vec::new();
    let mut fired: Vec<u64> = Vec::new();
    proof {
        assert(children_after_event(kids_m.subrange(0, 0), *event) =~= Seq::<
            WidgetModel,
        >::empty());
        assert(children_fired(kids_m.subrange(0, 0), *event) =~= Seq::<u64>::empty());
        assert(widgets_model(out@) =~= Seq::<WidgetModel>::empty());
    }
    let mut i: usize = 0;
    while i < n
        invariant
            anchor is Container,
            kids_m == anchor->Container_0.children,
            kids_m.len() == n,
            i <= n,
            rest@.len() == n - i,
            forall|k: int|
                0 <= k < rest@.len() ==> widget_model(#[trigger] rest@[k]) == kids_m[i + k],
            out@.len() == i,
            widgets_model(out@) == children_after_event(kids_m.subrange(0, i as int), *event),
            fired@ == children_fired(kids_m.subrange(0, i as int), *event),
        decreases n - i,
    {
        proof {
            assert(widget_model(rest@[0]) == kids_m[i as int]);
            lemma_event_child_smaller(anchor, i as int);
        }
        let child = rest.remove(0);
        let ghost prev_rest = rest@;
        let (nw, mut f) = dispatch_event(child, event);
        let ghost prev_out = out@;
        out.push(nw);
        fired.append(&mut f);
        proof {
            assert forall|k: int| 0 <= k < rest@.len() implies widget_model(
                #[trigger] rest@[k],
            ) == kids_m[i + 1 + k] by {
                assert(rest@[k] == prev_rest[k]);
            }
            assert(out@.drop_last() =~= prev_out);
            assert(kids_m.subrange(0, i as int + 1).drop_last() =~= kids_m.subrange(
                0,
                i as int,
            ));
            assert(kids_m.subrange(0, i as int + 1).last() == kids_m[i as int]);
            assert(widgets_model(out@) == children_after_event(
                kids_m.subrange(0, i as int + 1),
                *event,
            ));
            assert(fired@ =~= children_fired(kids_m.subrange(0, i as int + 1), *event));
        }
        i = i + 1;
    }
    proof {
        assert(kids_m.subrange(0, n as int) =~= kids_m);
    }
    (out, fired)
}

/// Handle one event in a widget taken by value; returns the new widget and
/// the handler ids fired.
fn dispatch_event(w: Widget, event: &InputEvent) -> (res: (Widget, Vec<u64>))
    ensures
        res.0@ == widget_after_event(w@, *event),
        res.1@ == widget_fired(w@, *event),
    decreases w@, 1int,
{
    let ghost wm = w@;
    match w {
        Widget::Button(mut b) => {
            let mut fired: Vec<u64> = Vec::new();
            match event {
                InputEvent::PointerMoved { x, y } => {
                    b.is_hovered = b.rect.contains(*x, *y);
                },
                InputEvent::PointerDown => {
                    if b.is_hovered {
                        b.is_pressed = true;
                    }
                },
                InputEvent::PointerUp => {
                    if b.is_pressed && b.is_hovered {
                        if let Some(h) = b.on_click {
                            fired.push(h);
                        }
                    }
                    b.is_pressed = false;
                },
            }
            proof {
                assert(fired@ =~= widget_fired(wm, *event));
            }
            (Widget::Button(b), fired)
        },
        Widget::Text(t) => {
            let fired: Vec<u64> = Vec::new();
            proof {
                assert(fired@ =~= widget_fired(wm, *event));
            }
            (Widget::Text(t), fired)
        },
        Widget::Container(c) => {
            let Container { rect, padding, children, direction, alignment, spacing } = c;
            let ghost cm = wm->Container_0;
            proof {
                lemma_widgets_model(children@);
            }
            let (out, fired) = dispatch_children(children, Ghost(wm), event);
            let res = Container { rect, padding, children: out, direction, alignment, spacing };
            proof {
                assert(container_model(res) == container_after_event(cm, *event));
            }
            (Widget::Container(res), fired)
        },
    }
}

impl Widget {
    /// Handle one input event: update interaction state in place and return
    /// the click-handler ids fired, in tree order. Never changes geometry.
    pub fn handle_event(&mut self, event: &InputEvent) -> (fired: Vec<u64>)
        ensures
            final(self)@ == widget_after_event(old(self)@, *event),
            fired@ == widget_fired(old(self)@, *event),
    {
        proof {
            reveal_strlit("");
        }
        let mut tmp = Widget::Text(Text::new(0, 0, ""));
        core::mem::swap(self, &mut tmp);
        let (res, fired) = dispatch_event(tmp, event);
        *self = res;
        fired
    }
}

impl Container {
    /// Forward one input event to every child, in order; returns the
    /// click-handler ids fired.
    pub fn handle_event(&mut self, event: &InputEvent) -> (fired: Vec<u64>)
        ensures
            final(self)@ == container_after_event(old(self)@, *event),
            fired@ == widget_fired(WidgetModel::Container(old(self)@), *event),
    {
        let mut tmp = Container::new(0, 0, 0, 0);
        core::mem::swap(self, &mut tmp);
        let (res, fired) = dispatch_event(Widget::Container(tmp), event);
        match res {
            Widget::Container(c) => {
                *self = c;
            },
            _ => {
                proof {
                    assert(false);
                }
            },
        }
        fired
    }
}

impl Button {
    /// Handle one input event directly on a button.
    pub fn handle_event(&mut self, event: &InputEvent) -> (fired: Vec<u64>)
        ensures
            final(self)@ == button_after_event(old(self)@, *event),
            fired@ == button_fired(old(self)@, *event),
    {
        let mut fired: Vec<u64> = Vec::new();
        match event {
            InputEvent::PointerMoved { x, y } => {
                self.is_hovered = self.rect.contains(*x, *y);
            },
            InputEvent::PointerDown => {
                if self.is_hovered {
                    self.is_pressed = true;
                }
            },
            InputEvent::PointerUp => {
                if self.is_pressed && self.is_hovered {
                    if let Some(h) = self.on_click {
                        fired.push(h);
                    }
                }
                self.is_pressed = false;
            },
        }
        proof {
            assert(fired@ =~= button_fired(old(self)@, *event));
        }
        fired
    }
}

impl Text {
    /// Text ignores input.
    pub fn handle_event(&mut self, event: &InputEvent) -> (fired: Vec<u64>)
        ensures
            final(self)@ == old(self)@,
            fired@ == Seq::<u64>::empty(),
    {
        let _ = event;
        let fired: Vec<u64> = Vec::new();
        proof {
            assert(fired@ =~= Seq::<u64>::empty());
        }
        fired
    }
}

/// Law: click gating. After a pointer-move to `(x1, y1)` and a press, then a
/// move to `(x2, y2)`, a release fires the handler exactly once if both
/// points lie in the button's rectangle, and not at all if the release point
/// left it; the pressed flag clears either way, and a further release fires
/// nothing.
pub proof fn lemma_click_gating(b: ButtonModel, x1: i64, y1: i64, x2: i64, y2: i64)
    requires
        b.on_click is Some,
    ensures
        ({
            let b3 = button_after_event(
                button_after_event(
                    button_after_event(b, InputEvent::PointerMoved { x: x1, y: y1 }),
                    InputEvent::PointerDown,
                ),
                InputEvent::PointerMoved { x: x2, y: y2 },
            );
            &&& (rect_contains(b.rect, x1 as int, y1 as int) && !rect_contains(
                b.rect,
                x2 as int,
                y2 as int,
            ) ==> button_fired(b3, InputEvent::PointerUp) =~= Seq::<u64>::empty()
                && !button_after_event(b3, InputEvent::PointerUp).is_pressed)
            &&& (rect_contains(b.rect, x1 as int, y1 as int) && rect_contains(
                b.rect,
                x2 as int,
                y2 as int,
            ) ==> button_fired(b3, InputEvent::PointerUp) =~= seq![b.on_click->0]
                && !button_after_event(b3, InputEvent::PointerUp).is_pressed)
            &&& button_fired(
                button_after_event(b3, InputEvent::PointerUp),
                InputEvent::PointerUp,
            ) =~= Seq::<u64>::empty()
        }),
{
}

} // verus!
