//! The single-threaded core of the host window's event loop: it owns the one
//! live widget tree, dispatches input events into it, swaps in reloaded
//! trees, and paints each frame. The native window, the input source, the
//! surface presentation and the loop itself belong to the host around it;
//! every decision about the tree lives here.

use vstd::prelude::*;
use crate::draw::{children_layer, over};
use crate::events::{children_after_event, children_fired, InputEvent};
use crate::parser::{parse_doc, parse_ui, ParseError, DOC_MAX};
use crate::renderer::{Renderer, Rgba};
use crate::widgets::{widget_model, widgets_model, Container, Widget, WidgetModel};

verus! {

/// The background color each frame starts from.
pub open spec fn frame_background() -> Rgba {
    Rgba { r: 64, g: 64, b: 64, a: 255 }
}

/// The live widget tree and nothing else; at most one tree is ever
/// installed, and only the UI thread touches it.
pub struct WindowState {
    pub widgets: Vec<Widget>,
}

impl WindowState {
    /// An empty host with no tree installed.
    pub fn new() -> (w: WindowState)
        ensures
            w.widgets@.len() == 0,
    {
        WindowState { widgets: Vec::new() }
    }

    /// Install one more root widget.
    pub fn add_widget(&mut self, widget: Widget)
        ensures
            final(self).widgets@ == old(self).widgets@.push(widget),
    {
        self.widgets.push(widget);
    }

    /// Forward one input event to every installed widget, in order; returns
    /// the click-handler ids fired, in order.
    pub fn dispatch_input(&mut self, event: &InputEvent) -> (fired: Vec<u64>)
        ensures
            widgets_model(final(self).widgets@) == children_after_event(
                widgets_model(old(self).widgets@),
                *event,
            ),
            fired@ == children_fired(widgets_model(old(self).widgets@), *event),
    {
        let ghost kids_m = widgets_model(self.widgets@);
        let n = self.widgets.len();
        let mut rest: Vec<Widget> = Vec::new();
        core::mem::swap(&mut rest, &mut self.widgets);
        let mut out: Vec<Widget> = Vec::new();
        let mut fired: Vec<u64> = Vec::new();
        proof {
            crate::widgets::lemma_widgets_model(rest@);
            assert(children_after_event(kids_m.subrange(0, 0), *event) =~= Seq::<
                WidgetModel,
            >::empty());
            assert(children_fired(kids_m.subrange(0, 0), *event) =~= Seq::<u64>::empty());
            assert(widgets_model(out@) =~= Seq::<WidgetModel>::empty());
        }
        let mut i: usize = 0;
        while i < n
            invariant
                kids_m.len() == n,
                i <= n,
                rest@.len() == n - i,
                forall|k: int|
                    0 <= k < rest@.len() ==> widget_model(#[trigger] rest@[k]) == kids_m[i + k],
                out@.len() == i,
                widgets_model(out@) == children_after_event(
                    kids_m.subrange(0, i as int),
                    *event,
                ),
                fired@ == children_fired(kids_m.subrange(0, i as int), *event),
            decreases n - i,
        {
            proof {
                assert(widget_model(rest@[0]) == kids_m[i as int]);
            }
            let mut child = rest.remove(0);
            let ghost prev_rest = rest@;
            let mut f = child.handle_event(event);
            let ghost prev_out = out@;
            out.push(child);
            fired.append(&mut f);
            proof {
                assert forall|k: int| 0 <= k < rest@.len() implies widget_model(
                    #[trigger] rest@[k],
                ) == kids_m[i + 1 + k] by {
                    assert(rest@[k] == prev_rest[k]);
                }
                assert(out@.drop_last() =~= prev_out);
                assert(kids_m.subrange(0, i as int + 1).drop_last() =~= kids_m.subrange(
                    0,
                    i as int,
                ));
                assert(kids_m.subrange(0, i as int + 1).last() == kids_m[i as int]);
                assert(widgets_model(out@) == children_after_event(
                    kids_m.subrange(0, i as int + 1),
                    *event,
                ));
                assert(fired@ =~= children_fired(kids_m.subrange(0, i as int + 1), *event));
            }
            i = i + 1;
        }
        proof {
            assert(kids_m.subrange(0, n as int) =~= kids_m);
        }
        self.widgets = out;
        fired
    }

    /// Law: reload isolation. Install the outcome of a parse: on success the
    /// current tree is discarded wholesale for the new root; on failure the
    /// installed tree — child counts, geometry, everything — is left exactly
    /// as it was.
    pub fn install_tree(&mut self, parsed: Result<Container, ParseError>) -> (replaced: bool)
        ensures
            replaced == parsed is Ok,
            parsed matches Ok(c) ==> final(self).widgets@ == seq![Widget::Container(c)],
            parsed is Err ==> *final(self) == *old(self),
    {
        match parsed {
            Ok(c) => {
                let w = Widget::Container(c);
                let ghost gw = w;
                self.widgets = Vec::new();
                self.widgets.push(w);
                proof {
                    assert(self.widgets@ =~= seq![gw]);
                }
                true
            },
            Err(_) => false,
        }
    }

    /// Handle one reload message: parse the raw text on the UI thread and
    /// install the result. With the present grammar the parse always
    /// succeeds, so the new tree is exactly the parsed document.
    pub fn apply_reload(&mut self, text: &str) -> (replaced: bool)
        requires
            text@.len() <= DOC_MAX,
        ensures
            replaced,
            widgets_model(final(self).widgets@) == seq![
                WidgetModel::Container(parse_doc(text@)),
            ],
    {
        let parsed = parse_ui(text);
        let r = self.install_tree(parsed);
        proof {
            crate::widgets::lemma_widgets_model(self.widgets@);
            assert(widgets_model(self.widgets@) =~= seq![
                WidgetModel::Container(parse_doc(text@)),
            ]);
        }
        r
    }

    /// Paint one frame: clear to the background, then paint every installed
    /// widget in order.
    pub fn render_frame(&self, renderer: &mut Renderer)
        requires
            old(renderer).wf(),
        ensures
            final(renderer).wf(),
            final(renderer).spec_width() == old(renderer).spec_width(),
            final(renderer).spec_height() == old(renderer).spec_height(),
            forall|px: int, py: int|
                final(renderer).valid_pixel(px, py) ==> final(renderer).pixel(px, py) == over(
                    children_layer(widgets_model(self.widgets@), px, py),
                    frame_background(),
                ),
    {
        renderer.clear(Rgba { r: 64, g: 64, b: 64, a: 255 });
        let ghost kids_m = widgets_model(self.widgets@);
        let ghost base = *renderer;
        let n = self.widgets.len();
        proof {
            crate::widgets::lemma_widgets_model(self.widgets@);
        }
        let mut i: usize = 0;
        while i < n
            invariant
                base.wf(),
                renderer.wf(),
                renderer.spec_width() == base.spec_width(),
                renderer.spec_height() == base.spec_height(),
                forall|px: int, py: int|
                    base.valid_pixel(px, py) ==> base.pixel(px, py) == frame_background(),
                kids_m == widgets_model(self.widgets@),
                n == self.widgets@.len(),
                kids_m.len() == n,
                forall|k: int|
                    0 <= k < n ==> widget_model(#[trigger] self.widgets@[k]) == kids_m[k],
                i <= n,
                forall|px: int, py: int|
                    renderer.valid_pixel(px, py) ==> renderer.pixel(px, py) == over(
                        children_layer(kids_m.subrange(0, i as int), px, py),
                        frame_background(),
                    ),
            decreases n - i,
        {
            let child = &self.widgets[i];
            proof {
                assert(child@ == kids_m[i as int]);
            }
            child.draw(renderer);
            proof {
                assert forall|px: int, py: int| renderer.valid_pixel(px, py) implies
                    renderer.pixel(px, py) == over(
                    children_layer(kids_m.subrange(0, i as int + 1), px, py),
                    frame_background(),
                ) by {
                    let pre = kids_m.subrange(0, i as int + 1);
                    assert(pre.drop_last() =~= kids_m.subrange(0, i as int));
                    assert(pre.last() == kids_m[i as int]);
                }
            }
            i = i + 1;
        }
        proof {
            assert(kids_m.subrange(0, n as int) =~= kids_m);
        }
    }
}

} // verus!
