//! Painting widgets into the frame buffer.
//!
//! Drawing never mutates layout or interaction state. A button paints a
//! filled rectangle whose color follows the state precedence pressed >
//! hovered > normal, then its label centered in the rectangle; a text paints
//! its content at its rectangle's corner; a container paints its children in
//! order, so later siblings end up above earlier ones where they overlap.
//!
//! What a widget leaves at each pixel is captured by the layer functions
//! below: `Some(color)` where the widget paints, `None` where it leaves the
//! frame alone. Every draw routine is proved to realize its layer exactly.

use vstd::prelude::*;
use vstd::arithmetic::div_mod::{
    lemma_fundamental_div_mod, lemma_fundamental_div_mod_converse,
    lemma_mod_division_less_than_divisor,
};
use crate::font::{char_covers, Font};
use crate::renderer::{Renderer, Rgba};
use crate::widgets::{
    widget_model, Button, ButtonModel, Container, Text, TextModel, Widget, WidgetModel,
    GLYPH_HEIGHT, GLYPH_WIDTH,
};

verus! {

/// Fill color of a button: pressed beats hovered beats normal.
pub open spec fn button_fill(b: ButtonModel) -> Rgba {
    if b.is_pressed {
        Rgba { r: 60, g: 60, b: 60, a: 255 }
    } else if b.is_hovered {
        Rgba { r: 100, g: 100, b: 100, a: 255 }
    } else {
        Rgba { r: 80, g: 80, b: 80, a: 255 }
    }
}

/// The color a button label is painted in.
pub open spec fn label_color() -> Rgba {
    Rgba { r: 255, g: 255, b: 255, a: 255 }
}

/// Left edge of a button's label: the label centered horizontally.
pub open spec fn button_text_x(b: ButtonModel) -> int {
    b.rect.x + (b.rect.width - GLYPH_WIDTH * b.label.len()) / 2
}

/// Top edge of a button's label: one glyph row centered vertically.
pub open spec fn button_text_y(b: ButtonModel) -> int {
    b.rect.y + (b.rect.height - GLYPH_HEIGHT) / 2
}

/// Whether a pixel lies in the half-open area of a rectangle.
pub open spec fn rect_covers(r: crate::geometry::RectModel, px: int, py: int) -> bool {
    r.x <= px < r.x + r.width && r.y <= py < r.y + r.height
}

/// Whether one of the first `k` glyphs of a line of text starting at
/// `(tx, ty)` paints the pixel.
pub open spec fn line_covers(s: Seq<char>, k: int, tx: int, ty: int, px: int, py: int) -> bool {
    exists|i: int| 0 <= i < k && char_covers(s[i], tx + GLYPH_WIDTH * i, ty, px, py)
}

/// What a button leaves at a pixel: its label color on glyph pixels, its
/// fill color inside its rectangle, nothing elsewhere.
pub open spec fn button_layer(b: ButtonModel, px: int, py: int) -> Option<Rgba> {
    if line_covers(b.label, b.label.len() as int, button_text_x(b), button_text_y(b), px, py) {
        Some(label_color())
    } else if rect_covers(b.rect, px, py) {
        Some(button_fill(b))
    } else {
        None
    }
}

/// What a text widget leaves at a pixel.
pub open spec fn text_layer(t: TextModel, px: int, py: int) -> Option<Rgba> {
    if line_covers(t.content, t.content.len() as int, t.rect.x, t.rect.y, px, py) {
        Some(t.color)
    } else {
        None
    }
}

/// What a widget leaves at a pixel.
pub open spec fn widget_layer(w: WidgetModel, px: int, py: int) -> Option<Rgba>
    decreases w, 1int,
{
    match w {
        WidgetModel::Button(b) => button_layer(b, px, py),
        WidgetModel::Text(t) => text_layer(t, px, py),
        WidgetModel::Container(c) => children_layer(c.children, px, py),
    }
}

/// What a sequence of widgets painted in order leaves at a pixel: the last
/// sibling that paints it wins.
pub open spec fn children_layer(s: Seq<WidgetModel>, px: int, py: int) -> Option<Rgba>
    decreases s, 0int,
{
    if s.len() == 0 {
        None
    } else {
        match widget_layer(s.last(), px, py) {
            Some(c) => Some(c),
            None => children_layer(s.drop_last(), px, py),
        }
    }
}

/// The painted pixel: what the layer gives, or what was there before.
pub open spec fn over(layer: Option<Rgba>, under: Rgba) -> Rgba {
    match layer {
        Some(c) => c,
        None => under,
    }
}

/// Flooring halving, total over the values reachable from `i64` rectangles.
fn div2(v: i128) -> (q: i128)
    requires
        -0x1_0000_0000_0000_0000_0000 <= v <= 0x1_0000_0000_0000_0000_0000,
    ensures
        q == v as int / 2,
{
    if v >= 0 {
        let qu = ((v as u128) / 2) as i128;
        proof {
            vstd::arithmetic::div_mod::lemma_div_pos_is_pos(v as int, 2);
            vstd::arithmetic::div_mod::lemma_div_nonincreasing(v as int, 2);
        }
        qu
    } else {
        let x = (-v) as u128;
        let u = ((x + 1) / 2) as i128;
        proof {
            let xi = -(v as int);
            let ui = (xi + 1) / 2;
            lemma_fundamental_div_mod(xi + 1, 2);
            lemma_mod_division_less_than_divisor(xi + 1, 2);
            let r1 = (xi + 1) % 2;
            let r = 1 - r1;
            assert(v as int == (-ui) * 2 + r) by (nonlinear_arith)
                requires
                    xi + 1 == 2 * ui + r1,
                    v as int == -xi,
                    r == 1 - r1,
            ;
            lemma_fundamental_div_mod_converse(v as int, 2, -ui, r);
            vstd::arithmetic::div_mod::lemma_div_pos_is_pos(xi + 1, 2);
            vstd::arithmetic::div_mod::lemma_div_nonincreasing(xi + 1, 2);
        }
        -u
    }
}

/// Paint `k` glyphs of a line starting at `(tx, ty)` (128-bit coordinates,
/// so any rectangle position is representable), each glyph cell 8 wide.
fn draw_line(
    renderer: &mut Renderer,
    font: &Font,
    s: &String,
    tx: i128,
    ty: i128,
    color: Rgba,
)
    requires
        old(renderer).wf(),
        -0x1_0000_0000_0000_0000_0000 <= tx <= 0x1_0000_0000_0000_0000_0000,
        -0x1_0000_0000_0000_0000_0000 <= ty <= 0x1_0000_0000_0000_0000_0000,
    ensures
        final(renderer).wf(),
        final(renderer).spec_width() == old(renderer).spec_width(),
        final(renderer).spec_height() == old(renderer).spec_height(),
        forall|px: int, py: int|
            final(renderer).valid_pixel(px, py) ==> final(renderer).pixel(px, py) == (
            if line_covers(s@, s@.len() as int, tx as int, ty as int, px, py) {
                color
            } else {
                old(renderer).pixel(px, py)
            }),
{
    let n = s.as_str().unicode_len();
    let mut i: usize = 0;
    while i < n
        invariant
            old(renderer).wf(),
            renderer.wf(),
            renderer.width == old(renderer).width,
            renderer.height == old(renderer).height,
            n == s@.len(),
            -0x1_0000_0000_0000_0000_0000 <= tx <= 0x1_0000_0000_0000_0000_0000,
            -0x1_0000_0000_0000_0000_0000 <= ty <= 0x1_0000_0000_0000_0000_0000,
            i <= n,
            forall|px: int, py: int|
                renderer.valid_pixel(px, py) ==> renderer.pixel(px, py) == (
                if line_covers(s@, i as int, tx as int, ty as int, px, py) {
                    color
                } else {
                    old(renderer).pixel(px, py)
                }),
        decreases n - i,
    {
        let c = s.as_str().get_char(i);
        let cx: i128 = tx + 8 * (i as i128);
        let ghost prev = *renderer;
        if cx > -8 && cx < (renderer.width() as i128) && ty > -8 && ty < (
        renderer.height() as i128) {
            font.render_char(renderer, cx as i32, ty as i32, c, color);
        }
        proof {
            assert(GLYPH_WIDTH * (i as int) == 8 * (i as int));
            assert forall|px: int, py: int| renderer.valid_pixel(px, py) implies renderer.pixel(
                px,
                py,
            ) == (if line_covers(s@, i as int + 1, tx as int, ty as int, px, py) {
                color
            } else {
                old(renderer).pixel(px, py)
            }) by {
                if char_covers(c, cx as int, ty as int, px, py) {
                    assert(line_covers(s@, i as int + 1, tx as int, ty as int, px, py));
                } else {
                    if line_covers(s@, i as int, tx as int, ty as int, px, py) {
                        assert(line_covers(s@, i as int + 1, tx as int, ty as int, px, py));
                    } else {
                        if line_covers(s@, i as int + 1, tx as int, ty as int, px, py) {
                            let k = choose|k: int|
                                0 <= k < i as int + 1 && char_covers(
                                    s@[k],
                                    tx as int + GLYPH_WIDTH * k,
                                    ty as int,
                                    px,
                                    py,
                                );
                            assert(k == i);
                        }
                    }
                }
            }
        }
        i = i + 1;
    }
}

/// Fill the model rectangle `r` with a color: exactly the pixels of the
/// frame inside `r` change.
fn fill_rect(renderer: &mut Renderer, rect: &crate::geometry::Rect, color: Rgba)
    requires
        old(renderer).wf(),
    ensures
        final(renderer).wf(),
        final(renderer).spec_width() == old(renderer).spec_width(),
        final(renderer).spec_height() == old(renderer).spec_height(),
        forall|px: int, py: int|
            final(renderer).valid_pixel(px, py) ==> final(renderer).pixel(px, py) == (
            if rect_covers(rect@, px, py) {
                color
            } else {
                old(renderer).pixel(px, py)
            }),
{
    let rx = rect.x as i128;
    let ry = rect.y as i128;
    let rw = rect.width as i128;
    let rh = rect.height as i128;
    let w = renderer.width() as i128;
    let h = renderer.height() as i128;
    let x0 = if rx > 0 {
        rx
    } else {
        0
    };
    let y0 = if ry > 0 {
        ry
    } else {
        0
    };
    let x1 = if rx + rw < w {
        rx + rw
    } else {
        w
    };
    let y1 = if ry + rh < h {
        ry + rh
    } else {
        h
    };
    if x0 < x1 && y0 < y1 {
        renderer.draw_rect(x0 as i32, y0 as i32, (x1 - x0) as u32, (y1 - y0) as u32, color);
    }
}

impl Button {
    /// Paint this button: state-colored fill, then the centered label.
    pub fn draw(&self, renderer: &mut Renderer)
        requires
            old(renderer).wf(),
        ensures
            final(renderer).wf(),
            final(renderer).spec_width() == old(renderer).spec_width(),
            final(renderer).spec_height() == old(renderer).spec_height(),
            forall|px: int, py: int|
                final(renderer).valid_pixel(px, py) ==> final(renderer).pixel(px, py) == over(
                    button_layer(self@, px, py),
                    old(renderer).pixel(px, py),
                ),
    {
        let fill = if self.is_pressed {
            Rgba { r: 60, g: 60, b: 60, a: 255 }
        } else if self.is_hovered {
            Rgba { r: 100, g: 100, b: 100, a: 255 }
        } else {
            Rgba { r: 80, g: 80, b: 80, a: 255 }
        };
        fill_rect(renderer, &self.rect, fill);
        let font = Font::default();
        let len = self.label.as_str().unicode_len();
        let tx = (self.rect.x as i128) + div2((self.rect.width as i128) - 8 * (len as i128));
        let ty = (self.rect.y as i128) + div2((self.rect.height as i128) - 8);
        proof {
            assert(tx == button_text_x(self@));
            assert(ty == button_text_y(self@));
        }
        draw_line(
            renderer,
            &font,
            &self.label,
            tx,
            ty,
            Rgba { r: 255, g: 255, b: 255, a: 255 },
        );
    }
}

impl Text {
    /// Paint this text at its rectangle's corner in its color.
    pub fn draw(&self, renderer: &mut Renderer)
        requires
            old(renderer).wf(),
        ensures
            final(renderer).wf(),
            final(renderer).spec_width() == old(renderer).spec_width(),
            final(renderer).spec_height() == old(renderer).spec_height(),
            forall|px: int, py: int|
                final(renderer).valid_pixel(px, py) ==> final(renderer).pixel(px, py) == over(
                    text_layer(self@, px, py),
                    old(renderer).pixel(px, py),
                ),
    {
        let font = Font::default();
        draw_line(
            renderer,
            &font,
            &self.content,
            self.rect.x as i128,
            self.rect.y as i128,
            self.color,
        );
    }
}

impl Widget {
    /// Paint this widget; a container paints its children in order.
    pub fn draw(&self, renderer: &mut Renderer)
        requires
            old(renderer).wf(),
        ensures
            final(renderer).wf(),
            final(renderer).spec_width() == old(renderer).spec_width(),
            final(renderer).spec_height() == old(renderer).spec_height(),
            forall|px: int, py: int|
                final(renderer).valid_pixel(px, py) ==> final(renderer).pixel(px, py) == over(
                    widget_layer(self@, px, py),
                    old(renderer).pixel(px, py),
                ),
        decreases self@, 1int,
    {
        match self {
            Widget::Button(b) => b.draw(renderer),
            Widget::Text(t) => t.draw(renderer),
            Widget::Container(c) => {
                proof {
                    assert(decreases_to!(self@ => self@->Container_0));
                }
                c.draw(renderer)
            },
        }
    }
}

impl Container {
    /// Paint the children in order: first at the bottom, later siblings
    /// above earlier ones where they overlap.
    pub fn draw(&self, renderer: &mut Renderer)
        requires
            old(renderer).wf(),
        ensures
            final(renderer).wf(),
            final(renderer).spec_width() == old(renderer).spec_width(),
            final(renderer).spec_height() == old(renderer).spec_height(),
            forall|px: int, py: int|
                final(renderer).valid_pixel(px, py) ==> final(renderer).pixel(px, py) == over(
                    children_layer(self@.children, px, py),
                    old(renderer).pixel(px, py),
                ),
        decreases self@, 0int,
    {
        let ghost cm = self@;
        let n = self.children.len();
        proof {
            crate::widgets::lemma_widgets_model(self.children@);
        }
        let mut i: usize = 0;
        while i < n
            invariant
                old(renderer).wf(),
                renderer.wf(),
                renderer.width == old(renderer).width,
                renderer.height == old(renderer).height,
                cm == self@,
                n == self.children@.len(),
                cm.children.len() == n,
                forall|k: int|
                    0 <= k < n ==> widget_model(#[trigger] self.children@[k]) == cm.children[k],
                i <= n,
                forall|px: int, py: int|
                    renderer.valid_pixel(px, py) ==> renderer.pixel(px, py) == over(
                        children_layer(cm.children.subrange(0, i as int), px, py),
                        old(renderer).pixel(px, py),
                    ),
            decreases n - i,
        {
            let child = &self.children[i];
            let ghost prev = *renderer;
            proof {
                assert(child@ == cm.children[i as int]);
                assert(decreases_to!(cm => cm.children));
                assert(decreases_to!(cm.children => cm.children[i as int]));
            }
            child.draw(renderer);
            proof {
                assert forall|px: int, py: int| renderer.valid_pixel(px, py) implies
                    renderer.pixel(px, py) == over(
                    children_layer(cm.children.subrange(0, i as int + 1), px, py),
                    old(renderer).pixel(px, py),
                ) by {
                    let pre = cm.children.subrange(0, i as int + 1);
                    assert(pre.drop_last() =~= cm.children.subrange(0, i as int));
                    assert(pre.last() == cm.children[i as int]);
                }
            }
            i = i + 1;
        }
        proof {
            assert(cm.children.subrange(0, n as int) =~= cm.children);
        }
    }
}

} // verus!
