use tinyui::font::Font;
use tinyui::geometry::{Alignment, Direction};
use tinyui::parser::parse_ui;
use tinyui::renderer::{Renderer, Rgba};
use tinyui::widgets::{Container, Text, Widget};

const WHITE: Rgba = Rgba { r: 255, g: 255, b: 255, a: 255 };
const RED: Rgba = Rgba { r: 255, g: 0, b: 0, a: 255 };

fn child_rects(c: &Container) -> Vec<tinyui::geometry::Rect> {
    c.children.iter().map(|w| w.get_rect()).collect()
}

#[test]
fn example_document_lays_out_two_stacked_buttons() {
    // The end-to-end example: two buttons stacked vertically inside the
    // default 800x600 root with padding 10 and spacing 5.
    let c = parse_ui("Container vertical\nButton \"OK\"\nButton \"Cancel\"\n").unwrap();
    let r = c.get_rect();
    assert_eq!((r.x, r.y, r.width, r.height), (0, 0, 800, 600));
    assert_eq!(c.children.len(), 2);
    let rs = child_rects(&c);
    assert_eq!(rs[0].y, 10);
    assert_eq!(rs[1].y, 10 + rs[0].height + 5);
    assert_eq!(rs[0].x, 10);
    assert_eq!(rs[1].x, 10);
    match (&c.children[0], &c.children[1]) {
        (Widget::Button(a), Widget::Button(b)) => {
            assert_eq!(a.label, "OK");
            assert_eq!(b.label, "Cancel");
        },
        _ => panic!("both children are buttons"),
    }
}

#[test]
fn parser_reads_direction_alignment_and_text() {
    let c = parse_ui("Container horizontal center\nText \"note\"\n").unwrap();
    assert_eq!(c.direction, Direction::Horizontal);
    assert_eq!(c.alignment, Alignment::Center);
    assert_eq!(c.children.len(), 1);
    match &c.children[0] {
        Widget::Text(t) => assert_eq!(t.content, "note"),
        _ => panic!("child is a text"),
    }
}

#[test]
fn parser_ignores_unknown_lines_and_unquoted_widgets() {
    let c = parse_ui("# comment\nButton no quotes here\n\nwhatever\n").unwrap();
    assert_eq!(c.children.len(), 0);
}

#[test]
fn parser_takes_label_after_lone_quote_to_line_end() {
    let c = parse_ui("Button \"unterminated\n").unwrap();
    assert_eq!(c.children.len(), 1);
    match &c.children[0] {
        Widget::Button(b) => assert_eq!(b.label, "unterminated"),
        _ => panic!("child is a button"),
    }
}

#[test]
fn parser_trims_indented_lines() {
    let c = parse_ui("  Container horizontal\n\tButton \"pad\"\r\n").unwrap();
    assert_eq!(c.direction, Direction::Horizontal);
    assert_eq!(c.children.len(), 1);
}

#[test]
fn empty_document_gives_default_empty_container() {
    let c = parse_ui("").unwrap();
    assert_eq!(c.children.len(), 0);
    assert_eq!(c.direction, Direction::Vertical);
    let r = c.get_rect();
    assert_eq!((r.width, r.height), (800, 600));
}

#[test]
fn renderer_starts_black_and_clears() {
    let mut r = Renderer::new(8, 4);
    assert_eq!(r.width(), 8);
    assert_eq!(r.height(), 4);
    assert_eq!(r.get_pixel(0, 0), Rgba { r: 0, g: 0, b: 0, a: 255 });
    r.clear(RED);
    assert_eq!(r.get_pixel(7, 3), RED);
}

#[test]
fn draw_rect_clips_outside_frame() {
    let mut r = Renderer::new(4, 4);
    r.draw_rect(-2, -2, 4, 4, WHITE);
    assert_eq!(r.get_pixel(0, 0), WHITE);
    assert_eq!(r.get_pixel(1, 1), WHITE);
    assert_eq!(r.get_pixel(2, 2), Rgba { r: 0, g: 0, b: 0, a: 255 });
}

#[test]
fn draw_pixel_out_of_bounds_is_a_no_op() {
    let mut r = Renderer::new(4, 4);
    r.draw_pixel(-1, 0, WHITE);
    r.draw_pixel(4, 0, WHITE);
    r.draw_pixel(1, 2, WHITE);
    assert_eq!(r.get_pixel(1, 2), WHITE);
    assert_eq!(r.get_pixel(0, 0), Rgba { r: 0, g: 0, b: 0, a: 255 });
}

#[test]
fn font_glyphs_cover_ascii_only() {
    let f = Font::default();
    assert_eq!(f.glyph_width, 8);
    assert_eq!(f.glyph_height, 8);
    assert_eq!(f.get_glyph('A'), Some(0x386CC6FEC6C6C600));
    assert_eq!(f.get_glyph(' '), Some(0));
    assert_eq!(f.get_glyph('é'), None);
}

#[test]
fn render_char_sets_glyph_bits() {
    // '!' packs rows 0x18,...: columns 3 and 4 of row 0 are set.
    let f = Font::default();
    let mut r = Renderer::new(16, 16);
    f.render_char(&mut r, 0, 0, '!', WHITE);
    assert_eq!(r.get_pixel(3, 0), WHITE);
    assert_eq!(r.get_pixel(4, 0), WHITE);
    assert_eq!(r.get_pixel(0, 0), Rgba { r: 0, g: 0, b: 0, a: 255 });
    // Row 5 of '!' is blank (the gap of the exclamation mark).
    assert_eq!(r.get_pixel(3, 5), Rgba { r: 0, g: 0, b: 0, a: 255 });
}

#[test]
fn render_char_ignores_non_ascii() {
    let f = Font::default();
    let mut r = Renderer::new(16, 16);
    f.render_char(&mut r, 0, 0, 'λ', WHITE);
    for y in 0..16u32 {
        for x in 0..16u32 {
            assert_eq!(r.get_pixel(x, y), Rgba { r: 0, g: 0, b: 0, a: 255 });
        }
    }
}

#[test]
fn text_draw_paints_glyphs_in_its_color() {
    let t = Text::new(0, 0, "!").with_color(RED);
    let mut r = Renderer::new(16, 16);
    t.draw(&mut r);
    assert_eq!(r.get_pixel(3, 0), RED);
    assert_eq!(r.get_pixel(0, 0), Rgba { r: 0, g: 0, b: 0, a: 255 });
}

#[test]
fn button_draw_fills_rect_and_centers_label() {
    let b = tinyui::widgets::Button::new(0, 0, 24, 24, "!");
    let mut r = Renderer::new(32, 32);
    b.draw(&mut r);
    // Normal-state fill.
    assert_eq!(r.get_pixel(0, 0), Rgba { r: 80, g: 80, b: 80, a: 255 });
    assert_eq!(r.get_pixel(23, 23), Rgba { r: 80, g: 80, b: 80, a: 255 });
    assert_eq!(r.get_pixel(24, 24), Rgba { r: 0, g: 0, b: 0, a: 255 });
    // Label centered: glyph cell starts at ((24-8)/2, (24-8)/2) = (8, 8);
    // '!' has column 3 set in its top row.
    assert_eq!(r.get_pixel(11, 8), WHITE);
}

#[test]
fn frame_starts_with_background_after_render() {
    let mut host = tinyui::host::WindowState::new();
    let mut r = Renderer::new(8, 8);
    host.render_frame(&mut r);
    assert_eq!(r.get_pixel(5, 5), Rgba { r: 64, g: 64, b: 64, a: 255 });
}
