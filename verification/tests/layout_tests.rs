use tinyui::geometry::{Alignment, Direction, Padding, Rect};
use tinyui::widgets::{Button, Container, Text, Widget};

fn rect_of(w: &Widget) -> Rect {
    w.get_rect()
}

#[test]
fn empty_container_set_rect_just_moves() {
    let mut c = Container::new(0, 0, 100, 100);
    c.set_rect(Rect { x: 5, y: 7, width: 50, height: 60 });
    let r = c.get_rect();
    assert_eq!(r.x, 5);
    assert_eq!(r.y, 7);
    assert_eq!(r.width, 50);
    assert_eq!(r.height, 60);
}

#[test]
fn vertical_layout_two_buttons_with_padding_and_spacing() {
    // Content box of an 800x600 container with padding 10 is (10,10,780,580);
    // two buttons prefer height 50 each, so extra = (580 - 5 - 100) / 2 = 237.
    let mut c = Container::new(0, 0, 800, 600);
    c.add_child(Widget::Button(Button::new(0, 0, 200, 50, "OK")));
    c.add_child(Widget::Button(Button::new(0, 0, 200, 50, "Cancel")));
    let r0 = rect_of(&c.children[0]);
    let r1 = rect_of(&c.children[1]);
    assert_eq!(r0.x, 10);
    assert_eq!(r0.y, 10);
    assert_eq!(r0.width, 200);
    assert_eq!(r0.height, 287);
    assert_eq!(r1.x, 10);
    assert_eq!(r1.y, 10 + 287 + 5);
    assert_eq!(r1.width, 200);
    assert_eq!(r1.height, 287);
}

#[test]
fn axis_sum_exact_when_flex_divides() {
    // Content height 100, no padding, no spacing, two buttons: the assigned
    // heights meet the content height exactly.
    let mut c = Container::new(0, 0, 100, 100);
    let c2 = c.with_padding(Padding::all(0)).with_spacing(0);
    c = c2;
    c.add_child(Widget::Button(Button::new(0, 0, 200, 50, "a")));
    c.add_child(Widget::Button(Button::new(0, 0, 200, 50, "b")));
    let r0 = rect_of(&c.children[0]);
    let r1 = rect_of(&c.children[1]);
    assert_eq!(r0.height + r1.height, 100);
    assert_eq!(r0.y, 0);
    assert_eq!(r1.y, r0.height);
}

#[test]
fn axis_sum_exact_when_children_overflow() {
    // Content height 30 is smaller than the preferred total of 100; the
    // children shrink uniformly: extra = (30 - 4 - 100) / 2 = -37.
    let mut c = Container::new(0, 0, 50, 30);
    let c2 = c.with_padding(Padding::all(0)).with_spacing(4);
    c = c2;
    c.add_child(Widget::Button(Button::new(0, 0, 200, 50, "a")));
    c.add_child(Widget::Button(Button::new(0, 0, 200, 50, "b")));
    let r0 = rect_of(&c.children[0]);
    let r1 = rect_of(&c.children[1]);
    assert_eq!(r0.height, 13);
    assert_eq!(r1.height, 13);
    assert_eq!(r0.height + r1.height + 4, 30);
    assert_eq!(r1.y, 17);
}

#[test]
fn center_alignment_centers_cross_axis() {
    // Horizontal container, content box (0,0,120,120), one button of
    // preferred size (200,50): its y must be (120 - 50) / 2 = 35.
    let mut c = Container::new(0, 0, 120, 120);
    let c2 = c
        .with_padding(Padding::all(0))
        .with_direction(Direction::Horizontal)
        .with_alignment(Alignment::Center);
    c = c2;
    c.add_child(Widget::Button(Button::new(0, 0, 200, 50, "mid")));
    let r0 = rect_of(&c.children[0]);
    assert_eq!(r0.y, 35);
    assert_eq!(r0.x, 0);
    assert_eq!(r0.height, 50);
    // The main axis absorbs the deficit: 200 + (120 - 200) = 120.
    assert_eq!(r0.width, 120);
}

#[test]
fn end_alignment_pushes_to_far_edge() {
    let mut c = Container::new(0, 0, 300, 100);
    let c2 = c.with_padding(Padding::all(0)).with_alignment(Alignment::End);
    c = c2;
    c.add_child(Widget::Button(Button::new(0, 0, 200, 50, "x")));
    let r0 = rect_of(&c.children[0]);
    // Vertical container, cross axis is x: 0 + 300 - 200 = 100.
    assert_eq!(r0.x, 100);
}

#[test]
fn set_rect_is_idempotent_on_concrete_tree() {
    let mut c = Container::new(0, 0, 640, 480);
    c.add_child(Widget::Button(Button::new(0, 0, 200, 50, "one")));
    c.add_child(Widget::Text(Text::new(0, 0, "two")));
    let target = Rect { x: 3, y: 4, width: 500, height: 400 };
    c.set_rect(target);
    let first: Vec<Rect> = c.children.iter().map(rect_of).collect();
    c.set_rect(target);
    let second: Vec<Rect> = c.children.iter().map(rect_of).collect();
    assert_eq!(first, second);
}

#[test]
fn nested_container_relayouts_recursively() {
    let mut inner = Container::new(0, 0, 0, 0);
    let inner2 = inner.with_padding(Padding::all(0)).with_spacing(0);
    inner = inner2;
    inner.add_child(Widget::Button(Button::new(0, 0, 200, 50, "in")));
    let mut outer = Container::new(0, 0, 400, 400);
    let outer2 = outer.with_padding(Padding::all(0)).with_spacing(0);
    outer = outer2;
    outer.add_child(Widget::Container(inner));
    // The inner container fills the outer content box; its child then fills
    // the inner content box in turn.
    let inner_rect = rect_of(&outer.children[0]);
    assert_eq!(inner_rect.x, 0);
    assert_eq!(inner_rect.y, 0);
    assert_eq!(inner_rect.height, 400);
    match &outer.children[0] {
        Widget::Container(ic) => {
            let leaf = rect_of(&ic.children[0]);
            assert_eq!(leaf.y, 0);
            assert_eq!(leaf.height, 400);
        },
        _ => panic!("inner child is a container"),
    }
}

#[test]
fn preferred_size_of_container_derives_from_children() {
    let mut c = Container::new(0, 0, 10, 10);
    c.add_child(Widget::Button(Button::new(0, 0, 200, 50, "a")));
    c.add_child(Widget::Text(Text::new(0, 0, "abcd")));
    // Vertical: width is the max of (200, 4*8), height the sum of (50, 8).
    let (w, h) = c.preferred_size();
    assert_eq!(w, 200);
    assert_eq!(h, 58);
    let c2 = c.with_direction(Direction::Horizontal);
    let (w2, h2) = c2.preferred_size();
    assert_eq!(w2, 232);
    assert_eq!(h2, 50);
}

#[test]
fn text_preferred_size_follows_content() {
    let t = Text::new(0, 0, "hello");
    let r = t.rect;
    assert_eq!(r.width, 40);
    assert_eq!(r.height, 8);
    let w = Widget::Text(t);
    assert_eq!(w.preferred_size(), (40, 8));
}

#[test]
fn rect_contains_is_inclusive_of_edges() {
    let r = Rect { x: 10, y: 20, width: 30, height: 40 };
    assert!(r.contains(10, 20));
    assert!(r.contains(40, 60));
    assert!(!r.contains(41, 60));
    assert!(!r.contains(9, 20));
}

#[test]
fn padding_all_sets_every_side() {
    let p = Padding::all(12);
    assert_eq!(p.left, 12);
    assert_eq!(p.right, 12);
    assert_eq!(p.top, 12);
    assert_eq!(p.bottom, 12);
}

#[test]
fn leaf_set_rect_stores_exactly() {
    let mut b = Button::new(1, 2, 3, 4, "b");
    assert_eq!(b.get_rect(), Rect { x: 1, y: 2, width: 3, height: 4 });
    b.set_rect(Rect { x: 9, y: 8, width: 7, height: 6 });
    assert_eq!(b.get_rect(), Rect { x: 9, y: 8, width: 7, height: 6 });
    assert_eq!(b.preferred_size(), (200, 50));
    let mut t = Text::new(0, 0, "xyz");
    t.set_rect(Rect { x: -5, y: -6, width: 0, height: 0 });
    assert_eq!(t.get_rect(), Rect { x: -5, y: -6, width: 0, height: 0 });
    assert_eq!(t.preferred_size(), (24, 8));
}

#[test]
fn add_widget_is_add_child() {
    let mut a = Container::new(0, 0, 100, 100);
    let mut b = Container::new(0, 0, 100, 100);
    a.add_child(Widget::Button(Button::new(0, 0, 1, 1, "k")));
    b.add_widget(Widget::Button(Button::new(0, 0, 1, 1, "k")));
    assert_eq!(rect_of(&a.children[0]), rect_of(&b.children[0]));
}

#[test]
fn zero_sized_container_still_lays_out() {
    let mut c = Container::new(0, 0, 0, 0);
    c.add_child(Widget::Button(Button::new(0, 0, 200, 50, "z")));
    // Content box is (10,10,-20,-20); extra = (-20 - 0 - 50) / 1 = -70.
    let r = rect_of(&c.children[0]);
    assert_eq!(r.x, 10);
    assert_eq!(r.y, 10);
    assert_eq!(r.height, -20);
}
