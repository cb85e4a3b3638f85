use tinyui::events::InputEvent;
use tinyui::host::WindowState;
use tinyui::parser::{parse_ui, ParseError};
use tinyui::reload::{Debouncer, FsEventKind};
use tinyui::widgets::{Button, Container, Widget};

fn moved(x: i64, y: i64) -> InputEvent {
    InputEvent::PointerMoved { x, y }
}

#[test]
fn click_fires_exactly_once_per_gesture() {
    let mut b = Button::new(0, 0, 100, 40, "go").on_click(7);
    assert_eq!(b.handle_event(&moved(10, 10)), Vec::<u64>::new());
    assert_eq!(b.handle_event(&InputEvent::PointerDown), Vec::<u64>::new());
    let fired = b.handle_event(&InputEvent::PointerUp);
    assert_eq!(fired, vec![7]);
    assert!(!b.is_pressed);
    // A second release without a new press fires nothing.
    assert_eq!(b.handle_event(&InputEvent::PointerUp), Vec::<u64>::new());
}

#[test]
fn drag_off_button_cancels_click_but_clears_press() {
    let mut b = Button::new(0, 0, 100, 40, "go").on_click(9);
    b.handle_event(&moved(50, 20));
    b.handle_event(&InputEvent::PointerDown);
    assert!(b.is_pressed);
    b.handle_event(&moved(500, 500));
    assert!(!b.is_hovered);
    let fired = b.handle_event(&InputEvent::PointerUp);
    assert_eq!(fired, Vec::<u64>::new());
    assert!(!b.is_pressed);
}

#[test]
fn press_outside_does_not_arm() {
    let mut b = Button::new(0, 0, 100, 40, "go").on_click(3);
    b.handle_event(&moved(200, 200));
    b.handle_event(&InputEvent::PointerDown);
    assert!(!b.is_pressed);
    assert_eq!(b.handle_event(&InputEvent::PointerUp), Vec::<u64>::new());
}

#[test]
fn button_without_handler_fires_nothing() {
    let mut b = Button::new(0, 0, 100, 40, "quiet");
    b.handle_event(&moved(1, 1));
    b.handle_event(&InputEvent::PointerDown);
    assert_eq!(b.handle_event(&InputEvent::PointerUp), Vec::<u64>::new());
    assert!(!b.is_pressed);
}

#[test]
fn hover_tracks_latest_rect() {
    let mut w = Widget::Button(Button::new(0, 0, 100, 40, "x").on_click(1));
    w.handle_event(&moved(150, 20));
    if let Widget::Button(b) = &w {
        assert!(!b.is_hovered);
    }
    w.set_rect(tinyui::geometry::Rect { x: 120, y: 0, width: 100, height: 40 });
    w.handle_event(&moved(150, 20));
    if let Widget::Button(b) = &w {
        assert!(b.is_hovered);
    } else {
        panic!("widget stays a button");
    }
}

#[test]
fn container_forwards_events_in_child_order() {
    let mut c = Container::new(0, 0, 800, 600);
    c.add_child(Widget::Button(Button::new(0, 0, 200, 50, "first").on_click(1)));
    c.add_child(Widget::Button(Button::new(0, 0, 200, 50, "second").on_click(2)));
    // Hover both by moving over each in turn and pressing while inside: the
    // first child sits at (10,10), the second at (10,302), both 200x287.
    let mut host = WindowState::new();
    host.add_widget(Widget::Container(c));
    host.dispatch_input(&moved(20, 20));
    host.dispatch_input(&InputEvent::PointerDown);
    let fired = host.dispatch_input(&InputEvent::PointerUp);
    assert_eq!(fired, vec![1]);
    host.dispatch_input(&moved(20, 310));
    host.dispatch_input(&InputEvent::PointerDown);
    let fired2 = host.dispatch_input(&InputEvent::PointerUp);
    assert_eq!(fired2, vec![2]);
}

#[test]
fn debounce_two_dispatches_from_burst() {
    // Modifications at t, t+50ms, t+90ms and t+250ms with a 200ms window:
    // exactly the first and the last dispatch.
    let mut d = Debouncer::new(200);
    let t: u64 = 1000;
    assert!(d.on_event(FsEventKind::Modify, t));
    assert!(!d.on_event(FsEventKind::Modify, t + 50));
    assert!(!d.on_event(FsEventKind::Modify, t + 90));
    assert!(d.on_event(FsEventKind::Modify, t + 250));
}

#[test]
fn debounce_ignores_create_and_remove() {
    let mut d = Debouncer::new(200);
    assert!(!d.on_event(FsEventKind::Create, 10));
    assert!(!d.on_event(FsEventKind::Remove, 20));
    // Non-modify events do not consume the window either.
    assert!(d.on_event(FsEventKind::Modify, 30));
}

#[test]
fn debounce_boundary_is_at_least_the_interval() {
    let mut d = Debouncer::new(200);
    assert!(d.on_event(FsEventKind::Modify, 0));
    assert!(!d.on_event(FsEventKind::Modify, 199));
    assert!(d.on_event(FsEventKind::Modify, 200));
}

#[test]
fn reload_swaps_tree_on_success() {
    let mut host = WindowState::new();
    host.add_widget(Widget::Button(Button::new(0, 0, 10, 10, "old")));
    let replaced = host.apply_reload("Container vertical\nButton \"New\"\n");
    assert!(replaced);
    assert_eq!(host.widgets.len(), 1);
    match &host.widgets[0] {
        Widget::Container(c) => {
            assert_eq!(c.children.len(), 1);
        },
        _ => panic!("reload installs a container root"),
    }
}

#[test]
fn parse_failure_leaves_tree_untouched() {
    let mut host = WindowState::new();
    let seed = parse_ui("Button \"Keep\"\n").unwrap();
    host.add_widget(Widget::Container(seed));
    let before: Vec<tinyui::geometry::Rect> = match &host.widgets[0] {
        Widget::Container(c) => c.children.iter().map(|w| w.get_rect()).collect(),
        _ => panic!(),
    };
    let replaced = host.install_tree(Err(ParseError::InvalidFormat(String::from("bad"))));
    assert!(!replaced);
    assert_eq!(host.widgets.len(), 1);
    let after: Vec<tinyui::geometry::Rect> = match &host.widgets[0] {
        Widget::Container(c) => c.children.iter().map(|w| w.get_rect()).collect(),
        _ => panic!(),
    };
    assert_eq!(before, after);
    // The loop keeps processing input normally afterwards.
    let fired = host.dispatch_input(&moved(15, 15));
    assert_eq!(fired, Vec::<u64>::new());
}

#[test]
fn text_ignores_input() {
    let mut t = tinyui::widgets::Text::new(0, 0, "still");
    let before = t.get_rect();
    assert_eq!(t.handle_event(&moved(1, 1)), Vec::<u64>::new());
    assert_eq!(t.handle_event(&InputEvent::PointerDown), Vec::<u64>::new());
    assert_eq!(t.handle_event(&InputEvent::PointerUp), Vec::<u64>::new());
    assert_eq!(t.get_rect(), before);
}

#[test]
fn relayout_between_press_and_release_uses_new_rect() {
    // Hover must always reflect the most recently assigned rectangle: after
    // a press, moving the button away and releasing outside it cancels the
    // click.
    let mut w = Widget::Button(Button::new(0, 0, 100, 40, "m").on_click(5));
    w.handle_event(&moved(50, 20));
    w.handle_event(&InputEvent::PointerDown);
    w.set_rect(tinyui::geometry::Rect { x: 1000, y: 1000, width: 100, height: 40 });
    w.handle_event(&moved(50, 20));
    let fired = w.handle_event(&InputEvent::PointerUp);
    assert_eq!(fired, Vec::<u64>::new());
}

#[test]
fn io_error_variant_also_keeps_tree() {
    let mut host = WindowState::new();
    host.add_widget(Widget::Button(Button::new(0, 0, 10, 10, "keep")));
    let replaced = host.install_tree(Err(ParseError::IoError(String::from("unreadable"))));
    assert!(!replaced);
    assert_eq!(host.widgets.len(), 1);
}
