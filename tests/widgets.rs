use regex_puzzle::{
    button_look, do_button, inside_rect, read_events, ButtonLook, ButtonSpec, Event, KeyCode,
    Point, Rect, Size, UIContext,
};

#[test]
fn rect_from_size() {
    let rect = Rect::from_size(Point::new(10, 20), Size::new(30, 40));
    assert_eq!(rect.top_left, Point::new(10, 20));
    assert_eq!(rect.top_right, Point::new(40, 20));
    assert_eq!(rect.bottom_left, Point::new(10, 60));
    assert_eq!(rect.bottom_right, Point::new(40, 60));
    assert_eq!(rect.size, Size::new(30, 40));
}

#[test]
fn rect_from_points() {
    let rect = Rect::from_points(Point::new(10, 20), Point::new(30, 40));
    assert_eq!(rect.top_left, Point::new(10, 20));
    assert_eq!(rect.top_right, Point::new(30, 20));
    assert_eq!(rect.bottom_left, Point::new(10, 40));
    assert_eq!(rect.bottom_right, Point::new(30, 40));
    assert_eq!(rect.size, Size::new(20, 20));
}

#[test]
fn rect_from_values() {
    assert_eq!(
        Rect::from_values(10, 20, 30, 40),
        Rect::from_size(Point::new(10, 20), Size::new(30, 40))
    );
    assert_eq!(
        Rect::from_point_values(10, 20, 30, 40),
        Rect::from_points(Point::new(10, 20), Point::new(30, 40))
    );
}

#[test]
fn points_clamp_to_zero() {
    assert_eq!(Point::new(0, 5), Point::new_safe(-3, 5));
    assert_eq!(Point::new(2, 0), Point::new(1, 1).add(1, -4));
}

#[test]
fn inside_is_half_open() {
    let p = Point::new(5, 5);
    assert!(inside_rect(p, 5, 5, 1, 1));
    assert!(!inside_rect(p, 0, 0, 5, 10));
    assert!(!inside_rect(p, 6, 0, 5, 10));
    assert!(inside_rect(p, 0, 0, 6, 6));
}

#[test]
fn frame_init_promotes_next_hot() {
    let mut c = UIContext::new();
    c.set_next_hot(4);
    c.frame_init();
    assert_eq!((4, 0, 0), (c.hot, c.active, c.next_hot));
    c.set_active(4);
    c.set_next_hot(7);
    c.frame_init();
    assert_eq!((4, 4, 0), (c.hot, c.active, c.next_hot));
    c.set_not_active();
    c.set_not_hot();
    assert_eq!((0, 0), (c.hot, c.active));
}

#[test]
fn button_click_needs_press_and_release_inside() {
    let spec = ButtonSpec { x: 20, y: 20, w: 5, h: 3, text: "0".to_string(), id: 1 };
    let mouse = Point::new(21, 21);
    let mut c = UIContext::new();
    assert!(!do_button(&mut c, &spec, mouse, false, false));
    assert_eq!(1, c.next_hot);
    c.frame_init();
    assert!(!do_button(&mut c, &spec, mouse, true, false));
    assert_eq!(1, c.active);
    assert_eq!(ButtonLook::Pressed, button_look(&c, 1, true));
    c.frame_init();
    assert!(do_button(&mut c, &spec, mouse, false, true));
    assert_eq!(0, c.active);
    assert_eq!(ButtonLook::Hot, button_look(&c, 1, false));
    assert_eq!(ButtonLook::Plain, button_look(&c, 2, false));
}

#[test]
fn events_become_frame_input() {
    let events = vec![
        Event::KeyReleased { key: KeyCode::Num2, ctrl: false, shift: false },
        Event::KeyPressed { key: KeyCode::MouseLeft, ctrl: false, shift: false },
        Event::KeyReleased { key: KeyCode::Enter, ctrl: false, shift: true },
        Event::MouseMove { x: 3, y: 4 },
    ];
    let input = read_events(&events);
    assert!(!input.quit);
    assert!(input.key_pressed && input.leaves_title && !input.reset);
    assert!(input.left_mouse_pressed && !input.left_mouse_released);
    assert!(input.enter_key && !input.backspace_key);
    assert_eq!([false, false, true, false], input.num_key);
    let quit = read_events(&vec![Event::KeyPressed { key: KeyCode::Escape, ctrl: false, shift: false }]);
    assert!(quit.quit && !quit.leaves_title);
    let late = read_events(&vec![
        Event::KeyPressed { key: KeyCode::A, ctrl: false, shift: false },
        Event::Close,
    ]);
    assert!(late.quit && late.leaves_title);
    let early = read_events(&vec![
        Event::Close,
        Event::KeyPressed { key: KeyCode::A, ctrl: false, shift: false },
    ]);
    assert!(early.quit && early.key_pressed && !early.leaves_title);
    assert!(read_events(&vec![Event::Close]).quit);
    let reset = read_events(&vec![Event::KeyPressed { key: KeyCode::R, ctrl: true, shift: false }]);
    assert!(reset.reset && reset.key_pressed && !reset.quit);
    let plain = read_events(&vec![Event::KeyReleased { key: KeyCode::R, ctrl: true, shift: false }]);
    assert!(!plain.reset && !plain.key_pressed);
}
