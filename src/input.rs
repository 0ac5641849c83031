//! Keyboard and mouse input, and what one frame of it asks for.
use vstd::prelude::*;

verus! {

/// All pressable keys.
#[derive(Clone, Copy, Debug, Eq, Hash, PartialEq, Structural)]
pub enum KeyCode {
    A,
    B,
    C,
    D,
    E,
    F,
    G,
    H,
    I,
    J,
    K,
    L,
    M,
    N,
    O,
    P,
    Q,
    R,
    S,
    T,
    U,
    V,
    W,
    X,
    Y,
    Z,
    Row1,
    Row2,
    Row3,
    Row4,
    Row5,
    Row6,
    Row7,
    Row8,
    Row9,
    Row0,
    Grave,
    Minus,
    Equals,
    LeftBracket,
    RightBracket,
    Backslash,
    Semicolon,
    Apostrophe,
    Comma,
    Period,
    Slash,
    F1,
    F2,
    F3,
    F4,
    F5,
    F6,
    F7,
    F8,
    F9,
    F10,
    F11,
    F12,
    Enter,
    Escape,
    Backspace,
    Tab,
    Space,
    Pause,
    Insert,
    Home,
    PageUp,
    Delete,
    End,
    PageDown,
    Right,
    Left,
    Down,
    Up,
    NumDivide,
    NumMultiply,
    NumMinus,
    NumPlus,
    NumEnter,
    NumPeriod,
    Num1,
    Num2,
    Num3,
    Num4,
    Num5,
    Num6,
    Num7,
    Num8,
    Num9,
    Num0,
    MouseLeft,
    MouseRight,
    MouseMiddle,
    MouseFourth,
    MouseFifth,
}

/// A single input event.
#[derive(Clone, Copy, Debug, Eq, Hash, PartialEq, Structural)]
pub enum Event {
    Close,
    Resize { width: i32, height: i32 },
    MouseMove { x: i32, y: i32 },
    MouseScroll { delta: i32 },
    KeyPressed { key: KeyCode, ctrl: bool, shift: bool },
    KeyReleased { key: KeyCode, ctrl: bool, shift: bool },
    ShiftPressed,
    ShiftReleased,
    ControlPressed,
    ControlReleased,
}

/// What the events of one frame ask of the game screen.
pub struct FrameInput {
    pub quit: bool,
    /// Some key was pressed.
    pub key_pressed: bool,
    /// A key other than Escape was pressed before any request to quit (this
    /// leaves the title screen).
    pub leaves_title: bool,
    /// Control-R was pressed: start over.
    pub reset: bool,
    pub left_mouse_pressed: bool,
    pub left_mouse_released: bool,
    pub backspace_key: bool,
    pub enter_key: bool,
    pub num_key: [bool; 4],
}

pub open spec fn is_quit(e: Event) -> bool {
    e == Event::Close || e matches Event::KeyPressed { key: KeyCode::Escape, .. }
}

pub open spec fn is_any_press(e: Event) -> bool {
    e is KeyPressed
}

/// A key other than Escape is pressed before any event that asks to quit.
pub open spec fn press_before_quit(events: Seq<Event>) -> bool {
    exists|i: int|
        0 <= i < events.len() && is_any_press(#[trigger] events[i]) && !is_quit(events[i]) && forall|
            j: int,
        | 0 <= j < i ==> !is_quit(#[trigger] events[j])
}

pub open spec fn is_reset(e: Event) -> bool {
    e matches Event::KeyPressed { key: KeyCode::R, ctrl: true, .. }
}

pub open spec fn is_released(e: Event, k: KeyCode) -> bool {
    e matches Event::KeyReleased { key, .. } && key == k
}

pub open spec fn is_pressed(e: Event, k: KeyCode) -> bool {
    e matches Event::KeyPressed { key, .. } && key == k
}

/// The key released for digit `d`, on the top row or the keypad.
pub open spec fn is_digit_release(e: Event, d: int) -> bool {
    if d == 0 {
        is_released(e, KeyCode::Row0) || is_released(e, KeyCode::Num0)
    } else if d == 1 {
        is_released(e, KeyCode::Row1) || is_released(e, KeyCode::Num1)
    } else if d == 2 {
        is_released(e, KeyCode::Row2) || is_released(e, KeyCode::Num2)
    } else {
        is_released(e, KeyCode::Row3) || is_released(e, KeyCode::Num3)
    }
}

pub open spec fn any_event(events: Seq<Event>, p: spec_fn(Event) -> bool) -> bool {
    exists|i: int| 0 <= i < events.len() && p(#[trigger] events[i])
}

/// Reads one frame of events.
pub fn read_events(events: &Vec<Event>) -> (r: FrameInput)
    ensures
        r.quit == any_event(events@, |e: Event| is_quit(e)),
        r.key_pressed == any_event(events@, |e: Event| is_any_press(e)),
        r.leaves_title == press_before_quit(events@),
        r.reset == any_event(events@, |e: Event| is_reset(e)),
        r.left_mouse_pressed == any_event(events@, |e: Event| is_pressed(e, KeyCode::MouseLeft)),
        r.left_mouse_released == any_event(events@, |e: Event| is_released(e, KeyCode::MouseLeft)),
        r.backspace_key == any_event(events@, |e: Event| is_released(e, KeyCode::Backspace)),
        r.enter_key == any_event(events@, |e: Event| is_released(e, KeyCode::Enter)),
        forall|d: int| 0 <= d < 4 ==> #[trigger] r.num_key@[d] == any_event(events@, |e: Event| is_digit_release(e, d)),
{
    let mut r = FrameInput {
        quit: false,
        key_pressed: false,
        leaves_title: false,
        reset: false,
        left_mouse_pressed: false,
        left_mouse_released: false,
        backspace_key: false,
        enter_key: false,
        num_key: [false, false, false, false],
    };
    let mut i: usize = 0;
    while i < events.len()
        invariant
            i <= events@.len(),
            r.quit == any_event(events@.take(i as int), |e: Event| is_quit(e)),
            r.key_pressed == any_event(events@.take(i as int), |e: Event| is_any_press(e)),
            r.leaves_title == press_before_quit(events@.take(i as int)),
            r.reset == any_event(events@.take(i as int), |e: Event| is_reset(e)),
            r.left_mouse_pressed == any_event(events@.take(i as int), |e: Event| is_pressed(e, KeyCode::MouseLeft)),
            r.left_mouse_released == any_event(events@.take(i as int), |e: Event| is_released(e, KeyCode::MouseLeft)),
            r.backspace_key == any_event(events@.take(i as int), |e: Event| is_released(e, KeyCode::Backspace)),
            r.enter_key == any_event(events@.take(i as int), |e: Event| is_released(e, KeyCode::Enter)),
            forall|d: int| 0 <= d < 4 ==> #[trigger] r.num_key@[d] == any_event(events@.take(i as int), |e: Event| is_digit_release(e, d)),
        decreases events.len() - i,
    {
        let e = events[i];
        let ghost pre = events@.take(i as int);
        let ghost post = events@.take(i as int + 1);
        assert(post =~= pre.push(e));
        proof {
            lemma_any_push(pre, e, |e: Event| is_quit(e));
            lemma_press_before_quit_push(pre, e);
        }
        if !r.quit {
            if let Event::KeyPressed { key, .. } = e {
                if key != KeyCode::Escape {
                    r.leaves_title = true;
                }
            }
        }
        if let Event::KeyPressed { key, ctrl, .. } = e {
            r.key_pressed = true;
            if key == KeyCode::R && ctrl {
                r.reset = true;
            }
        }
        match e {
            Event::Close => {
                r.quit = true;
            },
            Event::KeyPressed { key: KeyCode::Escape, .. } => {
                r.quit = true;
            },
            Event::KeyPressed { key: KeyCode::MouseLeft, .. } => {
                r.left_mouse_pressed = true;
            },
            Event::KeyReleased { key: KeyCode::MouseLeft, .. } => {
                r.left_mouse_released = true;
            },
            Event::KeyReleased { key: KeyCode::Row0, .. } | Event::KeyReleased { key: KeyCode::Num0, .. } => {
                r.num_key[0] = true;
            },
            Event::KeyReleased { key: KeyCode::Row1, .. } | Event::KeyReleased { key: KeyCode::Num1, .. } => {
                r.num_key[1] = true;
            },
            Event::KeyReleased { key: KeyCode::Row2, .. } | Event::KeyReleased { key: KeyCode::Num2, .. } => {
                r.num_key[2] = true;
            },
            Event::KeyReleased { key: KeyCode::Row3, .. } | Event::KeyReleased { key: KeyCode::Num3, .. } => {
                r.num_key[3] = true;
            },
            Event::KeyReleased { key: KeyCode::Backspace, .. } => {
                r.backspace_key = true;
            },
            Event::KeyReleased { key: KeyCode::Enter, .. } => {
                r.enter_key = true;
            },
            _ => {},
        }
        proof {
            lemma_any_push(pre, e, |e: Event| is_quit(e));
            lemma_any_push(pre, e, |e: Event| is_any_press(e));
            lemma_any_push(pre, e, |e: Event| is_reset(e));
            lemma_any_push(pre, e, |e: Event| is_pressed(e, KeyCode::MouseLeft));
            lemma_any_push(pre, e, |e: Event| is_released(e, KeyCode::MouseLeft));
            lemma_any_push(pre, e, |e: Event| is_released(e, KeyCode::Backspace));
            lemma_any_push(pre, e, |e: Event| is_released(e, KeyCode::Enter));
            assert forall|d: int| 0 <= d < 4 implies #[trigger] r.num_key@[d] == any_event(post, |e: Event| is_digit_release(e, d)) by {
                lemma_any_push(pre, e, |e: Event| is_digit_release(e, d));
            }
        }
        i = i + 1;
    }
    assert(events@.take(events.len() as int) =~= events@);
    r
}

proof fn lemma_press_before_quit_push(s: Seq<Event>, e: Event)
    ensures
        press_before_quit(s.push(e)) == (press_before_quit(s) || (is_any_press(e) && !is_quit(e)
            && !any_event(s, |x: Event| is_quit(x)))),
{
    let t = s.push(e);
    if press_before_quit(s) {
        let i = choose|i: int|
            0 <= i < s.len() && is_any_press(#[trigger] s[i]) && !is_quit(s[i]) && forall|j: int|
                0 <= j < i ==> !is_quit(#[trigger] s[j]);
        assert(t[i] == s[i]);
        assert forall|j: int| 0 <= j < i implies !is_quit(#[trigger] t[j]) by {
            assert(t[j] == s[j]);
        }
    }
    if is_any_press(e) && !is_quit(e) && !any_event(s, |x: Event| is_quit(x)) {
        let i = s.len() as int;
        assert(t[i] == e);
        assert forall|j: int| 0 <= j < i implies !is_quit(#[trigger] t[j]) by {
            assert(t[j] == s[j]);
            if is_quit(s[j]) {
                assert((|x: Event| is_quit(x))(s[j]));
            }
        }
    }
    if press_before_quit(t) {
        let i = choose|i: int|
            0 <= i < t.len() && is_any_press(#[trigger] t[i]) && !is_quit(t[i]) && forall|j: int|
                0 <= j < i ==> !is_quit(#[trigger] t[j]);
        if i < s.len() {
            assert(s[i] == t[i]);
            assert forall|j: int| 0 <= j < i implies !is_quit(#[trigger] s[j]) by {
                assert(t[j] == s[j]);
            }
        } else {
            if any_event(s, |x: Event| is_quit(x)) {
                let k = choose|k: int| 0 <= k < s.len() && (|x: Event| is_quit(x))(#[trigger] s[k]);
                assert(t[k] == s[k]);
            }
        }
    }
}

proof fn lemma_any_push(s: Seq<Event>, e: Event, p: spec_fn(Event) -> bool)
    ensures
        any_event(s.push(e), p) == (any_event(s, p) || p(e)),
{
    let t = s.push(e);
    if any_event(s, p) {
        let i = choose|i: int| 0 <= i < s.len() && p(#[trigger] s[i]);
        assert(t[i] == s[i]);
    }
    if p(e) {
        assert(t[s.len() as int] == e);
    }
    if any_event(t, p) {
        let i = choose|i: int| 0 <= i < t.len() && p(#[trigger] t[i]);
        if i < s.len() {
            assert(s[i] == t[i]);
        }
    }
}

} // verus!
