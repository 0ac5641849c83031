//! Immediate-mode widget state and screen geometry.
use vstd::prelude::*;

verus! {

pub type UiId = i32;

/// Which widget the mouse is over (`hot`), which one is being pressed
/// (`active`), and which one the mouse is over this frame (`next_hot`); 0 is
/// no widget.
pub struct UIContext {
    pub hot: UiId,
    pub active: UiId,
    pub next_hot: UiId,
}

impl UIContext {
    pub fn new() -> (r: Self)
        ensures
            r.hot == 0 && r.active == 0 && r.next_hot == 0,
    {
        UIContext { hot: 0, active: 0, next_hot: 0 }
    }

    pub fn set_not_active(&mut self)
        ensures
            final(self).active == 0,
            final(self).hot == old(self).hot,
            final(self).next_hot == old(self).next_hot,
    {
        self.active = 0;
    }

    pub fn set_active(&mut self, id: UiId)
        ensures
            final(self).active == id,
            final(self).hot == old(self).hot,
            final(self).next_hot == old(self).next_hot,
    {
        self.active = id;
    }

    pub fn set_next_hot(&mut self, id: UiId)
        ensures
            final(self).next_hot == id,
            final(self).hot == old(self).hot,
            final(self).active == old(self).active,
    {
        self.next_hot = id;
    }

    pub fn set_not_hot(&mut self)
        ensures
            final(self).hot == 0,
            final(self).active == old(self).active,
            final(self).next_hot == old(self).next_hot,
    {
        self.hot = 0;
    }

    /// Starts a frame: unless a widget is being pressed, the widget the mouse
    /// was over last frame becomes hot.
    pub fn frame_init(&mut self)
        ensures
            final(self).hot == if old(self).active == 0 {
                old(self).next_hot
            } else {
                old(self).hot
            },
            final(self).active == old(self).active,
            final(self).next_hot == 0,
    {
        if self.active == 0 {
            self.hot = self.next_hot;
        }
        self.next_hot = 0;
    }
}

/// A single on-screen point.
#[derive(Clone, Copy, Debug, Eq, Hash, PartialEq, Structural)]
pub struct Point {
    pub x: i32,
    pub y: i32,
}

impl Point {
    /// A point with negative coordinates moved to 0.
    pub fn new_safe(x: i32, y: i32) -> (r: Point)
        ensures
            r.x == if x >= 0 { x } else { 0 },
            r.y == if y >= 0 { y } else { 0 },
    {
        let x = if x >= 0 { x } else { 0 };
        let y = if y >= 0 { y } else { 0 };
        Point { x: x, y: y }
    }

    /// This point moved by `(x, y)`, with negative coordinates moved to 0.
    pub fn add(&self, x: i32, y: i32) -> (r: Point)
        requires
            i32::MIN <= self.x + x <= i32::MAX,
            i32::MIN <= self.y + y <= i32::MAX,
        ensures
            r.x == if self.x + x >= 0 { self.x + x } else { 0 },
            r.y == if self.y + y >= 0 { self.y + y } else { 0 },
    {
        Point::new_safe(self.x + x, self.y + y)
    }

    /// A point on non-negative coordinates.
    pub fn new(x: i32, y: i32) -> (r: Point)
        requires
            x >= 0,
            y >= 0,
        ensures
            r.x == x && r.y == y,
    {
        Point { x: x, y: y }
    }
}

/// A non-negative size.
#[derive(Clone, Copy, Debug, Eq, Hash, PartialEq, Structural)]
pub struct Size {
    pub width: i32,
    pub height: i32,
}

impl Size {
    pub fn new(width: i32, height: i32) -> (r: Size)
        requires
            width >= 0,
            height >= 0,
        ensures
            r.width == width && r.height == height,
    {
        Size { width: width, height: height }
    }
}

/// A rectangle: its four corners and its size.
#[derive(Clone, Copy, Debug, Eq, Hash, PartialEq, Structural)]
pub struct Rect {
    pub top_left: Point,
    pub top_right: Point,
    pub bottom_right: Point,
    pub bottom_left: Point,
    pub size: Size,
}

/// The rectangle with top-left corner `(x, y)` and the given size.
pub open spec fn rect_at(x: int, y: int, w: int, h: int) -> Rect {
    Rect {
        top_left: Point { x: x as i32, y: y as i32 },
        top_right: Point { x: (x + w) as i32, y: y as i32 },
        bottom_right: Point { x: (x + w) as i32, y: (y + h) as i32 },
        bottom_left: Point { x: x as i32, y: (y + h) as i32 },
        size: Size { width: w as i32, height: h as i32 },
    }
}

impl Rect {
    /// The rectangle from its top-left corner and its size.
    pub fn from_size(origin: Point, size: Size) -> (r: Rect)
        requires
            origin.x >= 0,
            origin.y >= 0,
            0 <= origin.x + size.width <= i32::MAX,
            0 <= origin.y + size.height <= i32::MAX,
        ensures
            r == rect_at(origin.x as int, origin.y as int, size.width as int, size.height as int),
    {
        let top_right = Point::new(origin.x + size.width, origin.y);
        let bottom_left = Point::new(origin.x, origin.y + size.height);
        let bottom_right = Point::new(top_right.x, bottom_left.y);
        Rect {
            top_left: origin,
            top_right: top_right,
            bottom_left: bottom_left,
            bottom_right: bottom_right,
            size: size,
        }
    }

    /// The rectangle from its top-left and bottom-right corners.
    pub fn from_points(top_left: Point, bottom_right: Point) -> (r: Rect)
        requires
            top_left.x >= 0,
            top_left.y >= 0,
            bottom_right.x >= top_left.x,
            bottom_right.y >= top_left.y,
        ensures
            r == rect_at(
                top_left.x as int,
                top_left.y as int,
                bottom_right.x - top_left.x,
                bottom_right.y - top_left.y,
            ),
    {
        let size = Size::new(bottom_right.x - top_left.x, bottom_right.y - top_left.y);
        Rect::from_size(top_left, size)
    }

    /// The rectangle from its top-left corner and its size, as numbers.
    pub fn from_values(x: i32, y: i32, width: i32, height: i32) -> (r: Rect)
        requires
            x >= 0,
            y >= 0,
            width >= 0,
            height >= 0,
            x + width <= i32::MAX,
            y + height <= i32::MAX,
        ensures
            r == rect_at(x as int, y as int, width as int, height as int),
    {
        let origin = Point::new(x, y);
        let size = Size::new(width, height);
        Rect::from_size(origin, size)
    }

    /// The rectangle from its top-left and bottom-right corners, as numbers.
    pub fn from_point_values(
        top_left_x: i32,
        top_left_y: i32,
        bottom_right_x: i32,
        bottom_right_y: i32,
    ) -> (r: Rect)
        requires
            top_left_x >= 0,
            top_left_y >= 0,
            bottom_right_x >= top_left_x,
            bottom_right_y >= top_left_y,
        ensures
            r == rect_at(
                top_left_x as int,
                top_left_y as int,
                bottom_right_x - top_left_x,
                bottom_right_y - top_left_y,
            ),
    {
        let top_left = Point::new(top_left_x, top_left_y);
        let bottom_right = Point::new(bottom_right_x, bottom_right_y);
        Rect::from_points(top_left, bottom_right)
    }
}

pub open spec fn inside(point: Point, x: int, y: int, w: int, h: int) -> bool {
    x <= point.x && y <= point.y && point.x < x + w && point.y < y + h
}

/// Whether `point` lies in the rectangle at `(x, y)` of size `w` by `h`.
pub fn inside_rect(point: Point, x: i32, y: i32, w: i32, h: i32) -> (r: bool)
    ensures
        r == inside(point, x as int, y as int, w as int, h as int),
{
    x <= point.x && y <= point.y && (point.x as i64) < (x as i64) + (w as i64) && (point.y as i64)
        < (y as i64) + (h as i64)
}

/// Where and what a button is.
pub struct ButtonSpec {
    pub x: i32,
    pub y: i32,
    pub w: i32,
    pub h: i32,
    pub text: String,
    pub id: i32,
}

/// How a button is drawn this frame.
#[derive(Clone, Copy, Debug, PartialEq, Eq, Structural)]
pub enum ButtonLook {
    Pressed,
    Hot,
    Plain,
}

/// One frame of a button: updates the widget state from the mouse and
/// reports a click, which is a release over the button that was pressed on it.
pub fn do_button(
    context: &mut UIContext,
    spec: &ButtonSpec,
    mouse_position: Point,
    left_mouse_pressed: bool,
    left_mouse_released: bool,
) -> (r: bool)
    ensures
        ({
            let id = spec.id;
            let over = inside(
                mouse_position,
                spec.x as int,
                spec.y as int,
                spec.w as int,
                spec.h as int,
            );
            &&& r == (old(context).active == id && left_mouse_released && old(context).hot == id
                && over)
            &&& final(context).active == if old(context).active == id {
                if left_mouse_released {
                    0
                } else {
                    id
                }
            } else if old(context).hot == id && left_mouse_pressed {
                id
            } else {
                old(context).active
            }
            &&& final(context).hot == old(context).hot
            &&& final(context).next_hot == if over {
                id
            } else {
                old(context).next_hot
            }
        }),
{
    let mut result = false;
    let over = inside_rect(mouse_position, spec.x, spec.y, spec.w, spec.h);
    let id = spec.id;
    if context.active == id {
        if left_mouse_released {
            result = context.hot == id && over;
            context.set_not_active();
        }
    } else if context.hot == id {
        if left_mouse_pressed {
            context.set_active(id);
        }
    }
    if over {
        context.set_next_hot(id);
    }
    result
}

/// How the button `id` is drawn after [`do_button`] ran for it.
pub fn button_look(context: &UIContext, id: UiId, left_mouse_pressed: bool) -> (r: ButtonLook)
    ensures
        r == if context.active == id && left_mouse_pressed {
            ButtonLook::Pressed
        } else if context.hot == id {
            ButtonLook::Hot
        } else {
            ButtonLook::Plain
        },
{
    if context.active == id && left_mouse_pressed {
        ButtonLook::Pressed
    } else if context.hot == id {
        ButtonLook::Hot
    } else {
        ButtonLook::Plain
    }
}

pub struct Color {
    pub red: u8,
    pub green: u8,
    pub blue: u8,
    pub alpha: u8,
}

} // verus!
