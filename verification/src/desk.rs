//! The desktop's decisions that do not depend on the browser: how a window
//! follows the mouse when it is dragged or resized, and what a click on a
//! task-bar entry or a desktop icon does.
use vstd::prelude::*;
use crate::enums::Corner;
use crate::text::owned;

verus! {

/// The narrowest a window can be made by resizing it.
pub const MIN_WINDOW_WIDTH: i32 = 120;

/// The lowest a window can be made by resizing it.
pub const MIN_WINDOW_HEIGHT: i32 = 80;

/// The larger of `a` and `b`.
pub open spec fn larger(a: int, b: int) -> int {
    if a >= b { a } else { b }
}

/// `v` held between `lo` and `hi`.
pub open spec fn clamped(v: int, lo: int, hi: int) -> int {
    if v < lo { lo } else if v > hi { hi } else { v }
}

/// The arithmetic of a resize step stays within `i32`.
pub open spec fn resize_in_range(pos: (i32, i32), size: (i32, i32), dx: i32, dy: i32) -> bool {
    &&& i32::MIN <= pos.0 + dx <= i32::MAX
    &&& i32::MIN <= pos.1 + dy <= i32::MAX
    &&& i32::MIN <= size.0 + dx <= i32::MAX
    &&& i32::MIN <= size.0 - dx <= i32::MAX
    &&& i32::MIN <= size.1 + dy <= i32::MAX
    &&& i32::MIN <= size.1 - dy <= i32::MAX
}

/// A window's new size, and its new position when the step moves it, after
/// the mouse moved by `(dx, dy)` while holding the resize handle `corner`.
/// A handle on the left or top edge moves that edge: the window grows the
/// other way, and it moves only when its size really changed.
pub open spec fn resized(corner: Corner, pos: (i32, i32), size: (i32, i32), dx: i32, dy: i32) -> ((int, int), Option<(int, int)>) {
    let (x, y) = (pos.0 as int, pos.1 as int);
    let (w, h) = (size.0 as int, size.1 as int);
    let left_w = larger(w - dx, MIN_WINDOW_WIDTH as int);
    let right_w = larger(w + dx, MIN_WINDOW_WIDTH as int);
    let top_h = larger(h - dy, MIN_WINDOW_HEIGHT as int);
    let bottom_h = larger(h + dy, MIN_WINDOW_HEIGHT as int);
    let left_x = if left_w != w { x + dx } else { x };
    let top_y = if top_h != h { y + dy } else { y };
    match corner {
        Corner::TopLeft => ((left_w, top_h), Some((left_x, top_y))),
        Corner::TopCenter => ((w, top_h), Some((x, top_y))),
        Corner::TopRight => ((right_w, top_h), Some((x, top_y))),
        Corner::CenterRight => ((right_w, h), None),
        Corner::BottomRight => ((right_w, bottom_h), None),
        Corner::BottomCenter => ((w, bottom_h), None),
        Corner::BottomLeft => ((left_w, bottom_h), Some((left_x, y))),
        Corner::CenterLeft => ((left_w, h), Some((left_x, y))),
    }
}

/// Whether the handle `corner` lies on the window's left edge.
pub open spec fn on_left(corner: Corner) -> bool {
    corner == Corner::TopLeft || corner == Corner::CenterLeft || corner == Corner::BottomLeft
}

/// Whether the handle `corner` lies on the window's right edge.
pub open spec fn on_right(corner: Corner) -> bool {
    corner == Corner::TopRight || corner == Corner::CenterRight || corner == Corner::BottomRight
}

/// Whether the handle `corner` lies on the window's top edge.
pub open spec fn on_top(corner: Corner) -> bool {
    corner == Corner::TopLeft || corner == Corner::TopCenter || corner == Corner::TopRight
}

/// Whether the handle `corner` lies on the window's bottom edge.
pub open spec fn on_bottom(corner: Corner) -> bool {
    corner == Corner::BottomLeft || corner == Corner::BottomCenter || corner == Corner::BottomRight
}

/// A resize step moves only the edges that the handle lies on: a width (or
/// height) that the handle changes never goes below the minimum, one that it
/// does not change stays as it was, and the edge opposite the handle stays in
/// place unless the window stopped at its minimum size.
pub proof fn law_resize_moves_only_the_grabbed_edges(corner: Corner, pos: (i32, i32), size: (i32, i32), dx: i32, dy: i32)
    ensures
        ({
            let (s, p) = resized(corner, pos, size, dx, dy);
            let (x, y) = match p {
                Some(q) => q,
                None => (pos.0 as int, pos.1 as int),
            };
            &&& (on_left(corner) || on_right(corner)) ==> s.0 >= MIN_WINDOW_WIDTH
            &&& !(on_left(corner) || on_right(corner)) ==> s.0 == size.0 && x == pos.0
            &&& (on_top(corner) || on_bottom(corner)) ==> s.1 >= MIN_WINDOW_HEIGHT
            &&& !(on_top(corner) || on_bottom(corner)) ==> s.1 == size.1 && y == pos.1
            &&& on_right(corner) ==> x == pos.0
            &&& on_bottom(corner) ==> y == pos.1
            &&& on_left(corner) && size.0 - dx >= MIN_WINDOW_WIDTH ==> x + s.0 == pos.0 + size.0
            &&& on_top(corner) && size.1 - dy >= MIN_WINDOW_HEIGHT ==> y + s.1 == pos.1 + size.1
        }),
{
}

fn at_least(v: i32, min: i32) -> (res: i32)
    ensures
        res == larger(v as int, min as int),
{
    if v >= min { v } else { min }
}

/// Whether a resize step can be computed within `i32`.
pub fn resize_fits(pos: (i32, i32), size: (i32, i32), dx: i32, dy: i32) -> (res: bool)
    ensures
        res == resize_in_range(pos, size, dx, dy),
{
    let (x, y) = (pos.0 as i64, pos.1 as i64);
    let (w, h) = (size.0 as i64, size.1 as i64);
    let (dx, dy) = (dx as i64, dy as i64);
    let lo = i32::MIN as i64;
    let hi = i32::MAX as i64;
    lo <= x + dx && x + dx <= hi && lo <= y + dy && y + dy <= hi && lo <= w + dx && w + dx <= hi
        && lo <= w - dx && w - dx <= hi && lo <= h + dy && h + dy <= hi && lo <= h - dy && h - dy <= hi
}

/// One step of resizing a window by the handle `corner`: the new size, and
/// the new position when the window moves.
pub fn resize_by_corner(corner: Corner, pos: (i32, i32), size: (i32, i32), dx: i32, dy: i32) -> (res: (
    (i32, i32),
    Option<(i32, i32)>,
))
    requires
        resize_in_range(pos, size, dx, dy),
    ensures
        ({
            let (s, p) = resized(corner, pos, size, dx, dy);
            &&& res.0.0 == s.0 && res.0.1 == s.1
            &&& match p {
                Some(q) => res.1 matches Some(r) && r.0 == q.0 && r.1 == q.1,
                None => res.1 is None,
            }
        }),
{
    let (x, y) = pos;
    let (w, h) = size;
    let left_w = at_least(w - dx, MIN_WINDOW_WIDTH);
    let right_w = at_least(w + dx, MIN_WINDOW_WIDTH);
    let top_h = at_least(h - dy, MIN_WINDOW_HEIGHT);
    let bottom_h = at_least(h + dy, MIN_WINDOW_HEIGHT);
    let left_x = if left_w != w { x + dx } else { x };
    let top_y = if top_h != h { y + dy } else { y };
    match corner {
        Corner::TopLeft => ((left_w, top_h), Some((left_x, top_y))),
        Corner::TopCenter => ((w, top_h), Some((x, top_y))),
        Corner::TopRight => ((right_w, top_h), Some((x, top_y))),
        Corner::CenterRight => ((right_w, h), None),
        Corner::BottomRight => ((right_w, bottom_h), None),
        Corner::BottomCenter => ((w, bottom_h), None),
        Corner::BottomLeft => ((left_w, bottom_h), Some((left_x, y))),
        Corner::CenterLeft => ((left_w, h), Some((left_x, y))),
    }
}

/// Where a dragged window goes when the mouse is at `page` and grabbed the
/// title bar at `offset`: it stays wholly inside the `view` area (the
/// screen above the task bar), given its `size`.
pub fn drag_position(page: (i32, i32), offset: (i32, i32), view: (i32, i32), size: (i32, i32)) -> (res: (i32, i32))
    requires
        i32::MIN <= page.0 - offset.0 <= i32::MAX,
        i32::MIN <= page.1 - offset.1 <= i32::MAX,
        0 <= view.0 - size.0 <= i32::MAX,
        0 <= view.1 - size.1 <= i32::MAX,
    ensures
        res.0 == clamped(page.0 - offset.0, 0, view.0 - size.0),
        res.1 == clamped(page.1 - offset.1, 0, view.1 - size.1),
        0 <= res.0 <= view.0 - size.0,
        0 <= res.1 <= view.1 - size.1,
{
    let x = page.0 - offset.0;
    let y = page.1 - offset.1;
    let max_x = view.0 - size.0;
    let max_y = view.1 - size.1;
    let cx = if x < 0 { 0 } else if x > max_x { max_x } else { x };
    let cy = if y < 0 { 0 } else if y > max_y { max_y } else { y };
    (cx, cy)
}

/// The style class of a resize handle.
pub fn corner_class(corner: Corner) -> (res: &'static str)
    ensures
        res@ == match corner {
            Corner::TopLeft => "top-left"@,
            Corner::TopCenter => "top-center"@,
            Corner::TopRight => "top-right"@,
            Corner::CenterRight => "center-right"@,
            Corner::BottomRight => "bottom-right"@,
            Corner::BottomCenter => "bottom-center"@,
            Corner::BottomLeft => "bottom-left"@,
            Corner::CenterLeft => "center-left"@,
        },
{
    match corner {
        Corner::TopLeft => "top-left",
        Corner::TopCenter => "top-center",
        Corner::TopRight => "top-right",
        Corner::CenterRight => "center-right",
        Corner::BottomRight => "bottom-right",
        Corner::BottomCenter => "bottom-center",
        Corner::BottomLeft => "bottom-left",
        Corner::CenterLeft => "center-left",
    }
}

/// The mouse cursor shown while a window is resized by `corner`.
pub fn resize_cursor(corner: Option<Corner>) -> (res: &'static str)
    ensures
        res@ == match corner {
            Some(Corner::TopLeft) => "nw-resize"@,
            Some(Corner::TopRight) => "ne-resize"@,
            Some(Corner::TopCenter) => "n-resize"@,
            Some(Corner::CenterRight) => "e-resize"@,
            Some(Corner::BottomRight) => "se-resize"@,
            Some(Corner::BottomCenter) => "s-resize"@,
            Some(Corner::BottomLeft) => "sw-resize"@,
            Some(Corner::CenterLeft) => "w-resize"@,
            None => "nwse-resize"@,
        },
{
    match corner {
        Some(Corner::TopLeft) => "nw-resize",
        Some(Corner::TopRight) => "ne-resize",
        Some(Corner::TopCenter) => "n-resize",
        Some(Corner::CenterRight) => "e-resize",
        Some(Corner::BottomRight) => "se-resize",
        Some(Corner::BottomCenter) => "s-resize",
        Some(Corner::BottomLeft) => "sw-resize",
        Some(Corner::CenterLeft) => "w-resize",
        None => "nwse-resize",
    }
}

/// The style classes of a window frame.
pub fn window_class(focused: bool, closing: bool) -> (res: String)
    ensures
        res@ == "window"@ + (if focused { " focused"@ } else { ""@ }) + (if closing { " closing"@ } else { ""@ }),
{
    let mut c = owned("window");
    if focused {
        crate::text::push_str(&mut c, " focused");
    }
    if closing {
        crate::text::push_str(&mut c, " closing");
    }
    proof {
        reveal_strlit("");
    }
    c
}

/// The style classes of a task-bar entry: a hidden window is never shown
/// as the focused one.
pub fn task_class(focused: bool, iconified: bool) -> (res: String)
    ensures
        res@ == "bar-task"@ + (if focused && !iconified { " focused"@ } else { ""@ }) + (if iconified {
            " iconified"@
        } else {
            ""@
        }),
{
    let mut c = owned("bar-task");
    if focused && !iconified {
        crate::text::push_str(&mut c, " focused");
    }
    if iconified {
        crate::text::push_str(&mut c, " iconified");
    }
    proof {
        reveal_strlit("");
    }
    c
}

/// What a press on a task-bar entry does to its window.
#[derive(Clone, Copy, Debug, PartialEq, Eq, Structural)]
pub enum TaskPress {
    /// Close the window (the middle button).
    Close,
    /// Hide the window and take its focus.
    Hide,
    /// Show the window and give it the focus.
    Show,
}

/// The middle button closes the window; another button hides the window
/// when it is shown and has the focus, and shows and focuses it otherwise.
pub fn task_press(middle_button: bool, focused: bool, iconified: bool) -> (res: TaskPress)
    ensures
        res == if middle_button {
            TaskPress::Close
        } else if !iconified && focused {
            TaskPress::Hide
        } else {
            TaskPress::Show
        },
{
    if middle_button {
        TaskPress::Close
    } else if !iconified && focused {
        TaskPress::Hide
    } else {
        TaskPress::Show
    }
}

/// What releasing the mouse on a desktop icon does.
#[derive(Clone, Copy, Debug, PartialEq, Eq, Structural)]
pub struct IconRelease {
    /// The icon's program is started.
    pub open: bool,
    /// The icon becomes the selected one.
    pub select: bool,
    /// Whether the icon counts as opened afterwards.
    pub opened: bool,
}

/// A release on an icon that is not selected selects it; on the selected
/// icon it starts the program, and the release after that only rearms it.
pub fn icon_release(selected: bool, opened: bool) -> (res: IconRelease)
    ensures
        res == if !selected {
            IconRelease { open: false, select: true, opened }
        } else if !opened {
            IconRelease { open: true, select: false, opened: true }
        } else {
            IconRelease { open: false, select: false, opened: false }
        },
{
    if !selected {
        IconRelease { open: false, select: true, opened }
    } else if !opened {
        IconRelease { open: true, select: false, opened: true }
    } else {
        IconRelease { open: false, select: false, opened: false }
    }
}

/// The pages of the about window.
#[derive(Clone, Copy, Debug, PartialEq, Eq, Structural)]
pub enum AboutPage {
    Home,
    Projects,
    Socials,
}

impl AboutPage {
    /// Every page, in the order of the window's links.
    pub fn all() -> (res: &'static [AboutPage])
        ensures
            res@ == seq![AboutPage::Home, AboutPage::Projects, AboutPage::Socials],
    {
        &[AboutPage::Home, AboutPage::Projects, AboutPage::Socials]
    }

    /// The page's name as its link shows it.
    pub fn to_string(&self) -> (res: String)
        ensures
            res@ == match *self {
                AboutPage::Home => "home"@,
                AboutPage::Projects => "projects"@,
                AboutPage::Socials => "socials"@,
            },
    {
        match self {
            AboutPage::Home => owned("home"),
            AboutPage::Projects => owned("projects"),
            AboutPage::Socials => owned("socials"),
        }
    }
}

} // verus!
