use inpr_os::desk::{
    corner_class, drag_position, icon_release, resize_by_corner, resize_cursor, resize_fits, task_class, task_press,
    window_class, AboutPage, IconRelease, TaskPress, MIN_WINDOW_HEIGHT, MIN_WINDOW_WIDTH,
};
use inpr_os::enums::Corner;

#[test]
fn resizing_from_the_bottom_right_grows_without_moving() {
    assert_eq!(resize_by_corner(Corner::BottomRight, (10, 20), (300, 200), 15, -5), ((315, 195), None));
}

#[test]
fn resizing_from_the_top_left_moves_the_window() {
    assert_eq!(resize_by_corner(Corner::TopLeft, (10, 20), (300, 200), 15, -5), ((285, 205), Some((25, 15))));
}

#[test]
fn resizing_stops_at_the_minimum_size() {
    let (size, pos) = resize_by_corner(Corner::TopLeft, (10, 20), (MIN_WINDOW_WIDTH, MIN_WINDOW_HEIGHT), 30, 30);
    assert_eq!(size, (MIN_WINDOW_WIDTH, MIN_WINDOW_HEIGHT));
    assert_eq!(pos, Some((10, 20)));
    assert_eq!(resize_by_corner(Corner::CenterLeft, (0, 0), (130, 90), 50, 0), ((120, 90), Some((50, 0))));
    assert_eq!(resize_by_corner(Corner::BottomCenter, (0, 0), (130, 90), 0, -50), ((130, 80), None));
}

#[test]
fn every_handle_moves_the_right_edges() {
    let pos = (100, 100);
    let size = (400, 300);
    assert_eq!(resize_by_corner(Corner::TopCenter, pos, size, 7, 10), ((400, 290), Some((100, 110))));
    assert_eq!(resize_by_corner(Corner::TopRight, pos, size, 7, 10), ((407, 290), Some((100, 110))));
    assert_eq!(resize_by_corner(Corner::CenterRight, pos, size, 7, 10), ((407, 300), None));
    assert_eq!(resize_by_corner(Corner::BottomLeft, pos, size, 7, 10), ((393, 310), Some((107, 100))));
}

#[test]
fn resize_fits_rejects_overflow() {
    assert!(resize_fits((0, 0), (100, 100), 5, 5));
    assert!(!resize_fits((i32::MAX, 0), (100, 100), 5, 5));
    assert!(!resize_fits((0, 0), (i32::MIN, 100), 5, 5));
}

#[test]
fn dragging_keeps_the_window_on_screen() {
    assert_eq!(drag_position((500, 300), (20, 10), (1000, 700), (300, 200)), (480, 290));
    assert_eq!(drag_position((5, 5), (20, 10), (1000, 700), (300, 200)), (0, 0));
    assert_eq!(drag_position((2000, 2000), (0, 0), (1000, 700), (300, 200)), (700, 500));
}

#[test]
fn handle_classes_and_cursors() {
    assert_eq!(corner_class(Corner::BottomLeft), "bottom-left");
    assert_eq!(corner_class(Corner::CenterRight), "center-right");
    assert_eq!(resize_cursor(Some(Corner::TopRight)), "ne-resize");
    assert_eq!(resize_cursor(Some(Corner::CenterLeft)), "w-resize");
    assert_eq!(resize_cursor(None), "nwse-resize");
}

#[test]
fn frame_and_task_classes() {
    assert_eq!(window_class(true, false), "window focused");
    assert_eq!(window_class(true, true), "window focused closing");
    assert_eq!(window_class(false, false), "window");
    assert_eq!(task_class(true, false), "bar-task focused");
    assert_eq!(task_class(true, true), "bar-task iconified");
    assert_eq!(task_class(false, false), "bar-task");
}

#[test]
fn task_bar_presses() {
    assert_eq!(task_press(true, true, false), TaskPress::Close);
    assert_eq!(task_press(false, true, false), TaskPress::Hide);
    assert_eq!(task_press(false, true, true), TaskPress::Show);
    assert_eq!(task_press(false, false, false), TaskPress::Show);
}

#[test]
fn desktop_icon_needs_two_releases_to_open() {
    let first = icon_release(false, false);
    assert_eq!(first, IconRelease { open: false, select: true, opened: false });
    let second = icon_release(true, first.opened);
    assert_eq!(second, IconRelease { open: true, select: false, opened: true });
    let third = icon_release(true, second.opened);
    assert_eq!(third, IconRelease { open: false, select: false, opened: false });
}

#[test]
fn about_pages() {
    let names: Vec<String> = AboutPage::all().iter().map(|p| p.to_string()).collect();
    assert_eq!(names, vec!["home", "projects", "socials"]);
}
