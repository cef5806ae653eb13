use inpr_os::enums::Corner;
use inpr_os::wm::{
    close_window, find_process, find_process_with_window, find_window, force_close_window, kill_process,
    set_window_dragging, set_window_focused, set_window_iconified, set_window_maximized, set_window_no_transition,
    set_window_resize_corner, spawn_window, Process, WindowState,
};

fn window(id: u128) -> WindowState {
    WindowState {
        id,
        no_transition: false,
        focused: false,
        dragging: false,
        resize_corner: None,
        maximized: false,
        iconified: false,
        closing: false,
    }
}

fn process(id: u32, name: &str, windows: Vec<u128>) -> Process {
    Process { id, name: name.to_owned(), windows }
}

#[test]
fn spawned_window_takes_the_focus() {
    let mut ws = vec![WindowState { focused: true, ..window(1) }, window(2)];
    spawn_window(&mut ws, window(3));
    assert_eq!(ws.len(), 3);
    assert!(!ws[0].focused && !ws[1].focused);
    assert!(ws[2].focused);
}

#[test]
fn spawned_window_waits_while_another_is_dragged() {
    let mut ws = vec![WindowState { dragging: true, ..window(1) }, WindowState { focused: true, ..window(2) }];
    spawn_window(&mut ws, window(3));
    assert!(ws[0].focused);
    assert!(!ws[1].focused);
    assert!(!ws[2].focused);
}

#[test]
fn focusing_a_window_takes_the_focus_from_the_others() {
    let mut ws = vec![WindowState { focused: true, ..window(1) }, window(2), window(3)];
    set_window_focused(&mut ws, 2, true);
    let focused: Vec<u128> = ws.iter().filter(|w| w.focused).map(|w| w.id).collect();
    assert_eq!(focused, vec![2]);
    set_window_focused(&mut ws, 2, false);
    assert!(ws.iter().all(|w| !w.focused));
    set_window_focused(&mut ws, 9, true);
    assert!(ws.iter().all(|w| !w.focused));
}

#[test]
fn close_window_marks_it_closing() {
    let mut ws = vec![window(1), window(2)];
    assert!(close_window(&mut ws, 2));
    assert!(!ws[0].closing && ws[1].closing);
    assert!(!close_window(&mut ws, 7));
    assert_eq!(find_window(&ws, 2), Some(1));
    assert_eq!(find_window(&ws, 7), None);
}

#[test]
fn force_close_removes_the_window_and_its_owner_link() {
    let mut ws = vec![window(1), window(2), window(3)];
    let mut ps = vec![process(1, "terminal", vec![1, 2]), process(2, "hydra", vec![3])];
    assert!(force_close_window(&mut ws, &mut ps, 2));
    assert_eq!(ws.iter().map(|w| w.id).collect::<Vec<_>>(), vec![1, 3]);
    assert_eq!(ps[0].windows, vec![1]);
    assert_eq!(ps[1].windows, vec![3]);
    assert_eq!(find_process_with_window(&ps, 2), None);
    assert_eq!(find_process_with_window(&ps, 3), Some(1));
}

#[test]
fn kill_process_closes_its_windows() {
    let mut ws = vec![window(10), window(20), window(30)];
    let mut ps = vec![process(1, "kernel", vec![]), process(5, "hydra", vec![10, 30])];
    let (closing, panic) = kill_process(&mut ps, &mut ws, 5);
    assert_eq!(closing, vec![10, 30]);
    assert!(!panic);
    assert!(ws[0].closing && !ws[1].closing && ws[2].closing);
    assert_eq!(ps.len(), 1);
    assert_eq!(find_process(&ps, 5), None);
}

#[test]
fn killing_process_one_brings_the_system_down() {
    let mut ws = vec![window(10)];
    let mut ps = vec![process(1, "kernel", vec![10])];
    let (closing, panic) = kill_process(&mut ps, &mut ws, 1);
    assert!(panic);
    assert_eq!(closing, vec![10]);
    assert!(ps.is_empty());
}

#[test]
fn killing_an_unknown_process_changes_nothing() {
    let mut ws = vec![window(10)];
    let mut ps = vec![process(2, "about", vec![10])];
    let (closing, panic) = kill_process(&mut ps, &mut ws, 9);
    assert!(closing.is_empty());
    assert!(!panic);
    assert_eq!(ps.len(), 1);
    assert!(!ws[0].closing);
}

#[test]
fn windows_len_counts_open_windows() {
    let ws = vec![window(1), WindowState { closing: true, ..window(2) }, window(3), window(4)];
    let p = process(3, "terminal", vec![1, 2, 3]);
    assert_eq!(p.windows_len(&ws), 2);
}

#[test]
fn spawned_window_waits_while_another_is_resized() {
    let mut ws = vec![WindowState { resize_corner: Some(Corner::BottomRight), ..window(1) }];
    spawn_window(&mut ws, window(2));
    assert!(ws[0].focused);
    assert!(!ws[1].focused);
}

#[test]
fn force_close_of_a_closing_window_owes_no_handler_call() {
    let mut ws = vec![window(1)];
    let mut ps = vec![process(2, "about", vec![1])];
    assert!(close_window(&mut ws, 1));
    assert!(!force_close_window(&mut ws, &mut ps, 1));
    assert!(ws.is_empty());
    assert!(!force_close_window(&mut ws, &mut ps, 1));
}

#[test]
fn setters_change_only_the_first_window_with_the_id() {
    let mut ws = vec![window(1), window(2), window(2)];
    set_window_dragging(&mut ws, 2, true);
    set_window_resize_corner(&mut ws, 2, Some(Corner::TopLeft));
    set_window_maximized(&mut ws, 2, true);
    set_window_iconified(&mut ws, 2, true);
    set_window_no_transition(&mut ws, 2, true);
    let w = ws[1];
    assert!(w.dragging && w.maximized && w.iconified && w.no_transition);
    assert_eq!(w.resize_corner, Some(Corner::TopLeft));
    assert_eq!(ws[0], window(1));
    assert_eq!(ws[2], window(2));
    set_window_iconified(&mut ws, 9, true);
    assert_eq!(ws[0], window(1));
}

#[test]
fn a_process_adds_and_closes_its_windows() {
    let mut ws = vec![WindowState { focused: true, ..window(1) }];
    let mut p = Process::new(4, "terminal");
    assert_eq!(p.name, "terminal");
    assert!(!p.has_window(2));
    p.add_window(&mut ws, window(2));
    p.add_window(&mut ws, window(3));
    assert!(p.has_window(2) && p.has_window(3));
    assert!(!ws[0].focused && !ws[1].focused && ws[2].focused);
    assert_eq!(p.windows_len(&ws), 2);
    let closing = p.close_all_windows(&mut ws);
    assert_eq!(closing, vec![2, 3]);
    assert!(p.windows.is_empty());
    assert!(!ws[0].closing && ws[1].closing && ws[2].closing);
}
