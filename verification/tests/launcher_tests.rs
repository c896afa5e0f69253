use z_tools::keys::{keycode_for, XK_CONTROL_L, XK_V};
use z_tools::launcher::is_taskbar_class;
use z_tools::launcher::{
    anchor_position, handle_of, hide_needed, hide_on_blur_needed, should_remember_foreground,
    toggle_action, tray_toggle_action, ClipboardWatcher, LauncherAction, PreviousForeground,
    WorkArea,
};

#[test]
fn centers_horizontally_and_anchors_top_at_quarter() {
    let work = WorkArea {
        x: 0,
        y: 0,
        width: 1920,
        height: 1080,
    };
    assert_eq!(anchor_position(work, (800, 600)), (560, 270));
}

#[test]
fn respects_secondary_monitor_offset() {
    let work = WorkArea {
        x: 1920,
        y: 0,
        width: 1920,
        height: 1080,
    };
    assert_eq!(anchor_position(work, (800, 600)), (2480, 270));
}

#[test]
fn clamps_to_left_edge_when_work_area_is_narrower() {
    let work = WorkArea {
        x: 100,
        y: 50,
        width: 600,
        height: 800,
    };
    let (x, y) = anchor_position(work, (800, 600));
    assert_eq!(x, work.x);
    assert_eq!(y, 250);
}

#[test]
fn anchor_rounds_halves_away_from_zero() {
    let work = WorkArea {
        x: -1921,
        y: -3,
        width: 801,
        height: 2,
    };
    // x = -1921 + 0.5 = -1920.5 -> -1921; y = -3 + 0.5 = -2.5 -> -3
    assert_eq!(anchor_position(work, (800, 0)), (-1921, -3));
    let work = WorkArea {
        x: 0,
        y: 0,
        width: 801,
        height: 6,
    };
    assert_eq!(anchor_position(work, (800, 0)), (1, 2));
}

#[test]
fn toggles_follow_visibility_and_focus() {
    assert_eq!(toggle_action(Some(true), Some(true)), LauncherAction::Hide);
    assert_eq!(toggle_action(Some(true), Some(false)), LauncherAction::Show);
    assert_eq!(toggle_action(None, Some(true)), LauncherAction::Show);
    assert_eq!(tray_toggle_action(Some(true)), LauncherAction::Hide);
    assert_eq!(tray_toggle_action(None), LauncherAction::Show);
    assert!(hide_needed(None));
    assert!(!hide_needed(Some(false)));
    assert!(hide_on_blur_needed(false, Some(true)));
    assert!(!hide_on_blur_needed(true, Some(true)));
    assert!(!hide_on_blur_needed(false, None));
}

#[test]
fn foreground_is_remembered_unless_taskbar_self_or_none() {
    assert!(should_remember_foreground(42, false, false));
    assert!(!should_remember_foreground(0, false, false));
    assert!(!should_remember_foreground(42, true, false));
    assert!(!should_remember_foreground(42, false, true));
    let prev = PreviousForeground::new();
    assert_eq!(prev.get(), None);
    prev.remember(7);
    assert_eq!(prev.get(), Some(7));
}

#[test]
fn watcher_handle_is_none_until_set() {
    let watcher = ClipboardWatcher::new();
    assert_eq!(watcher.hwnd(), None);
    watcher.set_hwnd(5);
    assert_eq!(watcher.hwnd(), Some(5));
    watcher.set_hwnd(0);
    assert_eq!(watcher.hwnd(), None);
    assert_eq!(handle_of(0), None);
    assert_eq!(handle_of(-3), Some(-3));
}

#[test]
fn taskbar_classes_are_recognised() {
    assert!(is_taskbar_class("Shell_TrayWnd"));
    assert!(is_taskbar_class("Shell_SecondaryTrayWnd"));
    assert!(!is_taskbar_class("Shell_TrayWnd2"));
    assert!(!is_taskbar_class("shell_traywnd"));
    assert!(!is_taskbar_class(""));
    assert!(!is_taskbar_class("Notepad"));
}

#[test]
fn keycode_is_found_in_the_group_of_the_first_match() {
    // Two keysyms per keycode, keycodes from 8 on.
    let keysyms: Vec<u32> = vec![0x61, 0x41, XK_V, 0x56, XK_CONTROL_L, 0, XK_V, 0];
    assert_eq!(keycode_for(8, 2, &keysyms, XK_V), Some(9));
    assert_eq!(keycode_for(8, 2, &keysyms, XK_CONTROL_L), Some(10));
    assert_eq!(keycode_for(8, 2, &keysyms, 0x1234), None);
    assert_eq!(keycode_for(8, 0, &keysyms, XK_V), None);
    assert_eq!(keycode_for(8, 1, &keysyms, XK_CONTROL_L), Some(12));
}

#[test]
fn keycode_beyond_255_is_none() {
    let keysyms: Vec<u32> = vec![1, 2, 3, 4];
    assert_eq!(keycode_for(254, 1, &keysyms, 2), Some(255));
    assert_eq!(keycode_for(254, 1, &keysyms, 3), None);
}
