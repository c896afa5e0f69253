use z_tools::backend::{
    after_files_read, after_image_read, after_text_read, decode_rgba, image_snapshot,
    write_payload, ClipboardPayload, FormatRead, ReadStep,
};
use z_tools::clipboard::Captured;
use z_tools::error::AppError;
use z_tools::keys::mapping_count;
use z_tools::platform::{
    activation_progress, activation_request_data, after_native_write, after_wl_copy, is_pure_wayland,
    is_wayland, paste_keystrokes, uri_list, windows_monitor_action, wl_copy_type,
    x11_monitor_action, x11_paste_outcome, ActivationStep, ChangeCounter, KeyStroke,
    MonitorAction, WriteStep, X11Event, ACTIVATION_TIMEOUT_MS, WM_CLIPBOARDUPDATE, WM_CLOSE,
};
use z_tools::platform::{is_alt_menu_command, SC_KEYMENU, WM_SYSCOMMAND};
use z_tools::text::{contains_text, eq_ignore_ascii_case};

#[test]
fn paste_chord_presses_and_releases_in_order() {
    let keys = paste_keystrokes(37, 55);
    assert_eq!(
        keys,
        vec![
            KeyStroke { key: 37, up: false },
            KeyStroke { key: 55, up: false },
            KeyStroke { key: 55, up: true },
            KeyStroke { key: 37, up: true },
        ]
    );
}

#[test]
fn change_counter_reports_each_number_once() {
    let mut counter = ChangeCounter::new(7);
    assert!(!counter.observe(7));
    assert!(counter.observe(8));
    assert!(!counter.observe(8));
    assert!(counter.observe(7));
    assert_eq!(counter.last, 7);
}

#[test]
fn x11_watcher_ignores_its_own_selection_and_stops_on_request() {
    let helper = 0x40_0001;
    let stop = 301;
    assert_eq!(
        x11_monitor_action(X11Event::SelectionNotify { owner: 0x20_0007 }, helper, stop),
        MonitorAction::Capture
    );
    assert_eq!(
        x11_monitor_action(X11Event::SelectionNotify { owner: helper }, helper, stop),
        MonitorAction::Skip
    );
    assert_eq!(
        x11_monitor_action(X11Event::ClientMessage { window: helper, message_type: stop }, helper, stop),
        MonitorAction::Stop
    );
    assert_eq!(
        x11_monitor_action(X11Event::ClientMessage { window: helper, message_type: 5 }, helper, stop),
        MonitorAction::Skip
    );
    assert_eq!(
        x11_monitor_action(X11Event::ClientMessage { window: 9, message_type: stop }, helper, stop),
        MonitorAction::Skip
    );
    assert_eq!(x11_monitor_action(X11Event::Other, helper, stop), MonitorAction::Skip);
}

#[test]
fn windows_watcher_reacts_to_update_close_and_quit() {
    let own = 0x1234;
    assert_eq!(windows_monitor_action(1, WM_CLIPBOARDUPDATE, own, own), MonitorAction::Capture);
    assert_eq!(windows_monitor_action(1, WM_CLOSE, own, own), MonitorAction::Stop);
    assert_eq!(windows_monitor_action(1, WM_CLOSE, 0x9999, own), MonitorAction::Skip);
    assert_eq!(windows_monitor_action(1, 0x0113, own, own), MonitorAction::Skip);
    assert_eq!(windows_monitor_action(0, WM_CLIPBOARDUPDATE, own, own), MonitorAction::Stop);
    assert_eq!(windows_monitor_action(-1, 0, 0, own), MonitorAction::Stop);
}

#[test]
fn wayland_session_detection() {
    assert!(is_wayland(true, None));
    assert!(is_wayland(false, Some("wayland")));
    assert!(is_wayland(false, Some("Wayland")));
    assert!(is_wayland(false, Some("WAYLAND")));
    assert!(!is_wayland(false, Some("x11")));
    assert!(!is_wayland(false, Some("waylands")));
    assert!(!is_wayland(false, None));
    assert!(is_pure_wayland(true, false));
    assert!(!is_pure_wayland(true, true));
    assert!(!is_pure_wayland(false, false));
}

#[test]
fn native_write_failure_falls_back_only_under_wayland() {
    assert!(matches!(after_native_write(Ok(()), true), WriteStep::Finished(Ok(()))));
    assert!(matches!(
        after_native_write(Err(AppError::Clipboard("busy".into())), false),
        WriteStep::Finished(Err(AppError::Clipboard(m))) if m == "busy"
    ));
    assert!(matches!(
        after_native_write(Err(AppError::Clipboard("busy".into())), true),
        WriteStep::TryWlCopy(AppError::Clipboard(m)) if m == "busy"
    ));
}

#[test]
fn wl_copy_failure_message_names_both_causes() {
    let native = AppError::Clipboard("no display".into());
    match after_wl_copy(native, Err("not found".into()), true) {
        Err(AppError::Unsupported(m)) => assert_eq!(
            m,
            "纯 Wayland 环境无法写入剪贴板：arboard 未能连接到剪贴板，且未找到可用 wl-copy 工具。请启用 XWayland 或安装 wl-clipboard。（arboard: 剪贴板错误: no display，wl-copy: not found）"
        ),
        other => panic!("unexpected {other:?}"),
    }
    let native = AppError::Clipboard("denied".into());
    match after_wl_copy(native, Err("exit 1".into()), false) {
        Err(AppError::Unsupported(m)) => assert_eq!(
            m,
            "当前 Wayland 环境无法写入剪贴板：arboard 写入失败且未找到可用 wl-copy 工具。请检查剪贴板权限或安装 wl-clipboard。（arboard: 剪贴板错误: denied，wl-copy: exit 1）"
        ),
        other => panic!("unexpected {other:?}"),
    }
    assert!(after_wl_copy(AppError::Clipboard("x".into()), Ok(()), true).is_ok());
}

#[test]
fn wl_copy_types_and_uri_list() {
    assert_eq!(wl_copy_type(&Captured::Text("a".into())), None);
    assert_eq!(wl_copy_type(&Captured::Files(vec!["/a".into()])), Some("text/uri-list"));
    let image = Captured::Image {
        png: vec![],
        thumb_png: vec![],
        width: 1,
        height: 1,
        rgba_hash: String::new(),
    };
    assert_eq!(wl_copy_type(&image), Some("image/png"));
    assert_eq!(
        uri_list(&vec!["file:///a".into(), "file:///b%20c".into()]),
        "file:///a\r\nfile:///b%20c\r\n"
    );
    assert_eq!(uri_list(&vec![]), "");
}

#[test]
fn x11_paste_treats_missing_display_as_done() {
    assert!(x11_paste_outcome(Ok(())).is_ok());
    assert!(x11_paste_outcome(Err("连接 X11 显示失败: refused".into())).is_ok());
    assert!(matches!(
        x11_paste_outcome(Err("找不到 v 的 keycode".into())),
        Err(AppError::Clipboard(m)) if m == "找不到 v 的 keycode"
    ));
}

#[test]
fn activation_request_and_wait() {
    assert_eq!(activation_request_data(Some(0x77)), [1, 0, 0x77, 0, 0]);
    assert_eq!(activation_request_data(None), [1, 0, 0, 0, 0]);
    assert_eq!(activation_progress(Some(5), 5, 0), ActivationStep::Done);
    assert_eq!(activation_progress(Some(5), 5, 1000), ActivationStep::Done);
    assert_eq!(activation_progress(Some(4), 5, 0), ActivationStep::Wait);
    assert_eq!(activation_progress(None, 5, ACTIVATION_TIMEOUT_MS - 1), ActivationStep::Wait);
    assert_eq!(activation_progress(None, 5, ACTIVATION_TIMEOUT_MS), ActivationStep::TimedOut);
}

#[test]
fn keyboard_mapping_count_saturates() {
    assert_eq!(mapping_count(8, 255), 248);
    assert_eq!(mapping_count(0, 255), 255);
    assert_eq!(mapping_count(10, 10), 1);
    assert_eq!(mapping_count(10, 5), 1);
}

#[test]
fn text_search_helpers() {
    assert!(contains_text("连接 X11 显示失败", "连接 X11"));
    assert!(contains_text("abc", ""));
    assert!(!contains_text("ab", "abc"));
    assert!(!contains_text("连接 x11", "连接 X11"));
    assert!(eq_ignore_ascii_case("WayLand", "wayland"));
    assert!(!eq_ignore_ascii_case("wayland ", "wayland"));
    assert!(!eq_ignore_ascii_case("ÉA", "éa"));
}

#[test]
fn image_written_back_decodes_to_its_pixels() {
    let pixels: Vec<u8> = vec![
        255, 0, 0, 255, 0, 255, 0, 255, 0, 0, 255, 255, 10, 20, 30, 40, 50, 60, 70, 80, 90, 100,
        110, 120,
    ];
    let captured = image_snapshot(3, 2, pixels.clone()).expect("image is kept");
    match write_payload(&captured) {
        Ok(ClipboardPayload::Image { width, height, rgba }) => {
            assert_eq!((width, height), (3, 2));
            assert_eq!(rgba, pixels);
        }
        other => panic!("unexpected {other:?}"),
    }
    assert!(matches!(decode_rgba(b"not a png"), Err(AppError::Clipboard(_))));
}

#[test]
fn text_and_files_written_back_as_they_are() {
    assert!(matches!(
        write_payload(&Captured::Text(" a ".into())),
        Ok(ClipboardPayload::Text(t)) if t == " a "
    ));
    assert!(matches!(
        write_payload(&Captured::Files(vec!["/x".into(), "/y".into()])),
        Ok(ClipboardPayload::Files(p)) if p == vec!["/x".to_string(), "/y".to_string()]
    ));
}

#[test]
fn read_prefers_files_then_image_then_text() {
    assert!(matches!(
        after_files_read(FormatRead::Read(vec!["/a".into()])),
        ReadStep::Done(Some(Captured::Files(p))) if p == vec!["/a".to_string()]
    ));
    assert!(matches!(after_files_read(FormatRead::Read(vec![])), ReadStep::Next));
    assert!(matches!(after_files_read(FormatRead::Unavailable), ReadStep::Next));
    assert!(matches!(after_files_read(FormatRead::Occupied), ReadStep::Occupied));

    // An image ends the read even when it is too large to keep.
    assert!(matches!(
        after_image_read(FormatRead::Read((100_000, 100_000, vec![]))),
        ReadStep::Done(None)
    ));
    assert!(matches!(
        after_image_read(FormatRead::Read((1, 1, vec![1, 2, 3, 4]))),
        ReadStep::Done(Some(Captured::Image { width: 1, height: 1, .. }))
    ));
    assert!(matches!(after_image_read(FormatRead::Unavailable), ReadStep::Next));
    assert!(matches!(after_image_read(FormatRead::Occupied), ReadStep::Occupied));

    assert!(matches!(
        after_text_read(FormatRead::Read("hi".into())),
        ReadStep::Done(Some(Captured::Text(t))) if t == "hi"
    ));
    assert!(matches!(after_text_read(FormatRead::Read("  ".into())), ReadStep::Done(None)));
    assert!(matches!(after_text_read(FormatRead::Unavailable), ReadStep::Done(None)));
    assert!(matches!(after_text_read(FormatRead::Occupied), ReadStep::Occupied));
}

#[test]
fn only_the_alt_menu_command_is_swallowed() {
    assert!(is_alt_menu_command(WM_SYSCOMMAND, SC_KEYMENU));
    assert!(is_alt_menu_command(WM_SYSCOMMAND, SC_KEYMENU | 0x000D));
    // SC_CLOSE (Alt+F4) passes.
    assert!(!is_alt_menu_command(WM_SYSCOMMAND, 0xF060));
    assert!(!is_alt_menu_command(0x0100, SC_KEYMENU));
}

#[test]
fn bytes_that_are_not_png_do_not_decode() {
    assert!(matches!(decode_rgba(&[]), Err(AppError::Clipboard(_))));
    assert!(matches!(decode_rgba(&[137, 80, 78, 71]), Err(AppError::Clipboard(_))));
    let not_png = Captured::Image {
        png: b"GIF89a".to_vec(),
        thumb_png: vec![],
        width: 1,
        height: 1,
        rgba_hash: String::new(),
    };
    assert!(matches!(write_payload(&not_png), Err(AppError::Clipboard(_))));
}
