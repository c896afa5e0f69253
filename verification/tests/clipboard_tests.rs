use z_tools::clipboard::{
    domain_hash, file_name_of, now_ms, searchable_text, Captured, ClipboardKind,
};
use z_tools::error::AppError;

fn image(hash: &str) -> Captured {
    Captured::Image {
        png: vec![1, 2, 3],
        thumb_png: vec![],
        width: 2,
        height: 2,
        rgba_hash: hash.into(),
    }
}

#[test]
fn searchable_text_of_text_is_full_content() {
    let captured = Captured::Text("  hello\nworld  ".into());
    assert_eq!(
        searchable_text(&captured).as_deref(),
        Some("  hello\nworld  ")
    );
}

#[test]
fn searchable_text_of_files_joins_file_names_only() {
    let captured = Captured::Files(vec![
        r"C:\Users\me\Documents\report.pdf".into(),
        "/home/me/photos/cat.png".into(),
    ]);
    assert_eq!(
        searchable_text(&captured).as_deref(),
        Some("report.pdf\ncat.png")
    );
}

#[test]
fn searchable_text_of_image_is_none() {
    assert_eq!(searchable_text(&image("abc")), None);
}

#[test]
fn hash_is_stable_per_kind() {
    let a = Captured::Text("same".into());
    let b = Captured::Text("same".into());
    assert_eq!(a.hash(), b.hash());
    assert_ne!(a.hash(), Captured::Text("other".into()).hash());
    assert_eq!(image("deadbeef").hash(), "deadbeef");
    let f1 = Captured::Files(vec!["a".into(), "b".into()]);
    let f2 = Captured::Files(vec!["b".into(), "a".into()]);
    assert_ne!(f1.hash(), f2.hash());
    assert_ne!(
        Captured::Text("a".into()).hash(),
        Captured::Files(vec!["a".into()]).hash()
    );
    assert_ne!(Captured::Text("a\nb".into()).hash(), f1.hash());
    assert_ne!(
        Captured::Text("a".into()).hash(),
        blake3::hash(b"a").to_hex().to_string()
    );
    assert_eq!(domain_hash(ClipboardKind::Text, &[b"a"]).len(), 64);
}

#[test]
fn file_name_falls_back_to_path_when_missing() {
    assert_eq!(file_name_of(r"C:\dir\a.txt"), "a.txt");
    assert_eq!(file_name_of("/"), "/");
    assert_eq!(file_name_of(""), "");
}

#[test]
fn file_name_handles_drive_dots_and_trailing_separators() {
    assert_eq!(file_name_of(r"C:\"), r"C:\");
    assert_eq!(file_name_of("C:"), "C:");
    assert_eq!(file_name_of("C:report.pdf"), "report.pdf");
    assert_eq!(file_name_of("/home/me/photos/"), "photos");
    assert_eq!(file_name_of("a/."), "a");
    assert_eq!(file_name_of("a/.."), "a/..");
    assert_eq!(file_name_of("."), ".");
    assert_eq!(file_name_of("plain.txt"), "plain.txt");
}

#[test]
fn hash_is_text_domain_blake3_of_the_content() {
    let mut input = b"text\0".to_vec();
    input.extend_from_slice("héllo".as_bytes());
    assert_eq!(
        Captured::Text("héllo".into()).hash(),
        blake3::hash(&input).to_hex().to_string()
    );
    let mut files = b"files\0".to_vec();
    files.extend_from_slice(b"/a\n/b");
    assert_eq!(
        Captured::Files(vec!["/a".into(), "/b".into()]).hash(),
        blake3::hash(&files).to_hex().to_string()
    );
}

#[test]
fn domain_hash_feeds_prefix_then_parts() {
    let mut input = b"image\0".to_vec();
    input.extend_from_slice(b"ab");
    input.extend_from_slice(b"cd");
    assert_eq!(
        domain_hash(ClipboardKind::Image, &[b"ab", b"cd"]),
        blake3::hash(&input).to_hex().to_string()
    );
}

#[test]
fn kind_names_are_column_values() {
    assert_eq!(ClipboardKind::Text.as_str(), "text");
    assert_eq!(ClipboardKind::Image.as_str(), "image");
    assert_eq!(ClipboardKind::Files.as_str(), "files");
    assert_eq!(Captured::Files(vec![]).kind(), ClipboardKind::Files);
    assert_eq!(image("x").kind(), ClipboardKind::Image);
}

#[test]
fn now_is_after_2020() {
    assert!(now_ms() > 1_577_836_800_000);
}

#[test]
fn invalid_input_message_has_category_prefix() {
    let err = AppError::InvalidInput("名字不能为空".into());
    assert_eq!(err.message(), "参数错误: 名字不能为空");
}

#[test]
fn clipboard_message_has_category_prefix() {
    let err = AppError::Clipboard("无法打开剪贴板".into());
    assert_eq!(err.message(), "剪贴板错误: 无法打开剪贴板");
}

#[test]
fn unsupported_message_has_category_prefix() {
    let err = AppError::Unsupported("剪贴板粘贴".into());
    assert_eq!(err.message(), "当前平台暂不支持: 剪贴板粘贴");
}

#[test]
fn other_messages_have_category_prefixes() {
    assert_eq!(AppError::Io("x".into()).message(), "输入输出错误: x");
    assert_eq!(AppError::Tauri("x".into()).message(), "系统错误: x");
    assert_eq!(AppError::Database("x".into()).message(), "数据库错误: x");
}

#[test]
fn kind_names_read_back() {
    for k in [
        z_tools::clipboard::ClipboardKind::Text,
        z_tools::clipboard::ClipboardKind::Image,
        z_tools::clipboard::ClipboardKind::Files,
    ] {
        assert_eq!(z_tools::clipboard::ClipboardKind::from_name(k.as_str()), Some(k));
    }
    assert_eq!(z_tools::clipboard::ClipboardKind::from_name("Text"), None);
    assert_eq!(z_tools::clipboard::ClipboardKind::from_name(""), None);
    assert_eq!(z_tools::clipboard::ClipboardKind::from_name("file"), None);
}

#[test]
fn clock_readings_become_saturated_millis() {
    assert_eq!(z_tools::clipboard::millis_since_epoch(None), 0);
    assert_eq!(z_tools::clipboard::millis_since_epoch(Some(0)), 0);
    assert_eq!(z_tools::clipboard::millis_since_epoch(Some(1_700_000_000_123)), 1_700_000_000_123);
    assert_eq!(z_tools::clipboard::millis_since_epoch(Some(u128::MAX)), i64::MAX);
    assert_eq!(
        z_tools::clipboard::millis_since_epoch(Some(i64::MAX as u128 + 1)),
        i64::MAX
    );
    assert!(z_tools::clipboard::now_ms() > 1_600_000_000_000);
}

#[test]
fn file_name_of_windows_prefixes() {
    check_file_names(&[
        (r"\\server\share", r"\\server\share"),
        (r"\\server\share\", r"\\server\share\"),
        (r"\\server\share\dir\a.txt", "a.txt"),
        ("//server/share/a.txt", "a.txt"),
        ("//server/share", "//server/share"),
        (r"\\a", "a"),
        (r"\\?\C:", r"\\?\C:"),
        (r"\\?\C:\", r"\\?\C:\"),
        (r"\\?\C:\x\y.txt", "y.txt"),
        (r"\\?\C:\a/b", "a/b"),
        (r"\\?\C:\a\.", r"\\?\C:\a\."),
        (r"\\?\UNC\srv\shr", r"\\?\UNC\srv\shr"),
        (r"\\?\UNC\srv\shr\f.txt", "f.txt"),
        (r"\\.\COM1", r"\\.\COM1"),
        (r"\\.\pipe\name", "name"),
        ("C:a.txt", "a.txt"),
        ("C:", "C:"),
    ]);
}

fn check_file_names(cases: &[(&str, &str)]) {
    for (path, name) in cases {
        assert_eq!(file_name_of(path), *name, "{path}");
    }
}
