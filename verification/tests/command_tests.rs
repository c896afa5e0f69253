use z_tools::clipboard::{Captured, ClipboardItem, ListQuery};
use z_tools::commands::{
    delete_item, get_clipboard_text, get_toggle_shortcut, greet, list_clipboard_items,
    set_clipboard_item_favorite, validate_limit,
};
use z_tools::error::AppError;
use z_tools::store::ClipboardStore;

#[test]
fn limit_out_of_range_is_rejected_with_chinese_message() {
    for bad in [0, 201, u32::MAX] {
        let err = validate_limit(bad).expect_err("越界应被拒");
        assert_eq!(err.message(), "参数错误: 每页条数必须在 1..=200 之间");
    }
}

#[test]
fn limit_in_range_is_accepted() {
    for ok in [1, 100, 200] {
        assert!(validate_limit(ok).is_ok());
    }
}

#[test]
fn empty_name_is_rejected() {
    let err = greet("   ").expect_err("空名字应当返回错误");
    assert!(matches!(err, AppError::InvalidInput(_)));
    assert_eq!(err.message(), "参数错误: 名字不能为空");
}

#[test]
fn greets_trimmed_name() {
    let msg = greet("  小明 ").expect("正常名字应当返回问候");
    assert_eq!(msg, "你好，小明！来自 Rust 的问候。");
}

#[test]
fn toggle_shortcut_is_the_default() {
    assert_eq!(get_toggle_shortcut(), "alt+enter");
}

#[test]
fn list_command_trims_keyword_and_checks_limit() {
    let mut store = ClipboardStore::new("/images".into());
    store.upsert(&Captured::Text("apple".into()), 1).expect("upsert");
    store.upsert(&Captured::Text("pear".into()), 2).expect("upsert");
    let hits = list_clipboard_items(
        &store,
        ListQuery {
            query: "  apple ".into(),
            limit: 10,
            ..ListQuery::default()
        },
    )
    .expect("list");
    assert_eq!(hits.len(), 1);
    let all = list_clipboard_items(
        &store,
        ListQuery {
            query: "   ".into(),
            limit: 10,
            ..ListQuery::default()
        },
    )
    .expect("list");
    assert_eq!(all.len(), 2);
    let err = list_clipboard_items(&store, ListQuery::default()).expect_err("limit 0");
    assert_eq!(err.message(), "参数错误: 每页条数必须在 1..=200 之间");
}

#[test]
fn commands_forward_to_the_history() {
    let mut store = ClipboardStore::new("/images".into());
    store.upsert(&Captured::Text("  keep me ".into()), 1).expect("upsert");
    store
        .upsert(
            &Captured::Image {
                png: vec![1],
                thumb_png: vec![],
                width: 1,
                height: 1,
                rgba_hash: "pic".into(),
            },
            2,
        )
        .expect("upsert");
    assert_eq!(get_clipboard_text(&store, 1).expect("text"), "  keep me ");
    set_clipboard_item_favorite(&mut store, 1, true).expect("fav");
    let items = list_clipboard_items(
        &store,
        ListQuery {
            favorite_only: true,
            limit: 5,
            ..ListQuery::default()
        },
    )
    .expect("list");
    assert!(matches!(&items[0], ClipboardItem::Text { id: 1, favorite: true, .. }));
    assert_eq!(delete_item(&mut store, 2).expect("delete"), vec!["pic.png".to_owned()]);
    assert!(delete_item(&mut store, 1).expect("delete").is_empty());
    let err = delete_item(&mut store, 1).expect_err("重复删除应报错");
    assert_eq!(err.message(), "参数错误: 记录不存在");
}

#[test]
fn paste_is_unsupported_without_simulation() {
    let e = z_tools::commands::paste_unsupported();
    assert_eq!(e.message(), "当前平台暂不支持: 剪贴板粘贴");
}
