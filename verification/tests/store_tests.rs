use z_tools::clipboard::{
    Captured, ClipboardItem, ClipboardKind, ListCursor, ListQuery, MAX_ITEMS, PREVIEW_CHARS,
};
use z_tools::store::{
    captured_of_row, image_file_name, image_files, like_pattern, preview_of, thumb_file_name,
    ClipboardStore, ItemRow,
};

fn memory_store() -> ClipboardStore {
    ClipboardStore::new("/images".to_owned())
}

fn text(s: &str) -> Captured {
    Captured::Text(s.into())
}

fn image(hash: &str) -> Captured {
    Captured::Image {
        png: vec![0; 10],
        thumb_png: vec![],
        width: 4,
        height: 3,
        rgba_hash: hash.into(),
    }
}

fn files(paths: &[&str]) -> Captured {
    Captured::Files(paths.iter().map(|p| (*p).to_owned()).collect())
}

fn query(limit: u32) -> ListQuery {
    ListQuery {
        limit,
        ..ListQuery::default()
    }
}

fn id_of(item: &ClipboardItem) -> i64 {
    match item {
        ClipboardItem::Text { id, .. }
        | ClipboardItem::Image { id, .. }
        | ClipboardItem::Files { id, .. } => *id,
    }
}

fn copied_at_of(item: &ClipboardItem) -> i64 {
    match item {
        ClipboardItem::Text { copied_at, .. }
        | ClipboardItem::Image { copied_at, .. }
        | ClipboardItem::Files { copied_at, .. } => *copied_at,
    }
}

fn favorite_of(item: &ClipboardItem) -> bool {
    match item {
        ClipboardItem::Text { favorite, .. }
        | ClipboardItem::Image { favorite, .. }
        | ClipboardItem::Files { favorite, .. } => *favorite,
    }
}

fn all(store: &ClipboardStore) -> Vec<ClipboardItem> {
    store.list(&query(200)).expect("列表应成功")
}

fn count(store: &ClipboardStore, favorite: bool) -> i64 {
    store
        .rows()
        .iter()
        .filter(|r| r.favorite == favorite)
        .count() as i64
}

fn created_at_of(store: &ClipboardStore, id: i64) -> i64 {
    store.fetch_row(id).expect("行应存在").created_at
}

#[test]
fn upsert_same_content_bumps_copied_at_without_new_row() {
    let mut store = memory_store();
    store.upsert(&text("hello"), 1).expect("upsert");
    store.upsert(&text("other"), 2).expect("upsert");
    store.upsert(&text("hello"), 3).expect("upsert");
    let items = all(&store);
    assert_eq!(items.len(), 2);
    assert_eq!(copied_at_of(&items[0]), 3);
    assert!(matches!(&items[0], ClipboardItem::Text { preview, .. } if preview == "hello"));
    assert_eq!(created_at_of(&store, id_of(&items[0])), 1);
}

#[test]
fn trim_evicts_oldest_non_favorites_and_keeps_favorites() {
    let mut store = memory_store();
    store.upsert(&text("fav-1"), 1).expect("upsert");
    store.upsert(&image("fav-img"), 2).expect("upsert");
    store.upsert(&text("fav-3"), 3).expect("upsert");
    for item in all(&store) {
        store
            .set_favorite(id_of(&item), true)
            .expect("set_favorite");
    }
    store.upsert(&image("old-img"), 10).expect("upsert");
    store.upsert(&text("old-text"), 11).expect("upsert");
    for i in 0..MAX_ITEMS {
        store
            .upsert(&text(&format!("item-{i}")), 100 + i)
            .expect("upsert");
    }
    let evicted = store.trim();
    assert_eq!(image_files(&evicted), vec!["old-img.png".to_owned()]);
    assert_eq!(count(&store, false), MAX_ITEMS);
    assert_eq!(count(&store, true), 3);
    let remaining = store
        .list(&ListQuery {
            query: "old".into(),
            ..query(10)
        })
        .expect("list");
    assert!(remaining.is_empty(), "最旧的非收藏条目应被淘汰");
    assert!(store.trim().is_empty());
}

#[test]
fn list_filters_by_kind_favorite_and_query_together() {
    let mut store = memory_store();
    store.upsert(&text("apple pie"), 1).expect("upsert");
    store.upsert(&text("apple juice"), 2).expect("upsert");
    store.upsert(&text("banana"), 3).expect("upsert");
    store.upsert(&files(&["/x/apple.txt"]), 4).expect("upsert");
    store.upsert(&image("img"), 5).expect("upsert");
    let items = all(&store);
    assert_eq!(items.len(), 5);
    store.set_favorite(id_of(&items[4]), true).expect("fav");
    store.set_favorite(id_of(&items[1]), true).expect("fav");

    let texts = store
        .list(&ListQuery {
            kind: Some(ClipboardKind::Text),
            ..query(10)
        })
        .expect("list");
    assert_eq!(texts.len(), 3);
    let apples = store
        .list(&ListQuery {
            kind: Some(ClipboardKind::Text),
            query: "apple".into(),
            ..query(10)
        })
        .expect("list");
    assert_eq!(apples.len(), 2);
    let fav_apples = store
        .list(&ListQuery {
            kind: Some(ClipboardKind::Text),
            favorite_only: true,
            query: "apple".into(),
            ..query(10)
        })
        .expect("list");
    assert_eq!(fav_apples.len(), 1);
    assert!(
        matches!(&fav_apples[0], ClipboardItem::Text { preview, .. } if preview == "apple pie")
    );
    let fav_any = store
        .list(&ListQuery {
            favorite_only: true,
            query: "apple".into(),
            ..query(10)
        })
        .expect("list");
    assert_eq!(fav_any.len(), 2);
    let images = store
        .list(&ListQuery {
            kind: Some(ClipboardKind::Image),
            query: "a".into(),
            ..query(10)
        })
        .expect("list");
    assert!(images.is_empty());
}

#[test]
fn ordering_ignores_favorite_and_breaks_ties_by_id_desc() {
    let mut store = memory_store();
    store.upsert(&text("first"), 5).expect("upsert");
    store.upsert(&text("second"), 5).expect("upsert");
    store.upsert(&text("newest"), 9).expect("upsert");
    let items = all(&store);
    let previews: Vec<String> = items
        .iter()
        .map(|i| match i {
            ClipboardItem::Text { preview, .. } => preview.clone(),
            _ => unreachable!(),
        })
        .collect();
    assert_eq!(previews, vec!["newest", "second", "first"]);
    store.set_favorite(id_of(&items[2]), true).expect("fav");
    let after = all(&store);
    assert_eq!(
        after.iter().map(id_of).collect::<Vec<_>>(),
        items.iter().map(id_of).collect::<Vec<_>>()
    );
    assert!(favorite_of(&after[2]));
}

#[test]
fn cursor_pagination_survives_new_items_inserted_between_pages() {
    let mut store = memory_store();
    for i in 1..=10 {
        store.upsert(&text(&format!("t{i}")), i).expect("upsert");
    }
    let page1 = store.list(&query(4)).expect("list");
    assert_eq!(page1.len(), 4);
    let mut seen: Vec<i64> = page1.iter().map(id_of).collect();
    store.upsert(&text("brand-new"), 99).expect("upsert");
    let mut last = page1.last().expect("非空");
    let mut cursor = ListCursor {
        copied_at: copied_at_of(last),
        id: id_of(last),
    };
    let page2 = store
        .list(&ListQuery {
            before: Some(cursor),
            ..query(4)
        })
        .expect("list");
    assert_eq!(page2.len(), 4);
    seen.extend(page2.iter().map(id_of));
    last = page2.last().expect("非空");
    cursor = ListCursor {
        copied_at: copied_at_of(last),
        id: id_of(last),
    };
    let page3 = store
        .list(&ListQuery {
            before: Some(cursor),
            ..query(4)
        })
        .expect("list");
    assert_eq!(page3.len(), 2, "第三页只剩最后两条，说明到底");
    seen.extend(page3.iter().map(id_of));
    let mut sorted = seen.clone();
    sorted.sort_unstable();
    sorted.dedup();
    assert_eq!(sorted.len(), 10);
    assert_eq!(seen.len(), 10);
}

#[test]
fn cursor_pagination_with_equal_copied_at_uses_id() {
    let mut store = memory_store();
    for i in 0..5 {
        store.upsert(&text(&format!("same-{i}")), 7).expect("upsert");
    }
    let page1 = store.list(&query(2)).expect("list");
    let last = page1.last().expect("非空");
    let page2 = store
        .list(&ListQuery {
            before: Some(ListCursor {
                copied_at: copied_at_of(last),
                id: id_of(last),
            }),
            ..query(10)
        })
        .expect("list");
    assert_eq!(page2.len(), 3);
    assert!(page2.iter().all(|i| id_of(i) < id_of(last)));
}

#[test]
fn file_search_matches_file_name_but_not_directory() {
    let mut store = memory_store();
    store
        .upsert(
            &files(&[r"C:\Projects\report.pdf", "/home/me/photos/cat.png"]),
            1,
        )
        .expect("upsert");
    let hit = store
        .list(&ListQuery {
            query: "report".into(),
            ..query(10)
        })
        .expect("list");
    assert_eq!(hit.len(), 1);
    match &hit[0] {
        ClipboardItem::Files { files, .. } => {
            assert_eq!(files.len(), 2);
            assert_eq!(files[0].name, "report.pdf");
            assert_eq!(files[0].path, r"C:\Projects\report.pdf");
            assert_eq!(files[1].name, "cat.png");
            assert!(!files[0].exists && !files[1].exists);
        }
        other => panic!("应为文件条目，得到 {other:?}"),
    }
    for dir_word in ["Projects", "photos", "home"] {
        let miss = store
            .list(&ListQuery {
                query: dir_word.into(),
                ..query(10)
            })
            .expect("list");
        assert!(miss.is_empty(), "目录名 {dir_word} 不应命中");
    }
}

#[test]
fn image_never_matches_keyword_but_lists_without_one() {
    let mut store = memory_store();
    store.upsert(&image("abc123"), 1).expect("upsert");
    for keyword in ["a", "abc123", "png", "%", "4"] {
        let hit = store
            .list(&ListQuery {
                query: keyword.into(),
                ..query(10)
            })
            .expect("list");
        assert!(hit.is_empty(), "关键字 {keyword} 不应命中图片");
    }
    let items = all(&store);
    match &items[0] {
        ClipboardItem::Image {
            image_path,
            thumb_path,
            width,
            height,
            size,
            ..
        } => {
            assert!(image_path.ends_with("abc123.png"));
            assert!(thumb_path.ends_with("abc123.thumb.png"));
            assert_eq!((*width, *height, *size), (4, 3, 10));
        }
        other => panic!("应为图片条目，得到 {other:?}"),
    }
}

#[test]
fn like_wildcards_in_keyword_are_escaped() {
    let mut store = memory_store();
    store.upsert(&text("100%"), 1).expect("upsert");
    store.upsert(&text("100x"), 2).expect("upsert");
    store.upsert(&text("a_b"), 3).expect("upsert");
    store.upsert(&text("aXb"), 4).expect("upsert");
    store.upsert(&text(r"back\slash"), 5).expect("upsert");
    store.upsert(&text("backslash"), 6).expect("upsert");
    let cases: [(&str, &[&str]); 3] =
        [("%", &["100%"]), ("_", &["a_b"]), (r"\", &[r"back\slash"])];
    for (keyword, expected) in cases {
        let hit = store
            .list(&ListQuery {
                query: keyword.into(),
                ..query(10)
            })
            .expect("list");
        let previews: Vec<String> = hit
            .iter()
            .map(|i| match i {
                ClipboardItem::Text { preview, .. } => preview.clone(),
                _ => unreachable!(),
            })
            .collect();
        assert_eq!(previews, expected, "关键字 {keyword}");
    }
    assert_eq!(like_pattern(r"a%b_c\d"), r"%a\%b\_c\\d%");
}

#[test]
fn keyword_ignores_ascii_case_only() {
    let mut store = memory_store();
    store.upsert(&text("Apple PIE"), 1).expect("upsert");
    store.upsert(&text("ÄPFEL"), 2).expect("upsert");
    let hit = store
        .list(&ListQuery {
            query: "apple pie".into(),
            ..query(10)
        })
        .expect("list");
    assert_eq!(hit.len(), 1);
    let miss = store
        .list(&ListQuery {
            query: "äpfel".into(),
            ..query(10)
        })
        .expect("list");
    assert!(miss.is_empty());
}

#[test]
fn set_favorite_keeps_copied_at_and_rejects_missing_id() {
    let mut store = memory_store();
    store.upsert(&text("x"), 42).expect("upsert");
    let id = id_of(&all(&store)[0]);
    store.set_favorite(id, true).expect("fav");
    let item = &all(&store)[0];
    assert!(favorite_of(item));
    assert_eq!(copied_at_of(item), 42);
    store.set_favorite(id, false).expect("unfav");
    assert!(!favorite_of(&all(&store)[0]));
    let err = store
        .set_favorite(9999, true)
        .expect_err("不存在的 id 应报错");
    assert_eq!(err.message(), "参数错误: 记录不存在");
}

#[test]
fn delete_returns_image_file_and_rejects_missing_id() {
    let mut store = memory_store();
    store.upsert(&image("img"), 1).expect("upsert");
    store.upsert(&text("t"), 2).expect("upsert");
    let items = all(&store);
    assert_eq!(store.delete(id_of(&items[0])).expect("delete"), None);
    assert_eq!(
        store.delete(id_of(&items[1])).expect("delete"),
        Some("img.png".to_owned())
    );
    assert!(all(&store).is_empty());
    let err = store.delete(1).expect_err("已删除的 id 应报错");
    assert_eq!(err.message(), "参数错误: 记录不存在");
}

#[test]
fn get_text_returns_full_untrimmed_text_and_rejects_non_text() {
    let mut store = memory_store();
    let long = format!("  {}  \n", "字".repeat(400));
    store.upsert(&text(&long), 1).expect("upsert");
    store.upsert(&image("img"), 2).expect("upsert");
    store.upsert(&files(&["/a/b.txt"]), 3).expect("upsert");
    let items = all(&store);
    let full = store.get_text(id_of(&items[2])).expect("get_text");
    assert_eq!(full, long);
    for non_text in &items[..2] {
        let err = store.get_text(id_of(non_text)).expect_err("非文本应报错");
        assert_eq!(err.message(), "参数错误: 该条目不是文本");
    }
    let err = store.get_text(9999).expect_err("不存在应报错");
    assert_eq!(err.message(), "参数错误: 记录不存在");
}

#[test]
fn preview_is_truncated_and_trimmed() {
    let mut store = memory_store();
    let long = format!("  {}", "x".repeat(400));
    store.upsert(&text(&long), 1).expect("upsert");
    store.upsert(&text("  short\nline  "), 2).expect("upsert");
    let items = all(&store);
    match &items[0] {
        ClipboardItem::Text {
            preview,
            char_count,
            truncated,
            size,
            ..
        } => {
            assert_eq!(preview, "short\nline");
            assert_eq!(*char_count, 14);
            assert!(!truncated);
            assert_eq!(*size, 14);
        }
        other => panic!("应为文本，得到 {other:?}"),
    }
    match &items[1] {
        ClipboardItem::Text {
            preview,
            char_count,
            truncated,
            ..
        } => {
            assert_eq!(
                preview.chars().count(),
                PREVIEW_CHARS - 2,
                "截断后再 trim 去掉前导空格"
            );
            assert_eq!(*char_count, 402);
            assert!(truncated);
        }
        other => panic!("应为文本，得到 {other:?}"),
    }
    let (p, n, t) = preview_of("é".repeat(PREVIEW_CHARS).as_str());
    assert_eq!(
        (p.chars().count(), n, t),
        (PREVIEW_CHARS, PREVIEW_CHARS as u64, false)
    );
}

#[test]
fn image_file_names_are_derived_from_hash() {
    assert_eq!(image_file_name("abc"), "abc.png");
    assert_eq!(thumb_file_name("abc.png"), "abc.thumb.png");
}

#[test]
fn thumb_file_name_without_png_suffix_keeps_the_name() {
    assert_eq!(thumb_file_name("abc"), "abc.thumb.png");
    assert_eq!(thumb_file_name(".png"), ".thumb.png");
}

#[test]
fn captured_of_row_round_trips_text_files_and_image() {
    let mut store = memory_store();
    let img = image("roundtrip");
    store.upsert(&text("hi"), 1).expect("upsert");
    store.upsert(&files(&["/a", "/b"]), 2).expect("upsert");
    store.upsert(&img, 3).expect("upsert");
    let items = all(&store);
    let row = store.fetch_row(id_of(&items[0])).expect("image");
    assert_eq!(captured_of_row(row, vec![0; 10]), img);
    let row = store.fetch_row(id_of(&items[1])).expect("files");
    assert_eq!(captured_of_row(row, vec![]), files(&["/a", "/b"]));
    let row = store.fetch_row(id_of(&items[2])).expect("text");
    assert_eq!(captured_of_row(row, vec![]), text("hi"));
    let err = store.fetch_row(9999).expect_err("不存在应报错");
    assert_eq!(err.message(), "参数错误: 记录不存在");
}

#[test]
fn image_paths_join_the_images_directory() {
    let store = ClipboardStore::new("/images/".to_owned());
    let (image, thumb) = store.image_paths("h.png");
    assert_eq!(image, "/images/h.png");
    assert_eq!(thumb, "/images/h.thumb.png");
    let store = memory_store();
    let (image, _) = store.image_paths("h.png");
    assert!(image == "/images/h.png" || image == r"/images\h.png");
}

#[test]
fn record_keeps_new_content_and_evicts_the_oldest() {
    let mut store = memory_store();
    for i in 0..MAX_ITEMS {
        store.upsert(&text(&format!("seed-{i}")), i).expect("upsert");
    }
    let (id, evicted) = store.record_captured(&image("fresh"), 10_000).expect("record");
    assert_eq!(evicted.len(), 1);
    assert_eq!(evicted[0].text.as_deref(), Some("seed-0"));
    assert_eq!(store.fetch_row(id).expect("row").hash, "fresh");
    assert_eq!(count(&store, false), MAX_ITEMS);
    // recording existing content only moves it up
    let (again, evicted) = store.record_captured(&image("fresh"), 10_001).expect("record");
    assert_eq!(again, id);
    assert!(evicted.is_empty());
    assert_eq!(copied_at_of(&all(&store)[0]), 10_001);
}

#[test]
fn trim_without_excess_removes_nothing() {
    let mut store = memory_store();
    store.upsert(&text("a"), 1).expect("upsert");
    store.upsert(&text("b"), 2).expect("upsert");
    assert!(store.trim().is_empty());
    assert_eq!(all(&store).len(), 2);
}

#[test]
fn deleted_entry_is_gone_and_ids_are_not_reused() {
    let mut store = memory_store();
    store.upsert(&text("only"), 1).expect("upsert");
    let id = id_of(&all(&store)[0]);
    store.delete(id).expect("delete");
    assert!(store.fetch_row(id).is_err());
    store.upsert(&text("only"), 2).expect("upsert");
    assert_ne!(id_of(&all(&store)[0]), id);
}

#[test]
fn rows_read_back_must_be_consistent() {
    let store = memory_store();
    assert!(ClipboardStore::from_rows("/images".into(), vec![], 1).is_ok());
    let mut source = memory_store();
    source.upsert(&text("a"), 1).expect("upsert");
    source.upsert(&text("b"), 2).expect("upsert");
    let rebuilt_rows: Vec<ItemRow> = source
        .rows()
        .iter()
        .map(|r| ItemRow {
            id: r.id,
            kind: r.kind,
            hash: r.hash.clone(),
            text: r.text.clone(),
            image_file: r.image_file.clone(),
            image_width: r.image_width,
            image_height: r.image_height,
            files: r.files.clone(),
            size: r.size,
            favorite: r.favorite,
            created_at: r.created_at,
            copied_at: r.copied_at,
        })
        .collect();
    let rebuilt = ClipboardStore::from_rows("/images".into(), rebuilt_rows, source.next_id())
        .expect("一致的行应可载入");
    assert_eq!(all(&rebuilt).len(), 2);
    assert!(ClipboardStore::from_rows("/images".into(), vec![], 0).is_ok());
    let dup = |id: i64| ItemRow {
        id,
        kind: ClipboardKind::Text,
        hash: "same".into(),
        text: Some("x".into()),
        image_file: None,
        image_width: None,
        image_height: None,
        files: None,
        size: 1,
        favorite: false,
        created_at: 0,
        copied_at: 0,
    };
    let err = ClipboardStore::from_rows("/images".into(), vec![dup(1), dup(2)], 3)
        .err()
        .expect("重复哈希应被拒");
    assert!(err.message().starts_with("数据库错误: "));
    assert_eq!(err.message(), "数据库错误: 历史记录数据不一致");
    let err = ClipboardStore::from_rows("/images".into(), vec![dup(2)], 2)
        .err()
        .expect("编号不小于下一个编号应被拒");
    assert_eq!(err.message(), "数据库错误: 历史记录数据不一致");
    assert!(all(&store).is_empty());
}

#[test]
fn like_pattern_escapes_wildcards() {
    assert_eq!(like_pattern("abc"), "%abc%");
    assert_eq!(like_pattern("50%_a\\b"), "%50\\%\\_a\\\\b%");
    assert_eq!(like_pattern(""), "%%");
    assert_eq!(like_pattern("剪贴"), "%剪贴%");
}

#[test]
fn second_trim_evicts_nothing() {
    let mut store = memory_store();
    for i in 0..(MAX_ITEMS + 3) {
        store.upsert(&text(&format!("item-{i}")), i).expect("upsert");
    }
    assert_eq!(store.trim().len(), 3);
    assert_eq!(count(&store, false), MAX_ITEMS);
    assert!(store.trim().is_empty());
    assert_eq!(count(&store, false), MAX_ITEMS);
}

#[test]
fn evicted_rows_name_their_picture_files() {
    let mut store = memory_store();
    store.upsert(&image("old"), 1).expect("upsert");
    store.upsert(&text("t"), 2).expect("upsert");
    for i in 0..MAX_ITEMS {
        store.upsert(&text(&format!("new-{i}")), 10 + i).expect("upsert");
    }
    let evicted = store.trim();
    assert_eq!(evicted.len(), 2);
    assert_eq!(image_files(&evicted), vec!["old.png".to_string()]);
    assert!(image_files(&Vec::new()).is_empty());
}

#[test]
fn recorded_row_stays_only_among_the_newest() {
    let mut store = memory_store();
    for i in 0..MAX_ITEMS {
        store.upsert(&text(&format!("later-{i}")), 1_000 + i).expect("upsert");
    }
    // Copied "earlier" than all 500 others: not among the newest, evicted at once.
    let (_, evicted) = store.record_captured(&text("stale"), 5).expect("record");
    assert_eq!(evicted.len(), 1);
    assert_eq!(evicted[0].text.as_deref(), Some("stale"));
    assert!(store.rows().iter().all(|r| r.text.as_deref() != Some("stale")));
    // A favorite is kept however old it is.
    store.upsert(&text("fav"), 1).expect("upsert");
    let id = store.rows().iter().find(|r| r.text.as_deref() == Some("fav")).expect("row").id;
    store.set_favorite(id, true).expect("favorite");
    let (_, evicted) = store.record_captured(&text("fav"), 2).expect("record");
    assert!(evicted.iter().all(|r| r.text.as_deref() != Some("fav")));
    assert_eq!(store.rows().iter().filter(|r| r.text.as_deref() == Some("fav")).count(), 1);
}
