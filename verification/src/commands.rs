//! Commands of the front end: argument checks and forwarding to the history.
//! The window runtime that receives the calls lives outside the library.

use vstd::prelude::*;

use crate::clipboard::{ClipboardItem, ListQuery};
use crate::error::AppError;
use crate::launcher::DEFAULT_TOGGLE_SHORTCUT;
use crate::store::{
    has_id, is_filtered_page, is_not_found, is_not_text, item_of_row, text_or_empty,
    ClipboardStore, ItemRow,
};
use crate::clipboard::ClipboardKind;
use crate::text::{append_str, trim_str, trimmed};

verus! {

/// Smallest accepted page size.
pub const MIN_LIMIT: u32 = 1;

/// Largest accepted page size (the front end asks for 100).
pub const MAX_LIMIT: u32 = 200;

/// Message of a page size outside `MIN_LIMIT..=MAX_LIMIT`.
pub open spec fn limit_message() -> Seq<char> {
    seq!['每', '页', '条', '数', '必', '须', '在', ' ', '1', '.', '.', '=', '2', '0', '0', ' ', '之', '间']
}

/// Accepts a page size in `1..=200`; otherwise `InvalidInput("每页条数必须在 1..=200 之间")`.
pub fn validate_limit(limit: u32) -> (res: Result<(), AppError>)
    ensures
        res is Ok <==> MIN_LIMIT <= limit <= MAX_LIMIT,
        res matches Err(e) ==> (e matches AppError::InvalidInput(m) && m@ == limit_message()),
{
    if MIN_LIMIT <= limit && limit <= MAX_LIMIT {
        Ok(())
    } else {
        proof {
            reveal_strlit("每页条数必须在 1..=200 之间");
        }
        let m: &str = "每页条数必须在 1..=200 之间";
        assert(m@ =~= limit_message());
        Err(AppError::InvalidInput(m.to_owned()))
    }
}

/// Filtered, cursor-paged list, newest first. A `limit` outside `1..=200`
/// is refused; the keyword is trimmed first, so white space alone filters nothing.
pub fn list_clipboard_items(store: &ClipboardStore, query: ListQuery) -> (res: Result<
    Vec<ClipboardItem>,
    AppError,
>)
    requires
        store.wf(),
    ensures
        res is Err <==> !(MIN_LIMIT <= query.limit <= MAX_LIMIT),
        res matches Err(e) ==> (e matches AppError::InvalidInput(m) && m@ == limit_message()),
        res matches Ok(items) ==> exists|sel: Seq<usize>|
            #[trigger] is_filtered_page(
                store.rows_view(),
                query.kind,
                query.favorite_only,
                trimmed(query.query@),
                query.before,
                query.limit as int,
                sel,
            ) && items@.len() == sel.len() && forall|k: int|
                0 <= k < sel.len() ==> item_of_row(
                    #[trigger] items@[k],
                    store.rows_view()[sel[k] as int],
                    store.images_dir_view(),
                ),
{
    validate_limit(query.limit)?;
    let mut query = query;
    query.query = trim_str(query.query.as_str());
    store.list(&query)
}

/// Full text of a text entry (as stored, not trimmed); a missing id or an
/// entry of another kind is an invalid argument.
pub fn get_clipboard_text(store: &ClipboardStore, id: i64) -> (res: Result<String, AppError>)
    requires
        store.wf(),
    ensures
        !has_id(store.rows_view(), id as int) ==> (res matches Err(e) && is_not_found(e)),
        forall|i: int|
            0 <= i < store.rows_view().len() && store.rows_view()[i].id == id ==> {
                let r = store.rows_view()[i];
                if r.kind == ClipboardKind::Text {
                    res matches Ok(t) && t@ == text_or_empty(r.text)
                } else {
                    res matches Err(e) && is_not_text(e)
                }
            },
{
    store.get_text(id)
}

/// Sets or clears the favorite mark; nothing else of the entry changes.
pub fn set_clipboard_item_favorite(store: &mut ClipboardStore, id: i64, favorite: bool) -> (res:
    Result<(), AppError>)
    requires
        old(store).wf(),
    ensures
        final(store).wf(),
        final(store).images_dir_view() == old(store).images_dir_view(),
        final(store).next_id_view() == old(store).next_id_view(),
        match res {
            Ok(_) => exists|i: int|
                0 <= i < old(store).rows_view().len() && old(store).rows_view()[i].id == id
                    && final(store).rows_view() == old(store).rows_view().update(
                    i,
                    ItemRow { favorite, ..old(store).rows_view()[i] },
                ),
            Err(e) => !has_id(old(store).rows_view(), id as int) && is_not_found(e)
                && final(store).rows_view() == old(store).rows_view(),
        },
{
    store.set_favorite(id, favorite)
}

/// Deletes an entry and returns the picture files to remove with it (none
/// for texts and file lists); a missing id is an invalid argument.
pub fn delete_item(store: &mut ClipboardStore, id: i64) -> (res: Result<Vec<String>, AppError>)
    requires
        old(store).wf(),
    ensures
        final(store).wf(),
        final(store).images_dir_view() == old(store).images_dir_view(),
        final(store).next_id_view() == old(store).next_id_view(),
        match res {
            Ok(files) => exists|i: int|
                0 <= i < old(store).rows_view().len() && old(store).rows_view()[i].id == id
                    && final(store).rows_view() == old(store).rows_view().remove(i) && match old(
                    store,
                ).rows_view()[i].image_file {
                    Some(f) => files@ == seq![f],
                    None => files@.len() == 0,
                },
            Err(e) => !has_id(old(store).rows_view(), id as int) && is_not_found(e)
                && final(store).rows_view() == old(store).rows_view(),
        },
{
    let image_file = store.delete(id)?;
    let mut files: Vec<String> = Vec::new();
    match image_file {
        Some(f) => {
            files.push(f);
        },
        None => {},
    }
    Ok(files)
}

/// Message of an empty name.
pub open spec fn empty_name_message() -> Seq<char> {
    seq!['名', '字', '不', '能', '为', '空']
}

/// The greeting of a trimmed name.
pub open spec fn greeting(name: Seq<char>) -> Seq<char> {
    seq!['你', '好', '，'] + name + seq!['！', '来', '自', ' ', 'R', 'u', 's', 't', ' ', '的', '问', '候', '。']
}

/// Greets `name` once trimmed; a blank name is an invalid argument.
pub fn greet(name: &str) -> (res: Result<String, AppError>)
    ensures
        trimmed(name@).len() == 0 ==> (res matches Err(e) && (e matches AppError::InvalidInput(m)
            && m@ == empty_name_message())),
        trimmed(name@).len() > 0 ==> (res matches Ok(g) && g@ == greeting(trimmed(name@))),
{
    let name = trim_str(name);
    if name.as_str().is_empty() {
        proof {
            reveal_strlit("名字不能为空");
        }
        let m: &str = "名字不能为空";
        assert(m@ =~= empty_name_message());
        return Err(AppError::InvalidInput(m.to_owned()));
    }
    proof {
        reveal_strlit("你好，");
        reveal_strlit("！来自 Rust 的问候。");
    }
    let mut out = String::new();
    append_str(&mut out, "你好，");
    append_str(&mut out, name.as_str());
    append_str(&mut out, "！来自 Rust 的问候。");
    assert(out@ =~= greeting(name@));
    Ok(out)
}

/// The global shortcut that toggles the launcher, for the front end's key hints.
pub fn get_toggle_shortcut() -> (res: &'static str)
    ensures
        res@ == seq!['a', 'l', 't', '+', 'e', 'n', 't', 'e', 'r'],
{
    proof {
        reveal_strlit("alt+enter");
    }
    DEFAULT_TOGGLE_SHORTCUT
}

/// What is unsupported when pasting cannot be simulated on this platform.
pub open spec fn paste_feature_name() -> Seq<char> {
    seq!['剪', '贴', '板', '粘', '贴']
}

/// The answer to a paste request where the platform has no way to simulate
/// the paste: `Unsupported("剪贴板粘贴")`, shown as `当前平台暂不支持: 剪贴板粘贴`.
pub fn paste_unsupported() -> (e: AppError)
    ensures
        e matches AppError::Unsupported(m) && m@ == paste_feature_name(),
{
    proof {
        reveal_strlit("剪贴板粘贴");
    }
    let m: &str = "剪贴板粘贴";
    assert(m@ =~= paste_feature_name());
    AppError::Unsupported(m.to_owned())
}

} // verus!
