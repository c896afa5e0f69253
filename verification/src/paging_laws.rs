//! Laws of the filtered, cursor-paged list.

use vstd::prelude::*;

use crate::clipboard::{ClipboardKind, ListCursor};
use crate::store::{
    contains_keyword, ids_increasing, is_filtered_page, key_lt, keyword_at, lemma_keys_distinct,
    row_key, row_passes, ItemRow,
};
use crate::text::fold_case;

verus! {

proof fn lemma_pages_agree_upto(
    rows: Seq<ItemRow>,
    kind: Option<ClipboardKind>,
    favorite_only: bool,
    keyword: Seq<char>,
    before: Option<ListCursor>,
    limit: int,
    s1: Seq<usize>,
    s2: Seq<usize>,
    k: int,
)
    requires
        ids_increasing(rows),
        is_filtered_page(rows, kind, favorite_only, keyword, before, limit, s1),
        is_filtered_page(rows, kind, favorite_only, keyword, before, limit, s2),
        0 <= k < s1.len(),
        k < s2.len(),
    ensures
        forall|j: int| 0 <= j <= k ==> s1[j] == s2[j],
    decreases k,
{
    if k > 0 {
        lemma_pages_agree_upto(rows, kind, favorite_only, keyword, before, limit, s1, s2, k - 1);
    }
    let a = s1[k];
    let b = s2[k];
    if a != b {
        lemma_keys_distinct(rows, a as int, b as int);
        if key_lt(row_key(rows[a as int]), row_key(rows[b as int])) {
            // b would have to be in s1 before position k, where it already is in s2
            if s1.contains(b) {
                let j = choose|j: int| 0 <= j < s1.len() && s1[j] == b;
                if j < k {
                    assert(s2[j] == b);
                    assert(key_lt(row_key(rows[s2[k] as int]), row_key(rows[s2[j] as int])));
                } else {
                    assert(j != k);
                    assert(key_lt(row_key(rows[s1[j] as int]), row_key(rows[s1[k] as int])));
                }
            } else {
                assert(key_lt(row_key(rows[b as int]), row_key(rows[s1[k] as int])));
            }
        } else {
            if s2.contains(a) {
                let j = choose|j: int| 0 <= j < s2.len() && s2[j] == a;
                if j < k {
                    assert(s1[j] == a);
                    assert(key_lt(row_key(rows[s1[k] as int]), row_key(rows[s1[j] as int])));
                } else {
                    assert(j != k);
                    assert(key_lt(row_key(rows[s2[j] as int]), row_key(rows[s2[k] as int])));
                }
            } else {
                assert(key_lt(row_key(rows[a as int]), row_key(rows[s2[k] as int])));
            }
        }
    }
}

proof fn lemma_page_not_shorter(
    rows: Seq<ItemRow>,
    kind: Option<ClipboardKind>,
    favorite_only: bool,
    keyword: Seq<char>,
    before: Option<ListCursor>,
    limit: int,
    s1: Seq<usize>,
    s2: Seq<usize>,
)
    requires
        ids_increasing(rows),
        is_filtered_page(rows, kind, favorite_only, keyword, before, limit, s1),
        is_filtered_page(rows, kind, favorite_only, keyword, before, limit, s2),
        forall|j: int| 0 <= j < s1.len() && j < s2.len() ==> s1[j] == s2[j],
    ensures
        s2.len() <= s1.len(),
{
    if s1.len() < s2.len() {
        let b = s2[s1.len() as int];
        if s1.contains(b) {
            let j = choose|j: int| 0 <= j < s1.len() && s1[j] == b;
            assert(s2[j] == b);
            assert(key_lt(row_key(rows[s2[s1.len() as int] as int]), row_key(rows[s2[j] as int])));
        }
    }
}

/// A list request has one answer: two pages of the same table and filter are equal.
pub proof fn lemma_page_unique(
    rows: Seq<ItemRow>,
    kind: Option<ClipboardKind>,
    favorite_only: bool,
    keyword: Seq<char>,
    before: Option<ListCursor>,
    limit: int,
    s1: Seq<usize>,
    s2: Seq<usize>,
)
    requires
        ids_increasing(rows),
        is_filtered_page(rows, kind, favorite_only, keyword, before, limit, s1),
        is_filtered_page(rows, kind, favorite_only, keyword, before, limit, s2),
    ensures
        s1 == s2,
{
    if s1.len() > 0 && s2.len() > 0 {
        let k = if s1.len() < s2.len() {
            s1.len() - 1
        } else {
            s2.len() - 1
        };
        lemma_pages_agree_upto(rows, kind, favorite_only, keyword, before, limit, s1, s2, k);
    }
    lemma_page_not_shorter(rows, kind, favorite_only, keyword, before, limit, s1, s2);
    lemma_page_not_shorter(rows, kind, favorite_only, keyword, before, limit, s2, s1);
    assert(s1 =~= s2);
}

/// The cursor after the last entry of a page.
pub open spec fn cursor_after(r: ItemRow) -> ListCursor {
    ListCursor { copied_at: r.copied_at, id: r.id }
}

/// Paging by cursor loses and repeats nothing: a full first page of `a`
/// entries followed by the page of `b` entries after its last entry is the
/// page of `a + b` entries.
pub proof fn lemma_pages_concatenate(
    rows: Seq<ItemRow>,
    kind: Option<ClipboardKind>,
    favorite_only: bool,
    keyword: Seq<char>,
    before: Option<ListCursor>,
    a: int,
    b: int,
    p1: Seq<usize>,
    p2: Seq<usize>,
)
    requires
        is_filtered_page(rows, kind, favorite_only, keyword, before, a, p1),
        p1.len() == a > 0,
        is_filtered_page(
            rows,
            kind,
            favorite_only,
            keyword,
            Some(cursor_after(rows[p1.last() as int])),
            b,
            p2,
        ),
    ensures
        is_filtered_page(rows, kind, favorite_only, keyword, before, a + b, p1 + p2),
{
    let last = rows[p1.last() as int];
    let c = cursor_after(last);
    let s = p1 + p2;
    assert(row_passes(last, kind, favorite_only, keyword, before));
    assert forall|r: ItemRow|
        row_passes(r, kind, favorite_only, keyword, Some(c)) implies #[trigger] row_passes(
        r,
        kind,
        favorite_only,
        keyword,
        before,
    ) by {}
    assert forall|k: int| 0 <= k < s.len() implies s[k] < rows.len() && row_passes(
        rows[s[k] as int],
        kind,
        favorite_only,
        keyword,
        before,
    ) by {
        if k >= p1.len() {
            assert(s[k] == p2[k - p1.len()]);
        }
    }
    assert forall|k1: int, k2: int| 0 <= k1 < k2 < s.len() implies key_lt(
        row_key(rows[s[k2] as int]),
        row_key(rows[s[k1] as int]),
    ) by {
        if k2 >= p1.len() {
            assert(s[k2] == p2[k2 - p1.len()]);
            assert(row_passes(rows[p2[k2 - p1.len()] as int], kind, favorite_only, keyword, Some(c)));
            if k1 >= p1.len() {
                assert(s[k1] == p2[k1 - p1.len()]);
            } else if k1 < p1.len() - 1 {
                assert(key_lt(row_key(rows[p1[p1.len() - 1] as int]), row_key(rows[p1[k1] as int])));
            }
        }
    }
    assert forall|i: int|
        0 <= i < rows.len() && row_passes(rows[i], kind, favorite_only, keyword, before)
            && !s.contains(i as usize) implies {
        &&& s.len() == a + b
        &&& forall|k: int|
            0 <= k < s.len() ==> key_lt(row_key(rows[i]), row_key(rows[s[k] as int]))
    } by {
        assert(!p1.contains(i as usize)) by {
            if p1.contains(i as usize) {
                let j = choose|j: int| 0 <= j < p1.len() && p1[j] == i as usize;
                assert(s[j] == i as usize);
            }
        }
        assert(!p2.contains(i as usize)) by {
            if p2.contains(i as usize) {
                let j = choose|j: int| 0 <= j < p2.len() && p2[j] == i as usize;
                assert(s[p1.len() + j] == i as usize);
            }
        }
        assert(key_lt(row_key(rows[i]), row_key(rows[p1[p1.len() - 1] as int])));
        assert(row_passes(rows[i], kind, favorite_only, keyword, Some(c)));
        assert forall|k: int| 0 <= k < s.len() implies key_lt(
            row_key(rows[i]),
            row_key(rows[s[k] as int]),
        ) by {
            if k >= p1.len() {
                assert(s[k] == p2[k - p1.len()]);
            }
        }
    }
}

/// Rows added to the table that the filter rejects (such as entries copied
/// after the cursor of a later page) change no page: new copies during
/// scrolling neither repeat nor hide entries of the pages still to load.
pub proof fn lemma_page_ignores_added_rows(
    rows: Seq<ItemRow>,
    extra: Seq<ItemRow>,
    kind: Option<ClipboardKind>,
    favorite_only: bool,
    keyword: Seq<char>,
    before: Option<ListCursor>,
    limit: int,
    sel: Seq<usize>,
)
    requires
        is_filtered_page(rows, kind, favorite_only, keyword, before, limit, sel),
        forall|j: int|
            0 <= j < extra.len() ==> !row_passes(
                #[trigger] extra[j],
                kind,
                favorite_only,
                keyword,
                before,
            ),
    ensures
        is_filtered_page(rows + extra, kind, favorite_only, keyword, before, limit, sel),
{
    let all = rows + extra;
    assert forall|k: int| 0 <= k < sel.len() implies sel[k] < all.len() && row_passes(
        all[sel[k] as int],
        kind,
        favorite_only,
        keyword,
        before,
    ) by {
        assert(all[sel[k] as int] == rows[sel[k] as int]);
    }
    assert forall|k1: int, k2: int| 0 <= k1 < k2 < sel.len() implies key_lt(
        row_key(all[sel[k2] as int]),
        row_key(all[sel[k1] as int]),
    ) by {
        assert(all[sel[k1] as int] == rows[sel[k1] as int]);
        assert(all[sel[k2] as int] == rows[sel[k2] as int]);
    }
    assert forall|i: int|
        0 <= i < all.len() && row_passes(all[i], kind, favorite_only, keyword, before)
            && !sel.contains(i as usize) implies {
        &&& sel.len() == limit
        &&& forall|k: int|
            0 <= k < sel.len() ==> key_lt(row_key(all[i]), row_key(all[sel[k] as int]))
    } by {
        if i >= rows.len() {
            assert(all[i] == extra[i - rows.len()]);
        } else {
            assert(all[i] == rows[i]);
            assert forall|k: int| 0 <= k < sel.len() implies key_lt(
                row_key(all[i]),
                row_key(all[sel[k] as int]),
            ) by {
                assert(all[sel[k] as int] == rows[sel[k] as int]);
            }
        }
    }
}

/// Marking or unmarking a favorite does not move entries in a list that does
/// not filter by favorites.
pub proof fn lemma_favorite_keeps_order(
    rows: Seq<ItemRow>,
    i: int,
    favorite: bool,
    kind: Option<ClipboardKind>,
    keyword: Seq<char>,
    before: Option<ListCursor>,
    limit: int,
    sel: Seq<usize>,
)
    requires
        0 <= i < rows.len(),
        is_filtered_page(rows, kind, false, keyword, before, limit, sel),
    ensures
        is_filtered_page(
            rows.update(i, ItemRow { favorite, ..rows[i] }),
            kind,
            false,
            keyword,
            before,
            limit,
            sel,
        ),
{
    let rows2 = rows.update(i, ItemRow { favorite, ..rows[i] });
    assert forall|j: int| 0 <= j < rows.len() implies row_key(#[trigger] rows2[j]) == row_key(
        rows[j],
    ) && row_passes(rows2[j], kind, false, keyword, before) == row_passes(
        rows[j],
        kind,
        false,
        keyword,
        before,
    ) by {}
    assert forall|k1: int, k2: int| 0 <= k1 < k2 < sel.len() implies key_lt(
        row_key(rows2[sel[k2] as int]),
        row_key(rows2[sel[k1] as int]),
    ) by {
        assert(row_key(rows2[sel[k2] as int]) == row_key(rows[sel[k2] as int]));
        assert(row_key(rows2[sel[k1] as int]) == row_key(rows[sel[k1] as int]));
    }
    assert forall|j: int|
        0 <= j < rows2.len() && row_passes(rows2[j], kind, false, keyword, before)
            && !sel.contains(j as usize) implies {
        &&& sel.len() == limit
        &&& forall|k: int|
            0 <= k < sel.len() ==> key_lt(row_key(rows2[j]), row_key(rows2[sel[k] as int]))
    } by {
        assert(row_passes(rows[j], kind, false, keyword, before));
        assert forall|k: int| 0 <= k < sel.len() implies key_lt(
            row_key(rows2[j]),
            row_key(rows2[sel[k] as int]),
        ) by {
            assert(row_key(rows2[sel[k] as int]) == row_key(rows[sel[k] as int]));
        }
    }
    assert forall|k: int| 0 <= k < sel.len() implies sel[k] < rows2.len() && row_passes(
        rows2[sel[k] as int],
        kind,
        false,
        keyword,
        before,
    ) by {
        assert(row_passes(rows2[sel[k] as int], kind, false, keyword, before) == row_passes(rows[sel[k] as int], kind, false, keyword, before));
    }
}

/// A text with every ASCII capital letter lowered (`str::to_ascii_lowercase`).
pub open spec fn ascii_lowered(s: Seq<char>) -> Seq<char> {
    s.map_values(|c: char| fold_case(c))
}

/// Lowering an ASCII letter twice is lowering it once; a lowered character
/// is never an ASCII capital.
pub proof fn lemma_fold_case_idempotent(c: char)
    ensures
        fold_case(fold_case(c)) == fold_case(c),
        !('A' <= fold_case(c) && fold_case(c) <= 'Z'),
{
}

/// The case law at one position.
proof fn lemma_keyword_at_case(t: Seq<char>, k: Seq<char>, p: int)
    ensures
        keyword_at(t, k, p) == keyword_at(t, ascii_lowered(k), p),
        keyword_at(t, k, p) == keyword_at(ascii_lowered(t), k, p),
{
    let lk = ascii_lowered(k);
    let lt = ascii_lowered(t);
    assert forall|j: int| 0 <= j < k.len() implies fold_case(#[trigger] lk[j]) == fold_case(k[j]) by {
        lemma_fold_case_idempotent(k[j]);
    }
    if 0 <= p && p + k.len() <= t.len() {
        assert forall|j: int| 0 <= j < k.len() implies fold_case(#[trigger] lt[p + j]) == fold_case(
            t[p + j],
        ) by {
            lemma_fold_case_idempotent(t[p + j]);
        }
    }
    if keyword_at(t, k, p) {
        assert forall|j: int| 0 <= j < lk.len() implies fold_case(#[trigger] t[p + j]) == fold_case(
            lk[j],
        ) by {
            assert(fold_case(t[p + j]) == fold_case(k[j]));
        }
        assert forall|j: int| 0 <= j < k.len() implies fold_case(#[trigger] lt[p + j]) == fold_case(
            k[j],
        ) by {
            assert(fold_case(t[p + j]) == fold_case(k[j]));
        }
    }
    if keyword_at(t, lk, p) {
        assert forall|j: int| 0 <= j < k.len() implies fold_case(#[trigger] t[p + j]) == fold_case(
            k[j],
        ) by {
            assert(fold_case(t[p + j]) == fold_case(lk[j]));
        }
    }
    if keyword_at(lt, k, p) {
        assert forall|j: int| 0 <= j < k.len() implies fold_case(#[trigger] t[p + j]) == fold_case(
            k[j],
        ) by {
            assert(fold_case(lt[p + j]) == fold_case(k[j]));
        }
    }
}

/// Keyword search ignores ASCII case on both sides: the keyword matches at a
/// position exactly when its lowered form does, and exactly when it matches
/// the lowered text there; so `Apple`, `APPLE` and `apple` find the same
/// texts.
pub proof fn lemma_keyword_ignores_ascii_case(text: Seq<char>, keyword: Seq<char>, i: int)
    ensures
        keyword_at(text, keyword, i) == keyword_at(text, ascii_lowered(keyword), i),
        keyword_at(text, keyword, i) == keyword_at(ascii_lowered(text), keyword, i),
        contains_keyword(text, keyword) == contains_keyword(text, ascii_lowered(keyword)),
        contains_keyword(text, keyword) == contains_keyword(ascii_lowered(text), keyword),
{
    lemma_keyword_at_case(text, keyword, i);
    if contains_keyword(text, keyword) {
        let w = choose|w: int| keyword_at(text, keyword, w);
        lemma_keyword_at_case(text, keyword, w);
    }
    if contains_keyword(text, ascii_lowered(keyword)) {
        let w = choose|w: int| keyword_at(text, ascii_lowered(keyword), w);
        lemma_keyword_at_case(text, keyword, w);
    }
    if contains_keyword(ascii_lowered(text), keyword) {
        let w = choose|w: int| keyword_at(ascii_lowered(text), keyword, w);
        lemma_keyword_at_case(text, keyword, w);
    }
}

/// Every text is found by itself as the keyword, whatever its case.
pub proof fn lemma_text_finds_itself(text: Seq<char>)
    ensures
        contains_keyword(text, text),
        contains_keyword(ascii_lowered(text), text),
        contains_keyword(text, ascii_lowered(text)),
{
    assert(keyword_at(text, text, 0));
    lemma_keyword_ignores_ascii_case(text, text, 0);
}

/// A list request gives the same page for a keyword as for its lowered
/// form: the keyword filter ignores ASCII case.
pub proof fn lemma_page_ignores_keyword_case(
    rows: Seq<ItemRow>,
    kind: Option<ClipboardKind>,
    favorite_only: bool,
    keyword: Seq<char>,
    before: Option<ListCursor>,
    limit: int,
    sel: Seq<usize>,
)
    ensures
        is_filtered_page(rows, kind, favorite_only, keyword, before, limit, sel)
            == is_filtered_page(rows, kind, favorite_only, ascii_lowered(keyword), before, limit, sel),
{
    assert forall|r: ItemRow| #[trigger] row_passes(r, kind, favorite_only, keyword, before)
        == row_passes(r, kind, favorite_only, ascii_lowered(keyword), before) by {
        if r.text is Some {
            lemma_keyword_ignores_ascii_case(r.text->0@, keyword, 0);
        }
    }
}

} // verus!
