//! The clipboard history table: one row per distinct content (by hash), kept
//! in id order, with the deduplicating write, the eviction of old
//! non-favorites, the filtered and cursor-paged list, and the row lookups.
//! Persisting rows and image files is the caller's business; every rule about
//! which rows exist and how they are listed is here.

use vstd::prelude::*;

use crate::clipboard::{
    captured_hash, captured_kind, file_name_of, file_name_spec, opt_text, searchable_text,
    searchable_text_spec, Captured, ClipboardFile, ClipboardItem, ClipboardKind, ListQuery,
    ListCursor, MAX_ITEMS, PREVIEW_CHARS,
};
use crate::backend::text_byte_len;
use crate::error::AppError;
use crate::text::{
    append_str, chars_of, fold_case, fold_case_char, push_char, string_of_chars, trim_chars, trimmed,
};

verus! {

/// One row of the history table; the fields are the table's columns.
///
/// Kind-specific columns are optional because the three kinds share a table;
/// the write path fills the ones its kind needs.
#[derive(Debug)]
pub struct ItemRow {
    pub id: i64,
    pub kind: ClipboardKind,
    pub hash: String,
    /// Searchable text (text: full text; files: file names; image: none).
    pub text: Option<String>,
    /// File name of the picture under the images directory (images only).
    pub image_file: Option<String>,
    pub image_width: Option<i64>,
    pub image_height: Option<i64>,
    /// Full paths (file lists only).
    pub files: Option<Vec<String>>,
    /// Bytes of the text, or of the PNG of an image; 0 for file lists.
    pub size: i64,
    pub favorite: bool,
    pub created_at: i64,
    pub copied_at: i64,
}

/// Sort key of a row: most recently copied first, ties broken by newer id.
pub open spec fn row_key(r: ItemRow) -> (int, int) {
    (r.copied_at as int, r.id as int)
}

/// Lexicographic order of keys (`(copied_at, id) < (a, b)`).
pub open spec fn key_lt(a: (int, int), b: (int, int)) -> bool {
    a.0 < b.0 || (a.0 == b.0 && a.1 < b.1)
}

/// Rows are in strictly increasing id order, so ids (and keys) are unique.
pub open spec fn ids_increasing(rows: Seq<ItemRow>) -> bool {
    forall|i: int, j: int| 0 <= i < j < rows.len() ==> rows[i].id < rows[j].id
}

/// No two rows share a hash.
pub open spec fn hashes_unique(rows: Seq<ItemRow>) -> bool {
    forall|i: int, j: int|
        0 <= i < rows.len() && 0 <= j < rows.len() && i != j ==> rows[i].hash@ != rows[j].hash@
}

/// Every id is below the next id to hand out.
pub open spec fn ids_below(rows: Seq<ItemRow>, next_id: int) -> bool {
    forall|i: int| 0 <= i < rows.len() ==> rows[i].id < next_id
}

/// Well-formed table rows.
pub open spec fn table_wf(rows: Seq<ItemRow>, next_id: int) -> bool {
    &&& ids_increasing(rows)
    &&& hashes_unique(rows)
    &&& ids_below(rows, next_id)
}

/// Position of the row with id `id`, if any.
pub open spec fn has_id(rows: Seq<ItemRow>, id: int) -> bool {
    exists|i: int| 0 <= i < rows.len() && rows[i].id == id
}

/// Position of the row with hash `h`, if any.
pub open spec fn has_hash(rows: Seq<ItemRow>, h: Seq<char>) -> bool {
    exists|i: int| 0 <= i < rows.len() && rows[i].hash@ == h
}

/// Message of a lookup of an id that has no row.
pub open spec fn not_found_message() -> Seq<char> {
    seq!['记', '录', '不', '存', '在']
}

/// Message of a full-text request for an entry that is not a text.
pub open spec fn not_text_message() -> Seq<char> {
    seq!['该', '条', '目', '不', '是', '文', '本']
}

/// The error of a missing id: `InvalidInput("记录不存在")`.
pub open spec fn is_not_found(e: AppError) -> bool {
    e matches AppError::InvalidInput(m) && m@ == not_found_message()
}

fn not_found() -> (e: AppError)
    ensures
        is_not_found(e),
{
    proof {
        reveal_strlit("记录不存在");
    }
    let s: &str = "记录不存在";
    assert(s@ =~= not_found_message());
    AppError::InvalidInput(s.to_owned())
}

/// The clipboard history: rows in id order, the next id, and the directory of
/// the image files.
pub struct ClipboardStore {
    rows: Vec<ItemRow>,
    next_id: i64,
    images_dir: String,
}

impl ClipboardStore {
    /// The rows, in id order.
    pub closed spec fn rows_view(&self) -> Seq<ItemRow> {
        self.rows@
    }

    /// The id the next inserted row gets.
    pub closed spec fn next_id_view(&self) -> int {
        self.next_id as int
    }

    /// Directory of the image files.
    pub closed spec fn images_dir_view(&self) -> Seq<char> {
        self.images_dir@
    }

    /// Well-formedness: ids increasing and below the next id, hashes unique.
    pub open spec fn wf(&self) -> bool {
        table_wf(self.rows_view(), self.next_id_view())
    }

    /// An empty history whose images live in `images_dir`.
    pub fn new(images_dir: String) -> (res: Self)
        ensures
            res.wf(),
            res.rows_view() == Seq::<ItemRow>::empty(),
            res.next_id_view() == 1,
            res.images_dir_view() == images_dir@,
    {
        ClipboardStore { rows: Vec::new(), next_id: 1, images_dir }
    }

    /// The rows, in id order (for persisting them).
    pub fn rows(&self) -> (res: &Vec<ItemRow>)
        ensures
            res@ == self.rows_view(),
    {
        &self.rows
    }

    /// The id the next inserted row gets (for persisting it).
    pub fn next_id(&self) -> (res: i64)
        ensures
            res == self.next_id_view(),
    {
        self.next_id
    }

    /// Directory of the image files.
    pub fn images_dir(&self) -> (res: &String)
        ensures
            res@ == self.images_dir_view(),
    {
        &self.images_dir
    }

    /// Index of the row with id `id`.
    fn index_of_id(&self, id: i64) -> (res: Option<usize>)
        ensures
            match res {
                Some(i) => i < self.rows_view().len() && self.rows_view()[i as int].id == id,
                None => !has_id(self.rows_view(), id as int),
            },
    {
        let mut i: usize = 0;
        while i < self.rows.len()
            invariant
                i <= self.rows@.len(),
                forall|j: int| 0 <= j < i ==> self.rows@[j].id != id,
            decreases self.rows@.len() - i,
        {
            if self.rows[i].id == id {
                return Some(i);
            }
            i = i + 1;
        }
        None
    }

    /// Index of the row with hash `hash`.
    fn index_of_hash(&self, hash: &String) -> (res: Option<usize>)
        ensures
            match res {
                Some(i) => i < self.rows_view().len() && self.rows_view()[i as int].hash@
                    == hash@,
                None => !has_hash(self.rows_view(), hash@),
            },
    {
        let mut i: usize = 0;
        while i < self.rows.len()
            invariant
                i <= self.rows@.len(),
                forall|j: int| 0 <= j < i ==> self.rows@[j].hash@ != hash@,
            decreases self.rows@.len() - i,
        {
            if self.rows[i].hash == *hash {
                return Some(i);
            }
            i = i + 1;
        }
        None
    }

    /// The row with id `id`; a missing id gives `InvalidInput("记录不存在")`.
    pub fn fetch_row(&self, id: i64) -> (res: Result<&ItemRow, AppError>)
        ensures
            match res {
                Ok(r) => exists|i: int|
                    0 <= i < self.rows_view().len() && self.rows_view()[i] == *r && r.id == id,
                Err(e) => !has_id(self.rows_view(), id as int) && is_not_found(e),
            },
    {
        match self.index_of_id(id) {
            Some(i) => Ok(&self.rows[i]),
            None => Err(not_found()),
        }
    }

    /// A history made of rows read back from storage; `Database("历史记录数据不一致")`
    /// when they break the table's rules (ids increasing and below `next_id`, hashes unique).
    pub fn from_rows(images_dir: String, rows: Vec<ItemRow>, next_id: i64) -> (res: Result<
        Self,
        AppError,
    >)
        ensures
            res is Ok <==> table_wf(rows@, next_id as int),
            res matches Ok(s) ==> s.rows_view() == rows@ && s.next_id_view() == next_id
                && s.images_dir_view() == images_dir@,
            res matches Err(e) ==> is_inconsistent_rows(e),
    {
        let n = rows.len();
        let mut i: usize = 0;
        while i < n
            invariant
                n == rows@.len(),
                i <= n,
                forall|a: int, b: int| 0 <= a < b < i ==> rows@[a].id < rows@[b].id,
                forall|a: int, b: int|
                    0 <= a < i && 0 <= b < i && a != b ==> rows@[a].hash@ != rows@[b].hash@,
                forall|a: int| 0 <= a < i ==> rows@[a].id < next_id,
            decreases n - i,
        {
            if rows[i].id >= next_id || (i > 0 && rows[i].id <= rows[i - 1].id) {
                return Err(inconsistent_rows());
            }
            let mut j: usize = 0;
            while j < i
                invariant
                    n == rows@.len(),
                    j <= i < n,
                    forall|b: int| 0 <= b < j ==> rows@[b].hash@ != rows@[i as int].hash@,
                decreases i - j,
            {
                if rows[j].hash == rows[i].hash {
                    return Err(inconsistent_rows());
                }
                j = j + 1;
            }
            i = i + 1;
        }
        Ok(ClipboardStore { rows, next_id, images_dir })
    }

    /// Deletes the row with id `id` and returns its image file name (`None`
    /// for texts and file lists); a missing id gives `InvalidInput("记录不存在")`
    /// and changes nothing.
    pub fn delete(&mut self, id: i64) -> (res: Result<Option<String>, AppError>)
        requires
            old(self).wf(),
        ensures
            final(self).wf(),
            final(self).images_dir_view() == old(self).images_dir_view(),
            final(self).next_id_view() == old(self).next_id_view(),
            match res {
                Ok(f) => exists|i: int|
                    0 <= i < old(self).rows_view().len() && old(self).rows_view()[i].id == id
                        && final(self).rows_view() == old(self).rows_view().remove(i) && f
                        == old(self).rows_view()[i].image_file,
                Err(e) => !has_id(old(self).rows_view(), id as int) && is_not_found(e)
                    && final(self).rows_view() == old(self).rows_view(),
            },
    {
        match self.index_of_id(id) {
            Some(i) => {
                let row = self.rows.remove(i);
                proof {
                    lemma_remove_keeps_wf(old(self).rows@, i as int, self.next_id as int);
                }
                Ok(row.image_file)
            },
            None => Err(not_found()),
        }
    }

    /// Sets or clears the favorite mark of row `id`; nothing else changes, in
    /// particular not its position. A missing id gives `InvalidInput("记录不存在")`.
    pub fn set_favorite(&mut self, id: i64, favorite: bool) -> (res: Result<(), AppError>)
        requires
            old(self).wf(),
        ensures
            final(self).wf(),
            final(self).images_dir_view() == old(self).images_dir_view(),
            final(self).next_id_view() == old(self).next_id_view(),
            match res {
                Ok(_) => exists|i: int|
                    0 <= i < old(self).rows_view().len() && old(self).rows_view()[i].id == id
                        && final(self).rows_view() == old(self).rows_view().update(
                        i,
                        ItemRow { favorite, ..old(self).rows_view()[i] },
                    ),
                Err(e) => !has_id(old(self).rows_view(), id as int) && is_not_found(e)
                    && final(self).rows_view() == old(self).rows_view(),
            },
    {
        match self.index_of_id(id) {
            Some(i) => {
                let mut row = self.rows.remove(i);
                row.favorite = favorite;
                self.rows.insert(i, row);
                proof {
                    let o = old(self).rows@;
                    assert(self.rows@ =~= o.update(i as int, ItemRow { favorite, ..o[i as int] }));
                    assert forall|a: int| 0 <= a < self.rows@.len() implies (self.rows@[a].id
                        == o[a].id && self.rows@[a].hash == o[a].hash) by {}
                }
                Ok(())
            },
            None => Err(not_found()),
        }
    }

    /// Writes a snapshot copied at `now`: the same content (same hash) only
    /// moves up, keeping its row, favorite mark and creation time; new content
    /// gets a new row. Returns the index of the written row. Fails only when
    /// new content finds every id used.
    pub fn upsert(&mut self, captured: &Captured, now: i64) -> (res: Result<usize, AppError>)
        requires
            old(self).wf(),
        ensures
            final(self).wf(),
            final(self).images_dir_view() == old(self).images_dir_view(),
            res is Err <==> (!has_hash(old(self).rows_view(), captured_hash(*captured))
                && old(self).next_id_view() == i64::MAX),
            res matches Err(e) ==> is_ids_exhausted(e) && final(self).rows_view() == old(self).rows_view() && final(self).next_id_view() == old(self).next_id_view(),
            res is Ok ==> upsert_post(
                old(self).rows_view(),
                old(self).next_id_view(),
                *captured,
                now,
                final(self).rows_view(),
                final(self).next_id_view(),
            ),
            res matches Ok(i) ==> i < final(self).rows_view().len() && final(self).rows_view()[i as int].hash@ == captured_hash(*captured),
    {
        let hash = captured.hash();
        match self.index_of_hash(&hash) {
            Some(i) => {
                let mut row = self.rows.remove(i);
                row.copied_at = now;
                self.rows.insert(i, row);
                proof {
                    let o = old(self).rows@;
                    assert(self.rows@ =~= o.update(i as int, ItemRow { copied_at: now, ..o[i as int] }));
                    assert forall|a: int| 0 <= a < self.rows@.len() implies (self.rows@[a].id
                        == o[a].id && self.rows@[a].hash == o[a].hash) by {}
                }
                Ok(i)
            },
            None => {
                if self.next_id == i64::MAX {
                    return Err(ids_exhausted());
                }
                let text = searchable_text(captured);
                let row = match captured {
                    Captured::Text(t) => ItemRow {
                        id: self.next_id,
                        kind: ClipboardKind::Text,
                        hash,
                        text,
                        image_file: None,
                        image_width: None,
                        image_height: None,
                        files: None,
                        size: t.as_str().len() as i64,
                        favorite: false,
                        created_at: now,
                        copied_at: now,
                    },
                    Captured::Image { png, width, height, rgba_hash, .. } => ItemRow {
                        id: self.next_id,
                        kind: ClipboardKind::Image,
                        hash,
                        text,
                        image_file: Some(image_file_name(rgba_hash.as_str())),
                        image_width: Some(*width as i64),
                        image_height: Some(*height as i64),
                        files: None,
                        size: png.len() as i64,
                        favorite: false,
                        created_at: now,
                        copied_at: now,
                    },
                    Captured::Files(paths) => ItemRow {
                        id: self.next_id,
                        kind: ClipboardKind::Files,
                        hash,
                        text,
                        image_file: None,
                        image_width: None,
                        image_height: None,
                        files: Some(copy_strings(paths)),
                        size: 0,
                        favorite: false,
                        created_at: now,
                        copied_at: now,
                    },
                };
                self.rows.push(row);
                self.next_id = self.next_id + 1;
                proof {
                    let o = old(self).rows@;
                    assert(self.rows@.drop_last() =~= o);
                    assert forall|a: int| 0 <= a < o.len() implies #[trigger] self.rows@[a] == o[a] by {}
                }
                Ok(self.rows.len() - 1)
            },
        }
    }

    /// Evicts the non-favorites beyond the `MAX_ITEMS` most recently copied
    /// ones (by `copied_at`, then id) and returns them in id order; favorites
    /// are never evicted and do not count.
    pub fn trim(&mut self) -> (res: Vec<ItemRow>)
        requires
            old(self).wf(),
        ensures
            final(self).wf(),
            final(self).images_dir_view() == old(self).images_dir_view(),
            final(self).next_id_view() == old(self).next_id_view(),
            trim_post(old(self).rows_view(), final(self).rows_view(), res@),
    {
        let ghost o = self.rows@;
        let n = self.rows.len();
        let mut keep: Vec<bool> = Vec::new();
        let mut i: usize = 0;
        while i < n
            invariant
                n == self.rows@.len(),
                self.rows@ == o,
                i <= n,
                keep@.len() == i,
                forall|k: int| 0 <= k < i ==> keep@[k] == kept_by_trim(o, #[trigger] o[k]),
            decreases n - i,
        {
            let newer = count_newer_nonfavorites(&self.rows, i);
            keep.push(self.rows[i].favorite || newer < 500);
            i = i + 1;
        }
        let mut evicted: Vec<ItemRow> = Vec::new();
        let mut j: usize = n;
        assert(o.subrange(n as int, n as int) =~= Seq::<ItemRow>::empty());
        assert(o.take(n as int) =~= o);
        reveal(Seq::filter);
        while j > 0
            invariant
                n == o.len(),
                j <= n,
                keep@.len() == n,
                forall|k: int| 0 <= k < n ==> keep@[k] == kept_by_trim(o, #[trigger] o[k]),
                self.rows@ == o.take(j as int) + o.subrange(j as int, n as int).filter(
                    trim_keeps(o),
                ),
                evicted@ == o.subrange(j as int, n as int).filter(trim_evicts(o)),
                table_wf(self.rows@, self.next_id as int),
                self.next_id == old(self).next_id,
                self.images_dir == old(self).images_dir,
            decreases j,
        {
            j = j - 1;
            let ghost rest = o.subrange(j + 1, n as int);
            let ghost x = o[j as int];
            proof {
                assert(o.subrange(j as int, n as int) =~= seq![x] + rest);
                lemma_filter_prepend(x, rest, trim_keeps(o));
                lemma_filter_prepend(x, rest, trim_evicts(o));
                assert(o.take(j + 1) =~= o.take(j as int).push(x));
            }
            if !keep[j] {
                proof {
                    lemma_remove_keeps_wf(self.rows@, j as int, self.next_id as int);
                    assert(self.rows@.remove(j as int) =~= o.take(j as int) + rest.filter(
                        trim_keeps(o),
                    ));
                }
                let r = self.rows.remove(j);
                evicted.insert(0, r);
                assert(evicted@ =~= seq![x] + rest.filter(trim_evicts(o)));
            } else {
                assert(self.rows@ =~= o.take(j as int) + (seq![x] + rest.filter(trim_keeps(o))));
            }
        }
        assert(o.take(0) + o.subrange(0, n as int).filter(trim_keeps(o)) =~= o.filter(
            trim_keeps(o),
        )) by {
            assert(o.subrange(0, n as int) =~= o);
        }
        assert(o.subrange(0, n as int) =~= o);
        evicted
    }

    /// Among the rows flagged in `matching` and (when `sel` is not empty)
    /// older than the last selected row, the newest one.
    fn newest_below(&self, matching: &Vec<bool>, sel: &Vec<usize>) -> (res: Option<usize>)
        requires
            matching@.len() == self.rows_view().len(),
            forall|k: int| 0 <= k < sel@.len() ==> sel@[k] < self.rows_view().len(),
        ensures
            match res {
                Some(b) => b < self.rows_view().len() && is_candidate(
                    self.rows_view(),
                    matching@,
                    sel@,
                    b as int,
                ) && forall|k: int|
                    0 <= k < self.rows_view().len() && #[trigger] is_candidate(
                        self.rows_view(),
                        matching@,
                        sel@,
                        k,
                    ) ==> !key_lt(row_key(self.rows_view()[b as int]), row_key(self.rows_view()[k])),
                None => forall|k: int|
                    0 <= k < self.rows_view().len() ==> !#[trigger] is_candidate(
                        self.rows_view(),
                        matching@,
                        sel@,
                        k,
                    ),
            },
    {
        let ghost rows = self.rows@;
        let n = self.rows.len();
        let has_last = sel.len() > 0;
        let mut best: Option<usize> = None;
        let mut j: usize = 0;
        while j < n
            invariant
                n == rows.len(),
                rows == self.rows@,
                matching@.len() == n,
                has_last == (sel@.len() > 0),
                forall|k: int| 0 <= k < sel@.len() ==> sel@[k] < n,
                j <= n,
                match best {
                    Some(b) => b < j && is_candidate(rows, matching@, sel@, b as int) && forall|
                        k: int,
                    |
                        0 <= k < j && #[trigger] is_candidate(rows, matching@, sel@, k) ==> !key_lt(
                            row_key(rows[b as int]),
                            row_key(rows[k]),
                        ),
                    None => forall|k: int|
                        0 <= k < j ==> !#[trigger] is_candidate(rows, matching@, sel@, k),
                },
            decreases n - j,
        {
            if matching[j] {
                let below = if has_last {
                    let last = &self.rows[sel[sel.len() - 1]];
                    let x = &self.rows[j];
                    x.copied_at < last.copied_at || (x.copied_at == last.copied_at && x.id
                        < last.id)
                } else {
                    true
                };
                assert(below == is_candidate(rows, matching@, sel@, j as int));
                if below {
                    match best {
                        Some(b) => {
                            let y = &self.rows[b];
                            let x = &self.rows[j];
                            if y.copied_at < x.copied_at || (y.copied_at == x.copied_at && y.id
                                < x.id) {
                                best = Some(j);
                            }
                        },
                        None => {
                            best = Some(j);
                        },
                    }
                }
            } else {
                assert(!is_candidate(rows, matching@, sel@, j as int));
            }
            j = j + 1;
        }
        best
    }

    /// Indices of the rows of the page that `q` asks for.
    fn select_page(&self, q: &ListQuery) -> (res: Vec<usize>)
        requires
            self.wf(),
        ensures
            is_page(self.rows_view(), *q, res@),
    {
        let ghost rows = self.rows@;
        let keyword = chars_of(q.query.as_str());
        let n = self.rows.len();
        let mut matching: Vec<bool> = Vec::new();
        let mut i: usize = 0;
        while i < n
            invariant
                n == rows.len(),
                rows == self.rows@,
                keyword@ == q.query@,
                i <= n,
                matching@.len() == i,
                forall|k: int| 0 <= k < i ==> matching@[k] == row_matches(#[trigger] rows[k], *q),
            decreases n - i,
        {
            matching.push(row_matches_exec(&self.rows[i], q, &keyword));
            i = i + 1;
        }
        let mut sel: Vec<usize> = Vec::new();
        let limit = q.limit as usize;
        loop
            invariant
                n == rows.len(),
                rows == self.rows@,
                limit == q.limit,
                table_wf(rows, self.next_id as int),
                matching@.len() == n,
                forall|k: int| 0 <= k < n ==> matching@[k] == row_matches(#[trigger] rows[k], *q),
                sel@.len() <= q.limit,
                forall|k: int|
                    0 <= k < sel@.len() ==> sel@[k] < n && row_matches(rows[sel@[k] as int], *q),
                forall|k1: int, k2: int|
                    0 <= k1 < k2 < sel@.len() ==> key_lt(
                        row_key(rows[sel@[k2] as int]),
                        row_key(rows[sel@[k1] as int]),
                    ),
                forall|j: int|
                    0 <= j < n && row_matches(rows[j], *q) && !sel@.contains(j as usize)
                        && sel@.len() > 0 ==> key_lt(row_key(rows[j]), row_key(rows[sel@.last() as int])),
            ensures
                is_page(rows, *q, sel@),
            decreases q.limit - sel@.len(),
        {
            if sel.len() >= limit {
                proof {
                    assert forall|x: int|
                        0 <= x < n && row_matches(rows[x], *q) && !sel@.contains(
                            x as usize,
                        ) implies forall|k: int|
                        0 <= k < sel@.len() ==> key_lt(
                            row_key(rows[x]),
                            row_key(rows[sel@[k] as int]),
                        ) by {
                        assert forall|k: int| 0 <= k < sel@.len() implies key_lt(
                            row_key(rows[x]),
                            row_key(rows[sel@[k] as int]),
                        ) by {
                            let l = sel@.len() - 1;
                            if k < l {
                                assert(key_lt(
                                    row_key(rows[sel@[l] as int]),
                                    row_key(rows[sel@[k] as int]),
                                ));
                            }
                        }
                    }
                }
                break;
            }
            let best = self.newest_below(&matching, &sel);
            match best {
                None => {
                    proof {
                        assert forall|x: int|
                            0 <= x < n && row_matches(rows[x], *q) && !sel@.contains(
                                x as usize,
                            ) implies {
                            &&& sel@.len() == q.limit
                            &&& forall|k: int|
                                0 <= k < sel@.len() ==> key_lt(
                                    row_key(rows[x]),
                                    row_key(rows[sel@[k] as int]),
                                )
                        } by {
                            assert(matching@[x]);
                            assert(!is_candidate(self.rows_view(), matching@, sel@, x));
                            assert(!is_candidate(rows, matching@, sel@, x));
                        }
                    }
                    break;
                },
                Some(b) => {
                    let ghost old_sel = sel@;
                    proof {
                        assert forall|k: int| 0 <= k < old_sel.len() implies old_sel[k] != b by {
                            if old_sel[k] == b {
                                let l = old_sel.len() - 1;
                                if k < l {
                                    assert(key_lt(
                                        row_key(rows[old_sel[l] as int]),
                                        row_key(rows[old_sel[k] as int]),
                                    ));
                                }
                            }
                        }
                    }
                    sel.push(b);
                    proof {
                        assert(sel@ == old_sel.push(b));
                        assert forall|k1: int, k2: int|
                            0 <= k1 < k2 < sel@.len() implies key_lt(
                            row_key(rows[sel@[k2] as int]),
                            row_key(rows[sel@[k1] as int]),
                        ) by {
                            if k2 == sel@.len() - 1 && k1 < old_sel.len() - 1 {
                                assert(key_lt(
                                    row_key(rows[old_sel.last() as int]),
                                    row_key(rows[old_sel[k1] as int]),
                                ));
                            }
                        }
                        assert forall|x: int|
                            0 <= x < n && row_matches(rows[x], *q) && !sel@.contains(
                                x as usize,
                            ) implies key_lt(
                            row_key(rows[x]),
                            row_key(rows[sel@.last() as int]),
                        ) by {
                            assert(matching@[x]);
                            assert(!old_sel.contains(x as usize)) by {
                                if old_sel.contains(x as usize) {
                                    let k = choose|k: int|
                                        0 <= k < old_sel.len() && old_sel[k] == x as usize;
                                    assert(sel@[k] == x as usize);
                                }
                            }
                            assert(is_candidate(rows, matching@, old_sel, x));
                            assert(x != b) by {
                                assert(sel@[sel@.len() - 1] == b);
                            }
                            lemma_keys_distinct(rows, x, b as int);
                        }
                    }
                },
            }
        }
        sel
    }

    /// List of entries: rows passing the kind, favorite, keyword and cursor
    /// filters, ordered by `(copied_at, id)` newest first, at most `limit`.
    /// The range of `limit` is checked by the command layer.
    pub fn list(&self, query: &ListQuery) -> (res: Result<Vec<ClipboardItem>, AppError>)
        requires
            self.wf(),
        ensures
            res matches Ok(items) && exists|sel: Seq<usize>|
                #[trigger] is_page(self.rows_view(), *query, sel) && items@.len() == sel.len() && forall|k: int|
                    0 <= k < sel.len() ==> item_of_row(
                        #[trigger] items@[k],
                        self.rows_view()[sel[k] as int],
                        self.images_dir_view(),
                    ),
    {
        let sel = self.select_page(query);
        let mut items: Vec<ClipboardItem> = Vec::new();
        let mut k: usize = 0;
        while k < sel.len()
            invariant
                is_page(self.rows_view(), *query, sel@),
                k <= sel@.len(),
                items@.len() == k,
                forall|a: int|
                    0 <= a < k ==> item_of_row(
                        #[trigger] items@[a],
                        self.rows_view()[sel@[a] as int],
                        self.images_dir_view(),
                    ),
            decreases sel@.len() - k,
        {
            let item = self.to_item(&self.rows[sel[k]]);
            items.push(item);
            k = k + 1;
        }
        Ok(items)
    }

    /// Absolute paths of a picture file and of its thumbnail under the images directory.
    pub fn image_paths(&self, image_file: &str) -> (res: (String, String))
        ensures
            is_joined_path(res.0@, self.images_dir_view(), image_file@),
            is_joined_path(res.1@, self.images_dir_view(), thumb_file_name_spec(image_file@)),
    {
        let sep = main_separator();
        let thumb = thumb_file_name(image_file);
        (
            join_path(self.images_dir.as_str(), image_file, sep),
            join_path(self.images_dir.as_str(), thumb.as_str(), sep),
        )
    }

    /// Row to list entry: a text's preview, an image's absolute paths, and for
    /// each file its name and whether it exists now.
    fn to_item(&self, row: &ItemRow) -> (res: ClipboardItem)
        ensures
            item_of_row(res, *row, self.images_dir_view()),
    {
        let size = row.size as u64;
        match row.kind {
            ClipboardKind::Text => {
                let (preview, char_count, truncated) = match &row.text {
                    Some(t) => preview_of(t.as_str()),
                    None => {
                        proof {
                            reveal_strlit("");
                        }
                        preview_of("")
                    },
                };
                assert(preview@ == preview_spec(text_or_empty(row.text)));
                assert(char_count == text_or_empty(row.text).len());
                assert(size == row.size as u64);
                ClipboardItem::Text {
                    id: row.id,
                    favorite: row.favorite,
                    copied_at: row.copied_at,
                    size,
                    preview,
                    char_count,
                    truncated,
                }
            },
            ClipboardKind::Image => {
                let (image_path, thumb_path) = match &row.image_file {
                    Some(f) => self.image_paths(f.as_str()),
                    None => {
                        proof {
                            reveal_strlit("");
                        }
                        self.image_paths("")
                    },
                };
                let width = match row.image_width {
                    Some(w) => w as u32,
                    None => 0,
                };
                let height = match row.image_height {
                    Some(h) => h as u32,
                    None => 0,
                };
                ClipboardItem::Image {
                    id: row.id,
                    favorite: row.favorite,
                    copied_at: row.copied_at,
                    size,
                    image_path,
                    thumb_path,
                    width,
                    height,
                }
            },
            ClipboardKind::Files => {
                let mut files: Vec<ClipboardFile> = Vec::new();
                match &row.files {
                    Some(paths) => {
                        let mut i: usize = 0;
                        while i < paths.len()
                            invariant
                                i <= paths@.len(),
                                row.files == Some(*paths),
                                files@.len() == i,
                                forall|k: int| 0 <= k < i ==> (#[trigger] files@[k]).path@ == paths@[k]@
                                    && files@[k].name@ == file_name_spec(paths@[k]@),
                            decreases paths@.len() - i,
                        {
                            let path = paths[i].clone();
                            let name = file_name_of(path.as_str());
                            let exists = path_exists(path.as_str());
                            files.push(ClipboardFile { path, name, exists });
                            i = i + 1;
                        }
                    },
                    None => {},
                }
                ClipboardItem::Files { id: row.id, favorite: row.favorite, copied_at: row.copied_at, files }
            },
        }
    }

    /// Records a snapshot copied at `now`: writes it (new row, or the same
    /// content moved up) and evicts the non-favorites beyond `MAX_ITEMS`.
    /// Returns the id of the written row and the evicted rows, whose picture
    /// files the caller removes.
    pub fn record_captured(&mut self, captured: &Captured, now: i64) -> (res: Result<
        (i64, Vec<ItemRow>),
        AppError,
    >)
        requires
            old(self).wf(),
        ensures
            final(self).wf(),
            final(self).images_dir_view() == old(self).images_dir_view(),
            res is Err <==> (!has_hash(old(self).rows_view(), captured_hash(*captured))
                && old(self).next_id_view() == i64::MAX),
            res matches Err(e) ==> is_ids_exhausted(e) && final(self).rows_view() == old(
                self).rows_view() && final(self).next_id_view() == old(self).next_id_view(),
            res matches Ok((id, evicted)) ==> exists|mid: Seq<ItemRow>|
                #[trigger] upsert_post(
                    old(self).rows_view(),
                    old(self).next_id_view(),
                    *captured,
                    now,
                    mid,
                    final(self).next_id_view(),
                ) && trim_post(mid, final(self).rows_view(), evicted@) && exists|i: int|
                    0 <= i < mid.len() && mid[i].id == id && mid[i].hash@ == captured_hash(
                        *captured,
                    ),
    {
        let i = self.upsert(captured, now)?;
        let id = self.rows[i].id;
        let ghost mid = self.rows@;
        let evicted = self.trim();
        Ok((id, evicted))
    }

    /// Full text of a text entry, as stored (not trimmed). A missing id gives
    /// `InvalidInput("记录不存在")`; another kind gives `InvalidInput("该条目不是文本")`.
    pub fn get_text(&self, id: i64) -> (res: Result<String, AppError>)
        requires
            self.wf(),
        ensures
            !has_id(self.rows_view(), id as int) ==> (res matches Err(e) && is_not_found(e)),
            forall|i: int|
                0 <= i < self.rows_view().len() && self.rows_view()[i].id == id ==> {
                    let r = self.rows_view()[i];
                    if r.kind == ClipboardKind::Text {
                        res matches Ok(t) && t@ == text_or_empty(r.text)
                    } else {
                        res matches Err(e) && is_not_text(e)
                    }
                },
    {
        match self.index_of_id(id) {
            Some(i) => {
                let row = &self.rows[i];
                if row.kind != ClipboardKind::Text {
                    return Err(not_text());
                }
                match &row.text {
                    Some(t) => Ok(t.clone()),
                    None => Ok(String::new()),
                }
            },
            None => Err(not_found()),
        }
    }
}

/// File name of an image's picture: its hash followed by `.png`.
pub open spec fn image_file_name_spec(hash: Seq<char>) -> Seq<char> {
    hash + seq!['.', 'p', 'n', 'g']
}

/// Name of the picture file of an image whose hash is `hash` (`<hash>.png`).
pub fn image_file_name(hash: &str) -> (res: String)
    ensures
        res@ == image_file_name_spec(hash@),
{
    let mut out = String::new();
    append_str(&mut out, hash);
    proof {
        reveal_strlit(".png");
    }
    append_str(&mut out, ".png");
    out
}

/// File name of the thumbnail of picture `image_file`: its stem (without a
/// trailing `.png`) followed by `.thumb.png`.
pub open spec fn thumb_file_name_spec(image_file: Seq<char>) -> Seq<char> {
    let png = seq!['.', 'p', 'n', 'g'];
    let stem = if image_file.len() >= 4 && image_file.subrange(
        image_file.len() - 4,
        image_file.len() as int,
    ) == png {
        image_file.subrange(0, image_file.len() - 4)
    } else {
        image_file
    };
    stem + seq!['.', 't', 'h', 'u', 'm', 'b', '.', 'p', 'n', 'g']
}

/// Name of the thumbnail file derived from the picture file name (`<hash>.thumb.png`).
pub fn thumb_file_name(image_file: &str) -> (res: String)
    ensures
        res@ == thumb_file_name_spec(image_file@),
{
    let cs = chars_of(image_file);
    let n = cs.len();
    let has_png = n >= 4 && cs[n - 4] == '.' && cs[n - 3] == 'p' && cs[n - 2] == 'n' && cs[n - 1]
        == 'g';
    proof {
        let png = seq!['.', 'p', 'n', 'g'];
        if n >= 4 {
            let tail = cs@.subrange(n - 4, n as int);
            if has_png {
                assert(tail =~= png);
            } else if tail == png {
                assert(tail[0] == cs@[n - 4] && tail[1] == cs@[n - 3] && tail[2] == cs@[n - 2]
                    && tail[3] == cs@[n - 1]);
            }
        }
    }
    let mut out = if has_png {
        string_of_chars(&cs, 0, n - 4)
    } else {
        string_of_chars(&cs, 0, n)
    };
    assert(cs@.subrange(0, n as int) =~= cs@);
    proof {
        reveal_strlit(".thumb.png");
    }
    append_str(&mut out, ".thumb.png");
    out
}

/// Copies a list of strings.
pub(crate) fn copy_strings(v: &Vec<String>) -> (res: Vec<String>)
    ensures
        res@ == v@,
{
    let mut out: Vec<String> = Vec::new();
    let mut i: usize = 0;
    while i < v.len()
        invariant
            i <= v@.len(),
            out@ == v@.subrange(0, i as int),
        decreases v@.len() - i,
    {
        out.push(v[i].clone());
        assert(out@ =~= v@.subrange(0, i + 1));
        i = i + 1;
    }
    assert(v@.subrange(0, v@.len() as int) =~= v@);
    out
}

/// The row written for a snapshot that is not in the history yet: id `id`,
/// not a favorite, created and copied at `now`, and the columns of its kind.
pub open spec fn is_new_row(r: ItemRow, c: Captured, id: int, now: i64) -> bool {
    &&& r.id == id
    &&& r.kind == captured_kind(c)
    &&& r.hash@ == captured_hash(c)
    &&& opt_text(r.text) == searchable_text_spec(c)
    &&& !r.favorite
    &&& r.created_at == now
    &&& r.copied_at == now
    &&& match c {
        Captured::Text(t) => {
            &&& r.image_file is None
            &&& r.image_width is None
            &&& r.image_height is None
            &&& r.files is None
            &&& r.size == text_byte_len(t@) as i64
        },
        Captured::Image { png, width, height, rgba_hash, .. } => {
            &&& opt_text(r.image_file) == Some(image_file_name_spec(rgba_hash@))
            &&& r.image_width == Some(width as i64)
            &&& r.image_height == Some(height as i64)
            &&& r.files is None
            &&& r.size == png@.len() as i64
        },
        Captured::Files(paths) => {
            &&& r.image_file is None
            &&& r.image_width is None
            &&& r.image_height is None
            &&& r.files matches Some(f) && f@ == paths@
            &&& r.size == 0
        },
    }
}

/// The effect of writing snapshot `c` at time `now`: a row with the same hash
/// only gets `copied_at = now` (no new row, favorite and creation time kept);
/// otherwise a new row with id `old_next` is appended.
pub open spec fn upsert_post(
    old_rows: Seq<ItemRow>,
    old_next: int,
    c: Captured,
    now: i64,
    new_rows: Seq<ItemRow>,
    new_next: int,
) -> bool {
    if has_hash(old_rows, captured_hash(c)) {
        &&& new_next == old_next
        &&& exists|i: int|
            0 <= i < old_rows.len() && old_rows[i].hash@ == captured_hash(c) && new_rows
                == old_rows.update(i, ItemRow { copied_at: now, ..old_rows[i] })
    } else {
        &&& new_next == old_next + 1
        &&& new_rows.len() == old_rows.len() + 1
        &&& new_rows.drop_last() == old_rows
        &&& is_new_row(new_rows.last(), c, old_next, now)
    }
}

/// Message of a history that has handed out every id.
pub open spec fn ids_exhausted_message() -> Seq<char> {
    seq!['记', '录', '编', '号', '已', '用', '尽']
}

/// The error of a history that has handed out every id:
/// `Database("记录编号已用尽")`.
pub open spec fn is_ids_exhausted(e: AppError) -> bool {
    e matches AppError::Database(m) && m@ == ids_exhausted_message()
}

fn ids_exhausted() -> (e: AppError)
    ensures
        is_ids_exhausted(e),
{
    proof {
        reveal_strlit("记录编号已用尽");
    }
    let s: &str = "记录编号已用尽";
    assert(s@ =~= ids_exhausted_message());
    AppError::Database(s.to_owned())
}

/// The picture files of `rows`, in order; rows without a picture add none.
pub open spec fn image_files_of(rows: Seq<ItemRow>) -> Seq<Seq<char>>
    decreases rows.len(),
{
    if rows.len() == 0 {
        Seq::empty()
    } else {
        let prev = image_files_of(rows.drop_last());
        match rows.last().image_file {
            Some(f) => prev.push(f@),
            None => prev,
        }
    }
}

/// The picture files to remove with `rows` (evicted or deleted rows).
pub fn image_files(rows: &Vec<ItemRow>) -> (res: Vec<String>)
    ensures
        res.deep_view() == image_files_of(rows@),
{
    let mut out: Vec<String> = Vec::new();
    let mut i: usize = 0;
    while i < rows.len()
        invariant
            i <= rows@.len(),
            out.deep_view() == image_files_of(rows@.take(i as int)),
        decreases rows@.len() - i,
    {
        let ghost before = out.deep_view();
        proof {
            assert(rows@.take(i + 1).drop_last() =~= rows@.take(i as int));
        }
        match &rows[i].image_file {
            Some(f) => {
                out.push(f.clone());
                assert(out.deep_view() =~= before.push(f@));
            },
            None => {},
        }
        i = i + 1;
    }
    assert(rows@.take(rows@.len() as int) =~= rows@);
    out
}

/// Non-favorite rows newer than `r`.
pub open spec fn newer_nonfavorite(r: ItemRow) -> spec_fn(ItemRow) -> bool {
    |x: ItemRow| !x.favorite && key_lt(row_key(r), row_key(x))
}

/// Number of non-favorite rows of `rows` newer than `r`.
pub open spec fn newer_nonfavorite_count(rows: Seq<ItemRow>, r: ItemRow) -> int {
    rows.filter(newer_nonfavorite(r)).len() as int
}

/// Whether eviction keeps `r`: favorites always stay; a non-favorite stays
/// when fewer than `MAX_ITEMS` non-favorites are newer than it, i.e. it is
/// among the `MAX_ITEMS` most recently copied non-favorites.
pub open spec fn kept_by_trim(rows: Seq<ItemRow>, r: ItemRow) -> bool {
    r.favorite || newer_nonfavorite_count(rows, r) < MAX_ITEMS
}

/// Predicate of the rows that eviction keeps.
pub open spec fn trim_keeps(rows: Seq<ItemRow>) -> spec_fn(ItemRow) -> bool {
    |r: ItemRow| kept_by_trim(rows, r)
}

/// Predicate of the rows that eviction removes.
pub open spec fn trim_evicts(rows: Seq<ItemRow>) -> spec_fn(ItemRow) -> bool {
    |r: ItemRow| !kept_by_trim(rows, r)
}

/// Effect of eviction: the kept rows stay in order, the others are returned in order.
pub open spec fn trim_post(old_rows: Seq<ItemRow>, new_rows: Seq<ItemRow>, evicted: Seq<ItemRow>) -> bool {
    &&& new_rows == old_rows.filter(trim_keeps(old_rows))
    &&& evicted == old_rows.filter(trim_evicts(old_rows))
}

/// Filtering a sequence with one more element at the end.
pub proof fn lemma_filter_push<A>(s: Seq<A>, x: A, p: spec_fn(A) -> bool)
    ensures
        s.push(x).filter(p) == (if p(x) {
            s.filter(p).push(x)
        } else {
            s.filter(p)
        }),
{
    reveal(Seq::filter);
    assert(s.push(x).drop_last() =~= s);
}

/// Filtering a sequence with one more element at the front.
pub proof fn lemma_filter_prepend<A>(x: A, s: Seq<A>, p: spec_fn(A) -> bool)
    ensures
        (seq![x] + s).filter(p) == (if p(x) {
            seq![x] + s.filter(p)
        } else {
            s.filter(p)
        }),
{
    Seq::filter_distributes_over_add(seq![x], s, p);
    lemma_filter_push(Seq::<A>::empty(), x, p);
    reveal(Seq::filter);
    assert(Seq::<A>::empty().push(x) =~= seq![x]);
    assert(Seq::<A>::empty().filter(p) =~= Seq::<A>::empty());
    if p(x) {
        assert(Seq::<A>::empty().filter(p).push(x) =~= seq![x]);
    }
    assert(Seq::<A>::empty() + s.filter(p) =~= s.filter(p));
}

/// Number of non-favorite rows newer than row `i`.
fn count_newer_nonfavorites(rows: &Vec<ItemRow>, i: usize) -> (res: usize)
    requires
        i < rows@.len(),
    ensures
        res == newer_nonfavorite_count(rows@, rows@[i as int]),
{
    let ghost p = newer_nonfavorite(rows@[i as int]);
    let mut count: usize = 0;
    let mut j: usize = 0;
    while j < rows.len()
        invariant
            i < rows@.len(),
            j <= rows@.len(),
            p == newer_nonfavorite(rows@[i as int]),
            count == rows@.take(j as int).filter(p).len(),
            count <= j,
        decreases rows@.len() - j,
    {
        let r = &rows[i];
        let x = &rows[j];
        let newer = !x.favorite && (r.copied_at < x.copied_at || (r.copied_at == x.copied_at
            && r.id < x.id));
        proof {
            assert(rows@.take(j + 1) =~= rows@.take(j as int).push(rows@[j as int]));
            lemma_filter_push(rows@.take(j as int), rows@[j as int], p);
        }
        if newer {
            count = count + 1;
        }
        j = j + 1;
    }
    assert(rows@.take(rows@.len() as int) =~= rows@);
    count
}

/// A keyword with `\\`, `%` and `_` escaped by a preceding `\\`.
pub open spec fn like_escaped(keyword: Seq<char>) -> Seq<char>
    decreases keyword.len(),
{
    if keyword.len() == 0 {
        Seq::empty()
    } else {
        let c = keyword.last();
        like_escaped(keyword.drop_last()) + if c == '\\' || c == '%' || c == '_' {
            seq!['\\', c]
        } else {
            seq![c]
        }
    }
}

/// The `LIKE ... ESCAPE '\\'` pattern that matches texts containing `keyword`
/// literally: the escaped keyword between two `%`.
pub open spec fn like_pattern_spec(keyword: Seq<char>) -> Seq<char> {
    seq!['%'] + like_escaped(keyword) + seq!['%']
}

/// The SQL `LIKE` pattern of a keyword for `ESCAPE '\\'`: wildcards and the
/// escape character in the keyword match themselves; the pattern matches
/// any text that contains the keyword.
pub fn like_pattern(keyword: &str) -> (res: String)
    ensures
        res@ == like_pattern_spec(keyword@),
{
    let cs = chars_of(keyword);
    let mut out = String::new();
    push_char(&mut out, '%');
    let mut i: usize = 0;
    while i < cs.len()
        invariant
            i <= cs@.len(),
            cs@ == keyword@,
            out@ == seq!['%'] + like_escaped(cs@.take(i as int)),
        decreases cs@.len() - i,
    {
        let c = cs[i];
        let ghost before = out@;
        if c == '\\' || c == '%' || c == '_' {
            push_char(&mut out, '\\');
        }
        push_char(&mut out, c);
        proof {
            let t = cs@.take(i + 1);
            assert(t.drop_last() =~= cs@.take(i as int));
            assert(t.last() == c);
            if c == '\\' || c == '%' || c == '_' {
                assert(out@ =~= before + seq!['\\', c]);
            } else {
                assert(out@ =~= before + seq![c]);
            }
            assert(out@ =~= seq!['%'] + like_escaped(t));
        }
        i = i + 1;
    }
    assert(cs@.take(cs@.len() as int) =~= cs@);
    push_char(&mut out, '%');
    out
}

/// `keyword` occurs in `text` at position `i`, ignoring ASCII case.
pub open spec fn keyword_at(text: Seq<char>, keyword: Seq<char>, i: int) -> bool {
    &&& 0 <= i
    &&& i + keyword.len() <= text.len()
    &&& forall|j: int| 0 <= j < keyword.len() ==> fold_case(#[trigger] text[i + j]) == fold_case(
        keyword[j],
    )
}

/// `keyword` occurs somewhere in `text`, ignoring ASCII case.
pub open spec fn contains_keyword(text: Seq<char>, keyword: Seq<char>) -> bool {
    exists|i: int| keyword_at(text, keyword, i)
}

fn contains_keyword_chars(text: &Vec<char>, keyword: &Vec<char>) -> (res: bool)
    ensures
        res == contains_keyword(text@, keyword@),
{
    let n = text.len();
    let m = keyword.len();
    if m > n {
        assert forall|i: int| !keyword_at(text@, keyword@, i) by {}
        return false;
    }
    let mut i: usize = 0;
    while i <= n - m
        invariant
            m <= n,
            n == text@.len(),
            m == keyword@.len(),
            i <= n - m + 1,
            forall|k: int| 0 <= k < i ==> !keyword_at(text@, keyword@, k),
        decreases n - m + 1 - i,
    {
        let mut j: usize = 0;
        let mut ok = true;
        while j < m
            invariant
                m <= n,
                n == text@.len(),
                m == keyword@.len(),
                i <= n - m,
                j <= m,
                ok == (forall|k: int| 0 <= k < j ==> fold_case(#[trigger] text@[i + k])
                    == fold_case(keyword@[k])),
            decreases m - j,
        {
            if fold_case_char(text[i + j]) != fold_case_char(keyword[j]) {
                ok = false;
            }
            j = j + 1;
        }
        if ok {
            assert(keyword_at(text@, keyword@, i as int));
            return true;
        }
        assert(!keyword_at(text@, keyword@, i as int));
        i = i + 1;
    }
    assert forall|k: int| !keyword_at(text@, keyword@, k) by {
        if 0 <= k && k + m <= n {
            assert(k < i);
        }
    }
    false
}

/// Whether row `r` passes a list filter: its kind (when given), favorite
/// (when asked), the keyword in its searchable text (when not empty; images
/// have none and never match), and a key below the cursor (when given).
pub open spec fn row_passes(
    r: ItemRow,
    kind: Option<ClipboardKind>,
    favorite_only: bool,
    keyword: Seq<char>,
    before: Option<ListCursor>,
) -> bool {
    &&& (kind matches Some(k) ==> r.kind == k)
    &&& (favorite_only ==> r.favorite)
    &&& (keyword.len() > 0 ==> (r.text matches Some(t) && contains_keyword(t@, keyword)))
    &&& (before matches Some(c) ==> key_lt(row_key(r), (c.copied_at as int, c.id as int)))
}

/// Whether row `r` passes the filters of `q`.
pub open spec fn row_matches(r: ItemRow, q: ListQuery) -> bool {
    row_passes(r, q.kind, q.favorite_only, q.query@, q.before)
}

/// `sel` (row indices) is the page of a filter: passing rows, newest first
/// by `(copied_at, id)`, at most `limit` of them, and no passing row is left
/// out unless the page is full and the row is older than all of it.
pub open spec fn is_filtered_page(
    rows: Seq<ItemRow>,
    kind: Option<ClipboardKind>,
    favorite_only: bool,
    keyword: Seq<char>,
    before: Option<ListCursor>,
    limit: int,
    sel: Seq<usize>,
) -> bool {
    &&& sel.len() <= limit
    &&& forall|k: int|
        0 <= k < sel.len() ==> sel[k] < rows.len() && row_passes(
            rows[sel[k] as int],
            kind,
            favorite_only,
            keyword,
            before,
        )
    &&& forall|k1: int, k2: int|
        0 <= k1 < k2 < sel.len() ==> key_lt(
            row_key(rows[sel[k2] as int]),
            row_key(rows[sel[k1] as int]),
        )
    &&& forall|i: int|
        0 <= i < rows.len() && row_passes(rows[i], kind, favorite_only, keyword, before)
            && !sel.contains(i as usize) ==> {
            &&& sel.len() == limit
            &&& forall|k: int|
                0 <= k < sel.len() ==> key_lt(row_key(rows[i]), row_key(rows[sel[k] as int]))
        }
}

/// `sel` (row indices) is the page that `q` asks for.
pub open spec fn is_page(rows: Seq<ItemRow>, q: ListQuery, sel: Seq<usize>) -> bool {
    is_filtered_page(rows, q.kind, q.favorite_only, q.query@, q.before, q.limit as int, sel)
}

/// The text a list preview shows: the first `PREVIEW_CHARS` characters, trimmed.
pub open spec fn preview_spec(text: Seq<char>) -> Seq<char> {
    if text.len() > PREVIEW_CHARS {
        trimmed(text.take(PREVIEW_CHARS as int))
    } else {
        trimmed(text)
    }
}

/// List preview of a text: (its first `PREVIEW_CHARS` characters trimmed,
/// its number of characters, whether it has more than `PREVIEW_CHARS`).
pub fn preview_of(text: &str) -> (res: (String, u64, bool))
    ensures
        res.0@ == preview_spec(text@),
        res.1 == text@.len(),
        res.2 == (text@.len() > PREVIEW_CHARS),
{
    let cs = chars_of(text);
    let n = cs.len();
    let truncated = n > PREVIEW_CHARS;
    let preview = if truncated {
        let mut head: Vec<char> = Vec::new();
        let mut i: usize = 0;
        while i < PREVIEW_CHARS
            invariant
                i <= PREVIEW_CHARS < n == cs@.len(),
                head@ == cs@.take(i as int),
            decreases PREVIEW_CHARS - i,
        {
            head.push(cs[i]);
            assert(head@ =~= cs@.take(i + 1));
            i = i + 1;
        }
        trim_chars(&head)
    } else {
        trim_chars(&cs)
    };
    (preview, n as u64, truncated)
}

/// `dir` joined with a relative `name`: a separator goes between them unless
/// `dir` is empty or already ends with one (`PathBuf::push`).
pub open spec fn path_join(dir: Seq<char>, name: Seq<char>, sep: char) -> Seq<char> {
    if dir.len() == 0 || dir.last() == sep || dir.last() == '/' {
        dir + name
    } else {
        dir + seq![sep] + name
    }
}

/// `path_join` with the platform's separator (`/` or `\`).
pub open spec fn is_joined_path(p: Seq<char>, dir: Seq<char>, name: Seq<char>) -> bool {
    p == path_join(dir, name, '/') || p == path_join(dir, name, '\\')
}

/// `std::path::MAIN_SEPARATOR`: `/` on Unix, `\` on Windows.
#[verifier::external_body]
fn main_separator() -> (c: char)
    ensures
        c == '/' || c == '\\',
{
    std::path::MAIN_SEPARATOR
}

/// `Path::exists`: whether something is at `path` now; nothing is claimed of the answer.
#[verifier::external_body]
fn path_exists(path: &str) -> bool {
    std::path::Path::new(path).exists()
}

fn join_path(dir: &str, name: &str, sep: char) -> (res: String)
    ensures
        res@ == path_join(dir@, name@, sep),
{
    let cs = chars_of(dir);
    let mut out = string_of_chars(&cs, 0, cs.len());
    assert(cs@.subrange(0, cs@.len() as int) =~= cs@);
    let n = cs.len();
    if !(n == 0 || cs[n - 1] == sep || cs[n - 1] == '/') {
        push_char(&mut out, sep);
    }
    append_str(&mut out, name);
    out
}

/// The paths of a file-list column (empty when absent).
pub open spec fn files_or_empty(f: Option<Vec<String>>) -> Seq<String> {
    match f {
        Some(v) => v@,
        None => Seq::empty(),
    }
}

/// `item` is the list entry of row `r` with images under `dir`: same id,
/// favorite and time; a text's size, preview and counts; an image's size,
/// picture and thumbnail paths and dimensions; a file list's paths and names
/// (whether each exists is read from the disk when listing).
pub open spec fn item_of_row(item: ClipboardItem, r: ItemRow, dir: Seq<char>) -> bool {
    match r.kind {
        ClipboardKind::Text => item matches ClipboardItem::Text {
            id,
            favorite,
            copied_at,
            size,
            preview,
            char_count,
            truncated,
        } && id == r.id && favorite == r.favorite && copied_at == r.copied_at && size == r.size as u64
            && preview@ == preview_spec(text_or_empty(r.text)) && char_count == text_or_empty(r.text).len()
            && truncated == (text_or_empty(r.text).len() > PREVIEW_CHARS),
        ClipboardKind::Image => item matches ClipboardItem::Image {
            id,
            favorite,
            copied_at,
            size,
            image_path,
            thumb_path,
            width,
            height,
        } && id == r.id && favorite == r.favorite && copied_at == r.copied_at && size == r.size as u64
            && is_joined_path(image_path@, dir, text_or_empty(r.image_file)) && is_joined_path(
            thumb_path@,
            dir,
            thumb_file_name_spec(text_or_empty(r.image_file)),
        ) && width == (match r.image_width {
            Some(w) => w,
            None => 0,
        }) as u32 && height == (match r.image_height {
            Some(h) => h,
            None => 0,
        }) as u32,
        ClipboardKind::Files => item matches ClipboardItem::Files { id, favorite, copied_at, files }
            && id == r.id && favorite == r.favorite && copied_at == r.copied_at && files@.len()
            == files_or_empty(r.files).len() && forall|k: int|
            0 <= k < files@.len() ==> (#[trigger] files@[k]).path@ == files_or_empty(r.files)[k]@
                && files@[k].name@ == file_name_spec(files_or_empty(r.files)[k]@),
    }
}

fn row_matches_exec(r: &ItemRow, q: &ListQuery, keyword: &Vec<char>) -> (res: bool)
    requires
        keyword@ == q.query@,
    ensures
        res == row_matches(*r, *q),
{
    match q.kind {
        Some(k) => {
            if r.kind != k {
                return false;
            }
        },
        None => {},
    }
    if q.favorite_only && !r.favorite {
        return false;
    }
    if keyword.len() > 0 {
        match &r.text {
            Some(t) => {
                let tc = chars_of(t.as_str());
                if !contains_keyword_chars(&tc, keyword) {
                    return false;
                }
            },
            None => {
                return false;
            },
        }
    }
    match q.before {
        Some(c) => r.copied_at < c.copied_at || (r.copied_at == c.copied_at && r.id < c.id),
        None => true,
    }
}

/// The snapshot of a row for writing it back to the clipboard: a text or
/// file list as stored; an image with the picture bytes `png` read from its
/// file, no thumbnail, its stored size and its hash.
pub open spec fn is_captured_of_row(c: Captured, r: ItemRow, png: Seq<u8>) -> bool {
    match r.kind {
        ClipboardKind::Text => c matches Captured::Text(t) && t@ == text_or_empty(r.text),
        ClipboardKind::Files => c matches Captured::Files(p) && p@ == files_or_empty(r.files),
        ClipboardKind::Image => c matches Captured::Image { png: p, thumb_png, width, height, rgba_hash }
            && p@ == png && thumb_png@.len() == 0 && width == (match r.image_width {
            Some(w) => w,
            None => 0,
        }) as u32 && height == (match r.image_height {
            Some(h) => h,
            None => 0,
        }) as u32 && rgba_hash@ == r.hash@,
    }
}

/// The snapshot of `row` to write back to the clipboard; `png` is the content
/// of the row's picture file (used for images only).
pub fn captured_of_row(row: &ItemRow, png: Vec<u8>) -> (res: Captured)
    ensures
        is_captured_of_row(res, *row, png@),
{
    match row.kind {
        ClipboardKind::Text => match &row.text {
            Some(t) => Captured::Text(t.clone()),
            None => Captured::Text(String::new()),
        },
        ClipboardKind::Files => match &row.files {
            Some(paths) => Captured::Files(copy_strings(paths)),
            None => Captured::Files(Vec::new()),
        },
        ClipboardKind::Image => {
            let width = match row.image_width {
                Some(w) => w as u32,
                None => 0,
            };
            let height = match row.image_height {
                Some(h) => h as u32,
                None => 0,
            };
            Captured::Image {
                png,
                thumb_png: Vec::new(),
                width,
                height,
                rgba_hash: row.hash.clone(),
            }
        },
    }
}

/// Row `k` is flagged in `matching` and, when `sel` is not empty, older than
/// the last selected row.
pub open spec fn is_candidate(rows: Seq<ItemRow>, matching: Seq<bool>, sel: Seq<usize>, k: int) -> bool {
    matching[k] && (sel.len() > 0 ==> key_lt(row_key(rows[k]), row_key(rows[sel.last() as int])))
}

/// Keys of different rows of a well-formed table differ.
pub proof fn lemma_keys_distinct(rows: Seq<ItemRow>, i: int, j: int)
    requires
        ids_increasing(rows),
        0 <= i < rows.len(),
        0 <= j < rows.len(),
        i != j,
    ensures
        row_key(rows[i]) != row_key(rows[j]),
{
    if i < j {
        assert(rows[i].id < rows[j].id);
    } else {
        assert(rows[j].id < rows[i].id);
    }
}

/// The error of a full-text request for a non-text entry.
pub open spec fn is_not_text(e: AppError) -> bool {
    e matches AppError::InvalidInput(m) && m@ == not_text_message()
}

fn not_text() -> (e: AppError)
    ensures
        is_not_text(e),
{
    proof {
        reveal_strlit("该条目不是文本");
    }
    let s: &str = "该条目不是文本";
    assert(s@ =~= not_text_message());
    AppError::InvalidInput(s.to_owned())
}

/// Message of stored rows that break the table's rules.
pub open spec fn inconsistent_rows_message() -> Seq<char> {
    seq!['历', '史', '记', '录', '数', '据', '不', '一', '致']
}

/// The error of stored rows that break the table's rules:
/// `Database("历史记录数据不一致")`.
pub open spec fn is_inconsistent_rows(e: AppError) -> bool {
    e matches AppError::Database(m) && m@ == inconsistent_rows_message()
}

fn inconsistent_rows() -> (e: AppError)
    ensures
        is_inconsistent_rows(e),
{
    proof {
        reveal_strlit("历史记录数据不一致");
    }
    let s: &str = "历史记录数据不一致";
    assert(s@ =~= inconsistent_rows_message());
    AppError::Database(s.to_owned())
}

/// Text of an optional string column, empty when absent.
pub open spec fn text_or_empty(t: Option<String>) -> Seq<char> {
    match t {
        Some(s) => s@,
        None => Seq::empty(),
    }
}

proof fn lemma_remove_keeps_wf(rows: Seq<ItemRow>, i: int, next_id: int)
    requires
        table_wf(rows, next_id),
        0 <= i < rows.len(),
    ensures
        table_wf(rows.remove(i), next_id),
{
    let r = rows.remove(i);
    assert forall|a: int| 0 <= a < r.len() implies #[trigger] r[a] == rows[if a < i {
        a
    } else {
        a + 1
    }] by {}
    assert forall|a: int, b: int| 0 <= a < b < r.len() implies r[a].id < r[b].id by {
        assert(r[a] == rows[if a < i {
            a
        } else {
            a + 1
        }]);
        assert(r[b] == rows[if b < i {
            b
        } else {
            b + 1
        }]);
    }
    assert forall|a: int, b: int|
        0 <= a < r.len() && 0 <= b < r.len() && a != b implies r[a].hash@ != r[b].hash@ by {
        assert(r[a] == rows[if a < i {
            a
        } else {
            a + 1
        }]);
        assert(r[b] == rows[if b < i {
            b
        } else {
            b + 1
        }]);
    }
}

} // verus!
