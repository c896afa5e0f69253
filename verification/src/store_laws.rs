//! Laws of the history table: what eviction keeps, what a write leaves
//! behind, and how pages of the list fit together.

use vstd::prelude::*;

use crate::clipboard::{captured_hash, Captured, MAX_ITEMS};
use crate::seq_facts::{
    lemma_filter_all, lemma_filter_filter, lemma_filter_len_mono, lemma_filter_none,
    lemma_filter_split,
};
use crate::store::{
    has_hash, has_id, hashes_unique, ids_increasing, is_captured_of_row, key_lt, kept_by_trim,
    lemma_keys_distinct, newer_nonfavorite, newer_nonfavorite_count, row_key, table_wf,
    trim_evicts, trim_keeps, upsert_post, ItemRow,
};

verus! {

/// Non-favorite rows.
pub open spec fn nonfavorite() -> spec_fn(ItemRow) -> bool {
    |r: ItemRow| !r.favorite
}

/// Number of non-favorite rows.
pub open spec fn nonfavorite_count(rows: Seq<ItemRow>) -> int {
    rows.filter(nonfavorite()).len() as int
}

/// A non-favorite is not newer than itself, so fewer non-favorites are newer
/// than it than there are non-favorites.
proof fn lemma_rank_below_count(rows: Seq<ItemRow>, i: int)
    requires
        0 <= i < rows.len(),
        !rows[i].favorite,
    ensures
        newer_nonfavorite_count(rows, rows[i]) < nonfavorite_count(rows),
{
    let p = newer_nonfavorite(rows[i]);
    let q = nonfavorite();
    assert forall|j: int| 0 <= j < rows.len() && #[trigger] p(rows[j]) implies q(rows[j]) by {}
    assert(q(rows[i]) && !p(rows[i]));
    lemma_filter_len_mono(rows, p, q);
}

/// With at most `MAX_ITEMS` non-favorites, eviction removes nothing.
pub proof fn lemma_trim_keeps_all_within_limit(rows: Seq<ItemRow>)
    requires
        nonfavorite_count(rows) <= MAX_ITEMS,
    ensures
        rows.filter(trim_keeps(rows)) == rows,
        rows.filter(trim_evicts(rows)).len() == 0,
{
    assert forall|i: int| 0 <= i < rows.len() implies #[trigger] trim_keeps(rows)(rows[i]) by {
        if !rows[i].favorite {
            lemma_rank_below_count(rows, i);
        }
    }
    lemma_filter_all(rows, trim_keeps(rows));
    assert forall|i: int| 0 <= i < rows.len() implies !#[trigger] trim_evicts(rows)(rows[i]) by {
        assert(trim_keeps(rows)(rows[i]));
    }
    lemma_filter_none(rows, trim_evicts(rows));
}

/// Eviction never removes a favorite.
pub proof fn lemma_trim_spares_favorites(rows: Seq<ItemRow>, i: int)
    requires
        0 <= i < rows.len(),
        rows[i].favorite,
    ensures
        kept_by_trim(rows, rows[i]),
        rows.filter(trim_keeps(rows)).contains(rows[i]),
{
    rows.lemma_filter_contains(trim_keeps(rows), i);
}

/// Every evicted row is older (by `copied_at`, then id) than every
/// non-favorite that stays: eviction removes the least recently copied.
pub proof fn lemma_trim_evicts_oldest(rows: Seq<ItemRow>, e: int, k: int)
    requires
        ids_increasing(rows),
        0 <= e < rows.len(),
        0 <= k < rows.len(),
        !kept_by_trim(rows, rows[e]),
        kept_by_trim(rows, rows[k]),
        !rows[k].favorite,
    ensures
        key_lt(row_key(rows[e]), row_key(rows[k])),
{
    if !key_lt(row_key(rows[e]), row_key(rows[k])) {
        assert(e != k);
        lemma_keys_distinct(rows, e, k);
        let pe = newer_nonfavorite(rows[e]);
        let pk = newer_nonfavorite(rows[k]);
        assert forall|j: int| 0 <= j < rows.len() && #[trigger] pe(rows[j]) implies pk(rows[j]) by {}
        assert(pk(rows[e]) && !pe(rows[e]));
        lemma_filter_len_mono(rows, pe, pk);
    }
}

/// Exactly one row has the id of row `i`.
proof fn lemma_one_row_per_id(rows: Seq<ItemRow>, i: int)
    requires
        ids_increasing(rows),
        0 <= i < rows.len(),
    ensures
        rows.filter(same_id(rows[i].id)).len() == 1,
    decreases rows.len(),
{
    reveal(Seq::filter);
    let t = rows.drop_last();
    if i == rows.len() - 1 {
        assert forall|j: int| 0 <= j < t.len() implies !#[trigger] same_id(rows[i].id)(t[j]) by {
            assert(t[j] == rows[j]);
        }
        lemma_filter_none(t, same_id(rows[i].id));
    } else {
        assert(t[i] == rows[i]);
        assert forall|a: int, b: int| 0 <= a < b < t.len() implies t[a].id < t[b].id by {
            assert(t[a] == rows[a] && t[b] == rows[b]);
        }
        lemma_one_row_per_id(t, i);
        assert(rows.last().id != rows[i].id);
    }
}

/// Rows with id `id`.
pub open spec fn same_id(id: i64) -> spec_fn(ItemRow) -> bool {
    |r: ItemRow| r.id == id
}

/// Rows that pass `p`, among which some has the oldest key.
proof fn lemma_oldest_exists(rows: Seq<ItemRow>, p: spec_fn(ItemRow) -> bool, w: int)
    requires
        0 <= w < rows.len(),
        p(rows[w]),
    ensures
        exists|m: int|
            0 <= m < rows.len() && p(rows[m]) && forall|j: int|
                0 <= j < rows.len() && #[trigger] p(rows[j]) ==> !key_lt(
                    row_key(rows[j]),
                    row_key(rows[m]),
                ),
    decreases rows.len(),
{
    let t = rows.drop_last();
    let last = rows.len() - 1;
    if w == last && !(exists|v: int| 0 <= v < t.len() && p(t[v])) {
        assert forall|j: int| 0 <= j < rows.len() && #[trigger] p(rows[j]) implies !key_lt(
            row_key(rows[j]),
            row_key(rows[last]),
        ) by {
            if j < last {
                assert(t[j] == rows[j]);
            }
        }
    } else {
        let v = if w < last {
            w
        } else {
            choose|v: int| 0 <= v < t.len() && p(t[v])
        };
        assert(t[v] == rows[v]);
        lemma_oldest_exists(t, p, v);
        let m = choose|m: int|
            0 <= m < t.len() && p(t[m]) && forall|j: int|
                0 <= j < t.len() && #[trigger] p(t[j]) ==> !key_lt(row_key(t[j]), row_key(t[m]));
        assert(t[m] == rows[m]);
        if p(rows[last]) && key_lt(row_key(rows[last]), row_key(rows[m])) {
            assert forall|j: int| 0 <= j < rows.len() && #[trigger] p(rows[j]) implies !key_lt(
                row_key(rows[j]),
                row_key(rows[last]),
            ) by {
                if j < last {
                    assert(t[j] == rows[j]);
                    assert(!key_lt(row_key(t[j]), row_key(t[m])));
                }
            }
        } else {
            assert forall|j: int| 0 <= j < rows.len() && #[trigger] p(rows[j]) implies !key_lt(
                row_key(rows[j]),
                row_key(rows[m]),
            ) by {
                if j < last {
                    assert(t[j] == rows[j]);
                }
            }
        }
    }
}

/// Kept non-favorite rows.
pub open spec fn kept_nonfavorite(rows: Seq<ItemRow>) -> spec_fn(ItemRow) -> bool {
    |r: ItemRow| kept_by_trim(rows, r) && !r.favorite
}

/// After eviction at most `MAX_ITEMS` non-favorites remain.
pub proof fn lemma_trim_bounds_nonfavorites(rows: Seq<ItemRow>)
    requires
        ids_increasing(rows),
    ensures
        nonfavorite_count(rows.filter(trim_keeps(rows))) <= MAX_ITEMS,
{
    let kn = kept_nonfavorite(rows);
    lemma_filter_filter(rows, trim_keeps(rows), nonfavorite(), kn);
    let count = rows.filter(kn).len();
    if count > MAX_ITEMS {
        crate::seq_facts::lemma_filter_elements(rows, kn, 0);
        let w = choose|w: int| 0 <= w < rows.len() && rows[w] == rows.filter(kn)[0] && kn(rows[w]);
        lemma_oldest_exists(rows, kn, w);
        let m = choose|m: int|
            0 <= m < rows.len() && kn(rows[m]) && forall|j: int|
                0 <= j < rows.len() && #[trigger] kn(rows[j]) ==> !key_lt(
                    row_key(rows[j]),
                    row_key(rows[m]),
                );
        let newer = newer_nonfavorite(rows[m]);
        let kept_newer = |r: ItemRow| kept_by_trim(rows, r) && newer(r);
        let me = same_id(rows[m].id);
        assert forall|i: int| 0 <= i < rows.len() implies (#[trigger] kn(rows[i]) == (kept_newer(
            rows[i],
        ) || me(rows[i]))) && !(kept_newer(rows[i]) && me(rows[i])) by {
            if i != m {
                lemma_keys_distinct(rows, i, m);
                if me(rows[i]) {
                    if i < m {
                        assert(rows[i].id < rows[m].id);
                    } else {
                        assert(rows[m].id < rows[i].id);
                    }
                }
            }
        }
        lemma_filter_split(rows, kn, kept_newer, me);
        lemma_one_row_per_id(rows, m);
        assert forall|i: int| 0 <= i < rows.len() && #[trigger] kept_newer(rows[i]) implies newer(
            rows[i],
        ) by {}
        lemma_filter_len_mono(rows, kept_newer, newer);
        assert(newer_nonfavorite_count(rows, rows[m]) >= MAX_ITEMS);
    }
}

/// Rows that pass `p`, among which some has the newest key.
proof fn lemma_newest_exists(rows: Seq<ItemRow>, p: spec_fn(ItemRow) -> bool, w: int)
    requires
        0 <= w < rows.len(),
        p(rows[w]),
    ensures
        exists|m: int|
            0 <= m < rows.len() && p(rows[m]) && forall|j: int|
                0 <= j < rows.len() && #[trigger] p(rows[j]) ==> !key_lt(
                    row_key(rows[m]),
                    row_key(rows[j]),
                ),
    decreases rows.len(),
{
    let t = rows.drop_last();
    let last = rows.len() - 1;
    if w == last && !(exists|v: int| 0 <= v < t.len() && p(t[v])) {
        assert forall|j: int| 0 <= j < rows.len() && #[trigger] p(rows[j]) implies !key_lt(
            row_key(rows[last]),
            row_key(rows[j]),
        ) by {
            if j < last {
                assert(t[j] == rows[j]);
            }
        }
    } else {
        let v = if w < last {
            w
        } else {
            choose|v: int| 0 <= v < t.len() && p(t[v])
        };
        assert(t[v] == rows[v]);
        lemma_newest_exists(t, p, v);
        let m = choose|m: int|
            0 <= m < t.len() && p(t[m]) && forall|j: int|
                0 <= j < t.len() && #[trigger] p(t[j]) ==> !key_lt(row_key(t[m]), row_key(t[j]));
        assert(t[m] == rows[m]);
        if p(rows[last]) && key_lt(row_key(rows[m]), row_key(rows[last])) {
            assert forall|j: int| 0 <= j < rows.len() && #[trigger] p(rows[j]) implies !key_lt(
                row_key(rows[last]),
                row_key(rows[j]),
            ) by {
                if j < last {
                    assert(t[j] == rows[j]);
                    assert(!key_lt(row_key(t[m]), row_key(t[j])));
                }
            }
        } else {
            assert forall|j: int| 0 <= j < rows.len() && #[trigger] p(rows[j]) implies !key_lt(
                row_key(rows[m]),
                row_key(rows[j]),
            ) by {
                if j < last {
                    assert(t[j] == rows[j]);
                }
            }
        }
    }
}

/// Evicted non-favorite rows.
pub open spec fn evicted_nonfavorite(rows: Seq<ItemRow>) -> spec_fn(ItemRow) -> bool {
    |r: ItemRow| !kept_by_trim(rows, r) && !r.favorite
}

/// Eviction keeps exactly the `MAX_ITEMS` most recently copied
/// non-favorites: of `k` non-favorites, `min(k, MAX_ITEMS)` remain.
pub proof fn lemma_trim_keeps_min_of_limit(rows: Seq<ItemRow>)
    requires
        ids_increasing(rows),
    ensures
        nonfavorite_count(rows.filter(trim_keeps(rows))) == if nonfavorite_count(rows)
            <= MAX_ITEMS {
            nonfavorite_count(rows)
        } else {
            MAX_ITEMS as int
        },
{
    lemma_trim_bounds_nonfavorites(rows);
    if nonfavorite_count(rows) <= MAX_ITEMS {
        lemma_trim_keeps_all_within_limit(rows);
    } else {
        let kn = kept_nonfavorite(rows);
        lemma_filter_filter(rows, trim_keeps(rows), nonfavorite(), kn);
        let ev = evicted_nonfavorite(rows);
        // Some non-favorite is evicted, else every non-favorite would be kept.
        if !(exists|w: int| 0 <= w < rows.len() && ev(rows[w])) {
            assert forall|i: int| 0 <= i < rows.len() && #[trigger] nonfavorite()(rows[i]) implies kn(
                rows[i],
            ) by {
                assert(!ev(rows[i]));
            }
            lemma_filter_len_mono(rows, nonfavorite(), kn);
            assert(false);
        }
        let w = choose|w: int| 0 <= w < rows.len() && ev(rows[w]);
        lemma_newest_exists(rows, ev, w);
        let e = choose|m: int|
            0 <= m < rows.len() && ev(rows[m]) && forall|j: int|
                0 <= j < rows.len() && #[trigger] ev(rows[j]) ==> !key_lt(
                    row_key(rows[m]),
                    row_key(rows[j]),
                );
        // Every non-favorite newer than the newest evicted one is kept.
        let newer = newer_nonfavorite(rows[e]);
        assert forall|j: int| 0 <= j < rows.len() && #[trigger] newer(rows[j]) implies kn(
            rows[j],
        ) by {
            if !kept_by_trim(rows, rows[j]) {
                assert(ev(rows[j]));
            }
        }
        lemma_filter_len_mono(rows, newer, kn);
        assert(newer_nonfavorite_count(rows, rows[e]) >= MAX_ITEMS);
    }
}

/// Evicting twice is evicting once: right after an eviction nothing more is
/// evicted and the table stays as it is.
pub proof fn lemma_trim_twice_evicts_nothing(rows: Seq<ItemRow>)
    requires
        ids_increasing(rows),
    ensures
        ({
            let t = rows.filter(trim_keeps(rows));
            &&& t.filter(trim_keeps(t)) == t
            &&& t.filter(trim_evicts(t)).len() == 0
        }),
{
    lemma_trim_bounds_nonfavorites(rows);
    lemma_trim_keeps_all_within_limit(rows.filter(trim_keeps(rows)));
}

/// Writing content copied at `now`, later than every row's `copied_at`, and
/// then evicting, keeps the written content: the newest row is never evicted.
pub proof fn lemma_recorded_content_survives(
    old_rows: Seq<ItemRow>,
    old_next: int,
    c: Captured,
    now: i64,
    new_rows: Seq<ItemRow>,
    new_next: int,
)
    requires
        table_wf(old_rows, old_next),
        forall|i: int| 0 <= i < old_rows.len() ==> #[trigger] old_rows[i].copied_at < now,
        upsert_post(old_rows, old_next, c, now, new_rows, new_next),
    ensures
        has_hash(new_rows.filter(trim_keeps(new_rows)), captured_hash(c)),
{
    let h = captured_hash(c);
    let x: int = if has_hash(old_rows, h) {
        choose|i: int|
            0 <= i < old_rows.len() && old_rows[i].hash@ == h && new_rows == old_rows.update(
                i,
                ItemRow { copied_at: now, ..old_rows[i] },
            )
    } else {
        old_rows.len() as int
    };
    assert(0 <= x < new_rows.len() && new_rows[x].hash@ == h && new_rows[x].copied_at == now);
    assert forall|j: int| 0 <= j < new_rows.len() && j != x implies #[trigger] new_rows[j].copied_at
        < now by {
        if !has_hash(old_rows, h) {
            assert(new_rows[j] == new_rows.drop_last()[j]);
        }
    }
    let p = newer_nonfavorite(new_rows[x]);
    assert forall|j: int| 0 <= j < new_rows.len() implies !#[trigger] p(new_rows[j]) by {
        if j != x {
            assert(new_rows[j].copied_at < now);
        }
    }
    lemma_filter_none(new_rows, p);
    new_rows.lemma_filter_contains(trim_keeps(new_rows), x);
    let kept = new_rows.filter(trim_keeps(new_rows));
    let k = choose|k: int| 0 <= k < kept.len() && kept[k] == new_rows[x];
    assert(kept[k].hash@ == h);
}


/// Recording keeps the history's limits whatever the clock says: after the
/// write and the eviction at most `MAX_ITEMS` non-favorites remain, and every
/// favorite that was there before is still there, unchanged but for the time
/// of its last copy.
pub proof fn lemma_record_keeps_limits(
    old_rows: Seq<ItemRow>,
    old_next: int,
    c: Captured,
    now: i64,
    mid: Seq<ItemRow>,
    new_next: int,
)
    requires
        table_wf(old_rows, old_next),
        upsert_post(old_rows, old_next, c, now, mid, new_next),
        table_wf(mid, new_next),
    ensures
        nonfavorite_count(mid.filter(trim_keeps(mid))) <= MAX_ITEMS,
        forall|i: int|
            0 <= i < old_rows.len() && (#[trigger] old_rows[i]).favorite ==> exists|k: int|
                0 <= k < mid.filter(trim_keeps(mid)).len() && mid.filter(trim_keeps(mid))[k]
                    == (ItemRow {
                    copied_at: mid.filter(trim_keeps(mid))[k].copied_at,
                    ..old_rows[i]
                }),
{
    lemma_trim_bounds_nonfavorites(mid);
    let kept = mid.filter(trim_keeps(mid));
    assert forall|i: int| 0 <= i < old_rows.len() && (#[trigger] old_rows[i]).favorite implies exists|
        k: int,
    |
        0 <= k < kept.len() && kept[k] == (ItemRow { copied_at: kept[k].copied_at, ..old_rows[i] })
        by {
        if has_hash(old_rows, captured_hash(c)) {
            let x = choose|x: int|
                0 <= x < old_rows.len() && old_rows[x].hash@ == captured_hash(c) && mid
                    == old_rows.update(x, ItemRow { copied_at: now, ..old_rows[x] });
            assert(mid[i].favorite);
        } else {
            assert(mid[i] == mid.drop_last()[i]);
        }
        lemma_trim_spares_favorites(mid, i);
        let k = choose|k: int| 0 <= k < kept.len() && kept[k] == mid[i];
        assert(kept[k] == (ItemRow { copied_at: kept[k].copied_at, ..old_rows[i] }));
    }
}

/// Rows with hash `h`.
pub open spec fn same_hash(h: Seq<char>) -> spec_fn(ItemRow) -> bool {
    |r: ItemRow| r.hash@ == h
}

/// Exactly one row has the hash of row `i`.
proof fn lemma_one_row_per_hash(rows: Seq<ItemRow>, i: int)
    requires
        hashes_unique(rows),
        0 <= i < rows.len(),
    ensures
        rows.filter(same_hash(rows[i].hash@)).len() == 1,
    decreases rows.len(),
{
    reveal(Seq::filter);
    let t = rows.drop_last();
    let last = rows.len() - 1;
    if i == last {
        assert forall|j: int| 0 <= j < t.len() implies !#[trigger] same_hash(rows[i].hash@)(t[j]) by {
            assert(t[j] == rows[j]);
        }
        lemma_filter_none(t, same_hash(rows[i].hash@));
    } else {
        assert(t[i] == rows[i]);
        assert forall|a: int, b: int|
            0 <= a < t.len() && 0 <= b < t.len() && a != b implies t[a].hash@ != t[b].hash@ by {
            assert(t[a] == rows[a] && t[b] == rows[b]);
        }
        lemma_one_row_per_hash(t, i);
        assert(rows[last].hash@ != rows[i].hash@);
    }
}

/// What recording leaves of the recorded content, whatever the clock says:
/// the written row holds the content's hash, and after eviction exactly one
/// row holds it when that row is a favorite or among the `MAX_ITEMS` most
/// recently copied non-favorites (`kept_by_trim`), and none otherwise.
pub proof fn lemma_recorded_row_kept_when_newest(
    old_rows: Seq<ItemRow>,
    old_next: int,
    c: Captured,
    now: i64,
    mid: Seq<ItemRow>,
    new_next: int,
)
    requires
        upsert_post(old_rows, old_next, c, now, mid, new_next),
        table_wf(mid, new_next),
    ensures
        exists|x: int|
            0 <= x < mid.len() && mid[x].hash@ == captured_hash(c) && #[trigger] mid.filter(
                trim_keeps(mid),
            ).filter(same_hash(captured_hash(c))).len() == (if kept_by_trim(mid, mid[x]) {
                1int
            } else {
                0int
            }),
{
    let h = captured_hash(c);
    lemma_one_row_per_content(old_rows, old_next, c, now, mid, new_next);
    let x = choose|x: int| 0 <= x < mid.len() && mid[x].hash@ == h;
    let sh = same_hash(h);
    let both = |r: ItemRow| kept_by_trim(mid, r) && r.hash@ == h;
    lemma_filter_filter(mid, trim_keeps(mid), sh, both);
    if kept_by_trim(mid, mid[x]) {
        lemma_one_row_per_hash(mid, x);
        assert forall|i: int| 0 <= i < mid.len() && #[trigger] both(mid[i]) implies sh(mid[i]) by {}
        lemma_filter_len_mono(mid, both, sh);
        assert forall|i: int| 0 <= i < mid.len() && #[trigger] sh(mid[i]) implies both(mid[i]) by {
            assert(i == x);
        }
        lemma_filter_len_mono(mid, sh, both);
    } else {
        assert forall|i: int| 0 <= i < mid.len() implies !#[trigger] both(mid[i]) by {
            if both(mid[i]) {
                assert(i == x);
            }
        }
        lemma_filter_none(mid, both);
    }
}

/// After a write, exactly one row holds the written content's hash.
pub proof fn lemma_one_row_per_content(
    old_rows: Seq<ItemRow>,
    old_next: int,
    c: Captured,
    now: i64,
    new_rows: Seq<ItemRow>,
    new_next: int,
)
    requires
        upsert_post(old_rows, old_next, c, now, new_rows, new_next),
        table_wf(new_rows, new_next),
    ensures
        has_hash(new_rows, captured_hash(c)),
        forall|i: int, j: int|
            0 <= i < new_rows.len() && 0 <= j < new_rows.len() && new_rows[i].hash@ == captured_hash(
                c,
            ) && new_rows[j].hash@ == captured_hash(c) ==> i == j,
{
    let h = captured_hash(c);
    if has_hash(old_rows, h) {
        let i = choose|i: int|
            0 <= i < old_rows.len() && old_rows[i].hash@ == h && new_rows == old_rows.update(
                i,
                ItemRow { copied_at: now, ..old_rows[i] },
            );
        assert(new_rows[i].hash@ == h);
    } else {
        assert(new_rows[new_rows.len() - 1].hash@ == h);
    }
}

/// What a read gives back of a write: a text or file list written as new
/// content is read back, for pasting, as exactly the snapshot that was written.
pub proof fn lemma_written_content_reads_back(
    old_rows: Seq<ItemRow>,
    old_next: int,
    c: Captured,
    now: i64,
    new_rows: Seq<ItemRow>,
    new_next: int,
    png: Seq<u8>,
)
    requires
        !(c is Image),
        !has_hash(old_rows, captured_hash(c)),
        upsert_post(old_rows, old_next, c, now, new_rows, new_next),
    ensures
        new_rows.last().id == old_next,
        is_captured_of_row(c, new_rows.last(), png),
{
}

/// An image written as new content is read back with its size and pixel
/// hash, and with the bytes of its picture file as the PNG.
pub proof fn lemma_written_image_reads_back(
    old_rows: Seq<ItemRow>,
    old_next: int,
    c: Captured,
    now: i64,
    new_rows: Seq<ItemRow>,
    new_next: int,
    png: Seq<u8>,
    back: Captured,
)
    requires
        c is Image,
        !has_hash(old_rows, captured_hash(c)),
        upsert_post(old_rows, old_next, c, now, new_rows, new_next),
        is_captured_of_row(back, new_rows.last(), png),
    ensures
        back matches Captured::Image { png: p, thumb_png, width, height, rgba_hash } && p@ == png
            && thumb_png@.len() == 0 && width == c->width && height == c->height && rgba_hash@
            == c->rgba_hash@,
{
}

/// Writing content that is already present changes nothing of its row but
/// the time of the last copy: content, favorite mark, creation time and id stay.
pub proof fn lemma_rewrite_only_moves_up(
    old_rows: Seq<ItemRow>,
    old_next: int,
    c: Captured,
    now: i64,
    new_rows: Seq<ItemRow>,
    new_next: int,
)
    requires
        has_hash(old_rows, captured_hash(c)),
        upsert_post(old_rows, old_next, c, now, new_rows, new_next),
    ensures
        new_rows.len() == old_rows.len(),
        new_next == old_next,
        forall|i: int|
            0 <= i < old_rows.len() ==> {
                let o = #[trigger] old_rows[i];
                let n = new_rows[i];
                &&& n.id == o.id && n.kind == o.kind && n.hash == o.hash && n.text == o.text
                &&& n.image_file == o.image_file && n.files == o.files && n.size == o.size
                &&& n.favorite == o.favorite && n.created_at == o.created_at
                &&& (n.copied_at == o.copied_at || (o.hash@ == captured_hash(c) && n.copied_at
                    == now))
            },
{
}

/// A deleted entry is gone: no row keeps its id.
pub proof fn lemma_deleted_id_gone(rows: Seq<ItemRow>, i: int)
    requires
        ids_increasing(rows),
        0 <= i < rows.len(),
    ensures
        !has_id(rows.remove(i), rows[i].id as int),
{
    let r = rows.remove(i);
    if has_id(r, rows[i].id as int) {
        let j = choose|j: int| 0 <= j < r.len() && r[j].id == rows[i].id;
        if j < i {
            assert(r[j] == rows[j]);
        } else {
            assert(r[j] == rows[j + 1]);
        }
    }
}

} // verus!
