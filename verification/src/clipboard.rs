//! Domain types of the clipboard history and the pure rules around them:
//! limits, the list DTOs, the captured snapshot with its deduplication hash,
//! the searchable text of an entry, and file names of paths.

use std::time::{SystemTime, SystemTimeError};

use vstd::prelude::*;
use vstd::utf8::encode_utf8;

use crate::text::{chars_of, join_lines, joined_lines, same_text, string_of_chars};

verus! {

/// Upper bound of non-favorite entries; beyond it the least recently copied are evicted.
pub const MAX_ITEMS: i64 = 500;

/// Texts longer than this many UTF-8 bytes are not recorded.
pub const MAX_TEXT_BYTES: usize = 1024 * 1024;

/// Images whose decoded RGBA8 size (width x height x 4) exceeds this are not recorded.
pub const MAX_IMAGE_BYTES: usize = 20 * 1024 * 1024;

/// Longest edge of a thumbnail, in pixels.
pub const THUMB_MAX_EDGE: u32 = 256;

/// Number of characters of a text kept in its list preview.
pub const PREVIEW_CHARS: usize = 300;

/// Event broadcast after the watcher recorded new content or moved old content up.
pub const CLIPBOARD_CHANGED: &'static str = "clipboard://changed";

/// Kind of a history entry; also the value stored in the `kind` column and the
/// domain prefix of the entry's hash.
#[derive(Debug, Clone, Copy, PartialEq, Eq, Structural)]
pub enum ClipboardKind {
    /// Plain text.
    Text,
    /// Bitmap, stored as a PNG plus a thumbnail.
    Image,
    /// List of file paths (only the paths are kept).
    Files,
}

/// Characters of the name of a kind.
pub open spec fn kind_name(kind: ClipboardKind) -> Seq<char> {
    match kind {
        ClipboardKind::Text => seq!['t', 'e', 'x', 't'],
        ClipboardKind::Image => seq!['i', 'm', 'a', 'g', 'e'],
        ClipboardKind::Files => seq!['f', 'i', 'l', 'e', 's'],
    }
}

impl ClipboardKind {
    /// Name stored in the `kind` column, also the hash domain prefix.
    pub fn as_str(self) -> (res: &'static str)
        ensures
            res@ == kind_name(self),
    {
        match self {
            ClipboardKind::Text => {
                proof {
                    reveal_strlit("text");
                }
                "text"
            },
            ClipboardKind::Image => {
                proof {
                    reveal_strlit("image");
                }
                "image"
            },
            ClipboardKind::Files => {
                proof {
                    reveal_strlit("files");
                }
                "files"
            },
        }
    }

    /// The kind stored under `name` in the `kind` column; `None` for any
    /// other name.
    pub fn from_name(name: &str) -> (res: Option<ClipboardKind>)
        ensures
            match res {
                Some(k) => kind_name(k) == name@,
                None => forall|k: ClipboardKind| kind_name(k) != name@,
            },
    {
        proof {
            reveal_strlit("text");
            reveal_strlit("image");
            reveal_strlit("files");
        }
        if same_text(name, "text") {
            assert("text"@ =~= kind_name(ClipboardKind::Text));
            Some(ClipboardKind::Text)
        } else if same_text(name, "image") {
            assert("image"@ =~= kind_name(ClipboardKind::Image));
            Some(ClipboardKind::Image)
        } else if same_text(name, "files") {
            assert("files"@ =~= kind_name(ClipboardKind::Files));
            Some(ClipboardKind::Files)
        } else {
            assert("text"@ =~= kind_name(ClipboardKind::Text));
            assert("image"@ =~= kind_name(ClipboardKind::Image));
            assert("files"@ =~= kind_name(ClipboardKind::Files));
            None
        }
    }
}


/// List entry handed to the front end; the variant is the entry's kind.
///
/// The full text is not part of the list: a text carries its preview only.
#[derive(Debug, Clone)]
pub enum ClipboardItem {
    /// Text entry; `truncated` tells whether the text has more than `PREVIEW_CHARS` characters.
    Text {
        id: i64,
        favorite: bool,
        copied_at: i64,
        size: u64,
        preview: String,
        char_count: u64,
        truncated: bool,
    },
    /// Image entry with the absolute paths of the picture and its thumbnail.
    Image {
        id: i64,
        favorite: bool,
        copied_at: i64,
        size: u64,
        image_path: String,
        thumb_path: String,
        width: u32,
        height: u32,
    },
    /// File-list entry with every path and whether it still exists.
    Files { id: i64, favorite: bool, copied_at: i64, files: Vec<ClipboardFile> },
}

/// One path of a file-list entry.
#[derive(Debug, Clone)]
pub struct ClipboardFile {
    /// Full path, as copied.
    pub path: String,
    /// File name with extension; the whole path when it has none.
    pub name: String,
    /// Whether the path existed when the list was made.
    pub exists: bool,
}

/// Filter of a list request: kind, favorites only and keyword combine with AND,
/// plus a cursor for paging.
#[derive(Debug)]
pub struct ListQuery {
    /// Only this kind; `None` for all kinds.
    pub kind: Option<ClipboardKind>,
    /// Only favorites.
    pub favorite_only: bool,
    /// Keyword matched against the searchable text; empty for no filter.
    pub query: String,
    /// Cursor: `(copied_at, id)` of the last entry of the previous page.
    pub before: Option<ListCursor>,
    /// Page size; the command layer accepts 1..=200.
    pub limit: u32,
}

impl Default for ListQuery {
    fn default() -> (res: ListQuery)
        ensures
            res.kind is None,
            !res.favorite_only,
            res.query@.len() == 0,
            res.before is None,
            res.limit == 0,
    {
        ListQuery {
            kind: None,
            favorite_only: false,
            query: String::new(),
            before: None,
            limit: 0,
        }
    }
}

/// Anchor of cursor paging: the `(copied_at, id)` of the last entry already shown.
#[derive(Debug, Clone, Copy)]
pub struct ListCursor {
    /// `copied_at` of the last entry of the previous page.
    pub copied_at: i64,
    /// `id` of the last entry of the previous page.
    pub id: i64,
}

/// Snapshot read from or written back to the system clipboard.
#[derive(Debug, Clone, PartialEq, Eq)]
pub enum Captured {
    /// Full text.
    Text(String),
    /// Image: PNG, thumbnail PNG, size and pixel hash. The thumbnail is empty
    /// when the snapshot was read back from the history for pasting.
    Image { png: Vec<u8>, thumb_png: Vec<u8>, width: u32, height: u32, rgba_hash: String },
    /// Full paths of the copied files.
    Files(Vec<String>),
}

/// Kind of a snapshot.
pub open spec fn captured_kind(c: Captured) -> ClipboardKind {
    match c {
        Captured::Text(_) => ClipboardKind::Text,
        Captured::Image { .. } => ClipboardKind::Image,
        Captured::Files(_) => ClipboardKind::Files,
    }
}

/// The characters of a text as bytes, one byte per character.
pub open spec fn ascii_bytes(s: Seq<char>) -> Seq<u8> {
    Seq::new(s.len(), |i: int| s[i] as u8)
}

/// The byte sequences of `parts`, one after the other.
pub open spec fn concat_bytes(parts: Seq<Seq<u8>>) -> Seq<u8>
    decreases parts.len(),
{
    if parts.len() == 0 {
        Seq::empty()
    } else {
        concat_bytes(parts.drop_last()) + parts.last()
    }
}

/// Hash domain prefix: the kind's name followed by a zero byte.
pub open spec fn domain_prefix(kind: ClipboardKind) -> Seq<u8> {
    ascii_bytes(kind_name(kind)).push(0u8)
}

/// The bytes hashed for `parts` in the domain of `kind`.
pub open spec fn domain_input(kind: ClipboardKind, parts: Seq<Seq<u8>>) -> Seq<u8> {
    domain_prefix(kind) + concat_bytes(parts)
}

/// Lowercase hexadecimal BLAKE3 digest of `data`.
pub uninterp spec fn blake3_hex(data: Seq<u8>) -> Seq<char>;

/// Every character is a lowercase hexadecimal digit.
pub open spec fn is_lower_hex(s: Seq<char>) -> bool {
    forall|i: int| 0 <= i < s.len() ==> ('0' <= #[trigger] s[i] <= '9' || 'a' <= s[i] <= 'f')
}

/// `blake3::hash` followed by `Hash::to_hex`: the digest depends on the input
/// bytes alone, and its hexadecimal form has 64 lowercase digits.
#[verifier::external_body]
fn blake3_hex_of(data: &[u8]) -> (res: String)
    ensures
        res@ == blake3_hex(data@),
        res@.len() == 64,
        is_lower_hex(res@),
{
    blake3::hash(data).to_hex().to_string()
}

/// Appends the bytes of `data` to `buf`.
fn append_bytes(buf: &mut Vec<u8>, data: &[u8])
    ensures
        final(buf)@ == old(buf)@ + data@,
{
    let ghost start = buf@;
    let mut i: usize = 0;
    while i < data.len()
        invariant
            i <= data@.len(),
            buf@ == start + data@.subrange(0, i as int),
        decreases data@.len() - i,
    {
        buf.push(data[i]);
        assert(data@.subrange(0, i + 1) =~= data@.subrange(0, i as int).push(data@[i as int]));
        i = i + 1;
    }
    assert(data@.subrange(0, data@.len() as int) =~= data@);
}

/// The byte views of a list of byte slices.
pub open spec fn part_views(parts: Seq<&[u8]>) -> Seq<Seq<u8>> {
    parts.map_values(|p: &[u8]| p@)
}

/// BLAKE3 with a kind domain: hashes `"<kind>\0"` followed by each part, as
/// lowercase hex. The `hash` column is unique across kinds; the prefix keeps
/// equal bytes of different kinds apart.
pub fn domain_hash(kind: ClipboardKind, parts: &[&[u8]]) -> (res: String)
    ensures
        res@ == blake3_hex(domain_input(kind, part_views(parts@))),
        res@.len() == 64,
        is_lower_hex(res@),
{
    let name = kind.as_str();
    let mut buf: Vec<u8> = Vec::new();
    proof {
        vstd::string::is_ascii_spec_bytes(name);
    }
    append_bytes(&mut buf, name.as_bytes());
    buf.push(0u8);
    assert(buf@ =~= domain_prefix(kind));
    let mut i: usize = 0;
    while i < parts.len()
        invariant
            i <= parts@.len(),
            buf@ == domain_prefix(kind) + concat_bytes(part_views(parts@).take(i as int)),
        decreases parts@.len() - i,
    {
        append_bytes(&mut buf, parts[i]);
        proof {
            let views = part_views(parts@);
            assert(views.take(i + 1).drop_last() =~= views.take(i as int));
            assert(views.take(i + 1).last() == parts@[i as int]@);
        }
        i = i + 1;
    }
    assert(part_views(parts@).take(parts@.len() as int) =~= part_views(parts@));
    blake3_hex_of(buf.as_slice())
}

/// The bytes hashed for a text or file-list snapshot: the text, or the paths
/// joined by `'\n'`, as UTF-8 in the snapshot's kind domain.
pub open spec fn hash_input(c: Captured) -> Seq<u8> {
    match c {
        Captured::Text(t) => domain_input(ClipboardKind::Text, seq![encode_utf8(t@)]),
        Captured::Files(paths) => domain_input(
            ClipboardKind::Files,
            seq![encode_utf8(joined_lines(paths.deep_view()))],
        ),
        Captured::Image { .. } => Seq::empty(),
    }
}

/// Deduplication hash of a snapshot: BLAKE3 of its input for texts and file
/// lists, the pixel hash computed at capture for images.
pub open spec fn captured_hash(c: Captured) -> Seq<char> {
    match c {
        Captured::Image { rgba_hash, .. } => rgba_hash@,
        _ => blake3_hex(hash_input(c)),
    }
}

impl Captured {
    /// Kind of the snapshot.
    pub fn kind(&self) -> (res: ClipboardKind)
        ensures
            res == captured_kind(*self),
    {
        match self {
            Captured::Text(_) => ClipboardKind::Text,
            Captured::Image { .. } => ClipboardKind::Image,
            Captured::Files(_) => ClipboardKind::Files,
        }
    }

    /// Deduplication hash (BLAKE3 hex): text = its bytes; image = the pixel
    /// hash from capture; files = the paths joined by `'\n'`. All in the kind's domain.
    pub fn hash(&self) -> (res: String)
        ensures
            res@ == captured_hash(*self),
            !(*self is Image) ==> res@.len() == 64 && is_lower_hex(res@),
    {
        match self {
            Captured::Text(text) => {
                let t = text.as_str();
                let bytes = t.as_bytes();
                assert(bytes@ == encode_utf8(text@));
                let parts = [bytes];
                let res = domain_hash(ClipboardKind::Text, &parts);
                assert(parts@ =~= seq![bytes]);
                assert(part_views(seq![bytes]) =~= seq![encode_utf8(text@)]);
                res
            },
            Captured::Image { rgba_hash, .. } => rgba_hash.clone(),
            Captured::Files(paths) => {
                let joined = join_lines(paths);
                let bytes = joined.as_str().as_bytes();
                let parts = [bytes];
                let res = domain_hash(ClipboardKind::Files, &parts);
                assert(parts@ =~= seq![bytes]);
                assert(part_views(seq![bytes]) =~= seq![encode_utf8(joined_lines(paths.deep_view()))]);
                res
            },
        }
    }
}


/// The text of an optional string.
pub open spec fn opt_text(o: Option<String>) -> Option<Seq<char>> {
    match o {
        Some(s) => Some(s@),
        None => None,
    }
}

/// A path separator: `/` or `\`, as on Windows, the platform paths come from.
pub open spec fn is_path_separator(c: char) -> bool {
    c == '/' || c == '\\'
}

/// A separator inside a path: only `\` in a verbatim (`\\?\`) path, `/` or
/// `\` in any other.
pub open spec fn is_separator_in(c: char, verbatim: bool) -> bool {
    c == '\\' || (!verbatim && c == '/')
}

/// An ASCII letter, as a drive letter must be.
pub open spec fn is_drive_letter(c: char) -> bool {
    ('a' <= c && c <= 'z') || ('A' <= c && c <= 'Z')
}

/// Length of a leading drive prefix such as `C:` (0 when there is none).
pub open spec fn drive_prefix_len(s: Seq<char>) -> int {
    if s.len() >= 2 && s[1] == ':' && is_drive_letter(s[0]) {
        2
    } else {
        0
    }
}

/// Where the component that starts at `from` ends: the first separator at
/// or after `from`, or the end of `s`.
pub open spec fn component_end(s: Seq<char>, from: int, verbatim: bool) -> int
    decreases s.len() - from,
{
    if from >= s.len() {
        s.len() as int
    } else if is_separator_in(s[from], verbatim) {
        from
    } else {
        component_end(s, from + 1, verbatim)
    }
}

/// A verbatim path: it starts with `\\?\` exactly.
pub open spec fn is_verbatim_path(s: Seq<char>) -> bool {
    s.len() >= 4 && s[0] == '\\' && s[1] == '\\' && s[2] == '?' && s[3] == '\\'
}

/// Length of the Windows prefix of a path (`std::path::Prefix`): `C:`;
/// `\\server\share`; `\\.\device`; `\\?\C:`, `\\?\UNC\server\share` and
/// `\\?\name`; 0 when there is none.
pub open spec fn path_prefix_len(s: Seq<char>) -> int {
    if s.len() >= 2 && is_path_separator(s[0]) && is_path_separator(s[1]) {
        if is_verbatim_path(s) {
            if s.len() >= 8 && s[4] == 'U' && s[5] == 'N' && s[6] == 'C' && is_path_separator(
                s[7],
            ) {
                let server_end = component_end(s, 8, true);
                if server_end < s.len() && component_end(s, server_end + 1, true) > server_end
                    + 1 {
                    component_end(s, server_end + 1, true)
                } else {
                    server_end
                }
            } else if s.len() >= 6 && is_drive_letter(s[4]) && s[5] == ':' && (s.len() == 6
                || is_path_separator(s[6])) {
                6
            } else {
                component_end(s, 4, true)
            }
        } else if s.len() >= 4 && s[2] == '.' && is_path_separator(s[3]) {
            component_end(s, 4, false)
        } else {
            let server_end = component_end(s, 2, false);
            if server_end > 2 && server_end < s.len() && component_end(s, server_end + 1, false)
                > server_end + 1 {
                component_end(s, server_end + 1, false)
            } else {
                0
            }
        }
    } else {
        drive_prefix_len(s)
    }
}

/// The pieces of `s` between separators (as `str::split`, so never empty).
pub open spec fn path_segments(s: Seq<char>, verbatim: bool) -> Seq<Seq<char>>
    decreases s.len(),
{
    if s.len() == 0 {
        seq![Seq::empty()]
    } else {
        let prev = path_segments(s.drop_last(), verbatim);
        if is_separator_in(s.last(), verbatim) {
            prev.push(Seq::empty())
        } else {
            prev.drop_last().push(prev.last().push(s.last()))
        }
    }
}

/// A segment that is a component: not empty, and not `.` outside verbatim
/// paths (where `.` components are dropped).
pub open spec fn is_component(seg: Seq<char>, verbatim: bool) -> bool {
    seg.len() > 0 && (verbatim || seg != seq!['.'])
}

/// The last segment that is a component.
pub open spec fn last_component(segs: Seq<Seq<char>>, verbatim: bool) -> Option<Seq<char>>
    decreases segs.len(),
{
    if segs.len() == 0 {
        None
    } else if is_component(segs.last(), verbatim) {
        Some(segs.last())
    } else {
        last_component(segs.drop_last(), verbatim)
    }
}

/// File name of a path (`Path::file_name` on Windows): its last component
/// after the prefix when that is a name; otherwise (a root, a prefix alone,
/// an empty path, `.` or `..`) the whole path.
pub open spec fn file_name_spec(path: Seq<char>) -> Seq<char> {
    let v = is_verbatim_path(path);
    let body = path.subrange(path_prefix_len(path), path.len() as int);
    match last_component(path_segments(body, v), v) {
        Some(seg) => if seg == seq!['.', '.'] || seg == seq!['.'] {
            path
        } else {
            seg
        },
        None => path,
    }
}

pub proof fn lemma_path_segments_nonempty(s: Seq<char>, verbatim: bool)
    ensures
        path_segments(s, verbatim).len() >= 1,
    decreases s.len(),
{
    if s.len() > 0 {
        lemma_path_segments_nonempty(s.drop_last(), verbatim);
    }
}

/// The characters of an optional character vector.
pub open spec fn opt_chars(o: Option<Vec<char>>) -> Option<Seq<char>> {
    match o {
        Some(v) => Some(v@),
        None => None,
    }
}

fn is_component_chars(seg: &Vec<char>, verbatim: bool) -> (res: bool)
    ensures
        res == is_component(seg@, verbatim),
{
    if seg.len() == 0 {
        false
    } else if !verbatim && seg.len() == 1 && seg[0] == '.' {
        assert(seg@ =~= seq!['.']);
        false
    } else {
        proof {
            if seg@ == seq!['.'] {
                assert(seg@[0] == '.');
            }
        }
        true
    }
}

fn is_path_separator_char(c: char) -> (res: bool)
    ensures
        res == is_path_separator(c),
{
    c == '/' || c == '\\'
}

fn is_drive_letter_char(c: char) -> (res: bool)
    ensures
        res == is_drive_letter(c),
{
    ('a' <= c && c <= 'z') || ('A' <= c && c <= 'Z')
}

/// The end of the component of `cs` that starts at `from`.
fn component_end_of(cs: &Vec<char>, from: usize, verbatim: bool) -> (res: usize)
    requires
        from <= cs@.len(),
    ensures
        res == component_end(cs@, from as int, verbatim),
        from <= res <= cs@.len(),
{
    let n = cs.len();
    let mut j = from;
    while j < n && !(cs[j] == '\\' || (!verbatim && cs[j] == '/'))
        invariant
            from <= j <= n == cs@.len(),
            component_end(cs@, from as int, verbatim) == component_end(cs@, j as int, verbatim),
        decreases n - j,
    {
        j = j + 1;
    }
    j
}

/// The length of the prefix of a path and whether the path is verbatim.
fn path_prefix_of(cs: &Vec<char>) -> (res: (usize, bool))
    ensures
        res.0 == path_prefix_len(cs@),
        res.1 == is_verbatim_path(cs@),
        res.0 <= cs@.len(),
{
    let n = cs.len();
    let verbatim = n >= 4 && cs[0] == '\\' && cs[1] == '\\' && cs[2] == '?' && cs[3] == '\\';
    if n >= 2 && is_path_separator_char(cs[0]) && is_path_separator_char(cs[1]) {
        if verbatim {
            if n >= 8 && cs[4] == 'U' && cs[5] == 'N' && cs[6] == 'C' && is_path_separator_char(
                cs[7],
            ) {
                let server_end = component_end_of(cs, 8, true);
                if server_end < n {
                    let share_end = component_end_of(cs, server_end + 1, true);
                    if share_end > server_end + 1 {
                        return (share_end, true);
                    }
                }
                (server_end, true)
            } else if n >= 6 && is_drive_letter_char(cs[4]) && cs[5] == ':' && (n == 6
                || is_path_separator_char(cs[6])) {
                (6, true)
            } else {
                (component_end_of(cs, 4, true), true)
            }
        } else if n >= 4 && cs[2] == '.' && is_path_separator_char(cs[3]) {
            (component_end_of(cs, 4, false), false)
        } else {
            let server_end = component_end_of(cs, 2, false);
            if server_end > 2 && server_end < n {
                let share_end = component_end_of(cs, server_end + 1, false);
                if share_end > server_end + 1 {
                    return (share_end, false);
                }
            }
            (0, false)
        }
    } else if n >= 2 && cs[1] == ':' && is_drive_letter_char(cs[0]) {
        (2, verbatim)
    } else {
        (0, verbatim)
    }
}

/// File name (with extension) of a full path; the path itself when it has
/// none (root, prefix alone, empty path), so the front end always has a
/// name to show.
pub fn file_name_of(path: &str) -> (res: String)
    ensures
        res@ == file_name_spec(path@),
{
    let cs = chars_of(path);
    let n = cs.len();
    let (start, verbatim) = path_prefix_of(&cs);
    let mut cur: Vec<char> = Vec::new();
    let mut done: Option<Vec<char>> = None;
    let mut i: usize = start;
    assert(cs@.subrange(start as int, start as int) =~= Seq::<char>::empty());
    while i < n
        invariant
            start <= i <= n == cs@.len(),
            cs@ == path@,
            verbatim == is_verbatim_path(path@),
            path_segments(cs@.subrange(start as int, i as int), verbatim).last() == cur@,
            opt_chars(done) == last_component(
                path_segments(cs@.subrange(start as int, i as int), verbatim).drop_last(),
                verbatim,
            ),
        decreases n - i,
    {
        let ghost before = cs@.subrange(start as int, i as int);
        let ghost after = cs@.subrange(start as int, i + 1);
        proof {
            assert(after.drop_last() =~= before);
            assert(after.last() == cs@[i as int]);
            lemma_path_segments_nonempty(before, verbatim);
        }
        let c = cs[i];
        if c == '\\' || (!verbatim && c == '/') {
            if is_component_chars(&cur, verbatim) {
                done = Some(cur);
            }
            proof {
                let segs = path_segments(before, verbatim);
                assert(path_segments(after, verbatim) == segs.push(Seq::empty()));
                assert(path_segments(after, verbatim).drop_last() =~= segs);
                assert(segs.drop_last().push(segs.last()) =~= segs);
            }
            cur = Vec::new();
        } else {
            cur.push(c);
            proof {
                let segs = path_segments(before, verbatim);
                assert(path_segments(after, verbatim).drop_last() =~= segs.drop_last());
            }
        }
        i = i + 1;
    }
    let ghost segs = path_segments(cs@.subrange(start as int, n as int), verbatim);
    proof {
        lemma_path_segments_nonempty(cs@.subrange(start as int, n as int), verbatim);
        assert(segs.drop_last().push(segs.last()) =~= segs);
    }
    let last = if is_component_chars(&cur, verbatim) {
        Some(cur)
    } else {
        done
    };
    assert(opt_chars(last) == last_component(segs, verbatim));
    match last {
        Some(seg) => {
            if (seg.len() == 2 && seg[0] == '.' && seg[1] == '.') || (seg.len() == 1 && seg[0]
                == '.') {
                proof {
                    if seg.len() == 2 {
                        assert(seg@ =~= seq!['.', '.']);
                    } else {
                        assert(seg@ =~= seq!['.']);
                    }
                }
                path.to_owned()
            } else {
                proof {
                    if seg@ == seq!['.', '.'] {
                        assert(seg@[0] == '.' && seg@[1] == '.');
                    }
                    if seg@ == seq!['.'] {
                        assert(seg@[0] == '.');
                    }
                }
                string_of_chars(&seg, 0, seg.len())
            }
        },
        None => path.to_owned(),
    }
}

/// Searchable text of a snapshot: a text's full content; the file names of
/// a file list (no directories) joined by `'\n'`; nothing for an image.
pub open spec fn searchable_text_spec(c: Captured) -> Option<Seq<char>> {
    match c {
        Captured::Text(t) => Some(t@),
        Captured::Files(paths) => Some(
            joined_lines(paths.deep_view().map_values(|p: Seq<char>| file_name_spec(p))),
        ),
        Captured::Image { .. } => None,
    }
}

/// The only source of the `text` column: what of an entry can be searched and shown.
pub fn searchable_text(captured: &Captured) -> (res: Option<String>)
    ensures
        opt_text(res) == searchable_text_spec(*captured),
{
    match captured {
        Captured::Text(text) => Some(text.clone()),
        Captured::Files(paths) => {
            let mut names: Vec<String> = Vec::new();
            let mut i: usize = 0;
            while i < paths.len()
                invariant
                    i <= paths@.len(),
                    names.deep_view() =~= paths.deep_view().take(i as int).map_values(
                        |p: Seq<char>| file_name_spec(p),
                    ),
                decreases paths@.len() - i,
            {
                let name = file_name_of(paths[i].as_str());
                let ghost old_names = names.deep_view();
                names.push(name);
                proof {
                    let f = |p: Seq<char>| file_name_spec(p);
                    assert(names.deep_view() =~= old_names.push(name@));
                    assert(paths.deep_view().take(i + 1).map_values(f) =~= paths.deep_view().take(
                        i as int,
                    ).map_values(f).push(f(paths@[i as int]@)));
                }
                i = i + 1;
            }
            assert(paths.deep_view().take(paths@.len() as int) =~= paths.deep_view());
            Some(join_lines(&names))
        },
        Captured::Image { .. } => None,
    }
}

/// Wall clock (`SystemTime`).
#[verifier::external_type_specification]
#[verifier::external_body]
pub struct ExSystemTime(SystemTime);

/// Error of a clock earlier than the reference time (`SystemTimeError`).
#[verifier::external_type_specification]
#[verifier::external_body]
pub struct ExSystemTimeError(SystemTimeError);

/// `SystemTime::now`: the current wall-clock time; nothing is claimed of it.
#[verifier::external_body]
fn system_time_now() -> SystemTime {
    SystemTime::now()
}

/// `SystemTime::duration_since(UNIX_EPOCH)`: the time since 1970, or an error
/// when the clock is earlier; nothing more is claimed.
#[verifier::external_body]
fn since_unix_epoch(t: &SystemTime) -> Result<std::time::Duration, SystemTimeError> {
    t.duration_since(std::time::UNIX_EPOCH)
}

/// `Duration::as_millis`: whole milliseconds of a duration; nothing more is claimed.
#[verifier::external_body]
fn duration_millis(d: &std::time::Duration) -> u128 {
    d.as_millis()
}

/// Milliseconds as `i64`, saturating at `i64::MAX`.
pub fn millis_to_i64(ms: u128) -> (res: i64)
    ensures
        res == (if ms > i64::MAX {
            i64::MAX as int
        } else {
            ms as int
        }),
{
    if ms > 9223372036854775807u128 {
        i64::MAX
    } else {
        ms as i64
    }
}

/// The time stamp of a clock reading: the whole milliseconds elapsed since
/// 1970 (`None` when the clock is before 1970), saturated at `i64::MAX`; 0
/// before 1970.
pub open spec fn clock_millis(elapsed_ms: Option<u128>) -> int {
    match elapsed_ms {
        Some(ms) => if ms > i64::MAX {
            i64::MAX as int
        } else {
            ms as int
        },
        None => 0,
    }
}

/// The time stamp of a clock reading given as the whole milliseconds since
/// 1970, or `None` for a clock before 1970.
pub fn millis_since_epoch(elapsed_ms: Option<u128>) -> (res: i64)
    ensures
        res == clock_millis(elapsed_ms),
{
    match elapsed_ms {
        Some(ms) => millis_to_i64(ms),
        None => 0,
    }
}

/// Current Unix time in milliseconds; 0 when the clock is before 1970 (never panics).
pub fn now_ms() -> (res: i64)
    ensures
        res >= 0,
{
    let now = system_time_now();
    let elapsed = match since_unix_epoch(&now) {
        Ok(d) => Some(duration_millis(&d)),
        Err(_) => None,
    };
    millis_since_epoch(elapsed)
}

/// The kind column round-trips: reading back the name that a kind is
/// stored under gives that kind, and distinct kinds have distinct names.
pub proof fn lemma_kind_name_round_trip(k: ClipboardKind, j: ClipboardKind)
    ensures
        kind_name(k) == kind_name(j) ==> k == j,
{
    if kind_name(k) == kind_name(j) {
        if k != j {
            assert(kind_name(k)[0] != kind_name(j)[0] || kind_name(k).len() != kind_name(j).len());
        }
    }
}

} // verus!
