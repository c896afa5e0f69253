//! Character-level text helpers: Unicode white space, trimming, and building
//! strings from characters.

use vstd::prelude::*;

verus! {

/// The Unicode `White_Space` property, which `char::is_whitespace` follows.
pub open spec fn is_white_space(c: char) -> bool {
    let u = c as u32;
    (0x9 <= u && u <= 0xd) || u == 0x20 || u == 0x85 || u == 0xa0 || u == 0x1680 || (0x2000
        <= u && u <= 0x200a) || u == 0x2028 || u == 0x2029 || u == 0x202f || u == 0x205f || u
        == 0x3000
}

/// Whether `c` is Unicode white space.
pub fn is_whitespace_char(c: char) -> (res: bool)
    ensures
        res == is_white_space(c),
{
    let u = c as u32;
    (0x9 <= u && u <= 0xd) || u == 0x20 || u == 0x85 || u == 0xa0 || u == 0x1680 || (0x2000 <= u
        && u <= 0x200a) || u == 0x2028 || u == 0x2029 || u == 0x202f || u == 0x205f || u == 0x3000
}

/// Every character of `s` is white space (true of the empty sequence).
pub open spec fn all_white(s: Seq<char>) -> bool {
    forall|i: int| 0 <= i < s.len() ==> is_white_space(#[trigger] s[i])
}

/// Number of white-space characters at the start of `s`.
pub open spec fn leading_white(s: Seq<char>) -> nat
    decreases s.len(),
{
    if s.len() > 0 && is_white_space(s[0]) {
        1 + leading_white(s.drop_first())
    } else {
        0
    }
}

/// Number of white-space characters at the end of `s`.
pub open spec fn trailing_white(s: Seq<char>) -> nat
    decreases s.len(),
{
    if s.len() > 0 && is_white_space(s.last()) {
        1 + trailing_white(s.drop_last())
    } else {
        0
    }
}

/// `s` without leading white space (`str::trim_start`).
pub open spec fn trim_start_of(s: Seq<char>) -> Seq<char> {
    s.subrange(leading_white(s) as int, s.len() as int)
}

/// `s` without trailing white space (`str::trim_end`).
pub open spec fn trim_end_of(s: Seq<char>) -> Seq<char> {
    s.subrange(0, s.len() - trailing_white(s))
}

/// `s` without leading and trailing white space (`str::trim`).
pub open spec fn trimmed(s: Seq<char>) -> Seq<char> {
    trim_end_of(trim_start_of(s))
}

pub proof fn lemma_leading_white_bound(s: Seq<char>)
    ensures
        leading_white(s) <= s.len(),
    decreases s.len(),
{
    if s.len() > 0 && is_white_space(s[0]) {
        lemma_leading_white_bound(s.drop_first());
    }
}

pub proof fn lemma_trailing_white_bound(s: Seq<char>)
    ensures
        trailing_white(s) <= s.len(),
    decreases s.len(),
{
    if s.len() > 0 && is_white_space(s.last()) {
        lemma_trailing_white_bound(s.drop_last());
    }
}

/// `leading_white` is the index of the first character that is not white space.
pub proof fn lemma_leading_white_at(s: Seq<char>, i: int)
    requires
        0 <= i <= s.len(),
        forall|j: int| 0 <= j < i ==> is_white_space(#[trigger] s[j]),
        i == s.len() || !is_white_space(s[i]),
    ensures
        leading_white(s) == i,
    decreases i,
{
    if i > 0 {
        let t = s.drop_first();
        assert forall|j: int| 0 <= j < i - 1 implies is_white_space(#[trigger] t[j]) by {
            assert(t[j] == s[j + 1]);
        }
        if i - 1 < t.len() {
            assert(t[i - 1] == s[i]);
        }
        lemma_leading_white_at(t, i - 1);
        assert(is_white_space(s[0]));
    }
}

/// `trailing_white` counts the white space after the last other character.
pub proof fn lemma_trailing_white_at(s: Seq<char>, k: int)
    requires
        0 <= k <= s.len(),
        forall|j: int| s.len() - k <= j < s.len() ==> is_white_space(#[trigger] s[j]),
        k == s.len() || !is_white_space(s[s.len() - k - 1]),
    ensures
        trailing_white(s) == k,
    decreases k,
{
    if k > 0 {
        let t = s.drop_last();
        assert forall|j: int| t.len() - (k - 1) <= j < t.len() implies is_white_space(
            #[trigger] t[j],
        ) by {
            assert(t[j] == s[j]);
        }
        if k - 1 < t.len() {
            assert(t[t.len() - (k - 1) - 1] == s[s.len() - k - 1]);
        }
        lemma_trailing_white_at(t, k - 1);
        assert(is_white_space(s[s.len() - 1]));
    }
}

/// A sequence trims to nothing exactly when all of it is white space.
pub proof fn lemma_trimmed_empty(s: Seq<char>)
    ensures
        trimmed(s).len() == 0 <==> all_white(s),
{
    lemma_leading_white_bound(s);
    let t = trim_start_of(s);
    lemma_trailing_white_bound(t);
    if all_white(s) {
        lemma_leading_white_at(s, s.len() as int);
    } else {
        let i = choose|i: int| 0 <= i < s.len() && !is_white_space(s[i]);
        // the first non-white character stays the first of the trimmed start
        assert(leading_white(s) <= i) by {
            lemma_leading_white_le(s, i);
        }
        let l = leading_white(s) as int;
        assert(!is_white_space(s[l])) by {
            lemma_leading_white_stop(s);
        }
        assert(t[0] == s[l]);
        if trailing_white(t) == t.len() {
            lemma_trailing_all(t);
            assert(is_white_space(t[0]));
        }
    }
}

proof fn lemma_leading_white_le(s: Seq<char>, i: int)
    requires
        0 <= i < s.len(),
        !is_white_space(s[i]),
    ensures
        leading_white(s) <= i,
    decreases i,
{
    if i > 0 && is_white_space(s[0]) {
        assert(s.drop_first()[i - 1] == s[i]);
        lemma_leading_white_le(s.drop_first(), i - 1);
    }
}

proof fn lemma_leading_white_stop(s: Seq<char>)
    requires
        leading_white(s) < s.len(),
    ensures
        !is_white_space(s[leading_white(s) as int]),
    decreases s.len(),
{
    if s.len() > 0 && is_white_space(s[0]) {
        lemma_leading_white_stop(s.drop_first());
        assert(s.drop_first()[leading_white(s.drop_first()) as int] == s[leading_white(s) as int]);
    }
}

proof fn lemma_trailing_all(s: Seq<char>)
    requires
        trailing_white(s) == s.len(),
    ensures
        all_white(s),
    decreases s.len(),
{
    if s.len() > 0 {
        lemma_trailing_all(s.drop_last());
        assert forall|i: int| 0 <= i < s.len() implies is_white_space(#[trigger] s[i]) by {
            if i < s.len() - 1 {
                assert(s.drop_last()[i] == s[i]);
            }
        }
    }
}

/// Appends one character (`String::push`).
#[verifier::external_body]
pub(crate) fn push_char(s: &mut String, c: char)
    ensures
        final(s)@ == old(s)@.push(c),
{
    s.push(c);
}

/// The characters of `s`.
pub fn chars_of(s: &str) -> (res: Vec<char>)
    ensures
        res@ == s@,
{
    let mut out: Vec<char> = Vec::new();
    for c in it: s.chars()
        invariant
            out@ == it.seq().take(it.index() as int),
            it.seq() == s@,
    {
        out.push(c);
    }
    out
}


/// The characters `cs[from..to]` as a string.
pub fn string_of_chars(cs: &Vec<char>, from: usize, to: usize) -> (res: String)
    requires
        from <= to <= cs@.len(),
    ensures
        res@ == cs@.subrange(from as int, to as int),
{
    let mut out = String::new();
    let mut i = from;
    while i < to
        invariant
            from <= i <= to <= cs@.len(),
            out@ == cs@.subrange(from as int, i as int),
        decreases to - i,
    {
        push_char(&mut out, cs[i]);
        assert(cs@.subrange(from as int, i + 1) =~= cs@.subrange(from as int, i as int).push(
            cs@[i as int],
        ));
        i = i + 1;
    }
    out
}

/// Appends `t` to `s`.
pub fn append_str(s: &mut String, t: &str)
    ensures
        final(s)@ == old(s)@ + t@,
{
    let cs = chars_of(t);
    let ghost start = s@;
    let mut i: usize = 0;
    while i < cs.len()
        invariant
            i <= cs@.len(),
            cs@ == t@,
            s@ == start + cs@.subrange(0, i as int),
        decreases cs@.len() - i,
    {
        push_char(s, cs[i]);
        assert(cs@.subrange(0, i + 1) =~= cs@.subrange(0, i as int).push(cs@[i as int]));
        i = i + 1;
    }
    assert(cs@.subrange(0, cs@.len() as int) =~= cs@);
}

/// `s` without leading and trailing white space, as a new string.
pub fn trim_chars(cs: &Vec<char>) -> (res: String)
    ensures
        res@ == trimmed(cs@),
{
    let n = cs.len();
    let mut start: usize = 0;
    while start < n && is_whitespace_char(cs[start])
        invariant
            start <= n == cs@.len(),
            forall|j: int| 0 <= j < start ==> is_white_space(#[trigger] cs@[j]),
        decreases n - start,
    {
        start = start + 1;
    }
    proof {
        lemma_leading_white_at(cs@, start as int);
    }
    let ghost t = trim_start_of(cs@);
    let mut end: usize = n;
    while end > start && is_whitespace_char(cs[end - 1])
        invariant
            start <= end <= n == cs@.len(),
            t == cs@.subrange(start as int, n as int),
            forall|j: int| end <= j < n ==> is_white_space(#[trigger] cs@[j]),
        decreases end - start,
    {
        end = end - 1;
    }
    proof {
        let k = (n - end) as int;
        assert forall|j: int| t.len() - k <= j < t.len() implies is_white_space(#[trigger] t[j]) by {
            assert(t[j] == cs@[start + j]);
        }
        if k < t.len() {
            assert(t[t.len() - k - 1] == cs@[end - 1]);
        }
        lemma_trailing_white_at(t, k);
        assert(trimmed(cs@) =~= cs@.subrange(start as int, end as int));
    }
    string_of_chars(cs, start, end)
}

/// `s` trimmed of white space on both ends (`str::trim`).
pub fn trim_str(s: &str) -> (res: String)
    ensures
        res@ == trimmed(s@),
{
    let cs = chars_of(s);
    trim_chars(&cs)
}

proof fn lemma_all_white_push(s: Seq<char>, c: char)
    ensures
        all_white(s.push(c)) == (all_white(s) && is_white_space(c)),
{
    let t = s.push(c);
    if all_white(s) && is_white_space(c) {
        assert forall|j: int| 0 <= j < t.len() implies is_white_space(#[trigger] t[j]) by {
            if j < s.len() {
                assert(t[j] == s[j]);
            }
        }
    } else if !is_white_space(c) {
        assert(t[s.len() as int] == c);
    } else {
        let j = choose|j: int| 0 <= j < s.len() && !is_white_space(s[j]);
        assert(t[j] == s[j]);
    }
}

/// Whether `s` is empty or white space only (`s.trim().is_empty()`).
pub fn is_blank(s: &str) -> (res: bool)
    ensures
        res == all_white(s@),
        res == (trimmed(s@).len() == 0),
{
    proof {
        lemma_trimmed_empty(s@);
    }
    let mut blank = true;
    for c in it: s.chars()
        invariant
            it.seq() == s@,
            blank == all_white(s@.take(it.index() as int)),
    {
        proof {
            let k = it.index() as int;
            assert(s@.take(k + 1) =~= s@.take(k).push(c));
            lemma_all_white_push(s@.take(k), c);
        }
        if !is_whitespace_char(c) {
            blank = false;
        }
    }
    assert(s@.take(s@.len() as int) =~= s@);
    blank
}

/// Whether two texts are equal, character by character.
pub fn same_text(a: &str, b: &str) -> (res: bool)
    ensures
        res == (a@ == b@),
{
    let x = chars_of(a);
    let y = chars_of(b);
    if x.len() != y.len() {
        return false;
    }
    let mut i: usize = 0;
    while i < x.len()
        invariant
            x@ == a@,
            y@ == b@,
            x@.len() == y@.len(),
            i <= x@.len(),
            forall|k: int| 0 <= k < i ==> x@[k] == y@[k],
        decreases x@.len() - i,
    {
        if x[i] != y[i] {
            return false;
        }
        i = i + 1;
    }
    assert(x@ =~= y@);
    true
}

/// The lines of `items` joined by `'\n'` (`[String]::join("\n")`).
pub open spec fn joined_lines(items: Seq<Seq<char>>) -> Seq<char>
    decreases items.len(),
{
    if items.len() == 0 {
        Seq::empty()
    } else if items.len() == 1 {
        items[0]
    } else {
        joined_lines(items.drop_last()) + seq!['\n'] + items.last()
    }
}

/// Joins `items` with `'\n'` between consecutive items.
pub fn join_lines(items: &Vec<String>) -> (res: String)
    ensures
        res@ == joined_lines(items.deep_view()),
{
    let mut out = String::new();
    let mut i: usize = 0;
    while i < items.len()
        invariant
            i <= items@.len(),
            out@ == joined_lines(items.deep_view().take(i as int)),
        decreases items@.len() - i,
    {
        let ghost before = items.deep_view().take(i as int);
        if i > 0 {
            push_char(&mut out, '\n');
        }
        append_str(&mut out, items[i].as_str());
        proof {
            let now = items.deep_view().take(i + 1);
            assert(now.drop_last() =~= before);
            assert(now.last() == items@[i as int]@);
            if i == 0 {
                assert(now =~= seq![items@[0]@]);
            }
        }
        i = i + 1;
    }
    assert(items.deep_view().take(items@.len() as int) =~= items.deep_view());
    out
}

/// ASCII letters compare without case (as SQLite's `LIKE` and `eq_ignore_ascii_case` do); others as they are.
pub open spec fn fold_case(c: char) -> char {
    if 'A' <= c && c <= 'Z' {
        ((c as u32) + 32) as char
    } else {
        c
    }
}

pub fn fold_case_char(c: char) -> (res: char)
    ensures
        res == fold_case(c),
{
    if 'A' <= c && c <= 'Z' {
        ((c as u8) + 32) as char
    } else {
        c
    }
}

/// `a` and `b` are equal when ASCII letters are compared without case
/// (`str::eq_ignore_ascii_case`).
pub open spec fn same_ignoring_ascii_case(a: Seq<char>, b: Seq<char>) -> bool {
    &&& a.len() == b.len()
    &&& forall|i: int| 0 <= i < a.len() ==> fold_case(#[trigger] a[i]) == fold_case(b[i])
}

/// Whether `a` and `b` are equal, ASCII letters compared without case.
pub fn eq_ignore_ascii_case(a: &str, b: &str) -> (res: bool)
    ensures
        res == same_ignoring_ascii_case(a@, b@),
{
    let x = chars_of(a);
    let y = chars_of(b);
    if x.len() != y.len() {
        return false;
    }
    let mut i: usize = 0;
    while i < x.len()
        invariant
            x@ == a@,
            y@ == b@,
            x@.len() == y@.len(),
            i <= x@.len(),
            forall|k: int| 0 <= k < i ==> fold_case(#[trigger] x@[k]) == fold_case(y@[k]),
        decreases x@.len() - i,
    {
        if fold_case_char(x[i]) != fold_case_char(y[i]) {
            return false;
        }
        i = i + 1;
    }
    true
}

/// `pattern` occurs in `text` starting at position `i`.
pub open spec fn occurs_at(text: Seq<char>, pattern: Seq<char>, i: int) -> bool {
    &&& 0 <= i
    &&& i + pattern.len() <= text.len()
    &&& text.subrange(i, i + pattern.len()) == pattern
}

/// `pattern` occurs somewhere in `text` (`str::contains`).
pub open spec fn occurs_in(text: Seq<char>, pattern: Seq<char>) -> bool {
    exists|i: int| occurs_at(text, pattern, i)
}

/// Whether `pattern` occurs in `text`.
pub fn contains_text(text: &str, pattern: &str) -> (res: bool)
    ensures
        res == occurs_in(text@, pattern@),
{
    let t = chars_of(text);
    let p = chars_of(pattern);
    let n = t.len();
    let m = p.len();
    if m > n {
        return false;
    }
    let mut i: usize = 0;
    while i <= n - m
        invariant
            t@ == text@,
            p@ == pattern@,
            m <= n,
            n == t@.len(),
            m == p@.len(),
            i <= n - m + 1,
            forall|k: int| 0 <= k < i ==> !occurs_at(t@, p@, k),
        decreases n - m + 1 - i,
    {
        let mut j: usize = 0;
        let mut ok = true;
        while j < m
            invariant
                m <= n,
                n == t@.len(),
                m == p@.len(),
                i <= n - m,
                j <= m,
                ok == (forall|k: int| 0 <= k < j ==> #[trigger] t@[i + k] == p@[k]),
            decreases m - j,
        {
            if t[i + j] != p[j] {
                ok = false;
            }
            j = j + 1;
        }
        if ok {
            assert forall|k: int| 0 <= k < m implies t@.subrange(i as int, i + m)[k] == p@[k] by {
                assert(t@[i + k] == p@[k]);
            }
            assert(t@.subrange(i as int, i + m) =~= p@);
            assert(occurs_at(t@, p@, i as int));
            return true;
        }
        assert(!occurs_at(t@, p@, i as int)) by {
            if occurs_at(t@, p@, i as int) {
                assert forall|k: int| 0 <= k < m implies #[trigger] t@[i + k] == p@[k] by {
                    assert(t@.subrange(i as int, i + m)[k] == t@[i + k]);
                }
            }
        }
        i = i + 1;
    }
    false
}

} // verus!
