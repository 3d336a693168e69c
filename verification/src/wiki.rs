//! Wiki links: `[[target]]` in a note's text (the target is one or more
//! characters other than `]`, closed by `]]`), found left to right without
//! overlap, and the `[[query` that is still open before the cursor.
use vstd::prelude::*;
use crate::path::{last_index_before, lemma_last_index_bounds};
use crate::text::{byte_len, char_byte_offsets, chars_of, contains, contains_exec, string_of, trim, trim_chars};

verus! {

/// One `[[target]]` of a text: the target trimmed, and the byte range of the
/// whole link, brackets included.
#[derive(Clone, Debug)]
pub struct WikiLink {
    pub target: String,
    pub start: usize,
    pub end: usize,
}

/// Index of the first `]` of `s` at or after `from`, or `s.len()`.
pub open spec fn next_close(s: Seq<char>, from: int) -> int
    decreases s.len() - from,
{
    if from < 0 || from >= s.len() {
        s.len() as int
    } else if s[from] == ']' {
        from
    } else {
        next_close(s, from + 1)
    }
}

pub proof fn lemma_next_close(s: Seq<char>, from: int)
    requires
        0 <= from <= s.len(),
    ensures
        from <= next_close(s, from) <= s.len(),
        next_close(s, from) < s.len() ==> s[next_close(s, from)] == ']',
        forall|k: int| from <= k < next_close(s, from) ==> #[trigger] s[k] != ']',
    decreases s.len() - from,
{
    if from < s.len() && s[from] != ']' {
        lemma_next_close(s, from + 1);
    }
}

/// A link starts at `i`: `[[`, then at least one character other than `]`,
/// then `]]`.
pub open spec fn link_at(s: Seq<char>, i: int) -> bool {
    let k = next_close(s, i + 2);
    &&& 0 <= i
    &&& i + 1 < s.len()
    &&& s[i] == '['
    &&& s[i + 1] == '['
    &&& k > i + 2
    &&& k + 1 < s.len()
    &&& s[k + 1] == ']'
}

/// The links of `s` from position `i` on, as (target, start, end) with
/// character positions; the target is trimmed.
pub open spec fn links_from(s: Seq<char>, i: int) -> Seq<(Seq<char>, int, int)>
    decreases s.len() - i,
{
    if i < 0 || i >= s.len() {
        seq![]
    } else if link_at(s, i) {
        let k = next_close(s, i + 2);
        proof {
            lemma_next_close(s, i + 2);
        }
        seq![(trim(s.subrange(i + 2, k)), i, k + 2)] + links_from(s, k + 2)
    } else {
        links_from(s, i + 1)
    }
}

/// Every link of `s`, left to right, in character positions.
pub open spec fn wiki_links(s: Seq<char>) -> Seq<(Seq<char>, int, int)> {
    links_from(s, 0)
}

/// The first `]` at or after `from`.
fn next_close_exec(s: &[char], from: usize) -> (k: usize)
    requires
        from <= s@.len(),
    ensures
        k == next_close(s@, from as int),
{
    proof {
        lemma_next_close(s@, from as int);
    }
    let mut k = from;
    while k < s.len() && s[k] != ']'
        invariant
            from <= k <= s@.len(),
            next_close(s@, from as int) == next_close(s@, k as int),
        decreases s@.len() - k,
    {
        k += 1;
    }
    k
}

/// The links of `s` in character positions, as (target, start, end).
fn scan_links(s: &[char]) -> (r: Vec<(Vec<char>, usize, usize)>)
    ensures
        r@.len() == wiki_links(s@).len(),
        forall|j: int|
            0 <= j < r@.len() ==> {
                let (t, a, b) = #[trigger] r@[j];
                (t@, a as int, b as int) == wiki_links(s@)[j]
            },
{
    let n = s.len();
    let mut out: Vec<(Vec<char>, usize, usize)> = Vec::new();
    let ghost mut found: Seq<(Seq<char>, int, int)> = seq![];
    let mut i: usize = 0;
    while i < n
        invariant
            n == s@.len(),
            i <= n,
            found + links_from(s@, i as int) == wiki_links(s@),
            out@.len() == found.len(),
            forall|j: int|
                0 <= j < out@.len() ==> {
                    let (t, a, b) = #[trigger] out@[j];
                    (t@, a as int, b as int) == found[j]
                },
        decreases n - i,
    {
        let mut linked = false;
        if i + 1 < n && s[i] == '[' && s[i + 1] == '[' {
            let k = next_close_exec(s, i + 2);
            if k > i + 2 && k < n && k + 1 < n && s[k + 1] == ']' {
                let mut inner: Vec<char> = Vec::new();
                let mut m = i + 2;
                while m < k
                    invariant
                        i + 2 <= m <= k < n,
                        n == s@.len(),
                        inner@ == s@.subrange(i + 2, m as int),
                    decreases k - m,
                {
                    inner.push(s[m]);
                    m += 1;
                    assert(inner@ =~= s@.subrange(i + 2, m as int));
                }
                let target = trim_chars(inner.as_slice());
                proof {
                    let old_found = found;
                    assert(link_at(s@, i as int));
                    found = found.push((target@, i as int, k + 2));
                    assert(found + links_from(s@, k + 2) =~= old_found + links_from(s@, i as int));
                }
                out.push((target, i, k + 2));
                i = k + 2;
                linked = true;
            }
        }
        if !linked {
            proof {
                assert(!link_at(s@, i as int));
                assert(links_from(s@, i as int) == links_from(s@, i + 1));
            }
            i += 1;
        }
    }
    proof {
        assert(links_from(s@, i as int) == Seq::<(Seq<char>, int, int)>::empty());
        assert(found =~= found + links_from(s@, i as int));
    }
    out
}

/// The wiki links of `text`, left to right: each `[[target]]` with its
/// target trimmed and the byte range of the whole link (what the captures of
/// `\[\[([^\]]+)\]\]` give).
pub fn extract_wiki_links(text: &str) -> (r: Vec<WikiLink>)
    ensures
        r@.len() == wiki_links(text@).len(),
        forall|j: int|
            0 <= j < r@.len() ==> {
                let l = wiki_links(text@)[j];
                &&& (#[trigger] r@[j]).target@ == l.0
                &&& r@[j].start == byte_len(text@.take(l.1))
                &&& r@[j].end == byte_len(text@.take(l.2))
            },
{
    let chars = chars_of(text);
    let offsets = char_byte_offsets(text);
    let found = scan_links(chars.as_slice());
    let mut r: Vec<WikiLink> = Vec::new();
    let mut j: usize = 0;
    while j < found.len()
        invariant
            chars@ == text@,
            j <= found@.len(),
            offsets@.len() == text@.len() + 1,
            forall|i: int| 0 <= i <= text@.len() ==> #[trigger] offsets@[i] == byte_len(text@.take(i)),
            found@.len() == wiki_links(text@).len(),
            forall|q: int|
                0 <= q < found@.len() ==> {
                    let (t, a, b) = #[trigger] found@[q];
                    (t@, a as int, b as int) == wiki_links(text@)[q]
                },
            r@.len() == j,
            forall|q: int|
                0 <= q < j ==> {
                    let l = wiki_links(text@)[q];
                    &&& (#[trigger] r@[q]).target@ == l.0
                    &&& r@[q].start == byte_len(text@.take(l.1))
                    &&& r@[q].end == byte_len(text@.take(l.2))
                },
        decreases found@.len() - j,
    {
        let (t, a, b) = &found[j];
        proof {
            lemma_link_bounds(text@, j as int);
        }
        r.push(WikiLink { target: string_of(t.as_slice()), start: offsets[*a], end: offsets[*b] });
        j += 1;
    }
    r
}

/// Links lie inside the text, in order, without overlap.
pub proof fn lemma_links_from_bounds(s: Seq<char>, i: int)
    requires
        0 <= i,
    ensures
        forall|j: int|
            0 <= j < links_from(s, i).len() ==> {
                let l = #[trigger] links_from(s, i)[j];
                i <= l.1 && l.1 + 4 <= l.2 && l.2 <= s.len()
            },
        forall|j1: int, j2: int|
            0 <= j1 < j2 < links_from(s, i).len() ==> #[trigger] links_from(s, i)[j1].2
                <= #[trigger] links_from(s, i)[j2].1,
    decreases s.len() - i,
{
    if i < s.len() {
        if link_at(s, i) {
            let k = next_close(s, i + 2);
            lemma_next_close(s, i + 2);
            lemma_links_from_bounds(s, k + 2);
            let rest = links_from(s, k + 2);
            let all = links_from(s, i);
            assert(all == seq![(trim(s.subrange(i + 2, k)), i, k + 2)] + rest);
            assert forall|j: int| 0 <= j < all.len() implies {
                let l = #[trigger] all[j];
                i <= l.1 && l.1 + 4 <= l.2 && l.2 <= s.len()
            } by {
                if j > 0 {
                    assert(all[j] == rest[j - 1]);
                }
            }
            assert forall|j1: int, j2: int| 0 <= j1 < j2 < all.len() implies #[trigger] all[j1].2
                <= #[trigger] all[j2].1 by {
                assert(all[j2] == rest[j2 - 1]);
                if j1 > 0 {
                    assert(all[j1] == rest[j1 - 1]);
                }
            }
        } else {
            lemma_links_from_bounds(s, i + 1);
            assert(links_from(s, i) == links_from(s, i + 1));
        }
    } else {
        assert(links_from(s, i).len() == 0);
    }
}

proof fn lemma_link_bounds(s: Seq<char>, j: int)
    requires
        0 <= j < wiki_links(s).len(),
    ensures
        0 <= wiki_links(s)[j].1 <= wiki_links(s)[j].2 <= s.len(),
{
    lemma_links_from_bounds(s, 0);
    let l = wiki_links(s)[j];
    assert(0 <= l.1 && l.1 + 4 <= l.2 && l.2 <= s.len());
}


/// The character ranges (start, end) of the links of `text`, left to right.
pub fn wiki_link_char_ranges(text: &str) -> (r: Vec<(usize, usize)>)
    ensures
        r@.len() == wiki_links(text@).len(),
        forall|j: int|
            0 <= j < r@.len() ==> (#[trigger] r@[j]).0 == wiki_links(text@)[j].1 && r@[j].1
                == wiki_links(text@)[j].2,
{
    let chars = chars_of(text);
    let found = scan_links(chars.as_slice());
    let mut r: Vec<(usize, usize)> = Vec::new();
    let mut j: usize = 0;
    while j < found.len()
        invariant
            chars@ == text@,
            j <= found@.len(),
            found@.len() == wiki_links(text@).len(),
            forall|q: int|
                0 <= q < found@.len() ==> {
                    let (t, a, b) = #[trigger] found@[q];
                    (t@, a as int, b as int) == wiki_links(text@)[q]
                },
            r@.len() == j,
            forall|q: int|
                0 <= q < j ==> (#[trigger] r@[q]).0 == wiki_links(text@)[q].1 && r@[q].1
                    == wiki_links(text@)[q].2,
        decreases found@.len() - j,
    {
        let (_, a, b) = &found[j];
        r.push((*a, *b));
        j += 1;
    }
    r
}

/// The target of the first link of `links` (from position `j` on) whose
/// character range contains `cursor`, ends included.
pub open spec fn target_from(links: Seq<(Seq<char>, int, int)>, cursor: int, j: int) -> Option<
    Seq<char>,
>
    decreases links.len() - j,
{
    if j < 0 || j >= links.len() {
        None
    } else if links[j].1 <= cursor <= links[j].2 {
        Some(links[j].0)
    } else {
        target_from(links, cursor, j + 1)
    }
}

/// The target of the link under the cursor (a character position of
/// `text`): the first link whose range holds it, ends included.
pub fn target_at_cursor(text: &str, cursor: usize) -> (r: Option<String>)
    ensures
        match r {
            Some(t) => target_from(wiki_links(text@), cursor as int, 0) == Some(t@),
            None => target_from(wiki_links(text@), cursor as int, 0) is None,
        },
{
    let chars = chars_of(text);
    let found = scan_links(chars.as_slice());
    let ghost links = wiki_links(text@);
    let mut j: usize = 0;
    while j < found.len()
        invariant
            chars@ == text@,
            links == wiki_links(text@),
            j <= found@.len(),
            found@.len() == links.len(),
            forall|q: int|
                0 <= q < found@.len() ==> {
                    let (t, a, b) = #[trigger] found@[q];
                    (t@, a as int, b as int) == links[q]
                },
            target_from(links, cursor as int, 0) == target_from(links, cursor as int, j as int),
        decreases found@.len() - j,
    {
        let (t, a, b) = &found[j];
        if *a <= cursor && cursor <= *b {
            return Some(string_of(t.as_slice()));
        }
        j += 1;
    }
    None
}

/// Position `p` of the last `[[` that lies within `s[..e]`, or -1.
pub open spec fn last_open_before(s: Seq<char>, e: int) -> int
    decreases e,
{
    if e < 2 || e > s.len() {
        -1
    } else if s[e - 2] == '[' && s[e - 1] == '[' {
        e - 2
    } else {
        last_open_before(s, e - 1)
    }
}

/// The `[[query` still open at the end of `before` (the text before the
/// cursor): on the cursor's line, the last `[[` not followed by `]]`. Gives
/// the position right after that `[[` and the query typed since.
pub open spec fn pending_query(before: Seq<char>) -> Option<(int, Seq<char>)> {
    let line_start = last_index_before(before, '\n', before.len() as int) + 1;
    let line = before.skip(line_start);
    let p = last_open_before(line, line.len() as int);
    if p < 0 {
        None
    } else {
        let after = line.skip(p + 2);
        if contains(after, seq![']', ']']) {
            None
        } else {
            Some((line_start + p + 2, after))
        }
    }
}

proof fn lemma_last_open_bounds(s: Seq<char>, e: int)
    requires
        e <= s.len(),
    ensures
        -1 <= last_open_before(s, e),
        last_open_before(s, e) >= 0 ==> last_open_before(s, e) + 2 <= e,
    decreases e,
{
    if e >= 2 && !(s[e - 2] == '[' && s[e - 1] == '[') {
        lemma_last_open_bounds(s, e - 1);
    }
}

/// The open `[[query` before the cursor, if any (see `pending_query`): the
/// character position right after its `[[` and the query.
pub fn pending_link_query(before: &str) -> (r: Option<(usize, String)>)
    ensures
        match r {
            Some((pos, q)) => pending_query(before@) == Some((pos as int, q@)),
            None => pending_query(before@) is None,
        },
{
    let s = chars_of(before);
    let n = s.len();
    let nl = crate::path::last_index_before_exec(s.as_slice(), '\n', n);
    let line_start: usize = match nl {
        Some(k) => k + 1,
        None => 0,
    };
    proof {
        lemma_last_index_bounds(s@, '\n', n as int);
    }
    let mut e = n;
    let ghost line = s@.skip(line_start as int);
    proof {
        lemma_last_open_bounds(line, line.len() as int);
    }
    while e - line_start >= 2 && !(s[e - 2] == '[' && s[e - 1] == '[')
        invariant
            line_start <= e <= n,
            n == s@.len(),
            line == s@.skip(line_start as int),
            last_open_before(line, line.len() as int) == last_open_before(
                line,
                (e - line_start) as int,
            ),
        decreases e,
    {
        proof {
            assert(line[e - line_start - 2] == s@[e - 2]);
            assert(line[e - line_start - 1] == s@[e - 1]);
        }
        e -= 1;
    }
    if e - line_start < 2 {
        return None;
    }
    proof {
        assert(line[e - line_start - 2] == s@[e - 2]);
        assert(line[e - line_start - 1] == s@[e - 1]);
        assert(last_open_before(line, (e - line_start) as int) == e - line_start - 2);
    }
    let mut after: Vec<char> = Vec::new();
    let mut m = e;
    while m < n
        invariant
            e <= m <= n,
            n == s@.len(),
            after@ == s@.subrange(e as int, m as int),
        decreases n - m,
    {
        after.push(s[m]);
        m += 1;
        assert(after@ =~= s@.subrange(e as int, m as int));
    }
    assert(after@ =~= line.skip(e - line_start));
    let close: [char; 2] = [']', ']'];
    if contains_exec(after.as_slice(), &close) {
        assert(close@ =~= seq![']', ']']);
        return None;
    }
    assert(close@ =~= seq![']', ']']);
    Some((e, string_of(after.as_slice())))
}

} // verus!
