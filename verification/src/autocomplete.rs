//! Wiki-link autocompletion: which notes are offered for a typed `[[query`,
//! how they are labelled and ranked, and how the selection moves.
use vstd::prelude::*;
use crate::note::{texts, Note};
use crate::order::{lemma_stable_sort_map, lemma_stable_sort_sorted, sorted_by, stable_sort, stable_sort_vec, strict_weak_order};
use crate::text::{all_ascii, ascii_lowercase, chars_of, lemma_seq_lt_irreflexive, lemma_seq_lt_total, lemma_seq_lt_transitive, lowercase, seq_lt, seq_lt_exec, string_of, to_lowercase, trim, trim_chars};

verus! {

/// Most candidates offered at once.
pub const MAX_CANDIDATES: usize = 8;

/// Index of the first `c` in `t` at or after `from`, or `t.len()`.
pub open spec fn first_from(t: Seq<char>, c: char, from: int) -> int
    decreases t.len() - from,
{
    if from < 0 || from >= t.len() {
        t.len() as int
    } else if t[from] == c {
        from
    } else {
        first_from(t, c, from + 1)
    }
}

pub proof fn lemma_first_from(t: Seq<char>, c: char, from: int)
    requires
        0 <= from <= t.len(),
    ensures
        from <= first_from(t, c, from) <= t.len(),
        first_from(t, c, from) < t.len() ==> t[first_from(t, c, from)] == c,
    decreases t.len() - from,
{
    if from < t.len() && t[from] != c {
        lemma_first_from(t, c, from + 1);
    }
}

/// Where the characters `q[k..]` are found in `t` taking, from position
/// `from` on, each at its first occurrence after the previous one; `None`
/// when one of them is missing.
pub open spec fn greedy_positions(q: Seq<char>, t: Seq<char>, k: int, from: int) -> Option<
    Seq<int>,
>
    decreases q.len() - k,
{
    if k < 0 || k >= q.len() {
        Some(seq![])
    } else {
        let p = first_from(t, q[k], from);
        if p >= t.len() {
            None
        } else {
            match greedy_positions(q, t, k + 1, p + 1) {
                Some(rest) => Some(seq![p] + rest),
                None => None,
            }
        }
    }
}

/// The characters skipped before the first match and between matches.
pub open spec fn gaps(ps: Seq<int>, prev: int) -> int
    decreases ps.len(),
{
    if ps.len() == 0 {
        0
    } else {
        (ps[0] - prev - 1) + gaps(ps.drop_first(), ps[0])
    }
}

/// The subsequence score of `query` in `target`, lower is better: 0 for an
/// empty query; otherwise, on the lowercased texts, the characters skipped
/// by the greedy match (capped at `i32::MAX`), or `None` when some query
/// character is missing.
pub open spec fn subsequence_score(query: Seq<char>, target: Seq<char>) -> Option<i32> {
    if query.len() == 0 {
        Some(0i32)
    } else {
        greedy_score(lowercase(query), lowercase(target))
    }
}

/// The characters that the greedy match of `q` in `t` skips (capped at
/// `i32::MAX`), or `None` when some character of `q` is missing.
pub open spec fn greedy_score(q: Seq<char>, t: Seq<char>) -> Option<i32> {
    match greedy_positions(q, t, 0, 0) {
        Some(ps) => Some(
            if gaps(ps, -1) > i32::MAX {
                i32::MAX
            } else {
                gaps(ps, -1) as i32
            },
        ),
        None => None,
    }
}

/// `subsequence_score` for ASCII texts, where lowercasing is ASCII
/// lowercasing: the case of either text does not matter.
pub open spec fn ascii_subsequence_score(query: Seq<char>, target: Seq<char>) -> Option<i32> {
    if query.len() == 0 {
        Some(0i32)
    } else {
        greedy_score(ascii_lowercase(query), ascii_lowercase(target))
    }
}

proof fn lemma_gaps_push(ps: Seq<int>, prev: int, p: int)
    ensures
        gaps(ps.push(p), prev) == gaps(ps, prev) + (p - (if ps.len() == 0 {
            prev
        } else {
            ps.last()
        }) - 1),
    decreases ps.len(),
{
    if ps.len() > 0 {
        assert(ps.push(p).drop_first() =~= ps.drop_first().push(p));
        assert(ps.push(p)[0] == ps[0]);
        lemma_gaps_push(ps.drop_first(), ps[0], p);
        if ps.len() > 1 {
            assert(ps.drop_first().last() == ps.last());
        }
        assert(gaps(ps.push(p), prev) == (ps[0] - prev - 1) + gaps(ps.drop_first().push(p), ps[0]));
        assert(gaps(ps, prev) == (ps[0] - prev - 1) + gaps(ps.drop_first(), ps[0]));
    } else {
        assert(ps.push(p).drop_first() =~= Seq::<int>::empty());
        assert(gaps(Seq::<int>::empty(), p) == 0);
        assert(gaps(ps, prev) == 0);
    }
}

proof fn lemma_greedy_step(q: Seq<char>, t: Seq<char>, k: int, from: int)
    requires
        0 <= k < q.len(),
        0 <= from <= t.len(),
        first_from(t, q[k], from) < t.len(),
    ensures
        greedy_positions(q, t, k, from) == (match greedy_positions(
            q,
            t,
            k + 1,
            first_from(t, q[k], from) + 1,
        ) {
            Some(rest) => Some(seq![first_from(t, q[k], from)] + rest),
            None => None,
        }),
{
}

/// How well `query` matches `target` as a subsequence (see
/// `subsequence_score`): lower is better, `None` when it does not match.
pub fn fuzzy_score(query: &str, target: &str) -> (r: Option<i32>)
    ensures
        r == subsequence_score(query@, target@),
        all_ascii(query@) && all_ascii(target@) ==> r == ascii_subsequence_score(query@, target@),
{
    if query.is_empty() {
        return Some(0);
    }
    let ql = chars_of(to_lowercase(query).as_str());
    let tl = chars_of(to_lowercase(target).as_str());
    let ghost q = ql@;
    let ghost t = tl@;
    let mut k: usize = 0;
    let mut from: usize = 0;
    let mut score: usize = 0;
    let ghost mut found: Seq<int> = seq![];
    while k < ql.len()
        invariant
            q == ql@,
            t == tl@,
            q == lowercase(query@),
            t == lowercase(target@),
            all_ascii(query@) && all_ascii(target@) ==> q == ascii_lowercase(query@) && t
                == ascii_lowercase(target@),
            query@.len() > 0,
            k <= q.len(),
            from <= t.len(),
            found.len() == k,
            k > 0 ==> from == found.last() + 1,
            k == 0 ==> from == 0,
            score == gaps(found, -1),
            score <= from,
            greedy_positions(q, t, 0, 0) == (match greedy_positions(q, t, k as int, from as int) {
                Some(rest) => Some(found + rest),
                None => None,
            }),
        decreases q.len() - k,
    {
        let c = ql[k];
        let mut p = from;
        proof {
            lemma_first_from(t, c, from as int);
        }
        while p < tl.len() && tl[p] != c
            invariant
                from <= p <= t.len(),
                t == tl@,
                first_from(t, c, from as int) == first_from(t, c, p as int),
            decreases t.len() - p,
        {
            p += 1;
        }
        if p >= tl.len() {
            proof {
                assert(first_from(t, q[k as int], from as int) >= t.len());
                assert(greedy_positions(q, t, k as int, from as int) is None);
                assert(greedy_positions(q, t, 0, 0) is None);
                assert(q == lowercase(query@));
                assert(t == lowercase(target@));
            }
            return None;
        }
        proof {
            lemma_greedy_step(q, t, k as int, from as int);
            lemma_gaps_push(found, -1, p as int);
            let old_found = found;
            found = found.push(p as int);
            match greedy_positions(q, t, k + 1, p + 1) {
                Some(rest) => {
                    assert(old_found + (seq![p as int] + rest) =~= found + rest);
                },
                None => {},
            }
        }
        score = score + (p - from);
        from = p + 1;
        k += 1;
    }
    proof {
        assert(found + Seq::<int>::empty() =~= found);
    }
    if score > 2147483647 {
        Some(2147483647)
    } else {
        Some(score as i32)
    }
}

/// Position of the first `\n` of `s`, or `s.len()`.
pub open spec fn line_end(s: Seq<char>) -> int {
    first_from(s, '\n', 0)
}

/// `line` without one trailing `\r`.
pub open spec fn strip_cr(line: Seq<char>) -> Seq<char> {
    if line.len() > 0 && line.last() == '\r' {
        line.drop_last()
    } else {
        line
    }
}

/// The lines of `s` as `str::lines` gives them: split at `\n`, a `\r`
/// before the `\n` dropped, no empty line after a final `\n`.
pub open spec fn lines_of(s: Seq<char>) -> Seq<Seq<char>>
    decreases s.len(),
{
    if s.len() == 0 {
        seq![]
    } else {
        let k = line_end(s);
        if k >= s.len() {
            seq![s]
        } else {
            proof {
                lemma_first_from(s, '\n', 0);
            }
            seq![strip_cr(s.take(k))] + lines_of(s.skip(k + 1))
        }
    }
}

/// The label shown for a note whose content has no text.
pub open spec fn empty_note_label() -> Seq<char> {
    seq!['(', 'n', 'o', 't', 'a', ' ', 'v', 'a', 'c', 'í', 'a', ')']
}

/// The first line of `lines` (from `j` on) that is not blank, trimmed.
pub open spec fn first_text_line(lines: Seq<Seq<char>>, j: int) -> Option<Seq<char>>
    decreases lines.len() - j,
{
    if j < 0 || j >= lines.len() {
        None
    } else if trim(lines[j]).len() > 0 {
        Some(trim(lines[j]))
    } else {
        first_text_line(lines, j + 1)
    }
}

/// How a note is shown in the candidate list: its first non-blank line,
/// trimmed, or "(nota vacía)".
pub open spec fn display_title_of(content: Seq<char>) -> Seq<char> {
    match first_text_line(lines_of(content), 0) {
        Some(l) => l,
        None => empty_note_label(),
    }
}

/// The lines of `s`, in order.
pub fn split_lines(s: &[char]) -> (r: Vec<Vec<char>>)
    ensures
        texts_of(r@) == lines_of(s@),
{
    let mut out: Vec<Vec<char>> = Vec::new();
    let mut i: usize = 0;
    let n = s.len();
    assert(s@.skip(0) =~= s@);
    assert(texts_of(out@) =~= Seq::<Seq<char>>::empty());
    assert(Seq::<Seq<char>>::empty() + lines_of(s@) =~= lines_of(s@));
    while i < n
        invariant
            n == s@.len(),
            i <= n,
            texts_of(out@) + lines_of(s@.skip(i as int)) == lines_of(s@),
        decreases n - i,
    {
        let ghost rest = s@.skip(i as int);
        let mut k = i;
        proof {
            lemma_first_from(rest, '\n', 0);
        }
        while k < n && s[k] != '\n'
            invariant
                i <= k <= n,
                n == s@.len(),
                rest == s@.skip(i as int),
                first_from(rest, '\n', 0) == first_from(rest, '\n', k - i),
            decreases n - k,
        {
            proof {
                assert(rest[k - i] == s@[k as int]);
            }
            k += 1;
        }
        proof {
            if k < n {
                assert(rest[k - i] == s@[k as int]);
            }
        }
        let mut line: Vec<char> = Vec::new();
        let mut m = i;
        while m < k
            invariant
                i <= m <= k <= n,
                n == s@.len(),
                line@ == s@.subrange(i as int, m as int),
            decreases k - m,
        {
            line.push(s[m]);
            m += 1;
            assert(line@ =~= s@.subrange(i as int, m as int));
        }
        let ghost before = texts_of(out@);
        if k < n {
            if line.len() > 0 && line[line.len() - 1] == '\r' {
                line.pop();
            }
            proof {
                assert(s@.subrange(i as int, k as int) =~= rest.take(k - i));
                assert(rest.skip(k - i + 1) =~= s@.skip(k + 1));
            }
            out.push(line);
            i = k + 1;
        } else {
            proof {
                assert(s@.subrange(i as int, k as int) =~= rest);
                assert(s@.skip(n as int) =~= Seq::<char>::empty());
            }
            out.push(line);
            i = n;
        }
        proof {
            assert(texts_of(out@) =~= before.push(out@.last()@));
        }
    }
    proof {
        assert(s@.skip(n as int) =~= Seq::<char>::empty());
        assert(texts_of(out@) + Seq::<Seq<char>>::empty() =~= texts_of(out@));
    }
    out
}

/// The character texts of a list of character vectors.
pub open spec fn texts_of(v: Seq<Vec<char>>) -> Seq<Seq<char>> {
    v.map_values(|l: Vec<char>| l@)
}

/// How a note is shown among the candidates (see `display_title_of`).
pub fn display_title(content: &str) -> (r: String)
    ensures
        r@ == display_title_of(content@),
{
    let lines = split_lines(chars_of(content).as_slice());
    let ghost ls = lines_of(content@);
    let mut j: usize = 0;
    while j < lines.len()
        invariant
            j <= lines@.len(),
            texts_of(lines@) == ls,
            ls == lines_of(content@),
            first_text_line(ls, 0) == first_text_line(ls, j as int),
        decreases lines@.len() - j,
    {
        proof {
            assert(ls[j as int] == lines@[j as int]@);
        }
        let t = trim_chars(lines[j].as_slice());
        if t.len() > 0 {
            return string_of(t.as_slice());
        }
        j += 1;
    }
    let label = string_of(&['(', 'n', 'o', 't', 'a', ' ', 'v', 'a', 'c', 'í', 'a', ')']);
    assert(label@ =~= empty_note_label());
    label
}

/// The lines `ls` joined with `\n`.
pub open spec fn join_lines(ls: Seq<Seq<char>>) -> Seq<char>
    decreases ls.len(),
{
    if ls.len() == 0 {
        seq![]
    } else if ls.len() == 1 {
        ls[0]
    } else {
        join_lines(ls.drop_last()) + seq!['\n'] + ls.last()
    }
}

/// The preview of a candidate: the first four lines of its content.
pub open spec fn preview_of(content: Seq<char>) -> Seq<char> {
    join_lines(lines_of(content).take(
        if lines_of(content).len() < 4 {
            lines_of(content).len() as int
        } else {
            4
        },
    ))
}

/// The first four lines of `content`, joined with `\n`.
pub fn preview(content: &str) -> (r: String)
    ensures
        r@ == preview_of(content@),
{
    let lines = split_lines(chars_of(content).as_slice());
    let ghost ls = lines_of(content@);
    let count: usize = if lines.len() < 4 {
        lines.len()
    } else {
        4
    };
    let mut out: Vec<char> = Vec::new();
    let mut j: usize = 0;
    while j < count
        invariant
            j <= count <= lines@.len(),
            texts_of(lines@) == ls,
            out@ == join_lines(ls.take(j as int)),
        decreases count - j,
    {
        let ghost prev = out@;
        if j > 0 {
            out.push('\n');
        }
        let mut m: usize = 0;
        let line = &lines[j];
        while m < line.len()
            invariant
                m <= line@.len(),
                out@ == (if j > 0 {
                    prev + seq!['\n']
                } else {
                    prev
                }) + line@.take(m as int),
            decreases line@.len() - m,
        {
            out.push(line[m]);
            m += 1;
            assert(out@ =~= (if j > 0 {
                prev + seq!['\n']
            } else {
                prev
            }) + line@.take(m as int));
        }
        proof {
            assert(line@.take(line@.len() as int) =~= line@);
            assert(ls[j as int] == line@);
            let tk = ls.take(j + 1);
            assert(tk.drop_last() =~= ls.take(j as int));
            if j == 0 {
                assert(out@ =~= join_lines(tk));
            } else {
                assert(out@ =~= join_lines(tk));
            }
        }
        j += 1;
    }
    string_of(out.as_slice())
}

/// `tags` joined with single spaces.
pub open spec fn join_spaces(tags: Seq<Seq<char>>) -> Seq<char>
    decreases tags.len(),
{
    if tags.len() == 0 {
        seq![]
    } else if tags.len() == 1 {
        tags[0]
    } else {
        join_spaces(tags.drop_last()) + seq![' '] + tags.last()
    }
}

/// The tags of a candidate as shown: `[a b c]`, or nothing without tags.
pub open spec fn tags_label_of(tags: Seq<Seq<char>>) -> Seq<char> {
    if tags.len() == 0 {
        seq![]
    } else {
        seq!['['] + join_spaces(tags) + seq![']']
    }
}

/// The tags label of a candidate (see `tags_label_of`).
pub fn tags_label(tags: &Vec<String>) -> (r: String)
    ensures
        r@ == tags_label_of(texts(tags@)),
{
    if tags.len() == 0 {
        return String::new();
    }
    let ghost ts = texts(tags@);
    let mut out: Vec<char> = Vec::new();
    out.push('[');
    let mut j: usize = 0;
    while j < tags.len()
        invariant
            j <= tags@.len(),
            ts == texts(tags@),
            out@ == seq!['['] + join_spaces(ts.take(j as int)),
        decreases tags@.len() - j,
    {
        let ghost prev = out@;
        if j > 0 {
            out.push(' ');
        }
        let t = chars_of(tags[j].as_str());
        let mut m: usize = 0;
        while m < t.len()
            invariant
                m <= t@.len(),
                out@ == (if j > 0 {
                    prev + seq![' ']
                } else {
                    prev
                }) + t@.take(m as int),
            decreases t@.len() - m,
        {
            out.push(t[m]);
            m += 1;
            assert(out@ =~= (if j > 0 {
                prev + seq![' ']
            } else {
                prev
            }) + t@.take(m as int));
        }
        proof {
            assert(t@.take(t@.len() as int) =~= t@);
            assert(ts[j as int] == t@);
            let tk = ts.take(j + 1);
            assert(tk.drop_last() =~= ts.take(j as int));
            assert(out@ =~= seq!['['] + join_spaces(tk));
        }
        j += 1;
    }
    out.push(']');
    assert(ts.take(ts.len() as int) =~= ts);
    string_of(out.as_slice())
}

/// A note offered for the typed `[[query`.
#[derive(Clone, Debug)]
pub struct LinkCandidate {
    pub id: String,
    pub title: String,
    pub display_title: String,
    pub tags_label: String,
    pub score: i32,
}

/// A candidate's texts and score.
pub type CandidateView = (Seq<char>, Seq<char>, Seq<char>, Seq<char>, i32);

impl View for LinkCandidate {
    type V = CandidateView;

    open spec fn view(&self) -> CandidateView {
        (self.id@, self.title@, self.display_title@, self.tags_label@, self.score)
    }
}

/// The notes whose display title matches
/// `query`, in list order.
pub open spec fn matching(notes: Seq<Note>, query: Seq<char>) -> Seq<CandidateView>
    decreases notes.len(),
{
    if notes.len() == 0 {
        seq![]
    } else {
        let rest = matching(notes.drop_last(), query);
        let n = notes.last();
        let shown = display_title_of(n.content@);
        match subsequence_score(query, shown) {
            Some(s) => rest.push((n.id@, n.title@, shown, tags_label_of(texts(n.tags@)), s)),
            None => rest,
        }
    }
}

/// Candidate order: lower score first, then display title.
pub open spec fn ranks_before(a: CandidateView, b: CandidateView) -> bool {
    a.4 < b.4 || (a.4 == b.4 && seq_lt(a.2, b.2))
}

/// The candidates offered for `query`: the matching notes ranked by
/// `ranks_before` (ties in list order), at most `MAX_CANDIDATES`.
pub open spec fn candidates_for(notes: Seq<Note>, query: Seq<char>) -> Seq<CandidateView> {
    let ranked = stable_sort(matching(notes, query), |a: CandidateView, b: CandidateView| ranks_before(a, b));
    if ranked.len() > MAX_CANDIDATES {
        ranked.take(MAX_CANDIDATES as int)
    } else {
        ranked
    }
}

fn candidate_less(a: &LinkCandidate, b: &LinkCandidate) -> (r: bool)
    ensures
        r == ranks_before(a@, b@),
{
    if a.score < b.score {
        true
    } else if a.score == b.score {
        seq_lt_exec(chars_of(a.display_title.as_str()).as_slice(), chars_of(b.display_title.as_str()).as_slice())
    } else {
        false
    }
}

/// The notes offered for the typed `query` (see `candidates_for`).
pub fn link_candidates(notes: &[Note], query: &str) -> (r: Vec<LinkCandidate>)
    ensures
        r@.map_values(|c: LinkCandidate| c@) == candidates_for(notes@, query@),
{
    let mut found: Vec<LinkCandidate> = Vec::new();
    let mut i: usize = 0;
    while i < notes.len()
        invariant
            i <= notes@.len(),
            found@.map_values(|c: LinkCandidate| c@) == matching(notes@.take(i as int), query@),
        decreases notes@.len() - i,
    {
        let n = &notes[i];
        let shown = display_title(n.content.as_str());
        let score = fuzzy_score(query, shown.as_str());
        proof {
            assert(notes@.take(i + 1).drop_last() =~= notes@.take(i as int));
        }
        match score {
            Some(s) => {
                let label = tags_label(&n.tags);
                found.push(
                    LinkCandidate {
                        id: n.id.clone(),
                        title: n.title.clone(),
                        display_title: shown,
                        tags_label: label,
                        score: s,
                    },
                );
            },
            None => {},
        }
        i += 1;
        assert(found@.map_values(|c: LinkCandidate| c@) =~= matching(notes@.take(i as int), query@));
    }
    assert(notes@.take(notes@.len() as int) =~= notes@);
    let ghost unsorted = found@;
    let by_rank = |a: &LinkCandidate, b: &LinkCandidate| -> (res: bool)
        ensures
            res == ranks_before(a@, b@),
        { candidate_less(a, b) };
    let ghost less = |a: LinkCandidate, b: LinkCandidate| ranks_before(a@, b@);
    let mut sorted = stable_sort_vec(found, &by_rank, Ghost(less));
    proof {
        let f = |c: LinkCandidate| c@;
        let less2 = |a: CandidateView, b: CandidateView| ranks_before(a, b);
        assert forall|a: LinkCandidate, b: LinkCandidate| #[trigger] less(a, b) == less2(f(a), f(b)) by {}
        lemma_stable_sort_map(unsorted, less, f, less2);
    }
    sorted.truncate(MAX_CANDIDATES);
    proof {
        let ranked = stable_sort(
            unsorted.map_values(|c: LinkCandidate| c@),
            |a: CandidateView, b: CandidateView| ranks_before(a, b),
        );
        assert(sorted@.map_values(|c: LinkCandidate| c@) =~= (if ranked.len() > MAX_CANDIDATES {
            ranked.take(MAX_CANDIDATES as int)
        } else {
            ranked
        }));
    }
    sorted
}

/// The selected row after Down (`down`) or Up among `count` candidates:
/// one further, kept within the list; Up stops at the first row.
pub fn move_selection(selected: usize, count: usize, down: bool) -> (r: usize)
    ensures
        down && count > 0 ==> r == if selected + 1 < count {
            selected + 1
        } else {
            (count - 1) as int
        },
        down && count == 0 ==> r == selected,
        !down ==> r == if selected > 0 {
            selected - 1
        } else {
            0
        },
{
    if down {
        if count > 0 {
            if selected < count - 1 {
                selected + 1
            } else {
                count - 1
            }
        } else {
            selected
        }
    } else if selected > 0 {
        selected - 1
    } else {
        0
    }
}

/// Candidate order is a strict weak order.
pub proof fn lemma_ranks_before_order()
    ensures
        strict_weak_order(|a: CandidateView, b: CandidateView| ranks_before(a, b)),
{
    let less = |a: CandidateView, b: CandidateView| ranks_before(a, b);
    assert forall|a: CandidateView| !#[trigger] less(a, a) by {
        lemma_seq_lt_irreflexive(a.2);
    }
    assert forall|a: CandidateView, b: CandidateView, c: CandidateView|
        #[trigger] less(a, b) && #[trigger] less(b, c) implies less(a, c) by {
        if a.4 == b.4 && b.4 == c.4 {
            lemma_seq_lt_transitive(a.2, b.2, c.2);
        }
    }
    assert forall|a: CandidateView, b: CandidateView, c: CandidateView|
        !#[trigger] less(a, b) && !#[trigger] less(b, c) implies !#[trigger] less(a, c) by {
        lemma_seq_lt_total(a.2, b.2);
        lemma_seq_lt_total(b.2, c.2);
        if a.4 == c.4 && seq_lt(a.2, c.2) {
            if a.4 == b.4 {
                if seq_lt(b.2, a.2) {
                    lemma_seq_lt_transitive(b.2, a.2, c.2);
                }
                if b.2 == a.2 {
                }
            }
            if b.4 == c.4 && seq_lt(c.2, b.2) {
                lemma_seq_lt_transitive(a.2, c.2, b.2);
            }
        }
    }
}

/// The candidates come best first (lower score, then display title), at
/// most `MAX_CANDIDATES` of them, each a matching note.
pub proof fn lemma_candidates_ranked(notes: Seq<Note>, query: Seq<char>)
    ensures
        sorted_by(candidates_for(notes, query), |a: CandidateView, b: CandidateView| ranks_before(a, b)),
        candidates_for(notes, query).len() <= MAX_CANDIDATES,
        forall|k: int|
            0 <= k < candidates_for(notes, query).len() ==> matching(notes, query).contains(
                #[trigger] candidates_for(notes, query)[k],
            ),
{
    let less = |a: CandidateView, b: CandidateView| ranks_before(a, b);
    lemma_ranks_before_order();
    let m = matching(notes, query);
    lemma_stable_sort_sorted(m, less);
    let ranked = stable_sort(m, less);
    let c = candidates_for(notes, query);
    assert forall|i: int, j: int| 0 <= i < j < c.len() implies !less(#[trigger] c[j], #[trigger] c[i]) by {
        assert(c[i] == ranked[i] && c[j] == ranked[j]);
    }
    assert forall|k: int| 0 <= k < c.len() implies m.contains(#[trigger] c[k]) by {
        assert(c[k] == ranked[k]);
        assert(ranked.contains(ranked[k]));
        vstd::seq_lib::to_multiset_contains(ranked, ranked[k]);
        vstd::seq_lib::to_multiset_contains(m, ranked[k]);
    }
}

/// Every entry of `matching` is made from one of the notes: its id and
/// title are that note's, its display title is taken from the note's
/// content and its tags label from the note's tags.
proof fn lemma_matching_from_notes(notes: Seq<Note>, query: Seq<char>, m: CandidateView)
    requires
        matching(notes, query).contains(m),
    ensures
        exists|j: int|
            0 <= j < notes.len() && (#[trigger] notes[j]).id@ == m.0 && notes[j].title@ == m.1
                && display_title_of(notes[j].content@) == m.2 && tags_label_of(texts(notes[j].tags@))
                == m.3,
    decreases notes.len(),
{
    let rest = notes.drop_last();
    let n = notes.last();
    let r = matching(rest, query);
    let i = choose|i: int| 0 <= i < matching(notes, query).len() && matching(notes, query)[i] == m;
    if i < r.len() {
        assert(r[i] == m);
        assert(r.contains(m));
        lemma_matching_from_notes(rest, query, m);
        let j = choose|j: int|
            0 <= j < rest.len() && (#[trigger] rest[j]).id@ == m.0 && rest[j].title@ == m.1
                && display_title_of(rest[j].content@) == m.2 && tags_label_of(texts(rest[j].tags@))
                == m.3;
        assert(notes[j] == rest[j]);
    } else {
        assert(notes[notes.len() - 1] == n);
    }
}

/// Each candidate offered is a note of the list: the candidate's id and
/// title are those of one note (the title is what a link inserts), its
/// display title is that note's first content line as shown, and its tags
/// label that note's tags.
pub proof fn lemma_candidates_are_notes(notes: Seq<Note>, query: Seq<char>, k: int)
    requires
        0 <= k < candidates_for(notes, query).len(),
    ensures
        exists|j: int|
            0 <= j < notes.len() && (#[trigger] notes[j]).id@ == candidates_for(notes, query)[k].0
                && notes[j].title@ == candidates_for(notes, query)[k].1 && display_title_of(
                notes[j].content@,
            ) == candidates_for(notes, query)[k].2 && tags_label_of(texts(notes[j].tags@))
                == candidates_for(notes, query)[k].3,
{
    lemma_candidates_ranked(notes, query);
    lemma_matching_from_notes(notes, query, candidates_for(notes, query)[k]);
}

} // verus!
