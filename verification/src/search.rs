//! Ranked note search: a fuzzy match on the title (skim's algorithm, through
//! fuzzy-matcher), a plain lowercase match on the title, the tags and the
//! content, and a density rule that keeps scattered content matches out.
use vstd::prelude::*;
use fuzzy_matcher::FuzzyMatcher;
use crate::note::Note;
use crate::order::{lemma_stable_sort_desc, lemma_stable_sort_map, sorted_desc_by, stable_sort, stable_sort_vec};
use crate::text::{byte_len, char_width, chars_of, contains, contains_exec, lemma_byte_len_take_step, lowercase, string_of, to_lowercase, trim, trim_chars};

verus! {

/// One ranked hit: the note's id and its score.
#[derive(Clone, Debug)]
pub struct SearchResult {
    pub note_id: String,
    pub score: i64,
}

impl View for SearchResult {
    type V = (Seq<char>, i64);

    open spec fn view(&self) -> (Seq<char>, i64) {
        (self.note_id@, self.score)
    }
}

/// How far apart the matched characters of a content match may lie: the span
/// they cover may not exceed this many times the query's length in bytes.
pub const MAX_SPAN_MULT: u64 = 3;

/// skim's fuzzy score of `pattern` in `choice` (`SkimMatcherV2::fuzzy_match`).
pub uninterp spec fn skim_score(choice: Seq<char>, pattern: Seq<char>) -> Option<i64>;

/// skim's fuzzy score of `pattern` in `choice` with the character positions
/// it matched (`SkimMatcherV2::fuzzy_indices`).
pub uninterp spec fn skim_positions(choice: Seq<char>, pattern: Seq<char>) -> Option<
    (i64, Seq<usize>),
>;

/// `SkimMatcherV2::default().fuzzy_match(choice, pattern)`. Stated: the
/// result is skim's score for these two texts; an empty pattern scores
/// `Some(0)`; a score is an `i32` widened (the matrix cells are `i32`).
#[verifier::external_body]
fn skim_fuzzy_match(choice: &str, pattern: &str) -> (r: Option<i64>)
    ensures
        r == skim_score(choice@, pattern@),
        pattern@.len() == 0 ==> r == Some(0i64),
        r matches Some(s) ==> i32::MIN <= s <= i32::MAX,
{
    fuzzy_matcher::skim::SkimMatcherV2::default().fuzzy_match(choice, pattern)
}

/// `SkimMatcherV2::default().fuzzy_indices(choice, pattern)`. Stated: the
/// result is skim's score and positions for these two texts; an empty
/// pattern gives `Some((0, []))`; a score is an `i32` widened.
#[verifier::external_body]
fn skim_fuzzy_indices(choice: &str, pattern: &str) -> (r: Option<(i64, Vec<usize>)>)
    ensures
        r is None <==> skim_positions(choice@, pattern@) is None,
        r matches Some((s, v)) ==> skim_positions(choice@, pattern@) == Some((s, v@)),
        r matches Some((s, v)) ==> i32::MIN <= s <= i32::MAX,
        r matches Some((s, v)) ==> (pattern@.len() == 0 ==> s == 0 && v@.len() == 0),
        r is None ==> pattern@.len() > 0,
{
    fuzzy_matcher::skim::SkimMatcherV2::default().fuzzy_indices(choice, pattern)
}

/// The better of two optional scores.
pub open spec fn best(a: Option<i64>, b: Option<i64>) -> Option<i64> {
    match (a, b) {
        (Some(x), Some(y)) => Some(if x >= y { x } else { y }),
        (Some(x), None) => Some(x),
        (None, y) => y,
    }
}

/// A content match is dense when the matched positions span at most
/// `MAX_SPAN_MULT` times the query's length in bytes.
pub open spec fn dense(positions: Seq<usize>, query_bytes: nat) -> bool {
    &&& positions.len() > 0
    &&& positions[0] <= positions.last()
    &&& positions.last() - positions[0] + 1 <= query_bytes * MAX_SPAN_MULT
}

/// The score of a note from what was found in it: a fuzzy title match counts
/// three times its score, else a plain title match 500; a tag match 400; a
/// dense fuzzy content match its score, else a plain content match 200. The
/// best of these wins; `None` when nothing matched.
pub open spec fn combine_score(
    title_fuzzy: Option<i64>,
    title_has: bool,
    tag_has: bool,
    content_fuzzy: Option<(i64, Seq<usize>)>,
    content_has: bool,
    query_bytes: nat,
) -> Option<i64> {
    let title: Option<i64> = match title_fuzzy {
        Some(s) => Some((3 * s) as i64),
        None => if title_has {
            Some(500i64)
        } else {
            None
        },
    };
    let tag: Option<i64> = if tag_has {
        Some(400i64)
    } else {
        None
    };
    let content: Option<i64> = match content_fuzzy {
        Some((s, positions)) => if dense(positions, query_bytes) {
            Some(s)
        } else if content_has {
            Some(200i64)
        } else {
            None
        },
        None => if content_has {
            Some(200i64)
        } else {
            None
        },
    };
    best(best(title, tag), content)
}

/// Some tag of `tags`, lowercased, contains `q`.
pub open spec fn some_tag_contains(tags: Seq<String>, q: Seq<char>) -> bool {
    exists|k: int| 0 <= k < tags.len() && contains(lowercase(#[trigger] tags[k]@), q)
}

/// The score of note `n` for the lowercased query `q`.
pub open spec fn note_score(n: Note, q: Seq<char>) -> Option<i64> {
    combine_score(
        skim_score(n.title@, q),
        contains(lowercase(n.title@), q),
        some_tag_contains(n.tags@, q),
        skim_positions(n.content@, q),
        contains(lowercase(n.content@), q),
        byte_len(q),
    )
}

/// The notes that match `q`, in list order, with their scores.
pub open spec fn scored(notes: Seq<Note>, q: Seq<char>) -> Seq<(Seq<char>, i64)>
    decreases notes.len(),
{
    if notes.len() == 0 {
        seq![]
    } else {
        let rest = scored(notes.drop_last(), q);
        match note_score(notes.last(), q) {
            Some(s) => rest.push((notes.last().id@, s)),
            None => rest,
        }
    }
}

/// Higher score first.
pub open spec fn higher_score(a: (Seq<char>, i64), b: (Seq<char>, i64)) -> bool {
    a.1 > b.1
}

/// The ids that `search_notes` returns: every id in list order for a blank
/// query, else the matching notes by descending score, ties in list order.
pub open spec fn search_ids(notes: Seq<Note>, q_raw: Seq<char>) -> Seq<Seq<char>> {
    let q = lowercase(trim(q_raw));
    if q.len() == 0 {
        notes.map_values(|n: Note| n.id@)
    } else {
        stable_sort(scored(notes, q), |a: (Seq<char>, i64), b: (Seq<char>, i64)| higher_score(a, b)).map_values(
            |p: (Seq<char>, i64)| p.0,
        )
    }
}

/// The score of one note from what the matcher and the lowercase comparisons
/// found (see `combine_score`).
pub fn combine(
    title_fuzzy: Option<i64>,
    title_has: bool,
    tag_has: bool,
    content_fuzzy: Option<(i64, Vec<usize>)>,
    content_has: bool,
    query: &[char],
) -> (r: Option<i64>)
    requires
        title_fuzzy matches Some(s) ==> i32::MIN <= s <= i32::MAX,
    ensures
        r == combine_score(
            title_fuzzy,
            title_has,
            tag_has,
            match content_fuzzy {
                Some((s, v)) => Some((s, v@)),
                None => None,
            },
            content_has,
            byte_len(query@),
        ),
{
    let query_bytes = byte_count(query);
    let mut best_score: Option<i64> = match title_fuzzy {
        Some(s) => Some(s * 3),
        None => if title_has {
            Some(500)
        } else {
            None
        },
    };
    if tag_has {
        best_score = match best_score {
            Some(p) => Some(if p >= 400 { p } else { 400 }),
            None => Some(400),
        };
    }
    let content: Option<i64> = match content_fuzzy {
        Some((s, positions)) => {
            let n = positions.len();
            let limit: u128 = query_bytes * 3;
            let is_dense = n > 0 && positions[0] <= positions[n - 1] && (positions[n - 1] as u128)
                - (positions[0] as u128) + 1 <= limit;
            if is_dense {
                Some(s)
            } else if content_has {
                Some(200)
            } else {
                None
            }
        },
        None => if content_has {
            Some(200)
        } else {
            None
        },
    };
    match content {
        Some(c) => match best_score {
            Some(p) => Some(if p >= c { p } else { c }),
            None => Some(c),
        },
        None => best_score,
    }
}

/// Number of bytes of the UTF-8 encoding of `s`.
fn byte_count(s: &[char]) -> (n: u128)
    ensures
        n == byte_len(s@),
        n <= 4 * s@.len(),
        n <= 4 * (usize::MAX as int),
{
    let mut n: u128 = 0;
    let mut i: usize = 0;
    while i < s.len()
        invariant
            i <= s@.len(),
            n == byte_len(s@.take(i as int)),
            n <= 4 * i,
        decreases s@.len() - i,
    {
        proof {
            lemma_byte_len_take_step(s@, i as int);
        }
        n = n + char_width(s[i]) as u128;
        i += 1;
    }
    assert(s@.take(s@.len() as int) =~= s@);
    n
}

/// Whether some tag, lowercased, contains `q`.
fn any_tag_contains(tags: &Vec<String>, q: &[char]) -> (r: bool)
    ensures
        r == some_tag_contains(tags@, q@),
{
    let mut i: usize = 0;
    while i < tags.len()
        invariant
            i <= tags@.len(),
            forall|k: int| 0 <= k < i ==> !contains(lowercase(#[trigger] tags@[k]@), q@),
        decreases tags@.len() - i,
    {
        let low = to_lowercase(tags[i].as_str());
        if contains_exec(chars_of(low.as_str()).as_slice(), q) {
            return true;
        }
        i += 1;
    }
    false
}

/// Whether `text`, lowercased, contains `q`.
fn lower_contains(text: &str, q: &[char]) -> (r: bool)
    ensures
        r == contains(lowercase(text@), q@),
{
    let low = to_lowercase(text);
    contains_exec(chars_of(low.as_str()).as_slice(), q)
}

/// The score of one note for the lowercased, non-empty query `q`.
fn score_note(note: &Note, q: &str, qc: &[char]) -> (r: Option<i64>)
    requires
        qc@ == q@,
    ensures
        r == note_score(*note, q@),
{
    let title_fuzzy = skim_fuzzy_match(note.title.as_str(), q);
    let title_has = match title_fuzzy {
        Some(_) => false,
        None => lower_contains(note.title.as_str(), qc),
    };
    let tag_has = any_tag_contains(&note.tags, qc);
    let content_fuzzy = skim_fuzzy_indices(note.content.as_str(), q);
    let content_has = lower_contains(note.content.as_str(), qc);
    combine(title_fuzzy, title_has, tag_has, content_fuzzy, content_has, qc)
}

/// The ids of the notes matching `q_raw`, best first. The query is trimmed
/// and lowercased; a blank query lists every note in order. Ties keep the
/// order of `notes`.
pub fn search_notes(notes: &[Note], q_raw: &str) -> (r: Vec<String>)
    ensures
        r@.map_values(|s: String| s@) == search_ids(notes@, q_raw@),
        trim(q_raw@).len() == 0 ==> r@.map_values(|s: String| s@) == notes@.map_values(
            |n: Note| n.id@,
        ),
{
    let trimmed = trim_chars(chars_of(q_raw).as_slice());
    let q = to_lowercase(string_of(trimmed.as_slice()).as_str());
    let qc = chars_of(q.as_str());
    proof {
        if trim(q_raw@).len() == 0 {
            assert(lowercase(trim(q_raw@)).len() == 0);
        }
    }
    if qc.len() == 0 {
        let mut ids: Vec<String> = Vec::new();
        let mut i: usize = 0;
        while i < notes.len()
            invariant
                i <= notes@.len(),
                ids@.len() == i,
                forall|k: int| 0 <= k < i ==> #[trigger] ids@[k]@ == notes@[k].id@,
            decreases notes@.len() - i,
        {
            ids.push(notes[i].id.clone());
            i += 1;
        }
        assert(ids@.map_values(|s: String| s@) =~= notes@.map_values(|n: Note| n.id@));
        return ids;
    }
    let mut results: Vec<SearchResult> = Vec::new();
    let mut i: usize = 0;
    while i < notes.len()
        invariant
            i <= notes@.len(),
            qc@ == q@,
            q@.len() > 0,
            results@.map_values(|x: SearchResult| x@) == scored(notes@.take(i as int), q@),
        decreases notes@.len() - i,
    {
        let score = score_note(&notes[i], q.as_str(), qc.as_slice());
        proof {
            assert(notes@.take(i + 1).drop_last() =~= notes@.take(i as int));
        }
        match score {
            Some(s) => {
                results.push(SearchResult { note_id: notes[i].id.clone(), score: s });
            },
            None => {},
        }
        i += 1;
        assert(results@.map_values(|x: SearchResult| x@) =~= scored(notes@.take(i as int), q@));
    }
    assert(notes@.take(notes@.len() as int) =~= notes@);
    let ghost unsorted = results@;
    let by_score = |a: &SearchResult, b: &SearchResult| -> (res: bool)
        ensures
            res == (a.score > b.score),
        { a.score > b.score };
    let ghost less = |a: SearchResult, b: SearchResult| a.score > b.score;
    let sorted = stable_sort_vec(results, &by_score, Ghost(less));
    proof {
        let f = |x: SearchResult| x@;
        let less2 = |a: (Seq<char>, i64), b: (Seq<char>, i64)| higher_score(a, b);
        assert forall|a: SearchResult, b: SearchResult| #[trigger] less(a, b) == less2(f(a), f(b)) by {}
        lemma_stable_sort_map(unsorted, less, f, less2);
    }
    let mut ids: Vec<String> = Vec::new();
    let mut j: usize = 0;
    while j < sorted.len()
        invariant
            j <= sorted@.len(),
            ids@.len() == j,
            forall|k: int| 0 <= k < j ==> #[trigger] ids@[k]@ == sorted@[k].note_id@,
        decreases sorted@.len() - j,
    {
        ids.push(sorted[j].note_id.clone());
        j += 1;
    }
    assert(ids@.map_values(|s: String| s@) =~= stable_sort(
        unsorted.map_values(|x: SearchResult| x@),
        |a: (Seq<char>, i64), b: (Seq<char>, i64)| higher_score(a, b),
    ).map_values(|p: (Seq<char>, i64)| p.0));
    ids
}

/// Every entry of `scored` names one of the notes.
pub proof fn lemma_scored_ids(notes: Seq<Note>, q: Seq<char>)
    ensures
        forall|k: int|
            0 <= k < scored(notes, q).len() ==> exists|j: int|
                0 <= j < notes.len() && (#[trigger] notes[j]).id@ == (#[trigger] scored(notes, q)[k]).0,
    decreases notes.len(),
{
    if notes.len() > 0 {
        let rest = notes.drop_last();
        lemma_scored_ids(rest, q);
        let sc = scored(notes, q);
        assert forall|k: int| 0 <= k < sc.len() implies exists|j: int|
            0 <= j < notes.len() && (#[trigger] notes[j]).id@ == (#[trigger] sc[k]).0 by {
            if k < scored(rest, q).len() {
                assert(sc[k] == scored(rest, q)[k]);
                let j = choose|j: int| 0 <= j < rest.len() && (#[trigger] rest[j]).id@ == scored(rest, q)[k].0;
                assert(notes[j] == rest[j]);
            } else {
                assert(sc[k].0 == notes.last().id@);
                assert(notes[notes.len() - 1] == notes.last());
            }
        }
    }
}

/// Every id that `search_notes` returns is the id of one of the notes.
pub proof fn lemma_search_ids_are_note_ids(notes: Seq<Note>, q_raw: Seq<char>, k: int)
    requires
        0 <= k < search_ids(notes, q_raw).len(),
    ensures
        exists|j: int| 0 <= j < notes.len() && (#[trigger] notes[j]).id@ == search_ids(notes, q_raw)[k],
{
    let q = lowercase(trim(q_raw));
    if q.len() == 0 {
        assert(notes[k].id@ == search_ids(notes, q_raw)[k]);
    } else {
        let sc = scored(notes, q);
        let less = |a: (Seq<char>, i64), b: (Seq<char>, i64)| higher_score(a, b);
        let key = |p: (Seq<char>, i64)| p.1 as int;
        assert forall|a: (Seq<char>, i64), b: (Seq<char>, i64)| #[trigger] less(a, b) == (key(a) > key(b)) by {}
        lemma_stable_sort_desc(sc, key, less);
        let sorted = stable_sort(sc, less);
        let e = sorted[k];
        assert(sorted.contains(e));
        vstd::seq_lib::to_multiset_contains(sorted, e);
        vstd::seq_lib::to_multiset_contains(sc, e);
        let i = choose|i: int| 0 <= i < sc.len() && sc[i] == e;
        lemma_scored_ids(notes, q);
        assert(search_ids(notes, q_raw)[k] == e.0);
        assert(sc[i].0 == e.0);
    }
}

/// The matches of a query come best first, and each matching note comes
/// exactly once, with its score.
pub proof fn lemma_ranked_results(notes: Seq<Note>, q: Seq<char>)
    ensures
        sorted_desc_by(
            stable_sort(scored(notes, q), |a: (Seq<char>, i64), b: (Seq<char>, i64)| higher_score(a, b)),
            |p: (Seq<char>, i64)| p.1 as int,
        ),
        stable_sort(scored(notes, q), |a: (Seq<char>, i64), b: (Seq<char>, i64)| higher_score(a, b)).to_multiset()
            == scored(notes, q).to_multiset(),
{
    let less = |a: (Seq<char>, i64), b: (Seq<char>, i64)| higher_score(a, b);
    let key = |p: (Seq<char>, i64)| p.1 as int;
    assert forall|a: (Seq<char>, i64), b: (Seq<char>, i64)| #[trigger] less(a, b) == (key(a) > key(b)) by {}
    lemma_stable_sort_desc(scored(notes, q), key, less);
}

/// A note with a tag, any of its tags, whose lowercase text contains the
/// query scores at least 400 (what a tag match is worth).
pub proof fn lemma_tag_match_scores(n: Note, q: Seq<char>, k: int)
    requires
        0 <= k < n.tags@.len(),
        contains(lowercase(n.tags@[k]@), q),
    ensures
        note_score(n, q) matches Some(s) && s >= 400,
{
    assert(some_tag_contains(n.tags@, q));
}

/// Every note that scores for `q` is among the scored notes, with its score.
proof fn lemma_scored_has(notes: Seq<Note>, q: Seq<char>, j: int)
    requires
        0 <= j < notes.len(),
        note_score(notes[j], q) is Some,
    ensures
        scored(notes, q).contains((notes[j].id@, note_score(notes[j], q)->0)),
    decreases notes.len(),
{
    let rest = notes.drop_last();
    let e = (notes[j].id@, note_score(notes[j], q)->0);
    if j == notes.len() - 1 {
        assert(notes.last() == notes[j]);
        let sc = scored(notes, q);
        assert(sc[sc.len() - 1] == e);
    } else {
        assert(rest[j] == notes[j]);
        lemma_scored_has(rest, q, j);
        let r = scored(rest, q);
        let i = choose|i: int| 0 <= i < r.len() && r[i] == e;
        match note_score(notes.last(), q) {
            Some(x) => {
                assert(scored(notes, q)[i] == e);
            },
            None => {},
        }
    }
}

/// A search finds every note one of whose tags, lowercased, contains the
/// trimmed and lowercased query, whichever tag of the note it is.
pub proof fn lemma_search_finds_tagged(notes: Seq<Note>, q_raw: Seq<char>, j: int, k: int)
    requires
        lowercase(trim(q_raw)).len() > 0,
        0 <= j < notes.len(),
        0 <= k < notes[j].tags@.len(),
        contains(lowercase(notes[j].tags@[k]@), lowercase(trim(q_raw))),
    ensures
        search_ids(notes, q_raw).contains(notes[j].id@),
{
    let q = lowercase(trim(q_raw));
    lemma_tag_match_scores(notes[j], q, k);
    lemma_scored_has(notes, q, j);
    let sc = scored(notes, q);
    let e = (notes[j].id@, note_score(notes[j], q)->0);
    let less = |a: (Seq<char>, i64), b: (Seq<char>, i64)| higher_score(a, b);
    let key = |p: (Seq<char>, i64)| p.1 as int;
    assert forall|a: (Seq<char>, i64), b: (Seq<char>, i64)| #[trigger] less(a, b) == (key(a) > key(b)) by {}
    lemma_stable_sort_desc(sc, key, less);
    let sorted = stable_sort(sc, less);
    vstd::seq_lib::to_multiset_contains(sc, e);
    vstd::seq_lib::to_multiset_contains(sorted, e);
    let i = choose|i: int| 0 <= i < sorted.len() && sorted[i] == e;
    let ids = search_ids(notes, q_raw);
    assert(ids[i] == e.0);
}

} // verus!
