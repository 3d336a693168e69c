//! The `#tag` grammar of note contents: a `#` followed by one or more of
//! `a-z A-Z 0-9 _ -`, taken greedily, scanning left to right without overlap.
use vstd::prelude::*;
use crate::text::{chars_of, lemma_seq_lt_total, lemma_seq_lt_transitive, seq_lt, seq_lt_exec, string_of};

verus! {

/// A character that may appear in a tag name.
pub open spec fn is_tag_char(c: char) -> bool {
    ('a' <= c && c <= 'z') || ('A' <= c && c <= 'Z') || ('0' <= c && c <= '9') || c == '_' || c
        == '-'
}

fn is_tag_char_exec(c: char) -> (r: bool)
    ensures
        r == is_tag_char(c),
{
    ('a' <= c && c <= 'z') || ('A' <= c && c <= 'Z') || ('0' <= c && c <= '9') || c == '_' || c
        == '-'
}

/// Length of the run of tag characters of `s` that starts at `j`.
pub open spec fn tag_run(s: Seq<char>, j: int) -> nat
    decreases s.len() - j,
{
    if 0 <= j < s.len() && is_tag_char(s[j]) {
        1 + tag_run(s, j + 1)
    } else {
        0
    }
}

/// A tag starts at `i`: a `#` directly followed by a tag character.
pub open spec fn tag_starts_at(s: Seq<char>, i: int) -> bool {
    0 <= i && i + 1 < s.len() && s[i] == '#' && is_tag_char(s[i + 1])
}

/// The tag names found in `s` from position `i` on, in order of appearance,
/// repeats included.
pub open spec fn tags_from(s: Seq<char>, i: int) -> Seq<Seq<char>>
    decreases s.len() - i,
{
    if i < 0 || i >= s.len() {
        seq![]
    } else if tag_starts_at(s, i) {
        let n = tag_run(s, i + 1);
        proof {
            lemma_tag_run_bound(s, i + 1);
        }
        seq![s.subrange(i + 1, i + 1 + n)] + tags_from(s, i + 1 + n)
    } else {
        tags_from(s, i + 1)
    }
}

/// Every tag name occurring in `s`, in order of appearance (repeats included).
pub open spec fn tag_matches(s: Seq<char>) -> Seq<Seq<char>> {
    tags_from(s, 0)
}

/// `v` is strictly increasing in code point order: sorted and without repeats.
pub open spec fn strictly_sorted(v: Seq<Seq<char>>) -> bool {
    forall|i: int, j: int| 0 <= i < j < v.len() ==> seq_lt(#[trigger] v[i], #[trigger] v[j])
}

/// `v` lists exactly the distinct elements of `all`, sorted ascending
/// (what `sort` followed by `dedup` leaves).
pub open spec fn sorted_dedup_of(v: Seq<Seq<char>>, all: Seq<Seq<char>>) -> bool {
    strictly_sorted(v) && v.to_set() == all.to_set()
}

pub proof fn lemma_tag_run_bound(s: Seq<char>, j: int)
    requires
        0 <= j <= s.len(),
    ensures
        j + tag_run(s, j) <= s.len(),
        forall|k: int| j <= k < j + tag_run(s, j) ==> is_tag_char(#[trigger] s[k]),
    decreases s.len() - j,
{
    if j < s.len() && is_tag_char(s[j]) {
        lemma_tag_run_bound(s, j + 1);
    }
}

/// Scans `s` for tags, in order of appearance.
fn scan_tags(s: &[char]) -> (r: Vec<Vec<char>>)
    ensures
        r@.len() == tag_matches(s@).len(),
        forall|k: int| 0 <= k < r@.len() ==> #[trigger] r@[k]@ == tag_matches(s@)[k],
{
    let n = s.len();
    let mut out: Vec<Vec<char>> = Vec::new();
    let ghost mut found: Seq<Seq<char>> = seq![];
    let mut i: usize = 0;
    while i < n
        invariant
            n == s@.len(),
            i <= n,
            found + tags_from(s@, i as int) == tag_matches(s@),
            out@.len() == found.len(),
            forall|k: int| 0 <= k < out@.len() ==> #[trigger] out@[k]@ == found[k],
        decreases n - i,
    {
        if s[i] == '#' && i + 1 < n && is_tag_char_exec(s[i + 1]) {
            let mut j = i + 1;
            while j < n && is_tag_char_exec(s[j])
                invariant
                    n == s@.len(),
                    i + 1 <= j <= n,
                    tag_run(s@, i + 1) == (j - (i + 1)) + tag_run(s@, j as int),
                    forall|k: int| i + 1 <= k < j ==> is_tag_char(#[trigger] s@[k]),
                decreases n - j,
            {
                j += 1;
            }
            let mut name: Vec<char> = Vec::new();
            let mut k = i + 1;
            while k < j
                invariant
                    i + 1 <= k <= j <= n,
                    n == s@.len(),
                    name@ == s@.subrange(i + 1, k as int),
                decreases j - k,
            {
                name.push(s[k]);
                k += 1;
                assert(name@ =~= s@.subrange(i + 1, k as int));
            }
            proof {
                let old_found = found;
                assert(tags_from(s@, i as int) == seq![s@.subrange(i + 1, j as int)] + tags_from(
                    s@,
                    j as int,
                ));
                found = found.push(name@);
                assert(found + tags_from(s@, j as int) =~= old_found + tags_from(s@, i as int));
            }
            out.push(name);
            i = j;
        } else {
            proof {
                assert(tags_from(s@, i as int) == tags_from(s@, i + 1));
            }
            i += 1;
        }
    }
    proof {
        assert(tags_from(s@, n as int) == Seq::<Seq<char>>::empty());
        assert(found =~= found + tags_from(s@, n as int));
    }
    out
}

/// Inserts `x` into the strictly sorted `v`, unless already there.
fn insert_sorted_unique(v: &mut Vec<Vec<char>>, x: Vec<char>)
    requires
        strictly_sorted(old(v)@.map_values(|t: Vec<char>| t@)),
    ensures
        strictly_sorted(final(v)@.map_values(|t: Vec<char>| t@)),
        final(v)@.map_values(|t: Vec<char>| t@).to_set() == old(v)@.map_values(
            |t: Vec<char>| t@,
        ).to_set().insert(x@),
{
    let ghost before = v@.map_values(|t: Vec<char>| t@);
    let mut p: usize = 0;
    while p < v.len() && seq_lt_exec(v[p].as_slice(), x.as_slice())
        invariant
            p <= v@.len(),
            v@.map_values(|t: Vec<char>| t@) == before,
            forall|k: int| 0 <= k < p ==> seq_lt(#[trigger] before[k], x@),
        decreases v@.len() - p,
    {
        p += 1;
    }
    if p < v.len() && seq_lt_exec(x.as_slice(), v[p].as_slice()) == false {
        // v[p] is neither below nor above x: it is x.
        proof {
            lemma_seq_lt_total(x@, before[p as int]);
            assert(before[p as int] == x@);
            assert(before.to_set().insert(x@) =~= before.to_set());
        }
        return ;
    }
    let ghost xv = x@;
    v.insert(p, x);
    proof {
        let after = v@.map_values(|t: Vec<char>| t@);
        assert(after =~= before.insert(p as int, xv));
        assert forall|i: int, j: int| 0 <= i < j < after.len() implies seq_lt(
            #[trigger] after[i],
            #[trigger] after[j],
        ) by {
            if j < p {
                assert(after[i] == before[i] && after[j] == before[j]);
            } else if j == p {
                assert(after[i] == before[i]);
            } else if i == p {
                assert(after[j] == before[j - 1]);
                if j - 1 > p {
                    assert(seq_lt(before[p as int], before[j - 1]));
                    lemma_seq_lt_transitive(xv, before[p as int], before[j - 1]);
                }
            } else if i < p {
                assert(after[i] == before[i] && after[j] == before[j - 1]);
            } else {
                assert(after[i] == before[i - 1] && after[j] == before[j - 1]);
            }
        }
        assert(after.to_set() =~= before.to_set().insert(xv)) by {
            assert forall|t: Seq<char>| after.to_set().contains(t) implies before.to_set().insert(
                xv,
            ).contains(t) by {
                let k = choose|k: int| 0 <= k < after.len() && after[k] == t;
                if k < p {
                    assert(before[k] == t);
                } else if k > p {
                    assert(before[k - 1] == t);
                }
            }
            assert forall|t: Seq<char>| before.to_set().insert(xv).contains(t) implies after.to_set().contains(
                t,
            ) by {
                if t == xv {
                    assert(after[p as int] == t);
                } else {
                    let k = choose|k: int| 0 <= k < before.len() && before[k] == t;
                    if k < p {
                        assert(after[k] == t);
                    } else {
                        assert(after[k + 1] == t);
                    }
                }
            }
        }
    }
}

/// The tag names of `content`, sorted ascending without repeats
/// (the captures of `#([a-zA-Z0-9_-]+)`, then `sort` and `dedup`).
pub fn extract_tag_names(content: &str) -> (r: Vec<String>)
    ensures
        sorted_dedup_of(r@.map_values(|t: String| t@), tag_matches(content@)),
{
    let chars = chars_of(content);
    let found = scan_tags(chars.as_slice());
    let mut sorted: Vec<Vec<char>> = Vec::new();
    let mut i: usize = 0;
    while i < found.len()
        invariant
            i <= found@.len(),
            found@.len() == tag_matches(content@).len(),
            forall|k: int| 0 <= k < found@.len() ==> #[trigger] found@[k]@ == tag_matches(
                content@,
            )[k],
            strictly_sorted(sorted@.map_values(|t: Vec<char>| t@)),
            sorted@.map_values(|t: Vec<char>| t@).to_set() == tag_matches(content@).take(
                i as int,
            ).to_set(),
        decreases found@.len() - i,
    {
        let item = found[i].clone();
        insert_sorted_unique(&mut sorted, item);
        proof {
            let m = tag_matches(content@);
            assert(m.take(i + 1) =~= m.take(i as int).push(m[i as int]));
            broadcast use vstd::seq_lib::group_seq_properties;
            assert(m.take(i + 1).to_set() =~= m.take(i as int).to_set().insert(m[i as int]));
        }
        i += 1;
    }
    let mut r: Vec<String> = Vec::new();
    let mut j: usize = 0;
    while j < sorted.len()
        invariant
            j <= sorted@.len(),
            r@.len() == j,
            forall|k: int| 0 <= k < j ==> #[trigger] r@[k]@ == sorted@[k]@,
        decreases sorted@.len() - j,
    {
        r.push(string_of(sorted[j].as_slice()));
        j += 1;
    }
    proof {
        let m = tag_matches(content@);
        assert(m.take(found@.len() as int) =~= m);
        assert(r@.map_values(|t: String| t@) =~= sorted@.map_values(|t: Vec<char>| t@));
    }
    r
}

} // verus!
