//! Unix paths held as text: joining, the last component, stem and extension,
//! with the meaning `std::path` gives them.
use vstd::prelude::*;
use crate::text::{chars_of, string_of};

verus! {

/// `dir.join(name)`: `name` alone when it is absolute or `dir` is empty,
/// otherwise `dir` and `name` with one `/` between them.
pub open spec fn join(dir: Seq<char>, name: Seq<char>) -> Seq<char> {
    if name.len() > 0 && name[0] == '/' {
        name
    } else if dir.len() == 0 {
        name
    } else if dir.last() == '/' {
        dir + name
    } else {
        dir + seq!['/'] + name
    }
}

/// Executable `join`.
pub fn join_exec(dir: &[char], name: &[char]) -> (r: Vec<char>)
    ensures
        r@ == join(dir@, name@),
{
    let mut r: Vec<char> = Vec::new();
    if name.len() > 0 && name[0] == '/' {
        r.extend_from_slice(name);
        return r;
    }
    if dir.len() > 0 {
        r.extend_from_slice(dir);
        if dir[dir.len() - 1] != '/' {
            r.push('/');
        }
    }
    r.extend_from_slice(name);
    r
}

/// Index of the last `c` in `s[..end]`, or -1.
pub open spec fn last_index_before(s: Seq<char>, c: char, end: int) -> int
    decreases end,
{
    if end <= 0 {
        -1
    } else if s[end - 1] == c {
        end - 1
    } else {
        last_index_before(s, c, end - 1)
    }
}

pub proof fn lemma_last_index_bounds(s: Seq<char>, c: char, end: int)
    requires
        0 <= end <= s.len(),
    ensures
        -1 <= last_index_before(s, c, end) < end,
        last_index_before(s, c, end) >= 0 ==> s[last_index_before(s, c, end)] == c,
    decreases end,
{
    if end > 0 && s[end - 1] != c {
        lemma_last_index_bounds(s, c, end - 1);
    }
}

pub fn last_index_before_exec(s: &[char], c: char, end: usize) -> (r: Option<usize>)
    requires
        end <= s@.len(),
    ensures
        match r {
            Some(k) => k == last_index_before(s@, c, end as int) && k < end && s@[k as int] == c,
            None => last_index_before(s@, c, end as int) == -1,
        },
{
    proof {
        lemma_last_index_bounds(s@, c, end as int);
    }
    let mut e = end;
    while e > 0 && s[e - 1] != c
        invariant
            e <= end <= s@.len(),
            last_index_before(s@, c, end as int) == last_index_before(s@, c, e as int),
        decreases e,
    {
        e -= 1;
    }
    if e == 0 {
        None
    } else {
        Some(e - 1)
    }
}

/// The last component of `p[..end]` that is neither empty nor `.`, if any
/// (how `Path::components` sees a Unix path).
pub open spec fn last_component_before(p: Seq<char>, end: int) -> Option<Seq<char>>
    decreases end + 1,
{
    if end < 0 || end > p.len() {
        None
    } else {
        let j = last_index_before(p, '/', end);
        proof {
            lemma_last_index_bounds(p, '/', end);
        }
        let seg = p.subrange(j + 1, end);
        if seg.len() > 0 && seg != seq!['.'] {
            Some(seg)
        } else if j < 0 {
            None
        } else {
            last_component_before(p, j)
        }
    }
}

/// `Path::file_name`: the last component, unless it is `..` or missing.
pub open spec fn file_name(p: Seq<char>) -> Option<Seq<char>> {
    match last_component_before(p, p.len() as int) {
        Some(c) => if c == seq!['.', '.'] {
            None
        } else {
            Some(c)
        },
        None => None,
    }
}

/// Position of the dot that splits a file name into stem and extension:
/// its last `.`, unless that is the first character (or there is none).
pub open spec fn ext_dot(name: Seq<char>) -> int {
    let k = last_index_before(name, '.', name.len() as int);
    if k <= 0 {
        -1
    } else {
        k
    }
}

/// `Path::file_stem`.
pub open spec fn file_stem(p: Seq<char>) -> Option<Seq<char>> {
    match file_name(p) {
        Some(n) => if ext_dot(n) < 0 {
            Some(n)
        } else {
            Some(n.take(ext_dot(n)))
        },
        None => None,
    }
}

/// `Path::extension`.
pub open spec fn extension(p: Seq<char>) -> Option<Seq<char>> {
    match file_name(p) {
        Some(n) => if ext_dot(n) < 0 {
            None
        } else {
            Some(n.skip(ext_dot(n) + 1))
        },
        None => None,
    }
}

fn copy_range(s: &[char], a: usize, b: usize) -> (r: Vec<char>)
    requires
        a <= b <= s@.len(),
    ensures
        r@ == s@.subrange(a as int, b as int),
{
    let mut r: Vec<char> = Vec::new();
    let mut i = a;
    while i < b
        invariant
            a <= i <= b <= s@.len(),
            r@ == s@.subrange(a as int, i as int),
        decreases b - i,
    {
        r.push(s[i]);
        i += 1;
        assert(r@ =~= s@.subrange(a as int, i as int));
    }
    r
}

fn is_dot(seg: &[char]) -> (r: bool)
    ensures
        r == (seg@ == seq!['.']),
{
    if seg.len() == 1 && seg[0] == '.' {
        assert(seg@ =~= seq!['.']);
        true
    } else {
        false
    }
}

/// Executable `file_name`.
pub fn file_name_exec(p: &[char]) -> (r: Option<Vec<char>>)
    ensures
        match r {
            Some(v) => file_name(p@) == Some(v@),
            None => file_name(p@) is None,
        },
{
    let mut end: usize = p.len();
    loop
        invariant
            end <= p@.len(),
            last_component_before(p@, p@.len() as int) == last_component_before(
                p@,
                end as int,
            ),
        decreases end,
    {
        let j = last_index_before_exec(p, '/', end);
        let start: usize = match j {
            Some(k) => k + 1,
            None => 0,
        };
        let seg = copy_range(p, start, end);
        if seg.len() > 0 && !is_dot(seg.as_slice()) {
            if seg.len() == 2 && seg[0] == '.' && seg[1] == '.' {
                assert(seg@ =~= seq!['.', '.']);
                return None;
            }
            proof {
                if seg@ == seq!['.', '.'] {
                    assert(seg@[0] == '.' && seg@[1] == '.');
                }
            }
            return Some(seg);
        }
        match j {
            None => {
                return None;
            },
            Some(k) => {
                end = k;
            },
        }
    }
}

/// Executable `ext_dot` on a file name.
fn ext_dot_exec(name: &[char]) -> (r: Option<usize>)
    ensures
        match r {
            Some(k) => k == ext_dot(name@) && 0 < k < name@.len() && name@[k as int] == '.',
            None => ext_dot(name@) == -1,
        },
{
    match last_index_before_exec(name, '.', name.len()) {
        Some(k) => if k == 0 {
            None
        } else {
            Some(k)
        },
        None => None,
    }
}

/// `Path::file_stem` of the path `path`, as text.
pub fn file_stem_of(path: &str) -> (r: Option<String>)
    ensures
        match r {
            Some(s) => file_stem(path@) == Some(s@),
            None => file_stem(path@) is None,
        },
{
    let p = chars_of(path);
    match file_name_exec(p.as_slice()) {
        Some(n) => {
            match ext_dot_exec(n.as_slice()) {
                None => Some(string_of(n.as_slice())),
                Some(k) => {
                    let stem = copy_range(n.as_slice(), 0, k);
                    assert(stem@ =~= n@.take(k as int));
                    Some(string_of(stem.as_slice()))
                },
            }
        },
        None => None,
    }
}

/// `Path::extension` of the path `path`, as characters.
pub fn extension_of(path: &[char]) -> (r: Option<Vec<char>>)
    ensures
        match r {
            Some(s) => extension(path@) == Some(s@),
            None => extension(path@) is None,
        },
{
    match file_name_exec(path) {
        Some(n) => {
            match ext_dot_exec(n.as_slice()) {
                None => None,
                Some(k) => {
                    let e = copy_range(n.as_slice(), k + 1, n.len());
                    assert(e@ =~= n@.skip(k + 1));
                    Some(e)
                },
            }
        },
        None => None,
    }
}

/// `Path::file_name` of the path `path`, as text.
pub fn file_name_of(path: &str) -> (r: Option<String>)
    ensures
        match r {
            Some(s) => file_name(path@) == Some(s@),
            None => file_name(path@) is None,
        },
{
    let p = chars_of(path);
    match file_name_exec(p.as_slice()) {
        Some(n) => Some(string_of(n.as_slice())),
        None => None,
    }
}

} // verus!
