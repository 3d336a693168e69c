//! Stable sorting, stated as insertion sort: the order that `slice::sort_by`
//! leaves for a comparator that is a total preorder.
use vstd::prelude::*;

verus! {

/// Position at which a stable insertion puts `x` into `r`: after every
/// element that `x` does not strictly precede.
pub open spec fn insert_pos<T>(r: Seq<T>, x: T, less: spec_fn(T, T) -> bool) -> nat
    decreases r.len(),
{
    if r.len() == 0 {
        0
    } else if less(x, r[0]) {
        0
    } else {
        1 + insert_pos(r.drop_first(), x, less)
    }
}

/// `s` stably sorted by `less` (earlier elements stay first among equals).
pub open spec fn stable_sort<T>(s: Seq<T>, less: spec_fn(T, T) -> bool) -> Seq<T>
    decreases s.len(),
{
    if s.len() == 0 {
        seq![]
    } else {
        let r = stable_sort(s.drop_last(), less);
        r.insert(insert_pos(r, s.last(), less) as int, s.last())
    }
}

pub proof fn lemma_insert_pos_bound<T>(r: Seq<T>, x: T, less: spec_fn(T, T) -> bool)
    ensures
        insert_pos(r, x, less) <= r.len(),
    decreases r.len(),
{
    if r.len() > 0 && !less(x, r[0]) {
        lemma_insert_pos_bound(r.drop_first(), x, less);
    }
}

pub proof fn lemma_stable_sort_len<T>(s: Seq<T>, less: spec_fn(T, T) -> bool)
    ensures
        stable_sort(s, less).len() == s.len(),
    decreases s.len(),
{
    if s.len() > 0 {
        lemma_stable_sort_len(s.drop_last(), less);
        lemma_insert_pos_bound(stable_sort(s.drop_last(), less), s.last(), less);
    }
}

/// Stable sort of `v` by the strict order `less`, which `less_exec` computes.
pub(crate) fn stable_sort_vec<T, F: Fn(&T, &T) -> bool>(
    v: Vec<T>,
    less_exec: &F,
    Ghost(less): Ghost<spec_fn(T, T) -> bool>,
) -> (r: Vec<T>)
    requires
        forall|a: &T, b: &T| #[trigger] less_exec.requires((a, b)),
        forall|a: &T, b: &T, res: bool| less_exec.ensures((a, b), res) ==> res == less(*a, *b),
    ensures
        r@ == stable_sort(v@, less),
{
    let ghost all = v@;
    let mut r: Vec<T> = Vec::new();
    let mut count: usize = 0;
    for x in it: v
        invariant
            it.seq() == all,
            forall|a: &T, b: &T| #[trigger] less_exec.requires((a, b)),
            forall|a: &T, b: &T, res: bool| less_exec.ensures((a, b), res) ==> res == less(
                *a,
                *b,
            ),
            r@ == stable_sort(all.take(it.index() as int), less),
    {
        let ghost prefix = all.take(it.index() as int);
        let mut p: usize = 0;
        proof {
            lemma_stable_sort_len(prefix, less);
            assert(r@.skip(0) =~= r@);
        }
        while p < r.len() && !less_exec(&x, &r[p])
            invariant
                p <= r@.len(),
                forall|a: &T, b: &T| #[trigger] less_exec.requires((a, b)),
                forall|a: &T, b: &T, res: bool| less_exec.ensures((a, b), res) ==> res == less(
                    *a,
                    *b,
                ),
                insert_pos(r@, x, less) == p + insert_pos(r@.skip(p as int), x, less),
            decreases r@.len() - p,
        {
            proof {
                assert(r@.skip(p as int).drop_first() =~= r@.skip(p + 1));
                assert(r@.skip(p as int)[0] == r@[p as int]);
            }
            p += 1;
        }
        proof {
            if p < r@.len() {
                assert(r@.skip(p as int)[0] == r@[p as int]);
            }
            let next = all.take(it.index() + 1);
            assert(next.drop_last() =~= prefix);
            assert(next.last() == x);
        }
        r.insert(p, x);
    }
    proof {
        assert(all.take(all.len() as int) =~= all);
    }
    r
}

} // verus!

verus! {

/// Mapping every element through `f` does not move the insertion point,
/// when `less2` orders images as `less` orders the originals.
pub proof fn lemma_insert_pos_map<T, U>(
    r: Seq<T>,
    x: T,
    less: spec_fn(T, T) -> bool,
    f: spec_fn(T) -> U,
    less2: spec_fn(U, U) -> bool,
)
    requires
        forall|a: T, b: T| #[trigger] less(a, b) == less2(f(a), f(b)),
    ensures
        insert_pos(r.map_values(f), f(x), less2) == insert_pos(r, x, less),
    decreases r.len(),
{
    if r.len() > 0 {
        assert(r.map_values(f).drop_first() =~= r.drop_first().map_values(f));
        assert(less(x, r[0]) == less2(f(x), f(r[0])));
        lemma_insert_pos_map(r.drop_first(), x, less, f, less2);
    }
}

/// Sorting commutes with mapping through `f`, when `less2` orders images as
/// `less` orders the originals.
pub proof fn lemma_stable_sort_map<T, U>(
    s: Seq<T>,
    less: spec_fn(T, T) -> bool,
    f: spec_fn(T) -> U,
    less2: spec_fn(U, U) -> bool,
)
    requires
        forall|a: T, b: T| #[trigger] less(a, b) == less2(f(a), f(b)),
    ensures
        stable_sort(s.map_values(f), less2) == stable_sort(s, less).map_values(f),
    decreases s.len(),
{
    if s.len() > 0 {
        let r = stable_sort(s.drop_last(), less);
        assert(s.map_values(f).drop_last() =~= s.drop_last().map_values(f));
        lemma_stable_sort_map(s.drop_last(), less, f, less2);
        lemma_insert_pos_map(r, s.last(), less, f, less2);
        lemma_insert_pos_bound(r, s.last(), less);
        let p = insert_pos(r, s.last(), less);
        assert(r.insert(p as int, s.last()).map_values(f) =~= r.map_values(f).insert(
            p as int,
            f(s.last()),
        ));
    }
}

} // verus!

verus! {

/// `s` is ordered by `key`, largest first.
pub open spec fn sorted_desc_by<T>(s: Seq<T>, key: spec_fn(T) -> int) -> bool {
    forall|i: int, j: int| 0 <= i < j < s.len() ==> key(#[trigger] s[i]) >= key(#[trigger] s[j])
}

/// Everything before the insertion point does not follow `x`; the element at
/// the insertion point, if any, does.
pub proof fn lemma_insert_pos_facts<T>(r: Seq<T>, x: T, less: spec_fn(T, T) -> bool)
    ensures
        insert_pos(r, x, less) <= r.len(),
        forall|k: int| 0 <= k < insert_pos(r, x, less) ==> !less(x, #[trigger] r[k]),
        insert_pos(r, x, less) < r.len() ==> less(x, r[insert_pos(r, x, less) as int]),
    decreases r.len(),
{
    lemma_insert_pos_bound(r, x, less);
    if r.len() > 0 && !less(x, r[0]) {
        lemma_insert_pos_facts(r.drop_first(), x, less);
        let p = insert_pos(r, x, less);
        assert forall|k: int| 0 <= k < p implies !less(x, #[trigger] r[k]) by {
            if k > 0 {
                assert(r[k] == r.drop_first()[k - 1]);
            }
        }
        if p < r.len() {
            assert(r[p as int] == r.drop_first()[p - 1]);
        }
    }
}

/// Stably sorting by a key, largest first, orders the elements by that key
/// and keeps every element (as many times as it occurs).
pub proof fn lemma_stable_sort_desc<T>(
    s: Seq<T>,
    key: spec_fn(T) -> int,
    less: spec_fn(T, T) -> bool,
)
    requires
        forall|a: T, b: T| #[trigger] less(a, b) == (key(a) > key(b)),
    ensures
        sorted_desc_by(stable_sort(s, less), key),
        stable_sort(s, less).to_multiset() == s.to_multiset(),
        stable_sort(s, less).len() == s.len(),
    decreases s.len(),
{
    lemma_stable_sort_len(s, less);
    if s.len() == 0 {
        assert(stable_sort(s, less) =~= s);
    } else {
        let r = stable_sort(s.drop_last(), less);
        let x = s.last();
        lemma_stable_sort_desc(s.drop_last(), key, less);
        lemma_insert_pos_facts(r, x, less);
        let p = insert_pos(r, x, less) as int;
        let out = r.insert(p, x);
        assert(out == stable_sort(s, less));
        assert forall|i: int, j: int| 0 <= i < j < out.len() implies key(#[trigger] out[i]) >= key(
            #[trigger] out[j],
        ) by {
            if j < p {
                assert(out[i] == r[i] && out[j] == r[j]);
            } else if j == p {
                assert(out[i] == r[i]);
                assert(!less(x, r[i]));
            } else if i == p {
                assert(out[j] == r[j - 1]);
                assert(less(x, r[p]));
                if j - 1 > p {
                    assert(key(r[p]) >= key(r[j - 1]));
                }
            } else if i < p {
                assert(out[i] == r[i] && out[j] == r[j - 1]);
            } else {
                assert(out[i] == r[i - 1] && out[j] == r[j - 1]);
            }
        }
        vstd::seq_lib::to_multiset_insert(r, p, x);
        vstd::seq_lib::to_multiset_build(s.drop_last(), x);
        assert(s.drop_last().push(x) =~= s);
    }
}

} // verus!

verus! {

/// `less` is a strict weak order: irreflexive, transitive, and not
/// following is transitive too.
pub open spec fn strict_weak_order<T>(less: spec_fn(T, T) -> bool) -> bool {
    &&& forall|a: T| !#[trigger] less(a, a)
    &&& forall|a: T, b: T, c: T| #[trigger] less(a, b) && #[trigger] less(b, c) ==> less(a, c)
    &&& forall|a: T, b: T, c: T|
        !#[trigger] less(a, b) && !#[trigger] less(b, c) ==> !#[trigger] less(a, c)
}

/// No element is followed by one that `less` puts before it.
pub open spec fn sorted_by<T>(s: Seq<T>, less: spec_fn(T, T) -> bool) -> bool {
    forall|i: int, j: int| 0 <= i < j < s.len() ==> !less(#[trigger] s[j], #[trigger] s[i])
}

/// Stable sorting by a strict weak order sorts, and keeps every element.
pub proof fn lemma_stable_sort_sorted<T>(s: Seq<T>, less: spec_fn(T, T) -> bool)
    requires
        strict_weak_order(less),
    ensures
        sorted_by(stable_sort(s, less), less),
        stable_sort(s, less).to_multiset() == s.to_multiset(),
        stable_sort(s, less).len() == s.len(),
    decreases s.len(),
{
    lemma_stable_sort_len(s, less);
    if s.len() == 0 {
        assert(stable_sort(s, less) =~= s);
    } else {
        let r = stable_sort(s.drop_last(), less);
        let x = s.last();
        lemma_stable_sort_sorted(s.drop_last(), less);
        lemma_insert_pos_facts(r, x, less);
        let p = insert_pos(r, x, less) as int;
        let out = r.insert(p, x);
        assert(out == stable_sort(s, less));
        assert forall|i: int, j: int| 0 <= i < j < out.len() implies !less(
            #[trigger] out[j],
            #[trigger] out[i],
        ) by {
            if j < p {
                assert(out[i] == r[i] && out[j] == r[j]);
            } else if j == p {
                assert(out[i] == r[i]);
                assert(!less(x, r[i]));
            } else if i == p {
                assert(out[j] == r[j - 1]);
                assert(less(x, r[p]));
                if j - 1 > p {
                    assert(!less(r[j - 1], r[p]));
                    if less(r[j - 1], x) {
                        assert(less(r[j - 1], r[p]));
                    }
                }
                assert(!less(r[p], x));
            } else if i < p {
                assert(out[i] == r[i] && out[j] == r[j - 1]);
            } else {
                assert(out[i] == r[i - 1] && out[j] == r[j - 1]);
            }
        }
        vstd::seq_lib::to_multiset_insert(r, p, x);
        vstd::seq_lib::to_multiset_build(s.drop_last(), x);
        assert(s.drop_last().push(x) =~= s);
    }
}

} // verus!
