//! Sequence combinators used to specify the relational tables: first match,
//! row filtering, column projection and summation, with the congruence and
//! induction lemmas the table proofs rely on.

use vstd::prelude::*;

verus! {

/// The first element of `s` satisfying `p`.
pub open spec fn find_first<T>(s: Seq<T>, p: spec_fn(T) -> bool) -> Option<T>
    decreases s.len(),
{
    if s.len() == 0 {
        None
    } else {
        let r = find_first(s.drop_last(), p);
        if r is Some {
            r
        } else if p(s.last()) {
            Some(s.last())
        } else {
            None
        }
    }
}

/// The elements of `s` satisfying `keep`, in order.
pub open spec fn filter_by<T>(s: Seq<T>, keep: spec_fn(T) -> bool) -> Seq<T>
    decreases s.len(),
{
    if s.len() == 0 {
        Seq::empty()
    } else {
        let rest = filter_by(s.drop_last(), keep);
        if keep(s.last()) {
            rest.push(s.last())
        } else {
            rest
        }
    }
}

/// The images under `f` of the elements of `s` satisfying `p`, in order.
pub open spec fn proj<T, U>(s: Seq<T>, p: spec_fn(T) -> bool, f: spec_fn(T) -> U) -> Seq<U>
    decreases s.len(),
{
    if s.len() == 0 {
        Seq::empty()
    } else {
        let rest = proj(s.drop_last(), p, f);
        if p(s.last()) {
            rest.push(f(s.last()))
        } else {
            rest
        }
    }
}

/// The sum of `f` over the elements of `s`.
pub open spec fn sum_by<T>(s: Seq<T>, f: spec_fn(T) -> int) -> int
    decreases s.len(),
{
    if s.len() == 0 {
        0
    } else {
        sum_by(s.drop_last(), f) + f(s.last())
    }
}

/// Unfolding step for a scan: the combinators on `s.take(k + 1)` against
/// `s.take(k)`.
pub proof fn lemma_take_step<T>(s: Seq<T>, k: int)
    requires
        0 <= k < s.len(),
    ensures
        s.take(k + 1).drop_last() =~= s.take(k),
        s.take(k + 1).last() == s[k],
{
}

/// A found element stays the result however the sequence grows.
pub proof fn lemma_find_first_extend<T>(s: Seq<T>, p: spec_fn(T) -> bool, k: int)
    requires
        0 <= k <= s.len(),
        find_first(s.take(k), p) is Some,
    ensures
        find_first(s, p) == find_first(s.take(k), p),
    decreases s.len() - k,
{
    if k < s.len() {
        lemma_take_step(s, k);
        lemma_find_first_extend(s, p, k + 1);
    } else {
        assert(s.take(k) =~= s);
    }
}

/// What a search result means: a hit satisfies `p` and occurs in `s`; a
/// miss means no element satisfies `p`.
pub proof fn lemma_find_first_props<T>(s: Seq<T>, p: spec_fn(T) -> bool)
    ensures
        find_first(s, p) matches Some(x) ==> p(x) && s.contains(x),
        find_first(s, p) is None ==> forall|i: int| 0 <= i < s.len() ==> !p(#[trigger] s[i]),
    decreases s.len(),
{
    if s.len() > 0 {
        lemma_find_first_props(s.drop_last(), p);
        if let Some(x) = find_first(s, p) {
            if find_first(s.drop_last(), p) is Some {
                assert(s.drop_last().contains(x));
                let i = choose|i: int| 0 <= i < s.len() - 1 && s.drop_last()[i] == x;
                assert(s[i] == x);
            } else {
                assert(s[s.len() - 1] == x);
            }
        } else {
            assert(forall|i: int|
                0 <= i < s.len() - 1 ==> s.drop_last()[i] == #[trigger] s[i]);
        }
    }
}

/// If an element satisfying `p` occurs in `s`, the search finds one.
pub proof fn lemma_find_first_some<T>(s: Seq<T>, p: spec_fn(T) -> bool, i: int)
    requires
        0 <= i < s.len(),
        p(s[i]),
    ensures
        find_first(s, p) is Some,
    decreases s.len(),
{
    if s.len() > 0 {
        if i < s.len() - 1 {
            assert(s.drop_last()[i] == s[i]);
            lemma_find_first_some(s.drop_last(), p, i);
        }
    }
}

/// Two pointwise `p`-and-`f`-equivalent sequences have the same projection.
pub proof fn lemma_proj_congruence<T, U>(
    s1: Seq<T>,
    s2: Seq<T>,
    p: spec_fn(T) -> bool,
    f: spec_fn(T) -> U,
)
    requires
        s1.len() == s2.len(),
        forall|i: int| 0 <= i < s1.len() ==> p(#[trigger] s1[i]) == p(#[trigger] s2[i]),
        forall|i: int| 0 <= i < s1.len() && p(#[trigger] s1[i]) ==> f(s1[i]) == f(#[trigger] s2[i]),
    ensures
        proj(s1, p, f) == proj(s2, p, f),
    decreases s1.len(),
{
    if s1.len() > 0 {
        assert(forall|i: int|
            0 <= i < s1.len() - 1 ==> s1.drop_last()[i] == #[trigger] s1[i]
                && s2.drop_last()[i] == #[trigger] s2[i]);
        lemma_proj_congruence(s1.drop_last(), s2.drop_last(), p, f);
    }
}

/// A sequence with no element satisfying `p` projects to nothing.
pub proof fn lemma_proj_none<T, U>(s: Seq<T>, p: spec_fn(T) -> bool, f: spec_fn(T) -> U)
    requires
        forall|i: int| 0 <= i < s.len() ==> !p(#[trigger] s[i]),
    ensures
        proj(s, p, f) =~= Seq::<U>::empty(),
    decreases s.len(),
{
    if s.len() > 0 {
        assert(forall|i: int| 0 <= i < s.len() - 1 ==> s.drop_last()[i] == #[trigger] s[i]);
        lemma_proj_none(s.drop_last(), p, f);
    }
}

/// Filtering away only rows that `p` does not select leaves the projection
/// unchanged.
pub proof fn lemma_proj_filter<T, U>(
    s: Seq<T>,
    keep: spec_fn(T) -> bool,
    p: spec_fn(T) -> bool,
    f: spec_fn(T) -> U,
)
    requires
        forall|i: int| 0 <= i < s.len() && p(#[trigger] s[i]) ==> keep(s[i]),
    ensures
        proj(filter_by(s, keep), p, f) == proj(s, p, f),
    decreases s.len(),
{
    if s.len() > 0 {
        assert(forall|i: int| 0 <= i < s.len() - 1 ==> s.drop_last()[i] == #[trigger] s[i]);
        lemma_proj_filter(s.drop_last(), keep, p, f);
        if keep(s.last()) {
            assert(filter_by(s, keep).drop_last() =~= filter_by(s.drop_last(), keep));
        }
    }
}

/// Every element of a filtered sequence passed the filter.
pub proof fn lemma_filter_all_keep<T>(s: Seq<T>, keep: spec_fn(T) -> bool)
    ensures
        forall|i: int|
            0 <= i < filter_by(s, keep).len() ==> keep(#[trigger] filter_by(s, keep)[i]),
    decreases s.len(),
{
    if s.len() > 0 {
        lemma_filter_all_keep(s.drop_last(), keep);
        if keep(s.last()) {
            assert(filter_by(s, keep).drop_last() =~= filter_by(s.drop_last(), keep));
        }
    }
}

/// Every element of a filtered sequence occurs in the original.
pub proof fn lemma_filter_contains<T>(s: Seq<T>, keep: spec_fn(T) -> bool)
    ensures
        forall|i: int|
            0 <= i < filter_by(s, keep).len() ==> s.contains(#[trigger] filter_by(s, keep)[i]),
    decreases s.len(),
{
    if s.len() > 0 {
        lemma_filter_contains(s.drop_last(), keep);
        assert(forall|x: T| s.drop_last().contains(x) ==> s.contains(x)) by {
            assert(forall|i: int|
                0 <= i < s.len() - 1 ==> s.drop_last()[i] == #[trigger] s[i]);
        }
        if keep(s.last()) {
            assert(filter_by(s, keep).drop_last() =~= filter_by(s.drop_last(), keep));
            assert(s.contains(s.last()));
        }
    }
}

/// Filtering away only rows that a search does not select leaves the search
/// unchanged.
pub proof fn lemma_find_first_filter<T>(
    s: Seq<T>,
    keep: spec_fn(T) -> bool,
    p: spec_fn(T) -> bool,
)
    requires
        forall|i: int| 0 <= i < s.len() && p(#[trigger] s[i]) ==> keep(s[i]),
    ensures
        find_first(filter_by(s, keep), p) == find_first(s, p),
    decreases s.len(),
{
    if s.len() > 0 {
        assert(forall|i: int| 0 <= i < s.len() - 1 ==> s.drop_last()[i] == #[trigger] s[i]);
        lemma_find_first_filter(s.drop_last(), keep, p);
        if keep(s.last()) {
            assert(filter_by(s, keep).drop_last() =~= filter_by(s.drop_last(), keep));
        }
    }
}


/// Appending one element: how each combinator unfolds.
pub proof fn lemma_proj_push<T, U>(s: Seq<T>, x: T, p: spec_fn(T) -> bool, f: spec_fn(T) -> U)
    ensures
        proj(s.push(x), p, f) == if p(x) {
            proj(s, p, f).push(f(x))
        } else {
            proj(s, p, f)
        },
{
    assert(s.push(x).drop_last() =~= s);
}

/// Appending one element to a sum.
pub proof fn lemma_sum_push<T>(s: Seq<T>, x: T, f: spec_fn(T) -> int)
    ensures
        sum_by(s.push(x), f) == sum_by(s, f) + f(x),
{
    assert(s.push(x).drop_last() =~= s);
}

/// Appending one element to a search.
pub proof fn lemma_find_first_push<T>(s: Seq<T>, x: T, p: spec_fn(T) -> bool)
    ensures
        find_first(s.push(x), p) == if find_first(s, p) is Some {
            find_first(s, p)
        } else if p(x) {
            Some(x)
        } else {
            None::<T>
        },
{
    assert(s.push(x).drop_last() =~= s);
}

/// A sequence with no element satisfying `p` yields no hit.
pub proof fn lemma_find_first_none<T>(s: Seq<T>, p: spec_fn(T) -> bool)
    requires
        forall|i: int| 0 <= i < s.len() ==> !p(#[trigger] s[i]),
    ensures
        find_first(s, p) is None,
    decreases s.len(),
{
    if s.len() > 0 {
        assert(forall|i: int| 0 <= i < s.len() - 1 ==> s.drop_last()[i] == #[trigger] s[i]);
        lemma_find_first_none(s.drop_last(), p);
    }
}

/// Two sequences equal on and about the rows `p` selects have the same
/// search result.
pub proof fn lemma_find_first_congruence<T>(s1: Seq<T>, s2: Seq<T>, p: spec_fn(T) -> bool)
    requires
        s1.len() == s2.len(),
        forall|i: int| 0 <= i < s1.len() ==> p(#[trigger] s1[i]) == p(#[trigger] s2[i]),
        forall|i: int| 0 <= i < s1.len() && p(#[trigger] s1[i]) ==> s1[i] == #[trigger] s2[i],
    ensures
        find_first(s1, p) == find_first(s2, p),
    decreases s1.len(),
{
    if s1.len() > 0 {
        assert(forall|i: int|
            0 <= i < s1.len() - 1 ==> s1.drop_last()[i] == #[trigger] s1[i]
                && s2.drop_last()[i] == #[trigger] s2[i]);
        lemma_find_first_congruence(s1.drop_last(), s2.drop_last(), p);
    }
}

/// When `p` selects exactly the position `i`, updating that position to
/// another `p`-row moves the search onto the new row.
pub proof fn lemma_find_first_unique_update<T>(s: Seq<T>, i: int, x: T, p: spec_fn(T) -> bool)
    requires
        0 <= i < s.len(),
        p(s[i]),
        p(x),
        forall|j: int| 0 <= j < s.len() && j != i ==> !p(#[trigger] s[j]),
    ensures
        find_first(s.update(i, x), p) == Some(x),
        find_first(s, p) == Some(s[i]),
    decreases s.len(),
{
    let s2 = s.update(i, x);
    if i == s.len() - 1 {
        assert(forall|j: int| 0 <= j < s.len() - 1 ==> s.drop_last()[j] == #[trigger] s[j]);
        assert(forall|j: int| 0 <= j < s2.len() - 1 ==> s2.drop_last()[j] == #[trigger] s2[j]);
        lemma_find_first_none(s.drop_last(), p);
        assert(s2.drop_last() =~= s.drop_last());
        assert(s2.last() == x);
    } else {
        assert(s2.drop_last() =~= s.drop_last().update(i, x));
        assert(forall|j: int| 0 <= j < s.len() - 1 ==> s.drop_last()[j] == #[trigger] s[j]);
        lemma_find_first_unique_update(s.drop_last(), i, x, p);
        assert(!p(s.last()));
        assert(s2.last() == s.last());
    }
}

/// Filtering away only rows whose term is zero leaves the sum unchanged.
pub proof fn lemma_sum_filter<T>(s: Seq<T>, keep: spec_fn(T) -> bool, f: spec_fn(T) -> int)
    requires
        forall|i: int| 0 <= i < s.len() && !keep(#[trigger] s[i]) ==> f(s[i]) == 0,
    ensures
        sum_by(filter_by(s, keep), f) == sum_by(s, f),
    decreases s.len(),
{
    if s.len() > 0 {
        assert(forall|i: int| 0 <= i < s.len() - 1 ==> s.drop_last()[i] == #[trigger] s[i]);
        lemma_sum_filter(s.drop_last(), keep, f);
        if keep(s.last()) {
            assert(filter_by(s, keep).drop_last() =~= filter_by(s.drop_last(), keep));
        }
    }
}


/// A binary relation holding on all ordered pairs survives filtering.
pub proof fn lemma_filter_pairwise<T>(
    s: Seq<T>,
    keep: spec_fn(T) -> bool,
    r: spec_fn(T, T) -> bool,
)
    requires
        forall|i: int, j: int| 0 <= i < j < s.len() ==> r(#[trigger] s[i], #[trigger] s[j]),
    ensures
        forall|i: int, j: int|
            0 <= i < j < filter_by(s, keep).len() ==> r(
                #[trigger] filter_by(s, keep)[i],
                #[trigger] filter_by(s, keep)[j],
            ),
    decreases s.len(),
{
    if s.len() > 0 {
        let fs = filter_by(s, keep);
        let fd = filter_by(s.drop_last(), keep);
        assert(forall|i: int| 0 <= i < s.len() - 1 ==> s.drop_last()[i] == #[trigger] s[i]);
        lemma_filter_pairwise(s.drop_last(), keep, r);
        if keep(s.last()) {
            assert(fs.drop_last() =~= fd);
            assert(forall|i: int| 0 <= i < fd.len() ==> r(#[trigger] fd[i], s.last())) by {
                lemma_filter_contains(s.drop_last(), keep);
                assert forall|i: int| 0 <= i < fd.len() implies r(#[trigger] fd[i], s.last()) by {
                    assert(s.drop_last().contains(fd[i]));
                    let k = choose|k: int| 0 <= k < s.len() - 1 && s.drop_last()[k] == fd[i];
                    assert(r(s[k], s[s.len() - 1]));
                };
            }
            assert(forall|i: int, j: int|
                0 <= i < j < fs.len() ==> r(#[trigger] fs[i], #[trigger] fs[j])) by {
                assert(forall|i: int| 0 <= i < fd.len() ==> #[trigger] fs[i] == fd[i]);
                assert(fs[fs.len() - 1] == s.last());
            }
        }
    }
}


/// Every projected value comes from some selected row.
pub proof fn lemma_proj_membership<T, U>(s: Seq<T>, p: spec_fn(T) -> bool, f: spec_fn(T) -> U, k: int)
    requires
        0 <= k < proj(s, p, f).len(),
    ensures
        exists|i: int| 0 <= i < s.len() && p(#[trigger] s[i]) && f(s[i]) == proj(s, p, f)[k],
    decreases s.len(),
{
    if s.len() > 0 {
        let ps = proj(s, p, f);
        let pd = proj(s.drop_last(), p, f);
        assert(forall|i: int| 0 <= i < s.len() - 1 ==> s.drop_last()[i] == #[trigger] s[i]);
        if p(s.last()) && k == ps.len() - 1 {
            assert(p(s[s.len() - 1]) && f(s[s.len() - 1]) == ps[k]);
        } else {
            lemma_proj_membership(s.drop_last(), p, f, k);
            let i = choose|i: int|
                0 <= i < s.len() - 1 && p(#[trigger] s.drop_last()[i]) && f(s.drop_last()[i])
                    == pd[k];
            assert(p(s[i]) && f(s[i]) == ps[k]);
        }
    }
}

/// A binary relation holding on the images of all ordered row pairs holds
/// on the projection.
pub proof fn lemma_proj_pairwise<T, U>(
    s: Seq<T>,
    p: spec_fn(T) -> bool,
    f: spec_fn(T) -> U,
    r: spec_fn(U, U) -> bool,
)
    requires
        forall|i: int, j: int|
            0 <= i < j < s.len() && p(#[trigger] s[i]) && p(#[trigger] s[j]) ==> r(
                f(s[i]),
                f(s[j]),
            ),
    ensures
        forall|i: int, j: int|
            0 <= i < j < proj(s, p, f).len() ==> r(
                #[trigger] proj(s, p, f)[i],
                #[trigger] proj(s, p, f)[j],
            ),
    decreases s.len(),
{
    if s.len() > 0 {
        let ps = proj(s, p, f);
        let pd = proj(s.drop_last(), p, f);
        assert(forall|i: int| 0 <= i < s.len() - 1 ==> s.drop_last()[i] == #[trigger] s[i]);
        lemma_proj_pairwise(s.drop_last(), p, f, r);
        if p(s.last()) {
            assert(ps.drop_last() =~= pd);
            assert(forall|i: int| 0 <= i < pd.len() ==> r(#[trigger] pd[i], f(s.last()))) by {
                assert forall|i: int| 0 <= i < pd.len() implies r(#[trigger] pd[i], f(s.last())) by {
                    lemma_proj_membership(s.drop_last(), p, f, i);
                    let k = choose|k: int|
                        0 <= k < s.len() - 1 && p(#[trigger] s.drop_last()[k]) && f(
                            s.drop_last()[k],
                        ) == pd[i];
                    assert(r(f(s[k]), f(s[s.len() - 1])));
                };
            }
            assert(forall|i: int, j: int|
                0 <= i < j < ps.len() ==> r(#[trigger] ps[i], #[trigger] ps[j])) by {
                assert(forall|i: int| 0 <= i < pd.len() ==> #[trigger] ps[i] == pd[i]);
                assert(ps[ps.len() - 1] == f(s.last()));
            }
        }
    }
}


/// Pointwise-aligned predicates hit or miss together.
pub proof fn lemma_find_first_align<T>(
    s1: Seq<T>,
    s2: Seq<T>,
    p: spec_fn(T) -> bool,
    q: spec_fn(T) -> bool,
)
    requires
        s1.len() == s2.len(),
        forall|i: int| 0 <= i < s1.len() ==> p(#[trigger] s1[i]) == q(#[trigger] s2[i]),
    ensures
        find_first(s1, p) is Some <==> find_first(s2, q) is Some,
    decreases s1.len(),
{
    if s1.len() > 0 {
        assert(forall|i: int|
            0 <= i < s1.len() - 1 ==> s1.drop_last()[i] == #[trigger] s1[i]
                && s2.drop_last()[i] == #[trigger] s2[i]);
        lemma_find_first_align(s1.drop_last(), s2.drop_last(), p, q);
    }
}


/// A projection distributes over concatenation.
pub proof fn lemma_proj_concat<T, U>(
    s1: Seq<T>,
    s2: Seq<T>,
    p: spec_fn(T) -> bool,
    f: spec_fn(T) -> U,
)
    ensures
        proj(s1 + s2, p, f) == proj(s1, p, f) + proj(s2, p, f),
    decreases s2.len(),
{
    if s2.len() == 0 {
        assert(s1 + s2 =~= s1);
        assert(proj(s1, p, f) + proj(s2, p, f) =~= proj(s1, p, f));
    } else {
        lemma_proj_concat(s1, s2.drop_last(), p, f);
        assert((s1 + s2).drop_last() =~= s1 + s2.drop_last());
        assert((s1 + s2).last() == s2.last());
        if p(s2.last()) {
            assert(proj(s1, p, f) + proj(s2, p, f) =~= (proj(s1, p, f) + proj(
                s2.drop_last(),
                p,
                f,
            )).push(f(s2.last())));
        } else {
            assert(proj(s2, p, f) == proj(s2.drop_last(), p, f));
        }
    }
}

/// A search runs through a concatenation left to right.
pub proof fn lemma_find_first_concat<T>(s1: Seq<T>, s2: Seq<T>, p: spec_fn(T) -> bool)
    ensures
        find_first(s1 + s2, p) == if find_first(s1, p) is Some {
            find_first(s1, p)
        } else {
            find_first(s2, p)
        },
    decreases s2.len(),
{
    if s2.len() == 0 {
        assert(s1 + s2 =~= s1);
    } else {
        lemma_find_first_concat(s1, s2.drop_last(), p);
        assert((s1 + s2).drop_last() =~= s1 + s2.drop_last());
        assert((s1 + s2).last() == s2.last());
    }
}


/// When exactly one position satisfies `p`, the search finds it.
pub proof fn lemma_find_first_unique<T>(s: Seq<T>, i: int, p: spec_fn(T) -> bool)
    requires
        0 <= i < s.len(),
        p(s[i]),
        forall|j: int| 0 <= j < s.len() && j != i ==> !p(#[trigger] s[j]),
    ensures
        find_first(s, p) == Some(s[i]),
{
    lemma_find_first_unique_update(s, i, s[i], p);
    assert(s.update(i, s[i]) =~= s);
}

/// The image of a selected row occurs in the projection.
pub proof fn lemma_proj_contains_index<T, U>(
    s: Seq<T>,
    p: spec_fn(T) -> bool,
    f: spec_fn(T) -> U,
    j: int,
)
    requires
        0 <= j < s.len(),
        p(s[j]),
    ensures
        proj(s, p, f).contains(f(s[j])),
    decreases s.len(),
{
    let ps = proj(s, p, f);
    if j == s.len() - 1 {
        assert(ps.last() == f(s[j]));
        assert(ps[ps.len() - 1] == f(s[j]));
    } else {
        assert(s.drop_last()[j] == s[j]);
        lemma_proj_contains_index(s.drop_last(), p, f, j);
        let pd = proj(s.drop_last(), p, f);
        let m = choose|m: int| 0 <= m < pd.len() && pd[m] == f(s[j]);
        if p(s.last()) {
            assert(ps[m] == pd[m]);
        } else {
            assert(ps[m] == pd[m]);
        }
    }
}


/// A sum of all-zero terms is zero.
pub proof fn lemma_sum_zero<T>(s: Seq<T>, f: spec_fn(T) -> int)
    requires
        forall|i: int| 0 <= i < s.len() ==> f(#[trigger] s[i]) == 0,
    ensures
        sum_by(s, f) == 0,
    decreases s.len(),
{
    if s.len() > 0 {
        assert(forall|i: int| 0 <= i < s.len() - 1 ==> s.drop_last()[i] == #[trigger] s[i]);
        lemma_sum_zero(s.drop_last(), f);
    }
}


/// Two sequences equal on and about the rows `keep` selects filter to the
/// same thing.
pub proof fn lemma_filter_congruence<T>(s1: Seq<T>, s2: Seq<T>, keep: spec_fn(T) -> bool)
    requires
        s1.len() == s2.len(),
        forall|i: int| 0 <= i < s1.len() ==> keep(#[trigger] s1[i]) == keep(#[trigger] s2[i]),
        forall|i: int| 0 <= i < s1.len() && keep(#[trigger] s1[i]) ==> s1[i] == #[trigger] s2[i],
    ensures
        filter_by(s1, keep) == filter_by(s2, keep),
    decreases s1.len(),
{
    if s1.len() > 0 {
        assert(forall|i: int|
            0 <= i < s1.len() - 1 ==> s1.drop_last()[i] == #[trigger] s1[i]
                && s2.drop_last()[i] == #[trigger] s2[i]);
        lemma_filter_congruence(s1.drop_last(), s2.drop_last(), keep);
    }
}

} // verus!
