//! Splitting a sequence on a separator sequence, greedily from the left,
//! and joining pieces back — the common specification behind the byte-level
//! multipart handling and the character-level form parsing.

use vstd::prelude::*;

verus! {

/// The pieces of `s[i..]` split on `sep`, with `current` the piece under
/// construction. A separator shorter than one element never splits.
pub open spec fn split_on_from<T>(s: Seq<T>, sep: Seq<T>, i: int, current: Seq<T>) -> Seq<Seq<T>>
    decreases s.len() - i,
{
    if i < 0 || i >= s.len() {
        seq![current]
    } else if sep.len() >= 1 && i + sep.len() <= s.len() && s.subrange(i, i + sep.len()) == sep {
        seq![current] + split_on_from(s, sep, i + sep.len(), Seq::empty())
    } else {
        split_on_from(s, sep, i + 1, current.push(s[i]))
    }
}

/// The pieces of `s` split on every non-overlapping occurrence of `sep`,
/// greedily from the left; one piece more than there are occurrences.
pub open spec fn split_on<T>(s: Seq<T>, sep: Seq<T>) -> Seq<Seq<T>> {
    split_on_from(s, sep, 0, Seq::empty())
}

/// The pieces joined with `sep` between consecutive pieces.
pub open spec fn join_with<T>(pieces: Seq<Seq<T>>, sep: Seq<T>) -> Seq<T>
    decreases pieces.len(),
{
    if pieces.len() == 0 {
        Seq::empty()
    } else if pieces.len() == 1 {
        pieces[0]
    } else {
        join_with(pieces.drop_last(), sep) + sep + pieces.last()
    }
}

/// The position of the first occurrence of `pat` in `s` at or after `from`,
/// or `-1` when there is none.
pub open spec fn first_match_at<T>(s: Seq<T>, pat: Seq<T>, from: int) -> int
    decreases s.len() - from,
{
    if from < 0 || pat.len() < 1 || from + pat.len() > s.len() {
        -1
    } else if s.subrange(from, from + pat.len()) == pat {
        from
    } else {
        first_match_at(s, pat, from + 1)
    }
}

/// What a match position means.
pub proof fn lemma_first_match_props<T>(s: Seq<T>, pat: Seq<T>, from: int)
    requires
        from >= 0,
    ensures
        first_match_at(s, pat, from) == -1 || (from <= first_match_at(s, pat, from)
            && first_match_at(s, pat, from) + pat.len() <= s.len() && s.subrange(
            first_match_at(s, pat, from),
            first_match_at(s, pat, from) + pat.len(),
        ) == pat),
    decreases s.len() - from,
{
    if !(pat.len() < 1 || from + pat.len() > s.len()) && s.subrange(from, from + pat.len())
        != pat {
        lemma_first_match_props(s, pat, from + 1);
    }
}

} // verus!
