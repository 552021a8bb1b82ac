//! Whitespace-insensitive comparison of program output against the expected
//! output: both streams are tokenised on runs of ASCII whitespace and the
//! token sequences must be equal.

use vstd::prelude::*;
use crate::verdict::TestingResult;

verus! {

/// The characters that separate output tokens.
pub open spec fn is_ascii_ws(c: char) -> bool {
    c == ' ' || c == '\t' || c == '\n' || c == '\r' || c == '\u{c}'
}

/// The sequence of maximal runs of non-whitespace characters in `s`.
pub open spec fn ws_tokens(s: Seq<char>) -> Seq<Seq<char>>
    decreases s.len(),
{
    if s.len() == 0 {
        Seq::empty()
    } else {
        let c = s.last();
        let rest = ws_tokens(s.drop_last());
        if is_ascii_ws(c) {
            rest
        } else if s.len() >= 2 && !is_ascii_ws(s[s.len() - 2]) {
            rest.update(rest.len() - 1, rest.last().push(c))
        } else {
            rest.push(seq![c])
        }
    }
}

/// A string ending in a non-whitespace character has at least one token.
proof fn lemma_tokens_nonempty(s: Seq<char>)
    requires
        s.len() > 0,
        !is_ascii_ws(s.last()),
    ensures
        ws_tokens(s).len() > 0,
    decreases s.len(),
{
    if s.len() >= 2 && !is_ascii_ws(s[s.len() - 2]) {
        lemma_tokens_nonempty(s.drop_last());
    }
}

/// Scanning one whole token extends the token list by exactly that token:
/// if `s[start..j]` is all non-whitespace and a token boundary precedes
/// `start`, the tokens of `s[..j]` are the tokens of `s[..start]` plus the
/// run `s[start..j]`.
proof fn lemma_tokens_extend(s: Seq<char>, start: int, j: int)
    requires
        0 <= start < j <= s.len(),
        forall|k: int| start <= k < j ==> !is_ascii_ws(#[trigger] s[k]),
        start == 0 || is_ascii_ws(s[start - 1]),
    ensures
        ws_tokens(s.take(j)) =~~= ws_tokens(s.take(start)).push(s.subrange(start, j)),
    decreases j,
{
    let pre = s.take(j);
    assert(pre.drop_last() =~= s.take(j - 1));
    if j - 1 == start {
        // first character of the run: it opens a new token
        if start > 0 {
            assert(pre[pre.len() - 2] == s[start - 1]);
        }
        assert(s.subrange(start, j) =~= seq![s[start]]);
    } else {
        lemma_tokens_extend(s, start, j - 1);
        lemma_tokens_nonempty(s.take(j - 1));
        assert(pre[pre.len() - 2] == s[j - 2]);
        assert(!is_ascii_ws(s[j - 2]));
        assert(s.subrange(start, j - 1).push(s[j - 1]) =~= s.subrange(start, j));
    }
}

/// Whether `c` is an ASCII whitespace character, as executable code.
pub fn is_ascii_ws_char(c: char) -> (b: bool)
    ensures
        b == is_ascii_ws(c),
{
    c == ' ' || c == '\t' || c == '\n' || c == '\r' || c == '\u{c}'
}

/// Split a string into its whitespace-separated tokens.
pub fn whitespace_tokens(s: &str) -> (tokens: Vec<String>)
    ensures
        tokens@.map_values(|t: String| t@) =~~= ws_tokens(s@),
{
    let n = s.unicode_len();
    let mut tokens: Vec<String> = Vec::new();
    let mut i: usize = 0;
    while i < n
        invariant
            i <= n,
            n == s@.len(),
            tokens@.map_values(|t: String| t@) =~~= ws_tokens(s@.take(i as int)),
            i == 0 || i == n || is_ascii_ws(s@[i - 1]) || is_ascii_ws(s@[i as int]),
        decreases n - i,
    {
        let c = s.get_char(i);
        if is_ascii_ws_char(c) {
            proof {
                assert(s@.take(i + 1).drop_last() =~= s@.take(i as int));
            }
            i = i + 1;
        } else {
            let start = i;
            i = i + 1;
            while i < n && !is_ascii_ws_char(s.get_char(i))
                invariant
                    start < i <= n,
                    n == s@.len(),
                    forall|k: int| start <= k < i ==> !is_ascii_ws(#[trigger] s@[k]),
                decreases n - i,
            {
                i = i + 1;
            }
            let token = s.substring_char(start, i);
            tokens.push(String::from_str(token));
            proof {
                lemma_tokens_extend(s@, start as int, i as int);
                assert(tokens@.map_values(|t: String| t@) =~~= ws_tokens(s@.take(i as int)));
            }
        }
    }
    proof {
        assert(s@.take(n as int) =~= s@);
    }
    tokens
}

/// Compare two outputs token by token.
///
/// The result is `true` exactly when the two strings have the same
/// whitespace-separated tokens, so leading, trailing and inter-token
/// whitespace never affects the outcome.
pub fn outputs_match(actual: &str, expected: &str) -> (r: bool)
    ensures
        r == (ws_tokens(actual@) =~~= ws_tokens(expected@)),
{
    let a = whitespace_tokens(actual);
    let b = whitespace_tokens(expected);
    if a.len() != b.len() {
        proof {
            assert(ws_tokens(actual@).len() != ws_tokens(expected@).len());
        }
        return false;
    }
    let n = a.len();
    let mut i: usize = 0;
    while i < n
        invariant
            i <= n,
            n == a@.len() == b@.len(),
            a@.map_values(|t: String| t@) =~~= ws_tokens(actual@),
            b@.map_values(|t: String| t@) =~~= ws_tokens(expected@),
            forall|k: int| 0 <= k < i ==> a@[k]@ == b@[k]@,
        decreases n - i,
    {
        if a[i] != b[i] {
            proof {
                assert(ws_tokens(actual@)[i as int] != ws_tokens(expected@)[i as int]);
            }
            return false;
        }
        i = i + 1;
    }
    proof {
        assert(forall|k: int|
            0 <= k < ws_tokens(actual@).len() ==> ws_tokens(actual@)[k]
                =~= ws_tokens(expected@)[k]);
    }
    true
}

/// Judge one test run's captured output against the expected output.
pub fn judge_output(actual: &str, expected: &str) -> (r: TestingResult)
    ensures
        r == (if ws_tokens(actual@) =~~= ws_tokens(expected@) {
            TestingResult::Accepted
        } else {
            TestingResult::WrongAnswer
        }),
{
    if outputs_match(actual, expected) {
        TestingResult::Accepted
    } else {
        TestingResult::WrongAnswer
    }
}

/// Trailing whitespace never changes the token sequence.
pub proof fn lemma_trailing_ws_ignored(s: Seq<char>, c: char)
    requires
        is_ascii_ws(c),
    ensures
        ws_tokens(s.push(c)) == ws_tokens(s),
{
    assert(s.push(c).drop_last() =~= s);
}

} // verus!
