//! Parsing of URL-encoded form bodies and of the login cookie.

use vstd::prelude::*;
use crate::compare::is_ascii_ws;
use crate::compare::is_ascii_ws_char;
use crate::text::split_char;
use crate::text::split_str;
use crate::text::str_eq;
use crate::store::StoreError;

verus! {

/// The key–value pairs of a form body: pieces between `&`, each split at
/// its single `=`; pieces without exactly one `=` are skipped.
pub open spec fn form_pairs_of(parts: Seq<Seq<char>>) -> Seq<(Seq<char>, Seq<char>)>
    decreases parts.len(),
{
    if parts.len() == 0 {
        Seq::empty()
    } else {
        let rest = form_pairs_of(parts.drop_last());
        let kv = split_char(parts.last(), '=');
        if kv.len() == 2 {
            rest.push((kv[0], kv[1]))
        } else {
            rest
        }
    }
}

/// The pairs denoted by a whole form body.
pub open spec fn form_pairs(body: Seq<char>) -> Seq<(Seq<char>, Seq<char>)> {
    form_pairs_of(split_char(body, '&'))
}

/// Parse a form body of `key=value` pieces separated by `&`, in order.
pub fn parse_body(body: &str) -> (r: Vec<(String, String)>)
    ensures
        r@.map_values(|p: (String, String)| (p.0@, p.1@)) == form_pairs(body@),
{
    let parts = split_str(body, '&');
    let ghost views = parts@.map_values(|p: String| p@);
    let n = parts.len();
    let mut out: Vec<(String, String)> = Vec::new();
    let mut k: usize = 0;
    while k < n
        invariant
            k <= n,
            n == parts@.len(),
            views == parts@.map_values(|p: String| p@),
            views == split_char(body@, '&'),
            out@.map_values(|p: (String, String)| (p.0@, p.1@)) == form_pairs_of(
                views.take(k as int),
            ),
        decreases n - k,
    {
        proof {
            assert(views.take(k + 1).drop_last() =~= views.take(k as int));
            assert(views.take(k + 1).last() == views[k as int]);
        }
        let mut kv = split_str(parts[k].as_str(), '=');
        if kv.len() == 2 {
            proof {
                assert(kv@.map_values(|p: String| p@)[0] == kv@[0]@);
                assert(kv@.map_values(|p: String| p@)[1] == kv@[1]@);
            }
            let value = match kv.pop() {
                Some(v) => v,
                None => String::new(),
            };
            let key = match kv.pop() {
                Some(v) => v,
                None => String::new(),
            };
            out.push((key, value));
            proof {
                assert(out@.map_values(|p: (String, String)| (p.0@, p.1@)) =~= form_pairs_of(
                    views.take(k + 1),
                ));
            }
        }
        k = k + 1;
    }
    proof {
        assert(views.take(n as int) =~= views);
    }
    out
}

/// The value of the last pair carrying this key, as repeated map insertion
/// would leave it.
pub open spec fn last_form_value(pairs: Seq<(Seq<char>, Seq<char>)>, key: Seq<char>) -> Option<
    Seq<char>,
>
    decreases pairs.len(),
{
    if pairs.len() == 0 {
        None
    } else if pairs.last().0 == key {
        Some(pairs.last().1)
    } else {
        last_form_value(pairs.drop_last(), key)
    }
}

/// Look a form field up by key; the last occurrence wins.
pub fn form_value(pairs: &Vec<(String, String)>, key: &str) -> (r: Option<String>)
    ensures
        match r {
            Some(v) => last_form_value(
                pairs@.map_values(|p: (String, String)| (p.0@, p.1@)),
                key@,
            ) == Some(v@),
            None => last_form_value(
                pairs@.map_values(|p: (String, String)| (p.0@, p.1@)),
                key@,
            ) is None,
        },
{
    let ghost views = pairs@.map_values(|p: (String, String)| (p.0@, p.1@));
    let mut i: usize = pairs.len();
    proof {
        assert(views.take(i as int) =~= views);
    }
    while i > 0
        invariant
            i <= pairs@.len(),
            views == pairs@.map_values(|p: (String, String)| (p.0@, p.1@)),
            last_form_value(views, key@) == last_form_value(views.take(i as int), key@),
        decreases i,
    {
        i = i - 1;
        proof {
            assert(views.take(i + 1).drop_last() =~= views.take(i as int));
            assert(views.take(i + 1).last() == views[i as int]);
        }
        if str_eq(pairs[i].0.as_str(), key) {
            return Some(pairs[i].1.clone());
        }
    }
    proof {
        assert(views.take(0) =~= Seq::<(Seq<char>, Seq<char>)>::empty());
    }
    None
}

/// The string without leading and trailing ASCII whitespace.
pub open spec fn trim_ascii(s: Seq<char>) -> Seq<char>
    decreases s.len(),
{
    if s.len() == 0 {
        s
    } else if is_ascii_ws(s[0]) {
        trim_ascii(s.drop_first())
    } else if is_ascii_ws(s.last()) {
        trim_ascii(s.drop_last())
    } else {
        s
    }
}

/// Trim leading and trailing ASCII whitespace from a string.
pub fn trim_ascii_str(s: &str) -> (r: String)
    ensures
        r@ == trim_ascii(s@),
{
    let n = s.unicode_len();
    let mut lo: usize = 0;
    let mut hi: usize = n;
    proof {
        assert(s@.subrange(0, n as int) =~= s@);
    }
    while lo < hi && is_ascii_ws_char(s.get_char(lo))
        invariant
            lo <= hi <= n,
            n == s@.len(),
            trim_ascii(s@) == trim_ascii(s@.subrange(lo as int, hi as int)),
        decreases hi - lo,
    {
        proof {
            assert(s@.subrange(lo as int, hi as int).drop_first() =~= s@.subrange(
                lo + 1,
                hi as int,
            ));
        }
        lo = lo + 1;
    }
    while lo < hi && is_ascii_ws_char(s.get_char(hi - 1))
        invariant
            lo <= hi <= n,
            n == s@.len(),
            trim_ascii(s@) == trim_ascii(s@.subrange(lo as int, hi as int)),
            lo < hi ==> !is_ascii_ws(s@[lo as int]),
        decreases hi - lo,
    {
        proof {
            assert(s@.subrange(lo as int, hi as int).drop_last() =~= s@.subrange(
                lo as int,
                hi - 1,
            ));
        }
        hi = hi - 1;
    }
    let piece = s.substring_char(lo, hi);
    proof {
        if s@.subrange(lo as int, hi as int).len() > 0 {
            assert(!is_ascii_ws(s@.subrange(lo as int, hi as int)[0]));
            assert(!is_ascii_ws(s@.subrange(lo as int, hi as int).last()));
        }
    }
    String::from_str(piece)
}

/// The login token carried by a cookie header: the value of the first
/// `login_token=` pair among the `;`-separated, whitespace-trimmed pieces.
pub open spec fn token_of_parts(parts: Seq<Seq<char>>) -> Option<Seq<char>>
    decreases parts.len(),
{
    if parts.len() == 0 {
        None
    } else {
        let rest = token_of_parts(parts.drop_last());
        if rest is Some {
            rest
        } else {
            let kv = split_char(trim_ascii(parts.last()), '=');
            if kv.len() == 2 && kv[0] == "login_token"@ {
                Some(kv[1])
            } else {
                None
            }
        }
    }
}

/// The login token denoted by a whole cookie header.
pub open spec fn login_token_of(cookie: Seq<char>) -> Option<Seq<char>> {
    token_of_parts(split_char(cookie, ';'))
}

/// Read the login token out of a cookie header, if one is present.
pub fn login_token_from_cookie(cookie: &str) -> (r: Option<String>)
    ensures
        match r {
            Some(t) => login_token_of(cookie@) == Some(t@),
            None => login_token_of(cookie@) is None,
        },
{
    let parts = split_str(cookie, ';');
    let ghost views = parts@.map_values(|p: String| p@);
    let n = parts.len();
    let mut k: usize = 0;
    while k < n
        invariant
            k <= n,
            n == parts@.len(),
            views == parts@.map_values(|p: String| p@),
            views == split_char(cookie@, ';'),
            token_of_parts(views.take(k as int)) is None,
        decreases n - k,
    {
        proof {
            assert(views.take(k + 1).drop_last() =~= views.take(k as int));
            assert(views.take(k + 1).last() == views[k as int]);
        }
        let trimmed = trim_ascii_str(parts[k].as_str());
        let mut kv = split_str(trimmed.as_str(), '=');
        if kv.len() == 2 {
            proof {
                assert(kv@.map_values(|p: String| p@)[0] == kv@[0]@);
                assert(kv@.map_values(|p: String| p@)[1] == kv@[1]@);
            }
            if str_eq(kv[0].as_str(), "login_token") {
                let value = match kv.pop() {
                    Some(v) => v,
                    None => String::new(),
                };
                proof {
                    crate::seqtools::lemma_take_step(views, k as int);
                    assert(token_of_parts(views.take(k + 1)) == Some(value@));
                    lemma_token_extend(views, k + 1);
                }
                return Some(value);
            }
        }
        k = k + 1;
    }
    proof {
        assert(views.take(n as int) =~= views);
    }
    None
}

/// A token found in a prefix stays the token of the whole header.
proof fn lemma_token_extend(parts: Seq<Seq<char>>, k: int)
    requires
        0 <= k <= parts.len(),
        token_of_parts(parts.take(k)) is Some,
    ensures
        token_of_parts(parts) == token_of_parts(parts.take(k)),
    decreases parts.len() - k,
{
    if k < parts.len() {
        assert(parts.take(k + 1).drop_last() =~= parts.take(k));
        lemma_token_extend(parts, k + 1);
    } else {
        assert(parts.take(k) =~= parts);
    }
}

} // verus!

verus! {

/// Whether `pat` occurs in `s` at character position `i`.
fn str_match_at(s: &str, i: usize, pat: &str) -> (r: bool)
    requires
        i <= s@.len(),
    ensures
        r == (i + pat@.len() <= s@.len() && s@.subrange(i as int, i + pat@.len()) == pat@),
{
    let n = s.unicode_len();
    let m = pat.unicode_len();
    if m > n - i {
        return false;
    }
    let mut k: usize = 0;
    while k < m
        invariant
            k <= m,
            m == pat@.len(),
            n == s@.len(),
            i + m <= n,
            forall|b: int| 0 <= b < k ==> s@[i + b] == pat@[b],
        decreases m - k,
    {
        if s.get_char(i + k) != pat.get_char(k) {
            proof {
                assert(s@.subrange(i as int, i + pat@.len())[k as int] == s@[i + k]);
            }
            return false;
        }
        k = k + 1;
    }
    proof {
        assert(s@.subrange(i as int, i + pat@.len()) =~= pat@);
    }
    true
}

/// Find the first occurrence of `pat` in `s` at or after `from`.
fn find_sub(s: &str, pat: &str, from: usize) -> (r: Option<usize>)
    requires
        from <= s@.len(),
        pat@.len() >= 1,
    ensures
        match r {
            Some(i) => i == crate::split::first_match_at(s@, pat@, from as int),
            None => crate::split::first_match_at(s@, pat@, from as int) == -1,
        },
{
    let n = s.unicode_len();
    let mut i: usize = from;
    while i < n
        invariant
            from <= i <= n,
            n == s@.len(),
            pat@.len() >= 1,
            crate::split::first_match_at(s@, pat@, from as int) == crate::split::first_match_at(
                s@,
                pat@,
                i as int,
            ),
        decreases n - i,
    {
        if str_match_at(s, i, pat) {
            return Some(i);
        }
        i = i + 1;
    }
    None
}

/// Split `s` on every non-overlapping occurrence of the separator string,
/// greedily from the left.
pub fn split_str_on(s: &str, sep: &str) -> (pieces: Vec<String>)
    requires
        sep@.len() >= 1,
    ensures
        pieces@.map_values(|p: String| p@) == crate::split::split_on(s@, sep@),
{
    let n = s.unicode_len();
    let mut out: Vec<String> = Vec::new();
    let mut piece_start: usize = 0;
    let mut i: usize = 0;
    proof {
        assert(s@.subrange(0, 0) =~= Seq::<char>::empty());
        assert(out@.map_values(|p: String| p@) + crate::split::split_on_from(
            s@,
            sep@,
            0,
            Seq::empty(),
        ) =~= crate::split::split_on(s@, sep@));
    }
    while i < n
        invariant
            piece_start <= i <= n,
            n == s@.len(),
            sep@.len() >= 1,
            crate::split::split_on(s@, sep@) == out@.map_values(|p: String| p@)
                + crate::split::split_on_from(
                s@,
                sep@,
                i as int,
                s@.subrange(piece_start as int, i as int),
            ),
        decreases n - i,
    {
        if str_match_at(s, i, sep) {
            out.push(String::from_str(s.substring_char(piece_start, i)));
            i = i + sep.unicode_len();
            piece_start = i;
            proof {
                assert(s@.subrange(piece_start as int, i as int) =~= Seq::<char>::empty());
                assert(out@.map_values(|p: String| p@) + crate::split::split_on_from(
                    s@,
                    sep@,
                    i as int,
                    s@.subrange(piece_start as int, i as int),
                ) =~= crate::split::split_on(s@, sep@));
            }
        } else {
            proof {
                assert(s@.subrange(piece_start as int, i + 1) =~= s@.subrange(
                    piece_start as int,
                    i as int,
                ).push(s@[i as int]));
            }
            i = i + 1;
        }
    }
    out.push(String::from_str(s.substring_char(piece_start, n)));
    proof {
        assert(out@.map_values(|p: String| p@) =~= crate::split::split_on(s@, sep@));
    }
    out
}

/// Lines with leading empty lines removed.
pub open spec fn drop_leading_empty(lines: Seq<Seq<char>>) -> Seq<Seq<char>>
    decreases lines.len(),
{
    if lines.len() == 0 || lines[0].len() != 0 {
        lines
    } else {
        drop_leading_empty(lines.drop_first())
    }
}

/// Lines with trailing empty lines removed.
pub open spec fn drop_trailing_empty(lines: Seq<Seq<char>>) -> Seq<Seq<char>>
    decreases lines.len(),
{
    if lines.len() == 0 || lines.last().len() != 0 {
        lines
    } else {
        drop_trailing_empty(lines.drop_last())
    }
}

/// One multipart element folded into the collected pairs: its first
/// non-empty line is the part header; the lines after it, stripped of
/// trailing and further leading empty lines, joined with line feeds and
/// prefixed with one, are the content; the name is read from the header
/// between `name="` and the next quote. An element without a header or
/// without a name is skipped; a header whose quote never closes poisons
/// the whole body.
pub open spec fn element_entry(
    acc: Option<Seq<(Seq<char>, Seq<char>)>>,
    element: Seq<char>,
) -> Option<Seq<(Seq<char>, Seq<char>)>> {
    match acc {
        None => None,
        Some(list) => {
            let ls = drop_leading_empty(crate::sandbox::lines_of(element));
            if ls.len() == 0 {
                Some(list)
            } else {
                let header = ls[0];
                let content_lines = drop_leading_empty(drop_trailing_empty(ls.drop_first()));
                let content = seq!['\n'] + crate::split::join_with(content_lines, seq!['\n']);
                let idx = crate::split::first_match_at(header, "name=\""@, 0);
                if idx == -1 {
                    Some(list)
                } else {
                    let close = crate::split::first_match_at(header, seq!['"'], idx + 6);
                    if close == -1 {
                        None
                    } else {
                        Some(list.push((header.subrange(idx + 6, close), content)))
                    }
                }
            }
        },
    }
}

/// The collected pairs of all elements, in order.
pub open spec fn fold_elements(elements: Seq<Seq<char>>) -> Option<Seq<(Seq<char>, Seq<char>)>>
    decreases elements.len(),
{
    if elements.len() == 0 {
        Some(Seq::empty())
    } else {
        element_entry(fold_elements(elements.drop_last()), elements.last())
    }
}

/// The named parts of a multipart body whose first line is the boundary.
/// A body with no first line, or an empty boundary line, is unreadable.
pub open spec fn boundary_pairs(body: Seq<char>) -> Option<Seq<(Seq<char>, Seq<char>)>> {
    let lines = crate::sandbox::lines_of(body);
    if lines.len() == 0 || lines[0].len() == 0 {
        None
    } else {
        fold_elements(crate::split::split_on(body, lines[0]))
    }
}

} // verus!

verus! {

/// A poisoned fold never recovers.
proof fn lemma_fold_none_persists(elements: Seq<Seq<char>>, k: int)
    requires
        0 <= k <= elements.len(),
        fold_elements(elements.take(k)) is None,
    ensures
        fold_elements(elements) is None,
    decreases elements.len() - k,
{
    if k < elements.len() {
        assert(elements.take(k + 1).drop_last() =~= elements.take(k));
        lemma_fold_none_persists(elements, k + 1);
    } else {
        assert(elements.take(k) =~= elements);
    }
}

/// Parse a multipart body whose first line names the boundary: each piece
/// between boundaries contributes the field named in its header with the
/// lines below the header as its content. A body without a boundary line
/// is refused, as is a header whose name quote never closes.
pub fn parse_body_with_boundaries(body: &str) -> (r: Result<Vec<(String, String)>, StoreError>)
    ensures
        match r {
            Ok(pairs) => boundary_pairs(body@) == Some(
                pairs@.map_values(|p: (String, String)| (p.0@, p.1@)),
            ),
            Err(e) => boundary_pairs(body@) is None && e == StoreError::InvalidInput,
        },
{
    let lines = crate::sandbox::split_lines(body);
    if lines.len() == 0 {
        return Err(StoreError::InvalidInput);
    }
    let boundary = lines[0].as_str();
    proof {
        assert(lines@.map_values(|l: String| l@)[0] == lines@[0]@);
    }
    if boundary.unicode_len() == 0 {
        return Err(StoreError::InvalidInput);
    }
    let elements = split_str_on(body, boundary);
    let ghost el_views = elements@.map_values(|p: String| p@);
    let e_count = elements.len();
    let mut out: Vec<(String, String)> = Vec::new();
    let mut k: usize = 0;
    while k < e_count
        invariant
            k <= e_count,
            e_count == el_views.len(),
            el_views == elements@.map_values(|p: String| p@),
            el_views == crate::split::split_on(
                body@,
                crate::sandbox::lines_of(body@)[0],
            ),
            crate::sandbox::lines_of(body@).len() > 0,
            crate::sandbox::lines_of(body@)[0].len() > 0,
            fold_elements(el_views.take(k as int)) == Some(
                out@.map_values(|p: (String, String)| (p.0@, p.1@)),
            ),
        decreases e_count - k,
    {
        proof {
            assert(el_views.take(k + 1).drop_last() =~= el_views.take(k as int));
            assert(el_views.take(k + 1).last() == elements@[k as int]@);
        }
        let element = elements[k].as_str();
        let el_lines = crate::sandbox::split_lines(element);
        let ghost lv = el_lines@.map_values(|l: String| l@);
        let l_count = el_lines.len();
        let mut lo: usize = 0;
        proof {
            assert(lv.skip(0) =~= lv);
        }
        while lo < l_count && el_lines[lo].as_str().unicode_len() == 0
            invariant
                lo <= l_count,
                l_count == lv.len(),
                lv == el_lines@.map_values(|l: String| l@),
                drop_leading_empty(lv) == drop_leading_empty(lv.skip(lo as int)),
            decreases l_count - lo,
        {
            proof {
                assert(lv.skip(lo as int)[0] == el_lines@[lo as int]@);
                assert(lv.skip(lo as int).drop_first() =~= lv.skip(lo + 1));
            }
            lo = lo + 1;
        }
        let ghost ls = drop_leading_empty(lv);
        proof {
            if lo < l_count {
                assert(lv.skip(lo as int)[0] == el_lines@[lo as int]@);
            }
            assert(ls == lv.skip(lo as int));
        }
        if lo == l_count {
            // no header: the element contributes nothing
            k = k + 1;
            continue;
        }
        let header = el_lines[lo].as_str();
        proof {
            assert(lv.skip(lo as int)[0] == el_lines@[lo as int]@);
            assert(ls[0] == header@);
            assert(ls.drop_first() =~= lv.subrange(lo + 1, l_count as int));
        }
        // strip trailing, then further leading, empty lines of the content
        let mut hi: usize = l_count;
        while hi > lo + 1 && el_lines[hi - 1].as_str().unicode_len() == 0
            invariant
                lo + 1 <= hi <= l_count,
                l_count == lv.len(),
                lv == el_lines@.map_values(|l: String| l@),
                drop_trailing_empty(lv.subrange(lo + 1, l_count as int)) == drop_trailing_empty(
                    lv.subrange(lo + 1, hi as int),
                ),
            decreases hi,
        {
            proof {
                assert(lv.subrange(lo + 1, hi as int).last() == el_lines@[hi - 1]@);
                assert(lv.subrange(lo + 1, hi as int).drop_last() =~= lv.subrange(
                    lo + 1,
                    hi - 1,
                ));
            }
            hi = hi - 1;
        }
        proof {
            if hi > lo + 1 {
                assert(lv.subrange(lo + 1, hi as int).last() == el_lines@[hi - 1]@);
            }
            assert(drop_trailing_empty(lv.subrange(lo + 1, l_count as int)) == lv.subrange(
                lo + 1,
                hi as int,
            ));
        }
        let mut lo2: usize = lo + 1;
        while lo2 < hi && el_lines[lo2].as_str().unicode_len() == 0
            invariant
                lo + 1 <= lo2 <= hi <= l_count,
                l_count == lv.len(),
                lv == el_lines@.map_values(|l: String| l@),
                drop_leading_empty(lv.subrange(lo + 1, hi as int)) == drop_leading_empty(
                    lv.subrange(lo2 as int, hi as int),
                ),
            decreases hi - lo2,
        {
            proof {
                assert(lv.subrange(lo2 as int, hi as int)[0] == el_lines@[lo2 as int]@);
                assert(lv.subrange(lo2 as int, hi as int).drop_first() =~= lv.subrange(
                    lo2 + 1,
                    hi as int,
                ));
            }
            lo2 = lo2 + 1;
        }
        let ghost content_lines = drop_leading_empty(
            drop_trailing_empty(ls.drop_first()),
        );
        proof {
            if lo2 < hi {
                assert(lv.subrange(lo2 as int, hi as int)[0] == el_lines@[lo2 as int]@);
            }
            assert(content_lines == lv.subrange(lo2 as int, hi as int));
        }
        // the content: one line feed, then the lines joined with line feeds
        let mut content = String::from_str("\n");
        proof {
            reveal_strlit("\n");
            assert(content@ =~= seq!['\n']);
            assert(lv.subrange(lo2 as int, lo2 as int) =~= Seq::<Seq<char>>::empty());
            assert(content@ =~= seq!['\n'] + crate::split::join_with(
                lv.subrange(lo2 as int, lo2 as int),
                seq!['\n'],
            ));
        }
        let mut m: usize = lo2;
        while m < hi
            invariant
                lo2 <= m <= hi <= l_count,
                l_count == lv.len(),
                lv == el_lines@.map_values(|l: String| l@),
                content@ == seq!['\n'] + crate::split::join_with(
                    lv.subrange(lo2 as int, m as int),
                    seq!['\n'],
                ),
            decreases hi - m,
        {
            proof {
                reveal_strlit("\n");
                assert(lv.subrange(lo2 as int, m + 1).drop_last() =~= lv.subrange(
                    lo2 as int,
                    m as int,
                ));
                assert(lv.subrange(lo2 as int, m + 1).last() == el_lines@[m as int]@);
            }
            if m > lo2 {
                content.append("\n");
            }
            content.append(el_lines[m].as_str());
            proof {
                if m == lo2 {
                    assert(lv.subrange(lo2 as int, m + 1) =~= seq![el_lines@[m as int]@]);
                }
            }
            m = m + 1;
        }
        // the field name sits between `name="` and the closing quote
        proof {
            reveal_strlit("name=\"");
        }
        match find_sub(header, "name=\"", 0) {
            None => {
                // an anonymous part is skipped
            },
            Some(idx) => {
                proof {
                    crate::split::lemma_first_match_props(header@, "name=\""@, 0);
                    reveal_strlit("\"");
                    assert("\""@ =~= seq!['"']);
                }
                match find_sub(header, "\"", idx + 6) {
                    None => {
                        proof {
                            lemma_fold_none_persists(el_views, k + 1);
                        }
                        return Err(StoreError::InvalidInput);
                    },
                    Some(close) => {
                        proof {
                            crate::split::lemma_first_match_props(
                                header@,
                                seq!['"'],
                                idx + 6,
                            );
                        }
                        let name = String::from_str(header.substring_char(idx + 6, close));
                        out.push((name, content));
                    },
                }
            },
        }
        k = k + 1;
    }
    proof {
        assert(el_views.take(e_count as int) =~= el_views);
    }
    Ok(out)
}

} // verus!
