//! Byte-level handling of multipart form bodies: splitting on a boundary,
//! joining fragments back, reading the boundary out of a content-type
//! header, and extracting the uploaded file from a request body.

use vstd::prelude::*;
use crate::split::join_with;
use crate::split::split_on;
use crate::split::split_on_from;
use crate::store::StoreError;
use vstd::slice::slice_to_vec;

verus! {

/// Whether `pat` occurs in `data` at position `i`.
fn bytes_match_at(data: &[u8], i: usize, pat: &[u8]) -> (r: bool)
    requires
        i <= data@.len(),
    ensures
        r == (i + pat@.len() <= data@.len() && data@.subrange(
            i as int,
            i + pat@.len(),
        ) == pat@),
{
    let m = pat.len();
    proof {
        assert(i <= data.len());
    }
    if m > data.len() - i {
        return false;
    }
    let dn = data.len();
    let mut k: usize = 0;
    while k < m
        invariant
            k <= m,
            m == pat@.len(),
            dn == data@.len(),
            i + m <= dn,
            forall|b: int| 0 <= b < k ==> data@[i + b] == pat@[b],
        decreases m - k,
    {
        if data[i + k] != pat[k] {
            proof {
                assert(data@.subrange(i as int, i + pat@.len())[k as int] == data@[i + k]);
            }
            return false;
        }
        k = k + 1;
    }
    proof {
        assert(data@.subrange(i as int, i + pat@.len()) =~= pat@);
    }
    true
}

/// Split a byte string on every non-overlapping occurrence of the
/// separator, greedily from the left.
pub fn split_bytes_by_bytes(data: Vec<u8>, splitter: Vec<u8>) -> (r: Vec<Vec<u8>>)
    requires
        splitter@.len() >= 1,
    ensures
        r@.map_values(|p: Vec<u8>| p@) == split_on(data@, splitter@),
{
    let n = data.len();
    let mut out: Vec<Vec<u8>> = Vec::new();
    let mut current: Vec<u8> = Vec::new();
    let mut i: usize = 0;
    while i < n
        invariant
            i <= n,
            n == data@.len(),
            splitter@.len() >= 1,
            split_on(data@, splitter@) == out@.map_values(|p: Vec<u8>| p@) + split_on_from(
                data@,
                splitter@,
                i as int,
                current@,
            ),
        decreases n - i,
    {
        if bytes_match_at(data.as_slice(), i, splitter.as_slice()) {
            out.push(current);
            current = Vec::new();
            i = i + splitter.len();
            proof {
                assert(out@.map_values(|p: Vec<u8>| p@) + split_on_from(
                    data@,
                    splitter@,
                    i as int,
                    current@,
                ) =~= split_on(data@, splitter@));
            }
        } else {
            current.push(data[i]);
            i = i + 1;
        }
    }
    out.push(current);
    proof {
        assert(out@.map_values(|p: Vec<u8>| p@) =~= split_on(data@, splitter@));
    }
    out
}

/// Join byte fragments with the separator between consecutive fragments.
pub fn join_bytes(data: Vec<Vec<u8>>, splitter: Vec<u8>) -> (r: Vec<u8>)
    ensures
        r@ == join_with(data@.map_values(|p: Vec<u8>| p@), splitter@),
{
    let n = data.len();
    let ghost views = data@.map_values(|p: Vec<u8>| p@);
    let mut out: Vec<u8> = Vec::new();
    let mut k: usize = 0;
    while k < n
        invariant
            k <= n,
            n == data@.len(),
            views == data@.map_values(|p: Vec<u8>| p@),
            out@ == join_with(views.take(k as int), splitter@),
        decreases n - k,
    {
        proof {
            assert(views.take(k + 1).drop_last() =~= views.take(k as int));
            assert(views.take(k + 1).last() == views[k as int]);
        }
        if k > 0 {
            out.extend_from_slice(splitter.as_slice());
        }
        out.extend_from_slice(data[k].as_slice());
        proof {
            if k == 0 {
                assert(out@ =~= views.take(1)[0]);
            }
        }
        k = k + 1;
    }
    proof {
        assert(views.take(n as int) =~= views);
    }
    out
}

/// The multipart boundary bytes taken from a content-type header: the
/// value of its `boundary` parameter, or the fallback `no-boundary`, each
/// with the leading two dashes attached.
pub open spec fn boundary_of(ct: Seq<u8>) -> Seq<u8> {
    let parts = split_on(ct, seq![59u8]);
    "--"@.map_values(|c: char| c as u8) + boundary_of_parts(parts)
}

/// The last `boundary=` parameter wins, as repeated map insertion would
/// have it; absent one, the fallback name.
pub open spec fn boundary_of_parts(parts: Seq<Seq<u8>>) -> Seq<u8>
    decreases parts.len(),
{
    if parts.len() == 0 {
        "no-boundary"@.map_values(|c: char| c as u8)
    } else {
        let kv = split_on(trim_spaces(parts.last()), seq![61u8]);
        if kv.len() == 2 && kv[0] == "boundary"@.map_values(|c: char| c as u8) {
            kv[1]
        } else {
            boundary_of_parts(parts.drop_last())
        }
    }
}

/// The byte string without leading and trailing spaces and tabs.
pub open spec fn trim_spaces(s: Seq<u8>) -> Seq<u8>
    decreases s.len(),
{
    if s.len() == 0 {
        s
    } else if s[0] == 32 || s[0] == 9 {
        trim_spaces(s.drop_first())
    } else if s.last() == 32 || s.last() == 9 {
        trim_spaces(s.drop_last())
    } else {
        s
    }
}

/// Trim leading and trailing spaces and tabs.
fn trim_spaces_bytes(s: &[u8]) -> (r: Vec<u8>)
    ensures
        r@ == trim_spaces(s@),
    decreases s@.len(),
{
    let n = s.len();
    let mut lo: usize = 0;
    let mut hi: usize = n;
    proof {
        assert(s@.subrange(0, n as int) =~= s@);
    }
    while lo < hi && (s[lo] == 32 || s[lo] == 9)
        invariant
            lo <= hi <= n,
            n == s@.len(),
            trim_spaces(s@) == trim_spaces(s@.subrange(lo as int, hi as int)),
        decreases hi - lo,
    {
        proof {
            assert(s@.subrange(lo as int, hi as int).drop_first() =~= s@.subrange(
                lo + 1,
                hi as int,
            ));
        }
        lo = lo + 1;
    }
    while lo < hi && (s[hi - 1] == 32 || s[hi - 1] == 9)
        invariant
            lo <= hi <= n,
            n == s@.len(),
            trim_spaces(s@) == trim_spaces(s@.subrange(lo as int, hi as int)),
            lo < hi ==> !(s@[lo as int] == 32 || s@[lo as int] == 9),
        decreases hi - lo,
    {
        proof {
            assert(s@.subrange(lo as int, hi as int).drop_last() =~= s@.subrange(
                lo as int,
                hi - 1,
            ));
        }
        hi = hi - 1;
    }
    let mut out: Vec<u8> = Vec::new();
    let mut k: usize = lo;
    while k < hi
        invariant
            lo <= k <= hi <= n,
            n == s@.len(),
            out@ == s@.subrange(lo as int, k as int),
        decreases hi - k,
    {
        out.push(s[k]);
        proof {
            assert(s@.subrange(lo as int, k + 1) =~= s@.subrange(lo as int, k as int).push(
                s@[k as int],
            ));
        }
        k = k + 1;
    }
    proof {
        let piece = s@.subrange(lo as int, hi as int);
        if piece.len() > 0 {
            assert(!(piece[0] == 32 || piece[0] == 9));
            assert(!(piece.last() == 32 || piece.last() == 9));
        }
        assert(trim_spaces(piece) == piece);
        assert(out@ =~= piece);
    }
    out
}

/// Read the multipart boundary out of a content-type header, the two
/// leading dashes included; a header without one yields the fallback.
pub fn boundary_from_content_type(content_type: &[u8]) -> (r: Vec<u8>)
    ensures
        r@ == boundary_of(content_type@),
        r@.len() >= 2,
{
    let semi: Vec<u8> = vec![59u8];
    proof {
        assert(semi@ =~= seq![59u8]);
    }
    let parts = split_bytes_by_bytes(slice_to_vec(content_type), semi);
    let ghost views = parts@.map_values(|p: Vec<u8>| p@);
    let mut found: Option<Vec<u8>> = None;
    let n = parts.len();
    let mut k: usize = 0;
    while k < n
        invariant
            k <= n,
            n == views.len(),
            views == parts@.map_values(|p: Vec<u8>| p@),
            match found {
                Some(b) => b@ == boundary_of_parts(views.take(k as int)),
                None => boundary_of_parts(views.take(k as int)) == (
                "no-boundary"@.map_values(|c: char| c as u8)),
            },
        decreases n - k,
    {
        proof {
            assert(views.take(k + 1).drop_last() =~= views.take(k as int));
            assert(views.take(k + 1).last() == views[k as int]);
        }
        let trimmed = trim_spaces_bytes(parts[k].as_slice());
        let eq_sep: Vec<u8> = vec![61u8];
        proof {
            assert(eq_sep@ =~= seq![61u8]);
        }
        let mut kv = split_bytes_by_bytes(trimmed, eq_sep);
        if kv.len() == 2 {
            let matches_key = kv[0].len() == 8 && kv[0][0] == 98 && kv[0][1] == 111 && kv[0][2]
                == 117 && kv[0][3] == 110 && kv[0][4] == 100 && kv[0][5] == 97 && kv[0][6] == 114
                && kv[0][7] == 121;
            proof {
                reveal_strlit("boundary");
                assert(kv@.map_values(|p: Vec<u8>| p@)[0] == kv@[0]@);
                if matches_key {
                    assert(kv@[0]@ =~= "boundary"@.map_values(|c: char| c as u8));
                } else {
                    assert(kv@[0]@ != "boundary"@.map_values(|c: char| c as u8));
                }
            }
            if matches_key {
                proof {
                    assert(kv@.map_values(|p: Vec<u8>| p@)[1] == kv@[1]@);
                }
                let second = match kv.pop() {
                    Some(v) => v,
                    None => Vec::new(),
                };
                found = Some(second);
            }
        }
        k = k + 1;
    }
    proof {
        assert(views.take(n as int) =~= views);
    }
    let tail = match found {
        Some(b) => b,
        None => {
            let mut v: Vec<u8> = Vec::new();
            v.push(110);
            v.push(111);
            v.push(45);
            v.push(98);
            v.push(111);
            v.push(117);
            v.push(110);
            v.push(100);
            v.push(97);
            v.push(114);
            v.push(121);
            proof {
                reveal_strlit("no-boundary");
                assert(v@ =~= "no-boundary"@.map_values(|c: char| c as u8));
            }
            v
        },
    };
    let mut out: Vec<u8> = Vec::new();
    out.push(45);
    out.push(45);
    let mut k2: usize = 0;
    while k2 < tail.len()
        invariant
            k2 <= tail@.len(),
            out@.len() == 2 + k2,
            out@[0] == 45u8,
            out@[1] == 45u8,
            forall|b: int| 0 <= b < k2 ==> out@[2 + b] == tail@[b],
        decreases tail@.len() - k2,
    {
        out.push(tail[k2]);
        k2 = k2 + 1;
    }
    proof {
        reveal_strlit("--");
        assert(out@ =~= "--"@.map_values(|c: char| c as u8) + tail@);
    }
    out
}

} // verus!

verus! {

/// The carriage-return–line-feed separator.
pub open spec fn crlf() -> Seq<u8> {
    seq![13u8, 10u8]
}

/// The uploaded file carried by a multipart body: the first non-empty
/// piece between boundaries, except the closing piece, with its first four
/// lines (the part headers) and its last line (the boundary tail) removed.
/// `None` marks a body with no such part.
pub open spec fn extracted_file(body: Seq<u8>, boundary: Seq<u8>) -> Option<Seq<u8>> {
    let parts = crate::seqtools::filter_by(
        split_on(body, boundary),
        |p: Seq<u8>| p.len() != 0,
    );
    let trimmed = if parts.len() > 0 {
        parts.drop_last()
    } else {
        parts
    };
    if trimmed.len() == 0 {
        None
    } else {
        let pieces = split_on(trimmed[0], crlf());
        if pieces.len() < 4 {
            None
        } else {
            let tail = pieces.skip(4);
            let kept = if tail.len() > 0 {
                tail.drop_last()
            } else {
                tail
            };
            Some(join_with(kept, crlf()))
        }
    }
}

/// Pull the uploaded file out of a multipart body split on this boundary.
///
/// A body without a usable part, or with a part of fewer than four header
/// lines, is refused.
pub fn extract_file_from_body(body: Vec<u8>, boundary: &Vec<u8>) -> (r: Result<
    Vec<u8>,
    StoreError,
>)
    requires
        boundary@.len() >= 1,
    ensures
        match r {
            Ok(f) => extracted_file(body@, boundary@) == Some(f@),
            Err(e) => extracted_file(body@, boundary@) is None && e == StoreError::InvalidInput,
        },
{
    let ghost g_body = body@;
    let parts_raw = split_bytes_by_bytes(body, boundary.clone());
    let ghost raw_views = parts_raw@.map_values(|p: Vec<u8>| p@);
    let ghost keep = |p: Seq<u8>| p.len() != 0;

    // keep the non-empty pieces
    let mut rest = parts_raw;
    let ghost all = rest@.map_values(|p: Vec<u8>| p@);
    let total: usize = rest.len();
    let mut parts: Vec<Vec<u8>> = Vec::new();
    let mut k: usize = 0;
    while rest.len() > 0
        invariant
            keep == (|p: Seq<u8>| p.len() != 0),
            total as int == all.len(),
            k <= total,
            k + rest@.len() == all.len(),
            rest@.map_values(|p: Vec<u8>| p@) == all.skip(k as int),
            parts@.map_values(|p: Vec<u8>| p@) == crate::seqtools::filter_by(
                all.take(k as int),
                keep,
            ),
        decreases rest@.len(),
    {
        proof {
            crate::seqtools::lemma_take_step(all, k as int);
            assert(all.skip(k as int)[0] == all[k as int]);
            assert(rest@.map_values(|p: Vec<u8>| p@)[0] == rest@[0]@);
        }
        let ghost prev = rest@;
        let piece = rest.remove(0);
        proof {
            assert forall|j: int| 0 <= j < rest@.len() implies rest@.map_values(
                |p: Vec<u8>| p@,
            )[j] == #[trigger] all.skip(k + 1)[j] by {
                assert(rest@[j] == prev[j + 1]);
                assert(prev.map_values(|p: Vec<u8>| p@)[j + 1] == prev[j + 1]@);
                assert(prev.map_values(|p: Vec<u8>| p@)[j + 1] == all.skip(k as int)[j + 1]);
                assert(rest@.map_values(|p: Vec<u8>| p@)[j] == rest@[j]@);
            };
            assert(rest@.map_values(|p: Vec<u8>| p@) =~= all.skip(k + 1));
        }
        if piece.len() != 0 {
            parts.push(piece);
            proof {
                assert(parts@.map_values(|p: Vec<u8>| p@) =~= crate::seqtools::filter_by(
                    all.take(k as int),
                    keep,
                ).push(all[k as int]));
            }
        }
        k = k + 1;
    }
    proof {
        assert(all.take(k as int) =~= all);
    }
    // the closing piece after the final boundary is not the file
    if parts.len() > 0 {
        let _ = parts.pop();
        proof {
            assert(parts@.map_values(|p: Vec<u8>| p@) =~= crate::seqtools::filter_by(
                all,
                keep,
            ).drop_last());
        }
    }
    if parts.len() == 0 {
        return Err(StoreError::InvalidInput);
    }
    let ghost part_view = parts@.map_values(|p: Vec<u8>| p@)[0];
    let mut parts2 = parts;
    let part = parts2.remove(0);
    proof {
        assert(part@ == part_view);
    }
    let sep: Vec<u8> = vec![13u8, 10u8];
    proof {
        assert(sep@ =~= crlf());
    }
    let pieces = split_bytes_by_bytes(part, sep);
    if pieces.len() < 4 {
        return Err(StoreError::InvalidInput);
    }
    // drop the four header lines and the trailing boundary line
    let end = if pieces.len() > 4 {
        pieces.len() - 1
    } else {
        4
    };
    let ghost piece_views = pieces@.map_values(|p: Vec<u8>| p@);
    let mut kept: Vec<Vec<u8>> = Vec::new();
    let mut m: usize = 4;
    while m < end
        invariant
            4 <= m <= end,
            end <= piece_views.len(),
            piece_views == pieces@.map_values(|p: Vec<u8>| p@),
            kept@.map_values(|p: Vec<u8>| p@) == piece_views.subrange(4, m as int),
        decreases end - m,
    {
        proof {
            assert(piece_views.subrange(4, m + 1) =~= piece_views.subrange(4, m as int).push(
                piece_views[m as int],
            ));
            assert(pieces@.map_values(|p: Vec<u8>| p@)[m as int] == pieces@[m as int]@);
        }
        kept.push(pieces[m].clone());
        m = m + 1;
    }
    let sep2: Vec<u8> = vec![13u8, 10u8];
    proof {
        assert(sep2@ =~= crlf());
        let tail = piece_views.skip(4);
        if tail.len() > 0 {
            assert(piece_views.subrange(4, end as int) =~= tail.drop_last());
        } else {
            assert(piece_views.subrange(4, end as int) =~= tail);
        }
    }
    Ok(join_bytes(kept, sep2))
}

} // verus!
