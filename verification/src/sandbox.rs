//! Interpretation of one sandboxed test run: parsing the sandbox's meta
//! file (`key:value` lines for `exitcode`, `exitsig`, `killed`, `status`,
//! `time`) and classifying the run into a verdict with an elapsed time in
//! milliseconds.

use vstd::prelude::*;
use crate::compare::outputs_match;
use crate::compare::ws_tokens;
use crate::text::all_digits;
use crate::text::count_char;
use crate::text::digits_val;
use crate::text::digit_val;
use crate::text::find_char;
use crate::text::first_idx;
use crate::text::is_digit;
use crate::text::lemma_digits_val_nonneg;
use crate::text::lemma_first_idx;
use crate::text::parse_i32_spec;
use crate::text::parse_i32_str;
use crate::text::split_char;
use crate::text::split_str;
use crate::text::str_eq;
use crate::verdict::TestingResult;

verus! {

/// Strip one trailing carriage return, as `str::lines` does for lines that
/// end in `\r\n`.
pub open spec fn strip_cr(l: Seq<char>) -> Seq<char> {
    if l.len() > 0 && l.last() == '\r' {
        l.drop_last()
    } else {
        l
    }
}

/// The lines of `s`, following `str::lines`: pieces split at `\n`, each
/// piece before a `\n` loses one trailing `\r`, and a final empty piece
/// after a trailing `\n` is not a line.
pub open spec fn lines_of(s: Seq<char>) -> Seq<Seq<char>> {
    let ps = split_char(s, '\n');
    let main = ps.take(ps.len() - 1).map_values(|l: Seq<char>| strip_cr(l));
    if ps.last().len() == 0 {
        main
    } else {
        main.push(ps.last())
    }
}

/// Strip one trailing carriage return from a line.
fn strip_cr_str(l: &str) -> (r: String)
    ensures
        r@ == strip_cr(l@),
{
    let n = l.unicode_len();
    if n > 0 && l.get_char(n - 1) == '\r' {
        proof {
            assert(l@.subrange(0, n - 1) =~= l@.drop_last());
        }
        String::from_str(l.substring_char(0, n - 1))
    } else {
        String::from_str(l)
    }
}

/// Split `s` into lines, following `str::lines`.
pub fn split_lines(s: &str) -> (lines: Vec<String>)
    ensures
        lines@.map_values(|l: String| l@) =~~= lines_of(s@),
{
    let pieces = split_str(s, '\n');
    let m = pieces.len();
    proof {
        crate::text::lemma_split_char_nonempty(s@, '\n');
    }
    let mut lines: Vec<String> = Vec::new();
    let mut k: usize = 0;
    while k < m - 1
        invariant
            m == pieces@.len() >= 1,
            k <= m - 1,
            pieces@.map_values(|p: String| p@) =~~= split_char(s@, '\n'),
            lines@.map_values(|l: String| l@) =~~= split_char(s@, '\n').take(m - 1).map_values(
                |l: Seq<char>| strip_cr(l),
            ).take(k as int),
        decreases m - 1 - k,
    {
        let stripped = strip_cr_str(pieces[k].as_str());
        lines.push(stripped);
        proof {
            let ps = split_char(s@, '\n');
            let main = ps.take(m - 1).map_values(|l: Seq<char>| strip_cr(l));
            assert(main[k as int] == strip_cr(pieces@[k as int]@));
            assert(main.take(k + 1) =~~= main.take(k as int).push(main[k as int]));
        }
        k = k + 1;
    }
    let last = &pieces[m - 1];
    proof {
        let ps = split_char(s@, '\n');
        let main = ps.take(ps.len() - 1).map_values(|l: Seq<char>| strip_cr(l));
        assert(main.take(m - 1) =~~= main);
        assert(last@ == ps.last());
    }
    if last.as_str().unicode_len() > 0 {
        lines.push(last.clone());
        proof {
            assert(lines@.last()@ == pieces@[m - 1]@);
        }
    }
    lines
}

/// Milliseconds denoted by the fractional digit string `fp`, read to three
/// places and rounded half-up on the fourth.
pub open spec fn frac_ms(fp: Seq<char>) -> int {
    let d1 = if fp.len() >= 1 {
        digit_val(fp[0]) * 100
    } else {
        0
    };
    let d2 = if fp.len() >= 2 {
        digit_val(fp[1]) * 10
    } else {
        0
    };
    let d3 = if fp.len() >= 3 {
        digit_val(fp[2])
    } else {
        0
    };
    let carry = if fp.len() >= 4 && digit_val(fp[3]) >= 5 {
        1int
    } else {
        0int
    };
    d1 + d2 + d3 + carry
}

/// The milliseconds denoted by a non-negative decimal number of seconds
/// (digits with at most one dot, such as the sandbox's `time` values),
/// rounded to the nearest millisecond, or `None` when malformed.
pub open spec fn decimal_ms_spec(s: Seq<char>) -> Option<int> {
    let dot = first_idx(s, '.');
    if dot == s.len() {
        if s.len() > 0 && all_digits(s) {
            Some(digits_val(s) * 1000)
        } else {
            None
        }
    } else {
        let ip = s.take(dot);
        let fp = s.skip(dot + 1);
        if ip.len() > 0 && all_digits(ip) && all_digits(fp) && count_char(s, '.') == 1 {
            Some(digits_val(ip) * 1000 + frac_ms(fp))
        } else {
            None
        }
    }
}

/// Clamp an unbounded value into the `i32` range from above.
pub open spec fn sat_i32(v: int) -> int {
    if v > 0x7fff_ffff {
        0x7fff_ffff
    } else {
        v
    }
}

/// Parse a decimal number of seconds into milliseconds, clamped to `i32`.
pub fn parse_seconds_to_ms(s: &str) -> (r: Option<i32>)
    ensures
        r is None <==> decimal_ms_spec(s@) is None,
        r matches Some(ms) ==> decimal_ms_spec(s@) matches Some(v) && ms == sat_i32(v),
{
    proof {
        lemma_first_idx(s@, '.');
    }
    let n = s.unicode_len();
    let dot = find_char(s, '.');
    if dot == n {
        proof {
            assert(s@.subrange(0, n as int) =~= s@);
        }
        match crate::sandbox::parse_whole_digits(s, 0, n) {
            Digits::Bad => None,
            Digits::Huge => Some(0x7fff_ffff),
            Digits::Val(v) => {
                let total: i64 = v * 1000;
                if total > 0x7fff_ffff {
                    Some(0x7fff_ffff)
                } else {
                    Some(total as i32)
                }
            },
        }
    } else {
        // exactly one dot is accepted
        if count_char_one_more(s, dot, n) {
            return None;
        }
        proof {
            assert(s@.subrange(0, dot as int) =~= s@.take(dot as int));
        }
        let ip = crate::sandbox::parse_whole_digits(s, 0, dot);
        if let Digits::Bad = ip {
            return None;
        }
        match frac_ms_digits(s, dot + 1, n) {
            None => None,
            Some(f) => {
                proof {
                    assert(f <= 1000);
                    if s@.take(dot as int).len() > 0 && all_digits(s@.take(dot as int)) {
                        lemma_digits_val_nonneg(s@.take(dot as int));
                    }
                }
                match ip {
                    Digits::Bad => None,
                    Digits::Huge => Some(0x7fff_ffff),
                    Digits::Val(v) => {
                        let total: i64 = v * 1000 + (f as i64);
                        if total > 0x7fff_ffff {
                            Some(0x7fff_ffff)
                        } else {
                            Some(total as i32)
                        }
                    },
                }
            },
        }
    }
}

/// The outcome of reading a digit string whose value may exceed what can
/// matter after scaling: malformed, too large to matter, or an exact value.
enum Digits {
    Bad,
    Huge,
    Val(i64),
}

/// Whether a second dot occurs in `s[from+1..n]`.
fn count_char_one_more(s: &str, dot: usize, n: usize) -> (r: bool)
    requires
        n == s@.len(),
        dot == first_idx(s@, '.'),
        dot < n,
    ensures
        r == (count_char(s@, '.') != 1),
{
    let c = crate::text::count_char_in(s, '.');
    proof {
        lemma_first_idx(s@, '.');
        lemma_count_char_pos(s@, '.');
    }
    c != 1
}

/// A string free of a character has a zero count of it.
proof fn lemma_count_char_zero(s: Seq<char>, c: char)
    requires
        forall|k: int| 0 <= k < s.len() ==> s[k] != c,
    ensures
        count_char(s, c) == 0,
    decreases s.len(),
{
    if s.len() > 0 {
        assert(forall|k: int| 0 <= k < s.len() - 1 ==> s.drop_last()[k] != c);
        lemma_count_char_zero(s.drop_last(), c);
    }
}

/// A string containing a character has a positive count of it.
proof fn lemma_count_char_pos(s: Seq<char>, c: char)
    ensures
        (exists|k: int| 0 <= k < s.len() && s[k] == c) ==> count_char(s, c) >= 1,
        count_char(s, c) >= 0,
    decreases s.len(),
{
    if s.len() > 0 {
        lemma_count_char_pos(s.drop_last(), c);
        if exists|k: int| 0 <= k < s.len() && s[k] == c {
            let k = choose|k: int| 0 <= k < s.len() && s[k] == c;
            if k < s.len() - 1 {
                assert(s.drop_last()[k] == c);
            }
        }
    }
}

/// Parse `s[from..to]` as a digit string, capped just above the range that
/// can matter after the millisecond scaling.
fn parse_whole_digits(s: &str, from: usize, to: usize) -> (r: Digits)
    requires
        from <= to <= s@.len(),
    ensures
        match r {
            Digits::Val(v) => to > from && all_digits(s@.subrange(from as int, to as int)) && v
                == digits_val(s@.subrange(from as int, to as int)) && 0 <= v <= 0x8000_0000,
            Digits::Huge => to > from && all_digits(s@.subrange(from as int, to as int))
                && digits_val(s@.subrange(from as int, to as int)) > 0x8000_0000,
            Digits::Bad => to == from || !all_digits(s@.subrange(from as int, to as int)),
        },
{
    let ghost body = s@.subrange(from as int, to as int);
    if from == to {
        return Digits::Bad;
    }
    let mut acc: i64 = 0;
    let mut huge = false;
    let mut i: usize = from;
    while i < to
        invariant
            from <= i <= to <= s@.len(),
            body == s@.subrange(from as int, to as int),
            all_digits(body.take(i - from)),
            !huge ==> acc == digits_val(body.take(i - from)) && 0 <= acc <= 0x8000_0000,
            huge ==> digits_val(body.take(i - from)) > 0x8000_0000,
        decreases to - i,
    {
        let c = s.get_char(i);
        proof {
            assert(body[i - from] == s@[i as int]);
            assert(body.take(i + 1 - from).drop_last() =~= body.take(i - from));
        }
        if !('0' <= c && c <= '9') {
            proof {
                assert(!is_digit(body[i - from]));
            }
            return Digits::Bad;
        }
        if !huge {
            let d = (c as u32) - ('0' as u32);
            let next: i64 = acc * 10 + (d as i64);
            if next > 0x8000_0000 {
                huge = true;
            } else {
                acc = next;
            }
        }
        i = i + 1;
    }
    proof {
        assert(body.take(to - from) =~= body);
    }
    if huge {
        Digits::Huge
    } else {
        Digits::Val(acc)
    }
}


/// Read the fractional digits `s[from..to]` into rounded milliseconds.
fn frac_ms_digits(s: &str, from: usize, to: usize) -> (r: Option<u32>)
    requires
        from <= to <= s@.len(),
    ensures
        match r {
            Some(f) => all_digits(s@.subrange(from as int, to as int)) && f == frac_ms(
                s@.subrange(from as int, to as int),
            ) && f <= 1000,
            None => !all_digits(s@.subrange(from as int, to as int)),
        },
{
    let ghost fp = s@.subrange(from as int, to as int);
    // every character must be a digit, as `f64` parsing demands
    let mut i: usize = from;
    while i < to
        invariant
            from <= i <= to <= s@.len(),
            fp == s@.subrange(from as int, to as int),
            all_digits(fp.take(i - from)),
        decreases to - i,
    {
        let c = s.get_char(i);
        proof {
            assert(fp[i - from] == s@[i as int]);
            assert(fp.take(i + 1 - from).drop_last() =~= fp.take(i - from));
        }
        if !('0' <= c && c <= '9') {
            proof {
                assert(!is_digit(fp[i - from]));
            }
            return None;
        }
        i = i + 1;
    }
    proof {
        assert(fp.take(to - from) =~= fp);
    }
    let len = to - from;
    let mut f: u32 = 0;
    if len >= 1 {
        proof {
            assert(fp[0] == s@[from as int] && is_digit(fp[0]));
        }
        let d = (s.get_char(from) as u32) - ('0' as u32);
        f = f + d * 100;
    }
    if len >= 2 {
        proof {
            assert(fp[1] == s@[from + 1] && is_digit(fp[1]));
        }
        let d = (s.get_char(from + 1) as u32) - ('0' as u32);
        f = f + d * 10;
    }
    if len >= 3 {
        proof {
            assert(fp[2] == s@[from + 2] && is_digit(fp[2]));
        }
        let d = (s.get_char(from + 2) as u32) - ('0' as u32);
        f = f + d;
    }
    if len >= 4 {
        proof {
            assert(fp[3] == s@[from + 3] && is_digit(fp[3]));
        }
        let d = (s.get_char(from + 3) as u32) - ('0' as u32);
        if d >= 5 {
            f = f + 1;
        }
    }
    Some(f)
}

/// The fields read from a sandbox meta file, with defaults for absent keys.
pub struct Meta {
    pub exitcode: i32,
    pub exitsig: i32,
    pub killed: i32,
    pub status: String,
    pub time_ms: i32,
}

/// The ghost counterpart of `Meta`.
pub struct MetaSpec {
    pub exitcode: int,
    pub exitsig: int,
    pub killed: int,
    pub status: Seq<char>,
    pub time_ms: int,
}

impl Meta {
    /// The fields of the parsed meta file as mathematical values.
    pub open spec fn view_spec(&self) -> MetaSpec {
        MetaSpec {
            exitcode: self.exitcode as int,
            exitsig: self.exitsig as int,
            killed: self.killed as int,
            status: self.status@,
            time_ms: self.time_ms as int,
        }
    }
}

/// Fold one meta line into the accumulated fields; `None` marks a value
/// that a recognised key failed to parse.
pub open spec fn meta_step(acc: Option<MetaSpec>, line: Seq<char>) -> Option<MetaSpec> {
    match acc {
        None => None,
        Some(m) => {
            if count_char(line, ':') != 1 {
                Some(m)
            } else {
                let i = first_idx(line, ':');
                let key = line.take(i);
                let value = line.skip(i + 1);
                if key == "exitcode"@ {
                    match parse_i32_spec(value) {
                        Some(v) => Some(MetaSpec { exitcode: v, ..m }),
                        None => None,
                    }
                } else if key == "exitsig"@ {
                    match parse_i32_spec(value) {
                        Some(v) => Some(MetaSpec { exitsig: v, ..m }),
                        None => None,
                    }
                } else if key == "killed"@ {
                    match parse_i32_spec(value) {
                        Some(v) => Some(MetaSpec { killed: v, ..m }),
                        None => None,
                    }
                } else if key == "status"@ {
                    Some(MetaSpec { status: value, ..m })
                } else if key == "time"@ {
                    match decimal_ms_spec(value) {
                        Some(v) => Some(MetaSpec { time_ms: sat_i32(v), ..m }),
                        None => None,
                    }
                } else {
                    Some(m)
                }
            }
        },
    }
}

/// The meta fields after folding a sequence of lines over the defaults.
pub open spec fn meta_of_lines(lines: Seq<Seq<char>>) -> Option<MetaSpec>
    decreases lines.len(),
{
    if lines.len() == 0 {
        Some(
            MetaSpec {
                exitcode: 0,
                exitsig: 0,
                killed: 0,
                status: Seq::empty(),
                time_ms: 0,
            },
        )
    } else {
        meta_step(meta_of_lines(lines.drop_last()), lines.last())
    }
}

/// The meta fields denoted by a whole meta file.
pub open spec fn parse_meta_spec(s: Seq<char>) -> Option<MetaSpec> {
    meta_of_lines(lines_of(s))
}

/// A failure while folding the lines never recovers.
proof fn lemma_meta_none_persists(lines: Seq<Seq<char>>, k: int)
    requires
        0 <= k <= lines.len(),
        meta_of_lines(lines.take(k)) is None,
    ensures
        meta_of_lines(lines) is None,
    decreases lines.len() - k,
{
    if k < lines.len() {
        assert(lines.take(k + 1).drop_last() =~= lines.take(k));
        lemma_meta_none_persists(lines, k + 1);
    } else {
        assert(lines.take(k) =~= lines);
    }
}

/// Parse a sandbox meta file.
///
/// Unknown keys and malformed lines are skipped; a recognised key whose
/// value does not parse makes the whole file unreadable, reported as
/// `None`.
pub fn parse_meta(s: &str) -> (r: Option<Meta>)
    ensures
        match r {
            Some(m) => parse_meta_spec(s@) == Some(m.view_spec()),
            None => parse_meta_spec(s@) is None,
        },
{
    let lines = split_lines(s);
    let ghost line_views = lines@.map_values(|l: String| l@);
    let mut meta = Meta {
        exitcode: 0,
        exitsig: 0,
        killed: 0,
        status: String::new(),
        time_ms: 0,
    };
    let n = lines.len();
    let mut k: usize = 0;
    while k < n
        invariant
            k <= n,
            n == lines@.len(),
            line_views == lines@.map_values(|l: String| l@),
            line_views =~~= lines_of(s@),
            meta_of_lines(line_views.take(k as int)) == Some(meta.view_spec()),
        decreases n - k,
    {
        proof {
            assert(line_views.take(k + 1).drop_last() =~= line_views.take(k as int));
            assert(line_views.take(k + 1).last() == lines@[k as int]@);
        }
        let line = lines[k].as_str();
        let line_len = line.unicode_len();
        let colons = crate::text::count_char_in(line, ':');
        if colons == 1 {
            let i = find_char(line, ':');
            proof {
                lemma_first_idx(line@, ':');
                if i == line@.len() {
                    lemma_count_char_zero(line@, ':');
                }
                assert(i < line@.len());
            }
            let key = line.substring_char(0, i);
            let value = line.substring_char(i + 1, line_len);
            proof {
                assert(key@ =~= line@.take(i as int));
                assert(value@ =~= line@.skip(i + 1));
            }
            if str_eq(key, "exitcode") {
                match parse_i32_str(value) {
                    Some(v) => {
                        meta.exitcode = v;
                    },
                    None => {
                        proof {
                            lemma_meta_none_persists(line_views, k + 1);
                        }
                        return None;
                    },
                }
            } else if str_eq(key, "exitsig") {
                match parse_i32_str(value) {
                    Some(v) => {
                        meta.exitsig = v;
                    },
                    None => {
                        proof {
                            lemma_meta_none_persists(line_views, k + 1);
                        }
                        return None;
                    },
                }
            } else if str_eq(key, "killed") {
                match parse_i32_str(value) {
                    Some(v) => {
                        meta.killed = v;
                    },
                    None => {
                        proof {
                            lemma_meta_none_persists(line_views, k + 1);
                        }
                        return None;
                    },
                }
            } else if str_eq(key, "status") {
                meta.status = String::from_str(value);
            } else if str_eq(key, "time") {
                match parse_seconds_to_ms(value) {
                    Some(v) => {
                        meta.time_ms = v;
                    },
                    None => {
                        proof {
                            lemma_meta_none_persists(line_views, k + 1);
                        }
                        return None;
                    },
                }
            }
        }
        k = k + 1;
    }
    proof {
        assert(line_views.take(n as int) =~= line_views);
    }
    Some(meta)
}

/// The verdict of one sandboxed run, from the meta fields and whether the
/// captured output matched the expected output.
pub open spec fn isolated_verdict(m: MetaSpec, output_ok: bool) -> TestingResult {
    if m.exitsig != 0 || m.exitcode != 0 {
        TestingResult::RuntimeError
    } else if m.killed != 0 {
        if m.status == "TO"@ {
            TestingResult::TimeLimitExceeded
        } else if m.status == "SG"@ || m.status == "RE"@ {
            TestingResult::RuntimeError
        } else {
            TestingResult::InternalError
        }
    } else if output_ok {
        TestingResult::Accepted
    } else {
        TestingResult::WrongAnswer
    }
}

/// Classify a parsed meta file together with the output comparison.
pub fn classify_isolated(meta: &Meta, output_ok: bool) -> (r: TestingResult)
    ensures
        r == isolated_verdict(meta.view_spec(), output_ok),
{
    if meta.exitsig != 0 || meta.exitcode != 0 {
        TestingResult::RuntimeError
    } else if meta.killed != 0 {
        if str_eq(meta.status.as_str(), "TO") {
            TestingResult::TimeLimitExceeded
        } else if str_eq(meta.status.as_str(), "SG") || str_eq(meta.status.as_str(), "RE") {
            TestingResult::RuntimeError
        } else {
            TestingResult::InternalError
        }
    } else if output_ok {
        TestingResult::Accepted
    } else {
        TestingResult::WrongAnswer
    }
}

/// Judge one sandboxed run: parse the meta file, compare the output, and
/// give verdict and elapsed milliseconds. `None` marks an unreadable meta
/// file.
pub fn judge_isolated_run(meta_text: &str, stdout_text: &str, expected: &str) -> (r: Option<
    (TestingResult, i32),
>)
    ensures
        match parse_meta_spec(meta_text@) {
            None => r is None,
            Some(m) => r == Some(
                (
                    isolated_verdict(m, ws_tokens(stdout_text@) == ws_tokens(expected@)),
                    m.time_ms as i32,
                ),
            ),
        },
{
    match parse_meta(meta_text) {
        None => None,
        Some(meta) => {
            let ok = outputs_match(stdout_text, expected);
            let verdict = classify_isolated(&meta, ok);
            Some((verdict, meta.time_ms))
        },
    }
}

/// Judge one run of the fallback backend, which enforces the time limit by
/// a wall-clock timeout: a timed-out run is `TimeLimitExceeded` with the
/// limit as its elapsed time, any other run is judged on its output.
pub fn judge_plain_run(
    timed_out: bool,
    stdout_text: &str,
    expected: &str,
    time_limit_ms: i32,
    elapsed_ms: i32,
) -> (r: (TestingResult, i32))
    ensures
        timed_out ==> r == (TestingResult::TimeLimitExceeded, time_limit_ms),
        !timed_out ==> r == (
            if ws_tokens(stdout_text@) == ws_tokens(expected@) {
                TestingResult::Accepted
            } else {
                TestingResult::WrongAnswer
            },
            elapsed_ms,
        ),
{
    if timed_out {
        (TestingResult::TimeLimitExceeded, time_limit_ms)
    } else {
        let ok = outputs_match(stdout_text, expected);
        if ok {
            (TestingResult::Accepted, elapsed_ms)
        } else {
            (TestingResult::WrongAnswer, elapsed_ms)
        }
    }
}

} // verus!
