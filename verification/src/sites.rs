//! The plain data each page of the interface is rendered from, the process
//! configuration, and the small computations the interface layer needs: a
//! free numbered problem name and a fresh compiled-binary file name.

use vstd::prelude::*;
use crate::store::ContestId;
use crate::store::ProblemId;
use crate::store::SubmissionId;
use crate::store::SubtaskId;
use crate::store::TestId;
use crate::store::Store;
use crate::store::StoreError;
use crate::rng::random_name_suffix;

verus! {

/// The sidebar shown on every page: the viewer's contests, each with its
/// problems and the viewer's points on them.
pub struct SidebarContext {
    pub logged_in: bool,
    pub username: String,
    pub contests: Vec<(ContestId, String, i32, i32, Vec<(ProblemId, String, i32, i32)>)>,
}

/// The login page, with an error message when a login just failed.
pub struct LoginSite {
    pub error_message: String,
}

/// A page that redirects the browser.
pub struct RedirectSite {
    pub url: String,
}

/// The page shown for an unknown path.
pub struct NotFoundSite;

/// The landing page: the user list is filled for administrators only.
pub struct MainSite {
    pub sidebar_context: SidebarContext,
    pub users: Vec<(String, crate::store::UserId)>,
    pub is_admin: bool,
}

/// One contest's page: its members and its problems.
pub struct ContestSite {
    pub contest_name: String,
    pub is_admin: bool,
    pub users: Vec<(String, crate::store::UserId, bool)>,
    pub contest_id: ContestId,
    pub sidebar_context: SidebarContext,
    pub problems: Vec<(String, ProblemId)>,
}

/// One problem's page: the statement and the viewer's submissions.
pub struct ProblemSite {
    pub contest_id: ContestId,
    pub problem_id: ProblemId,
    pub problem_name: String,
    pub problem_description: String,
    pub submissions: Vec<(SubmissionId, i32, i32, bool, String)>,
    pub sidebar_context: SidebarContext,
    pub points: i32,
    pub max_points: i32,
    pub is_admin: bool,
}

/// The admin page for editing one problem.
pub struct EditProblemSite {
    pub contest_id: ContestId,
    pub problem_id: ProblemId,
    pub problem_name: String,
    pub problem_description: String,
    pub sidebar_context: SidebarContext,
    pub subtasks: Vec<(SubtaskId, Vec<TestId>)>,
}

/// One submission's page.
pub struct SubmissionSite {
    pub code: String,
    pub subtasks: Vec<(i32, i32, bool, String, Vec<(String, String, i32)>)>,
    pub points: i32,
    pub max_points: i32,
    pub result: String,
    pub sidebar_context: SidebarContext,
}

/// The process configuration, with the defaults filled in for anything the
/// configuration file leaves out.
pub struct Config {
    pub db_host: String,
    pub db_username: String,
    pub db_password: String,
    pub db_name: String,
    pub port: u16,
    pub num_workers: i32,
}

/// Fill in the defaults for missing configuration values.
pub fn resolve_config(
    db_host: Option<String>,
    db_username: Option<String>,
    db_password: Option<String>,
    db_name: Option<String>,
    port: Option<u16>,
    num_workers: Option<i32>,
) -> (c: Config)
    ensures
        c.db_host@ == (match db_host {
            Some(v) => v@,
            None => "127.0.0.1"@,
        }),
        c.db_username@ == (match db_username {
            Some(v) => v@,
            None => "postgres"@,
        }),
        c.db_password@ == (match db_password {
            Some(v) => v@,
            None => "postgres"@,
        }),
        c.db_name@ == (match db_name {
            Some(v) => v@,
            None => "cps"@,
        }),
        c.port == (match port {
            Some(v) => v,
            None => 443u16,
        }),
        c.num_workers == (match num_workers {
            Some(v) => v,
            None => 8i32,
        }),
{
    Config {
        db_host: match db_host {
            Some(v) => v,
            None => String::from_str("127.0.0.1"),
        },
        db_username: match db_username {
            Some(v) => v,
            None => String::from_str("postgres"),
        },
        db_password: match db_password {
            Some(v) => v,
            None => String::from_str("postgres"),
        },
        db_name: match db_name {
            Some(v) => v,
            None => String::from_str("cps"),
        },
        port: match port {
            Some(v) => v,
            None => 443,
        },
        num_workers: match num_workers {
            Some(v) => v,
            None => 8,
        },
    }
}

impl Store {
    /// The first free name of the shape `Problem <n>`, scanning `n` upward
    /// from one; gives up past a thousand as a runaway guard.
    pub fn next_free_problem_name(&self) -> (r: Result<String, StoreError>)
        ensures
            r matches Ok(name) ==> crate::seqtools::find_first(
                self.problems@,
                crate::store::p_problem_name(name@),
            ) is None,
    {
        let mut n: u32 = 1;
        while n <= 1000
            invariant
                1 <= n <= 1001,
            decreases 1001 - n,
        {
            let name = problem_name_for(n);
            if !self.problem_with_name_exists(name.as_str()) {
                return Ok(name);
            }
            n = n + 1;
        }
        Err(StoreError::Overflow)
    }
}

/// One decimal digit as text.
fn digit_str(d: u32) -> (r: &'static str)
    ensures
        r@.len() == 1,
{
    proof {
        reveal_strlit("0");
        reveal_strlit("1");
        reveal_strlit("2");
        reveal_strlit("3");
        reveal_strlit("4");
        reveal_strlit("5");
        reveal_strlit("6");
        reveal_strlit("7");
        reveal_strlit("8");
        reveal_strlit("9");
    }
    match d % 10 {
        0 => "0",
        1 => "1",
        2 => "2",
        3 => "3",
        4 => "4",
        5 => "5",
        6 => "6",
        7 => "7",
        8 => "8",
        _ => "9",
    }
}

/// The name `Problem <n>`.
fn problem_name_for(n: u32) -> (r: String) {
    let mut digits: Vec<u32> = Vec::new();
    let mut v = n;
    if v == 0 {
        digits.push(0);
    }
    while v > 0
        decreases v,
    {
        digits.push(v % 10);
        v = v / 10;
    }
    let mut out = String::from_str("Problem ");
    let mut i: usize = digits.len();
    while i > 0
        invariant
            i <= digits@.len(),
        decreases i,
    {
        i = i - 1;
        out.append(digit_str(digits[i]));
    }
    out
}

/// One lower-case letter as text, from its ASCII code.
fn letter_str(b: u8) -> (r: &'static str)
    ensures
        r@.len() == 1,
        'a' <= r@[0] <= 'z',
{
    proof {
        reveal_strlit("a");
        reveal_strlit("b");
        reveal_strlit("c");
        reveal_strlit("d");
        reveal_strlit("e");
        reveal_strlit("f");
        reveal_strlit("g");
        reveal_strlit("h");
        reveal_strlit("i");
        reveal_strlit("j");
        reveal_strlit("k");
        reveal_strlit("l");
        reveal_strlit("m");
        reveal_strlit("n");
        reveal_strlit("o");
        reveal_strlit("p");
        reveal_strlit("q");
        reveal_strlit("r");
        reveal_strlit("s");
        reveal_strlit("t");
        reveal_strlit("u");
        reveal_strlit("v");
        reveal_strlit("w");
        reveal_strlit("x");
        reveal_strlit("y");
        reveal_strlit("z");
    }
    match b % 26 {
        0 => "a",
        1 => "b",
        2 => "c",
        3 => "d",
        4 => "e",
        5 => "f",
        6 => "g",
        7 => "h",
        8 => "i",
        9 => "j",
        10 => "k",
        11 => "l",
        12 => "m",
        13 => "n",
        14 => "o",
        15 => "p",
        16 => "q",
        17 => "r",
        18 => "s",
        19 => "t",
        20 => "u",
        21 => "v",
        22 => "w",
        23 => "x",
        24 => "y",
        _ => "z",
    }
}

/// A fresh output path for a compiled binary: the fixed prefix and ten
/// random lower-case letters, so concurrent compiles cannot collide.
pub fn compiled_output_name() -> (r: String)
    ensures
        r@.len() == "temp/compiled_"@.len() + 10,
        r@.subrange(0, "temp/compiled_"@.len() as int) == "temp/compiled_"@,
        forall|k: int|
            "temp/compiled_"@.len() <= k < r@.len() ==> 'a' <= #[trigger] r@[k] <= 'z',
{
    let suffix = random_name_suffix();
    let mut out = String::from_str("temp/compiled_");
    let mut i: usize = 0;
    while i < suffix.len()
        invariant
            i <= suffix@.len(),
            suffix@.len() == 10,
            out@.len() == "temp/compiled_"@.len() + i,
            out@.subrange(0, "temp/compiled_"@.len() as int) == "temp/compiled_"@,
            forall|k: int|
                "temp/compiled_"@.len() <= k < out@.len() ==> 'a' <= #[trigger] out@[k] <= 'z',
        decreases suffix@.len() - i,
    {
        out.append(letter_str(suffix[i]));
        proof {
            assert(out@.subrange(0, "temp/compiled_"@.len() as int) =~= "temp/compiled_"@);
        }
        i = i + 1;
    }
    out
}

} // verus!
