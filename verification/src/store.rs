//! The relational grading state: users, contests, problems, subtasks,
//! tests, submissions and their result rows, with the invariants that tie
//! them together — one result row per test and per subtask of the
//! submission's problem, a problem's points equal to the sum of its
//! subtasks' scores, subtask points all-or-nothing, and submission points
//! equal to the sum of its subtask points.

use vstd::prelude::*;
use crate::seqtools::find_first;
use crate::seqtools::proj;
use crate::seqtools::sum_by;
use crate::seqtools::lemma_find_first_extend;
use crate::seqtools::lemma_take_step;
use crate::verdict::TestingResult;
use crate::verdict::is_terminal;

verus! {

pub type UserId = i32;

pub type ContestId = i32;

pub type ProblemId = i32;

pub type SubtaskId = i32;

pub type TestId = i32;

pub type SubmissionId = i32;

pub type UserToken = String;

/// A failure surfaced by a store operation.
#[derive(Clone, Copy, Debug, PartialEq, Eq, Structural)]
pub enum StoreError {
    /// A row that the operation needs does not exist.
    NotFound,
    /// A unique column or key would be duplicated.
    Duplicate,
    /// The operation is not allowed in the present state, such as changing
    /// the tests of a problem that still has submissions.
    Conflict,
    /// A counter or a points total would leave the representable range.
    Overflow,
    /// The password hashing scheme failed.
    Crypto,
    /// The uploaded test archive is malformed.
    InvalidInput,
}

pub struct UserRow {
    pub user_id: UserId,
    pub username: String,
    pub password_hash: String,
    pub is_admin: bool,
}

pub struct TokenRow {
    pub token: String,
    pub expiry_ms: i64,
    pub user_id: UserId,
}

pub struct ContestRow {
    pub contest_id: ContestId,
    pub contest_name: String,
}

pub struct ParticipationRow {
    pub contest_id: ContestId,
    pub user_id: UserId,
}

pub struct ContestProblemRow {
    pub contest_id: ContestId,
    pub problem_id: ProblemId,
}

pub struct ProblemRow {
    pub problem_id: ProblemId,
    pub problem_name: String,
    pub problem_description: String,
    pub points: i32,
    pub time_limit_ms: i32,
}

pub struct SubtaskRow {
    pub subtask_id: SubtaskId,
    pub problem_id: ProblemId,
    pub subtask_score: i32,
}

pub struct TestRow {
    pub test_id: TestId,
    pub problem_id: ProblemId,
    pub input_data: String,
    pub output_data: String,
}

pub struct SubtaskTestRow {
    pub subtask_id: SubtaskId,
    pub test_id: TestId,
}

pub struct SubmissionRow {
    pub submission_id: SubmissionId,
    pub user_id: UserId,
    pub problem_id: ProblemId,
    pub code: String,
    pub result: TestingResult,
    pub points: Option<i32>,
    pub tests_done: i32,
}

pub struct SubtaskResultRow {
    pub submission_id: SubmissionId,
    pub subtask_id: SubtaskId,
    pub result: TestingResult,
    pub points: Option<i32>,
}

pub struct TestResultRow {
    pub submission_id: SubmissionId,
    pub test_id: TestId,
    pub result: TestingResult,
    pub time_ms: Option<i32>,
}

pub struct ScoreRow {
    pub user_id: UserId,
    pub problem_id: ProblemId,
    pub score: i32,
}

/// The in-memory relational state. Identifiers are allocated from
/// per-table counters and never reused.
pub struct Store {
    pub users: Vec<UserRow>,
    pub tokens: Vec<TokenRow>,
    pub contests: Vec<ContestRow>,
    pub participations: Vec<ParticipationRow>,
    pub contest_problems: Vec<ContestProblemRow>,
    pub problems: Vec<ProblemRow>,
    pub subtasks: Vec<SubtaskRow>,
    pub tests: Vec<TestRow>,
    pub subtask_tests: Vec<SubtaskTestRow>,
    pub submissions: Vec<SubmissionRow>,
    pub subtask_results: Vec<SubtaskResultRow>,
    pub test_results: Vec<TestResultRow>,
    pub scores: Vec<ScoreRow>,
    pub next_user_id: i32,
    pub next_contest_id: i32,
    pub next_problem_id: i32,
    pub next_subtask_id: i32,
    pub next_test_id: i32,
    pub next_submission_id: i32,
}

// ---------------------------------------------------------------------
// row selectors and projections
// ---------------------------------------------------------------------
pub open spec fn p_user_id(id: UserId) -> spec_fn(UserRow) -> bool {
    |r: UserRow| r.user_id == id
}

pub open spec fn p_username(name: Seq<char>) -> spec_fn(UserRow) -> bool {
    |r: UserRow| r.username@ == name
}

pub open spec fn p_token(token: Seq<char>) -> spec_fn(TokenRow) -> bool {
    |r: TokenRow| r.token@ == token
}

pub open spec fn p_contest_id(id: ContestId) -> spec_fn(ContestRow) -> bool {
    |r: ContestRow| r.contest_id == id
}

pub open spec fn p_contest_name(name: Seq<char>) -> spec_fn(ContestRow) -> bool {
    |r: ContestRow| r.contest_name@ == name
}

pub open spec fn p_participation(cid: ContestId, uid: UserId) -> spec_fn(ParticipationRow) -> bool {
    |r: ParticipationRow| r.contest_id == cid && r.user_id == uid
}

pub open spec fn p_contest_problem(cid: ContestId, pid: ProblemId) -> spec_fn(
    ContestProblemRow,
) -> bool {
    |r: ContestProblemRow| r.contest_id == cid && r.problem_id == pid
}

pub open spec fn p_problem_id(id: ProblemId) -> spec_fn(ProblemRow) -> bool {
    |r: ProblemRow| r.problem_id == id
}

pub open spec fn p_problem_name(name: Seq<char>) -> spec_fn(ProblemRow) -> bool {
    |r: ProblemRow| r.problem_name@ == name
}

pub open spec fn p_subtask_id(id: SubtaskId) -> spec_fn(SubtaskRow) -> bool {
    |r: SubtaskRow| r.subtask_id == id
}

pub open spec fn p_test_id(id: TestId) -> spec_fn(TestRow) -> bool {
    |r: TestRow| r.test_id == id
}

pub open spec fn p_submission_id(id: SubmissionId) -> spec_fn(SubmissionRow) -> bool {
    |r: SubmissionRow| r.submission_id == id
}

pub open spec fn p_subtask_result(sid: SubmissionId, stid: SubtaskId) -> spec_fn(
    SubtaskResultRow,
) -> bool {
    |r: SubtaskResultRow| r.submission_id == sid && r.subtask_id == stid
}

pub open spec fn p_test_result(sid: SubmissionId, tid: TestId) -> spec_fn(TestResultRow) -> bool {
    |r: TestResultRow| r.submission_id == sid && r.test_id == tid
}

pub open spec fn p_score(uid: UserId, pid: ProblemId) -> spec_fn(ScoreRow) -> bool {
    |r: ScoreRow| r.user_id == uid && r.problem_id == pid
}

pub open spec fn p_submission_problem(pid: ProblemId) -> spec_fn(SubmissionRow) -> bool {
    |r: SubmissionRow| r.problem_id == pid
}

pub open spec fn p_subtask_test(stid: SubtaskId, tid: TestId) -> spec_fn(SubtaskTestRow) -> bool {
    |r: SubtaskTestRow| r.subtask_id == stid && r.test_id == tid
}

/// The ids of the tests of a problem, in insertion order.
pub open spec fn problem_test_ids(tests: Seq<TestRow>, pid: ProblemId) -> Seq<TestId> {
    proj(tests, |r: TestRow| r.problem_id == pid, |r: TestRow| r.test_id)
}

/// The input and expected output of a problem's tests, in insertion
/// order.
pub open spec fn problem_test_io(tests: Seq<TestRow>, pid: ProblemId) -> Seq<(Seq<char>, Seq<char>)> {
    proj(
        tests,
        |r: TestRow| r.problem_id == pid,
        |r: TestRow| (r.input_data@, r.output_data@),
    )
}

/// The scores of a problem's subtasks, in insertion order.
pub open spec fn problem_subtask_scores(subtasks: Seq<SubtaskRow>, pid: ProblemId) -> Seq<i32> {
    proj(subtasks, |r: SubtaskRow| r.problem_id == pid, |r: SubtaskRow| r.subtask_score)
}

/// The ids of the subtasks of a problem, in insertion order.
pub open spec fn problem_subtask_ids(subtasks: Seq<SubtaskRow>, pid: ProblemId) -> Seq<SubtaskId> {
    proj(subtasks, |r: SubtaskRow| r.problem_id == pid, |r: SubtaskRow| r.subtask_id)
}

/// The sum of the scores of a problem's subtasks.
pub open spec fn problem_subtask_score_sum(subtasks: Seq<SubtaskRow>, pid: ProblemId) -> int {
    sum_by(
        subtasks,
        |r: SubtaskRow|
            if r.problem_id == pid {
                r.subtask_score as int
            } else {
                0
            },
    )
}

/// The test ids of a submission's result rows, in insertion order.
pub open spec fn submission_test_ids(trs: Seq<TestResultRow>, sid: SubmissionId) -> Seq<TestId> {
    proj(trs, |r: TestResultRow| r.submission_id == sid, |r: TestResultRow| r.test_id)
}

/// The subtask ids of a submission's result rows, in insertion order.
pub open spec fn submission_subtask_ids(srs: Seq<SubtaskResultRow>, sid: SubmissionId) -> Seq<
    SubtaskId,
> {
    proj(srs, |r: SubtaskResultRow| r.submission_id == sid, |r: SubtaskResultRow| r.subtask_id)
}

/// The score a subtask is worth, a missing subtask read as zero.
pub open spec fn subtask_score_of(subtasks: Seq<SubtaskRow>, stid: SubtaskId) -> int {
    match find_first(subtasks, p_subtask_id(stid)) {
        Some(r) => r.subtask_score as int,
        None => 0,
    }
}

/// A submission's recorded verdict on one test, a missing row read as
/// `InternalError`.
pub open spec fn test_verdict_of(trs: Seq<TestResultRow>, sid: SubmissionId, tid: TestId) -> TestingResult {
    match find_first(trs, p_test_result(sid, tid)) {
        Some(r) => r.result,
        None => TestingResult::InternalError,
    }
}

/// The points a submission holds on one subtask, a missing row or unset
/// points read as zero.
pub open spec fn points_of(srs: Seq<SubtaskResultRow>, sid: SubmissionId, stid: SubtaskId) -> int {
    match find_first(srs, p_subtask_result(sid, stid)) {
        Some(r) => row_points(r.points),
        None => 0,
    }
}

/// The sum of a submission's points over a list of subtask ids.
pub open spec fn sum_points_over(
    srs: Seq<SubtaskResultRow>,
    sid: SubmissionId,
    stids: Seq<SubtaskId>,
) -> int
    decreases stids.len(),
{
    if stids.len() == 0 {
        0
    } else {
        sum_points_over(srs, sid, stids.drop_last()) + points_of(srs, sid, stids.last())
    }
}

/// The aggregate verdict of a list of tests: `Accepted` when every test
/// is, otherwise the last non-accepted verdict in scan order.
pub open spec fn subtask_agg_verdict(
    trs: Seq<TestResultRow>,
    sid: SubmissionId,
    tids: Seq<TestId>,
) -> TestingResult
    decreases tids.len(),
{
    if tids.len() == 0 {
        TestingResult::Accepted
    } else {
        let v = test_verdict_of(trs, sid, tids.last());
        if v != TestingResult::Accepted {
            v
        } else {
            subtask_agg_verdict(trs, sid, tids.drop_last())
        }
    }
}

/// The points the aggregation awards one subtask: its full score when all
/// member tests are accepted, zero otherwise.
pub open spec fn subtask_agg_points(
    subtasks: Seq<SubtaskRow>,
    trs: Seq<TestResultRow>,
    sts: Seq<SubtaskTestRow>,
    sid: SubmissionId,
    stid: SubtaskId,
) -> int {
    if subtask_agg_verdict(trs, sid, subtask_test_ids(sts, stid)) == TestingResult::Accepted {
        subtask_score_of(subtasks, stid)
    } else {
        0
    }
}

/// The aggregate verdict of a submission over its subtasks: `Accepted`
/// when every subtask is, otherwise the last non-accepted subtask verdict
/// in scan order.
pub open spec fn submission_agg_verdict(
    trs: Seq<TestResultRow>,
    sts: Seq<SubtaskTestRow>,
    sid: SubmissionId,
    stids: Seq<SubtaskId>,
) -> TestingResult
    decreases stids.len(),
{
    if stids.len() == 0 {
        TestingResult::Accepted
    } else {
        let v = subtask_agg_verdict(trs, sid, subtask_test_ids(sts, stids.last()));
        if v != TestingResult::Accepted {
            v
        } else {
            submission_agg_verdict(trs, sts, sid, stids.drop_last())
        }
    }
}

/// The total points the aggregation awards a submission.
pub open spec fn submission_agg_total(
    subtasks: Seq<SubtaskRow>,
    trs: Seq<TestResultRow>,
    sts: Seq<SubtaskTestRow>,
    sid: SubmissionId,
    stids: Seq<SubtaskId>,
) -> int
    decreases stids.len(),
{
    if stids.len() == 0 {
        0
    } else {
        submission_agg_total(subtasks, trs, sts, sid, stids.drop_last()) + subtask_agg_points(
            subtasks,
            trs,
            sts,
            sid,
            stids.last(),
        )
    }
}

/// Every member test of every listed subtask has a result row for this
/// submission.
pub open spec fn all_member_tests_recorded(
    trs: Seq<TestResultRow>,
    sts: Seq<SubtaskTestRow>,
    sid: SubmissionId,
    stids: Seq<SubtaskId>,
) -> bool {
    forall|a: int, b: int|
        0 <= a < stids.len() && 0 <= b < subtask_test_ids(sts, #[trigger] stids[a]).len()
            ==> find_first(
            trs,
            p_test_result(sid, #[trigger] subtask_test_ids(sts, stids[a])[b]),
        ) is Some
}

/// The points recorded on one subtask-result row, a missing value read as
/// zero.
pub open spec fn row_points(p: Option<i32>) -> int {
    match p {
        Some(v) => v as int,
        None => 0,
    }
}

/// The sum of a submission's subtask points, each subtask counted once in
/// row order, missing values read as zero.
pub open spec fn submission_points_sum(srs: Seq<SubtaskResultRow>, sid: SubmissionId) -> int {
    sum_points_over(srs, sid, submission_subtask_ids(srs, sid))
}

/// The test ids attached to a subtask, in insertion order.
pub open spec fn subtask_test_ids(sts: Seq<SubtaskTestRow>, stid: SubtaskId) -> Seq<TestId> {
    proj(sts, |r: SubtaskTestRow| r.subtask_id == stid, |r: SubtaskTestRow| r.test_id)
}

/// The submission ids of one user for one problem, in insertion order.
pub open spec fn user_problem_submission_ids(
    subs: Seq<SubmissionRow>,
    uid: UserId,
    pid: ProblemId,
) -> Seq<SubmissionId> {
    proj(
        subs,
        |r: SubmissionRow| r.user_id == uid && r.problem_id == pid,
        |r: SubmissionRow| r.submission_id,
    )
}

/// The submission ids of one user, in insertion order.
pub open spec fn user_submission_ids(subs: Seq<SubmissionRow>, uid: UserId) -> Seq<SubmissionId> {
    proj(subs, |r: SubmissionRow| r.user_id == uid, |r: SubmissionRow| r.submission_id)
}

impl Store {
    /// Identifier bounds: every row's identifier was allocated from its
    /// counter, so a fresh identifier occurs nowhere.
    pub open spec fn wf_id_bounds(self) -> bool {
        &&& 1 <= self.next_user_id
        &&& 1 <= self.next_contest_id
        &&& 1 <= self.next_problem_id
        &&& 1 <= self.next_subtask_id
        &&& 1 <= self.next_test_id
        &&& 1 <= self.next_submission_id
        &&& forall|i: int|
            0 <= i < self.users@.len() ==> 1 <= (#[trigger] self.users@[i]).user_id
                < self.next_user_id
        &&& forall|i: int|
            0 <= i < self.contests@.len() ==> 1 <= (#[trigger] self.contests@[i]).contest_id
                < self.next_contest_id
        &&& forall|i: int|
            0 <= i < self.problems@.len() ==> 1 <= (#[trigger] self.problems@[i]).problem_id
                < self.next_problem_id
        &&& forall|i: int|
            0 <= i < self.subtasks@.len() ==> 1 <= (#[trigger] self.subtasks@[i]).subtask_id
                < self.next_subtask_id
        &&& forall|i: int|
            0 <= i < self.tests@.len() ==> 1 <= (#[trigger] self.tests@[i]).test_id
                < self.next_test_id
        &&& forall|i: int|
            0 <= i < self.submissions@.len() ==> 1 <= (#[trigger] self.submissions@[
                i
            ]).submission_id < self.next_submission_id
        &&& forall|i: int|
            0 <= i < self.subtask_results@.len() ==> 1 <= (#[trigger] self.subtask_results@[
                i
            ]).submission_id < self.next_submission_id
        &&& forall|i: int|
            0 <= i < self.test_results@.len() ==> 1 <= (#[trigger] self.test_results@[
                i
            ]).submission_id < self.next_submission_id
        &&& forall|i: int|
            0 <= i < self.subtasks@.len() ==> 1 <= (#[trigger] self.subtasks@[i]).problem_id
                < self.next_problem_id
        &&& forall|i: int|
            0 <= i < self.tests@.len() ==> 1 <= (#[trigger] self.tests@[i]).problem_id
                < self.next_problem_id
        &&& forall|i: int|
            0 <= i < self.subtask_results@.len() ==> 1 <= (#[trigger] self.subtask_results@[
                i
            ]).subtask_id < self.next_subtask_id
    }

    /// Key uniqueness: primary keys and unique columns.
    pub open spec fn wf_unique(self) -> bool {
        &&& forall|i: int, j: int|
            0 <= i < j < self.users@.len() ==> (#[trigger] self.users@[i]).user_id != (
            #[trigger] self.users@[j]).user_id && self.users@[i].username@ != self.users@[
                j
            ].username@
        &&& forall|i: int, j: int|
            0 <= i < j < self.contests@.len() ==> (#[trigger] self.contests@[i]).contest_id != (
            #[trigger] self.contests@[j]).contest_id && self.contests@[i].contest_name@
                != self.contests@[j].contest_name@
        &&& forall|i: int, j: int|
            0 <= i < j < self.problems@.len() ==> (#[trigger] self.problems@[i]).problem_id != (
            #[trigger] self.problems@[j]).problem_id && self.problems@[i].problem_name@
                != self.problems@[j].problem_name@
        &&& forall|i: int, j: int|
            0 <= i < j < self.subtasks@.len() ==> (#[trigger] self.subtasks@[i]).subtask_id != (
            #[trigger] self.subtasks@[j]).subtask_id
        &&& forall|i: int, j: int|
            0 <= i < j < self.tests@.len() ==> (#[trigger] self.tests@[i]).test_id != (
            #[trigger] self.tests@[j]).test_id
        &&& forall|i: int, j: int|
            0 <= i < j < self.submissions@.len() ==> (#[trigger] self.submissions@[
                i
            ]).submission_id != (#[trigger] self.submissions@[j]).submission_id
        &&& forall|i: int, j: int|
            0 <= i < j < self.subtask_results@.len() ==> !((#[trigger] self.subtask_results@[
                i
            ]).submission_id == (#[trigger] self.subtask_results@[j]).submission_id
                && self.subtask_results@[i].subtask_id == self.subtask_results@[j].subtask_id)
        &&& forall|i: int, j: int|
            0 <= i < j < self.test_results@.len() ==> !((#[trigger] self.test_results@[
                i
            ]).submission_id == (#[trigger] self.test_results@[j]).submission_id
                && self.test_results@[i].test_id == self.test_results@[j].test_id)
        &&& forall|i: int, j: int|
            0 <= i < j < self.subtask_tests@.len() ==> !((#[trigger] self.subtask_tests@[
                i
            ]).subtask_id == (#[trigger] self.subtask_tests@[j]).subtask_id
                && self.subtask_tests@[i].test_id == self.subtask_tests@[j].test_id)
        &&& forall|i: int, j: int|
            0 <= i < j < self.participations@.len() ==> !((#[trigger] self.participations@[
                i
            ]).contest_id == (#[trigger] self.participations@[j]).contest_id
                && self.participations@[i].user_id == self.participations@[j].user_id)
        &&& forall|i: int, j: int|
            0 <= i < j < self.contest_problems@.len() ==> !((#[trigger] self.contest_problems@[
                i
            ]).contest_id == (#[trigger] self.contest_problems@[j]).contest_id
                && self.contest_problems@[i].problem_id == self.contest_problems@[j].problem_id)
        &&& forall|i: int, j: int|
            0 <= i < j < self.scores@.len() ==> !((#[trigger] self.scores@[i]).user_id == (
            #[trigger] self.scores@[j]).user_id && self.scores@[i].problem_id == self.scores@[
                j
            ].problem_id)
    }

    /// Scoring shape: subtask scores are non-negative, a problem's points
    /// are the sum of its subtasks' scores, and recorded subtask points are
    /// all-or-nothing against their subtask's score.
    pub open spec fn wf_scoring(self) -> bool {
        &&& forall|i: int|
            0 <= i < self.subtasks@.len() ==> (#[trigger] self.subtasks@[i]).subtask_score >= 0
        &&& forall|i: int|
            0 <= i < self.problems@.len() ==> (#[trigger] self.problems@[i]).points as int
                == problem_subtask_score_sum(self.subtasks@, self.problems@[i].problem_id)
        &&& forall|i: int|
            0 <= i < self.subtask_results@.len() ==> match (#[trigger] self.subtask_results@[
                i
            ]).points {
                Some(p) => p == 0 || (find_first(
                    self.subtasks@,
                    p_subtask_id(self.subtask_results@[i].subtask_id),
                ) matches Some(st) && p == st.subtask_score),
                None => true,
            }
        &&& forall|i: int|
            0 <= i < self.scores@.len() ==> (#[trigger] self.scores@[i]).score >= 0
    }

    /// Result-row shape: every submission has exactly one result row per
    /// test and per subtask of its problem, in table order, its counter of
    /// finished tests within range, and — once graded — its points equal to
    /// the sum of its subtask points.
    pub open spec fn wf_submissions(self) -> bool {
        &&& forall|i: int|
            0 <= i < self.submissions@.len() ==> submission_test_ids(
                self.test_results@,
                (#[trigger] self.submissions@[i]).submission_id,
            ) == problem_test_ids(self.tests@, self.submissions@[i].problem_id)
        &&& forall|i: int|
            0 <= i < self.submissions@.len() ==> submission_subtask_ids(
                self.subtask_results@,
                (#[trigger] self.submissions@[i]).submission_id,
            ) == problem_subtask_ids(self.subtasks@, self.submissions@[i].problem_id)
        &&& forall|i: int|
            0 <= i < self.submissions@.len() ==> 0 <= (#[trigger] self.submissions@[i]).tests_done
                <= submission_test_ids(self.test_results@, self.submissions@[i].submission_id).len()
        &&& forall|i: int|
            0 <= i < self.submissions@.len() ==> (is_terminal(
                (#[trigger] self.submissions@[i]).result,
            ) && self.submissions@[i].result != TestingResult::CompilationError ==> (
            self.submissions@[i].tests_done as int == submission_test_ids(
                self.test_results@,
                self.submissions@[i].submission_id,
            ).len() && self.submissions@[i].points is Some))
        &&& forall|i: int|
            0 <= i < self.submissions@.len() ==> match (#[trigger] self.submissions@[i]).points {
                Some(p) => p as int == submission_points_sum(
                    self.subtask_results@,
                    self.submissions@[i].submission_id,
                ),
                None => true,
            }
    }

    /// The store's well-formedness invariant: every operation preserves it.
    pub open spec fn wf(self) -> bool {
        &&& self.wf_id_bounds()
        &&& self.wf_unique()
        &&& self.wf_scoring()
        &&& self.wf_submissions()
    }

    /// An empty store, as the idempotent schema bootstrap leaves a fresh
    /// database.
    pub fn new() -> (s: Store)
        ensures
            s.wf(),
            s.users@.len() == 0,
            s.contests@.len() == 0,
            s.problems@.len() == 0,
            s.subtasks@.len() == 0,
            s.tests@.len() == 0,
            s.submissions@.len() == 0,
            s.subtask_results@.len() == 0,
            s.test_results@.len() == 0,
            s.scores@.len() == 0,
            s.tokens@.len() == 0,
            s.participations@.len() == 0,
            s.contest_problems@.len() == 0,
    {
        Store {
            users: Vec::new(),
            tokens: Vec::new(),
            contests: Vec::new(),
            participations: Vec::new(),
            contest_problems: Vec::new(),
            problems: Vec::new(),
            subtasks: Vec::new(),
            tests: Vec::new(),
            subtask_tests: Vec::new(),
            submissions: Vec::new(),
            subtask_results: Vec::new(),
            test_results: Vec::new(),
            scores: Vec::new(),
            next_user_id: 1,
            next_contest_id: 1,
            next_problem_id: 1,
            next_subtask_id: 1,
            next_test_id: 1,
            next_submission_id: 1,
        }
    }

    /// Index of the problem row with this id.
    pub fn find_problem_idx(&self, problem_id: ProblemId) -> (r: Option<usize>)
        ensures
            match r {
                Some(i) => i < self.problems@.len() && find_first(
                    self.problems@,
                    p_problem_id(problem_id),
                ) == Some(self.problems@[i as int]),
                None => find_first(self.problems@, p_problem_id(problem_id)) is None,
            },
    {
        let ghost p = p_problem_id(problem_id);
        let n = self.problems.len();
        let mut i: usize = 0;
        while i < n
            invariant
                i <= n,
                n == self.problems@.len(),
                p == p_problem_id(problem_id),
                find_first(self.problems@.take(i as int), p) is None,
            decreases n - i,
        {
            proof {
                lemma_take_step(self.problems@, i as int);
            }
            if self.problems[i].problem_id == problem_id {
                proof {
                    lemma_find_first_extend(self.problems@, p, i + 1);
                }
                return Some(i);
            }
            i = i + 1;
        }
        proof {
            assert(self.problems@.take(n as int) =~= self.problems@);
        }
        None
    }

    /// Index of the user row with this id.
    pub fn find_user_idx(&self, user_id: UserId) -> (r: Option<usize>)
        ensures
            match r {
                Some(i) => i < self.users@.len() && find_first(self.users@, p_user_id(user_id))
                    == Some(self.users@[i as int]),
                None => find_first(self.users@, p_user_id(user_id)) is None,
            },
    {
        let ghost p = p_user_id(user_id);
        let n = self.users.len();
        let mut i: usize = 0;
        while i < n
            invariant
                i <= n,
                n == self.users@.len(),
                p == p_user_id(user_id),
                find_first(self.users@.take(i as int), p) is None,
            decreases n - i,
        {
            proof {
                lemma_take_step(self.users@, i as int);
            }
            if self.users[i].user_id == user_id {
                proof {
                    lemma_find_first_extend(self.users@, p, i + 1);
                }
                return Some(i);
            }
            i = i + 1;
        }
        proof {
            assert(self.users@.take(n as int) =~= self.users@);
        }
        None
    }

    /// Index of the contest row with this id.
    pub fn find_contest_idx(&self, contest_id: ContestId) -> (r: Option<usize>)
        ensures
            match r {
                Some(i) => i < self.contests@.len() && find_first(
                    self.contests@,
                    p_contest_id(contest_id),
                ) == Some(self.contests@[i as int]),
                None => find_first(self.contests@, p_contest_id(contest_id)) is None,
            },
    {
        let ghost p = p_contest_id(contest_id);
        let n = self.contests.len();
        let mut i: usize = 0;
        while i < n
            invariant
                i <= n,
                n == self.contests@.len(),
                p == p_contest_id(contest_id),
                find_first(self.contests@.take(i as int), p) is None,
            decreases n - i,
        {
            proof {
                lemma_take_step(self.contests@, i as int);
            }
            if self.contests[i].contest_id == contest_id {
                proof {
                    lemma_find_first_extend(self.contests@, p, i + 1);
                }
                return Some(i);
            }
            i = i + 1;
        }
        proof {
            assert(self.contests@.take(n as int) =~= self.contests@);
        }
        None
    }

    /// Index of the subtask row with this id.
    pub fn find_subtask_idx(&self, subtask_id: SubtaskId) -> (r: Option<usize>)
        ensures
            match r {
                Some(i) => i < self.subtasks@.len() && find_first(
                    self.subtasks@,
                    p_subtask_id(subtask_id),
                ) == Some(self.subtasks@[i as int]),
                None => find_first(self.subtasks@, p_subtask_id(subtask_id)) is None,
            },
    {
        let ghost p = p_subtask_id(subtask_id);
        let n = self.subtasks.len();
        let mut i: usize = 0;
        while i < n
            invariant
                i <= n,
                n == self.subtasks@.len(),
                p == p_subtask_id(subtask_id),
                find_first(self.subtasks@.take(i as int), p) is None,
            decreases n - i,
        {
            proof {
                lemma_take_step(self.subtasks@, i as int);
            }
            if self.subtasks[i].subtask_id == subtask_id {
                proof {
                    lemma_find_first_extend(self.subtasks@, p, i + 1);
                }
                return Some(i);
            }
            i = i + 1;
        }
        proof {
            assert(self.subtasks@.take(n as int) =~= self.subtasks@);
        }
        None
    }

    /// Index of the test row with this id.
    pub fn find_test_idx(&self, test_id: TestId) -> (r: Option<usize>)
        ensures
            match r {
                Some(i) => i < self.tests@.len() && find_first(self.tests@, p_test_id(test_id))
                    == Some(self.tests@[i as int]),
                None => find_first(self.tests@, p_test_id(test_id)) is None,
            },
    {
        let ghost p = p_test_id(test_id);
        let n = self.tests.len();
        let mut i: usize = 0;
        while i < n
            invariant
                i <= n,
                n == self.tests@.len(),
                p == p_test_id(test_id),
                find_first(self.tests@.take(i as int), p) is None,
            decreases n - i,
        {
            proof {
                lemma_take_step(self.tests@, i as int);
            }
            if self.tests[i].test_id == test_id {
                proof {
                    lemma_find_first_extend(self.tests@, p, i + 1);
                }
                return Some(i);
            }
            i = i + 1;
        }
        proof {
            assert(self.tests@.take(n as int) =~= self.tests@);
        }
        None
    }

    /// Index of the submission row with this id.
    pub fn find_submission_idx(&self, submission_id: SubmissionId) -> (r: Option<usize>)
        ensures
            match r {
                Some(i) => i < self.submissions@.len() && find_first(
                    self.submissions@,
                    p_submission_id(submission_id),
                ) == Some(self.submissions@[i as int]),
                None => find_first(self.submissions@, p_submission_id(submission_id)) is None,
            },
    {
        let ghost p = p_submission_id(submission_id);
        let n = self.submissions.len();
        let mut i: usize = 0;
        while i < n
            invariant
                i <= n,
                n == self.submissions@.len(),
                p == p_submission_id(submission_id),
                find_first(self.submissions@.take(i as int), p) is None,
            decreases n - i,
        {
            proof {
                lemma_take_step(self.submissions@, i as int);
            }
            if self.submissions[i].submission_id == submission_id {
                proof {
                    lemma_find_first_extend(self.submissions@, p, i + 1);
                }
                return Some(i);
            }
            i = i + 1;
        }
        proof {
            assert(self.submissions@.take(n as int) =~= self.submissions@);
        }
        None
    }

    /// Index of a submission's result row for one test.
    pub fn find_test_result_idx(&self, submission_id: SubmissionId, test_id: TestId) -> (r: Option<
        usize,
    >)
        ensures
            match r {
                Some(i) => i < self.test_results@.len() && find_first(
                    self.test_results@,
                    p_test_result(submission_id, test_id),
                ) == Some(self.test_results@[i as int]),
                None => find_first(self.test_results@, p_test_result(submission_id, test_id))
                    is None,
            },
    {
        let ghost p = p_test_result(submission_id, test_id);
        let n = self.test_results.len();
        let mut i: usize = 0;
        while i < n
            invariant
                i <= n,
                n == self.test_results@.len(),
                p == p_test_result(submission_id, test_id),
                find_first(self.test_results@.take(i as int), p) is None,
            decreases n - i,
        {
            proof {
                lemma_take_step(self.test_results@, i as int);
            }
            if self.test_results[i].submission_id == submission_id && self.test_results[i].test_id
                == test_id {
                proof {
                    lemma_find_first_extend(self.test_results@, p, i + 1);
                }
                return Some(i);
            }
            i = i + 1;
        }
        proof {
            assert(self.test_results@.take(n as int) =~= self.test_results@);
        }
        None
    }

    /// Index of a submission's result row for one subtask.
    pub fn find_subtask_result_idx(&self, submission_id: SubmissionId, subtask_id: SubtaskId) -> (r:
        Option<usize>)
        ensures
            match r {
                Some(i) => i < self.subtask_results@.len() && find_first(
                    self.subtask_results@,
                    p_subtask_result(submission_id, subtask_id),
                ) == Some(self.subtask_results@[i as int]),
                None => find_first(
                    self.subtask_results@,
                    p_subtask_result(submission_id, subtask_id),
                ) is None,
            },
    {
        let ghost p = p_subtask_result(submission_id, subtask_id);
        let n = self.subtask_results.len();
        let mut i: usize = 0;
        while i < n
            invariant
                i <= n,
                n == self.subtask_results@.len(),
                p == p_subtask_result(submission_id, subtask_id),
                find_first(self.subtask_results@.take(i as int), p) is None,
            decreases n - i,
        {
            proof {
                lemma_take_step(self.subtask_results@, i as int);
            }
            if self.subtask_results[i].submission_id == submission_id
                && self.subtask_results[i].subtask_id == subtask_id {
                proof {
                    lemma_find_first_extend(self.subtask_results@, p, i + 1);
                }
                return Some(i);
            }
            i = i + 1;
        }
        proof {
            assert(self.subtask_results@.take(n as int) =~= self.subtask_results@);
        }
        None
    }
}

} // verus!
