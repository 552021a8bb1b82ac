//! The read side of the store: one method per query of the persistence
//! layer, each with an exact contract over the table views.

use vstd::prelude::*;
use crate::seqtools::find_first;
use crate::seqtools::proj;
use crate::seqtools::lemma_find_first_extend;
use crate::seqtools::lemma_take_step;
use crate::store::Store;
use crate::store::StoreError;
use crate::store::UserId;
use crate::store::ContestId;
use crate::store::ProblemId;
use crate::store::SubtaskId;
use crate::store::TestId;
use crate::store::SubmissionId;
use crate::store::UserRow;
use crate::store::ContestRow;
use crate::store::ParticipationRow;
use crate::store::ContestProblemRow;
use crate::store::SubtaskRow;
use crate::store::TestRow;
use crate::store::SubmissionRow;
use crate::store::SubtaskResultRow;
use crate::store::TestResultRow;
use crate::store::SubtaskTestRow;
use crate::store::ScoreRow;
use crate::store::TokenRow;
use crate::store::p_user_id;
use crate::store::p_username;
use crate::store::p_token;
use crate::store::p_contest_id;
use crate::store::p_contest_name;
use crate::store::p_participation;
use crate::store::p_problem_id;
use crate::store::p_problem_name;
use crate::store::p_subtask_id;
use crate::store::p_test_id;
use crate::store::p_submission_id;
use crate::store::p_subtask_result;
use crate::store::p_test_result;
use crate::store::p_score;
use crate::store::problem_test_ids;
use crate::store::problem_subtask_ids;
use crate::store::subtask_test_ids;
use crate::store::submission_subtask_ids;
use crate::store::submission_test_ids;
use crate::store::user_problem_submission_ids;
use crate::store::user_submission_ids;
use crate::verdict::TestingResult;

verus! {

impl Store {
    /// The user with this username, if any.
    pub fn get_user_from_username(&self, username: &str) -> (r: Option<UserId>)
        ensures
            match r {
                Some(id) => find_first(self.users@, p_username(username@)) matches Some(u)
                    && id == u.user_id,
                None => find_first(self.users@, p_username(username@)) is None,
            },
    {
        let ghost p = p_username(username@);
        let n = self.users.len();
        let mut i: usize = 0;
        while i < n
            invariant
                i <= n,
                n == self.users@.len(),
                p == p_username(username@),
                find_first(self.users@.take(i as int), p) is None,
            decreases n - i,
        {
            proof {
                lemma_take_step(self.users@, i as int);
            }
            if crate::text::str_eq(self.users[i].username.as_str(), username) {
                proof {
                    lemma_find_first_extend(self.users@, p, i + 1);
                }
                return Some(self.users[i].user_id);
            }
            i = i + 1;
        }
        proof {
            assert(self.users@.take(n as int) =~= self.users@);
        }
        None
    }

    /// The username of this user, if the user exists.
    pub fn get_username(&self, user_id: UserId) -> (r: Option<String>)
        ensures
            match r {
                Some(name) => find_first(self.users@, p_user_id(user_id)) matches Some(u) && name@
                    == u.username@,
                None => find_first(self.users@, p_user_id(user_id)) is None,
            },
    {
        match self.find_user_idx(user_id) {
            Some(i) => Some(self.users[i].username.clone()),
            None => None,
        }
    }

    /// Whether this user is an administrator; an unknown user is an error.
    pub fn is_user_admin(&self, user_id: UserId) -> (r: Result<bool, StoreError>)
        ensures
            match r {
                Ok(b) => find_first(self.users@, p_user_id(user_id)) matches Some(u) && b
                    == u.is_admin,
                Err(e) => e == StoreError::NotFound && find_first(self.users@, p_user_id(user_id))
                    is None,
            },
    {
        match self.find_user_idx(user_id) {
            Some(i) => Ok(self.users[i].is_admin),
            None => Err(StoreError::NotFound),
        }
    }

    /// All user ids, in insertion order.
    pub fn get_all_users(&self) -> (r: Vec<UserId>)
        ensures
            r@ == proj(self.users@, |u: UserRow| true, |u: UserRow| u.user_id),
    {
        let ghost p = |u: UserRow| true;
        let ghost f = |u: UserRow| u.user_id;
        let n = self.users.len();
        let mut out: Vec<UserId> = Vec::new();
        let mut i: usize = 0;
        while i < n
            invariant
                i <= n,
                n == self.users@.len(),
                p == (|u: UserRow| true),
                f == (|u: UserRow| u.user_id),
                out@ == proj(self.users@.take(i as int), p, f),
            decreases n - i,
        {
            proof {
                lemma_take_step(self.users@, i as int);
            }
            out.push(self.users[i].user_id);
            i = i + 1;
        }
        proof {
            assert(self.users@.take(n as int) =~= self.users@);
        }
        out
    }

    /// The user a login token belongs to, if the token is known.
    pub fn get_user_from_token(&self, token: &str) -> (r: Option<UserId>)
        ensures
            match r {
                Some(id) => find_first(self.tokens@, p_token(token@)) matches Some(t) && id
                    == t.user_id,
                None => find_first(self.tokens@, p_token(token@)) is None,
            },
    {
        let ghost p = p_token(token@);
        let n = self.tokens.len();
        let mut i: usize = 0;
        while i < n
            invariant
                i <= n,
                n == self.tokens@.len(),
                p == p_token(token@),
                find_first(self.tokens@.take(i as int), p) is None,
            decreases n - i,
        {
            proof {
                lemma_take_step(self.tokens@, i as int);
            }
            if crate::text::str_eq(self.tokens[i].token.as_str(), token) {
                proof {
                    lemma_find_first_extend(self.tokens@, p, i + 1);
                }
                return Some(self.tokens[i].user_id);
            }
            i = i + 1;
        }
        proof {
            assert(self.tokens@.take(n as int) =~= self.tokens@);
        }
        None
    }

    /// Whether this contest exists.
    pub fn is_contest_id_valid(&self, contest_id: ContestId) -> (r: bool)
        ensures
            r == (find_first(self.contests@, p_contest_id(contest_id)) is Some),
    {
        match self.find_contest_idx(contest_id) {
            Some(_) => true,
            None => false,
        }
    }

    /// The name of this contest; an unknown contest is an error.
    pub fn get_contest_name(&self, contest_id: ContestId) -> (r: Result<String, StoreError>)
        ensures
            match r {
                Ok(name) => find_first(self.contests@, p_contest_id(contest_id)) matches Some(c)
                    && name@ == c.contest_name@,
                Err(e) => e == StoreError::NotFound && find_first(
                    self.contests@,
                    p_contest_id(contest_id),
                ) is None,
            },
    {
        match self.find_contest_idx(contest_id) {
            Some(i) => Ok(self.contests[i].contest_name.clone()),
            None => Err(StoreError::NotFound),
        }
    }

    /// The contest with this name, if any.
    pub fn get_contest_from_name(&self, contest_name: &str) -> (r: Option<ContestId>)
        ensures
            match r {
                Some(id) => find_first(self.contests@, p_contest_name(contest_name@)) matches Some(
                    c,
                ) && id == c.contest_id,
                None => find_first(self.contests@, p_contest_name(contest_name@)) is None,
            },
    {
        let ghost p = p_contest_name(contest_name@);
        let n = self.contests.len();
        let mut i: usize = 0;
        while i < n
            invariant
                i <= n,
                n == self.contests@.len(),
                p == p_contest_name(contest_name@),
                find_first(self.contests@.take(i as int), p) is None,
            decreases n - i,
        {
            proof {
                lemma_take_step(self.contests@, i as int);
            }
            if crate::text::str_eq(self.contests[i].contest_name.as_str(), contest_name) {
                proof {
                    lemma_find_first_extend(self.contests@, p, i + 1);
                }
                return Some(self.contests[i].contest_id);
            }
            i = i + 1;
        }
        proof {
            assert(self.contests@.take(n as int) =~= self.contests@);
        }
        None
    }

    /// All contest ids, in insertion order.
    pub fn get_all_contests(&self) -> (r: Vec<ContestId>)
        ensures
            r@ == proj(self.contests@, |c: ContestRow| true, |c: ContestRow| c.contest_id),
    {
        let ghost p = |c: ContestRow| true;
        let ghost f = |c: ContestRow| c.contest_id;
        let n = self.contests.len();
        let mut out: Vec<ContestId> = Vec::new();
        let mut i: usize = 0;
        while i < n
            invariant
                i <= n,
                n == self.contests@.len(),
                p == (|c: ContestRow| true),
                f == (|c: ContestRow| c.contest_id),
                out@ == proj(self.contests@.take(i as int), p, f),
            decreases n - i,
        {
            proof {
                lemma_take_step(self.contests@, i as int);
            }
            out.push(self.contests[i].contest_id);
            i = i + 1;
        }
        proof {
            assert(self.contests@.take(n as int) =~= self.contests@);
        }
        out
    }

    /// Whether a user takes part in a contest.
    pub fn is_user_in_contest(&self, user_id: UserId, contest_id: ContestId) -> (r: bool)
        ensures
            r == (find_first(self.participations@, p_participation(contest_id, user_id)) is Some),
    {
        let ghost p = p_participation(contest_id, user_id);
        let n = self.participations.len();
        let mut i: usize = 0;
        while i < n
            invariant
                i <= n,
                n == self.participations@.len(),
                p == p_participation(contest_id, user_id),
                find_first(self.participations@.take(i as int), p) is None,
            decreases n - i,
        {
            proof {
                lemma_take_step(self.participations@, i as int);
            }
            if self.participations[i].contest_id == contest_id && self.participations[i].user_id
                == user_id {
                proof {
                    lemma_find_first_extend(self.participations@, p, i + 1);
                }
                return true;
            }
            i = i + 1;
        }
        proof {
            assert(self.participations@.take(n as int) =~= self.participations@);
        }
        false
    }

    /// The contests this user can see: all of them for an administrator,
    /// otherwise those the user takes part in.
    pub fn get_contests_for_user(&self, user_id: UserId) -> (r: Result<Vec<ContestId>, StoreError>)
        ensures
            match r {
                Ok(ids) => find_first(self.users@, p_user_id(user_id)) matches Some(u) && (
                if u.is_admin {
                    ids@ == proj(self.contests@, |c: ContestRow| true, |c: ContestRow| c.contest_id)
                } else {
                    ids@ == proj(
                        self.participations@,
                        |pr: ParticipationRow| pr.user_id == user_id,
                        |pr: ParticipationRow| pr.contest_id,
                    )
                }),
                Err(e) => e == StoreError::NotFound && find_first(self.users@, p_user_id(user_id))
                    is None,
            },
    {
        let admin = self.is_user_admin(user_id)?;
        if admin {
            return Ok(self.get_all_contests());
        }
        let ghost p = |pr: ParticipationRow| pr.user_id == user_id;
        let ghost f = |pr: ParticipationRow| pr.contest_id;
        let n = self.participations.len();
        let mut out: Vec<ContestId> = Vec::new();
        let mut i: usize = 0;
        while i < n
            invariant
                i <= n,
                n == self.participations@.len(),
                p == (|pr: ParticipationRow| pr.user_id == user_id),
                f == (|pr: ParticipationRow| pr.contest_id),
                out@ == proj(self.participations@.take(i as int), p, f),
            decreases n - i,
        {
            proof {
                lemma_take_step(self.participations@, i as int);
            }
            if self.participations[i].user_id == user_id {
                out.push(self.participations[i].contest_id);
            }
            i = i + 1;
        }
        proof {
            assert(self.participations@.take(n as int) =~= self.participations@);
        }
        Ok(out)
    }

    /// The problems attached to a contest, in insertion order.
    pub fn get_problems_for_contest(&self, contest_id: ContestId) -> (r: Vec<ProblemId>)
        ensures
            r@ == proj(
                self.contest_problems@,
                |cp: ContestProblemRow| cp.contest_id == contest_id,
                |cp: ContestProblemRow| cp.problem_id,
            ),
    {
        let ghost p = |cp: ContestProblemRow| cp.contest_id == contest_id;
        let ghost f = |cp: ContestProblemRow| cp.problem_id;
        let n = self.contest_problems.len();
        let mut out: Vec<ProblemId> = Vec::new();
        let mut i: usize = 0;
        while i < n
            invariant
                i <= n,
                n == self.contest_problems@.len(),
                p == (|cp: ContestProblemRow| cp.contest_id == contest_id),
                f == (|cp: ContestProblemRow| cp.problem_id),
                out@ == proj(self.contest_problems@.take(i as int), p, f),
            decreases n - i,
        {
            proof {
                lemma_take_step(self.contest_problems@, i as int);
            }
            if self.contest_problems[i].contest_id == contest_id {
                out.push(self.contest_problems[i].problem_id);
            }
            i = i + 1;
        }
        proof {
            assert(self.contest_problems@.take(n as int) =~= self.contest_problems@);
        }
        out
    }

    /// Whether this problem exists.
    pub fn is_problem_id_valid(&self, problem_id: ProblemId) -> (r: bool)
        ensures
            r == (find_first(self.problems@, p_problem_id(problem_id)) is Some),
    {
        match self.find_problem_idx(problem_id) {
            Some(_) => true,
            None => false,
        }
    }

    /// The name of this problem; an unknown problem is an error.
    pub fn get_problem_name(&self, problem_id: ProblemId) -> (r: Result<String, StoreError>)
        ensures
            match r {
                Ok(name) => find_first(self.problems@, p_problem_id(problem_id)) matches Some(p)
                    && name@ == p.problem_name@,
                Err(e) => e == StoreError::NotFound && find_first(
                    self.problems@,
                    p_problem_id(problem_id),
                ) is None,
            },
    {
        match self.find_problem_idx(problem_id) {
            Some(i) => Ok(self.problems[i].problem_name.clone()),
            None => Err(StoreError::NotFound),
        }
    }

    /// The description of this problem; an unknown problem is an error.
    pub fn get_problem_description(&self, problem_id: ProblemId) -> (r: Result<String, StoreError>)
        ensures
            match r {
                Ok(d) => find_first(self.problems@, p_problem_id(problem_id)) matches Some(p) && d@
                    == p.problem_description@,
                Err(e) => e == StoreError::NotFound && find_first(
                    self.problems@,
                    p_problem_id(problem_id),
                ) is None,
            },
    {
        match self.find_problem_idx(problem_id) {
            Some(i) => Ok(self.problems[i].problem_description.clone()),
            None => Err(StoreError::NotFound),
        }
    }

    /// The materialised total points of this problem.
    pub fn get_problem_total_points(&self, problem_id: ProblemId) -> (r: Result<i32, StoreError>)
        ensures
            match r {
                Ok(points) => find_first(self.problems@, p_problem_id(problem_id)) matches Some(p)
                    && points == p.points,
                Err(e) => e == StoreError::NotFound && find_first(
                    self.problems@,
                    p_problem_id(problem_id),
                ) is None,
            },
    {
        match self.find_problem_idx(problem_id) {
            Some(i) => Ok(self.problems[i].points),
            None => Err(StoreError::NotFound),
        }
    }

    /// The per-test time limit of this problem, in milliseconds.
    pub fn get_problem_time_limit(&self, problem_id: ProblemId) -> (r: Result<i32, StoreError>)
        ensures
            match r {
                Ok(t) => find_first(self.problems@, p_problem_id(problem_id)) matches Some(p) && t
                    == p.time_limit_ms,
                Err(e) => e == StoreError::NotFound && find_first(
                    self.problems@,
                    p_problem_id(problem_id),
                ) is None,
            },
    {
        match self.find_problem_idx(problem_id) {
            Some(i) => Ok(self.problems[i].time_limit_ms),
            None => Err(StoreError::NotFound),
        }
    }

    /// The problem with this name; an unknown name is an error.
    pub fn get_problem_id_from_name(&self, problem_name: &str) -> (r: Result<ProblemId, StoreError>)
        ensures
            match r {
                Ok(id) => find_first(self.problems@, p_problem_name(problem_name@)) matches Some(p)
                    && id == p.problem_id,
                Err(e) => e == StoreError::NotFound && find_first(
                    self.problems@,
                    p_problem_name(problem_name@),
                ) is None,
            },
    {
        let ghost p = p_problem_name(problem_name@);
        let n = self.problems.len();
        let mut i: usize = 0;
        while i < n
            invariant
                i <= n,
                n == self.problems@.len(),
                p == p_problem_name(problem_name@),
                find_first(self.problems@.take(i as int), p) is None,
            decreases n - i,
        {
            proof {
                lemma_take_step(self.problems@, i as int);
            }
            if crate::text::str_eq(self.problems[i].problem_name.as_str(), problem_name) {
                proof {
                    lemma_find_first_extend(self.problems@, p, i + 1);
                }
                return Ok(self.problems[i].problem_id);
            }
            i = i + 1;
        }
        proof {
            assert(self.problems@.take(n as int) =~= self.problems@);
        }
        Err(StoreError::NotFound)
    }

    /// Whether a problem with this name exists.
    pub fn problem_with_name_exists(&self, problem_name: &str) -> (r: bool)
        ensures
            r == (find_first(self.problems@, p_problem_name(problem_name@)) is Some),
    {
        match self.get_problem_id_from_name(problem_name) {
            Ok(_) => true,
            Err(_) => false,
        }
    }

    /// The recorded score of a user on a problem; zero when none is
    /// recorded.
    pub fn get_user_score_for_problem(&self, user_id: UserId, problem_id: ProblemId) -> (r: i32)
        ensures
            r as int == match find_first(self.scores@, p_score(user_id, problem_id)) {
                Some(row) => row.score as int,
                None => 0,
            },
    {
        let ghost p = p_score(user_id, problem_id);
        let n = self.scores.len();
        let mut i: usize = 0;
        while i < n
            invariant
                i <= n,
                n == self.scores@.len(),
                p == p_score(user_id, problem_id),
                find_first(self.scores@.take(i as int), p) is None,
            decreases n - i,
        {
            proof {
                lemma_take_step(self.scores@, i as int);
            }
            if self.scores[i].user_id == user_id && self.scores[i].problem_id == problem_id {
                proof {
                    lemma_find_first_extend(self.scores@, p, i + 1);
                }
                return self.scores[i].score;
            }
            i = i + 1;
        }
        proof {
            assert(self.scores@.take(n as int) =~= self.scores@);
        }
        0
    }

    /// The input and expected output of a test.
    pub fn get_test_data(&self, test_id: TestId) -> (r: Result<(String, String), StoreError>)
        ensures
            match r {
                Ok(d) => find_first(self.tests@, p_test_id(test_id)) matches Some(t) && d.0@
                    == t.input_data@ && d.1@ == t.output_data@,
                Err(e) => e == StoreError::NotFound && find_first(self.tests@, p_test_id(test_id))
                    is None,
            },
    {
        match self.find_test_idx(test_id) {
            Some(i) => Ok((self.tests[i].input_data.clone(), self.tests[i].output_data.clone())),
            None => Err(StoreError::NotFound),
        }
    }

    /// The tests attached to a subtask, in insertion order.
    pub fn get_tests_for_subtask(&self, subtask_id: SubtaskId) -> (r: Vec<TestId>)
        ensures
            r@ == subtask_test_ids(self.subtask_tests@, subtask_id),
    {
        let ghost p = |row: SubtaskTestRow| row.subtask_id == subtask_id;
        let ghost f = |row: SubtaskTestRow| row.test_id;
        let n = self.subtask_tests.len();
        let mut out: Vec<TestId> = Vec::new();
        let mut i: usize = 0;
        while i < n
            invariant
                i <= n,
                n == self.subtask_tests@.len(),
                p == (|row: SubtaskTestRow| row.subtask_id == subtask_id),
                f == (|row: SubtaskTestRow| row.test_id),
                out@ == proj(self.subtask_tests@.take(i as int), p, f),
            decreases n - i,
        {
            proof {
                lemma_take_step(self.subtask_tests@, i as int);
            }
            if self.subtask_tests[i].subtask_id == subtask_id {
                out.push(self.subtask_tests[i].test_id);
            }
            i = i + 1;
        }
        proof {
            assert(self.subtask_tests@.take(n as int) =~= self.subtask_tests@);
        }
        out
    }

    /// The subtasks of a problem, in insertion order.
    pub fn get_subtasks_for_problem(&self, problem_id: ProblemId) -> (r: Vec<SubtaskId>)
        ensures
            r@ == problem_subtask_ids(self.subtasks@, problem_id),
    {
        let ghost p = |row: SubtaskRow| row.problem_id == problem_id;
        let ghost f = |row: SubtaskRow| row.subtask_id;
        let n = self.subtasks.len();
        let mut out: Vec<SubtaskId> = Vec::new();
        let mut i: usize = 0;
        while i < n
            invariant
                i <= n,
                n == self.subtasks@.len(),
                p == (|row: SubtaskRow| row.problem_id == problem_id),
                f == (|row: SubtaskRow| row.subtask_id),
                out@ == proj(self.subtasks@.take(i as int), p, f),
            decreases n - i,
        {
            proof {
                lemma_take_step(self.subtasks@, i as int);
            }
            if self.subtasks[i].problem_id == problem_id {
                out.push(self.subtasks[i].subtask_id);
            }
            i = i + 1;
        }
        proof {
            assert(self.subtasks@.take(n as int) =~= self.subtasks@);
        }
        out
    }

    /// All tests of a problem, in insertion order.
    pub fn get_all_tests_for_problem(&self, problem_id: ProblemId) -> (r: Vec<TestId>)
        ensures
            r@ == problem_test_ids(self.tests@, problem_id),
    {
        let ghost p = |row: TestRow| row.problem_id == problem_id;
        let ghost f = |row: TestRow| row.test_id;
        let n = self.tests.len();
        let mut out: Vec<TestId> = Vec::new();
        let mut i: usize = 0;
        while i < n
            invariant
                i <= n,
                n == self.tests@.len(),
                p == (|row: TestRow| row.problem_id == problem_id),
                f == (|row: TestRow| row.test_id),
                out@ == proj(self.tests@.take(i as int), p, f),
            decreases n - i,
        {
            proof {
                lemma_take_step(self.tests@, i as int);
            }
            if self.tests[i].problem_id == problem_id {
                out.push(self.tests[i].test_id);
            }
            i = i + 1;
        }
        proof {
            assert(self.tests@.take(n as int) =~= self.tests@);
        }
        out
    }

    /// The score a subtask is worth; an unknown subtask is an error.
    pub fn get_subtask_total_points(&self, subtask_id: SubtaskId) -> (r: Result<i32, StoreError>)
        ensures
            match r {
                Ok(score) => find_first(self.subtasks@, p_subtask_id(subtask_id)) matches Some(st)
                    && score == st.subtask_score,
                Err(e) => e == StoreError::NotFound && find_first(
                    self.subtasks@,
                    p_subtask_id(subtask_id),
                ) is None,
            },
    {
        match self.find_subtask_idx(subtask_id) {
            Some(i) => Ok(self.subtasks[i].subtask_score),
            None => Err(StoreError::NotFound),
        }
    }

    /// The subtasks a submission has result rows for, in insertion order.
    pub fn get_subtasks_for_submission(&self, submission_id: SubmissionId) -> (r: Vec<SubtaskId>)
        ensures
            r@ == submission_subtask_ids(self.subtask_results@, submission_id),
    {
        let ghost p = |row: SubtaskResultRow| row.submission_id == submission_id;
        let ghost f = |row: SubtaskResultRow| row.subtask_id;
        let n = self.subtask_results.len();
        let mut out: Vec<SubtaskId> = Vec::new();
        let mut i: usize = 0;
        while i < n
            invariant
                i <= n,
                n == self.subtask_results@.len(),
                p == (|row: SubtaskResultRow| row.submission_id == submission_id),
                f == (|row: SubtaskResultRow| row.subtask_id),
                out@ == proj(self.subtask_results@.take(i as int), p, f),
            decreases n - i,
        {
            proof {
                lemma_take_step(self.subtask_results@, i as int);
            }
            if self.subtask_results[i].submission_id == submission_id {
                out.push(self.subtask_results[i].subtask_id);
            }
            i = i + 1;
        }
        proof {
            assert(self.subtask_results@.take(n as int) =~= self.subtask_results@);
        }
        out
    }

    /// The tests a submission has result rows for, in insertion order.
    pub fn get_tests_for_submission(&self, submission_id: SubmissionId) -> (r: Vec<TestId>)
        ensures
            r@ == submission_test_ids(self.test_results@, submission_id),
    {
        let ghost p = |row: TestResultRow| row.submission_id == submission_id;
        let ghost f = |row: TestResultRow| row.test_id;
        let n = self.test_results.len();
        let mut out: Vec<TestId> = Vec::new();
        let mut i: usize = 0;
        while i < n
            invariant
                i <= n,
                n == self.test_results@.len(),
                p == (|row: TestResultRow| row.submission_id == submission_id),
                f == (|row: TestResultRow| row.test_id),
                out@ == proj(self.test_results@.take(i as int), p, f),
            decreases n - i,
        {
            proof {
                lemma_take_step(self.test_results@, i as int);
            }
            if self.test_results[i].submission_id == submission_id {
                out.push(self.test_results[i].test_id);
            }
            i = i + 1;
        }
        proof {
            assert(self.test_results@.take(n as int) =~= self.test_results@);
        }
        out
    }

    /// A submission's recorded verdict for one test.
    pub fn get_test_result(&self, submission_id: SubmissionId, test_id: TestId) -> (r: Result<
        TestingResult,
        StoreError,
    >)
        ensures
            match r {
                Ok(v) => find_first(self.test_results@, p_test_result(submission_id, test_id))
                    matches Some(row) && v == row.result,
                Err(e) => e == StoreError::NotFound && find_first(
                    self.test_results@,
                    p_test_result(submission_id, test_id),
                ) is None,
            },
    {
        match self.find_test_result_idx(submission_id, test_id) {
            Some(i) => Ok(self.test_results[i].result),
            None => Err(StoreError::NotFound),
        }
    }

    /// A submission's recorded verdict for one subtask.
    pub fn get_subtask_result(&self, submission_id: SubmissionId, subtask_id: SubtaskId) -> (r:
        Result<TestingResult, StoreError>)
        ensures
            match r {
                Ok(v) => find_first(
                    self.subtask_results@,
                    p_subtask_result(submission_id, subtask_id),
                ) matches Some(row) && v == row.result,
                Err(e) => e == StoreError::NotFound && find_first(
                    self.subtask_results@,
                    p_subtask_result(submission_id, subtask_id),
                ) is None,
            },
    {
        match self.find_subtask_result_idx(submission_id, subtask_id) {
            Some(i) => Ok(self.subtask_results[i].result),
            None => Err(StoreError::NotFound),
        }
    }

    /// A submission's recorded points for one subtask; absent rows and
    /// unset points both read as `None`.
    pub fn get_subtask_points_result(&self, submission_id: SubmissionId, subtask_id: SubtaskId) -> (
        r: Option<i32>)
        ensures
            r == match find_first(
                self.subtask_results@,
                p_subtask_result(submission_id, subtask_id),
            ) {
                Some(row) => row.points,
                None => None::<i32>,
            },
    {
        match self.find_subtask_result_idx(submission_id, subtask_id) {
            Some(i) => self.subtask_results[i].points,
            None => None,
        }
    }

    /// A submission's recorded time for one test.
    pub fn get_test_time(&self, submission_id: SubmissionId, test_id: TestId) -> (r: Result<
        Option<i32>,
        StoreError,
    >)
        ensures
            match r {
                Ok(t) => find_first(self.test_results@, p_test_result(submission_id, test_id))
                    matches Some(row) && t == row.time_ms,
                Err(e) => e == StoreError::NotFound && find_first(
                    self.test_results@,
                    p_test_result(submission_id, test_id),
                ) is None,
            },
    {
        match self.find_test_result_idx(submission_id, test_id) {
            Some(i) => Ok(self.test_results[i].time_ms),
            None => Err(StoreError::NotFound),
        }
    }

    /// The source code of a submission.
    pub fn get_submission_code(&self, submission_id: SubmissionId) -> (r: Result<
        String,
        StoreError,
    >)
        ensures
            match r {
                Ok(code) => find_first(self.submissions@, p_submission_id(submission_id))
                    matches Some(row) && code@ == row.code@,
                Err(e) => e == StoreError::NotFound && find_first(
                    self.submissions@,
                    p_submission_id(submission_id),
                ) is None,
            },
    {
        match self.find_submission_idx(submission_id) {
            Some(i) => Ok(self.submissions[i].code.clone()),
            None => Err(StoreError::NotFound),
        }
    }

    /// The current verdict of a submission.
    pub fn get_submission_result(&self, submission_id: SubmissionId) -> (r: Result<
        TestingResult,
        StoreError,
    >)
        ensures
            match r {
                Ok(v) => find_first(self.submissions@, p_submission_id(submission_id))
                    matches Some(row) && v == row.result,
                Err(e) => e == StoreError::NotFound && find_first(
                    self.submissions@,
                    p_submission_id(submission_id),
                ) is None,
            },
    {
        match self.find_submission_idx(submission_id) {
            Some(i) => Ok(self.submissions[i].result),
            None => Err(StoreError::NotFound),
        }
    }

    /// How many of a submission's tests have completed.
    pub fn get_submission_tests_done(&self, submission_id: SubmissionId) -> (r: Result<
        i32,
        StoreError,
    >)
        ensures
            match r {
                Ok(d) => find_first(self.submissions@, p_submission_id(submission_id))
                    matches Some(row) && d == row.tests_done,
                Err(e) => e == StoreError::NotFound && find_first(
                    self.submissions@,
                    p_submission_id(submission_id),
                ) is None,
            },
    {
        match self.find_submission_idx(submission_id) {
            Some(i) => Ok(self.submissions[i].tests_done),
            None => Err(StoreError::NotFound),
        }
    }

    /// The points of a submission, still unset while grading runs.
    pub fn get_submission_points(&self, submission_id: SubmissionId) -> (r: Result<
        Option<i32>,
        StoreError,
    >)
        ensures
            match r {
                Ok(pts) => find_first(self.submissions@, p_submission_id(submission_id))
                    matches Some(row) && pts == row.points,
                Err(e) => e == StoreError::NotFound && find_first(
                    self.submissions@,
                    p_submission_id(submission_id),
                ) is None,
            },
    {
        match self.find_submission_idx(submission_id) {
            Some(i) => Ok(self.submissions[i].points),
            None => Err(StoreError::NotFound),
        }
    }

    /// The user who made a submission.
    pub fn get_submission_user(&self, submission_id: SubmissionId) -> (r: Result<
        UserId,
        StoreError,
    >)
        ensures
            match r {
                Ok(uid) => find_first(self.submissions@, p_submission_id(submission_id))
                    matches Some(row) && uid == row.user_id,
                Err(e) => e == StoreError::NotFound && find_first(
                    self.submissions@,
                    p_submission_id(submission_id),
                ) is None,
            },
    {
        match self.find_submission_idx(submission_id) {
            Some(i) => Ok(self.submissions[i].user_id),
            None => Err(StoreError::NotFound),
        }
    }

    /// The problem a submission was made for.
    pub fn get_submission_problem(&self, submission_id: SubmissionId) -> (r: Result<
        ProblemId,
        StoreError,
    >)
        ensures
            match r {
                Ok(pid) => find_first(self.submissions@, p_submission_id(submission_id))
                    matches Some(row) && pid == row.problem_id,
                Err(e) => e == StoreError::NotFound && find_first(
                    self.submissions@,
                    p_submission_id(submission_id),
                ) is None,
            },
    {
        match self.find_submission_idx(submission_id) {
            Some(i) => Ok(self.submissions[i].problem_id),
            None => Err(StoreError::NotFound),
        }
    }

    /// A user's submissions for one problem, in insertion order.
    pub fn get_submissions_by_user_for_problem(&self, user_id: UserId, problem_id: ProblemId) -> (r:
        Vec<SubmissionId>)
        ensures
            r@ == user_problem_submission_ids(self.submissions@, user_id, problem_id),
    {
        let ghost p = |row: SubmissionRow| row.user_id == user_id && row.problem_id == problem_id;
        let ghost f = |row: SubmissionRow| row.submission_id;
        let n = self.submissions.len();
        let mut out: Vec<SubmissionId> = Vec::new();
        let mut i: usize = 0;
        while i < n
            invariant
                i <= n,
                n == self.submissions@.len(),
                p == (|row: SubmissionRow| row.user_id == user_id && row.problem_id == problem_id),
                f == (|row: SubmissionRow| row.submission_id),
                out@ == proj(self.submissions@.take(i as int), p, f),
            decreases n - i,
        {
            proof {
                lemma_take_step(self.submissions@, i as int);
            }
            if self.submissions[i].user_id == user_id && self.submissions[i].problem_id
                == problem_id {
                out.push(self.submissions[i].submission_id);
            }
            i = i + 1;
        }
        proof {
            assert(self.submissions@.take(n as int) =~= self.submissions@);
        }
        out
    }

    /// All submissions of one user, in insertion order.
    pub fn get_all_submissions_for_user(&self, user_id: UserId) -> (r: Vec<SubmissionId>)
        ensures
            r@ == user_submission_ids(self.submissions@, user_id),
    {
        let ghost p = |row: SubmissionRow| row.user_id == user_id;
        let ghost f = |row: SubmissionRow| row.submission_id;
        let n = self.submissions.len();
        let mut out: Vec<SubmissionId> = Vec::new();
        let mut i: usize = 0;
        while i < n
            invariant
                i <= n,
                n == self.submissions@.len(),
                p == (|row: SubmissionRow| row.user_id == user_id),
                f == (|row: SubmissionRow| row.submission_id),
                out@ == proj(self.submissions@.take(i as int), p, f),
            decreases n - i,
        {
            proof {
                lemma_take_step(self.submissions@, i as int);
            }
            if self.submissions[i].user_id == user_id {
                out.push(self.submissions[i].submission_id);
            }
            i = i + 1;
        }
        proof {
            assert(self.submissions@.take(n as int) =~= self.submissions@);
        }
        out
    }
}

} // verus!
