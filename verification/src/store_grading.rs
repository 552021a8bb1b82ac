//! The grading writes: seeding a submission's rows, recording per-test
//! verdicts and times, the fan-in counter, and the aggregation of test
//! verdicts into subtask and submission verdicts and points.

use vstd::prelude::*;
use crate::seqtools::find_first;
use crate::seqtools::lemma_find_first_congruence;
use crate::seqtools::lemma_find_first_push;
use crate::seqtools::lemma_find_first_some;
use crate::seqtools::lemma_proj_congruence;
use crate::seqtools::lemma_proj_membership;
use crate::seqtools::lemma_proj_pairwise;
use crate::seqtools::lemma_proj_push;
use crate::seqtools::lemma_take_step;
use crate::store::Store;
use crate::store::StoreError;
use crate::store::UserId;
use crate::store::ProblemId;
use crate::store::SubtaskId;
use crate::store::TestId;
use crate::store::SubmissionId;
use crate::store::SubmissionRow;
use crate::store::SubtaskRow;
use crate::store::TestRow;
use crate::store::SubtaskResultRow;
use crate::store::TestResultRow;
use crate::store::p_user_id;
use crate::store::p_problem_id;
use crate::store::p_submission_id;
use crate::store::p_subtask_result;
use crate::store::p_test_result;
use crate::store::problem_test_ids;
use crate::store::problem_subtask_ids;
use crate::store::submission_test_ids;
use crate::store::submission_subtask_ids;
use crate::store::points_of;
use crate::store::row_points;
use crate::store::sum_points_over;
use crate::verdict::TestingResult;
use crate::verdict::is_terminal;

verus! {

/// Result rows with the same keys give every submission the same test-id
/// projection.
proof fn lemma_tr_ids_congruent(t1: Seq<TestResultRow>, t2: Seq<TestResultRow>, sid: SubmissionId)
    requires
        t1.len() == t2.len(),
        forall|i: int|
            0 <= i < t1.len() ==> (#[trigger] t1[i]).submission_id == (
            #[trigger] t2[i]).submission_id && t1[i].test_id == t2[i].test_id,
    ensures
        submission_test_ids(t2, sid) == submission_test_ids(t1, sid),
{
    lemma_proj_congruence(
        t1,
        t2,
        |r: TestResultRow| r.submission_id == sid,
        |r: TestResultRow| r.test_id,
    );
}

/// Subtask-result rows with the same keys give every submission the same
/// subtask-id projection.
proof fn lemma_sr_ids_congruent(
    s1: Seq<SubtaskResultRow>,
    s2: Seq<SubtaskResultRow>,
    sid: SubmissionId,
)
    requires
        s1.len() == s2.len(),
        forall|i: int|
            0 <= i < s1.len() ==> (#[trigger] s1[i]).submission_id == (
            #[trigger] s2[i]).submission_id && s1[i].subtask_id == s2[i].subtask_id,
    ensures
        submission_subtask_ids(s2, sid) == submission_subtask_ids(s1, sid),
{
    lemma_proj_congruence(
        s1,
        s2,
        |r: SubtaskResultRow| r.submission_id == sid,
        |r: SubtaskResultRow| r.subtask_id,
    );
}

/// Rows with the same keys and, for this pair, the same points, record the
/// same points.
proof fn lemma_points_of_congruent(
    s1: Seq<SubtaskResultRow>,
    s2: Seq<SubtaskResultRow>,
    sid: SubmissionId,
    stid: SubtaskId,
)
    requires
        s1.len() == s2.len(),
        forall|i: int|
            0 <= i < s1.len() ==> (#[trigger] s1[i]).submission_id == (
            #[trigger] s2[i]).submission_id && s1[i].subtask_id == s2[i].subtask_id,
        forall|i: int|
            0 <= i < s1.len() && (#[trigger] s1[i]).submission_id == sid && s1[i].subtask_id
                == stid ==> s1[i].points == (#[trigger] s2[i]).points,
    ensures
        points_of(s2, sid, stid) == points_of(s1, sid, stid),
    decreases s1.len(),
{
    if s1.len() > 0 {
        assert(forall|i: int|
            0 <= i < s1.len() - 1 ==> s1.drop_last()[i] == #[trigger] s1[i]
                && s2.drop_last()[i] == #[trigger] s2[i]);
        lemma_points_of_congruent(s1.drop_last(), s2.drop_last(), sid, stid);
        crate::seqtools::lemma_find_first_align(
            s1.drop_last(),
            s2.drop_last(),
            p_subtask_result(sid, stid),
            p_subtask_result(sid, stid),
        );
    }
}

/// A sum over subtask ids is unchanged when each id's points are.
proof fn lemma_sum_points_congruent(
    s1: Seq<SubtaskResultRow>,
    s2: Seq<SubtaskResultRow>,
    sid: SubmissionId,
    stids: Seq<SubtaskId>,
)
    requires
        forall|j: int|
            0 <= j < stids.len() ==> points_of(s2, sid, #[trigger] stids[j]) == points_of(
                s1,
                sid,
                stids[j],
            ),
    ensures
        sum_points_over(s2, sid, stids) == sum_points_over(s1, sid, stids),
    decreases stids.len(),
{
    if stids.len() > 0 {
        assert(forall|j: int|
            0 <= j < stids.len() - 1 ==> stids.drop_last()[j] == #[trigger] stids[j]);
        lemma_sum_points_congruent(s1, s2, sid, stids.drop_last());
    }
}

/// A sum over subtask ids is unchanged when each id's points are; shared
/// with the table-clearing proofs.
pub proof fn lemma_sum_points_congruent_pub(
    s1: Seq<SubtaskResultRow>,
    s2: Seq<SubtaskResultRow>,
    sid: SubmissionId,
    stids: Seq<SubtaskId>,
)
    requires
        forall|j: int|
            0 <= j < stids.len() ==> points_of(s2, sid, #[trigger] stids[j]) == points_of(
                s1,
                sid,
                stids[j],
            ),
    ensures
        sum_points_over(s2, sid, stids) == sum_points_over(s1, sid, stids),
{
    lemma_sum_points_congruent(s1, s2, sid, stids);
}

impl Store {
    /// Record a submission's verdict for one test; an absent row is left
    /// absent, as a row-less update.
    pub fn set_test_result(
        &mut self,
        submission_id: SubmissionId,
        test_id: TestId,
        result: TestingResult,
    )
        requires
            old(self).wf(),
        ensures
            final(self).wf(),
            final(self).test_results@.len() == old(self).test_results@.len(),
            forall|j: int|
                0 <= j < old(self).test_results@.len() ==> #[trigger] final(self).test_results@[j]
                    == (if old(self).test_results@[j].submission_id == submission_id && old(
                    self,
                ).test_results@[j].test_id == test_id {
                    TestResultRow { result, ..old(self).test_results@[j] }
                } else {
                    old(self).test_results@[j]
                }),
            final(self).users == old(self).users,
            final(self).tokens == old(self).tokens,
            final(self).contests == old(self).contests,
            final(self).participations == old(self).participations,
            final(self).contest_problems == old(self).contest_problems,
            final(self).problems == old(self).problems,
            final(self).subtasks == old(self).subtasks,
            final(self).tests == old(self).tests,
            final(self).subtask_tests == old(self).subtask_tests,
            final(self).submissions == old(self).submissions,
            final(self).subtask_results == old(self).subtask_results,
            final(self).scores == old(self).scores,
            final(self).next_user_id == old(self).next_user_id,
            final(self).next_contest_id == old(self).next_contest_id,
            final(self).next_problem_id == old(self).next_problem_id,
            final(self).next_subtask_id == old(self).next_subtask_id,
            final(self).next_test_id == old(self).next_test_id,
            final(self).next_submission_id == old(self).next_submission_id,
    {
        match self.find_test_result_idx(submission_id, test_id) {
            None => {
                proof {
                    crate::seqtools::lemma_find_first_props(
                        self.test_results@,
                        p_test_result(submission_id, test_id),
                    );
                }
            },
            Some(i) => {
                self.test_results[i].result = result;
                proof {
                    crate::seqtools::lemma_find_first_props(
                        old(self).test_results@,
                        p_test_result(submission_id, test_id),
                    );
                    let subs = self.submissions@;
                    assert forall|k: int| 0 <= k < subs.len() implies submission_test_ids(
                        self.test_results@,
                        (#[trigger] subs[k]).submission_id,
                    ) == submission_test_ids(
                        old(self).test_results@,
                        subs[k].submission_id,
                    ) by {
                        lemma_tr_ids_congruent(
                            old(self).test_results@,
                            self.test_results@,
                            subs[k].submission_id,
                        );
                    };
                }
            },
        }
    }

    /// Record a submission's elapsed time for one test.
    pub fn set_test_time(&mut self, submission_id: SubmissionId, test_id: TestId, time_ms: i32)
        requires
            old(self).wf(),
        ensures
            final(self).wf(),
            final(self).test_results@.len() == old(self).test_results@.len(),
            forall|j: int|
                0 <= j < old(self).test_results@.len() ==> #[trigger] final(self).test_results@[j]
                    == (if old(self).test_results@[j].submission_id == submission_id && old(
                    self,
                ).test_results@[j].test_id == test_id {
                    TestResultRow { time_ms: Some(time_ms), ..old(self).test_results@[j] }
                } else {
                    old(self).test_results@[j]
                }),
            final(self).users == old(self).users,
            final(self).tokens == old(self).tokens,
            final(self).contests == old(self).contests,
            final(self).participations == old(self).participations,
            final(self).contest_problems == old(self).contest_problems,
            final(self).problems == old(self).problems,
            final(self).subtasks == old(self).subtasks,
            final(self).tests == old(self).tests,
            final(self).subtask_tests == old(self).subtask_tests,
            final(self).submissions == old(self).submissions,
            final(self).subtask_results == old(self).subtask_results,
            final(self).scores == old(self).scores,
            final(self).next_user_id == old(self).next_user_id,
            final(self).next_contest_id == old(self).next_contest_id,
            final(self).next_problem_id == old(self).next_problem_id,
            final(self).next_subtask_id == old(self).next_subtask_id,
            final(self).next_test_id == old(self).next_test_id,
            final(self).next_submission_id == old(self).next_submission_id,
    {
        match self.find_test_result_idx(submission_id, test_id) {
            None => {
                proof {
                    crate::seqtools::lemma_find_first_props(
                        self.test_results@,
                        p_test_result(submission_id, test_id),
                    );
                }
            },
            Some(i) => {
                self.test_results[i].time_ms = Some(time_ms);
                proof {
                    crate::seqtools::lemma_find_first_props(
                        old(self).test_results@,
                        p_test_result(submission_id, test_id),
                    );
                    let subs = self.submissions@;
                    assert forall|k: int| 0 <= k < subs.len() implies submission_test_ids(
                        self.test_results@,
                        (#[trigger] subs[k]).submission_id,
                    ) == submission_test_ids(
                        old(self).test_results@,
                        subs[k].submission_id,
                    ) by {
                        lemma_tr_ids_congruent(
                            old(self).test_results@,
                            self.test_results@,
                            subs[k].submission_id,
                        );
                    };
                }
            },
        }
    }

    /// Record a submission's verdict for one subtask.
    pub fn set_subtask_result(
        &mut self,
        submission_id: SubmissionId,
        subtask_id: SubtaskId,
        result: TestingResult,
    )
        requires
            old(self).wf(),
        ensures
            final(self).wf(),
            final(self).subtask_results@.len() == old(self).subtask_results@.len(),
            forall|j: int|
                0 <= j < old(self).subtask_results@.len() ==> #[trigger] final(self).subtask_results@[j]
                    == (if old(self).subtask_results@[j].submission_id
                    == submission_id && old(self).subtask_results@[j].subtask_id == subtask_id {
                    SubtaskResultRow { result, ..old(self).subtask_results@[j] }
                } else {
                    old(self).subtask_results@[j]
                }),
            final(self).users == old(self).users,
            final(self).tokens == old(self).tokens,
            final(self).contests == old(self).contests,
            final(self).participations == old(self).participations,
            final(self).contest_problems == old(self).contest_problems,
            final(self).problems == old(self).problems,
            final(self).subtasks == old(self).subtasks,
            final(self).tests == old(self).tests,
            final(self).subtask_tests == old(self).subtask_tests,
            final(self).submissions == old(self).submissions,
            final(self).test_results == old(self).test_results,
            final(self).scores == old(self).scores,
            final(self).next_user_id == old(self).next_user_id,
            final(self).next_contest_id == old(self).next_contest_id,
            final(self).next_problem_id == old(self).next_problem_id,
            final(self).next_subtask_id == old(self).next_subtask_id,
            final(self).next_test_id == old(self).next_test_id,
            final(self).next_submission_id == old(self).next_submission_id,
    {
        match self.find_subtask_result_idx(submission_id, subtask_id) {
            None => {
                proof {
                    crate::seqtools::lemma_find_first_props(
                        self.subtask_results@,
                        p_subtask_result(submission_id, subtask_id),
                    );
                }
            },
            Some(i) => {
                self.subtask_results[i].result = result;
                proof {
                    crate::seqtools::lemma_find_first_props(
                        old(self).subtask_results@,
                        p_subtask_result(submission_id, subtask_id),
                    );
                    let subs = self.submissions@;
                    assert forall|k: int| 0 <= k < subs.len() implies submission_subtask_ids(
                        self.subtask_results@,
                        (#[trigger] subs[k]).submission_id,
                    ) == submission_subtask_ids(
                        old(self).subtask_results@,
                        subs[k].submission_id,
                    ) && sum_points_over(
                        self.subtask_results@,
                        subs[k].submission_id,
                        submission_subtask_ids(self.subtask_results@, subs[k].submission_id),
                    ) == sum_points_over(
                        old(self).subtask_results@,
                        subs[k].submission_id,
                        submission_subtask_ids(
                            old(self).subtask_results@,
                            subs[k].submission_id,
                        ),
                    ) by {
                        let sid2 = subs[k].submission_id;
                        lemma_sr_ids_congruent(
                            old(self).subtask_results@,
                            self.subtask_results@,
                            sid2,
                        );
                        let ids = submission_subtask_ids(old(self).subtask_results@, sid2);
                        assert forall|j: int| 0 <= j < ids.len() implies points_of(
                            self.subtask_results@,
                            sid2,
                            #[trigger] ids[j],
                        ) == points_of(old(self).subtask_results@, sid2, ids[j]) by {
                            lemma_points_of_congruent(
                                old(self).subtask_results@,
                                self.subtask_results@,
                                sid2,
                                ids[j],
                            );
                        };
                        lemma_sum_points_congruent(
                            old(self).subtask_results@,
                            self.subtask_results@,
                            sid2,
                            ids,
                        );
                    };
                }
            },
        }
    }

    /// Move a submission to a transient or compile-failure state. The
    /// terminal graded verdicts are set only by the aggregator.
    pub fn set_submission_result(&mut self, submission_id: SubmissionId, result: TestingResult)
        requires
            old(self).wf(),
            !is_terminal(result) || result == TestingResult::CompilationError,
        ensures
            final(self).wf(),
            final(self).submissions@.len() == old(self).submissions@.len(),
            forall|j: int|
                0 <= j < old(self).submissions@.len() ==> #[trigger] final(self).submissions@[j]
                    == (if old(self).submissions@[j].submission_id == submission_id {
                    SubmissionRow { result, ..old(self).submissions@[j] }
                } else {
                    old(self).submissions@[j]
                }),
            final(self).users == old(self).users,
            final(self).tokens == old(self).tokens,
            final(self).contests == old(self).contests,
            final(self).participations == old(self).participations,
            final(self).contest_problems == old(self).contest_problems,
            final(self).problems == old(self).problems,
            final(self).subtasks == old(self).subtasks,
            final(self).tests == old(self).tests,
            final(self).subtask_tests == old(self).subtask_tests,
            final(self).subtask_results == old(self).subtask_results,
            final(self).test_results == old(self).test_results,
            final(self).scores == old(self).scores,
            final(self).next_user_id == old(self).next_user_id,
            final(self).next_contest_id == old(self).next_contest_id,
            final(self).next_problem_id == old(self).next_problem_id,
            final(self).next_subtask_id == old(self).next_subtask_id,
            final(self).next_test_id == old(self).next_test_id,
            final(self).next_submission_id == old(self).next_submission_id,
    {
        match self.find_submission_idx(submission_id) {
            None => {
                proof {
                    crate::seqtools::lemma_find_first_props(
                        self.submissions@,
                        p_submission_id(submission_id),
                    );
                }
            },
            Some(i) => {
                self.submissions[i].result = result;
                proof {
                    crate::seqtools::lemma_find_first_props(
                        old(self).submissions@,
                        p_submission_id(submission_id),
                    );
                }
            },
        }
    }

    /// Count one more finished test towards the submission's fan-in. The
    /// new count is returned; counting past the number of rows is refused.
    pub fn increment_submission_tests_done(&mut self, submission_id: SubmissionId) -> (r: Result<
        i32,
        StoreError,
    >)
        requires
            old(self).wf(),
        ensures
            final(self).wf(),
            match r {
                Ok(done) => {
                    &&& (find_first(old(self).submissions@, p_submission_id(submission_id))
                        matches Some(row) && done == row.tests_done + 1)
                    &&& final(self).submissions@.len() == old(self).submissions@.len()
                    &&& forall|j: int|
                        0 <= j < old(self).submissions@.len() ==> #[trigger] final(self).submissions@[j]
                            == (if old(self).submissions@[j].submission_id
                            == submission_id {
                            SubmissionRow {
                                tests_done: (old(self).submissions@[j].tests_done + 1) as i32,
                                ..old(self).submissions@[j]
                            }
                        } else {
                            old(self).submissions@[j]
                        })
                },
                Err(e) => {
                    &&& *final(self) == *old(self)
                    &&& (e == StoreError::NotFound || e == StoreError::Conflict)
                    &&& (e == StoreError::NotFound ==> find_first(
                        old(self).submissions@,
                        p_submission_id(submission_id),
                    ) is None)
                    &&& (e == StoreError::Conflict ==> (find_first(
                        old(self).submissions@,
                        p_submission_id(submission_id),
                    ) matches Some(row) && (row.tests_done as int == submission_test_ids(
                        old(self).test_results@,
                        submission_id,
                    ).len() || submission_test_ids(old(self).test_results@, submission_id).len()
                        > i32::MAX)))
                },
            },
            final(self).users == old(self).users,
            final(self).tokens == old(self).tokens,
            final(self).contests == old(self).contests,
            final(self).participations == old(self).participations,
            final(self).contest_problems == old(self).contest_problems,
            final(self).problems == old(self).problems,
            final(self).subtasks == old(self).subtasks,
            final(self).tests == old(self).tests,
            final(self).subtask_tests == old(self).subtask_tests,
            final(self).subtask_results == old(self).subtask_results,
            final(self).test_results == old(self).test_results,
            final(self).scores == old(self).scores,
    {
        let i = match self.find_submission_idx(submission_id) {
            None => {
                return Err(StoreError::NotFound);
            },
            Some(i) => i,
        };
        let total = self.get_tests_for_submission(submission_id).len();
        if self.submissions[i].tests_done >= total as i32 || total > i32::MAX as usize {
            proof {
                crate::seqtools::lemma_find_first_props(
                    self.submissions@,
                    p_submission_id(submission_id),
                );
            }
            return Err(StoreError::Conflict);
        }
        let done = self.submissions[i].tests_done + 1;
        self.submissions[i].tests_done = done;
        proof {
            crate::seqtools::lemma_find_first_props(
                old(self).submissions@,
                p_submission_id(submission_id),
            );
        }
        Ok(done)
    }

    /// Record a new submission: the row itself in `InQueue`, one `InQueue`
    /// subtask-result row per subtask of the problem, and one `InQueue`
    /// test-result row per test of the problem, in table order.
    pub fn add_submission(&mut self, user_id: UserId, problem_id: ProblemId, code: String) -> (r:
        Result<SubmissionId, StoreError>)
        requires
            old(self).wf(),
        ensures
            final(self).wf(),
            match r {
                Ok(sid) => {
                    &&& sid == old(self).next_submission_id
                    &&& final(self).next_submission_id == old(self).next_submission_id + 1
                    &&& final(self).submissions@.len() == old(self).submissions@.len() + 1
                    &&& final(self).submissions@.drop_last() == old(self).submissions@
                    &&& final(self).submissions@.last().submission_id == sid
                    &&& final(self).submissions@.last().user_id == user_id
                    &&& final(self).submissions@.last().problem_id == problem_id
                    &&& final(self).submissions@.last().code@ == code@
                    &&& final(self).submissions@.last().result == TestingResult::InQueue
                    &&& final(self).submissions@.last().points is None
                    &&& final(self).submissions@.last().tests_done == 0
                    &&& submission_subtask_ids(final(self).subtask_results@, sid)
                        == problem_subtask_ids(old(self).subtasks@, problem_id)
                    &&& submission_test_ids(final(self).test_results@, sid) == problem_test_ids(
                        old(self).tests@,
                        problem_id,
                    )
                    &&& final(self).subtask_results@.len() == old(self).subtask_results@.len()
                        + problem_subtask_ids(old(self).subtasks@, problem_id).len()
                    &&& forall|j: int|
                        0 <= j < old(self).subtask_results@.len() ==> #[trigger] final(self).subtask_results@[j]
                            == old(self).subtask_results@[j]
                    &&& forall|j: int|
                        old(self).subtask_results@.len() <= j < final(self).subtask_results@.len()
                            ==> (#[trigger] final(self).subtask_results@[j]).submission_id == sid
                            && final(self).subtask_results@[j].result == TestingResult::InQueue
                            && final(self).subtask_results@[j].points is None
                    &&& final(self).test_results@.len() == old(self).test_results@.len()
                        + problem_test_ids(old(self).tests@, problem_id).len()
                    &&& forall|j: int|
                        0 <= j < old(self).test_results@.len() ==> #[trigger] final(self).test_results@[j]
                            == old(self).test_results@[j]
                    &&& forall|j: int|
                        old(self).test_results@.len() <= j < final(self).test_results@.len()
                            ==> (#[trigger] final(self).test_results@[j]).submission_id == sid
                            && final(self).test_results@[j].result == TestingResult::InQueue
                            && final(self).test_results@[j].time_ms is None
                },
                Err(e) => {
                    &&& *final(self) == *old(self)
                    &&& (e == StoreError::NotFound || e == StoreError::Overflow)
                    &&& (e == StoreError::NotFound <==> (find_first(
                        old(self).users@,
                        p_user_id(user_id),
                    ) is None || find_first(old(self).problems@, p_problem_id(problem_id))
                        is None))
                    &&& (e == StoreError::Overflow ==> old(self).next_submission_id
                        == i32::MAX)
                },
            },
            final(self).users == old(self).users,
            final(self).tokens == old(self).tokens,
            final(self).contests == old(self).contests,
            final(self).participations == old(self).participations,
            final(self).contest_problems == old(self).contest_problems,
            final(self).problems == old(self).problems,
            final(self).subtasks == old(self).subtasks,
            final(self).tests == old(self).tests,
            final(self).subtask_tests == old(self).subtask_tests,
            final(self).scores == old(self).scores,
    {
        if self.find_user_idx(user_id).is_none() {
            return Err(StoreError::NotFound);
        }
        if self.find_problem_idx(problem_id).is_none() {
            return Err(StoreError::NotFound);
        }
        if self.next_submission_id == i32::MAX {
            return Err(StoreError::Overflow);
        }
        let sid = self.next_submission_id;
        let stids = self.get_subtasks_for_problem(problem_id);
        let tids = self.get_all_tests_for_problem(problem_id);
        let ghost old_srs = self.subtask_results@;
        let ghost old_trs = self.test_results@;
        self.submissions.push(
            SubmissionRow {
                submission_id: sid,
                user_id,
                problem_id,
                code,
                result: TestingResult::InQueue,
                points: None,
                tests_done: 0,
            },
        );
        let ghost subs_after = self.submissions@;
        proof {
            assert(subs_after.drop_last() =~= old(self).submissions@);
            assert(forall|i: int|
                0 <= i < old_srs.len() ==> (#[trigger] old_srs[i]).submission_id != sid);
            crate::seqtools::lemma_proj_none(
                old_srs,
                |r: SubtaskResultRow| r.submission_id == sid,
                |r: SubtaskResultRow| r.subtask_id,
            );
            assert(forall|i: int|
                0 <= i < old_trs.len() ==> (#[trigger] old_trs[i]).submission_id != sid);
            crate::seqtools::lemma_proj_none(
                old_trs,
                |r: TestResultRow| r.submission_id == sid,
                |r: TestResultRow| r.test_id,
            );
            assert(stids@.take(0) =~= Seq::<SubtaskId>::empty());
            assert(tids@.take(0) =~= Seq::<TestId>::empty());
        }
        let n_st = stids.len();
        let mut k: usize = 0;
        while k < n_st
            invariant
                k <= n_st,
                n_st == stids@.len(),
                old(self).wf(),
                stids@ == problem_subtask_ids(old(self).subtasks@, problem_id),
                old_srs == old(self).subtask_results@,
                self.users == old(self).users,
                self.tokens == old(self).tokens,
                self.contests == old(self).contests,
                self.participations == old(self).participations,
                self.contest_problems == old(self).contest_problems,
                self.problems == old(self).problems,
                self.subtasks == old(self).subtasks,
                self.tests == old(self).tests,
                self.subtask_tests == old(self).subtask_tests,
                self.scores == old(self).scores,
                self.submissions@ == subs_after,
                self.test_results@ == old_trs,
                self.next_user_id == old(self).next_user_id,
                self.next_contest_id == old(self).next_contest_id,
                self.next_problem_id == old(self).next_problem_id,
                self.next_subtask_id == old(self).next_subtask_id,
                self.next_test_id == old(self).next_test_id,
                self.next_submission_id == old(self).next_submission_id,
                self.subtask_results@.len() == old_srs.len() + k,
                forall|j: int|
                    0 <= j < old_srs.len() ==> #[trigger] self.subtask_results@[j] == old_srs[j],
                forall|j: int|
                    old_srs.len() <= j < self.subtask_results@.len()
                        ==> #[trigger] self.subtask_results@[j] == (SubtaskResultRow {
                        submission_id: sid,
                        subtask_id: stids@[j - old_srs.len()],
                        result: TestingResult::InQueue,
                        points: None,
                    }),
                submission_subtask_ids(self.subtask_results@, sid) == stids@.take(k as int),
            decreases n_st - k,
        {
            let row = SubtaskResultRow {
                submission_id: sid,
                subtask_id: stids[k],
                result: TestingResult::InQueue,
                points: None,
            };
            proof {
                lemma_proj_push(
                    self.subtask_results@,
                    row,
                    |r: SubtaskResultRow| r.submission_id == sid,
                    |r: SubtaskResultRow| r.subtask_id,
                );
                assert(stids@.take(k + 1) =~= stids@.take(k as int).push(stids@[k as int]));
            }
            self.subtask_results.push(row);
            k = k + 1;
        }
        proof {
            assert(stids@.take(n_st as int) =~= stids@);
        }
        let ghost srs_after = self.subtask_results@;
        let n_t = tids.len();
        let mut k2: usize = 0;
        while k2 < n_t
            invariant
                k2 <= n_t,
                n_t == tids@.len(),
                old(self).wf(),
                tids@ == problem_test_ids(old(self).tests@, problem_id),
                old_trs == old(self).test_results@,
                self.users == old(self).users,
                self.tokens == old(self).tokens,
                self.contests == old(self).contests,
                self.participations == old(self).participations,
                self.contest_problems == old(self).contest_problems,
                self.problems == old(self).problems,
                self.subtasks == old(self).subtasks,
                self.tests == old(self).tests,
                self.subtask_tests == old(self).subtask_tests,
                self.scores == old(self).scores,
                self.submissions@ == subs_after,
                self.subtask_results@ == srs_after,
                self.next_user_id == old(self).next_user_id,
                self.next_contest_id == old(self).next_contest_id,
                self.next_problem_id == old(self).next_problem_id,
                self.next_subtask_id == old(self).next_subtask_id,
                self.next_test_id == old(self).next_test_id,
                self.next_submission_id == old(self).next_submission_id,
                self.test_results@.len() == old_trs.len() + k2,
                forall|j: int|
                    0 <= j < old_trs.len() ==> #[trigger] self.test_results@[j] == old_trs[j],
                forall|j: int|
                    old_trs.len() <= j < self.test_results@.len()
                        ==> #[trigger] self.test_results@[j] == (TestResultRow {
                        submission_id: sid,
                        test_id: tids@[j - old_trs.len()],
                        result: TestingResult::InQueue,
                        time_ms: None,
                    }),
                submission_test_ids(self.test_results@, sid) == tids@.take(k2 as int),
            decreases n_t - k2,
        {
            let row = TestResultRow {
                submission_id: sid,
                test_id: tids[k2],
                result: TestingResult::InQueue,
                time_ms: None,
            };
            proof {
                lemma_proj_push(
                    self.test_results@,
                    row,
                    |r: TestResultRow| r.submission_id == sid,
                    |r: TestResultRow| r.test_id,
                );
                assert(tids@.take(k2 + 1) =~= tids@.take(k2 as int).push(tids@[k2 as int]));
            }
            self.test_results.push(row);
            k2 = k2 + 1;
        }
        proof {
            assert(tids@.take(n_t as int) =~= tids@);
        }
        self.next_submission_id = sid + 1;
        proof {
            lemma_add_submission_wf(*old(self), *self, sid, problem_id, stids@, tids@);
        }
        Ok(sid)
    }
}


/// Seeding a fresh submission with one row per subtask and per test of its
/// problem preserves the store invariant.
proof fn lemma_add_submission_wf(
    pre: Store,
    post: Store,
    sid: SubmissionId,
    problem_id: ProblemId,
    stids: Seq<SubtaskId>,
    tids: Seq<TestId>,
)
    requires
        pre.wf(),
        sid == pre.next_submission_id,
        sid < i32::MAX,
        stids == problem_subtask_ids(pre.subtasks@, problem_id),
        tids == problem_test_ids(pre.tests@, problem_id),
        post.users == pre.users,
        post.tokens == pre.tokens,
        post.contests == pre.contests,
        post.participations == pre.participations,
        post.contest_problems == pre.contest_problems,
        post.problems == pre.problems,
        post.subtasks == pre.subtasks,
        post.tests == pre.tests,
        post.subtask_tests == pre.subtask_tests,
        post.scores == pre.scores,
        post.next_user_id == pre.next_user_id,
        post.next_contest_id == pre.next_contest_id,
        post.next_problem_id == pre.next_problem_id,
        post.next_subtask_id == pre.next_subtask_id,
        post.next_test_id == pre.next_test_id,
        post.next_submission_id == sid + 1,
        post.submissions@.len() == pre.submissions@.len() + 1,
        post.submissions@.drop_last() == pre.submissions@,
        post.submissions@.last().submission_id == sid,
        post.submissions@.last().result == TestingResult::InQueue,
        post.submissions@.last().points is None,
        post.submissions@.last().tests_done == 0,
        post.submissions@.last().problem_id == problem_id,
        post.subtask_results@.len() == pre.subtask_results@.len() + stids.len(),
        forall|j: int|
            0 <= j < pre.subtask_results@.len() ==> #[trigger] post.subtask_results@[j]
                == pre.subtask_results@[j],
        forall|j: int|
            pre.subtask_results@.len() <= j < post.subtask_results@.len()
                ==> #[trigger] post.subtask_results@[j] == (SubtaskResultRow {
                submission_id: sid,
                subtask_id: stids[j - pre.subtask_results@.len()],
                result: TestingResult::InQueue,
                points: None,
            }),
        submission_subtask_ids(post.subtask_results@, sid) == stids,
        post.test_results@.len() == pre.test_results@.len() + tids.len(),
        forall|j: int|
            0 <= j < pre.test_results@.len() ==> #[trigger] post.test_results@[j]
                == pre.test_results@[j],
        forall|j: int|
            pre.test_results@.len() <= j < post.test_results@.len()
                ==> #[trigger] post.test_results@[j] == (TestResultRow {
                submission_id: sid,
                test_id: tids[j - pre.test_results@.len()],
                result: TestingResult::InQueue,
                time_ms: None,
            }),
        submission_test_ids(post.test_results@, sid) == tids,
    ensures
        post.wf(),
{
    let srs_ext = post.subtask_results@.subrange(
        pre.subtask_results@.len() as int,
        post.subtask_results@.len() as int,
    );
    let trs_ext = post.test_results@.subrange(
        pre.test_results@.len() as int,
        post.test_results@.len() as int,
    );
    assert(post.subtask_results@ =~= pre.subtask_results@ + srs_ext);
    assert(post.test_results@ =~= pre.test_results@ + trs_ext);
    // fresh identifier bounds for the seeded rows
    assert forall|j: int| 0 <= j < stids.len() implies 1 <= #[trigger] stids[j]
        < pre.next_subtask_id by {
        lemma_proj_membership(
            pre.subtasks@,
            |r: SubtaskRow| r.problem_id == problem_id,
            |r: SubtaskRow| r.subtask_id,
            j,
        );
    };
    // the seeded pairs are distinct because subtask and test ids are
    assert(forall|a: int, b: int|
        0 <= a < b < stids.len() ==> #[trigger] stids[a] != #[trigger] stids[b]) by {
        lemma_proj_pairwise(
            pre.subtasks@,
            |r: SubtaskRow| r.problem_id == problem_id,
            |r: SubtaskRow| r.subtask_id,
            |a: SubtaskId, b: SubtaskId| a != b,
        );
    }
    assert(forall|a: int, b: int|
        0 <= a < b < tids.len() ==> #[trigger] tids[a] != #[trigger] tids[b]) by {
        lemma_proj_pairwise(
            pre.tests@,
            |r: TestRow| r.problem_id == problem_id,
            |r: TestRow| r.test_id,
            |a: TestId, b: TestId| a != b,
        );
    }
    assert(forall|j: int|
        0 <= j < pre.submissions@.len() ==> #[trigger] post.submissions@[j]
            == pre.submissions@[j]) by {
        assert(forall|j: int|
            0 <= j < pre.submissions@.len() ==> post.submissions@.drop_last()[j]
                == #[trigger] post.submissions@[j]);
    }
    let off_s = pre.subtask_results@.len() as int;
    let off_t = pre.test_results@.len() as int;
    assert forall|j: int|
        0 <= j < post.subtask_results@.len() implies 1 <= (#[trigger] post.subtask_results@[
        j
    ]).submission_id < post.next_submission_id && 1 <= post.subtask_results@[j].subtask_id
        < post.next_subtask_id by {
        if j >= off_s {
            assert(post.subtask_results@[j].subtask_id == stids[j - off_s]);
            assert(1 <= stids[j - off_s] < pre.next_subtask_id);
        }
    };
    assert forall|i: int, j: int|
        0 <= i < j < post.subtask_results@.len() implies !((#[trigger] post.subtask_results@[
        i
    ]).submission_id == (#[trigger] post.subtask_results@[j]).submission_id
        && post.subtask_results@[i].subtask_id == post.subtask_results@[j].subtask_id) by {
        if j < off_s {
        } else if i < off_s {
            assert(post.subtask_results@[i].submission_id < sid);
        } else {
            assert(stids[i - off_s] != stids[j - off_s]);
        }
    };
    assert forall|i: int, j: int|
        0 <= i < j < post.test_results@.len() implies !((#[trigger] post.test_results@[
        i
    ]).submission_id == (#[trigger] post.test_results@[j]).submission_id
        && post.test_results@[i].test_id == post.test_results@[j].test_id) by {
        if j < off_t {
        } else if i < off_t {
            assert(post.test_results@[i].submission_id < sid);
        } else {
            assert(tids[i - off_t] != tids[j - off_t]);
        }
    };
    assert(post.wf_id_bounds());
    assert(post.wf_unique());
    assert(post.wf_scoring());
    // per-submission projections: the seeded rows belong to the fresh id
    assert forall|j: int| 0 <= j < post.submissions@.len() implies {
        let sub = #[trigger] post.submissions@[j];
        &&& submission_test_ids(post.test_results@, sub.submission_id) == problem_test_ids(
            post.tests@,
            sub.problem_id,
        )
        &&& submission_subtask_ids(post.subtask_results@, sub.submission_id)
            == problem_subtask_ids(post.subtasks@, sub.problem_id)
        &&& 0 <= sub.tests_done <= submission_test_ids(
            post.test_results@,
            sub.submission_id,
        ).len()
        &&& (is_terminal(sub.result) && sub.result != TestingResult::CompilationError ==> (
        sub.tests_done as int == submission_test_ids(
            post.test_results@,
            sub.submission_id,
        ).len() && sub.points is Some))
        &&& match sub.points {
            Some(p) => p as int == crate::store::submission_points_sum(
                post.subtask_results@,
                sub.submission_id,
            ),
            None => true,
        }
    } by {
        let sub = post.submissions@[j];
        if j < pre.submissions@.len() {
            assert(pre.submissions@[j] == sub);
            let sid2 = sub.submission_id;
            assert(sid2 < sid);
            assert(forall|i: int|
                0 <= i < srs_ext.len() ==> (#[trigger] srs_ext[i]).submission_id == sid);
            assert(forall|i: int|
                0 <= i < trs_ext.len() ==> (#[trigger] trs_ext[i]).submission_id == sid);
            crate::seqtools::lemma_proj_concat(
                pre.test_results@,
                trs_ext,
                |r: TestResultRow| r.submission_id == sid2,
                |r: TestResultRow| r.test_id,
            );
            crate::seqtools::lemma_proj_none(
                trs_ext,
                |r: TestResultRow| r.submission_id == sid2,
                |r: TestResultRow| r.test_id,
            );
            assert(submission_test_ids(post.test_results@, sid2) =~= submission_test_ids(
                pre.test_results@,
                sid2,
            ));
            crate::seqtools::lemma_proj_concat(
                pre.subtask_results@,
                srs_ext,
                |r: SubtaskResultRow| r.submission_id == sid2,
                |r: SubtaskResultRow| r.subtask_id,
            );
            crate::seqtools::lemma_proj_none(
                srs_ext,
                |r: SubtaskResultRow| r.submission_id == sid2,
                |r: SubtaskResultRow| r.subtask_id,
            );
            assert(submission_subtask_ids(post.subtask_results@, sid2)
                =~= submission_subtask_ids(pre.subtask_results@, sid2));
            let ids = submission_subtask_ids(pre.subtask_results@, sid2);
            assert forall|m: int| 0 <= m < ids.len() implies points_of(
                post.subtask_results@,
                sid2,
                #[trigger] ids[m],
            ) == points_of(pre.subtask_results@, sid2, ids[m]) by {
                crate::seqtools::lemma_find_first_concat(
                    pre.subtask_results@,
                    srs_ext,
                    p_subtask_result(sid2, ids[m]),
                );
                crate::seqtools::lemma_find_first_none(
                    srs_ext,
                    p_subtask_result(sid2, ids[m]),
                );
            };
            lemma_sum_points_congruent(
                pre.subtask_results@,
                post.subtask_results@,
                sid2,
                ids,
            );
        } else {
            assert(sub == post.submissions@.last());
        }
    };
    assert(post.wf_submissions());
}


/// With non-negative subtask scores, every aggregate point award is
/// non-negative.
proof fn lemma_agg_points_nonneg(
    subtasks: Seq<SubtaskRow>,
    trs: Seq<TestResultRow>,
    sts: Seq<crate::store::SubtaskTestRow>,
    sid: SubmissionId,
    stid: SubtaskId,
)
    requires
        forall|i: int| 0 <= i < subtasks.len() ==> (#[trigger] subtasks[i]).subtask_score >= 0,
    ensures
        crate::store::subtask_agg_points(subtasks, trs, sts, sid, stid) >= 0,
{
    crate::seqtools::lemma_find_first_props(subtasks, crate::store::p_subtask_id(stid));
    if find_first(subtasks, crate::store::p_subtask_id(stid)) is Some {
        let row = find_first(subtasks, crate::store::p_subtask_id(stid)).unwrap();
        let i = choose|i: int| 0 <= i < subtasks.len() && subtasks[i] == row;
        assert(subtasks[i].subtask_score >= 0);
    }
}

/// With non-negative subtask scores, a prefix of the aggregate total never
/// exceeds the whole.
proof fn lemma_agg_total_monotone(
    subtasks: Seq<SubtaskRow>,
    trs: Seq<TestResultRow>,
    sts: Seq<crate::store::SubtaskTestRow>,
    sid: SubmissionId,
    ids: Seq<SubtaskId>,
    k: int,
)
    requires
        0 <= k <= ids.len(),
        forall|i: int| 0 <= i < subtasks.len() ==> (#[trigger] subtasks[i]).subtask_score >= 0,
    ensures
        crate::store::submission_agg_total(subtasks, trs, sts, sid, ids.take(k))
            <= crate::store::submission_agg_total(subtasks, trs, sts, sid, ids),
    decreases ids.len(),
{
    if ids.len() > 0 {
        assert(forall|i: int| 0 <= i < ids.len() - 1 ==> ids.drop_last()[i] == #[trigger] ids[i]);
        if k <= ids.len() - 1 {
            lemma_agg_total_monotone(subtasks, trs, sts, sid, ids.drop_last(), k);
            assert(ids.take(k) =~= ids.drop_last().take(k));
            lemma_agg_points_nonneg(subtasks, trs, sts, sid, ids.last());
        } else {
            assert(ids.take(k) =~= ids);
        }
    } else {
        assert(ids.take(k) =~= ids);
    }
}

/// A table whose recorded points agree with the aggregate per subtask sums
/// to the aggregate total.
proof fn lemma_sum_points_eq_agg(
    srs: Seq<SubtaskResultRow>,
    subtasks: Seq<SubtaskRow>,
    trs: Seq<TestResultRow>,
    sts: Seq<crate::store::SubtaskTestRow>,
    sid: SubmissionId,
    ids: Seq<SubtaskId>,
)
    requires
        forall|m: int|
            0 <= m < ids.len() ==> points_of(srs, sid, #[trigger] ids[m])
                == crate::store::subtask_agg_points(subtasks, trs, sts, sid, ids[m]),
    ensures
        sum_points_over(srs, sid, ids) == crate::store::submission_agg_total(
            subtasks,
            trs,
            sts,
            sid,
            ids,
        ),
    decreases ids.len(),
{
    if ids.len() > 0 {
        assert(forall|m: int| 0 <= m < ids.len() - 1 ==> ids.drop_last()[m] == #[trigger] ids[m]);
        lemma_sum_points_eq_agg(srs, subtasks, trs, sts, sid, ids.drop_last());
    }
}


impl Store {
    /// Aggregate a submission once its last test verdict is in: each
    /// subtask becomes `Accepted` with its full score when every member
    /// test is accepted, otherwise the last non-accepted member verdict
    /// with zero points; the submission becomes `Accepted` or the last
    /// non-accepted subtask verdict, with the sum of the subtask points.
    ///
    /// An unknown submission is left untouched, as an update of no rows.
    pub fn update_submission_result(&mut self, submission_id: SubmissionId) -> (r: Result<
        (),
        StoreError,
    >)
        requires
            old(self).wf(),
        ensures
            final(self).wf(),
            final(self).users == old(self).users,
            final(self).tokens == old(self).tokens,
            final(self).contests == old(self).contests,
            final(self).participations == old(self).participations,
            final(self).contest_problems == old(self).contest_problems,
            final(self).problems == old(self).problems,
            final(self).subtasks == old(self).subtasks,
            final(self).tests == old(self).tests,
            final(self).subtask_tests == old(self).subtask_tests,
            final(self).test_results == old(self).test_results,
            final(self).scores == old(self).scores,
            final(self).next_submission_id == old(self).next_submission_id,
            r is Err ==> *final(self) == *old(self),
            match r {
                Ok(_) => {
                    if find_first(old(self).submissions@, p_submission_id(submission_id))
                        is Some {
                        let stids = submission_subtask_ids(
                            old(self).subtask_results@,
                            submission_id,
                        );
                        let verdict = crate::store::submission_agg_verdict(
                            old(self).test_results@,
                            old(self).subtask_tests@,
                            submission_id,
                            stids,
                        );
                        let total = crate::store::submission_agg_total(
                            old(self).subtasks@,
                            old(self).test_results@,
                            old(self).subtask_tests@,
                            submission_id,
                            stids,
                        );
                        &&& crate::store::all_member_tests_recorded(
                            old(self).test_results@,
                            old(self).subtask_tests@,
                            submission_id,
                            stids,
                        )
                        &&& 0 <= total <= i32::MAX
                        &&& final(self).submissions@.len() == old(self).submissions@.len()
                        &&& forall|j: int|
                            0 <= j < old(self).submissions@.len()
                                ==> #[trigger] final(self).submissions@[j] == (if old(
                                self,
                            ).submissions@[j].submission_id == submission_id {
                                SubmissionRow {
                                    result: verdict,
                                    points: Some(total as i32),
                                    ..old(self).submissions@[j]
                                }
                            } else {
                                old(self).submissions@[j]
                            })
                        &&& final(self).subtask_results@.len() == old(
                            self,
                        ).subtask_results@.len()
                        &&& forall|j: int|
                            0 <= j < old(self).subtask_results@.len()
                                ==> #[trigger] final(self).subtask_results@[j] == (if old(
                                self,
                            ).subtask_results@[j].submission_id == submission_id {
                                SubtaskResultRow {
                                    result: crate::store::subtask_agg_verdict(
                                        old(self).test_results@,
                                        submission_id,
                                        crate::store::subtask_test_ids(
                                            old(self).subtask_tests@,
                                            old(self).subtask_results@[j].subtask_id,
                                        ),
                                    ),
                                    points: Some(
                                        crate::store::subtask_agg_points(
                                            old(self).subtasks@,
                                            old(self).test_results@,
                                            old(self).subtask_tests@,
                                            submission_id,
                                            old(self).subtask_results@[j].subtask_id,
                                        ) as i32,
                                    ),
                                    ..old(self).subtask_results@[j]
                                }
                            } else {
                                old(self).subtask_results@[j]
                            })
                    } else {
                        *final(self) == *old(self)
                    }
                },
                Err(e) => {
                    &&& find_first(old(self).submissions@, p_submission_id(submission_id))
                        is Some
                    &&& (e == StoreError::NotFound || e == StoreError::Overflow || e
                        == StoreError::Conflict)
                    &&& (e == StoreError::NotFound ==> !crate::store::all_member_tests_recorded(
                        old(self).test_results@,
                        old(self).subtask_tests@,
                        submission_id,
                        submission_subtask_ids(old(self).subtask_results@, submission_id),
                    ))
                    &&& (e == StoreError::Overflow ==> crate::store::submission_agg_total(
                        old(self).subtasks@,
                        old(self).test_results@,
                        old(self).subtask_tests@,
                        submission_id,
                        submission_subtask_ids(old(self).subtask_results@, submission_id),
                    ) > i32::MAX)
                    &&& (e == StoreError::Conflict ==> (find_first(
                        old(self).submissions@,
                        p_submission_id(submission_id),
                    ) matches Some(row) && row.tests_done as int != submission_test_ids(
                        old(self).test_results@,
                        submission_id,
                    ).len()))
                },
            },
    {
        let i_sub = match self.find_submission_idx(submission_id) {
            None => {
                proof {
                    crate::seqtools::lemma_find_first_props(
                        self.submissions@,
                        p_submission_id(submission_id),
                    );
                }
                return Ok(());
            },
            Some(i) => i,
        };
        proof {
            crate::seqtools::lemma_find_first_props(
                self.submissions@,
                p_submission_id(submission_id),
            );
        }
        let total_rows = self.get_tests_for_submission(submission_id).len();
        proof {
            assert(self.submissions@[i_sub as int].tests_done >= 0);
        }
        if self.submissions[i_sub].tests_done as usize != total_rows {
            return Err(StoreError::Conflict);
        }
        let stids = self.get_subtasks_for_submission(submission_id);
        let ghost g_stids = stids@;
        let ghost pre = *self;
        let n = stids.len();
        let mut plan_results: Vec<TestingResult> = Vec::new();
        let mut plan_points: Vec<i32> = Vec::new();
        let mut total: i64 = 0;
        let mut final_result = TestingResult::Accepted;
        let mut k: usize = 0;
        while k < n
            invariant
                k <= n,
                n == g_stids.len(),
                pre == *self,
                pre == *old(self),
                pre.wf(),
                0 <= i_sub < pre.submissions@.len(),
                pre.submissions@[i_sub as int].submission_id == submission_id,
                pre.submissions@[i_sub as int].tests_done as int == submission_test_ids(
                    pre.test_results@,
                    submission_id,
                ).len(),
                g_stids == submission_subtask_ids(pre.subtask_results@, submission_id),
                stids@ == g_stids,
                plan_results@.len() == k,
                plan_points@.len() == k,
                forall|j: int|
                    0 <= j < k ==> #[trigger] plan_results@[j]
                        == crate::store::subtask_agg_verdict(
                        pre.test_results@,
                        submission_id,
                        crate::store::subtask_test_ids(pre.subtask_tests@, g_stids[j]),
                    ),
                forall|j: int|
                    0 <= j < k ==> #[trigger] plan_points@[j] as int
                        == crate::store::subtask_agg_points(
                        pre.subtasks@,
                        pre.test_results@,
                        pre.subtask_tests@,
                        submission_id,
                        g_stids[j],
                    ),
                forall|j: int|
                    0 <= j < k ==> #[trigger] plan_points@[j] == 0 || (find_first(
                        pre.subtasks@,
                        crate::store::p_subtask_id(g_stids[j]),
                    ) matches Some(st) && plan_points@[j] == st.subtask_score),
                crate::store::all_member_tests_recorded(
                    pre.test_results@,
                    pre.subtask_tests@,
                    submission_id,
                    g_stids.take(k as int),
                ),
                total == crate::store::submission_agg_total(
                    pre.subtasks@,
                    pre.test_results@,
                    pre.subtask_tests@,
                    submission_id,
                    g_stids.take(k as int),
                ),
                0 <= total <= i32::MAX,
                final_result == crate::store::submission_agg_verdict(
                    pre.test_results@,
                    pre.subtask_tests@,
                    submission_id,
                    g_stids.take(k as int),
                ),
            decreases n - k,
        {
            let stid = stids[k];
            let tests = self.get_tests_for_subtask(stid);
            let ghost g_tests = tests@;
            let m_count = tests.len();
            let mut st_res = TestingResult::Accepted;
            let mut m: usize = 0;
            while m < m_count
                invariant
                    m <= m_count,
                    m_count == g_tests.len(),
                    pre == *self,
                    pre == *old(self),
                    pre.wf(),
                    0 <= k < g_stids.len(),
                    stid == g_stids[k as int],
                    0 <= i_sub < pre.submissions@.len(),
                    pre.submissions@[i_sub as int].submission_id == submission_id,
                    g_stids == submission_subtask_ids(pre.subtask_results@, submission_id),
                    g_tests == crate::store::subtask_test_ids(pre.subtask_tests@, stid),
                    tests@ == g_tests,
                    forall|b: int|
                        0 <= b < m ==> find_first(
                            pre.test_results@,
                            p_test_result(submission_id, #[trigger] g_tests[b]),
                        ) is Some,
                    st_res == crate::store::subtask_agg_verdict(
                        pre.test_results@,
                        submission_id,
                        g_tests.take(m as int),
                    ),
                decreases m_count - m,
            {
                proof {
                    assert(g_tests.take(m + 1).drop_last() =~= g_tests.take(m as int));
                }
                match self.get_test_result(submission_id, tests[m]) {
                    Err(_) => {
                        proof {
                            assert(!crate::store::all_member_tests_recorded(
                                pre.test_results@,
                                pre.subtask_tests@,
                                submission_id,
                                g_stids,
                            )) by {
                                if crate::store::all_member_tests_recorded(
                                    pre.test_results@,
                                    pre.subtask_tests@,
                                    submission_id,
                                    g_stids,
                                ) {
                                    assert(find_first(
                                        pre.test_results@,
                                        p_test_result(
                                            submission_id,
                                            crate::store::subtask_test_ids(
                                                pre.subtask_tests@,
                                                g_stids[k as int],
                                            )[m as int],
                                        ),
                                    ) is Some);
                                }
                            }
                        }
                        proof {
                            lemma_find_first_some(
                                pre.submissions@,
                                p_submission_id(submission_id),
                                i_sub as int,
                            );
                        }
                        return Err(StoreError::NotFound);
                    },
                    Ok(v) => {
                        if !matches!(v, TestingResult::Accepted) {
                            st_res = v;
                        }
                    },
                }
                m = m + 1;
            }
            proof {
                assert(g_tests.take(m_count as int) =~= g_tests);
                assert(g_stids.take(k + 1).drop_last() =~= g_stids.take(k as int));
                assert(g_stids.take(k + 1).last() == g_stids[k as int]);
            }
            let st_pts: i32 = if matches!(st_res, TestingResult::Accepted) {
                match self.find_subtask_idx(stid) {
                    Some(ix) => self.subtasks[ix].subtask_score,
                    None => {
                        proof {
                            let pid = pre.submissions@[i_sub as int].problem_id;
                            assert(submission_subtask_ids(
                                pre.subtask_results@,
                                submission_id,
                            ) == problem_subtask_ids(pre.subtasks@, pid));
                            lemma_proj_membership(
                                pre.subtasks@,
                                |r: SubtaskRow| r.problem_id == pid,
                                |r: SubtaskRow| r.subtask_id,
                                k as int,
                            );
                            let w = choose|i: int|
                                0 <= i < pre.subtasks@.len() && (#[trigger] pre.subtasks@[i]).problem_id
                                    == pid && pre.subtasks@[i].subtask_id == g_stids[k as int];
                            lemma_find_first_some(
                                pre.subtasks@,
                                crate::store::p_subtask_id(stid),
                                w,
                            );
                            assert(false);
                        }
                        0
                    },
                }
            } else {
                0
            };
            proof {
                if st_res == TestingResult::Accepted {
                    assert(find_first(pre.subtasks@, crate::store::p_subtask_id(stid))
                        is Some);
                }
            }
            if !matches!(st_res, TestingResult::Accepted) {
                final_result = st_res;
            }
            total = total + st_pts as i64;
            if total > i32::MAX as i64 {
                proof {
                    lemma_agg_total_monotone(
                        pre.subtasks@,
                        pre.test_results@,
                        pre.subtask_tests@,
                        submission_id,
                        g_stids,
                        k + 1,
                    );
                }
                proof {
                    lemma_find_first_some(
                        pre.submissions@,
                        p_submission_id(submission_id),
                        i_sub as int,
                    );
                }
                return Err(StoreError::Overflow);
            }
            plan_results.push(st_res);
            plan_points.push(st_pts);
            k = k + 1;
        }
        proof {
            assert(g_stids.take(n as int) =~= g_stids);
        }
        // write the subtask rows from the plan, row by row
        let srs_len = self.subtask_results.len();
        proof {
            crate::seqtools::lemma_proj_pairwise(
                pre.subtask_results@,
                |r: SubtaskResultRow| r.submission_id == submission_id,
                |r: SubtaskResultRow| r.subtask_id,
                |a: SubtaskId, b: SubtaskId| a != b,
            );
        }
        let mut j: usize = 0;
        while j < srs_len
            invariant
                j <= srs_len,
                srs_len == self.subtask_results@.len(),
                pre == *old(self),
                pre.wf(),
                n == g_stids.len(),
                0 <= i_sub < pre.submissions@.len(),
                pre.submissions@[i_sub as int].submission_id == submission_id,
                pre.submissions@[i_sub as int].tests_done as int == submission_test_ids(
                    pre.test_results@,
                    submission_id,
                ).len(),
                stids@ == g_stids,
                final_result == crate::store::submission_agg_verdict(
                    pre.test_results@,
                    pre.subtask_tests@,
                    submission_id,
                    g_stids,
                ),
                total == crate::store::submission_agg_total(
                    pre.subtasks@,
                    pre.test_results@,
                    pre.subtask_tests@,
                    submission_id,
                    g_stids,
                ),
                0 <= total <= i32::MAX,
                crate::store::all_member_tests_recorded(
                    pre.test_results@,
                    pre.subtask_tests@,
                    submission_id,
                    g_stids,
                ),
                g_stids == submission_subtask_ids(pre.subtask_results@, submission_id),
                forall|a: int, b: int|
                    0 <= a < b < g_stids.len() ==> #[trigger] g_stids[a] != #[trigger] g_stids[b],
                plan_results@.len() == n,
                plan_points@.len() == n,
                forall|m2: int|
                    0 <= m2 < n ==> #[trigger] plan_results@[m2]
                        == crate::store::subtask_agg_verdict(
                        pre.test_results@,
                        submission_id,
                        crate::store::subtask_test_ids(pre.subtask_tests@, g_stids[m2]),
                    ),
                forall|m2: int|
                    0 <= m2 < n ==> #[trigger] plan_points@[m2] as int
                        == crate::store::subtask_agg_points(
                        pre.subtasks@,
                        pre.test_results@,
                        pre.subtask_tests@,
                        submission_id,
                        g_stids[m2],
                    ),
                self.users == pre.users,
                self.tokens == pre.tokens,
                self.contests == pre.contests,
                self.participations == pre.participations,
                self.contest_problems == pre.contest_problems,
                self.problems == pre.problems,
                self.subtasks == pre.subtasks,
                self.tests == pre.tests,
                self.subtask_tests == pre.subtask_tests,
                self.submissions == pre.submissions,
                self.test_results == pre.test_results,
                self.scores == pre.scores,
                self.next_user_id == pre.next_user_id,
                self.next_contest_id == pre.next_contest_id,
                self.next_problem_id == pre.next_problem_id,
                self.next_subtask_id == pre.next_subtask_id,
                self.next_test_id == pre.next_test_id,
                self.next_submission_id == pre.next_submission_id,
                self.subtask_results@.len() == pre.subtask_results@.len(),
                forall|j2: int|
                    j <= j2 < pre.subtask_results@.len() ==> #[trigger] self.subtask_results@[j2]
                        == pre.subtask_results@[j2],
                forall|j2: int|
                    0 <= j2 < j ==> #[trigger] self.subtask_results@[j2] == (if pre.subtask_results@[j2].submission_id
                        == submission_id {
                        SubtaskResultRow {
                            result: crate::store::subtask_agg_verdict(
                                pre.test_results@,
                                submission_id,
                                crate::store::subtask_test_ids(
                                    pre.subtask_tests@,
                                    pre.subtask_results@[j2].subtask_id,
                                ),
                            ),
                            points: Some(
                                crate::store::subtask_agg_points(
                                    pre.subtasks@,
                                    pre.test_results@,
                                    pre.subtask_tests@,
                                    submission_id,
                                    pre.subtask_results@[j2].subtask_id,
                                ) as i32,
                            ),
                            ..pre.subtask_results@[j2]
                        }
                    } else {
                        pre.subtask_results@[j2]
                    }),
            decreases srs_len - j,
        {
            if self.subtask_results[j].submission_id == submission_id {
                let stid_j = self.subtask_results[j].subtask_id;
                proof {
                    crate::seqtools::lemma_proj_contains_index(
                        pre.subtask_results@,
                        |r: SubtaskResultRow| r.submission_id == submission_id,
                        |r: SubtaskResultRow| r.subtask_id,
                        j as int,
                    );
                }
                let mut m: usize = 0;
                let mut found: bool = false;
                while m < n && !found
                    invariant
                        m <= n,
                        n == g_stids.len(),
                        n == stids@.len(),
                        stids@ == g_stids,
                        !found ==> forall|b: int| 0 <= b < m ==> #[trigger] g_stids[b] != stid_j,
                        found ==> m < n && g_stids[m as int] == stid_j,
                    decreases n - m + if found {
                        0int
                    } else {
                        1int
                    },
                {
                    if stids[m] == stid_j {
                        found = true;
                    } else {
                        m = m + 1;
                    }
                }
                proof {
                    assert(g_stids.contains(stid_j));
                    if !found {
                        assert(m == n);
                        let w = choose|b: int|
                            0 <= b < g_stids.len() && g_stids[b] == stid_j;
                        assert(g_stids[w] == stid_j);
                        assert(g_stids[w] != stid_j);
                        assert(false);
                    }
                }
                let row = SubtaskResultRow {
                    submission_id,
                    subtask_id: stid_j,
                    result: plan_results[m],
                    points: Some(plan_points[m]),
                };
                self.subtask_results[j] = row;
            }
            j = j + 1;
        }
        // record the submission verdict and total
        self.submissions[i_sub].result = final_result;
        let total32: i32 = total as i32;
        self.submissions[i_sub].points = Some(total32);
        proof {
            lemma_update_submission_result_wf(
                pre,
                *self,
                submission_id,
                i_sub as int,
                g_stids,
                final_result,
                total32,
            );
        }
        Ok(())
    }
}


/// Writing the aggregate verdicts and points for one submission preserves
/// the store invariant.
proof fn lemma_update_submission_result_wf(
    pre: Store,
    post: Store,
    sid: SubmissionId,
    i_sub: int,
    stids: Seq<SubtaskId>,
    verdict: TestingResult,
    total32: i32,
)
    requires
        pre.wf(),
        post.users == pre.users,
        post.tokens == pre.tokens,
        post.contests == pre.contests,
        post.participations == pre.participations,
        post.contest_problems == pre.contest_problems,
        post.problems == pre.problems,
        post.subtasks == pre.subtasks,
        post.tests == pre.tests,
        post.subtask_tests == pre.subtask_tests,
        post.test_results == pre.test_results,
        post.scores == pre.scores,
        post.next_user_id == pre.next_user_id,
        post.next_contest_id == pre.next_contest_id,
        post.next_problem_id == pre.next_problem_id,
        post.next_subtask_id == pre.next_subtask_id,
        post.next_test_id == pre.next_test_id,
        post.next_submission_id == pre.next_submission_id,
        0 <= i_sub < pre.submissions@.len(),
        pre.submissions@[i_sub].submission_id == sid,
        pre.submissions@[i_sub].tests_done as int == submission_test_ids(
            pre.test_results@,
            sid,
        ).len(),
        stids == submission_subtask_ids(pre.subtask_results@, sid),
        verdict == crate::store::submission_agg_verdict(
            pre.test_results@,
            pre.subtask_tests@,
            sid,
            stids,
        ),
        total32 as int == crate::store::submission_agg_total(
            pre.subtasks@,
            pre.test_results@,
            pre.subtask_tests@,
            sid,
            stids,
        ),
        post.submissions@.len() == pre.submissions@.len(),
        forall|j: int|
            0 <= j < pre.submissions@.len() ==> #[trigger] post.submissions@[j] == (if j == i_sub {
                SubmissionRow {
                    result: verdict,
                    points: Some(total32),
                    ..pre.submissions@[j]
                }
            } else {
                pre.submissions@[j]
            }),
        post.subtask_results@.len() == pre.subtask_results@.len(),
        forall|j: int|
            0 <= j < pre.subtask_results@.len() ==> #[trigger] post.subtask_results@[j] == (if pre.subtask_results@[j].submission_id
                == sid {
                SubtaskResultRow {
                    result: crate::store::subtask_agg_verdict(
                        pre.test_results@,
                        sid,
                        crate::store::subtask_test_ids(
                            pre.subtask_tests@,
                            pre.subtask_results@[j].subtask_id,
                        ),
                    ),
                    points: Some(
                        crate::store::subtask_agg_points(
                            pre.subtasks@,
                            pre.test_results@,
                            pre.subtask_tests@,
                            sid,
                            pre.subtask_results@[j].subtask_id,
                        ) as i32,
                    ),
                    ..pre.subtask_results@[j]
                }
            } else {
                pre.subtask_results@[j]
            }),
    ensures
        post.wf(),
{
    let srs1 = pre.subtask_results@;
    let srs2 = post.subtask_results@;
    // points awarded by the aggregation stay inside the subtask's score
    assert forall|stid: SubtaskId|
        #![trigger crate::store::subtask_agg_points(pre.subtasks@, pre.test_results@, pre.subtask_tests@, sid, stid)]
        {
            let pts = crate::store::subtask_agg_points(
                pre.subtasks@,
                pre.test_results@,
                pre.subtask_tests@,
                sid,
                stid,
            );
            0 <= pts <= i32::MAX && (pts == 0 || (find_first(
                pre.subtasks@,
                crate::store::p_subtask_id(stid),
            ) matches Some(st) && pts == st.subtask_score))
        } by {
        lemma_agg_points_nonneg(
            pre.subtasks@,
            pre.test_results@,
            pre.subtask_tests@,
            sid,
            stid,
        );
        crate::seqtools::lemma_find_first_props(
            pre.subtasks@,
            crate::store::p_subtask_id(stid),
        );
    };
    assert(post.wf_id_bounds());
    assert(post.wf_unique());
    assert(post.wf_scoring());
    assert forall|j: int| 0 <= j < post.submissions@.len() implies {
        let sub = #[trigger] post.submissions@[j];
        &&& submission_test_ids(post.test_results@, sub.submission_id) == problem_test_ids(
            post.tests@,
            sub.problem_id,
        )
        &&& submission_subtask_ids(post.subtask_results@, sub.submission_id)
            == problem_subtask_ids(post.subtasks@, sub.problem_id)
        &&& 0 <= sub.tests_done <= submission_test_ids(
            post.test_results@,
            sub.submission_id,
        ).len()
        &&& (is_terminal(sub.result) && sub.result != TestingResult::CompilationError ==> (
        sub.tests_done as int == submission_test_ids(
            post.test_results@,
            sub.submission_id,
        ).len() && sub.points is Some))
        &&& match sub.points {
            Some(p) => p as int == crate::store::submission_points_sum(
                post.subtask_results@,
                sub.submission_id,
            ),
            None => true,
        }
    } by {
        let sub = post.submissions@[j];
        let presub = pre.submissions@[j];
        let sid2 = presub.submission_id;
        assert(sub.submission_id == sid2 && sub.problem_id == presub.problem_id
            && sub.tests_done == presub.tests_done);
        lemma_sr_ids_congruent(srs1, srs2, sid2);
        if j != i_sub {
            assert(sid2 != sid);
            let ids = submission_subtask_ids(srs1, sid2);
            assert forall|m2: int| 0 <= m2 < ids.len() implies points_of(
                srs2,
                sid2,
                #[trigger] ids[m2],
            ) == points_of(srs1, sid2, ids[m2]) by {
                lemma_points_of_congruent(srs1, srs2, sid2, ids[m2]);
            };
            lemma_sum_points_congruent(srs1, srs2, sid2, ids);
        } else {
            // the aggregated submission: its sum is the aggregate total
            assert(sid2 == sid);
            assert forall|m2: int| 0 <= m2 < stids.len() implies points_of(
                srs2,
                sid,
                #[trigger] stids[m2],
            ) == crate::store::subtask_agg_points(
                pre.subtasks@,
                pre.test_results@,
                pre.subtask_tests@,
                sid,
                stids[m2],
            ) by {
                lemma_proj_membership(
                    srs1,
                    |r: SubtaskResultRow| r.submission_id == sid,
                    |r: SubtaskResultRow| r.subtask_id,
                    m2,
                );
                let w = choose|i: int|
                    0 <= i < srs1.len() && (#[trigger] srs1[i]).submission_id == sid
                        && srs1[i].subtask_id == stids[m2];
                assert forall|i: int|
                    0 <= i < srs2.len() && i != w implies !(crate::store::p_subtask_result(
                    sid,
                    stids[m2],
                )(#[trigger] srs2[i])) by {
                    assert(srs2[i].submission_id == srs1[i].submission_id && srs2[i].subtask_id
                        == srs1[i].subtask_id);
                };
                assert(crate::store::p_subtask_result(sid, stids[m2])(srs2[w]));
                crate::seqtools::lemma_find_first_unique(
                    srs2,
                    w,
                    crate::store::p_subtask_result(sid, stids[m2]),
                );
            };
            lemma_sum_points_eq_agg(
                srs2,
                pre.subtasks@,
                pre.test_results@,
                pre.subtask_tests@,
                sid,
                stids,
            );
        }
    };
    assert(post.wf_submissions());
}

} // verus!
