//! The read API the interface layer consumes: one submission's code,
//! verdict and points together with its per-subtask and per-test rows.

use vstd::prelude::*;
use crate::seqtools::find_first;
use crate::seqtools::lemma_find_first_some;
use crate::seqtools::lemma_proj_membership;
use crate::store::Store;
use crate::store::StoreError;
use crate::store::SubtaskId;
use crate::store::TestId;
use crate::store::SubmissionId;
use crate::store::SubtaskRow;
use crate::store::SubtaskResultRow;
use crate::store::TestResultRow;
use crate::store::p_submission_id;
use crate::store::p_subtask_id;
use crate::store::p_subtask_result;
use crate::store::p_test_result;
use crate::store::problem_subtask_ids;
use crate::store::submission_subtask_ids;
use crate::store::submission_test_ids;
use crate::verdict::TestingResult;

verus! {

/// One submission as the interface shows it: its code, verdict and points,
/// one row per subtask with points and the subtask's full score, and one
/// row per test with the elapsed time.
pub struct SubmissionView {
    pub code: String,
    pub result: TestingResult,
    pub points: Option<i32>,
    pub per_subtask: Vec<(SubtaskId, TestingResult, Option<i32>, i32)>,
    pub per_test: Vec<(TestId, TestingResult, Option<i32>)>,
}

impl Store {
    /// Assemble the view of one submission. Fails only on an unknown
    /// submission id: a well-formed store holds a result row for every
    /// subtask and test of the submission's problem.
    pub fn get_submission_view(&self, submission_id: SubmissionId) -> (r: Result<
        SubmissionView,
        StoreError,
    >)
        requires
            self.wf(),
        ensures
            match r {
                Ok(v) => {
                    let stids = submission_subtask_ids(self.subtask_results@, submission_id);
                    let tids = submission_test_ids(self.test_results@, submission_id);
                    &&& find_first(self.submissions@, p_submission_id(submission_id))
                        matches Some(row) && v.code@ == row.code@ && v.result == row.result
                        && v.points == row.points
                    &&& v.per_subtask@.len() == stids.len()
                    &&& forall|k: int|
                        0 <= k < stids.len() ==> (#[trigger] v.per_subtask@[k]).0 == stids[k]
                            && (find_first(
                            self.subtask_results@,
                            p_subtask_result(submission_id, stids[k]),
                        ) matches Some(sr) && v.per_subtask@[k].1 == sr.result
                            && v.per_subtask@[k].2 == sr.points) && (find_first(
                            self.subtasks@,
                            p_subtask_id(stids[k]),
                        ) matches Some(st) && v.per_subtask@[k].3 == st.subtask_score)
                    &&& v.per_test@.len() == tids.len()
                    &&& forall|k: int|
                        0 <= k < tids.len() ==> (#[trigger] v.per_test@[k]).0 == tids[k] && (
                        find_first(
                            self.test_results@,
                            p_test_result(submission_id, tids[k]),
                        ) matches Some(tr) && v.per_test@[k].1 == tr.result && v.per_test@[k].2
                            == tr.time_ms)
                },
                Err(e) => e == StoreError::NotFound && find_first(
                    self.submissions@,
                    p_submission_id(submission_id),
                ) is None,
            },
    {
        let i_sub = match self.find_submission_idx(submission_id) {
            None => {
                return Err(StoreError::NotFound);
            },
            Some(i) => i,
        };
        proof {
            crate::seqtools::lemma_find_first_props(
                self.submissions@,
                p_submission_id(submission_id),
            );
        }
        let ghost pid = self.submissions@[i_sub as int].problem_id;
        let stids = self.get_subtasks_for_submission(submission_id);
        let tids = self.get_tests_for_submission(submission_id);
        let ghost g_stids = stids@;
        let ghost g_tids = tids@;
        let n = stids.len();
        let mut per_subtask: Vec<(SubtaskId, TestingResult, Option<i32>, i32)> = Vec::new();
        let mut k: usize = 0;
        while k < n
            invariant
                k <= n,
                n == g_stids.len(),
                self.wf(),
                stids@ == g_stids,
                0 <= i_sub < self.submissions@.len(),
                self.submissions@[i_sub as int].submission_id == submission_id,
                pid == self.submissions@[i_sub as int].problem_id,
                g_stids == submission_subtask_ids(self.subtask_results@, submission_id),
                per_subtask@.len() == k,
                forall|j: int|
                    0 <= j < k ==> (#[trigger] per_subtask@[j]).0 == g_stids[j] && (find_first(
                        self.subtask_results@,
                        p_subtask_result(submission_id, g_stids[j]),
                    ) matches Some(sr) && per_subtask@[j].1 == sr.result && per_subtask@[j].2
                        == sr.points) && (find_first(
                        self.subtasks@,
                        p_subtask_id(g_stids[j]),
                    ) matches Some(st) && per_subtask@[j].3 == st.subtask_score),
            decreases n - k,
        {
            let stid = stids[k];
            let sr_idx = match self.find_subtask_result_idx(submission_id, stid) {
                Some(i) => i,
                None => {
                    proof {
                        lemma_proj_membership(
                            self.subtask_results@,
                            |r: SubtaskResultRow| r.submission_id == submission_id,
                            |r: SubtaskResultRow| r.subtask_id,
                            k as int,
                        );
                        let w = choose|i: int|
                            0 <= i < self.subtask_results@.len() && (
                            #[trigger] self.subtask_results@[i]).submission_id == submission_id
                                && self.subtask_results@[i].subtask_id == g_stids[k as int];
                        lemma_find_first_some(
                            self.subtask_results@,
                            p_subtask_result(submission_id, stid),
                            w,
                        );
                        assert(false);
                    }
                    0
                },
            };
            let st_idx = match self.find_subtask_idx(stid) {
                Some(i) => i,
                None => {
                    proof {
                        assert(submission_subtask_ids(self.subtask_results@, submission_id)
                            == problem_subtask_ids(self.subtasks@, pid));
                        lemma_proj_membership(
                            self.subtasks@,
                            |r: SubtaskRow| r.problem_id == pid,
                            |r: SubtaskRow| r.subtask_id,
                            k as int,
                        );
                        let w = choose|i: int|
                            0 <= i < self.subtasks@.len() && (#[trigger] self.subtasks@[
                                i
                            ]).problem_id == pid && self.subtasks@[i].subtask_id == g_stids[
                                k as int
                            ];
                        lemma_find_first_some(self.subtasks@, p_subtask_id(stid), w);
                        assert(false);
                    }
                    0
                },
            };
            per_subtask.push(
                (
                    stid,
                    self.subtask_results[sr_idx].result,
                    self.subtask_results[sr_idx].points,
                    self.subtasks[st_idx].subtask_score,
                ),
            );
            k = k + 1;
        }
        let m = tids.len();
        let mut per_test: Vec<(TestId, TestingResult, Option<i32>)> = Vec::new();
        let mut k2: usize = 0;
        while k2 < m
            invariant
                k2 <= m,
                m == g_tids.len(),
                self.wf(),
                tids@ == g_tids,
                0 <= i_sub < self.submissions@.len(),
                self.submissions@[i_sub as int].submission_id == submission_id,
                g_tids == submission_test_ids(self.test_results@, submission_id),
                per_test@.len() == k2,
                forall|j: int|
                    0 <= j < k2 ==> (#[trigger] per_test@[j]).0 == g_tids[j] && (find_first(
                        self.test_results@,
                        p_test_result(submission_id, g_tids[j]),
                    ) matches Some(tr) && per_test@[j].1 == tr.result && per_test@[j].2
                        == tr.time_ms),
            decreases m - k2,
        {
            let tid = tids[k2];
            let tr_idx = match self.find_test_result_idx(submission_id, tid) {
                Some(i) => i,
                None => {
                    proof {
                        lemma_proj_membership(
                            self.test_results@,
                            |r: TestResultRow| r.submission_id == submission_id,
                            |r: TestResultRow| r.test_id,
                            k2 as int,
                        );
                        let w = choose|i: int|
                            0 <= i < self.test_results@.len() && (#[trigger] self.test_results@[
                                i
                            ]).submission_id == submission_id && self.test_results@[i].test_id
                                == g_tids[k2 as int];
                        lemma_find_first_some(
                            self.test_results@,
                            p_test_result(submission_id, tid),
                            w,
                        );
                        assert(false);
                    }
                    0
                },
            };
            per_test.push(
                (tid, self.test_results[tr_idx].result, self.test_results[tr_idx].time_ms),
            );
            k2 = k2 + 1;
        }
        Ok(
            SubmissionView {
                code: self.submissions[i_sub].code.clone(),
                result: self.submissions[i_sub].result,
                points: self.submissions[i_sub].points,
                per_subtask,
                per_test,
            },
        )
    }
}

} // verus!
