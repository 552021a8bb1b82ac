//! Problem authoring: creating problems, editing their text, and attaching
//! subtasks and tests. A problem's tests and subtasks can only change while
//! no submission references the problem, so every submission's result rows
//! always mirror its problem's tests.

use vstd::prelude::*;
use crate::seqtools::find_first;
use crate::seqtools::lemma_find_first_props;
use crate::seqtools::lemma_find_first_push;
use crate::seqtools::lemma_proj_push;
use crate::seqtools::lemma_sum_push;
use crate::store::Store;
use crate::store::StoreError;
use crate::store::ProblemId;
use crate::store::SubtaskId;
use crate::store::TestId;
use crate::store::ProblemRow;
use crate::store::SubtaskRow;
use crate::store::TestRow;
use crate::store::SubtaskTestRow;
use crate::store::SubmissionRow;
use crate::store::SubtaskResultRow;
use crate::store::p_problem_id;
use crate::store::p_problem_name;
use crate::store::p_subtask_id;
use crate::store::p_test_id;
use crate::store::p_submission_problem;
use crate::store::p_subtask_test;
use crate::store::submission_test_ids;
use crate::store::submission_subtask_ids;

verus! {

impl Store {
    /// Whether any submission references this problem.
    pub fn problem_has_submissions(&self, problem_id: ProblemId) -> (r: bool)
        ensures
            r == (find_first(self.submissions@, p_submission_problem(problem_id)) is Some),
    {
        let ghost p = p_submission_problem(problem_id);
        let n = self.submissions.len();
        let mut i: usize = 0;
        while i < n
            invariant
                i <= n,
                n == self.submissions@.len(),
                p == p_submission_problem(problem_id),
                find_first(self.submissions@.take(i as int), p) is None,
            decreases n - i,
        {
            proof {
                crate::seqtools::lemma_take_step(self.submissions@, i as int);
            }
            if self.submissions[i].problem_id == problem_id {
                proof {
                    crate::seqtools::lemma_find_first_extend(self.submissions@, p, i + 1);
                }
                return true;
            }
            i = i + 1;
        }
        proof {
            assert(self.submissions@.take(n as int) =~= self.submissions@);
        }
        false
    }

    /// Create a problem with no subtasks and no tests yet. The name must be
    /// new.
    pub fn add_problem(&mut self, problem_name: &str, problem_description: &str, time_limit: i32)
        -> (r: Result<ProblemId, StoreError>)
        requires
            old(self).wf(),
        ensures
            final(self).wf(),
            match r {
                Ok(id) => {
                    &&& id == old(self).next_problem_id
                    &&& final(self).next_problem_id == old(self).next_problem_id + 1
                    &&& final(self).problems@.len() == old(self).problems@.len() + 1
                    &&& final(self).problems@.drop_last() == old(self).problems@
                    &&& final(self).problems@.last().problem_id == id
                    &&& final(self).problems@.last().problem_name@ == problem_name@
                    &&& final(self).problems@.last().problem_description@
                        == problem_description@
                    &&& final(self).problems@.last().points == 0
                    &&& final(self).problems@.last().time_limit_ms == time_limit
                },
                Err(e) => {
                    &&& *final(self) == *old(self)
                    &&& (e == StoreError::Duplicate || e == StoreError::Overflow)
                    &&& (e == StoreError::Duplicate <==> find_first(
                        old(self).problems@,
                        p_problem_name(problem_name@),
                    ) is Some)
                    &&& (e == StoreError::Overflow ==> old(self).next_problem_id == i32::MAX)
                },
            },
            final(self).users == old(self).users,
            final(self).tokens == old(self).tokens,
            final(self).contests == old(self).contests,
            final(self).participations == old(self).participations,
            final(self).contest_problems == old(self).contest_problems,
            final(self).subtasks == old(self).subtasks,
            final(self).tests == old(self).tests,
            final(self).subtask_tests == old(self).subtask_tests,
            final(self).submissions == old(self).submissions,
            final(self).subtask_results == old(self).subtask_results,
            final(self).test_results == old(self).test_results,
            final(self).scores == old(self).scores,
    {
        if self.problem_with_name_exists(problem_name) {
            return Err(StoreError::Duplicate);
        }
        proof {
            lemma_find_first_props(self.problems@, p_problem_name(problem_name@));
        }
        if self.next_problem_id == i32::MAX {
            return Err(StoreError::Overflow);
        }
        let id = self.next_problem_id;
        let row = ProblemRow {
            problem_id: id,
            problem_name: String::from_str(problem_name),
            problem_description: String::from_str(problem_description),
            points: 0,
            time_limit_ms: time_limit,
        };
        self.problems.push(row);
        self.next_problem_id = id + 1;
        proof {
            // the fresh problem has no subtasks, so its points sum is zero
            assert(forall|i: int|
                0 <= i < self.subtasks@.len() ==> (#[trigger] self.subtasks@[i]).problem_id
                    != id);
            crate::seqtools::lemma_sum_zero(
                self.subtasks@,
                |r: SubtaskRow|
                    if r.problem_id == id {
                        r.subtask_score as int
                    } else {
                        0
                    },
            );
        }
        Ok(id)
    }

    /// Rename a problem. The new name must not collide with another
    /// problem.
    pub fn set_problem_name(&mut self, problem_id: ProblemId, problem_name: &str) -> (r: Result<
        (),
        StoreError,
    >)
        requires
            old(self).wf(),
        ensures
            final(self).wf(),
            match r {
                Ok(_) => {
                    &&& final(self).problems@.len() == old(self).problems@.len()
                    &&& forall|j: int|
                        0 <= j < old(self).problems@.len() ==> #[trigger] final(self).problems@[j]
                            == (if old(self).problems@[j].problem_id == problem_id {
                            ProblemRow {
                                problem_name: final(self).problems@[j].problem_name,
                                ..old(self).problems@[j]
                            }
                        } else {
                            old(self).problems@[j]
                        })
                    &&& forall|j: int|
                        0 <= j < old(self).problems@.len() && old(self).problems@[j].problem_id
                            == problem_id ==> (#[trigger] final(self).problems@[j]).problem_name@
                            == problem_name@
                },
                Err(e) => {
                    &&& *final(self) == *old(self)
                    &&& (e == StoreError::NotFound || e == StoreError::Duplicate)
                    &&& (e == StoreError::NotFound <==> find_first(
                        old(self).problems@,
                        p_problem_id(problem_id),
                    ) is None)
                    &&& (e == StoreError::Duplicate ==> (find_first(
                        old(self).problems@,
                        p_problem_name(problem_name@),
                    ) matches Some(p) && p.problem_id != problem_id))
                },
            },
            final(self).users == old(self).users,
            final(self).tokens == old(self).tokens,
            final(self).contests == old(self).contests,
            final(self).participations == old(self).participations,
            final(self).contest_problems == old(self).contest_problems,
            final(self).subtasks == old(self).subtasks,
            final(self).tests == old(self).tests,
            final(self).subtask_tests == old(self).subtask_tests,
            final(self).submissions == old(self).submissions,
            final(self).subtask_results == old(self).subtask_results,
            final(self).test_results == old(self).test_results,
            final(self).scores == old(self).scores,
    {
        let i = match self.find_problem_idx(problem_id) {
            None => {
                return Err(StoreError::NotFound);
            },
            Some(i) => i,
        };
        match self.get_problem_id_from_name(problem_name) {
            Ok(other) => {
                if other != problem_id {
                    return Err(StoreError::Duplicate);
                }
            },
            Err(_) => {},
        }
        proof {
            lemma_find_first_props(self.problems@, p_problem_id(problem_id));
            lemma_find_first_props(self.problems@, p_problem_name(problem_name@));
        }
        self.problems[i].problem_name = String::from_str(problem_name);
        Ok(())
    }

    /// Replace a problem's statement text.
    pub fn set_problem_description(&mut self, problem_id: ProblemId, problem_description: &str)
        -> (r: Result<(), StoreError>)
        requires
            old(self).wf(),
        ensures
            final(self).wf(),
            match r {
                Ok(_) => {
                    &&& final(self).problems@.len() == old(self).problems@.len()
                    &&& forall|j: int|
                        0 <= j < old(self).problems@.len() ==> #[trigger] final(self).problems@[j]
                            == (if old(self).problems@[j].problem_id == problem_id {
                            ProblemRow {
                                problem_description: final(self).problems@[j].problem_description,
                                ..old(self).problems@[j]
                            }
                        } else {
                            old(self).problems@[j]
                        })
                    &&& forall|j: int|
                        0 <= j < old(self).problems@.len() && old(self).problems@[j].problem_id
                            == problem_id ==> (#[trigger] final(self).problems@[
                            j
                        ]).problem_description@ == problem_description@
                },
                Err(e) => *final(self) == *old(self) && e == StoreError::NotFound && find_first(
                    old(self).problems@,
                    p_problem_id(problem_id),
                ) is None,
            },
            final(self).users == old(self).users,
            final(self).tokens == old(self).tokens,
            final(self).contests == old(self).contests,
            final(self).participations == old(self).participations,
            final(self).contest_problems == old(self).contest_problems,
            final(self).subtasks == old(self).subtasks,
            final(self).tests == old(self).tests,
            final(self).subtask_tests == old(self).subtask_tests,
            final(self).submissions == old(self).submissions,
            final(self).subtask_results == old(self).subtask_results,
            final(self).test_results == old(self).test_results,
            final(self).scores == old(self).scores,
    {
        let i = match self.find_problem_idx(problem_id) {
            None => {
                return Err(StoreError::NotFound);
            },
            Some(i) => i,
        };
        proof {
            lemma_find_first_props(self.problems@, p_problem_id(problem_id));
        }
        self.problems[i].problem_description = String::from_str(problem_description);
        Ok(())
    }

    /// Add a test to a problem. Refused while the problem has submissions,
    /// whose result rows would no longer mirror the problem's tests.
    pub fn add_test(&mut self, input_data: &str, output_data: &str, problem_id: ProblemId) -> (r:
        Result<TestId, StoreError>)
        requires
            old(self).wf(),
        ensures
            final(self).wf(),
            match r {
                Ok(id) => {
                    &&& id == old(self).next_test_id
                    &&& final(self).next_test_id == old(self).next_test_id + 1
                    &&& final(self).tests@.len() == old(self).tests@.len() + 1
                    &&& final(self).tests@.drop_last() == old(self).tests@
                    &&& final(self).tests@.last() == (TestRow {
                        test_id: id,
                        problem_id,
                        input_data: final(self).tests@.last().input_data,
                        output_data: final(self).tests@.last().output_data,
                    })
                    &&& final(self).tests@.last().input_data@ == input_data@
                    &&& final(self).tests@.last().output_data@ == output_data@
                },
                Err(e) => {
                    &&& *final(self) == *old(self)
                    &&& (e == StoreError::NotFound || e == StoreError::Conflict || e
                        == StoreError::Overflow)
                    &&& (e == StoreError::NotFound <==> find_first(
                        old(self).problems@,
                        p_problem_id(problem_id),
                    ) is None)
                    &&& (e == StoreError::Conflict ==> find_first(
                        old(self).submissions@,
                        p_submission_problem(problem_id),
                    ) is Some)
                    &&& (e == StoreError::Overflow ==> old(self).next_test_id == i32::MAX)
                },
            },
            final(self).users == old(self).users,
            final(self).tokens == old(self).tokens,
            final(self).contests == old(self).contests,
            final(self).participations == old(self).participations,
            final(self).contest_problems == old(self).contest_problems,
            final(self).problems == old(self).problems,
            final(self).subtasks == old(self).subtasks,
            final(self).subtask_tests == old(self).subtask_tests,
            final(self).submissions == old(self).submissions,
            final(self).subtask_results == old(self).subtask_results,
            final(self).test_results == old(self).test_results,
            final(self).scores == old(self).scores,
    {
        let pi = match self.find_problem_idx(problem_id) {
            None => {
                return Err(StoreError::NotFound);
            },
            Some(i) => i,
        };
        if self.problem_has_submissions(problem_id) {
            return Err(StoreError::Conflict);
        }
        if self.next_test_id == i32::MAX {
            return Err(StoreError::Overflow);
        }
        proof {
            lemma_find_first_props(self.submissions@, p_submission_problem(problem_id));
            lemma_find_first_props(self.problems@, p_problem_id(problem_id));
            assert(self.problems@[pi as int].problem_id == problem_id);
            assert(1 <= problem_id < self.next_problem_id);
        }
        let id = self.next_test_id;
        let row = TestRow {
            test_id: id,
            problem_id,
            input_data: String::from_str(input_data),
            output_data: String::from_str(output_data),
        };
        self.tests.push(row);
        self.next_test_id = id + 1;
        proof {
            let t2 = self.tests@;
            assert forall|j: int| 0 <= j < self.submissions@.len() implies submission_test_ids(
                self.test_results@,
                (#[trigger] self.submissions@[j]).submission_id,
            ) == crate::store::problem_test_ids(t2, self.submissions@[j].problem_id) by {
                lemma_proj_push(
                    old(self).tests@,
                    t2.last(),
                    |x: TestRow| x.problem_id == self.submissions@[j].problem_id,
                    |x: TestRow| x.test_id,
                );
                assert(self.submissions@[j].problem_id != problem_id);
            };
        }
        Ok(id)
    }

    /// Add a subtask worth `subtask_score` points to a problem, raising the
    /// problem's total by the same amount. Refused while the problem has
    /// submissions.
    pub fn add_subtask(&mut self, problem_id: ProblemId, subtask_score: i32) -> (r: Result<
        SubtaskId,
        StoreError,
    >)
        requires
            old(self).wf(),
        ensures
            final(self).wf(),
            match r {
                Ok(id) => {
                    &&& id == old(self).next_subtask_id
                    &&& final(self).next_subtask_id == old(self).next_subtask_id + 1
                    &&& final(self).subtasks@.len() == old(self).subtasks@.len() + 1
                    &&& final(self).subtasks@.drop_last() == old(self).subtasks@
                    &&& final(self).subtasks@.last() == (SubtaskRow {
                        subtask_id: id,
                        problem_id,
                        subtask_score,
                    })
                    &&& final(self).problems@.len() == old(self).problems@.len()
                    &&& forall|j: int|
                        0 <= j < old(self).problems@.len() ==> #[trigger] final(self).problems@[j]
                            == (if old(self).problems@[j].problem_id == problem_id {
                            ProblemRow {
                                points: (old(self).problems@[j].points + subtask_score) as i32,
                                ..old(self).problems@[j]
                            }
                        } else {
                            old(self).problems@[j]
                        })
                },
                Err(e) => {
                    &&& *final(self) == *old(self)
                    &&& (e == StoreError::NotFound || e == StoreError::Conflict || e
                        == StoreError::Overflow || e == StoreError::InvalidInput)
                    &&& (e == StoreError::NotFound <==> (subtask_score >= 0 && find_first(
                        old(self).problems@,
                        p_problem_id(problem_id),
                    ) is None))
                    &&& (e == StoreError::Conflict ==> find_first(
                        old(self).submissions@,
                        p_submission_problem(problem_id),
                    ) is Some)
                    &&& (e == StoreError::InvalidInput <==> subtask_score < 0)
                    &&& (e == StoreError::Overflow ==> (old(self).next_subtask_id == i32::MAX
                        || (find_first(old(self).problems@, p_problem_id(problem_id))
                        matches Some(p) && p.points > i32::MAX - subtask_score)))
                },
            },
            final(self).users == old(self).users,
            final(self).tokens == old(self).tokens,
            final(self).contests == old(self).contests,
            final(self).participations == old(self).participations,
            final(self).contest_problems == old(self).contest_problems,
            final(self).tests == old(self).tests,
            final(self).subtask_tests == old(self).subtask_tests,
            final(self).submissions == old(self).submissions,
            final(self).subtask_results == old(self).subtask_results,
            final(self).test_results == old(self).test_results,
            final(self).scores == old(self).scores,
    {
        if subtask_score < 0 {
            return Err(StoreError::InvalidInput);
        }
        let i = match self.find_problem_idx(problem_id) {
            None => {
                return Err(StoreError::NotFound);
            },
            Some(i) => i,
        };
        if self.problem_has_submissions(problem_id) {
            return Err(StoreError::Conflict);
        }
        if self.next_subtask_id == i32::MAX {
            return Err(StoreError::Overflow);
        }
        if self.problems[i].points > i32::MAX - subtask_score {
            return Err(StoreError::Overflow);
        }
        proof {
            lemma_find_first_props(self.submissions@, p_submission_problem(problem_id));
            lemma_find_first_props(self.problems@, p_problem_id(problem_id));
            assert(self.problems@[i as int].problem_id == problem_id);
            assert(1 <= problem_id < self.next_problem_id);
        }
        let id = self.next_subtask_id;
        let new_points = self.problems[i].points + subtask_score;
        self.problems[i].points = new_points;
        let row = SubtaskRow { subtask_id: id, problem_id, subtask_score };
        self.subtasks.push(row);
        self.next_subtask_id = id + 1;
        proof {
            let s2 = self.subtasks@;
            // each problem's points still sum its subtasks' scores
            assert forall|j: int| 0 <= j < self.problems@.len() implies (
            #[trigger] self.problems@[j]).points as int
                == crate::store::problem_subtask_score_sum(
                s2,
                self.problems@[j].problem_id,
            ) by {
                let pid2 = self.problems@[j].problem_id;
                lemma_sum_push(
                    old(self).subtasks@,
                    row,
                    |x: SubtaskRow|
                        if x.problem_id == pid2 {
                            x.subtask_score as int
                        } else {
                            0
                        },
                );
            };
            // recorded subtask points still reference their subtasks
            assert forall|j: int| 0 <= j < self.subtask_results@.len() implies match (
            #[trigger] self.subtask_results@[j]).points {
                Some(p) => p == 0 || (find_first(
                    s2,
                    crate::store::p_subtask_id(self.subtask_results@[j].subtask_id),
                ) matches Some(st) && p == st.subtask_score),
                None => true,
            } by {
                lemma_find_first_push(
                    old(self).subtasks@,
                    row,
                    crate::store::p_subtask_id(self.subtask_results@[j].subtask_id),
                );
            };
            // submissions still mirror their problems' subtask lists
            assert forall|j: int| 0 <= j < self.submissions@.len() implies submission_subtask_ids(
                self.subtask_results@,
                (#[trigger] self.submissions@[j]).submission_id,
            ) == crate::store::problem_subtask_ids(s2, self.submissions@[j].problem_id) by {
                lemma_proj_push(
                    old(self).subtasks@,
                    row,
                    |x: SubtaskRow| x.problem_id == self.submissions@[j].problem_id,
                    |x: SubtaskRow| x.subtask_id,
                );
                assert(self.submissions@[j].problem_id != problem_id);
            };
        }
        Ok(id)
    }

    /// Attach an existing test to an existing subtask; the same pair can be
    /// attached only once.
    pub fn add_test_to_subtask(&mut self, subtask_id: SubtaskId, test_id: TestId) -> (r: Result<
        (),
        StoreError,
    >)
        requires
            old(self).wf(),
        ensures
            final(self).wf(),
            match r {
                Ok(_) => final(self).subtask_tests@ == old(self).subtask_tests@.push(
                    SubtaskTestRow { subtask_id, test_id },
                ),
                Err(e) => {
                    &&& *final(self) == *old(self)
                    &&& (e == StoreError::Duplicate || e == StoreError::NotFound)
                    &&& (e == StoreError::Duplicate ==> find_first(
                        old(self).subtask_tests@,
                        p_subtask_test(subtask_id, test_id),
                    ) is Some)
                    &&& (e == StoreError::NotFound ==> (find_first(
                        old(self).subtasks@,
                        p_subtask_id(subtask_id),
                    ) is None || find_first(old(self).tests@, p_test_id(test_id)) is None))
                },
            },
            final(self).users == old(self).users,
            final(self).tokens == old(self).tokens,
            final(self).contests == old(self).contests,
            final(self).participations == old(self).participations,
            final(self).contest_problems == old(self).contest_problems,
            final(self).problems == old(self).problems,
            final(self).subtasks == old(self).subtasks,
            final(self).tests == old(self).tests,
            final(self).submissions == old(self).submissions,
            final(self).subtask_results == old(self).subtask_results,
            final(self).test_results == old(self).test_results,
            final(self).scores == old(self).scores,
    {
        if self.find_subtask_idx(subtask_id).is_none() {
            return Err(StoreError::NotFound);
        }
        if self.find_test_idx(test_id).is_none() {
            return Err(StoreError::NotFound);
        }
        let ghost p = p_subtask_test(subtask_id, test_id);
        let n = self.subtask_tests.len();
        let mut i: usize = 0;
        while i < n
            invariant
                i <= n,
                n == self.subtask_tests@.len(),
                p == p_subtask_test(subtask_id, test_id),
                find_first(self.subtask_tests@.take(i as int), p) is None,
                self == old(self),
                old(self).wf(),
            decreases n - i,
        {
            proof {
                crate::seqtools::lemma_take_step(self.subtask_tests@, i as int);
            }
            if self.subtask_tests[i].subtask_id == subtask_id && self.subtask_tests[i].test_id
                == test_id {
                proof {
                    crate::seqtools::lemma_find_first_extend(self.subtask_tests@, p, i + 1);
                }
                return Err(StoreError::Duplicate);
            }
            i = i + 1;
        }
        proof {
            assert(self.subtask_tests@.take(n as int) =~= self.subtask_tests@);
            lemma_find_first_props(self.subtask_tests@, p);
        }
        self.subtask_tests.push(SubtaskTestRow { subtask_id, test_id });
        Ok(())
    }
}

} // verus!

verus! {

/// The tests uploaded for one problem: the test pairs, each subtask's test
/// indices into that list, and each subtask's score.
pub struct CPSTests {
    pub tests: Vec<(String, String)>,
    pub subtask_tests: Vec<Vec<usize>>,
    pub subtask_points: Vec<i32>,
}

/// What snappy decompression yields on a byte string; a function of the
/// bytes alone.
pub uninterp spec fn snappy_decoded(data: Seq<u8>) -> Seq<u8>;

/// Relies on snap's raw Decoder::decompress_vec: the decompressed bytes,
/// or a failure on malformed input.
#[verifier::external_body]
fn snappy_decompress(data: &Vec<u8>) -> (r: Option<Vec<u8>>)
    ensures
        r matches Some(v) ==> v@ == snappy_decoded(data@),
{
    match snap::raw::Decoder::new().decompress_vec(data.as_slice()) {
        Ok(v) => Some(v),
        Err(_) => None,
    }
}

/// Decompress an uploaded test archive; malformed uploads are refused.
pub fn decode_tests_upload(data: &Vec<u8>) -> (r: Result<Vec<u8>, StoreError>)
    ensures
        r matches Ok(v) ==> v@ == snappy_decoded(data@),
        r matches Err(e) ==> e == StoreError::InvalidInput,
{
    match snappy_decompress(data) {
        Some(v) => Ok(v),
        None => Err(StoreError::InvalidInput),
    }
}

impl Store {
    /// Remove every subtask, test and subtask–test link of one problem and
    /// reset its points to zero. Refused while the problem has submissions;
    /// result rows whose submission no longer exists are swept out as well.
    pub fn clear_problem_data(&mut self, problem_id: ProblemId) -> (r: Result<(), StoreError>)
        requires
            old(self).wf(),
        ensures
            final(self).wf(),
            final(self).users == old(self).users,
            final(self).tokens == old(self).tokens,
            final(self).contests == old(self).contests,
            final(self).participations == old(self).participations,
            final(self).contest_problems == old(self).contest_problems,
            final(self).submissions == old(self).submissions,
            final(self).test_results == old(self).test_results,
            final(self).scores == old(self).scores,
            final(self).next_user_id == old(self).next_user_id,
            final(self).next_contest_id == old(self).next_contest_id,
            final(self).next_problem_id == old(self).next_problem_id,
            final(self).next_subtask_id == old(self).next_subtask_id,
            final(self).next_test_id == old(self).next_test_id,
            final(self).next_submission_id == old(self).next_submission_id,
            match r {
                Ok(_) => {
                    &&& find_first(old(self).submissions@, p_submission_problem(problem_id))
                        is None
                    &&& final(self).subtasks@ == crate::seqtools::filter_by(
                        old(self).subtasks@,
                        |t: SubtaskRow| t.problem_id != problem_id,
                    )
                    &&& final(self).tests@ == crate::seqtools::filter_by(
                        old(self).tests@,
                        |t: TestRow| t.problem_id != problem_id,
                    )
                    &&& final(self).subtask_tests@ == crate::seqtools::filter_by(
                        old(self).subtask_tests@,
                        |row: SubtaskTestRow|
                            match find_first(
                                old(self).tests@,
                                p_test_id(row.test_id),
                            ) {
                                Some(test) => test.problem_id != problem_id,
                                None => true,
                            },
                    )
                    &&& final(self).subtask_results@ == crate::seqtools::filter_by(
                        old(self).subtask_results@,
                        |row: SubtaskResultRow|
                            find_first(
                                old(self).submissions@,
                                crate::store::p_submission_id(row.submission_id),
                            ) is Some,
                    )
                    &&& final(self).problems@.len() == old(self).problems@.len()
                    &&& forall|j: int|
                        0 <= j < old(self).problems@.len() ==> #[trigger] final(self).problems@[j]
                            == (if old(self).problems@[j].problem_id == problem_id {
                            ProblemRow { points: 0, ..old(self).problems@[j] }
                        } else {
                            old(self).problems@[j]
                        })
                },
                Err(e) => {
                    &&& *final(self) == *old(self)
                    &&& e == StoreError::Conflict
                    &&& find_first(old(self).submissions@, p_submission_problem(problem_id))
                        is Some
                },
            },
    {
        if self.problem_has_submissions(problem_id) {
            return Err(StoreError::Conflict);
        }
        proof {
            lemma_find_first_props(self.submissions@, p_submission_problem(problem_id));
        }
        let ghost pre = *self;

        // sweep result rows whose submission no longer exists
        let ghost keep_sr = |row: SubtaskResultRow|
            find_first(pre.submissions@, crate::store::p_submission_id(row.submission_id))
                is Some;
        let mut rest_sr = self.subtask_results.split_off(0);
        let ghost all_sr = rest_sr@;
        proof {
            assert(all_sr =~= pre.subtask_results@);
        }
        let total_sr: usize = rest_sr.len();
        let mut kept_sr: Vec<SubtaskResultRow> = Vec::new();
        let mut k: usize = 0;
        while rest_sr.len() > 0
            invariant
                pre.submissions == self.submissions,
                keep_sr == (|row: SubtaskResultRow|
                    find_first(
                        pre.submissions@,
                        crate::store::p_submission_id(row.submission_id),
                    ) is Some),
                total_sr as int == all_sr.len(),
                k <= total_sr,
                k + rest_sr@.len() == all_sr.len(),
                rest_sr@ == all_sr.skip(k as int),
                kept_sr@ == crate::seqtools::filter_by(all_sr.take(k as int), keep_sr),
            decreases rest_sr@.len(),
        {
            proof {
                crate::seqtools::lemma_take_step(all_sr, k as int);
                assert(all_sr.skip(k as int)[0] == all_sr[k as int]);
            }
            let row = rest_sr.remove(0);
            proof {
                assert(rest_sr@ =~= all_sr.skip(k + 1));
            }
            if self.find_submission_idx(row.submission_id).is_some() {
                kept_sr.push(row);
            }
            k = k + 1;
        }
        proof {
            assert(all_sr.take(k as int) =~= all_sr);
        }
        self.subtask_results = kept_sr;

        // remove the problem's subtask-test links, going by each link's test
        let ghost keep_st = |row: SubtaskTestRow|
            match find_first(pre.tests@, crate::store::p_test_id(row.test_id)) {
                Some(t) => t.problem_id != problem_id,
                None => true,
            };
        let mut rest_st = self.subtask_tests.split_off(0);
        let ghost all_st = rest_st@;
        proof {
            assert(all_st =~= pre.subtask_tests@);
        }
        let total_st: usize = rest_st.len();
        let mut kept_st: Vec<SubtaskTestRow> = Vec::new();
        let mut k2: usize = 0;
        while rest_st.len() > 0
            invariant
                pre.tests == self.tests,
                keep_st == (|row: SubtaskTestRow|
                    match find_first(pre.tests@, crate::store::p_test_id(row.test_id)) {
                        Some(t) => t.problem_id != problem_id,
                        None => true,
                    }),
                total_st as int == all_st.len(),
                k2 <= total_st,
                k2 + rest_st@.len() == all_st.len(),
                rest_st@ == all_st.skip(k2 as int),
                kept_st@ == crate::seqtools::filter_by(all_st.take(k2 as int), keep_st),
            decreases rest_st@.len(),
        {
            proof {
                crate::seqtools::lemma_take_step(all_st, k2 as int);
                assert(all_st.skip(k2 as int)[0] == all_st[k2 as int]);
            }
            let row = rest_st.remove(0);
            proof {
                assert(rest_st@ =~= all_st.skip(k2 + 1));
            }
            let keep_it = match self.find_test_idx(row.test_id) {
                Some(ti) => self.tests[ti].problem_id != problem_id,
                None => true,
            };
            if keep_it {
                kept_st.push(row);
            }
            k2 = k2 + 1;
        }
        proof {
            assert(all_st.take(k2 as int) =~= all_st);
        }
        self.subtask_tests = kept_st;

        // remove the problem's subtasks
        let ghost keep_sub = |row: SubtaskRow| row.problem_id != problem_id;
        let mut rest_sub = self.subtasks.split_off(0);
        let ghost all_sub = rest_sub@;
        proof {
            assert(all_sub =~= pre.subtasks@);
        }
        let total_sub: usize = rest_sub.len();
        let mut kept_sub: Vec<SubtaskRow> = Vec::new();
        let mut k3: usize = 0;
        while rest_sub.len() > 0
            invariant
                keep_sub == (|row: SubtaskRow| row.problem_id != problem_id),
                total_sub as int == all_sub.len(),
                k3 <= total_sub,
                k3 + rest_sub@.len() == all_sub.len(),
                rest_sub@ == all_sub.skip(k3 as int),
                kept_sub@ == crate::seqtools::filter_by(all_sub.take(k3 as int), keep_sub),
            decreases rest_sub@.len(),
        {
            proof {
                crate::seqtools::lemma_take_step(all_sub, k3 as int);
                assert(all_sub.skip(k3 as int)[0] == all_sub[k3 as int]);
            }
            let row = rest_sub.remove(0);
            proof {
                assert(rest_sub@ =~= all_sub.skip(k3 + 1));
            }
            if row.problem_id != problem_id {
                kept_sub.push(row);
            }
            k3 = k3 + 1;
        }
        proof {
            assert(all_sub.take(k3 as int) =~= all_sub);
        }
        self.subtasks = kept_sub;

        // remove the problem's tests
        let ghost keep_t = |row: TestRow| row.problem_id != problem_id;
        let mut rest_t = self.tests.split_off(0);
        let ghost all_t = rest_t@;
        proof {
            assert(all_t =~= pre.tests@);
        }
        let total_t: usize = rest_t.len();
        let mut kept_t: Vec<TestRow> = Vec::new();
        let mut k4: usize = 0;
        while rest_t.len() > 0
            invariant
                keep_t == (|row: TestRow| row.problem_id != problem_id),
                total_t as int == all_t.len(),
                k4 <= total_t,
                k4 + rest_t@.len() == all_t.len(),
                rest_t@ == all_t.skip(k4 as int),
                kept_t@ == crate::seqtools::filter_by(all_t.take(k4 as int), keep_t),
            decreases rest_t@.len(),
        {
            proof {
                crate::seqtools::lemma_take_step(all_t, k4 as int);
                assert(all_t.skip(k4 as int)[0] == all_t[k4 as int]);
            }
            let row = rest_t.remove(0);
            proof {
                assert(rest_t@ =~= all_t.skip(k4 + 1));
            }
            if row.problem_id != problem_id {
                kept_t.push(row);
            }
            k4 = k4 + 1;
        }
        proof {
            assert(all_t.take(k4 as int) =~= all_t);
        }
        self.tests = kept_t;

        // the problem is now worth nothing
        let ghost mid = *self;
        let pn = self.problems.len();
        let mut k5: usize = 0;
        while k5 < pn
            invariant
                k5 <= pn,
                pn == self.problems@.len(),
                pn == pre.problems@.len(),
                self.users == mid.users,
                self.tokens == mid.tokens,
                self.contests == mid.contests,
                self.participations == mid.participations,
                self.contest_problems == mid.contest_problems,
                self.subtasks == mid.subtasks,
                self.tests == mid.tests,
                self.subtask_tests == mid.subtask_tests,
                self.submissions == mid.submissions,
                self.subtask_results == mid.subtask_results,
                self.test_results == mid.test_results,
                self.scores == mid.scores,
                self.next_user_id == mid.next_user_id,
                self.next_contest_id == mid.next_contest_id,
                self.next_problem_id == mid.next_problem_id,
                self.next_subtask_id == mid.next_subtask_id,
                self.next_test_id == mid.next_test_id,
                self.next_submission_id == mid.next_submission_id,
                pre.problems == mid.problems,
                forall|j: int|
                    0 <= j < k5 ==> #[trigger] self.problems@[j] == (if pre.problems@[j].problem_id
                        == problem_id {
                        ProblemRow { points: 0, ..pre.problems@[j] }
                    } else {
                        pre.problems@[j]
                    }),
                forall|j: int|
                    k5 <= j < pn ==> #[trigger] self.problems@[j] == pre.problems@[j],
            decreases pn - k5,
        {
            if self.problems[k5].problem_id == problem_id {
                self.problems[k5].points = 0;
            }
            k5 = k5 + 1;
        }
        proof {
            lemma_clear_problem_data_wf(pre, *self, problem_id);
        }
        Ok(())
    }
}

} // verus!

verus! {

/// Clearing one problem's subtasks, tests and links — while nothing refers
/// to the problem — preserves the store invariant.
proof fn lemma_clear_problem_data_wf(pre: Store, post: Store, problem_id: ProblemId)
    requires
        pre.wf(),
        find_first(pre.submissions@, p_submission_problem(problem_id)) is None,
        post.users == pre.users,
        post.tokens == pre.tokens,
        post.contests == pre.contests,
        post.participations == pre.participations,
        post.contest_problems == pre.contest_problems,
        post.submissions == pre.submissions,
        post.test_results == pre.test_results,
        post.scores == pre.scores,
        post.next_user_id == pre.next_user_id,
        post.next_contest_id == pre.next_contest_id,
        post.next_problem_id == pre.next_problem_id,
        post.next_subtask_id == pre.next_subtask_id,
        post.next_test_id == pre.next_test_id,
        post.next_submission_id == pre.next_submission_id,
        post.subtask_results@ == crate::seqtools::filter_by(
            pre.subtask_results@,
            |row: SubtaskResultRow|
                find_first(
                    pre.submissions@,
                    crate::store::p_submission_id(row.submission_id),
                ) is Some,
        ),
        post.subtask_tests@ == crate::seqtools::filter_by(
            pre.subtask_tests@,
            |row: SubtaskTestRow|
                match find_first(pre.tests@, crate::store::p_test_id(row.test_id)) {
                    Some(t) => t.problem_id != problem_id,
                    None => true,
                },
        ),
        post.subtasks@ == crate::seqtools::filter_by(
            pre.subtasks@,
            |row: SubtaskRow| row.problem_id != problem_id,
        ),
        post.tests@ == crate::seqtools::filter_by(
            pre.tests@,
            |row: TestRow| row.problem_id != problem_id,
        ),
        post.problems@.len() == pre.problems@.len(),
        forall|j: int|
            0 <= j < pre.problems@.len() ==> #[trigger] post.problems@[j] == (if pre.problems@[
                j
            ].problem_id == problem_id {
                ProblemRow { points: 0, ..pre.problems@[j] }
            } else {
                pre.problems@[j]
            }),
    ensures
        post.wf(),
{
    let keep_sr = |row: SubtaskResultRow|
        find_first(pre.submissions@, crate::store::p_submission_id(row.submission_id)) is Some;
    let keep_sub = |row: SubtaskRow| row.problem_id != problem_id;
    let keep_t = |row: TestRow| row.problem_id != problem_id;
    crate::seqtools::lemma_filter_all_keep(pre.subtask_results@, keep_sr);
    crate::seqtools::lemma_filter_contains(pre.subtask_results@, keep_sr);
    crate::seqtools::lemma_filter_all_keep(pre.subtasks@, keep_sub);
    crate::seqtools::lemma_filter_contains(pre.subtasks@, keep_sub);
    crate::seqtools::lemma_filter_all_keep(pre.tests@, keep_t);
    crate::seqtools::lemma_filter_contains(pre.tests@, keep_t);
    crate::seqtools::lemma_find_first_props(
        pre.submissions@,
        p_submission_problem(problem_id),
    );
    // identifier bounds carry over to the filtered tables
    assert forall|i: int| 0 <= i < post.subtasks@.len() implies 1 <= (
    #[trigger] post.subtasks@[i]).subtask_id < post.next_subtask_id && 1 <= post.subtasks@[
        i
    ].problem_id < post.next_problem_id by {
        assert(pre.subtasks@.contains(post.subtasks@[i]));
        let w = choose|w: int| 0 <= w < pre.subtasks@.len() && pre.subtasks@[w] == post.subtasks@[i];
        assert(1 <= pre.subtasks@[w].subtask_id < pre.next_subtask_id);
    };
    assert forall|i: int| 0 <= i < post.tests@.len() implies 1 <= (
    #[trigger] post.tests@[i]).test_id < post.next_test_id && 1 <= post.tests@[i].problem_id
        < post.next_problem_id by {
        assert(pre.tests@.contains(post.tests@[i]));
        let w = choose|w: int| 0 <= w < pre.tests@.len() && pre.tests@[w] == post.tests@[i];
        assert(1 <= pre.tests@[w].test_id < pre.next_test_id);
    };
    assert forall|i: int| 0 <= i < post.subtask_results@.len() implies 1 <= (
    #[trigger] post.subtask_results@[i]).submission_id < post.next_submission_id && 1
        <= post.subtask_results@[i].subtask_id < post.next_subtask_id by {
        assert(pre.subtask_results@.contains(post.subtask_results@[i]));
        let w = choose|w: int|
            0 <= w < pre.subtask_results@.len() && pre.subtask_results@[w]
                == post.subtask_results@[i];
        assert(1 <= pre.subtask_results@[w].submission_id < pre.next_submission_id);
    };
    assert(post.wf_id_bounds());
    // uniqueness survives filtering
    crate::seqtools::lemma_filter_pairwise(
        pre.subtask_results@,
        keep_sr,
        |a: SubtaskResultRow, b: SubtaskResultRow|
            !(a.submission_id == b.submission_id && a.subtask_id == b.subtask_id),
    );
    crate::seqtools::lemma_filter_pairwise(
        pre.subtask_tests@,
        |row: SubtaskTestRow|
            match find_first(pre.tests@, crate::store::p_test_id(row.test_id)) {
                Some(t) => t.problem_id != problem_id,
                None => true,
            },
        |a: SubtaskTestRow, b: SubtaskTestRow|
            !(a.subtask_id == b.subtask_id && a.test_id == b.test_id),
    );
    crate::seqtools::lemma_filter_pairwise(
        pre.subtasks@,
        keep_sub,
        |a: SubtaskRow, b: SubtaskRow| a.subtask_id != b.subtask_id,
    );
    crate::seqtools::lemma_filter_pairwise(
        pre.tests@,
        keep_t,
        |a: TestRow, b: TestRow| a.test_id != b.test_id,
    );
    assert(post.wf_unique());
    // each problem's points still sum its remaining subtasks' scores
    assert forall|i: int| 0 <= i < post.problems@.len() implies (
    #[trigger] post.problems@[i]).points as int == crate::store::problem_subtask_score_sum(
        post.subtasks@,
        post.problems@[i].problem_id,
    ) by {
        let pid2 = pre.problems@[i].problem_id;
        if pid2 == problem_id {
            crate::seqtools::lemma_sum_zero(
                post.subtasks@,
                |row: SubtaskRow|
                    if row.problem_id == pid2 {
                        row.subtask_score as int
                    } else {
                        0
                    },
            );
        } else {
            crate::seqtools::lemma_sum_filter(
                pre.subtasks@,
                keep_sub,
                |row: SubtaskRow|
                    if row.problem_id == pid2 {
                        row.subtask_score as int
                    } else {
                        0
                    },
            );
        }
    };
    // recorded subtask points still reference their subtasks
    assert forall|i: int| 0 <= i < post.subtask_results@.len() implies match (
    #[trigger] post.subtask_results@[i]).points {
        Some(p) => p == 0 || (find_first(
            post.subtasks@,
            crate::store::p_subtask_id(post.subtask_results@[i].subtask_id),
        ) matches Some(st) && p == st.subtask_score),
        None => true,
    } by {
        let row = post.subtask_results@[i];
        assert(pre.subtask_results@.contains(row));
        let w = choose|w: int|
            0 <= w < pre.subtask_results@.len() && pre.subtask_results@[w] == row;
        assert(keep_sr(row));
        let subm = find_first(
            pre.submissions@,
            crate::store::p_submission_id(row.submission_id),
        ).unwrap();
        crate::seqtools::lemma_find_first_props(
            pre.submissions@,
            crate::store::p_submission_id(row.submission_id),
        );
        let ws = choose|ws: int|
            0 <= ws < pre.submissions@.len() && pre.submissions@[ws] == subm;
        let pid2 = subm.problem_id;
        assert(pid2 != problem_id);
        // the row's subtask belongs to the submission's problem, which is
        // not the cleared one, so the subtask row survives the filter
        assert(submission_subtask_ids(pre.subtask_results@, subm.submission_id)
            == crate::store::problem_subtask_ids(pre.subtasks@, pid2));
        crate::seqtools::lemma_proj_contains_index(
            pre.subtask_results@,
            |x: SubtaskResultRow| x.submission_id == subm.submission_id,
            |x: SubtaskResultRow| x.subtask_id,
            w,
        );
        let ids = crate::store::problem_subtask_ids(pre.subtasks@, pid2);
        let m = choose|m: int| 0 <= m < ids.len() && ids[m] == row.subtask_id;
        crate::seqtools::lemma_proj_membership(
            pre.subtasks@,
            |x: SubtaskRow| x.problem_id == pid2,
            |x: SubtaskRow| x.subtask_id,
            m,
        );
        let wt = choose|wt: int|
            0 <= wt < pre.subtasks@.len() && (#[trigger] pre.subtasks@[wt]).problem_id == pid2
                && pre.subtasks@[wt].subtask_id == row.subtask_id;
        assert(keep_sub(pre.subtasks@[wt]));
        crate::seqtools::lemma_find_first_filter(
            pre.subtasks@,
            keep_sub,
            crate::store::p_subtask_id(row.subtask_id),
        );
    };
    assert(post.wf_scoring());
    // every submission still mirrors its problem's tests and subtasks
    assert forall|j: int| 0 <= j < post.submissions@.len() implies {
        let sub = #[trigger] post.submissions@[j];
        &&& submission_test_ids(post.test_results@, sub.submission_id)
            == crate::store::problem_test_ids(post.tests@, sub.problem_id)
        &&& submission_subtask_ids(post.subtask_results@, sub.submission_id)
            == crate::store::problem_subtask_ids(post.subtasks@, sub.problem_id)
        &&& 0 <= sub.tests_done <= submission_test_ids(
            post.test_results@,
            sub.submission_id,
        ).len()
        &&& (crate::verdict::is_terminal(sub.result) && sub.result
            != crate::verdict::TestingResult::CompilationError ==> (sub.tests_done as int
            == submission_test_ids(post.test_results@, sub.submission_id).len() && sub.points
            is Some))
        &&& match sub.points {
            Some(p) => p as int == crate::store::submission_points_sum(
                post.subtask_results@,
                sub.submission_id,
            ),
            None => true,
        }
    } by {
        let sub = post.submissions@[j];
        let sid2 = sub.submission_id;
        assert(sub.problem_id != problem_id);
        crate::seqtools::lemma_proj_filter(
            pre.tests@,
            keep_t,
            |x: TestRow| x.problem_id == sub.problem_id,
            |x: TestRow| x.test_id,
        );
        assert forall|i: int|
            0 <= i < pre.subtask_results@.len() && (#[trigger] pre.subtask_results@[
            i
        ]).submission_id == sid2 implies keep_sr(pre.subtask_results@[i]) by {
            crate::seqtools::lemma_find_first_some(
                pre.submissions@,
                crate::store::p_submission_id(sid2),
                j,
            );
        };
        crate::seqtools::lemma_proj_filter(
            pre.subtask_results@,
            keep_sr,
            |x: SubtaskResultRow| x.submission_id == sid2,
            |x: SubtaskResultRow| x.subtask_id,
        );
        crate::seqtools::lemma_proj_filter(
            pre.subtasks@,
            keep_sub,
            |x: SubtaskRow| x.problem_id == sub.problem_id,
            |x: SubtaskRow| x.subtask_id,
        );
        let ids = submission_subtask_ids(pre.subtask_results@, sid2);
        assert forall|m: int| 0 <= m < ids.len() implies crate::store::points_of(
            post.subtask_results@,
            sid2,
            #[trigger] ids[m],
        ) == crate::store::points_of(pre.subtask_results@, sid2, ids[m]) by {
            assert forall|i: int|
                0 <= i < pre.subtask_results@.len() && (crate::store::p_subtask_result(
                sid2,
                ids[m],
            )(#[trigger] pre.subtask_results@[i])) implies keep_sr(
                pre.subtask_results@[i],
            ) by {
                crate::seqtools::lemma_find_first_some(
                    pre.submissions@,
                    crate::store::p_submission_id(sid2),
                    j,
                );
            };
            crate::seqtools::lemma_find_first_filter(
                pre.subtask_results@,
                keep_sr,
                crate::store::p_subtask_result(sid2, ids[m]),
            );
        };
        crate::store_grading::lemma_sum_points_congruent_pub(
            pre.subtask_results@,
            post.subtask_results@,
            sid2,
            ids,
        );
    };
    assert(post.wf_submissions());
}

} // verus!

verus! {

impl Store {
    /// Delete a problem outright: its subtasks, tests, links, contest
    /// attachments and its own row. Refused while it has submissions.
    pub fn remove_problem(&mut self, problem_id: ProblemId) -> (r: Result<(), StoreError>)
        requires
            old(self).wf(),
        ensures
            final(self).wf(),
            final(self).users == old(self).users,
            final(self).tokens == old(self).tokens,
            final(self).contests == old(self).contests,
            final(self).participations == old(self).participations,
            final(self).submissions == old(self).submissions,
            final(self).test_results == old(self).test_results,
            final(self).scores == old(self).scores,
            final(self).next_user_id == old(self).next_user_id,
            final(self).next_contest_id == old(self).next_contest_id,
            final(self).next_problem_id == old(self).next_problem_id,
            final(self).next_subtask_id == old(self).next_subtask_id,
            final(self).next_test_id == old(self).next_test_id,
            final(self).next_submission_id == old(self).next_submission_id,
            match r {
                Ok(_) => {
                    &&& find_first(final(self).problems@, p_problem_id(problem_id)) is None
                    &&& final(self).problems@ == crate::seqtools::filter_by(
                        old(self).problems@,
                        |t: ProblemRow| t.problem_id != problem_id,
                    )
                    &&& final(self).subtasks@ == crate::seqtools::filter_by(
                        old(self).subtasks@,
                        |t: SubtaskRow| t.problem_id != problem_id,
                    )
                    &&& final(self).tests@ == crate::seqtools::filter_by(
                        old(self).tests@,
                        |t: TestRow| t.problem_id != problem_id,
                    )
                    &&& final(self).contest_problems@ == crate::seqtools::filter_by(
                        old(self).contest_problems@,
                        |t: crate::store::ContestProblemRow| t.problem_id != problem_id,
                    )
                    &&& final(self).subtask_tests@ == crate::seqtools::filter_by(
                        old(self).subtask_tests@,
                        |row: SubtaskTestRow|
                            match find_first(
                                old(self).tests@,
                                p_test_id(row.test_id),
                            ) {
                                Some(test) => test.problem_id != problem_id,
                                None => true,
                            },
                    )
                    &&& final(self).subtask_results@ == crate::seqtools::filter_by(
                        old(self).subtask_results@,
                        |row: SubtaskResultRow|
                            find_first(
                                old(self).submissions@,
                                crate::store::p_submission_id(row.submission_id),
                            ) is Some,
                    )
                },
                Err(e) => {
                    &&& *final(self) == *old(self)
                    &&& e == StoreError::Conflict
                    &&& find_first(old(self).submissions@, p_submission_problem(problem_id))
                        is Some
                },
            },
    {
        self.clear_problem_data(problem_id)?;
        let ghost mid = *self;

        let ghost keep_p = |row: ProblemRow| row.problem_id != problem_id;
        let mut rest_p = self.problems.split_off(0);
        let ghost all_p = rest_p@;
        proof {
            assert(all_p =~= mid.problems@);
        }
        let total_p: usize = rest_p.len();
        let mut kept_p: Vec<ProblemRow> = Vec::new();
        let mut k: usize = 0;
        while rest_p.len() > 0
            invariant
                keep_p == (|row: ProblemRow| row.problem_id != problem_id),
                total_p as int == all_p.len(),
                k <= total_p,
                k + rest_p@.len() == all_p.len(),
                rest_p@ == all_p.skip(k as int),
                kept_p@ == crate::seqtools::filter_by(all_p.take(k as int), keep_p),
            decreases rest_p@.len(),
        {
            proof {
                crate::seqtools::lemma_take_step(all_p, k as int);
                assert(all_p.skip(k as int)[0] == all_p[k as int]);
            }
            let row = rest_p.remove(0);
            proof {
                assert(rest_p@ =~= all_p.skip(k + 1));
            }
            if row.problem_id != problem_id {
                kept_p.push(row);
            }
            k = k + 1;
        }
        proof {
            assert(all_p.take(k as int) =~= all_p);
        }
        self.problems = kept_p;

        let ghost keep_cp = |row: crate::store::ContestProblemRow| row.problem_id != problem_id;
        let mut rest_cp = self.contest_problems.split_off(0);
        let ghost all_cp = rest_cp@;
        proof {
            assert(all_cp =~= mid.contest_problems@);
        }
        let total_cp: usize = rest_cp.len();
        let mut kept_cp: Vec<crate::store::ContestProblemRow> = Vec::new();
        let mut k2: usize = 0;
        while rest_cp.len() > 0
            invariant
                keep_cp == (|row: crate::store::ContestProblemRow|
                    row.problem_id != problem_id),
                total_cp as int == all_cp.len(),
                k2 <= total_cp,
                k2 + rest_cp@.len() == all_cp.len(),
                rest_cp@ == all_cp.skip(k2 as int),
                kept_cp@ == crate::seqtools::filter_by(all_cp.take(k2 as int), keep_cp),
            decreases rest_cp@.len(),
        {
            proof {
                crate::seqtools::lemma_take_step(all_cp, k2 as int);
                assert(all_cp.skip(k2 as int)[0] == all_cp[k2 as int]);
            }
            let row = rest_cp.remove(0);
            proof {
                assert(rest_cp@ =~= all_cp.skip(k2 + 1));
            }
            if row.problem_id != problem_id {
                kept_cp.push(row);
            }
            k2 = k2 + 1;
        }
        proof {
            assert(all_cp.take(k2 as int) =~= all_cp);
        }
        self.contest_problems = kept_cp;
        proof {
            crate::seqtools::lemma_filter_congruence(old(self).problems@, mid.problems@, keep_p);
            crate::seqtools::lemma_filter_all_keep(mid.problems@, keep_p);
            crate::seqtools::lemma_filter_contains(mid.problems@, keep_p);
            crate::seqtools::lemma_find_first_props(self.problems@, p_problem_id(problem_id));
            if find_first(self.problems@, p_problem_id(problem_id)) is Some {
                let x = find_first(self.problems@, p_problem_id(problem_id)).unwrap();
                let w = choose|w: int| 0 <= w < self.problems@.len() && self.problems@[w] == x;
                assert(keep_p(self.problems@[w]));
                assert(false);
            }
            assert forall|i: int| 0 <= i < self.problems@.len() implies 1 <= (
            #[trigger] self.problems@[i]).problem_id < self.next_problem_id && (
            self.problems@[i]).points as int == crate::store::problem_subtask_score_sum(
                self.subtasks@,
                self.problems@[i].problem_id,
            ) by {
                assert(mid.problems@.contains(self.problems@[i]));
                let w = choose|w: int|
                    0 <= w < mid.problems@.len() && mid.problems@[w] == self.problems@[i];
                assert(1 <= mid.problems@[w].problem_id < mid.next_problem_id);
                assert(mid.problems@[w].points as int
                    == crate::store::problem_subtask_score_sum(
                    mid.subtasks@,
                    mid.problems@[w].problem_id,
                ));
            };
            crate::seqtools::lemma_filter_pairwise(
                mid.problems@,
                keep_p,
                |a: ProblemRow, b: ProblemRow| a.problem_id != b.problem_id
                    && a.problem_name@ != b.problem_name@,
            );
            crate::seqtools::lemma_filter_pairwise(
                mid.contest_problems@,
                keep_cp,
                |a: crate::store::ContestProblemRow, b: crate::store::ContestProblemRow|
                    !(a.contest_id == b.contest_id && a.problem_id == b.problem_id),
            );
            assert(self.wf_id_bounds());
            assert(self.wf_unique());
            assert(self.wf_scoring());
            assert(self.wf_submissions());
        }
        Ok(())
    }

    /// Replace a problem's tests and subtasks with an uploaded set: clear
    /// the old ones, add each test, then each subtask with its score and
    /// its member tests picked by index into the uploaded list. Refused
    /// while the problem has submissions; an out-of-range index or a
    /// repeated index within one subtask stops the install part-way.
    pub fn install_problem_tests(&mut self, problem_id: ProblemId, uploaded: &CPSTests) -> (r:
        Result<(), StoreError>)
        requires
            old(self).wf(),
        ensures
            final(self).wf(),
            final(self).users == old(self).users,
            final(self).tokens == old(self).tokens,
            final(self).contests == old(self).contests,
            final(self).participations == old(self).participations,
            final(self).submissions == old(self).submissions,
            final(self).test_results == old(self).test_results,
            final(self).scores == old(self).scores,
            r matches Ok(_) ==> {
                &&& crate::store::problem_test_ids(final(self).tests@, problem_id).len()
                    == uploaded.tests@.len()
                &&& crate::store::problem_test_io(final(self).tests@, problem_id)
                    == uploaded.tests@.map_values(|p: (String, String)| (p.0@, p.1@))
                &&& crate::store::problem_subtask_ids(final(self).subtasks@, problem_id).len()
                    == (if uploaded.subtask_tests@.len() <= uploaded.subtask_points@.len() {
                    uploaded.subtask_tests@.len()
                } else {
                    uploaded.subtask_points@.len()
                })
                &&& crate::store::problem_subtask_scores(final(self).subtasks@, problem_id)
                    == uploaded.subtask_points@.take(
                    if uploaded.subtask_tests@.len() <= uploaded.subtask_points@.len() {
                        uploaded.subtask_tests@.len() as int
                    } else {
                        uploaded.subtask_points@.len() as int
                    },
                )
            },
            r matches Err(e) ==> {
                &&& (e == StoreError::NotFound || e == StoreError::Conflict || e
                    == StoreError::Overflow || e == StoreError::InvalidInput || e
                    == StoreError::Duplicate)
                &&& (e == StoreError::NotFound ==> find_first(
                    old(self).problems@,
                    p_problem_id(problem_id),
                ) is None)
                &&& (e == StoreError::Conflict ==> find_first(
                    old(self).submissions@,
                    p_submission_problem(problem_id),
                ) is Some)
            },
    {
        if self.find_problem_idx(problem_id).is_none() {
            return Err(StoreError::NotFound);
        }
        self.clear_problem_data(problem_id)?;
        proof {
            crate::seqtools::lemma_filter_all_keep(
                old(self).tests@,
                |t: TestRow| t.problem_id != problem_id,
            );
            crate::seqtools::lemma_proj_none(
                self.tests@,
                |t: TestRow| t.problem_id == problem_id,
                |t: TestRow| t.test_id,
            );
            crate::seqtools::lemma_filter_all_keep(
                old(self).subtasks@,
                |t: SubtaskRow| t.problem_id != problem_id,
            );
            crate::seqtools::lemma_proj_none(
                self.subtasks@,
                |t: SubtaskRow| t.problem_id == problem_id,
                |t: SubtaskRow| t.subtask_id,
            );
            crate::seqtools::lemma_proj_none(
                self.tests@,
                |t: TestRow| t.problem_id == problem_id,
                |t: TestRow| (t.input_data@, t.output_data@),
            );
            crate::seqtools::lemma_proj_none(
                self.subtasks@,
                |t: SubtaskRow| t.problem_id == problem_id,
                |t: SubtaskRow| t.subtask_score,
            );
            crate::seqtools::lemma_find_first_align(
                old(self).problems@,
                self.problems@,
                p_problem_id(problem_id),
                p_problem_id(problem_id),
            );
        }
        let n_tests = uploaded.tests.len();
        let mut ids: Vec<TestId> = Vec::new();
        let mut k: usize = 0;
        while k < n_tests
            invariant
                k <= n_tests,
                n_tests == uploaded.tests@.len(),
                self.wf(),
                self.users == old(self).users,
                self.tokens == old(self).tokens,
                self.contests == old(self).contests,
                self.participations == old(self).participations,
                self.submissions == old(self).submissions,
                self.test_results == old(self).test_results,
                self.scores == old(self).scores,
                find_first(self.submissions@, p_submission_problem(problem_id)) is None,
                find_first(self.problems@, p_problem_id(problem_id)) is Some,
                crate::store::problem_test_ids(self.tests@, problem_id).len() == k,
                crate::store::problem_test_io(self.tests@, problem_id) == uploaded.tests@.map_values(
                    |p: (String, String)| (p.0@, p.1@),
                ).take(k as int),
                crate::store::problem_subtask_ids(self.subtasks@, problem_id).len() == 0,
                crate::store::problem_subtask_scores(self.subtasks@, problem_id) == Seq::<
                    i32,
                >::empty(),
                ids@.len() == k,
                forall|j: int|
                    0 <= j < ids@.len() ==> find_first(
                        self.tests@,
                        p_test_id(#[trigger] ids@[j]),
                    ) is Some,
            decreases n_tests - k,
        {
            let input = &uploaded.tests[k].0;
            let output = &uploaded.tests[k].1;
            let ghost pre_tests = self.tests@;
            let ghost pre_subtasks = self.subtasks@;
            let id = match self.add_test(input.as_str(), output.as_str(), problem_id) {
                Ok(id) => id,
                Err(e) => {
                    return Err(e);
                },
            };
            proof {
                lemma_proj_push(
                    pre_tests,
                    self.tests@.last(),
                    |t: TestRow| t.problem_id == problem_id,
                    |t: TestRow| t.test_id,
                );
                lemma_proj_push(
                    pre_tests,
                    self.tests@.last(),
                    |t: TestRow| t.problem_id == problem_id,
                    |t: TestRow| (t.input_data@, t.output_data@),
                );
                assert(self.tests@.drop_last() == pre_tests);
                assert(self.tests@ =~= pre_tests.push(self.tests@.last()));
                assert(uploaded.tests@.map_values(|p: (String, String)| (p.0@, p.1@)).take(
                    k + 1,
                ) =~= uploaded.tests@.map_values(|p: (String, String)| (p.0@, p.1@)).take(
                    k as int,
                ).push((uploaded.tests@[k as int].0@, uploaded.tests@[k as int].1@)));
            }
            ids.push(id);
            proof {
                assert forall|j: int| 0 <= j < ids@.len() implies find_first(
                    self.tests@,
                    p_test_id(#[trigger] ids@[j]),
                ) is Some by {
                    crate::seqtools::lemma_find_first_push(
                        pre_tests,
                        self.tests@.last(),
                        p_test_id(ids@[j]),
                    );
                    if j == ids@.len() - 1 {
                        assert(self.tests@.last().test_id == id);
                        crate::seqtools::lemma_find_first_some(
                            self.tests@,
                            p_test_id(id),
                            self.tests@.len() - 1,
                        );
                    }
                };
            }
            k = k + 1;
        }
        let n_subtasks = if uploaded.subtask_tests.len() <= uploaded.subtask_points.len() {
            uploaded.subtask_tests.len()
        } else {
            uploaded.subtask_points.len()
        };
        let mut k2: usize = 0;
        while k2 < n_subtasks
            invariant
                k2 <= n_subtasks,
                n_subtasks <= uploaded.subtask_tests@.len(),
                n_subtasks <= uploaded.subtask_points@.len(),
                self.wf(),
                self.users == old(self).users,
                self.tokens == old(self).tokens,
                self.contests == old(self).contests,
                self.participations == old(self).participations,
                self.submissions == old(self).submissions,
                self.test_results == old(self).test_results,
                self.scores == old(self).scores,
                find_first(self.submissions@, p_submission_problem(problem_id)) is None,
                find_first(self.problems@, p_problem_id(problem_id)) is Some,
                crate::store::problem_test_ids(self.tests@, problem_id).len()
                    == uploaded.tests@.len(),
                crate::store::problem_test_io(self.tests@, problem_id) == uploaded.tests@.map_values(
                    |p: (String, String)| (p.0@, p.1@),
                ),
                crate::store::problem_subtask_ids(self.subtasks@, problem_id).len() == k2,
                crate::store::problem_subtask_scores(self.subtasks@, problem_id)
                    == uploaded.subtask_points@.take(k2 as int),
                ids@.len() == uploaded.tests@.len(),
                forall|j: int|
                    0 <= j < ids@.len() ==> find_first(
                        self.tests@,
                        p_test_id(#[trigger] ids@[j]),
                    ) is Some,
            decreases n_subtasks - k2,
        {
            let ghost pre_subtasks = self.subtasks@;
            let ghost pre_tests2 = self.tests@;
            let ghost pre_problems2 = self.problems@;
            let stid = match self.add_subtask(problem_id, uploaded.subtask_points[k2]) {
                Ok(id) => id,
                Err(e) => {
                    return Err(e);
                },
            };
            proof {
                crate::seqtools::lemma_find_first_align(
                    pre_problems2,
                    self.problems@,
                    p_problem_id(problem_id),
                    p_problem_id(problem_id),
                );
                lemma_proj_push(
                    pre_subtasks,
                    self.subtasks@.last(),
                    |t: SubtaskRow| t.problem_id == problem_id,
                    |t: SubtaskRow| t.subtask_id,
                );
                lemma_proj_push(
                    pre_subtasks,
                    self.subtasks@.last(),
                    |t: SubtaskRow| t.problem_id == problem_id,
                    |t: SubtaskRow| t.subtask_score,
                );
                assert(self.subtasks@ =~= pre_subtasks.push(self.subtasks@.last()));
                assert(uploaded.subtask_points@.take(k2 + 1)
                    =~= uploaded.subtask_points@.take(k2 as int).push(
                    uploaded.subtask_points@[k2 as int],
                ));
                assert(self.subtasks@.last().subtask_id == stid);
                crate::seqtools::lemma_find_first_some(
                    self.subtasks@,
                    p_subtask_id(stid),
                    self.subtasks@.len() - 1,
                );
            }
            let members = &uploaded.subtask_tests[k2];
            let m_count = members.len();
            let mut m: usize = 0;
            while m < m_count
                invariant
                    m <= m_count,
                    m_count == members@.len(),
                    ids@.len() == uploaded.tests@.len(),
                    forall|j: int|
                        0 <= j < ids@.len() ==> find_first(
                            self.tests@,
                            p_test_id(#[trigger] ids@[j]),
                        ) is Some,
                    find_first(self.subtasks@, p_subtask_id(stid)) is Some,
                    crate::store::problem_test_io(self.tests@, problem_id)
                        == uploaded.tests@.map_values(|p: (String, String)| (p.0@, p.1@)),
                    crate::store::problem_subtask_scores(self.subtasks@, problem_id)
                        == uploaded.subtask_points@.take(k2 + 1),
                    self.wf(),
                    self.users == old(self).users,
                    self.tokens == old(self).tokens,
                    self.contests == old(self).contests,
                    self.participations == old(self).participations,
                    self.submissions == old(self).submissions,
                    self.test_results == old(self).test_results,
                    self.scores == old(self).scores,
                    find_first(self.submissions@, p_submission_problem(problem_id)) is None,
                    find_first(self.problems@, p_problem_id(problem_id)) is Some,
                    crate::store::problem_test_ids(self.tests@, problem_id).len()
                        == uploaded.tests@.len(),
                    crate::store::problem_subtask_ids(self.subtasks@, problem_id).len() == k2
                        + 1,
                decreases m_count - m,
            {
                let idx = members[m];
                if idx >= ids.len() {
                    return Err(StoreError::InvalidInput);
                }
                let ghost pre_tests3 = self.tests@;
                let ghost pre_subtasks3 = self.subtasks@;
                match self.add_test_to_subtask(stid, ids[idx]) {
                    Ok(_) => {},
                    Err(e) => {
                        return Err(e);
                    },
                }
                m = m + 1;
            }
            k2 = k2 + 1;
        }
        Ok(())
    }

    /// Create a problem under this name, deleting any existing problem of
    /// the same name first.
    pub fn add_problem_override(
        &mut self,
        problem_name: &str,
        problem_description: &str,
        time_limit: i32,
    ) -> (r: Result<ProblemId, StoreError>)
        requires
            old(self).wf(),
        ensures
            final(self).wf(),
            final(self).users == old(self).users,
            final(self).tokens == old(self).tokens,
            final(self).contests == old(self).contests,
            final(self).participations == old(self).participations,
            final(self).submissions == old(self).submissions,
            final(self).test_results == old(self).test_results,
            final(self).scores == old(self).scores,
            ({
                let prior_id = replaced_problem_id(old(self).problems@, problem_name@);
                let base = if find_first(old(self).problems@, p_problem_name(problem_name@))
                    is Some {
                    crate::seqtools::filter_by(
                        old(self).problems@,
                        |row: ProblemRow| row.problem_id != prior_id,
                    )
                } else {
                    old(self).problems@
                };
                match r {
                    Ok(id) => {
                        &&& problem_dependents_cleared(*old(self), *final(self), problem_name@)
                        &&& final(self).problems@.len() == base.len() + 1
                        &&& final(self).problems@.drop_last() == base
                        &&& final(self).problems@.last().problem_id == id
                        &&& final(self).problems@.last().problem_name@ == problem_name@
                        &&& final(self).problems@.last().problem_description@
                            == problem_description@
                        &&& final(self).problems@.last().points == 0
                        &&& final(self).problems@.last().time_limit_ms == time_limit
                    },
                    Err(e) => {
                        &&& (e == StoreError::Conflict || e == StoreError::Overflow)
                        &&& (e == StoreError::Conflict ==> (*final(self) == *old(self)
                            && find_first(old(self).problems@, p_problem_name(problem_name@))
                            is Some && find_first(
                            old(self).submissions@,
                            p_submission_problem(prior_id as ProblemId),
                        ) is Some))
                        &&& (e == StoreError::Overflow ==> (old(self).next_problem_id
                            == i32::MAX && final(self).problems@ == base
                            && problem_dependents_cleared(
                            *old(self),
                            *final(self),
                            problem_name@,
                        )))
                    },
                }
            }),
    {
        let ghost prior_id = replaced_problem_id(old(self).problems@, problem_name@);
        match self.get_problem_id_from_name(problem_name) {
            Ok(existing) => {
                proof {
                    lemma_find_first_props(old(self).problems@, p_problem_name(problem_name@));
                }
                self.remove_problem(existing)?;
                proof {
                    // the deleted problem was the unique holder of the name
                    lemma_find_first_props(self.problems@, p_problem_name(problem_name@));
                    if let Some(x) = find_first(self.problems@, p_problem_name(problem_name@)) {
                        let w = choose|w: int|
                            0 <= w < self.problems@.len() && self.problems@[w] == x;
                        crate::seqtools::lemma_filter_contains(
                            old(self).problems@,
                            |row: ProblemRow| row.problem_id != prior_id,
                        );
                        crate::seqtools::lemma_filter_all_keep(
                            old(self).problems@,
                            |row: ProblemRow| row.problem_id != prior_id,
                        );
                        let wo = choose|wo: int|
                            0 <= wo < old(self).problems@.len() && old(self).problems@[wo] == x;
                        let p = find_first(
                            old(self).problems@,
                            p_problem_name(problem_name@),
                        ).unwrap();
                        let wp = choose|wp: int|
                            0 <= wp < old(self).problems@.len() && old(self).problems@[wp] == p;
                        assert(wo != wp);
                        assert(false);
                    }
                }
            },
            Err(_) => {},
        }
        match self.add_problem(problem_name, problem_description, time_limit) {
            Ok(id) => Ok(id),
            Err(e) => Err(e),
        }
    }
}


/// The id of the problem an override would replace: the holder of the
/// name, or zero — never a real id — when the name is free.
pub open spec fn replaced_problem_id(problems: Seq<ProblemRow>, problem_name: Seq<char>) -> int {
    match find_first(problems, p_problem_name(problem_name)) {
        Some(p) => p.problem_id as int,
        None => 0,
    }
}

/// Whatever depended on the replaced problem is gone; when no problem held
/// the name, everything stands as it was.
pub open spec fn problem_dependents_cleared(pre: Store, post: Store, problem_name: Seq<char>) -> bool {
    match find_first(pre.problems@, p_problem_name(problem_name)) {
        Some(p) => {
            &&& post.subtasks@ == crate::seqtools::filter_by(
                pre.subtasks@,
                |row: SubtaskRow| row.problem_id != p.problem_id,
            )
            &&& post.tests@ == crate::seqtools::filter_by(
                pre.tests@,
                |row: TestRow| row.problem_id != p.problem_id,
            )
            &&& post.contest_problems@ == crate::seqtools::filter_by(
                pre.contest_problems@,
                |row: crate::store::ContestProblemRow| row.problem_id != p.problem_id,
            )
            &&& post.subtask_tests@ == crate::seqtools::filter_by(
                pre.subtask_tests@,
                |row: SubtaskTestRow|
                    match find_first(pre.tests@, p_test_id(row.test_id)) {
                        Some(test) => test.problem_id != p.problem_id,
                        None => true,
                    },
            )
            &&& post.subtask_results@ == crate::seqtools::filter_by(
                pre.subtask_results@,
                |row: SubtaskResultRow|
                    find_first(
                        pre.submissions@,
                        crate::store::p_submission_id(row.submission_id),
                    ) is Some,
            )
        },
        None => {
            &&& post.subtasks == pre.subtasks
            &&& post.tests == pre.tests
            &&& post.contest_problems == pre.contest_problems
            &&& post.subtask_tests == pre.subtask_tests
            &&& post.subtask_results == pre.subtask_results
        },
    }
}

} // verus!
