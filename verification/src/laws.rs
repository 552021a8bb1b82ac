//! The grading guarantees, stated over any well-formed store. Each law
//! holds of every state the library's operations can produce, because every
//! operation preserves the store invariant that carries it.

use vstd::prelude::*;
use crate::seqtools::find_first;
use crate::store::Store;
use crate::store::SubtaskId;
use crate::store::p_subtask_id;
use crate::store::problem_subtask_score_sum;
use crate::store::problem_test_ids;
use crate::store::problem_subtask_ids;
use crate::store::submission_points_sum;
use crate::store::submission_test_ids;
use crate::store::submission_subtask_ids;
use crate::verdict::TestingResult;
use crate::verdict::is_terminal;

verus! {

/// Every submission has exactly one test-result row per test of its
/// problem — the same test ids, in the same order — from the moment it is
/// recorded until it is deleted.
pub proof fn lemma_test_rows_mirror_problem(st: Store, j: int)
    requires
        st.wf(),
        0 <= j < st.submissions@.len(),
    ensures
        submission_test_ids(st.test_results@, st.submissions@[j].submission_id)
            == problem_test_ids(st.tests@, st.submissions@[j].problem_id),
        submission_subtask_ids(st.subtask_results@, st.submissions@[j].submission_id)
            == problem_subtask_ids(st.subtasks@, st.submissions@[j].problem_id),
{
}

/// The fan-in counter never passes the number of result rows, and a
/// submission graded to a terminal verdict other than a compile failure has
/// counted every one of its tests.
pub proof fn lemma_terminal_means_all_tests_done(st: Store, j: int)
    requires
        st.wf(),
        0 <= j < st.submissions@.len(),
    ensures
        0 <= st.submissions@[j].tests_done <= submission_test_ids(
            st.test_results@,
            st.submissions@[j].submission_id,
        ).len(),
        is_terminal(st.submissions@[j].result) && st.submissions@[j].result
            != TestingResult::CompilationError ==> st.submissions@[j].tests_done as int
            == submission_test_ids(st.test_results@, st.submissions@[j].submission_id).len(),
{
}

/// A submission graded to a terminal verdict other than a compile failure
/// has its points recorded, and recorded points always equal the sum of the
/// submission's per-subtask points.
pub proof fn lemma_points_sum_subtask_points(st: Store, j: int)
    requires
        st.wf(),
        0 <= j < st.submissions@.len(),
    ensures
        is_terminal(st.submissions@[j].result) && st.submissions@[j].result
            != TestingResult::CompilationError ==> st.submissions@[j].points is Some,
        st.submissions@[j].points matches Some(p) ==> p as int == submission_points_sum(
            st.subtask_results@,
            st.submissions@[j].submission_id,
        ),
{
}

/// A subtask's recorded points are all or nothing: zero, or exactly the
/// subtask's score.
pub proof fn lemma_subtask_points_all_or_nothing(st: Store, j: int)
    requires
        st.wf(),
        0 <= j < st.subtask_results@.len(),
    ensures
        st.subtask_results@[j].points matches Some(p) ==> p == 0 || (find_first(
            st.subtasks@,
            p_subtask_id(st.subtask_results@[j].subtask_id),
        ) matches Some(subtask) && p == subtask.subtask_score),
{
}

/// A problem's materialised points always equal the sum of its subtasks'
/// scores.
pub proof fn lemma_problem_points_sum_subtask_scores(st: Store, j: int)
    requires
        st.wf(),
        0 <= j < st.problems@.len(),
    ensures
        st.problems@[j].points as int == problem_subtask_score_sum(
            st.subtasks@,
            st.problems@[j].problem_id,
        ),
{
}


/// A user's projected score on a problem never exceeds the problem's
/// points: each subtask contributes at most its own score, and the points
/// column is the sum of those scores.
pub proof fn lemma_score_within_problem_points(st: Store, user_id: i32, problem_id: i32)
    requires
        st.wf(),
    ensures
        crate::store_scores::user_problem_score_spec(st, user_id, problem_id)
            <= problem_subtask_score_sum(st.subtasks@, problem_id),
        find_first(st.problems@, crate::store::p_problem_id(problem_id)) matches Some(p)
            ==> crate::store_scores::user_problem_score_spec(st, user_id, problem_id)
            <= p.points,
{
    crate::store_scores::lemma_projected_score_within_problem(st, user_id, problem_id);
    crate::seqtools::lemma_find_first_props(
        st.problems@,
        crate::store::p_problem_id(problem_id),
    );
    if let Some(p) = find_first(st.problems@, crate::store::p_problem_id(problem_id)) {
        let w = choose|w: int| 0 <= w < st.problems@.len() && st.problems@[w] == p;
        assert(st.problems@[w].points as int == problem_subtask_score_sum(
            st.subtasks@,
            st.problems@[w].problem_id,
        ));
    }
}

} // verus!
