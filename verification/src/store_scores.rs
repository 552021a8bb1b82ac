//! The derived per-user, per-problem score: for each subtask the best
//! points over all of the user's submissions, summed over the problem's
//! subtasks, recomputed after every submission completes. The projection
//! only ever grows as submissions accumulate.

use vstd::prelude::*;
use crate::seqtools::find_first;
use crate::seqtools::lemma_find_first_extend;
use crate::seqtools::lemma_find_first_props;
use crate::seqtools::lemma_take_step;
use crate::store::Store;
use crate::store::StoreError;
use crate::store::UserId;
use crate::store::ProblemId;
use crate::store::SubtaskId;
use crate::store::SubmissionId;
use crate::store::ScoreRow;
use crate::store::SubtaskResultRow;
use crate::store::p_score;
use crate::store::points_of;
use crate::store::problem_subtask_ids;
use crate::store::user_problem_submission_ids;

verus! {

/// The best points any of the listed submissions holds on one subtask,
/// never below zero.
pub open spec fn best_subtask_points(
    srs: Seq<SubtaskResultRow>,
    subs: Seq<SubmissionId>,
    stid: SubtaskId,
) -> int
    decreases subs.len(),
{
    if subs.len() == 0 {
        0
    } else {
        let prev = best_subtask_points(srs, subs.drop_last(), stid);
        let p = points_of(srs, subs.last(), stid);
        if p > prev {
            p
        } else {
            prev
        }
    }
}

/// The projected score: the sum over the listed subtasks of the best
/// points over the listed submissions.
pub open spec fn projected_score(
    srs: Seq<SubtaskResultRow>,
    subs: Seq<SubmissionId>,
    stids: Seq<SubtaskId>,
) -> int
    decreases stids.len(),
{
    if stids.len() == 0 {
        0
    } else {
        projected_score(srs, subs, stids.drop_last()) + best_subtask_points(
            srs,
            subs,
            stids.last(),
        )
    }
}

/// The projected score of one user on one problem, over the whole store.
pub open spec fn user_problem_score_spec(st: Store, user_id: UserId, problem_id: ProblemId) -> int {
    projected_score(
        st.subtask_results@,
        user_problem_submission_ids(st.submissions@, user_id, problem_id),
        problem_subtask_ids(st.subtasks@, problem_id),
    )
}

/// The best points are never negative.
pub proof fn lemma_best_points_nonneg(
    srs: Seq<SubtaskResultRow>,
    subs: Seq<SubmissionId>,
    stid: SubtaskId,
)
    ensures
        best_subtask_points(srs, subs, stid) >= 0,
    decreases subs.len(),
{
    if subs.len() > 0 {
        lemma_best_points_nonneg(srs, subs.drop_last(), stid);
    }
}

/// More submissions can only raise the best points on a subtask.
pub proof fn lemma_best_points_monotone(
    srs: Seq<SubtaskResultRow>,
    subs1: Seq<SubmissionId>,
    subs2: Seq<SubmissionId>,
    stid: SubtaskId,
)
    requires
        subs1.len() <= subs2.len(),
        subs1 == subs2.take(subs1.len() as int),
    ensures
        best_subtask_points(srs, subs2, stid) >= best_subtask_points(srs, subs1, stid),
    decreases subs2.len(),
{
    if subs2.len() > subs1.len() {
        assert(subs1 == subs2.drop_last().take(subs1.len() as int)) by {
            assert(subs2.drop_last().take(subs1.len() as int) =~= subs2.take(
                subs1.len() as int,
            ));
        }
        lemma_best_points_monotone(srs, subs1, subs2.drop_last(), stid);
    } else {
        assert(subs2.take(subs1.len() as int) =~= subs2);
    }
}

/// More submissions can only raise the projected score.
pub proof fn lemma_projected_score_monotone(
    srs: Seq<SubtaskResultRow>,
    subs1: Seq<SubmissionId>,
    subs2: Seq<SubmissionId>,
    stids: Seq<SubtaskId>,
)
    requires
        subs1.len() <= subs2.len(),
        subs1 == subs2.take(subs1.len() as int),
    ensures
        projected_score(srs, subs2, stids) >= projected_score(srs, subs1, stids),
    decreases stids.len(),
{
    if stids.len() > 0 {
        lemma_projected_score_monotone(srs, subs1, subs2, stids.drop_last());
        lemma_best_points_monotone(srs, subs1, subs2, stids.last());
    }
}

/// Unchanged per-submission points give an unchanged best.
pub proof fn lemma_best_points_congruent(
    srs1: Seq<SubtaskResultRow>,
    srs2: Seq<SubtaskResultRow>,
    subs: Seq<SubmissionId>,
    stid: SubtaskId,
)
    requires
        forall|j: int|
            0 <= j < subs.len() ==> points_of(srs2, #[trigger] subs[j], stid) == points_of(
                srs1,
                subs[j],
                stid,
            ),
    ensures
        best_subtask_points(srs2, subs, stid) == best_subtask_points(srs1, subs, stid),
    decreases subs.len(),
{
    if subs.len() > 0 {
        assert(forall|j: int|
            0 <= j < subs.len() - 1 ==> subs.drop_last()[j] == #[trigger] subs[j]);
        lemma_best_points_congruent(srs1, srs2, subs.drop_last(), stid);
    }
}

/// Unchanged per-submission points give an unchanged projected score.
pub proof fn lemma_projected_score_congruent(
    srs1: Seq<SubtaskResultRow>,
    srs2: Seq<SubtaskResultRow>,
    subs: Seq<SubmissionId>,
    stids: Seq<SubtaskId>,
)
    requires
        forall|j: int, stid: SubtaskId|
            0 <= j < subs.len() ==> #[trigger] points_of(srs2, subs[j], stid) == points_of(
                srs1,
                subs[j],
                stid,
            ),
    ensures
        projected_score(srs2, subs, stids) == projected_score(srs1, subs, stids),
    decreases stids.len(),
{
    if stids.len() > 0 {
        lemma_projected_score_congruent(srs1, srs2, subs, stids.drop_last());
        lemma_best_points_congruent(srs1, srs2, subs, stids.last());
    }
}

/// For a fixed problem definition, a user's projected score is monotone
/// non-decreasing across submissions: if the store keeps the user's old
/// submissions and their recorded subtask points, appends any new
/// submissions, and leaves the problem's subtasks alone, the score can
/// only grow.
pub proof fn lemma_user_score_monotone(
    st1: Store,
    st2: Store,
    user_id: UserId,
    problem_id: ProblemId,
)
    requires
        user_problem_submission_ids(st1.submissions@, user_id, problem_id).len()
            <= user_problem_submission_ids(st2.submissions@, user_id, problem_id).len(),
        user_problem_submission_ids(st1.submissions@, user_id, problem_id)
            == user_problem_submission_ids(st2.submissions@, user_id, problem_id).take(
            user_problem_submission_ids(st1.submissions@, user_id, problem_id).len() as int,
        ),
        problem_subtask_ids(st2.subtasks@, problem_id) == problem_subtask_ids(
            st1.subtasks@,
            problem_id,
        ),
        forall|j: int, stid: SubtaskId|
            0 <= j < user_problem_submission_ids(st1.submissions@, user_id, problem_id).len()
                ==> #[trigger] points_of(
                st2.subtask_results@,
                user_problem_submission_ids(st1.submissions@, user_id, problem_id)[j],
                stid,
            ) == points_of(
                st1.subtask_results@,
                user_problem_submission_ids(st1.submissions@, user_id, problem_id)[j],
                stid,
            ),
    ensures
        user_problem_score_spec(st2, user_id, problem_id) >= user_problem_score_spec(
            st1,
            user_id,
            problem_id,
        ),
{
    let subs1 = user_problem_submission_ids(st1.submissions@, user_id, problem_id);
    let subs2 = user_problem_submission_ids(st2.submissions@, user_id, problem_id);
    let stids = problem_subtask_ids(st1.subtasks@, problem_id);
    lemma_projected_score_congruent(
        st1.subtask_results@,
        st2.subtask_results@,
        subs1,
        stids,
    );
    lemma_projected_score_monotone(st2.subtask_results@, subs1, subs2, stids);
}

impl Store {
    /// Recompute and record one user's score on one problem.
    pub fn update_user_score_for_problem(&mut self, user_id: UserId, problem_id: ProblemId) -> (r:
        Result<(), StoreError>)
        requires
            old(self).wf(),
        ensures
            final(self).wf(),
            final(self).users == old(self).users,
            final(self).tokens == old(self).tokens,
            final(self).contests == old(self).contests,
            final(self).participations == old(self).participations,
            final(self).contest_problems == old(self).contest_problems,
            final(self).problems == old(self).problems,
            final(self).subtasks == old(self).subtasks,
            final(self).tests == old(self).tests,
            final(self).subtask_tests == old(self).subtask_tests,
            final(self).submissions == old(self).submissions,
            final(self).subtask_results == old(self).subtask_results,
            final(self).test_results == old(self).test_results,
            match r {
                Ok(_) => {
                    &&& user_problem_score_spec(*old(self), user_id, problem_id) <= i32::MAX
                    &&& find_first(final(self).scores@, p_score(user_id, problem_id))
                        matches Some(row) && row.score as int == user_problem_score_spec(
                        *old(self),
                        user_id,
                        problem_id,
                    )
                    &&& forall|uid2: UserId, pid2: ProblemId|
                        !(uid2 == user_id && pid2 == problem_id) ==> find_first(
                            final(self).scores@,
                            #[trigger] p_score(uid2, pid2),
                        ) == find_first(old(self).scores@, p_score(uid2, pid2))
                },
                Err(e) => {
                    &&& *final(self) == *old(self)
                    &&& e == StoreError::Overflow
                    &&& user_problem_score_spec(*old(self), user_id, problem_id) > i32::MAX
                },
            },
    {
        let subs = self.get_submissions_by_user_for_problem(user_id, problem_id);
        let stids = self.get_subtasks_for_problem(problem_id);
        let ghost g_subs = subs@;
        let ghost g_stids = stids@;
        let ghost pre = *self;
        let n = stids.len();
        let s_count = subs.len();
        let mut score: i64 = 0;
        let mut k: usize = 0;
        while k < n
            invariant
                k <= n,
                n == g_stids.len(),
                s_count == g_subs.len(),
                pre == *self,
                pre == *old(self),
                pre.wf(),
                stids@ == g_stids,
                subs@ == g_subs,
                g_subs == user_problem_submission_ids(pre.submissions@, user_id, problem_id),
                g_stids == problem_subtask_ids(pre.subtasks@, problem_id),
                score == projected_score(
                    pre.subtask_results@,
                    g_subs,
                    g_stids.take(k as int),
                ),
                0 <= score <= i32::MAX,
            decreases n - k,
        {
            let stid = stids[k];
            let mut best: i32 = 0;
            let mut j: usize = 0;
            while j < s_count
                invariant
                    j <= s_count,
                    s_count == g_subs.len(),
                    pre == *self,
                    pre.wf(),
                    subs@ == g_subs,
                    0 <= k < g_stids.len(),
                    stid == g_stids[k as int],
                    best as int == best_subtask_points(
                        pre.subtask_results@,
                        g_subs.take(j as int),
                        stid,
                    ),
                    best >= 0,
                decreases s_count - j,
            {
                proof {
                    assert(g_subs.take(j + 1).drop_last() =~= g_subs.take(j as int));
                    assert(g_subs.take(j + 1).last() == g_subs[j as int]);
                }
                let p = match self.get_subtask_points_result(subs[j], stid) {
                    Some(v) => v,
                    None => 0,
                };
                if p > best {
                    best = p;
                }
                j = j + 1;
            }
            proof {
                assert(g_subs.take(s_count as int) =~= g_subs);
                assert(g_stids.take(k + 1).drop_last() =~= g_stids.take(k as int));
                assert(g_stids.take(k + 1).last() == g_stids[k as int]);
            }
            score = score + best as i64;
            if score > i32::MAX as i64 {
                proof {
                    lemma_projected_prefix_bound(
                        pre.subtask_results@,
                        g_subs,
                        g_stids,
                        k + 1,
                    );
                }
                return Err(StoreError::Overflow);
            }
            k = k + 1;
        }
        proof {
            assert(g_stids.take(n as int) =~= g_stids);
        }
        let score32: i32 = score as i32;
        // upsert the score row
        let ghost p = p_score(user_id, problem_id);
        let m = self.scores.len();
        let mut i: usize = 0;
        while i < m
            invariant
                i <= m,
                m == self.scores@.len(),
                p == p_score(user_id, problem_id),
                pre == *self,
                pre == *old(self),
                pre.wf(),
                score32 >= 0,
                score32 as int == user_problem_score_spec(pre, user_id, problem_id),
                find_first(self.scores@.take(i as int), p) is None,
            decreases m - i,
        {
            proof {
                lemma_take_step(self.scores@, i as int);
            }
            if self.scores[i].user_id == user_id && self.scores[i].problem_id == problem_id {
                proof {
                    lemma_find_first_extend(self.scores@, p, i + 1);
                }
                self.scores[i].score = score32;
                proof {
                    assert forall|uid2: UserId, pid2: ProblemId|
                        !(uid2 == user_id && pid2 == problem_id) implies find_first(
                        self.scores@,
                        #[trigger] p_score(uid2, pid2),
                    ) == find_first(pre.scores@, p_score(uid2, pid2)) by {
                        crate::seqtools::lemma_find_first_congruence(
                            pre.scores@,
                            self.scores@,
                            p_score(uid2, pid2),
                        );
                    };
                    assert forall|a: int|
                        0 <= a < self.scores@.len() && a != i implies !(p(
                        #[trigger] self.scores@[a],
                    )) by {
                        assert(pre.scores@[a].user_id == self.scores@[a].user_id
                            && pre.scores@[a].problem_id == self.scores@[a].problem_id);
                    };
                    crate::seqtools::lemma_find_first_unique(self.scores@, i as int, p);
                }
                return Ok(());
            }
            i = i + 1;
        }
        proof {
            assert(self.scores@.take(m as int) =~= self.scores@);
            lemma_find_first_props(self.scores@, p);
        }
        let row = ScoreRow { user_id, problem_id, score: score32 };
        self.scores.push(row);
        proof {
            crate::seqtools::lemma_find_first_push(pre.scores@, row, p);
            assert forall|uid2: UserId, pid2: ProblemId|
                !(uid2 == user_id && pid2 == problem_id) implies find_first(
                self.scores@,
                #[trigger] p_score(uid2, pid2),
            ) == find_first(pre.scores@, p_score(uid2, pid2)) by {
                crate::seqtools::lemma_find_first_push(pre.scores@, row, p_score(uid2, pid2));
            };
        }
        Ok(())
    }
}

/// A prefix of the projected score never exceeds the whole.
proof fn lemma_projected_prefix_bound(
    srs: Seq<SubtaskResultRow>,
    subs: Seq<SubmissionId>,
    stids: Seq<SubtaskId>,
    k: int,
)
    requires
        0 <= k <= stids.len(),
    ensures
        projected_score(srs, subs, stids.take(k)) <= projected_score(srs, subs, stids),
    decreases stids.len(),
{
    if stids.len() > 0 {
        if k <= stids.len() - 1 {
            lemma_projected_prefix_bound(srs, subs, stids.drop_last(), k);
            assert(stids.take(k) =~= stids.drop_last().take(k));
            lemma_best_points_nonneg(srs, subs, stids.last());
        } else {
            assert(stids.take(k) =~= stids);
        }
    }
}

} // verus!

verus! {

/// The sum of the named subtasks' scores.
pub open spec fn sum_scores_over(subtasks: Seq<crate::store::SubtaskRow>, stids: Seq<SubtaskId>) -> int
    decreases stids.len(),
{
    if stids.len() == 0 {
        0
    } else {
        sum_scores_over(subtasks, stids.drop_last()) + crate::store::subtask_score_of(
            subtasks,
            stids.last(),
        )
    }
}

/// With all-or-nothing recorded points and non-negative scores, no
/// submission holds more on a subtask than the subtask is worth.
proof fn lemma_points_of_bounded(
    srs: Seq<SubtaskResultRow>,
    subtasks: Seq<crate::store::SubtaskRow>,
    sid: SubmissionId,
    stid: SubtaskId,
)
    requires
        forall|i: int|
            0 <= i < subtasks.len() ==> (#[trigger] subtasks[i]).subtask_score >= 0,
        forall|i: int|
            0 <= i < srs.len() ==> match (#[trigger] srs[i]).points {
                Some(p) => p == 0 || (crate::seqtools::find_first(
                    subtasks,
                    crate::store::p_subtask_id(srs[i].subtask_id),
                ) matches Some(st) && p == st.subtask_score),
                None => true,
            },
    ensures
        0 <= points_of(srs, sid, stid) <= crate::store::subtask_score_of(subtasks, stid),
{
    crate::seqtools::lemma_find_first_props(subtasks, crate::store::p_subtask_id(stid));
    if let Some(st) = crate::seqtools::find_first(
        subtasks,
        crate::store::p_subtask_id(stid),
    ) {
        let w = choose|w: int| 0 <= w < subtasks.len() && subtasks[w] == st;
        assert(subtasks[w].subtask_score >= 0);
    }
    crate::seqtools::lemma_find_first_props(
        srs,
        crate::store::p_subtask_result(sid, stid),
    );
    if let Some(row) = crate::seqtools::find_first(
        srs,
        crate::store::p_subtask_result(sid, stid),
    ) {
        let w = choose|w: int| 0 <= w < srs.len() && srs[w] == row;
        assert(match srs[w].points {
            Some(p) => p == 0 || (crate::seqtools::find_first(
                subtasks,
                crate::store::p_subtask_id(srs[w].subtask_id),
            ) matches Some(st) && p == st.subtask_score),
            None => true,
        });
    }
}

/// The best points over any set of submissions stay within the subtask's
/// score.
proof fn lemma_best_points_bounded(
    srs: Seq<SubtaskResultRow>,
    subtasks: Seq<crate::store::SubtaskRow>,
    subs: Seq<SubmissionId>,
    stid: SubtaskId,
)
    requires
        forall|i: int|
            0 <= i < subtasks.len() ==> (#[trigger] subtasks[i]).subtask_score >= 0,
        forall|i: int|
            0 <= i < srs.len() ==> match (#[trigger] srs[i]).points {
                Some(p) => p == 0 || (crate::seqtools::find_first(
                    subtasks,
                    crate::store::p_subtask_id(srs[i].subtask_id),
                ) matches Some(st) && p == st.subtask_score),
                None => true,
            },
    ensures
        0 <= best_subtask_points(srs, subs, stid) <= crate::store::subtask_score_of(
            subtasks,
            stid,
        ),
    decreases subs.len(),
{
    crate::seqtools::lemma_find_first_props(subtasks, crate::store::p_subtask_id(stid));
    if let Some(st) = crate::seqtools::find_first(
        subtasks,
        crate::store::p_subtask_id(stid),
    ) {
        let w = choose|w: int| 0 <= w < subtasks.len() && subtasks[w] == st;
        assert(subtasks[w].subtask_score >= 0);
    }
    if subs.len() > 0 {
        lemma_best_points_bounded(srs, subtasks, subs.drop_last(), stid);
        lemma_points_of_bounded(srs, subtasks, subs.last(), stid);
    }
}

/// The projected score stays within the sum of the listed subtasks'
/// scores.
proof fn lemma_projected_le_sum_scores(
    srs: Seq<SubtaskResultRow>,
    subtasks: Seq<crate::store::SubtaskRow>,
    subs: Seq<SubmissionId>,
    stids: Seq<SubtaskId>,
)
    requires
        forall|i: int|
            0 <= i < subtasks.len() ==> (#[trigger] subtasks[i]).subtask_score >= 0,
        forall|i: int|
            0 <= i < srs.len() ==> match (#[trigger] srs[i]).points {
                Some(p) => p == 0 || (crate::seqtools::find_first(
                    subtasks,
                    crate::store::p_subtask_id(srs[i].subtask_id),
                ) matches Some(st) && p == st.subtask_score),
                None => true,
            },
    ensures
        projected_score(srs, subs, stids) <= sum_scores_over(subtasks, stids),
    decreases stids.len(),
{
    if stids.len() > 0 {
        lemma_projected_le_sum_scores(srs, subtasks, subs, stids.drop_last());
        lemma_best_points_bounded(srs, subtasks, subs, stids.last());
    }
}

/// A sum of scores over ids whose subtasks all resolve alike is unchanged
/// by growing the table with an unrelated row.
proof fn lemma_sum_scores_congruent(
    s1: Seq<crate::store::SubtaskRow>,
    s2: Seq<crate::store::SubtaskRow>,
    stids: Seq<SubtaskId>,
)
    requires
        forall|j: int|
            0 <= j < stids.len() ==> crate::store::subtask_score_of(s2, #[trigger] stids[j])
                == crate::store::subtask_score_of(s1, stids[j]),
    ensures
        sum_scores_over(s2, stids) == sum_scores_over(s1, stids),
    decreases stids.len(),
{
    if stids.len() > 0 {
        assert(forall|j: int|
            0 <= j < stids.len() - 1 ==> stids.drop_last()[j] == #[trigger] stids[j]);
        lemma_sum_scores_congruent(s1, s2, stids.drop_last());
    }
}

/// Summing the scores over a problem's subtask list gives the problem's
/// materialised points sum.
proof fn lemma_sum_scores_of_problem(
    subtasks: Seq<crate::store::SubtaskRow>,
    problem_id: crate::store::ProblemId,
)
    requires
        forall|i: int, j: int|
            0 <= i < j < subtasks.len() ==> (#[trigger] subtasks[i]).subtask_id != (
            #[trigger] subtasks[j]).subtask_id,
    ensures
        sum_scores_over(subtasks, problem_subtask_ids(subtasks, problem_id))
            == crate::store::problem_subtask_score_sum(subtasks, problem_id),
    decreases subtasks.len(),
{
    if subtasks.len() == 0 {
        assert(problem_subtask_ids(subtasks, problem_id) =~= Seq::<SubtaskId>::empty());
    } else {
        let s = subtasks.drop_last();
        let x = subtasks.last();
        assert(forall|i: int| 0 <= i < s.len() ==> s[i] == #[trigger] subtasks[i]);
        lemma_sum_scores_of_problem(s, problem_id);
        let ids_s = problem_subtask_ids(s, problem_id);
        crate::seqtools::lemma_proj_push(
            s,
            x,
            |r: crate::store::SubtaskRow| r.problem_id == problem_id,
            |r: crate::store::SubtaskRow| r.subtask_id,
        );
        assert(subtasks =~= s.push(x));
        // ids of the shorter table resolve to the same subtasks in the
        // longer one, because their rows are already there
        assert forall|j: int| 0 <= j < ids_s.len() implies crate::store::subtask_score_of(
            subtasks,
            #[trigger] ids_s[j],
        ) == crate::store::subtask_score_of(s, ids_s[j]) by {
            crate::seqtools::lemma_proj_membership(
                s,
                |r: crate::store::SubtaskRow| r.problem_id == problem_id,
                |r: crate::store::SubtaskRow| r.subtask_id,
                j,
            );
            let w = choose|w: int|
                0 <= w < s.len() && (#[trigger] s[w]).problem_id == problem_id
                    && s[w].subtask_id == ids_s[j];
            crate::seqtools::lemma_find_first_some(
                s,
                crate::store::p_subtask_id(ids_s[j]),
                w,
            );
            crate::seqtools::lemma_find_first_push(
                s,
                x,
                crate::store::p_subtask_id(ids_s[j]),
            );
        };
        lemma_sum_scores_congruent(s, subtasks, ids_s);
        if x.problem_id == problem_id {
            // the new subtask's id is fresh, so it resolves to itself
            crate::seqtools::lemma_find_first_props(
                s,
                crate::store::p_subtask_id(x.subtask_id),
            );
            if crate::seqtools::find_first(s, crate::store::p_subtask_id(x.subtask_id))
                is Some {
                let y = crate::seqtools::find_first(
                    s,
                    crate::store::p_subtask_id(x.subtask_id),
                ).unwrap();
                let w = choose|w: int| 0 <= w < s.len() && s[w] == y;
                assert(subtasks[w].subtask_id == subtasks[subtasks.len() - 1].subtask_id);
                assert(false);
            }
            crate::seqtools::lemma_find_first_push(
                s,
                x,
                crate::store::p_subtask_id(x.subtask_id),
            );
            assert(problem_subtask_ids(subtasks, problem_id).drop_last() =~= ids_s);
        }
    }
}

/// A user's projected score never exceeds the sum of the problem's subtask
/// scores — the problem's materialised points.
pub proof fn lemma_projected_score_within_problem(
    st: Store,
    user_id: UserId,
    problem_id: ProblemId,
)
    requires
        st.wf(),
    ensures
        user_problem_score_spec(st, user_id, problem_id)
            <= crate::store::problem_subtask_score_sum(st.subtasks@, problem_id),
{
    lemma_projected_le_sum_scores(
        st.subtask_results@,
        st.subtasks@,
        user_problem_submission_ids(st.submissions@, user_id, problem_id),
        problem_subtask_ids(st.subtasks@, problem_id),
    );
    lemma_sum_scores_of_problem(st.subtasks@, problem_id);
}

} // verus!
