//! Administrative writes: accounts and credentials, login tokens, contests
//! and their membership and problem sets.

use vstd::prelude::*;
use crate::clock::now_millis;
use crate::rng::random_token;
use crate::seqtools::filter_by;
use crate::seqtools::find_first;
use crate::seqtools::lemma_filter_pairwise;
use crate::seqtools::lemma_find_first_props;
use crate::store::Store;
use crate::store::StoreError;
use crate::store::UserId;
use crate::store::ContestId;
use crate::store::ProblemId;
use crate::store::UserRow;
use crate::store::TokenRow;
use crate::store::ContestRow;
use crate::store::ParticipationRow;
use crate::store::ContestProblemRow;
use crate::store::ScoreRow;
use crate::store::p_user_id;
use crate::store::p_username;
use crate::store::p_contest_id;
use crate::store::p_contest_name;
use crate::store::p_participation;
use crate::store::p_contest_problem;
use crate::store::p_problem_id;

verus! {

/// Whether `bcrypt::verify` accepts this password against this hash; a
/// function of the two strings alone.
pub uninterp spec fn bcrypt_matches(password: Seq<char>, hash: Seq<char>) -> bool;

/// Relies on bcrypt::hash: a salted hash of the password that
/// bcrypt::verify accepts for the same password.
#[verifier::external_body]
fn bcrypt_hash(password: &str) -> (r: Option<String>)
    ensures
        r matches Some(h) ==> bcrypt_matches(password@, h@),
{
    match bcrypt::hash(password, bcrypt::DEFAULT_COST) {
        Ok(h) => Some(h),
        Err(_) => None,
    }
}

/// Relies on bcrypt::verify: whether the password matches the hash;
/// `None` when the stored hash cannot be read.
#[verifier::external_body]
fn bcrypt_verify(password: &str, hash: &str) -> (r: Option<bool>)
    ensures
        r matches Some(b) ==> b == bcrypt_matches(password@, hash@),
{
    match bcrypt::verify(password, hash) {
        Ok(b) => Some(b),
        Err(_) => None,
    }
}

impl Store {
    /// Create a user with a hashed password. The username must be new.
    pub fn add_user(&mut self, username: &str, password: &str, is_admin: bool) -> (r: Result<
        UserId,
        StoreError,
    >)
        requires
            old(self).wf(),
        ensures
            final(self).wf(),
            match r {
                Ok(id) => {
                    &&& id == old(self).next_user_id
                    &&& final(self).next_user_id == old(self).next_user_id + 1
                    &&& final(self).users@.len() == old(self).users@.len() + 1
                    &&& final(self).users@.drop_last() == old(self).users@
                    &&& final(self).users@.last().user_id == id
                    &&& final(self).users@.last().username@ == username@
                    &&& final(self).users@.last().is_admin == is_admin
                    &&& bcrypt_matches(password@, final(self).users@.last().password_hash@)
                },
                Err(e) => {
                    &&& *final(self) == *old(self)
                    &&& (e == StoreError::Duplicate || e == StoreError::Overflow || e
                        == StoreError::Crypto)
                    &&& (e == StoreError::Duplicate <==> find_first(
                        old(self).users@,
                        p_username(username@),
                    ) is Some)
                    &&& (e == StoreError::Overflow ==> old(self).next_user_id == i32::MAX)
                },
            },
            final(self).tokens == old(self).tokens,
            final(self).contests == old(self).contests,
            final(self).participations == old(self).participations,
            final(self).contest_problems == old(self).contest_problems,
            final(self).problems == old(self).problems,
            final(self).subtasks == old(self).subtasks,
            final(self).tests == old(self).tests,
            final(self).subtask_tests == old(self).subtask_tests,
            final(self).submissions == old(self).submissions,
            final(self).subtask_results == old(self).subtask_results,
            final(self).test_results == old(self).test_results,
            final(self).scores == old(self).scores,
    {
        if self.get_user_from_username(username).is_some() {
            return Err(StoreError::Duplicate);
        }
        proof {
            lemma_find_first_props(self.users@, p_username(username@));
        }
        if self.next_user_id == i32::MAX {
            return Err(StoreError::Overflow);
        }
        let hash = match bcrypt_hash(password) {
            Some(h) => h,
            None => {
                return Err(StoreError::Crypto);
            },
        };
        let id = self.next_user_id;
        let row = UserRow {
            user_id: id,
            username: String::from_str(username),
            password_hash: hash,
            is_admin,
        };
        self.users.push(row);
        self.next_user_id = id + 1;
        Ok(id)
    }

    /// Check a password against the stored hash; `Ok(None)` names an
    /// unknown user or a wrong password.
    pub fn try_login(&self, username: &str, password: &str) -> (r: Result<
        Option<UserId>,
        StoreError,
    >)
        ensures
            match r {
                Ok(opt) => match find_first(self.users@, p_username(username@)) {
                    Some(u) => opt == if bcrypt_matches(password@, u.password_hash@) {
                        Some(u.user_id)
                    } else {
                        None::<UserId>
                    },
                    None => opt is None,
                },
                Err(e) => e == StoreError::Crypto && find_first(self.users@, p_username(username@))
                    is Some,
            },
    {
        let ghost p = p_username(username@);
        let n = self.users.len();
        let mut i: usize = 0;
        while i < n
            invariant
                i <= n,
                n == self.users@.len(),
                p == p_username(username@),
                find_first(self.users@.take(i as int), p) is None,
            decreases n - i,
        {
            proof {
                crate::seqtools::lemma_take_step(self.users@, i as int);
            }
            if crate::text::str_eq(self.users[i].username.as_str(), username) {
                proof {
                    crate::seqtools::lemma_find_first_extend(self.users@, p, i + 1);
                }
                return match bcrypt_verify(password, self.users[i].password_hash.as_str()) {
                    Some(true) => Ok(Some(self.users[i].user_id)),
                    Some(false) => Ok(None),
                    None => Err(StoreError::Crypto),
                };
            }
            i = i + 1;
        }
        proof {
            assert(self.users@.take(n as int) =~= self.users@);
        }
        Ok(None)
    }

    /// Issue a fresh random login token for a user, stamped to expire a day
    /// from now.
    pub fn add_token(&mut self, user_id: UserId) -> (r: Result<String, StoreError>)
        requires
            old(self).wf(),
        ensures
            final(self).wf(),
            match r {
                Ok(token) => {
                    &&& find_first(old(self).users@, p_user_id(user_id)) is Some
                    &&& final(self).tokens@.len() == old(self).tokens@.len() + 1
                    &&& final(self).tokens@.drop_last() == old(self).tokens@
                    &&& final(self).tokens@.last().token@ == token@
                    &&& final(self).tokens@.last().user_id == user_id
                    &&& token@.len() == 255
                },
                Err(e) => *final(self) == *old(self) && e == StoreError::NotFound && find_first(
                    old(self).users@,
                    p_user_id(user_id),
                ) is None,
            },
            final(self).users == old(self).users,
            final(self).contests == old(self).contests,
            final(self).participations == old(self).participations,
            final(self).contest_problems == old(self).contest_problems,
            final(self).problems == old(self).problems,
            final(self).subtasks == old(self).subtasks,
            final(self).tests == old(self).tests,
            final(self).subtask_tests == old(self).subtask_tests,
            final(self).submissions == old(self).submissions,
            final(self).subtask_results == old(self).subtask_results,
            final(self).test_results == old(self).test_results,
            final(self).scores == old(self).scores,
            final(self).next_user_id == old(self).next_user_id,
            final(self).next_contest_id == old(self).next_contest_id,
            final(self).next_problem_id == old(self).next_problem_id,
            final(self).next_subtask_id == old(self).next_subtask_id,
            final(self).next_test_id == old(self).next_test_id,
            final(self).next_submission_id == old(self).next_submission_id,
    {
        if self.find_user_idx(user_id).is_none() {
            return Err(StoreError::NotFound);
        }
        let token = random_token();
        let now = now_millis();
        let expiry_ms: i64 = if now > i64::MAX - 86_400_000 {
            i64::MAX
        } else {
            now + 86_400_000
        };
        let row = TokenRow { token: token.clone(), expiry_ms, user_id };
        self.tokens.push(row);
        Ok(token)
    }

    /// Forget a login token.
    pub fn remove_token(&mut self, token: &str)
        requires
            old(self).wf(),
        ensures
            final(self).wf(),
            final(self).tokens@ == filter_by(old(self).tokens@, |r: TokenRow| r.token@ != token@),
            final(self).users == old(self).users,
            final(self).contests == old(self).contests,
            final(self).participations == old(self).participations,
            final(self).contest_problems == old(self).contest_problems,
            final(self).problems == old(self).problems,
            final(self).subtasks == old(self).subtasks,
            final(self).tests == old(self).tests,
            final(self).subtask_tests == old(self).subtask_tests,
            final(self).submissions == old(self).submissions,
            final(self).subtask_results == old(self).subtask_results,
            final(self).test_results == old(self).test_results,
            final(self).scores == old(self).scores,
            final(self).next_user_id == old(self).next_user_id,
            final(self).next_contest_id == old(self).next_contest_id,
            final(self).next_problem_id == old(self).next_problem_id,
            final(self).next_subtask_id == old(self).next_subtask_id,
            final(self).next_test_id == old(self).next_test_id,
            final(self).next_submission_id == old(self).next_submission_id,
    {
        let ghost keep = |r: TokenRow| r.token@ != token@;
        let mut rest = self.tokens.split_off(0);
        let ghost all = rest@;
        proof {
            assert(all =~= old(self).tokens@);
        }
        let total: usize = rest.len();
        let mut kept: Vec<TokenRow> = Vec::new();
        let mut k: usize = 0;
        while rest.len() > 0
            invariant
                total as int == all.len(),
                k <= total,
                keep == (|r: TokenRow| r.token@ != token@),
                k + rest@.len() == all.len(),
                rest@ == all.skip(k as int),
                kept@ == filter_by(all.take(k as int), keep),
            decreases rest@.len(),
        {
            proof {
                crate::seqtools::lemma_take_step(all, k as int);
                assert(all.skip(k as int)[0] == all[k as int]);
            }
            let row = rest.remove(0);
            proof {
                assert(rest@ =~= all.skip(k + 1));
            }
            if !crate::text::str_eq(row.token.as_str(), token) {
                kept.push(row);
            }
            k = k + 1;
        }
        proof {
            assert(all.take(k as int) =~= all);
        }
        self.tokens = kept;
    }

    /// Forget every login token of one user.
    pub fn delete_all_tokens_for_user(&mut self, user_id: UserId)
        requires
            old(self).wf(),
        ensures
            final(self).wf(),
            final(self).tokens@ == filter_by(old(self).tokens@, |r: TokenRow| r.user_id != user_id),
            final(self).users == old(self).users,
            final(self).contests == old(self).contests,
            final(self).participations == old(self).participations,
            final(self).contest_problems == old(self).contest_problems,
            final(self).problems == old(self).problems,
            final(self).subtasks == old(self).subtasks,
            final(self).tests == old(self).tests,
            final(self).subtask_tests == old(self).subtask_tests,
            final(self).submissions == old(self).submissions,
            final(self).subtask_results == old(self).subtask_results,
            final(self).test_results == old(self).test_results,
            final(self).scores == old(self).scores,
            final(self).next_user_id == old(self).next_user_id,
            final(self).next_contest_id == old(self).next_contest_id,
            final(self).next_problem_id == old(self).next_problem_id,
            final(self).next_subtask_id == old(self).next_subtask_id,
            final(self).next_test_id == old(self).next_test_id,
            final(self).next_submission_id == old(self).next_submission_id,
    {
        let ghost keep = |r: TokenRow| r.user_id != user_id;
        let mut rest = self.tokens.split_off(0);
        let ghost all = rest@;
        proof {
            assert(all =~= old(self).tokens@);
        }
        let total: usize = rest.len();
        let mut kept: Vec<TokenRow> = Vec::new();
        let mut k: usize = 0;
        while rest.len() > 0
            invariant
                total as int == all.len(),
                k <= total,
                keep == (|r: TokenRow| r.user_id != user_id),
                k + rest@.len() == all.len(),
                rest@ == all.skip(k as int),
                kept@ == filter_by(all.take(k as int), keep),
            decreases rest@.len(),
        {
            proof {
                crate::seqtools::lemma_take_step(all, k as int);
                assert(all.skip(k as int)[0] == all[k as int]);
            }
            let row = rest.remove(0);
            proof {
                assert(rest@ =~= all.skip(k + 1));
            }
            if row.user_id != user_id {
                kept.push(row);
            }
            k = k + 1;
        }
        proof {
            assert(all.take(k as int) =~= all);
        }
        self.tokens = kept;
    }

    /// Create a contest. The name must be new.
    pub fn add_contest(&mut self, contest_name: &str) -> (r: Result<ContestId, StoreError>)
        requires
            old(self).wf(),
        ensures
            final(self).wf(),
            match r {
                Ok(id) => {
                    &&& id == old(self).next_contest_id
                    &&& final(self).next_contest_id == old(self).next_contest_id + 1
                    &&& final(self).contests@.len() == old(self).contests@.len() + 1
                    &&& final(self).contests@.drop_last() == old(self).contests@
                    &&& final(self).contests@.last().contest_id == id
                    &&& final(self).contests@.last().contest_name@ == contest_name@
                },
                Err(e) => {
                    &&& *final(self) == *old(self)
                    &&& (e == StoreError::Duplicate || e == StoreError::Overflow)
                    &&& (e == StoreError::Duplicate <==> find_first(
                        old(self).contests@,
                        p_contest_name(contest_name@),
                    ) is Some)
                    &&& (e == StoreError::Overflow ==> old(self).next_contest_id == i32::MAX)
                },
            },
            final(self).users == old(self).users,
            final(self).tokens == old(self).tokens,
            final(self).participations == old(self).participations,
            final(self).contest_problems == old(self).contest_problems,
            final(self).problems == old(self).problems,
            final(self).subtasks == old(self).subtasks,
            final(self).tests == old(self).tests,
            final(self).subtask_tests == old(self).subtask_tests,
            final(self).submissions == old(self).submissions,
            final(self).subtask_results == old(self).subtask_results,
            final(self).test_results == old(self).test_results,
            final(self).scores == old(self).scores,
    {
        if self.get_contest_from_name(contest_name).is_some() {
            return Err(StoreError::Duplicate);
        }
        proof {
            lemma_find_first_props(self.contests@, p_contest_name(contest_name@));
        }
        if self.next_contest_id == i32::MAX {
            return Err(StoreError::Overflow);
        }
        let id = self.next_contest_id;
        self.contests.push(
            ContestRow { contest_id: id, contest_name: String::from_str(contest_name) },
        );
        self.next_contest_id = id + 1;
        Ok(id)
    }

    /// Enter a user into a contest; entering twice is harmless.
    pub fn add_user_to_contest(&mut self, user_id: UserId, contest_id: ContestId) -> (r: Result<
        (),
        StoreError,
    >)
        requires
            old(self).wf(),
        ensures
            final(self).wf(),
            match r {
                Ok(_) => {
                    &&& find_first(old(self).users@, p_user_id(user_id)) is Some
                    &&& find_first(old(self).contests@, p_contest_id(contest_id)) is Some
                    &&& find_first(final(self).participations@, p_participation(contest_id, user_id))
                        is Some
                    &&& (if find_first(
                        old(self).participations@,
                        p_participation(contest_id, user_id),
                    ) is Some {
                        final(self).participations@ == old(self).participations@
                    } else {
                        final(self).participations@ == old(self).participations@.push(
                            ParticipationRow { contest_id, user_id },
                        )
                    })
                },
                Err(e) => {
                    &&& *final(self) == *old(self)
                    &&& e == StoreError::NotFound
                    &&& (find_first(old(self).users@, p_user_id(user_id)) is None || find_first(
                        old(self).contests@,
                        p_contest_id(contest_id),
                    ) is None)
                },
            },
            final(self).users == old(self).users,
            final(self).tokens == old(self).tokens,
            final(self).contests == old(self).contests,
            final(self).contest_problems == old(self).contest_problems,
            final(self).problems == old(self).problems,
            final(self).subtasks == old(self).subtasks,
            final(self).tests == old(self).tests,
            final(self).subtask_tests == old(self).subtask_tests,
            final(self).submissions == old(self).submissions,
            final(self).subtask_results == old(self).subtask_results,
            final(self).test_results == old(self).test_results,
            final(self).scores == old(self).scores,
    {
        if self.find_user_idx(user_id).is_none() {
            return Err(StoreError::NotFound);
        }
        if self.find_contest_idx(contest_id).is_none() {
            return Err(StoreError::NotFound);
        }
        if self.is_user_in_contest(user_id, contest_id) {
            return Ok(());
        }
        proof {
            lemma_find_first_props(
                self.participations@,
                p_participation(contest_id, user_id),
            );
        }
        self.participations.push(ParticipationRow { contest_id, user_id });
        proof {
            crate::seqtools::lemma_find_first_push(
                old(self).participations@,
                ParticipationRow { contest_id, user_id },
                p_participation(contest_id, user_id),
            );
        }
        Ok(())
    }

    /// Take a user out of a contest; absent membership is harmless.
    pub fn remove_user_from_contest(&mut self, user_id: UserId, contest_id: ContestId)
        requires
            old(self).wf(),
        ensures
            final(self).wf(),
            final(self).participations@ == filter_by(
                old(self).participations@,
                |r: ParticipationRow| !(r.contest_id == contest_id && r.user_id == user_id),
            ),
            final(self).users == old(self).users,
            final(self).tokens == old(self).tokens,
            final(self).contests == old(self).contests,
            final(self).contest_problems == old(self).contest_problems,
            final(self).problems == old(self).problems,
            final(self).subtasks == old(self).subtasks,
            final(self).tests == old(self).tests,
            final(self).subtask_tests == old(self).subtask_tests,
            final(self).submissions == old(self).submissions,
            final(self).subtask_results == old(self).subtask_results,
            final(self).test_results == old(self).test_results,
            final(self).scores == old(self).scores,
            final(self).next_user_id == old(self).next_user_id,
            final(self).next_contest_id == old(self).next_contest_id,
            final(self).next_problem_id == old(self).next_problem_id,
            final(self).next_subtask_id == old(self).next_subtask_id,
            final(self).next_test_id == old(self).next_test_id,
            final(self).next_submission_id == old(self).next_submission_id,
    {
        let ghost keep = |r: ParticipationRow|
            !(r.contest_id == contest_id && r.user_id == user_id);
        let mut rest = self.participations.split_off(0);
        let ghost all = rest@;
        proof {
            assert(all =~= old(self).participations@);
        }
        let total: usize = rest.len();
        let mut kept: Vec<ParticipationRow> = Vec::new();
        let mut k: usize = 0;
        while rest.len() > 0
            invariant
                total as int == all.len(),
                k <= total,
                keep == (|r: ParticipationRow|
                    !(r.contest_id == contest_id && r.user_id == user_id)),
                k + rest@.len() == all.len(),
                rest@ == all.skip(k as int),
                kept@ == filter_by(all.take(k as int), keep),
            decreases rest@.len(),
        {
            proof {
                crate::seqtools::lemma_take_step(all, k as int);
                assert(all.skip(k as int)[0] == all[k as int]);
            }
            let row = rest.remove(0);
            proof {
                assert(rest@ =~= all.skip(k + 1));
            }
            if !(row.contest_id == contest_id && row.user_id == user_id) {
                kept.push(row);
            }
            k = k + 1;
        }
        proof {
            assert(all.take(k as int) =~= all);
            lemma_filter_pairwise(
                all,
                keep,
                |a: ParticipationRow, b: ParticipationRow|
                    !(a.contest_id == b.contest_id && a.user_id == b.user_id),
            );
        }
        self.participations = kept;
    }

    /// Take a user out of every contest.
    pub fn remove_user_from_all_contests(&mut self, user_id: UserId)
        requires
            old(self).wf(),
        ensures
            final(self).wf(),
            final(self).participations@ == filter_by(
                old(self).participations@,
                |r: ParticipationRow| r.user_id != user_id,
            ),
            final(self).users == old(self).users,
            final(self).tokens == old(self).tokens,
            final(self).contests == old(self).contests,
            final(self).contest_problems == old(self).contest_problems,
            final(self).problems == old(self).problems,
            final(self).subtasks == old(self).subtasks,
            final(self).tests == old(self).tests,
            final(self).subtask_tests == old(self).subtask_tests,
            final(self).submissions == old(self).submissions,
            final(self).subtask_results == old(self).subtask_results,
            final(self).test_results == old(self).test_results,
            final(self).scores == old(self).scores,
            final(self).next_user_id == old(self).next_user_id,
            final(self).next_contest_id == old(self).next_contest_id,
            final(self).next_problem_id == old(self).next_problem_id,
            final(self).next_subtask_id == old(self).next_subtask_id,
            final(self).next_test_id == old(self).next_test_id,
            final(self).next_submission_id == old(self).next_submission_id,
    {
        let ghost keep = |r: ParticipationRow| r.user_id != user_id;
        let mut rest = self.participations.split_off(0);
        let ghost all = rest@;
        proof {
            assert(all =~= old(self).participations@);
        }
        let total: usize = rest.len();
        let mut kept: Vec<ParticipationRow> = Vec::new();
        let mut k: usize = 0;
        while rest.len() > 0
            invariant
                total as int == all.len(),
                k <= total,
                keep == (|r: ParticipationRow| r.user_id != user_id),
                k + rest@.len() == all.len(),
                rest@ == all.skip(k as int),
                kept@ == filter_by(all.take(k as int), keep),
            decreases rest@.len(),
        {
            proof {
                crate::seqtools::lemma_take_step(all, k as int);
                assert(all.skip(k as int)[0] == all[k as int]);
            }
            let row = rest.remove(0);
            proof {
                assert(rest@ =~= all.skip(k + 1));
            }
            if row.user_id != user_id {
                kept.push(row);
            }
            k = k + 1;
        }
        proof {
            assert(all.take(k as int) =~= all);
            lemma_filter_pairwise(
                all,
                keep,
                |a: ParticipationRow, b: ParticipationRow|
                    !(a.contest_id == b.contest_id && a.user_id == b.user_id),
            );
        }
        self.participations = kept;
    }

    /// Empty a contest's membership.
    pub fn remove_all_participations_for_contest(&mut self, contest_id: ContestId)
        requires
            old(self).wf(),
        ensures
            final(self).wf(),
            final(self).participations@ == filter_by(
                old(self).participations@,
                |r: ParticipationRow| r.contest_id != contest_id,
            ),
            final(self).users == old(self).users,
            final(self).tokens == old(self).tokens,
            final(self).contests == old(self).contests,
            final(self).contest_problems == old(self).contest_problems,
            final(self).problems == old(self).problems,
            final(self).subtasks == old(self).subtasks,
            final(self).tests == old(self).tests,
            final(self).subtask_tests == old(self).subtask_tests,
            final(self).submissions == old(self).submissions,
            final(self).subtask_results == old(self).subtask_results,
            final(self).test_results == old(self).test_results,
            final(self).scores == old(self).scores,
            final(self).next_user_id == old(self).next_user_id,
            final(self).next_contest_id == old(self).next_contest_id,
            final(self).next_problem_id == old(self).next_problem_id,
            final(self).next_subtask_id == old(self).next_subtask_id,
            final(self).next_test_id == old(self).next_test_id,
            final(self).next_submission_id == old(self).next_submission_id,
    {
        let ghost keep = |r: ParticipationRow| r.contest_id != contest_id;
        let mut rest = self.participations.split_off(0);
        let ghost all = rest@;
        proof {
            assert(all =~= old(self).participations@);
        }
        let total: usize = rest.len();
        let mut kept: Vec<ParticipationRow> = Vec::new();
        let mut k: usize = 0;
        while rest.len() > 0
            invariant
                total as int == all.len(),
                k <= total,
                keep == (|r: ParticipationRow| r.contest_id != contest_id),
                k + rest@.len() == all.len(),
                rest@ == all.skip(k as int),
                kept@ == filter_by(all.take(k as int), keep),
            decreases rest@.len(),
        {
            proof {
                crate::seqtools::lemma_take_step(all, k as int);
                assert(all.skip(k as int)[0] == all[k as int]);
            }
            let row = rest.remove(0);
            proof {
                assert(rest@ =~= all.skip(k + 1));
            }
            if row.contest_id != contest_id {
                kept.push(row);
            }
            k = k + 1;
        }
        proof {
            assert(all.take(k as int) =~= all);
            lemma_filter_pairwise(
                all,
                keep,
                |a: ParticipationRow, b: ParticipationRow|
                    !(a.contest_id == b.contest_id && a.user_id == b.user_id),
            );
        }
        self.participations = kept;
    }

    /// Attach a problem to a contest. Both must exist and the link must be
    /// new.
    pub fn add_problem_to_contest(&mut self, contest_id: ContestId, problem_id: ProblemId) -> (r:
        Result<(), StoreError>)
        requires
            old(self).wf(),
        ensures
            final(self).wf(),
            match r {
                Ok(_) => final(self).contest_problems@ == old(self).contest_problems@.push(
                    ContestProblemRow { contest_id, problem_id },
                ),
                Err(e) => {
                    &&& *final(self) == *old(self)
                    &&& (e == StoreError::NotFound || e == StoreError::Duplicate)
                    &&& (e == StoreError::NotFound <==> (find_first(
                        old(self).contests@,
                        p_contest_id(contest_id),
                    ) is None || find_first(old(self).problems@, p_problem_id(problem_id))
                        is None))
                    &&& (e == StoreError::Duplicate ==> find_first(
                        old(self).contest_problems@,
                        p_contest_problem(contest_id, problem_id),
                    ) is Some)
                },
            },
            final(self).users == old(self).users,
            final(self).tokens == old(self).tokens,
            final(self).contests == old(self).contests,
            final(self).participations == old(self).participations,
            final(self).problems == old(self).problems,
            final(self).subtasks == old(self).subtasks,
            final(self).tests == old(self).tests,
            final(self).subtask_tests == old(self).subtask_tests,
            final(self).submissions == old(self).submissions,
            final(self).subtask_results == old(self).subtask_results,
            final(self).test_results == old(self).test_results,
            final(self).scores == old(self).scores,
    {
        if self.find_contest_idx(contest_id).is_none() {
            return Err(StoreError::NotFound);
        }
        if self.find_problem_idx(problem_id).is_none() {
            return Err(StoreError::NotFound);
        }
        let ghost p = p_contest_problem(contest_id, problem_id);
        let n = self.contest_problems.len();
        let mut i: usize = 0;
        while i < n
            invariant
                i <= n,
                n == self.contest_problems@.len(),
                p == p_contest_problem(contest_id, problem_id),
                find_first(self.contest_problems@.take(i as int), p) is None,
                self == old(self),
                old(self).wf(),
                find_first(old(self).contests@, p_contest_id(contest_id)) is Some,
                find_first(old(self).problems@, p_problem_id(problem_id)) is Some,
            decreases n - i,
        {
            proof {
                crate::seqtools::lemma_take_step(self.contest_problems@, i as int);
            }
            if self.contest_problems[i].contest_id == contest_id && self.contest_problems[
                i
            ].problem_id == problem_id {
                proof {
                    crate::seqtools::lemma_find_first_extend(self.contest_problems@, p, i + 1);
                }
                return Err(StoreError::Duplicate);
            }
            i = i + 1;
        }
        proof {
            assert(self.contest_problems@.take(n as int) =~= self.contest_problems@);
            lemma_find_first_props(self.contest_problems@, p);
        }
        self.contest_problems.push(ContestProblemRow { contest_id, problem_id });
        Ok(())
    }

    /// Detach every problem from a contest.
    pub fn remove_all_problems_from_contest(&mut self, contest_id: ContestId)
        requires
            old(self).wf(),
        ensures
            final(self).wf(),
            final(self).contest_problems@ == filter_by(
                old(self).contest_problems@,
                |r: ContestProblemRow| r.contest_id != contest_id,
            ),
            final(self).users == old(self).users,
            final(self).tokens == old(self).tokens,
            final(self).contests == old(self).contests,
            final(self).participations == old(self).participations,
            final(self).problems == old(self).problems,
            final(self).subtasks == old(self).subtasks,
            final(self).tests == old(self).tests,
            final(self).subtask_tests == old(self).subtask_tests,
            final(self).submissions == old(self).submissions,
            final(self).subtask_results == old(self).subtask_results,
            final(self).test_results == old(self).test_results,
            final(self).scores == old(self).scores,
            final(self).next_user_id == old(self).next_user_id,
            final(self).next_contest_id == old(self).next_contest_id,
            final(self).next_problem_id == old(self).next_problem_id,
            final(self).next_subtask_id == old(self).next_subtask_id,
            final(self).next_test_id == old(self).next_test_id,
            final(self).next_submission_id == old(self).next_submission_id,
    {
        let ghost keep = |r: ContestProblemRow| r.contest_id != contest_id;
        let mut rest = self.contest_problems.split_off(0);
        let ghost all = rest@;
        proof {
            assert(all =~= old(self).contest_problems@);
        }
        let total: usize = rest.len();
        let mut kept: Vec<ContestProblemRow> = Vec::new();
        let mut k: usize = 0;
        while rest.len() > 0
            invariant
                total as int == all.len(),
                k <= total,
                keep == (|r: ContestProblemRow| r.contest_id != contest_id),
                k + rest@.len() == all.len(),
                rest@ == all.skip(k as int),
                kept@ == filter_by(all.take(k as int), keep),
            decreases rest@.len(),
        {
            proof {
                crate::seqtools::lemma_take_step(all, k as int);
                assert(all.skip(k as int)[0] == all[k as int]);
            }
            let row = rest.remove(0);
            proof {
                assert(rest@ =~= all.skip(k + 1));
            }
            if row.contest_id != contest_id {
                kept.push(row);
            }
            k = k + 1;
        }
        proof {
            assert(all.take(k as int) =~= all);
            lemma_filter_pairwise(
                all,
                keep,
                |a: ContestProblemRow, b: ContestProblemRow|
                    !(a.contest_id == b.contest_id && a.problem_id == b.problem_id),
            );
        }
        self.contest_problems = kept;
    }

    /// Detach one problem from one contest.
    pub fn remove_problem_from_contest(&mut self, contest_id: ContestId, problem_id: ProblemId)
        requires
            old(self).wf(),
        ensures
            final(self).wf(),
            final(self).contest_problems@ == filter_by(
                old(self).contest_problems@,
                |r: ContestProblemRow| !(r.contest_id == contest_id && r.problem_id == problem_id),
            ),
            final(self).users == old(self).users,
            final(self).tokens == old(self).tokens,
            final(self).contests == old(self).contests,
            final(self).participations == old(self).participations,
            final(self).problems == old(self).problems,
            final(self).subtasks == old(self).subtasks,
            final(self).tests == old(self).tests,
            final(self).subtask_tests == old(self).subtask_tests,
            final(self).submissions == old(self).submissions,
            final(self).subtask_results == old(self).subtask_results,
            final(self).test_results == old(self).test_results,
            final(self).scores == old(self).scores,
            final(self).next_user_id == old(self).next_user_id,
            final(self).next_contest_id == old(self).next_contest_id,
            final(self).next_problem_id == old(self).next_problem_id,
            final(self).next_subtask_id == old(self).next_subtask_id,
            final(self).next_test_id == old(self).next_test_id,
            final(self).next_submission_id == old(self).next_submission_id,
    {
        let ghost keep = |r: ContestProblemRow|
            !(r.contest_id == contest_id && r.problem_id == problem_id);
        let mut rest = self.contest_problems.split_off(0);
        let ghost all = rest@;
        proof {
            assert(all =~= old(self).contest_problems@);
        }
        let total: usize = rest.len();
        let mut kept: Vec<ContestProblemRow> = Vec::new();
        let mut k: usize = 0;
        while rest.len() > 0
            invariant
                total as int == all.len(),
                k <= total,
                keep == (|r: ContestProblemRow|
                    !(r.contest_id == contest_id && r.problem_id == problem_id)),
                k + rest@.len() == all.len(),
                rest@ == all.skip(k as int),
                kept@ == filter_by(all.take(k as int), keep),
            decreases rest@.len(),
        {
            proof {
                crate::seqtools::lemma_take_step(all, k as int);
                assert(all.skip(k as int)[0] == all[k as int]);
            }
            let row = rest.remove(0);
            proof {
                assert(rest@ =~= all.skip(k + 1));
            }
            if !(row.contest_id == contest_id && row.problem_id == problem_id) {
                kept.push(row);
            }
            k = k + 1;
        }
        proof {
            assert(all.take(k as int) =~= all);
            lemma_filter_pairwise(
                all,
                keep,
                |a: ContestProblemRow, b: ContestProblemRow|
                    !(a.contest_id == b.contest_id && a.problem_id == b.problem_id),
            );
        }
        self.contest_problems = kept;
    }

    /// Forget every recorded score of one user.
    pub fn remove_user_scores(&mut self, user_id: UserId)
        requires
            old(self).wf(),
        ensures
            final(self).wf(),
            final(self).scores@ == filter_by(old(self).scores@, |r: ScoreRow| r.user_id != user_id),
            final(self).users == old(self).users,
            final(self).tokens == old(self).tokens,
            final(self).contests == old(self).contests,
            final(self).participations == old(self).participations,
            final(self).contest_problems == old(self).contest_problems,
            final(self).problems == old(self).problems,
            final(self).subtasks == old(self).subtasks,
            final(self).tests == old(self).tests,
            final(self).subtask_tests == old(self).subtask_tests,
            final(self).submissions == old(self).submissions,
            final(self).subtask_results == old(self).subtask_results,
            final(self).test_results == old(self).test_results,
            final(self).next_user_id == old(self).next_user_id,
            final(self).next_contest_id == old(self).next_contest_id,
            final(self).next_problem_id == old(self).next_problem_id,
            final(self).next_subtask_id == old(self).next_subtask_id,
            final(self).next_test_id == old(self).next_test_id,
            final(self).next_submission_id == old(self).next_submission_id,
    {
        let ghost keep = |r: ScoreRow| r.user_id != user_id;
        let mut rest = self.scores.split_off(0);
        let ghost all = rest@;
        proof {
            assert(all =~= old(self).scores@);
        }
        let total: usize = rest.len();
        let mut kept: Vec<ScoreRow> = Vec::new();
        let mut k: usize = 0;
        while rest.len() > 0
            invariant
                total as int == all.len(),
                k <= total,
                keep == (|r: ScoreRow| r.user_id != user_id),
                k + rest@.len() == all.len(),
                rest@ == all.skip(k as int),
                kept@ == filter_by(all.take(k as int), keep),
            decreases rest@.len(),
        {
            proof {
                crate::seqtools::lemma_take_step(all, k as int);
                assert(all.skip(k as int)[0] == all[k as int]);
            }
            let row = rest.remove(0);
            proof {
                assert(rest@ =~= all.skip(k + 1));
            }
            if row.user_id != user_id {
                kept.push(row);
            }
            k = k + 1;
        }
        proof {
            assert(all.take(k as int) =~= all);
            lemma_filter_pairwise(
                all,
                keep,
                |a: ScoreRow, b: ScoreRow| !(a.user_id == b.user_id && a.problem_id == b.problem_id),
            );
            crate::seqtools::lemma_filter_all_keep(all, keep);
            crate::seqtools::lemma_filter_contains(all, keep);
        }
        self.scores = kept;
    }
}

} // verus!

verus! {

/// Dropping the submissions of one user — and exactly their result rows —
/// preserves the store invariant.
proof fn lemma_delete_user_submissions_wf(pre: Store, post: Store, user_id: UserId)
    requires
        pre.wf(),
        post.users == pre.users,
        post.tokens == pre.tokens,
        post.contests == pre.contests,
        post.participations == pre.participations,
        post.contest_problems == pre.contest_problems,
        post.problems == pre.problems,
        post.subtasks == pre.subtasks,
        post.tests == pre.tests,
        post.subtask_tests == pre.subtask_tests,
        post.scores == pre.scores,
        post.next_user_id == pre.next_user_id,
        post.next_contest_id == pre.next_contest_id,
        post.next_problem_id == pre.next_problem_id,
        post.next_subtask_id == pre.next_subtask_id,
        post.next_test_id == pre.next_test_id,
        post.next_submission_id == pre.next_submission_id,
        post.submissions@ == filter_by(
            pre.submissions@,
            |row: crate::store::SubmissionRow| row.user_id != user_id,
        ),
        post.subtask_results@ == filter_by(
            pre.subtask_results@,
            |row: crate::store::SubtaskResultRow|
                match find_first(
                    pre.submissions@,
                    crate::store::p_submission_id(row.submission_id),
                ) {
                    Some(s) => s.user_id != user_id,
                    None => true,
                },
        ),
        post.test_results@ == filter_by(
            pre.test_results@,
            |row: crate::store::TestResultRow|
                match find_first(
                    pre.submissions@,
                    crate::store::p_submission_id(row.submission_id),
                ) {
                    Some(s) => s.user_id != user_id,
                    None => true,
                },
        ),
    ensures
        post.wf(),
{
    let keep_sub = |row: crate::store::SubmissionRow| row.user_id != user_id;
    let keep_sr = |row: crate::store::SubtaskResultRow|
        match find_first(pre.submissions@, crate::store::p_submission_id(row.submission_id)) {
            Some(s) => s.user_id != user_id,
            None => true,
        };
    let keep_tr = |row: crate::store::TestResultRow|
        match find_first(pre.submissions@, crate::store::p_submission_id(row.submission_id)) {
            Some(s) => s.user_id != user_id,
            None => true,
        };
    crate::seqtools::lemma_filter_all_keep(pre.submissions@, keep_sub);
    crate::seqtools::lemma_filter_contains(pre.submissions@, keep_sub);
    crate::seqtools::lemma_filter_contains(pre.subtask_results@, keep_sr);
    crate::seqtools::lemma_filter_contains(pre.test_results@, keep_tr);
    assert forall|i: int| 0 <= i < post.submissions@.len() implies 1 <= (
    #[trigger] post.submissions@[i]).submission_id < post.next_submission_id by {
        assert(pre.submissions@.contains(post.submissions@[i]));
        let w = choose|w: int|
            0 <= w < pre.submissions@.len() && pre.submissions@[w] == post.submissions@[i];
        assert(1 <= pre.submissions@[w].submission_id < pre.next_submission_id);
    };
    assert forall|i: int| 0 <= i < post.subtask_results@.len() implies 1 <= (
    #[trigger] post.subtask_results@[i]).submission_id < post.next_submission_id && 1
        <= post.subtask_results@[i].subtask_id < post.next_subtask_id && match post.subtask_results@[
        i
    ].points {
        Some(p) => p == 0 || (find_first(
            post.subtasks@,
            crate::store::p_subtask_id(post.subtask_results@[i].subtask_id),
        ) matches Some(st) && p == st.subtask_score),
        None => true,
    } by {
        assert(pre.subtask_results@.contains(post.subtask_results@[i]));
        let w = choose|w: int|
            0 <= w < pre.subtask_results@.len() && pre.subtask_results@[w]
                == post.subtask_results@[i];
        assert(1 <= pre.subtask_results@[w].submission_id < pre.next_submission_id);
    };
    assert forall|i: int| 0 <= i < post.test_results@.len() implies 1 <= (
    #[trigger] post.test_results@[i]).submission_id < post.next_submission_id by {
        assert(pre.test_results@.contains(post.test_results@[i]));
        let w = choose|w: int|
            0 <= w < pre.test_results@.len() && pre.test_results@[w] == post.test_results@[i];
        assert(1 <= pre.test_results@[w].submission_id < pre.next_submission_id);
    };
    assert(post.wf_id_bounds());
    crate::seqtools::lemma_filter_pairwise(
        pre.submissions@,
        keep_sub,
        |a: crate::store::SubmissionRow, b: crate::store::SubmissionRow|
            a.submission_id != b.submission_id,
    );
    crate::seqtools::lemma_filter_pairwise(
        pre.subtask_results@,
        keep_sr,
        |a: crate::store::SubtaskResultRow, b: crate::store::SubtaskResultRow|
            !(a.submission_id == b.submission_id && a.subtask_id == b.subtask_id),
    );
    crate::seqtools::lemma_filter_pairwise(
        pre.test_results@,
        keep_tr,
        |a: crate::store::TestResultRow, b: crate::store::TestResultRow|
            !(a.submission_id == b.submission_id && a.test_id == b.test_id),
    );
    assert(post.wf_unique());
    assert(post.wf_scoring());
    assert forall|j: int| 0 <= j < post.submissions@.len() implies {
        let sub = #[trigger] post.submissions@[j];
        &&& crate::store::submission_test_ids(post.test_results@, sub.submission_id)
            == crate::store::problem_test_ids(post.tests@, sub.problem_id)
        &&& crate::store::submission_subtask_ids(post.subtask_results@, sub.submission_id)
            == crate::store::problem_subtask_ids(post.subtasks@, sub.problem_id)
        &&& 0 <= sub.tests_done <= crate::store::submission_test_ids(
            post.test_results@,
            sub.submission_id,
        ).len()
        &&& (crate::verdict::is_terminal(sub.result) && sub.result
            != crate::verdict::TestingResult::CompilationError ==> (sub.tests_done as int
            == crate::store::submission_test_ids(post.test_results@, sub.submission_id).len()
            && sub.points is Some))
        &&& match sub.points {
            Some(p) => p as int == crate::store::submission_points_sum(
                post.subtask_results@,
                sub.submission_id,
            ),
            None => true,
        }
    } by {
        let sub = post.submissions@[j];
        let sid2 = sub.submission_id;
        assert(pre.submissions@.contains(sub));
        let w = choose|w: int|
            0 <= w < pre.submissions@.len() && pre.submissions@[w] == sub;
        assert(sub.user_id != user_id);
        assert forall|i: int|
            0 <= i < pre.test_results@.len() && (#[trigger] pre.test_results@[i]).submission_id
                == sid2 implies keep_tr(pre.test_results@[i]) by {
            crate::seqtools::lemma_find_first_some(
                pre.submissions@,
                crate::store::p_submission_id(sid2),
                w,
            );
            crate::seqtools::lemma_find_first_props(
                pre.submissions@,
                crate::store::p_submission_id(sid2),
            );
            let found = find_first(
                pre.submissions@,
                crate::store::p_submission_id(sid2),
            ).unwrap();
            let wf2 = choose|v: int|
                0 <= v < pre.submissions@.len() && pre.submissions@[v] == found;
            assert(found.submission_id == sid2);
            assert(found == sub) by {
                if found != sub {
                    assert(pre.submissions@[wf2].submission_id == pre.submissions@[
                        w
                    ].submission_id);
                    assert(wf2 != w);
                }
            }
        };
        crate::seqtools::lemma_proj_filter(
            pre.test_results@,
            keep_tr,
            |x: crate::store::TestResultRow| x.submission_id == sid2,
            |x: crate::store::TestResultRow| x.test_id,
        );
        assert forall|i: int|
            0 <= i < pre.subtask_results@.len() && (#[trigger] pre.subtask_results@[
            i
        ]).submission_id == sid2 implies keep_sr(pre.subtask_results@[i]) by {
            crate::seqtools::lemma_find_first_some(
                pre.submissions@,
                crate::store::p_submission_id(sid2),
                w,
            );
            crate::seqtools::lemma_find_first_props(
                pre.submissions@,
                crate::store::p_submission_id(sid2),
            );
            let found = find_first(
                pre.submissions@,
                crate::store::p_submission_id(sid2),
            ).unwrap();
            let wf2 = choose|v: int|
                0 <= v < pre.submissions@.len() && pre.submissions@[v] == found;
            assert(found == sub) by {
                if found != sub {
                    assert(wf2 != w);
                }
            }
        };
        crate::seqtools::lemma_proj_filter(
            pre.subtask_results@,
            keep_sr,
            |x: crate::store::SubtaskResultRow| x.submission_id == sid2,
            |x: crate::store::SubtaskResultRow| x.subtask_id,
        );
        let ids = crate::store::submission_subtask_ids(pre.subtask_results@, sid2);
        assert forall|m: int| 0 <= m < ids.len() implies crate::store::points_of(
            post.subtask_results@,
            sid2,
            #[trigger] ids[m],
        ) == crate::store::points_of(pre.subtask_results@, sid2, ids[m]) by {
            crate::seqtools::lemma_find_first_filter(
                pre.subtask_results@,
                keep_sr,
                crate::store::p_subtask_result(sid2, ids[m]),
            );
        };
        crate::store_grading::lemma_sum_points_congruent_pub(
            pre.subtask_results@,
            post.subtask_results@,
            sid2,
            ids,
        );
    };
    assert(post.wf_submissions());
}

} // verus!

verus! {

impl Store {
    /// Delete every submission of one user, together with its result rows.
    pub fn delete_all_submissions_for_user(&mut self, user_id: UserId)
        requires
            old(self).wf(),
        ensures
            final(self).wf(),
            final(self).users == old(self).users,
            final(self).tokens == old(self).tokens,
            final(self).contests == old(self).contests,
            final(self).participations == old(self).participations,
            final(self).contest_problems == old(self).contest_problems,
            final(self).problems == old(self).problems,
            final(self).subtasks == old(self).subtasks,
            final(self).tests == old(self).tests,
            final(self).subtask_tests == old(self).subtask_tests,
            final(self).scores == old(self).scores,
            final(self).submissions@ == filter_by(
                old(self).submissions@,
                |row: crate::store::SubmissionRow| row.user_id != user_id,
            ),
            final(self).subtask_results@ == filter_by(
                old(self).subtask_results@,
                |row: crate::store::SubtaskResultRow|
                    match find_first(
                        old(self).submissions@,
                        crate::store::p_submission_id(row.submission_id),
                    ) {
                        Some(s) => s.user_id != user_id,
                        None => true,
                    },
            ),
            final(self).test_results@ == filter_by(
                old(self).test_results@,
                |row: crate::store::TestResultRow|
                    match find_first(
                        old(self).submissions@,
                        crate::store::p_submission_id(row.submission_id),
                    ) {
                        Some(s) => s.user_id != user_id,
                        None => true,
                    },
            ),
            final(self).next_user_id == old(self).next_user_id,
            final(self).next_contest_id == old(self).next_contest_id,
            final(self).next_problem_id == old(self).next_problem_id,
            final(self).next_subtask_id == old(self).next_subtask_id,
            final(self).next_test_id == old(self).next_test_id,
            final(self).next_submission_id == old(self).next_submission_id,
    {
        let ghost pre = *self;
        let ghost keep_sr = |row: crate::store::SubtaskResultRow|
            match find_first(
                pre.submissions@,
                crate::store::p_submission_id(row.submission_id),
            ) {
                Some(s) => s.user_id != user_id,
                None => true,
            };
        let mut rest_sr = self.subtask_results.split_off(0);
        let ghost all_sr = rest_sr@;
        proof {
            assert(all_sr =~= pre.subtask_results@);
        }
        let total_sr: usize = rest_sr.len();
        let mut kept_sr: Vec<crate::store::SubtaskResultRow> = Vec::new();
        let mut k: usize = 0;
        while rest_sr.len() > 0
            invariant
                pre.submissions == self.submissions,
                keep_sr == (|row: crate::store::SubtaskResultRow|
                    match find_first(
                        pre.submissions@,
                        crate::store::p_submission_id(row.submission_id),
                    ) {
                        Some(s) => s.user_id != user_id,
                        None => true,
                    }),
                total_sr as int == all_sr.len(),
                k <= total_sr,
                k + rest_sr@.len() == all_sr.len(),
                rest_sr@ == all_sr.skip(k as int),
                kept_sr@ == filter_by(all_sr.take(k as int), keep_sr),
            decreases rest_sr@.len(),
        {
            proof {
                crate::seqtools::lemma_take_step(all_sr, k as int);
                assert(all_sr.skip(k as int)[0] == all_sr[k as int]);
            }
            let row = rest_sr.remove(0);
            proof {
                assert(rest_sr@ =~= all_sr.skip(k + 1));
            }
            let keep_it = match self.find_submission_idx(row.submission_id) {
                Some(si) => self.submissions[si].user_id != user_id,
                None => true,
            };
            if keep_it {
                kept_sr.push(row);
            }
            k = k + 1;
        }
        proof {
            assert(all_sr.take(k as int) =~= all_sr);
        }
        self.subtask_results = kept_sr;

        let ghost keep_tr = |row: crate::store::TestResultRow|
            match find_first(
                pre.submissions@,
                crate::store::p_submission_id(row.submission_id),
            ) {
                Some(s) => s.user_id != user_id,
                None => true,
            };
        let mut rest_tr = self.test_results.split_off(0);
        let ghost all_tr = rest_tr@;
        proof {
            assert(all_tr =~= pre.test_results@);
        }
        let total_tr: usize = rest_tr.len();
        let mut kept_tr: Vec<crate::store::TestResultRow> = Vec::new();
        let mut k2: usize = 0;
        while rest_tr.len() > 0
            invariant
                pre.submissions == self.submissions,
                keep_tr == (|row: crate::store::TestResultRow|
                    match find_first(
                        pre.submissions@,
                        crate::store::p_submission_id(row.submission_id),
                    ) {
                        Some(s) => s.user_id != user_id,
                        None => true,
                    }),
                total_tr as int == all_tr.len(),
                k2 <= total_tr,
                k2 + rest_tr@.len() == all_tr.len(),
                rest_tr@ == all_tr.skip(k2 as int),
                kept_tr@ == filter_by(all_tr.take(k2 as int), keep_tr),
            decreases rest_tr@.len(),
        {
            proof {
                crate::seqtools::lemma_take_step(all_tr, k2 as int);
                assert(all_tr.skip(k2 as int)[0] == all_tr[k2 as int]);
            }
            let row = rest_tr.remove(0);
            proof {
                assert(rest_tr@ =~= all_tr.skip(k2 + 1));
            }
            let keep_it = match self.find_submission_idx(row.submission_id) {
                Some(si) => self.submissions[si].user_id != user_id,
                None => true,
            };
            if keep_it {
                kept_tr.push(row);
            }
            k2 = k2 + 1;
        }
        proof {
            assert(all_tr.take(k2 as int) =~= all_tr);
        }
        self.test_results = kept_tr;

        let ghost keep_sub = |row: crate::store::SubmissionRow| row.user_id != user_id;
        let mut rest_sub = self.submissions.split_off(0);
        let ghost all_sub = rest_sub@;
        proof {
            assert(all_sub =~= pre.submissions@);
        }
        let total_sub: usize = rest_sub.len();
        let mut kept_sub: Vec<crate::store::SubmissionRow> = Vec::new();
        let mut k3: usize = 0;
        while rest_sub.len() > 0
            invariant
                keep_sub == (|row: crate::store::SubmissionRow| row.user_id != user_id),
                total_sub as int == all_sub.len(),
                k3 <= total_sub,
                k3 + rest_sub@.len() == all_sub.len(),
                rest_sub@ == all_sub.skip(k3 as int),
                kept_sub@ == filter_by(all_sub.take(k3 as int), keep_sub),
            decreases rest_sub@.len(),
        {
            proof {
                crate::seqtools::lemma_take_step(all_sub, k3 as int);
                assert(all_sub.skip(k3 as int)[0] == all_sub[k3 as int]);
            }
            let row = rest_sub.remove(0);
            proof {
                assert(rest_sub@ =~= all_sub.skip(k3 + 1));
            }
            if row.user_id != user_id {
                kept_sub.push(row);
            }
            k3 = k3 + 1;
        }
        proof {
            assert(all_sub.take(k3 as int) =~= all_sub);
        }
        self.submissions = kept_sub;
        proof {
            lemma_delete_user_submissions_wf(pre, *self, user_id);
        }
    }

    /// Delete a user outright: sessions, contest memberships, submissions
    /// with their results, recorded scores, and the account itself.
    #[verifier::rlimit(60)]
    pub fn delete_user(&mut self, user_id: UserId)
        requires
            old(self).wf(),
        ensures
            final(self).wf(),
            find_first(final(self).users@, p_user_id(user_id)) is None,
            final(self).users@ == filter_by(
                old(self).users@,
                |row: UserRow| row.user_id != user_id,
            ),
            final(self).submissions@ == filter_by(
                old(self).submissions@,
                |row: crate::store::SubmissionRow| row.user_id != user_id,
            ),
            final(self).tokens@ == filter_by(
                old(self).tokens@,
                |row: TokenRow| row.user_id != user_id,
            ),
            final(self).participations@ == filter_by(
                old(self).participations@,
                |row: ParticipationRow| row.user_id != user_id,
            ),
            final(self).scores@ == filter_by(
                old(self).scores@,
                |row: ScoreRow| row.user_id != user_id,
            ),
            final(self).subtask_results@ == filter_by(
                old(self).subtask_results@,
                |row: crate::store::SubtaskResultRow|
                    match find_first(
                        old(self).submissions@,
                        crate::store::p_submission_id(row.submission_id),
                    ) {
                        Some(s) => s.user_id != user_id,
                        None => true,
                    },
            ),
            final(self).test_results@ == filter_by(
                old(self).test_results@,
                |row: crate::store::TestResultRow|
                    match find_first(
                        old(self).submissions@,
                        crate::store::p_submission_id(row.submission_id),
                    ) {
                        Some(s) => s.user_id != user_id,
                        None => true,
                    },
            ),
            final(self).contests == old(self).contests,
            final(self).contest_problems == old(self).contest_problems,
            final(self).problems == old(self).problems,
            final(self).subtasks == old(self).subtasks,
            final(self).tests == old(self).tests,
            final(self).subtask_tests == old(self).subtask_tests,
            final(self).next_user_id == old(self).next_user_id,
    {
        self.delete_all_tokens_for_user(user_id);
        self.remove_user_from_all_contests(user_id);
        self.delete_all_submissions_for_user(user_id);
        self.remove_user_scores(user_id);
        let ghost mid = *self;
        let ghost keep_u = |row: UserRow| row.user_id != user_id;
        let mut rest_u = self.users.split_off(0);
        let ghost all_u = rest_u@;
        proof {
            assert(all_u =~= mid.users@);
            assert(all_u =~= old(self).users@);
        }
        let total_u: usize = rest_u.len();
        let mut kept_u: Vec<UserRow> = Vec::new();
        let mut k: usize = 0;
        while rest_u.len() > 0
            invariant
                keep_u == (|row: UserRow| row.user_id != user_id),
                total_u as int == all_u.len(),
                k <= total_u,
                k + rest_u@.len() == all_u.len(),
                rest_u@ == all_u.skip(k as int),
                kept_u@ == filter_by(all_u.take(k as int), keep_u),
            decreases rest_u@.len(),
        {
            proof {
                crate::seqtools::lemma_take_step(all_u, k as int);
                assert(all_u.skip(k as int)[0] == all_u[k as int]);
            }
            let row = rest_u.remove(0);
            proof {
                assert(rest_u@ =~= all_u.skip(k + 1));
            }
            if row.user_id != user_id {
                kept_u.push(row);
            }
            k = k + 1;
        }
        proof {
            assert(all_u.take(k as int) =~= all_u);
        }
        self.users = kept_u;
        proof {
            crate::seqtools::lemma_filter_all_keep(all_u, keep_u);
            crate::seqtools::lemma_filter_contains(all_u, keep_u);
            crate::seqtools::lemma_find_first_props(self.users@, p_user_id(user_id));
            if find_first(self.users@, p_user_id(user_id)) is Some {
                let x = find_first(self.users@, p_user_id(user_id)).unwrap();
                let w = choose|w: int| 0 <= w < self.users@.len() && self.users@[w] == x;
                assert(keep_u(self.users@[w]));
                assert(false);
            }
            assert forall|i: int| 0 <= i < self.users@.len() implies 1 <= (
            #[trigger] self.users@[i]).user_id < self.next_user_id by {
                assert(all_u.contains(self.users@[i]));
                let w = choose|w: int| 0 <= w < all_u.len() && all_u[w] == self.users@[i];
                assert(1 <= all_u[w].user_id < mid.next_user_id);
            };
            crate::seqtools::lemma_filter_pairwise(
                all_u,
                keep_u,
                |a: UserRow, b: UserRow| a.user_id != b.user_id && a.username@ != b.username@,
            );
            assert(self.wf_id_bounds());
            assert(self.wf_unique());
            assert(self.wf_scoring());
            assert(self.wf_submissions());
        }
    }

    /// Create a user under this name, deleting any existing account of the
    /// same name first.
    pub fn add_user_override(&mut self, username: &str, password: &str, is_admin: bool) -> (r:
        Result<UserId, StoreError>)
        requires
            old(self).wf(),
        ensures
            final(self).wf(),
            final(self).contests == old(self).contests,
            final(self).contest_problems == old(self).contest_problems,
            final(self).problems == old(self).problems,
            final(self).subtasks == old(self).subtasks,
            final(self).tests == old(self).tests,
            final(self).subtask_tests == old(self).subtask_tests,
            ({
                let prior_id = replaced_user_id(old(self).users@, username@);
                let base = if find_first(old(self).users@, p_username(username@)) is Some {
                    filter_by(old(self).users@, |row: UserRow| row.user_id != prior_id)
                } else {
                    old(self).users@
                };
                &&& (find_first(old(self).users@, p_username(username@)) is Some ==> {
                    &&& final(self).tokens@ == filter_by(
                        old(self).tokens@,
                        |row: TokenRow| row.user_id != prior_id,
                    )
                    &&& final(self).participations@ == filter_by(
                        old(self).participations@,
                        |row: ParticipationRow| row.user_id != prior_id,
                    )
                    &&& final(self).scores@ == filter_by(
                        old(self).scores@,
                        |row: ScoreRow| row.user_id != prior_id,
                    )
                    &&& final(self).submissions@ == filter_by(
                        old(self).submissions@,
                        |row: crate::store::SubmissionRow| row.user_id != prior_id,
                    )
                })
                &&& (find_first(old(self).users@, p_username(username@)) is None ==> {
                    &&& final(self).tokens == old(self).tokens
                    &&& final(self).participations == old(self).participations
                    &&& final(self).scores == old(self).scores
                    &&& final(self).submissions == old(self).submissions
                })
                &&& match r {
                    Ok(id) => {
                        &&& final(self).users@.len() == base.len() + 1
                        &&& final(self).users@.drop_last() == base
                        &&& final(self).users@.last().user_id == id
                        &&& final(self).users@.last().username@ == username@
                        &&& final(self).users@.last().is_admin == is_admin
                        &&& bcrypt_matches(
                            password@,
                            final(self).users@.last().password_hash@,
                        )
                    },
                    Err(e) => {
                        &&& final(self).users@ == base
                        &&& (e == StoreError::Overflow || e == StoreError::Crypto)
                        &&& (e == StoreError::Overflow ==> old(self).next_user_id == i32::MAX)
                    },
                }
            }),
    {
        let ghost prior_id = replaced_user_id(old(self).users@, username@);
        match self.get_user_from_username(username) {
            Some(existing) => {
                proof {
                    lemma_find_first_props(old(self).users@, p_username(username@));
                }
                self.delete_user(existing);
                proof {
                    // the deleted account was the unique holder of the name,
                    // so the name is free again
                    lemma_find_first_props(self.users@, p_username(username@));
                    if let Some(x) = find_first(self.users@, p_username(username@)) {
                        let w = choose|w: int|
                            0 <= w < self.users@.len() && self.users@[w] == x;
                        crate::seqtools::lemma_filter_contains(
                            old(self).users@,
                            |row: UserRow| row.user_id != prior_id,
                        );
                        crate::seqtools::lemma_filter_all_keep(
                            old(self).users@,
                            |row: UserRow| row.user_id != prior_id,
                        );
                        let wo = choose|wo: int|
                            0 <= wo < old(self).users@.len() && old(self).users@[wo] == x;
                        let u = find_first(old(self).users@, p_username(username@)).unwrap();
                        let wp = choose|wp: int|
                            0 <= wp < old(self).users@.len() && old(self).users@[wp] == u;
                        assert(old(self).users@[wo].username@ == old(self).users@[
                            wp
                        ].username@);
                        assert(wo != wp);
                        assert(false);
                    }
                }
            },
            None => {},
        }
        self.add_user(username, password, is_admin)
    }

    /// Delete a contest: its memberships, its problem attachments, and the
    /// contest itself.
    #[verifier::rlimit(60)]
    pub fn remove_contest(&mut self, contest_id: ContestId)
        requires
            old(self).wf(),
        ensures
            final(self).wf(),
            find_first(final(self).contests@, p_contest_id(contest_id)) is None,
            final(self).contests@ == filter_by(
                old(self).contests@,
                |row: ContestRow| row.contest_id != contest_id,
            ),
            final(self).participations@ == filter_by(
                old(self).participations@,
                |row: ParticipationRow| row.contest_id != contest_id,
            ),
            final(self).contest_problems@ == filter_by(
                old(self).contest_problems@,
                |row: ContestProblemRow| row.contest_id != contest_id,
            ),
            final(self).users == old(self).users,
            final(self).tokens == old(self).tokens,
            final(self).problems == old(self).problems,
            final(self).subtasks == old(self).subtasks,
            final(self).tests == old(self).tests,
            final(self).subtask_tests == old(self).subtask_tests,
            final(self).submissions == old(self).submissions,
            final(self).subtask_results == old(self).subtask_results,
            final(self).test_results == old(self).test_results,
            final(self).scores == old(self).scores,
            final(self).next_user_id == old(self).next_user_id,
            final(self).next_contest_id == old(self).next_contest_id,
            final(self).next_problem_id == old(self).next_problem_id,
            final(self).next_subtask_id == old(self).next_subtask_id,
            final(self).next_test_id == old(self).next_test_id,
            final(self).next_submission_id == old(self).next_submission_id,
    {
        self.remove_all_participations_for_contest(contest_id);
        self.remove_all_problems_from_contest(contest_id);
        let ghost mid = *self;
        let ghost keep_c = |row: ContestRow| row.contest_id != contest_id;
        let mut rest_c = self.contests.split_off(0);
        let ghost all_c = rest_c@;
        proof {
            assert(all_c =~= mid.contests@);
        }
        let total_c: usize = rest_c.len();
        let mut kept_c: Vec<ContestRow> = Vec::new();
        let mut k: usize = 0;
        while rest_c.len() > 0
            invariant
                keep_c == (|row: ContestRow| row.contest_id != contest_id),
                total_c as int == all_c.len(),
                k <= total_c,
                k + rest_c@.len() == all_c.len(),
                rest_c@ == all_c.skip(k as int),
                kept_c@ == filter_by(all_c.take(k as int), keep_c),
            decreases rest_c@.len(),
        {
            proof {
                crate::seqtools::lemma_take_step(all_c, k as int);
                assert(all_c.skip(k as int)[0] == all_c[k as int]);
            }
            let row = rest_c.remove(0);
            proof {
                assert(rest_c@ =~= all_c.skip(k + 1));
            }
            if row.contest_id != contest_id {
                kept_c.push(row);
            }
            k = k + 1;
        }
        proof {
            assert(all_c.take(k as int) =~= all_c);
        }
        self.contests = kept_c;
        proof {
            crate::seqtools::lemma_filter_all_keep(all_c, keep_c);
            crate::seqtools::lemma_filter_contains(all_c, keep_c);
            crate::seqtools::lemma_find_first_props(
                self.contests@,
                p_contest_id(contest_id),
            );
            if find_first(self.contests@, p_contest_id(contest_id)) is Some {
                let x = find_first(self.contests@, p_contest_id(contest_id)).unwrap();
                let w = choose|w: int| 0 <= w < self.contests@.len() && self.contests@[w] == x;
                assert(keep_c(self.contests@[w]));
                assert(false);
            }
            assert forall|i: int| 0 <= i < self.contests@.len() implies 1 <= (
            #[trigger] self.contests@[i]).contest_id < self.next_contest_id by {
                assert(all_c.contains(self.contests@[i]));
                let w = choose|w: int| 0 <= w < all_c.len() && all_c[w] == self.contests@[i];
                assert(1 <= all_c[w].contest_id < mid.next_contest_id);
            };
            crate::seqtools::lemma_filter_pairwise(
                all_c,
                keep_c,
                |a: ContestRow, b: ContestRow| a.contest_id != b.contest_id && a.contest_name@
                    != b.contest_name@,
            );
            assert(self.wf_id_bounds());
            assert(self.wf_unique());
            assert(self.wf_scoring());
            assert(self.wf_submissions());
        }
    }

    /// Create a contest under this name, deleting any existing contest of
    /// the same name first.
    pub fn add_contest_override(&mut self, contest_name: &str) -> (r: Result<
        ContestId,
        StoreError,
    >)
        requires
            old(self).wf(),
        ensures
            final(self).wf(),
            final(self).users == old(self).users,
            final(self).tokens == old(self).tokens,
            final(self).problems == old(self).problems,
            final(self).subtasks == old(self).subtasks,
            final(self).tests == old(self).tests,
            final(self).subtask_tests == old(self).subtask_tests,
            final(self).submissions == old(self).submissions,
            final(self).subtask_results == old(self).subtask_results,
            final(self).test_results == old(self).test_results,
            final(self).scores == old(self).scores,
            ({
                let prior_id = replaced_contest_id(old(self).contests@, contest_name@);
                let base = if find_first(old(self).contests@, p_contest_name(contest_name@))
                    is Some {
                    filter_by(
                        old(self).contests@,
                        |row: ContestRow| row.contest_id != prior_id,
                    )
                } else {
                    old(self).contests@
                };
                &&& (find_first(old(self).contests@, p_contest_name(contest_name@)) is Some
                    ==> {
                    &&& final(self).participations@ == filter_by(
                        old(self).participations@,
                        |row: ParticipationRow| row.contest_id != prior_id,
                    )
                    &&& final(self).contest_problems@ == filter_by(
                        old(self).contest_problems@,
                        |row: ContestProblemRow| row.contest_id != prior_id,
                    )
                })
                &&& (find_first(old(self).contests@, p_contest_name(contest_name@)) is None
                    ==> {
                    &&& final(self).participations == old(self).participations
                    &&& final(self).contest_problems == old(self).contest_problems
                })
                &&& match r {
                    Ok(id) => {
                        &&& final(self).contests@.len() == base.len() + 1
                        &&& final(self).contests@.drop_last() == base
                        &&& final(self).contests@.last().contest_id == id
                        &&& final(self).contests@.last().contest_name@ == contest_name@
                    },
                    Err(e) => {
                        &&& final(self).contests@ == base
                        &&& e == StoreError::Overflow
                        &&& old(self).next_contest_id == i32::MAX
                    },
                }
            }),
    {
        let ghost prior_id = replaced_contest_id(old(self).contests@, contest_name@);
        match self.get_contest_from_name(contest_name) {
            Some(existing) => {
                proof {
                    lemma_find_first_props(old(self).contests@, p_contest_name(contest_name@));
                }
                self.remove_contest(existing);
                proof {
                    // the deleted contest was the unique holder of the name
                    lemma_find_first_props(self.contests@, p_contest_name(contest_name@));
                    if let Some(x) = find_first(self.contests@, p_contest_name(contest_name@)) {
                        let w = choose|w: int|
                            0 <= w < self.contests@.len() && self.contests@[w] == x;
                        crate::seqtools::lemma_filter_contains(
                            old(self).contests@,
                            |row: ContestRow| row.contest_id != prior_id,
                        );
                        crate::seqtools::lemma_filter_all_keep(
                            old(self).contests@,
                            |row: ContestRow| row.contest_id != prior_id,
                        );
                        let wo = choose|wo: int|
                            0 <= wo < old(self).contests@.len() && old(self).contests@[wo] == x;
                        let c = find_first(
                            old(self).contests@,
                            p_contest_name(contest_name@),
                        ).unwrap();
                        let wp = choose|wp: int|
                            0 <= wp < old(self).contests@.len() && old(self).contests@[wp] == c;
                        assert(wo != wp);
                        assert(false);
                    }
                }
            },
            None => {},
        }
        self.add_contest(contest_name)
    }
}

} // verus!

verus! {

/// The id of the account an override would replace: the holder of the
/// name, or zero — never a real id — when the name is free.
pub open spec fn replaced_user_id(users: Seq<UserRow>, username: Seq<char>) -> int {
    match find_first(users, p_username(username)) {
        Some(u) => u.user_id as int,
        None => 0,
    }
}

/// The id of the contest an override would replace: the holder of the
/// name, or zero — never a real id — when the name is free.
pub open spec fn replaced_contest_id(contests: Seq<ContestRow>, contest_name: Seq<char>) -> int {
    match find_first(contests, p_contest_name(contest_name)) {
        Some(c) => c.contest_id as int,
        None => 0,
    }
}

} // verus!
