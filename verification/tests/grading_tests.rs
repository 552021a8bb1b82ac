use cps::compare::judge_output;
use cps::store::Store;
use cps::store::StoreError;
use cps::store::SubmissionId;
use cps::verdict::TestingResult;

/// Run every test of a submission the way a worker would, with `program`
/// standing in for the sandboxed binary: it maps a test's input to the
/// printed output, or `None` for a run that hits the time limit.
fn run_submission(
    store: &mut Store,
    submission_id: SubmissionId,
    program: impl Fn(&str) -> Option<String>,
) {
    let tests = store.get_tests_for_submission(submission_id);
    let total = tests.len() as i32;
    for test_id in tests {
        store.set_test_result(submission_id, test_id, TestingResult::Testing);
        let (input, expected) = store.get_test_data(test_id).unwrap();
        let problem = store.get_submission_problem(submission_id).unwrap();
        let limit = store.get_problem_time_limit(problem).unwrap();
        let (verdict, elapsed) = match program(&input) {
            Some(output) => (judge_output(&output, &expected), 5),
            None => (TestingResult::TimeLimitExceeded, limit),
        };
        store.set_test_result(submission_id, test_id, verdict);
        store.set_test_time(submission_id, test_id, elapsed);
        let done = store.increment_submission_tests_done(submission_id).unwrap();
        if done == total {
            store.update_submission_result(submission_id).unwrap();
            let user = store.get_submission_user(submission_id).unwrap();
            store.update_user_score_for_problem(user, problem).unwrap();
        }
    }
}

/// One problem with one 30-point subtask over the two sum tests.
fn sum_problem(store: &mut Store) -> i32 {
    let problem = store.add_problem("Sum", "Print a + b.", 1000).unwrap();
    let t1 = store.add_test("1 2", "3", problem).unwrap();
    let t2 = store.add_test("5 6", "11", problem).unwrap();
    let s1 = store.add_subtask(problem, 30).unwrap();
    store.add_test_to_subtask(s1, t1).unwrap();
    store.add_test_to_subtask(s1, t2).unwrap();
    problem
}

fn sum_of(input: &str) -> i64 {
    let mut it = input.split_ascii_whitespace();
    let a: i64 = it.next().unwrap().parse().unwrap();
    let b: i64 = it.next().unwrap().parse().unwrap();
    a + b
}

#[test]
fn accepted_submission_scores_full_subtask() {
    let mut store = Store::new();
    store.add_user("solver", "pw", false).unwrap();
    let problem = sum_problem(&mut store);
    let sid = store.add_submission(1, problem, "sum source".to_string()).unwrap();
    assert_eq!(store.get_submission_result(sid).unwrap(), TestingResult::InQueue);
    store.set_submission_result(sid, TestingResult::Compiling);
    store.set_submission_result(sid, TestingResult::Testing);
    run_submission(&mut store, sid, |input| Some(sum_of(input).to_string()));
    assert_eq!(store.get_submission_result(sid).unwrap(), TestingResult::Accepted);
    assert_eq!(store.get_submission_points(sid).unwrap(), Some(30));
    for t in store.get_tests_for_submission(sid) {
        assert_eq!(store.get_test_result(sid, t).unwrap(), TestingResult::Accepted);
    }
    assert_eq!(store.get_user_score_for_problem(1, problem), 30);
}

#[test]
fn wrong_answer_scores_nothing() {
    let mut store = Store::new();
    store.add_user("solver", "pw", false).unwrap();
    let problem = sum_problem(&mut store);
    let sid = store.add_submission(1, problem, "difference source".to_string()).unwrap();
    store.set_submission_result(sid, TestingResult::Testing);
    // the program prints a - b instead
    run_submission(&mut store, sid, |input| {
        let mut it = input.split_ascii_whitespace();
        let a: i64 = it.next().unwrap().parse().unwrap();
        let b: i64 = it.next().unwrap().parse().unwrap();
        Some((a - b).to_string())
    });
    assert_eq!(store.get_submission_result(sid).unwrap(), TestingResult::WrongAnswer);
    assert_eq!(store.get_submission_points(sid).unwrap(), Some(0));
    for t in store.get_tests_for_submission(sid) {
        assert_eq!(store.get_test_result(sid, t).unwrap(), TestingResult::WrongAnswer);
    }
    let subtasks = store.get_subtasks_for_submission(sid);
    assert_eq!(store.get_subtask_points_result(sid, subtasks[0]), Some(0));
}

#[test]
fn infinite_loop_exceeds_time_limit() {
    let mut store = Store::new();
    store.add_user("solver", "pw", false).unwrap();
    let problem = store.add_problem("Sum", "Print a + b.", 100).unwrap();
    let t1 = store.add_test("1 2", "3", problem).unwrap();
    let t2 = store.add_test("5 6", "11", problem).unwrap();
    let s1 = store.add_subtask(problem, 30).unwrap();
    store.add_test_to_subtask(s1, t1).unwrap();
    store.add_test_to_subtask(s1, t2).unwrap();
    let sid = store.add_submission(1, problem, "loop forever".to_string()).unwrap();
    store.set_submission_result(sid, TestingResult::Testing);
    run_submission(&mut store, sid, |_| None);
    assert_eq!(
        store.get_submission_result(sid).unwrap(),
        TestingResult::TimeLimitExceeded
    );
    assert_eq!(store.get_submission_points(sid).unwrap(), Some(0));
    for t in store.get_tests_for_submission(sid) {
        let elapsed = store.get_test_time(sid, t).unwrap().unwrap();
        assert!(elapsed >= 100);
    }
}

#[test]
fn partial_credit_across_subtasks() {
    let mut store = Store::new();
    store.add_user("solver", "pw", false).unwrap();
    let problem = store.add_problem("Sum", "Print a + b.", 1000).unwrap();
    let a1 = store.add_test("1", "1", problem).unwrap();
    let a2 = store.add_test("2", "2", problem).unwrap();
    let big = store.add_test("1000000000 1000000000", "2000000000", problem).unwrap();
    let s1 = store.add_subtask(problem, 30).unwrap();
    let s2 = store.add_subtask(problem, 70).unwrap();
    store.add_test_to_subtask(s1, a1).unwrap();
    store.add_test_to_subtask(s1, a2).unwrap();
    store.add_test_to_subtask(s2, big).unwrap();
    assert_eq!(store.get_problem_total_points(problem).unwrap(), 100);
    let sid = store.add_submission(1, problem, "32-bit sum".to_string()).unwrap();
    store.set_submission_result(sid, TestingResult::Testing);
    // fine on the small tests, wraps around on the large one
    run_submission(&mut store, sid, |input| {
        let nums: Vec<i64> = input
            .split_ascii_whitespace()
            .map(|w| w.parse().unwrap())
            .collect();
        let total: i64 = nums.iter().sum();
        Some((total as i16).to_string())
    });
    assert_eq!(store.get_subtask_result(sid, s1).unwrap(), TestingResult::Accepted);
    assert_eq!(store.get_subtask_points_result(sid, s1), Some(30));
    assert_eq!(store.get_subtask_result(sid, s2).unwrap(), TestingResult::WrongAnswer);
    assert_eq!(store.get_subtask_points_result(sid, s2), Some(0));
    assert_eq!(store.get_submission_result(sid).unwrap(), TestingResult::WrongAnswer);
    assert_eq!(store.get_submission_points(sid).unwrap(), Some(30));
    assert_eq!(store.get_user_score_for_problem(1, problem), 30);
}

#[test]
fn compile_error_leaves_seed_rows_in_queue() {
    let mut store = Store::new();
    store.add_user("solver", "pw", false).unwrap();
    let problem = sum_problem(&mut store);
    let sid = store.add_submission(1, problem, "syntax error".to_string()).unwrap();
    store.set_submission_result(sid, TestingResult::Compiling);
    store.set_submission_result(sid, TestingResult::CompilationError);
    assert_eq!(
        store.get_submission_result(sid).unwrap(),
        TestingResult::CompilationError
    );
    assert_eq!(store.get_submission_points(sid).unwrap(), None);
    for t in store.get_tests_for_submission(sid) {
        assert_eq!(store.get_test_result(sid, t).unwrap(), TestingResult::InQueue);
    }
    for s in store.get_subtasks_for_submission(sid) {
        assert_eq!(store.get_subtask_result(sid, s).unwrap(), TestingResult::InQueue);
    }
}

#[test]
fn score_never_decreases_across_submissions() {
    let mut store = Store::new();
    store.add_user("solver", "pw", false).unwrap();
    let problem = store.add_problem("Sum", "Print a + b.", 1000).unwrap();
    let a1 = store.add_test("1", "1", problem).unwrap();
    let big = store.add_test("1000000000 1000000000", "2000000000", problem).unwrap();
    let s1 = store.add_subtask(problem, 30).unwrap();
    let s2 = store.add_subtask(problem, 70).unwrap();
    store.add_test_to_subtask(s1, a1).unwrap();
    store.add_test_to_subtask(s2, big).unwrap();
    assert_eq!(store.get_user_score_for_problem(1, problem), 0);

    // first submission: only the small subtask passes
    let first = store.add_submission(1, problem, "narrow sum".to_string()).unwrap();
    store.set_submission_result(first, TestingResult::Testing);
    run_submission(&mut store, first, |input| {
        let nums: Vec<i64> = input
            .split_ascii_whitespace()
            .map(|w| w.parse().unwrap())
            .collect();
        let total: i64 = nums.iter().sum();
        Some((total as i16).to_string())
    });
    assert_eq!(store.get_user_score_for_problem(1, problem), 30);

    // second submission: everything passes
    let second = store.add_submission(1, problem, "wide sum".to_string()).unwrap();
    store.set_submission_result(second, TestingResult::Testing);
    run_submission(&mut store, second, |input| {
        let nums: Vec<i64> = input
            .split_ascii_whitespace()
            .map(|w| w.parse().unwrap())
            .collect();
        let total: i64 = nums.iter().sum();
        Some(total.to_string())
    });
    assert_eq!(store.get_user_score_for_problem(1, problem), 100);

    // a third, worse submission never lowers the score
    let third = store.add_submission(1, problem, "broken".to_string()).unwrap();
    store.set_submission_result(third, TestingResult::Testing);
    run_submission(&mut store, third, |_| Some("nonsense".to_string()));
    assert_eq!(store.get_user_score_for_problem(1, problem), 100);
}

#[test]
fn fan_in_counts_each_test_exactly_once() {
    let mut store = Store::new();
    store.add_user("solver", "pw", false).unwrap();
    let problem = sum_problem(&mut store);
    let mut sids = Vec::new();
    for k in 0..10 {
        let sid = store
            .add_submission(1, problem, format!("copy {k}"))
            .unwrap();
        store.set_submission_result(sid, TestingResult::Testing);
        sids.push(sid);
    }
    for sid in &sids {
        // the aggregator refuses to run before the last test finished
        assert_eq!(
            store.update_submission_result(*sid),
            Err(StoreError::Conflict)
        );
        run_submission(&mut store, *sid, |input| Some(sum_of(input).to_string()));
    }
    for sid in &sids {
        assert_eq!(store.get_submission_result(*sid).unwrap(), TestingResult::Accepted);
        assert_eq!(store.get_submission_points(*sid).unwrap(), Some(30));
        let total = store.get_tests_for_submission(*sid).len() as i32;
        assert_eq!(store.get_submission_tests_done(*sid).unwrap(), total);
        // the counter can never pass the number of tests
        assert_eq!(
            store.increment_submission_tests_done(*sid),
            Err(StoreError::Conflict)
        );
    }
    assert_eq!(store.get_user_score_for_problem(1, problem), 30);
}

#[test]
fn submission_view_mirrors_the_rows() {
    let mut store = Store::new();
    store.add_user("solver", "pw", false).unwrap();
    let problem = sum_problem(&mut store);
    let sid = store.add_submission(1, problem, "sum source".to_string()).unwrap();
    store.set_submission_result(sid, TestingResult::Testing);
    run_submission(&mut store, sid, |input| Some(sum_of(input).to_string()));
    let view = store.get_submission_view(sid).unwrap();
    assert_eq!(view.code, "sum source");
    assert_eq!(view.result, TestingResult::Accepted);
    assert_eq!(view.points, Some(30));
    assert_eq!(view.per_subtask.len(), 1);
    assert_eq!(view.per_subtask[0].1, TestingResult::Accepted);
    assert_eq!(view.per_subtask[0].2, Some(30));
    assert_eq!(view.per_subtask[0].3, 30);
    assert_eq!(view.per_test.len(), 2);
    for row in &view.per_test {
        assert_eq!(row.1, TestingResult::Accepted);
        assert_eq!(row.2, Some(5));
    }
}

#[test]
fn replacing_tests_requires_no_submissions() {
    let mut store = Store::new();
    store.add_user("solver", "pw", false).unwrap();
    let problem = sum_problem(&mut store);
    let sid = store.add_submission(1, problem, "sum".to_string()).unwrap();
    let _ = sid;
    // the problem now has a submission, so its tests are frozen
    assert_eq!(
        store.add_test("9 9", "18", problem),
        Err(StoreError::Conflict)
    );
    assert_eq!(store.add_subtask(problem, 10), Err(StoreError::Conflict));
    assert_eq!(store.clear_problem_data(problem), Err(StoreError::Conflict));
}

#[test]
fn clearing_a_problem_resets_its_points() {
    let mut store = Store::new();
    let problem = sum_problem(&mut store);
    assert_eq!(store.get_problem_total_points(problem).unwrap(), 30);
    store.clear_problem_data(problem).unwrap();
    assert_eq!(store.get_problem_total_points(problem).unwrap(), 0);
    assert_eq!(store.get_all_tests_for_problem(problem).len(), 0);
    assert_eq!(store.get_subtasks_for_problem(problem).len(), 0);
}

#[test]
fn install_replaces_the_test_set() {
    let mut store = Store::new();
    let problem = sum_problem(&mut store);
    let uploaded = cps::store_tests::CPSTests {
        tests: vec![
            ("1".to_string(), "1".to_string()),
            ("2".to_string(), "2".to_string()),
            ("3".to_string(), "3".to_string()),
        ],
        subtask_tests: vec![vec![0, 1], vec![2]],
        subtask_points: vec![40, 60],
    };
    store.install_problem_tests(problem, &uploaded).unwrap();
    assert_eq!(store.get_all_tests_for_problem(problem).len(), 3);
    assert_eq!(store.get_subtasks_for_problem(problem).len(), 2);
    assert_eq!(store.get_problem_total_points(problem).unwrap(), 100);
    // an index outside the uploaded list is refused
    let bad = cps::store_tests::CPSTests {
        tests: vec![("1".to_string(), "1".to_string())],
        subtask_tests: vec![vec![5]],
        subtask_points: vec![10],
    };
    assert_eq!(
        store.install_problem_tests(problem, &bad),
        Err(StoreError::InvalidInput)
    );
}

#[test]
fn snappy_upload_round_trips() {
    let payload = b"tests for a problem".to_vec();
    let compressed = snap::raw::Encoder::new().compress_vec(&payload).unwrap();
    let decoded = cps::store_tests::decode_tests_upload(&compressed).unwrap();
    assert_eq!(decoded, payload);
    // garbage is refused rather than decoded
    assert!(cps::store_tests::decode_tests_upload(&vec![0xffu8, 0x00, 0x01]).is_err());
}

#[test]
fn login_checks_the_stored_hash() {
    let mut store = Store::new();
    let uid = store.add_user("admin", "correct horse", true).unwrap();
    assert_eq!(store.try_login("admin", "correct horse").unwrap(), Some(uid));
    assert_eq!(store.try_login("admin", "wrong").unwrap(), None);
    assert_eq!(store.try_login("nobody", "pw").unwrap(), None);
    assert!(store.is_user_admin(uid).unwrap());
    // duplicate usernames are refused
    assert_eq!(
        store.add_user("admin", "pw", false),
        Err(StoreError::Duplicate)
    );
}

#[test]
fn tokens_resolve_back_to_their_user() {
    let mut store = Store::new();
    let uid = store.add_user("solver", "pw", false).unwrap();
    let token = store.add_token(uid).unwrap();
    assert_eq!(token.len(), 255);
    assert_eq!(store.get_user_from_token(&token), Some(uid));
    store.remove_token(&token);
    assert_eq!(store.get_user_from_token(&token), None);
    assert_eq!(store.add_token(999), Err(StoreError::NotFound));
}

#[test]
fn problem_points_track_subtask_scores() {
    let mut store = Store::new();
    let problem = store.add_problem("P", "d", 1000).unwrap();
    assert_eq!(store.get_problem_total_points(problem).unwrap(), 0);
    store.add_subtask(problem, 30).unwrap();
    assert_eq!(store.get_problem_total_points(problem).unwrap(), 30);
    store.add_subtask(problem, 70).unwrap();
    assert_eq!(store.get_problem_total_points(problem).unwrap(), 100);
}

#[test]
fn contests_hold_members_and_problems() {
    let mut store = Store::new();
    let admin = store.add_user("admin", "pw", true).unwrap();
    let user = store.add_user("solver", "pw", false).unwrap();
    let contest = store.add_contest("Round One").unwrap();
    let problem = store.add_problem("P", "d", 1000).unwrap();
    store.add_user_to_contest(user, contest).unwrap();
    store.add_user_to_contest(user, contest).unwrap();
    assert!(store.is_user_in_contest(user, contest));
    store.add_problem_to_contest(contest, problem).unwrap();
    assert_eq!(store.get_problems_for_contest(contest), vec![problem]);
    // an administrator sees every contest
    assert_eq!(store.get_contests_for_user(admin).unwrap(), vec![contest]);
    assert_eq!(store.get_contests_for_user(user).unwrap(), vec![contest]);
    store.remove_user_from_contest(user, contest);
    assert!(!store.is_user_in_contest(user, contest));
    assert_eq!(store.get_contest_from_name("Round One"), Some(contest));
    assert_eq!(store.add_contest("Round One"), Err(StoreError::Duplicate));
}

#[test]
fn removing_a_problem_detaches_it() {
    let mut store = Store::new();
    let contest = store.add_contest("Round One").unwrap();
    let problem = sum_problem(&mut store);
    store.add_problem_to_contest(contest, problem).unwrap();
    store.remove_problem(problem).unwrap();
    assert!(!store.is_problem_id_valid(problem));
    assert_eq!(store.get_problems_for_contest(contest).len(), 0);
    // the name is free again
    let again = store.add_problem_override("Sum", "new", 500).unwrap();
    assert!(store.is_problem_id_valid(again));
}

#[test]
fn deleting_a_user_cascades() {
    let mut store = Store::new();
    let uid = store.add_user("solver", "pw", false).unwrap();
    let other = store.add_user("other", "pw", false).unwrap();
    let problem = sum_problem(&mut store);
    let token = store.add_token(uid).unwrap();
    let mine = store.add_submission(uid, problem, "mine".to_string()).unwrap();
    let theirs = store.add_submission(other, problem, "theirs".to_string()).unwrap();
    store.delete_user(uid);
    assert_eq!(store.get_username(uid), None);
    assert_eq!(store.get_user_from_token(&token), None);
    assert!(store.get_submission_code(mine).is_err());
    // the other user's submission is untouched, rows included
    assert_eq!(store.get_submission_code(theirs).unwrap(), "theirs");
    assert_eq!(store.get_tests_for_submission(theirs).len(), 2);
    assert_eq!(store.get_tests_for_submission(mine).len(), 0);
}

#[test]
fn overrides_replace_by_name() {
    let mut store = Store::new();
    let first = store.add_user_override("admin", "one", true).unwrap();
    let second = store.add_user_override("admin", "two", true).unwrap();
    assert_ne!(first, second);
    assert_eq!(store.get_user_from_username("admin"), Some(second));
    assert_eq!(store.try_login("admin", "two").unwrap(), Some(second));
    assert_eq!(store.try_login("admin", "one").unwrap(), None);

    let c1 = store.add_contest_override("Round").unwrap();
    let c2 = store.add_contest_override("Round").unwrap();
    assert_ne!(c1, c2);
    assert!(!store.is_contest_id_valid(c1));
    assert!(store.is_contest_id_valid(c2));
}

#[test]
fn removing_a_contest_detaches_everything() {
    let mut store = Store::new();
    let uid = store.add_user("solver", "pw", false).unwrap();
    let contest = store.add_contest("Round").unwrap();
    let problem = store.add_problem("P", "d", 1000).unwrap();
    store.add_user_to_contest(uid, contest).unwrap();
    store.add_problem_to_contest(contest, problem).unwrap();
    store.remove_contest(contest);
    assert!(!store.is_contest_id_valid(contest));
    assert!(!store.is_user_in_contest(uid, contest));
    assert_eq!(store.get_problems_for_contest(contest).len(), 0);
    // the problem itself survives
    assert!(store.is_problem_id_valid(problem));
}

#[test]
fn every_submission_mirrors_its_problem_rows() {
    let mut store = Store::new();
    store.add_user("solver", "pw", false).unwrap();
    let problem = sum_problem(&mut store);
    let total_tests = store.get_all_tests_for_problem(problem).len();
    let total_subtasks = store.get_subtasks_for_problem(problem).len();
    let sid = store.add_submission(1, problem, "sum".to_string()).unwrap();
    // one result row per test and per subtask, from the moment of creation
    assert_eq!(store.get_tests_for_submission(sid).len(), total_tests);
    assert_eq!(store.get_subtasks_for_submission(sid).len(), total_subtasks);
    store.set_submission_result(sid, TestingResult::Testing);
    run_submission(&mut store, sid, |input| Some(sum_of(input).to_string()));
    // and still after grading
    assert_eq!(store.get_tests_for_submission(sid).len(), total_tests);
    assert_eq!(
        store.get_submission_tests_done(sid).unwrap(),
        total_tests as i32
    );
}
