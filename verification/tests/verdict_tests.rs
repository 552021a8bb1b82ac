use cps::verdict::TestingResult;
use cps::verdict::i32_to_testing_result;
use cps::verdict::testing_result_to_i32;
use cps::verdict::testing_result_to_string;
use cps::verdict::is_terminal_result;

#[test]
fn verdict_codes_are_stable() {
    assert_eq!(testing_result_to_i32(TestingResult::InQueue), 1);
    assert_eq!(testing_result_to_i32(TestingResult::Compiling), 2);
    assert_eq!(testing_result_to_i32(TestingResult::Testing), 3);
    assert_eq!(testing_result_to_i32(TestingResult::Accepted), 4);
    assert_eq!(testing_result_to_i32(TestingResult::WrongAnswer), 5);
    assert_eq!(testing_result_to_i32(TestingResult::RuntimeError), 6);
    assert_eq!(testing_result_to_i32(TestingResult::TimeLimitExceeded), 7);
    assert_eq!(testing_result_to_i32(TestingResult::MemoryLimitExceeded), 8);
    assert_eq!(testing_result_to_i32(TestingResult::CompilationError), 9);
    assert_eq!(testing_result_to_i32(TestingResult::InternalError), 10);
}

#[test]
fn verdict_codes_round_trip() {
    let all = [
        TestingResult::InQueue,
        TestingResult::Compiling,
        TestingResult::Testing,
        TestingResult::Accepted,
        TestingResult::WrongAnswer,
        TestingResult::RuntimeError,
        TestingResult::TimeLimitExceeded,
        TestingResult::MemoryLimitExceeded,
        TestingResult::CompilationError,
        TestingResult::InternalError,
    ];
    for v in all {
        assert_eq!(i32_to_testing_result(testing_result_to_i32(v)), v);
    }
}

#[test]
fn unknown_codes_decode_to_internal_error() {
    for code in [0, 11, 12, -1, -100, 1000, i32::MIN, i32::MAX] {
        assert_eq!(i32_to_testing_result(code), TestingResult::InternalError);
    }
}

#[test]
fn verdict_display_names() {
    assert_eq!(testing_result_to_string(TestingResult::InQueue), "In Queue");
    assert_eq!(testing_result_to_string(TestingResult::Accepted), "Accepted");
    assert_eq!(testing_result_to_string(TestingResult::WrongAnswer), "Wrong Answer");
    assert_eq!(
        testing_result_to_string(TestingResult::TimeLimitExceeded),
        "Time Limit Exceeded"
    );
    assert_eq!(
        testing_result_to_string(TestingResult::CompilationError),
        "Compilation Error"
    );
}

#[test]
fn terminal_verdicts() {
    assert!(!is_terminal_result(TestingResult::InQueue));
    assert!(!is_terminal_result(TestingResult::Compiling));
    assert!(!is_terminal_result(TestingResult::Testing));
    assert!(is_terminal_result(TestingResult::Accepted));
    assert!(is_terminal_result(TestingResult::WrongAnswer));
    assert!(is_terminal_result(TestingResult::CompilationError));
    assert!(is_terminal_result(TestingResult::InternalError));
}
