//! Verdict tags for tests, subtasks and submissions, and their stable
//! integer encoding used by the persistence layer.

use vstd::prelude::*;

verus! {

/// Outcome tag of a test run, a subtask, or a whole submission.
///
/// `InQueue`, `Compiling` and `Testing` are transient; every other tag is
/// terminal.
#[derive(Copy, Clone, Debug, PartialEq, Eq, Hash, Structural)]
pub enum TestingResult {
    InQueue,
    Compiling,
    Testing,
    Accepted,
    WrongAnswer,
    RuntimeError,
    TimeLimitExceeded,
    MemoryLimitExceeded,
    CompilationError,
    InternalError,
}

/// The stable wire encoding of a verdict tag.
pub open spec fn verdict_code(result: TestingResult) -> int {
    match result {
        TestingResult::InQueue => 1,
        TestingResult::Compiling => 2,
        TestingResult::Testing => 3,
        TestingResult::Accepted => 4,
        TestingResult::WrongAnswer => 5,
        TestingResult::RuntimeError => 6,
        TestingResult::TimeLimitExceeded => 7,
        TestingResult::MemoryLimitExceeded => 8,
        TestingResult::CompilationError => 9,
        TestingResult::InternalError => 10,
    }
}

/// Decoding of a stored integer; every integer outside the known codes
/// decodes to `InternalError`.
pub open spec fn decode_verdict(code: int) -> TestingResult {
    if code == 1 {
        TestingResult::InQueue
    } else if code == 2 {
        TestingResult::Compiling
    } else if code == 3 {
        TestingResult::Testing
    } else if code == 4 {
        TestingResult::Accepted
    } else if code == 5 {
        TestingResult::WrongAnswer
    } else if code == 6 {
        TestingResult::RuntimeError
    } else if code == 7 {
        TestingResult::TimeLimitExceeded
    } else if code == 8 {
        TestingResult::MemoryLimitExceeded
    } else if code == 9 {
        TestingResult::CompilationError
    } else {
        TestingResult::InternalError
    }
}

/// A tag from which a submission never moves again.
pub open spec fn is_terminal(result: TestingResult) -> bool {
    match result {
        TestingResult::InQueue => false,
        TestingResult::Compiling => false,
        TestingResult::Testing => false,
        _ => true,
    }
}

/// Encode a verdict for storage.
pub fn testing_result_to_i32(result: TestingResult) -> (code: i32)
    ensures
        code == verdict_code(result),
{
    match result {
        TestingResult::InQueue => 1,
        TestingResult::Compiling => 2,
        TestingResult::Testing => 3,
        TestingResult::Accepted => 4,
        TestingResult::WrongAnswer => 5,
        TestingResult::RuntimeError => 6,
        TestingResult::TimeLimitExceeded => 7,
        TestingResult::MemoryLimitExceeded => 8,
        TestingResult::CompilationError => 9,
        TestingResult::InternalError => 10,
    }
}

/// Decode a stored verdict; unknown codes come back as `InternalError`.
pub fn i32_to_testing_result(result: i32) -> (r: TestingResult)
    ensures
        r == decode_verdict(result as int),
{
    match result {
        1 => TestingResult::InQueue,
        2 => TestingResult::Compiling,
        3 => TestingResult::Testing,
        4 => TestingResult::Accepted,
        5 => TestingResult::WrongAnswer,
        6 => TestingResult::RuntimeError,
        7 => TestingResult::TimeLimitExceeded,
        8 => TestingResult::MemoryLimitExceeded,
        9 => TestingResult::CompilationError,
        _ => TestingResult::InternalError,
    }
}

/// Whether a verdict is terminal, as executable code.
pub fn is_terminal_result(result: TestingResult) -> (b: bool)
    ensures
        b == is_terminal(result),
{
    match result {
        TestingResult::InQueue => false,
        TestingResult::Compiling => false,
        TestingResult::Testing => false,
        _ => true,
    }
}

/// The display name of a verdict.
pub open spec fn verdict_name(result: TestingResult) -> Seq<char> {
    match result {
        TestingResult::InQueue => "In Queue"@,
        TestingResult::Compiling => "Compiling"@,
        TestingResult::Testing => "Testing"@,
        TestingResult::Accepted => "Accepted"@,
        TestingResult::WrongAnswer => "Wrong Answer"@,
        TestingResult::RuntimeError => "Runtime Error"@,
        TestingResult::TimeLimitExceeded => "Time Limit Exceeded"@,
        TestingResult::MemoryLimitExceeded => "Memory Limit Exceeded"@,
        TestingResult::CompilationError => "Compilation Error"@,
        TestingResult::InternalError => "Internal Error"@,
    }
}

/// Render a verdict for display.
pub fn testing_result_to_string(result: TestingResult) -> (s: String)
    ensures
        s@ == verdict_name(result),
{
    match result {
        TestingResult::InQueue => String::from_str("In Queue"),
        TestingResult::Compiling => String::from_str("Compiling"),
        TestingResult::Testing => String::from_str("Testing"),
        TestingResult::Accepted => String::from_str("Accepted"),
        TestingResult::WrongAnswer => String::from_str("Wrong Answer"),
        TestingResult::RuntimeError => String::from_str("Runtime Error"),
        TestingResult::TimeLimitExceeded => String::from_str("Time Limit Exceeded"),
        TestingResult::MemoryLimitExceeded => String::from_str("Memory Limit Exceeded"),
        TestingResult::CompilationError => String::from_str("Compilation Error"),
        TestingResult::InternalError => String::from_str("Internal Error"),
    }
}

/// Round trip through the wire encoding: decoding what was encoded gives the
/// verdict back.
pub proof fn lemma_verdict_code_round_trip(v: TestingResult)
    ensures
        decode_verdict(verdict_code(v)) == v,
{
}

/// Every integer outside the known codes decodes to `InternalError`.
pub proof fn lemma_unknown_code_is_internal_error(code: int)
    requires
        code < 1 || code >= 10,
    ensures
        decode_verdict(code) == TestingResult::InternalError,
{
}

} // verus!
