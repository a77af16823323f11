use vstd::prelude::*;
use vstd::utf8::{decode_utf8, valid_utf8};

use crate::test_case::TestCase;
use crate::utils::string::opt_text;

verus! {

/// The outcome of checking one output channel against its expectation.
#[derive(PartialEq, Eq, Debug)]
pub enum ValueComparison<T> {
    NotChecked,
    Matches(T),
    Diff { expected: T, got: T },
}

/// The three channel comparisons of one run.
pub struct TestResult {
    pub stdout: ValueComparison<String>,
    pub stderr: ValueComparison<String>,
    pub exit_code: ValueComparison<i32>,
}

impl<T> ValueComparison<T> {
    /// Only a difference is a failure.
    pub fn is_success(&self) -> (r: bool)
        ensures
            r == !(self is Diff),
    {
        match self {
            ValueComparison::NotChecked => true,
            ValueComparison::Matches(_) => true,
            ValueComparison::Diff { expected: _, got: _ } => false,
        }
    }
}

pub open spec fn result_passes(t: TestResult) -> bool {
    !(t.stdout is Diff) && !(t.stderr is Diff) && !(t.exit_code is Diff)
}

impl TestResult {
    /// A run passes when no channel differs from its expectation.
    pub fn is_success(&self) -> (r: bool)
        ensures
            r == result_passes(*self),
    {
        self.stdout.is_success() && self.stderr.is_success() && self.exit_code.is_success()
    }
}

/// `r` is the comparison of the text `got` with the expectation `expected`.
pub open spec fn text_compared(expected: Option<Seq<char>>, got: Seq<char>, r: ValueComparison<String>) -> bool {
    match expected {
        None => r is NotChecked,
        Some(e) => if e == got {
            r matches ValueComparison::Matches(g) && g@ == got
        } else {
            r matches ValueComparison::Diff { expected: x, got: g } && x@ == e && g@ == got
        },
    }
}

/// `r` is the comparison of the exit code `got` with the expectation `expected`.
pub open spec fn code_compared(expected: Option<i32>, got: i32, r: ValueComparison<i32>) -> bool {
    match expected {
        None => r is NotChecked,
        Some(e) => if e == got {
            r == ValueComparison::Matches(got)
        } else {
            r == ValueComparison::Diff { expected: e, got }
        },
    }
}

pub fn compare_result(expected: &Option<String>, got: String) -> (r: ValueComparison<String>)
    ensures
        text_compared(opt_text(*expected), got@, r),
{
    match expected {
        Some(expected) => {
            if *expected == got {
                ValueComparison::Matches(got)
            } else {
                ValueComparison::Diff { expected: expected.clone(), got }
            }
        },
        None => ValueComparison::NotChecked,
    }
}

pub fn compare_exit_code(expected: &Option<i32>, got: i32) -> (r: ValueComparison<i32>)
    ensures
        code_compared(*expected, got, r),
{
    match expected {
        Some(expected) => {
            if *expected == got {
                ValueComparison::Matches(got)
            } else {
                ValueComparison::Diff { expected: *expected, got }
            }
        },
        None => ValueComparison::NotChecked,
    }
}

#[verifier::external_type_specification]
#[verifier::external_body]
pub struct ExIoError(std::io::Error);

/// Why a test could not be run, as opposed to a run whose output differs.
pub enum RunError {
    FailedToDecodeUtf8,
    MissingExitCode,
    IOError(std::io::Error),
}

/// Relies on `String::from_utf8`: the text that valid UTF-8 encodes; an
/// error for any other bytes.
#[verifier::external_body]
fn decode_text(bytes: Vec<u8>) -> (r: Option<String>)
    ensures
        r is Some <==> valid_utf8(bytes@),
        r is Some ==> r->Some_0@ == decode_utf8(bytes@),
{
    String::from_utf8(bytes).ok()
}

/// The outcome of a run of `test_case` whose process wrote `stdout` and
/// `stderr` and ended with `exit_code` (none where a signal ended it).
pub fn test_result_from_output(
    test_case: &TestCase,
    stdout: Vec<u8>,
    stderr: Vec<u8>,
    exit_code: Option<i32>,
) -> (r: Result<TestResult, RunError>)
    ensures
        !valid_utf8(stdout@) || !valid_utf8(stderr@) ==> r matches Err(
            RunError::FailedToDecodeUtf8,
        ),
        valid_utf8(stdout@) && valid_utf8(stderr@) && exit_code is None ==> r matches Err(
            RunError::MissingExitCode,
        ),
        valid_utf8(stdout@) && valid_utf8(stderr@) && exit_code is Some ==> r is Ok && text_compared(
            opt_text(test_case.expected_stdout),
            decode_utf8(stdout@),
            r->Ok_0.stdout,
        ) && text_compared(
            opt_text(test_case.expected_stderr),
            decode_utf8(stderr@),
            r->Ok_0.stderr,
        ) && code_compared(test_case.expected_exit_code, exit_code->Some_0, r->Ok_0.exit_code),
{
    let ghost out_bytes = stdout@;
    let ghost err_bytes = stderr@;
    let stdout = match decode_text(stdout) {
        Some(text) => text,
        None => return Err(RunError::FailedToDecodeUtf8),
    };
    let stderr = match decode_text(stderr) {
        Some(text) => text,
        None => return Err(RunError::FailedToDecodeUtf8),
    };
    let exit_code = match exit_code {
        Some(code) => code,
        None => return Err(RunError::MissingExitCode),
    };
    Ok(
        TestResult {
            stdout: compare_result(&test_case.expected_stdout, stdout),
            stderr: compare_result(&test_case.expected_stderr, stderr),
            exit_code: compare_exit_code(&test_case.expected_exit_code, exit_code),
        },
    )
}

} // verus!
