//! The decision table shared by the host executor and the guest supervisor: how
//! a test ended, together with whether it was expected to panic, decides its
//! outcome.

use vstd::prelude::*;
use vstd::string::StringExecFns;

verus! {

/// Whether a test is expected to panic.
#[derive(Debug, Clone, PartialEq, Eq)]
pub enum ShouldPanic {
    No,
    Yes,
    /// It must panic with a message that contains this text.
    YesWithMessage(String),
}

impl ShouldPanic {
    /// A copy of this expectation.
    pub fn duplicate(&self) -> (r: ShouldPanic)
        ensures
            r == *self,
    {
        match self {
            ShouldPanic::No => ShouldPanic::No,
            ShouldPanic::Yes => ShouldPanic::Yes,
            ShouldPanic::YesWithMessage(m) => ShouldPanic::YesWithMessage(m.clone()),
        }
    }
}

/// How one execution of a test ended.
#[derive(Debug, Clone, PartialEq, Eq)]
pub enum Termination {
    /// The test returned normally.
    Completed,
    /// The test returned a failure value, or its process exited with a failure status.
    ReturnedFailure,
    /// The test panicked; the panic payload, where it was text.
    Panicked(Option<String>),
    /// The test aborted where no message can be observed: the guest printed the
    /// panic marker, or neither exited nor printed it in time.
    Aborted,
}

/// The outcome of one test in one environment.
#[derive(Debug, Clone, PartialEq, Eq)]
pub enum TestOutcome {
    /// The test met its expectation; it ran for this many nanoseconds.
    Passed(u64),
    Failed(String),
    ShouldPanicButPassed,
    /// The test is of a kind that the harness cannot run.
    Unsupported,
}

pub const UNEXPECTED_PANIC: &'static str = "Test panicked unexpectedly";

pub const RETURNED_ERROR: &'static str = "Test returned error";

pub const EXPECTED_MESSAGE: &'static str = "Expected panic message containing '";

pub const GOT_MESSAGE: &'static str = "', got '";

pub const CLOSING_QUOTE: &'static str = "'";

pub const NON_TEXT_PAYLOAD: &'static str = "Non string panic value";

/// Whether `needle` occurs in `hay` as a contiguous run.
pub open spec fn has_infix<T>(hay: Seq<T>, needle: Seq<T>) -> bool {
    exists|i: int| 0 <= i <= hay.len() - needle.len() && #[trigger] hay.subrange(i, i + needle.len()) == needle
}

/// The text of a panic payload as a failure message shows it.
pub open spec fn payload_text(payload: Option<String>) -> Seq<char> {
    match payload {
        Some(m) => m@,
        None => NON_TEXT_PAYLOAD@,
    }
}

/// The failure message of a panic whose message did not contain the expected text.
pub open spec fn mismatch_message(expected: Seq<char>, got: Seq<char>) -> Seq<char> {
    EXPECTED_MESSAGE@ + expected + GOT_MESSAGE@ + got + CLOSING_QUOTE@
}

/// Whether a panic with this payload meets an expected message.
pub open spec fn payload_matches(payload: Option<String>, expected: Seq<char>) -> bool {
    match payload {
        Some(m) => has_infix(m@, expected),
        None => false,
    }
}

/// The failure message that the decision table gives, where it gives a failure.
pub open spec fn failure_message(t: Termination, sp: ShouldPanic) -> Option<Seq<char>> {
    match t {
        Termination::Completed => None,
        Termination::ReturnedFailure => Some(RETURNED_ERROR@),
        Termination::Panicked(p) => match sp {
            ShouldPanic::No => Some(UNEXPECTED_PANIC@),
            ShouldPanic::Yes => None,
            ShouldPanic::YesWithMessage(e) => if payload_matches(p, e@) {
                None
            } else {
                Some(mismatch_message(e@, payload_text(p)))
            },
        },
        Termination::Aborted => match sp {
            ShouldPanic::No => Some(UNEXPECTED_PANIC@),
            _ => None,
        },
    }
}

/// Whether `r` is the outcome that the decision table gives to a test that
/// ended as `t`, ran for `elapsed` nanoseconds and was expected to panic as `sp`
/// says.
pub open spec fn classified(t: Termination, sp: ShouldPanic, elapsed: u64, r: TestOutcome) -> bool {
    match (t, sp) {
        (Termination::Completed, ShouldPanic::No) => r == TestOutcome::Passed(elapsed),
        (Termination::Completed, _) => r == TestOutcome::ShouldPanicButPassed,
        _ => match failure_message(t, sp) {
            None => r == TestOutcome::Passed(elapsed),
            Some(m) => r is Failed && r->Failed_0@ == m,
        },
    }
}

/// Relies on `str::contains`: whether `needle` occurs in `hay`.
#[verifier::external_body]
pub(crate) fn str_contains(hay: &str, needle: &str) -> (r: bool)
    ensures
        r == has_infix(hay@, needle@),
{
    hay.contains(needle)
}

/// The outcome of a test that ended as `t`, ran for `elapsed` nanoseconds, and
/// was expected to panic as `sp` says.
pub fn classify(t: &Termination, sp: &ShouldPanic, elapsed: u64) -> (r: TestOutcome)
    ensures
        classified(*t, *sp, elapsed, r),
{
    match t {
        Termination::Completed => match sp {
            ShouldPanic::No => TestOutcome::Passed(elapsed),
            _ => TestOutcome::ShouldPanicButPassed,
        },
        Termination::ReturnedFailure => TestOutcome::Failed(RETURNED_ERROR.to_owned()),
        Termination::Panicked(p) => match sp {
            ShouldPanic::No => TestOutcome::Failed(UNEXPECTED_PANIC.to_owned()),
            ShouldPanic::Yes => TestOutcome::Passed(elapsed),
            ShouldPanic::YesWithMessage(e) => {
                let got: &str = match p {
                    Some(m) => m.as_str(),
                    None => NON_TEXT_PAYLOAD,
                };
                let matched = match p {
                    Some(m) => str_contains(m.as_str(), e.as_str()),
                    None => false,
                };
                if matched {
                    TestOutcome::Passed(elapsed)
                } else {
                    let mut msg = EXPECTED_MESSAGE.to_owned();
                    msg.append(e.as_str());
                    msg.append(GOT_MESSAGE);
                    msg.append(got);
                    msg.append(CLOSING_QUOTE);
                    TestOutcome::Failed(msg)
                }
            },
        },
        Termination::Aborted => match sp {
            ShouldPanic::No => TestOutcome::Failed(UNEXPECTED_PANIC.to_owned()),
            _ => TestOutcome::Passed(elapsed),
        },
    }
}

impl TestOutcome {
    /// Whether the test's captured output is shown: only where it failed; on
    /// any other outcome it is discarded.
    pub fn shows_captured_output(&self) -> (r: bool)
        ensures
            r == self is Failed,
    {
        match self {
            TestOutcome::Failed(_) => true,
            _ => false,
        }
    }

    /// The word of the progress line for this outcome.
    pub fn label(&self) -> (r: &'static str)
        ensures
            r@ == outcome_label(*self),
    {
        match self {
            TestOutcome::Passed(_) => "ok",
            TestOutcome::Failed(_) => "FAILED",
            TestOutcome::ShouldPanicButPassed => "FAILED",
            TestOutcome::Unsupported => "unsupported",
        }
    }
}

pub open spec fn outcome_label(o: TestOutcome) -> Seq<char> {
    match o {
        TestOutcome::Passed(_) => "ok"@,
        TestOutcome::Failed(_) => "FAILED"@,
        TestOutcome::ShouldPanicButPassed => "FAILED"@,
        TestOutcome::Unsupported => "unsupported"@,
    }
}

} // verus!
