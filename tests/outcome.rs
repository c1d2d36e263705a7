use valida_rs::outcome::{classify, ShouldPanic, Termination, TestOutcome};

fn msg(s: &str) -> ShouldPanic {
    ShouldPanic::YesWithMessage(s.to_string())
}

fn failed(s: &str) -> TestOutcome {
    TestOutcome::Failed(s.to_string())
}

#[test]
fn completed_runs() {
    assert_eq!(classify(&Termination::Completed, &ShouldPanic::No, 7), TestOutcome::Passed(7));
    assert_eq!(
        classify(&Termination::Completed, &ShouldPanic::Yes, 7),
        TestOutcome::ShouldPanicButPassed
    );
    assert_eq!(
        classify(&Termination::Completed, &msg("boom"), 7),
        TestOutcome::ShouldPanicButPassed
    );
}

#[test]
fn aborted_runs() {
    assert_eq!(
        classify(&Termination::Aborted, &ShouldPanic::No, 3),
        failed("Test panicked unexpectedly")
    );
    assert_eq!(classify(&Termination::Aborted, &ShouldPanic::Yes, 3), TestOutcome::Passed(3));
    assert_eq!(classify(&Termination::Aborted, &msg("boom"), 3), TestOutcome::Passed(3));
}

#[test]
fn panicked_runs_with_messages() {
    let p = |m: Option<&str>| Termination::Panicked(m.map(|s| s.to_string()));
    assert_eq!(
        classify(&p(Some("it went boom")), &ShouldPanic::No, 1),
        failed("Test panicked unexpectedly")
    );
    assert_eq!(classify(&p(Some("it went boom")), &ShouldPanic::Yes, 1), TestOutcome::Passed(1));
    assert_eq!(classify(&p(None), &ShouldPanic::Yes, 1), TestOutcome::Passed(1));
    assert_eq!(classify(&p(Some("it went boom")), &msg("boom"), 1), TestOutcome::Passed(1));
    assert_eq!(
        classify(&p(Some("it went bang")), &msg("boom"), 1),
        failed("Expected panic message containing 'boom', got 'it went bang'")
    );
    assert_eq!(
        classify(&p(None), &msg("boom"), 1),
        failed("Expected panic message containing 'boom', got 'Non string panic value'")
    );
}

#[test]
fn returned_failures() {
    for sp in [ShouldPanic::No, ShouldPanic::Yes, msg("boom")] {
        assert_eq!(
            classify(&Termination::ReturnedFailure, &sp, 2),
            failed("Test returned error")
        );
    }
}

#[test]
fn labels_and_captured_output() {
    assert_eq!(TestOutcome::Passed(0).label(), "ok");
    assert_eq!(failed("x").label(), "FAILED");
    assert_eq!(TestOutcome::ShouldPanicButPassed.label(), "FAILED");
    assert_eq!(TestOutcome::Unsupported.label(), "unsupported");
    assert!(failed("x").shows_captured_output());
    assert!(!TestOutcome::ShouldPanicButPassed.shows_captured_output());
    assert!(!TestOutcome::Passed(0).shows_captured_output());
    assert!(!TestOutcome::Unsupported.shows_captured_output());
}

#[test]
fn duplicate_keeps_the_expectation() {
    assert_eq!(msg("boom").duplicate(), msg("boom"));
    assert_eq!(ShouldPanic::Yes.duplicate(), ShouldPanic::Yes);
}
