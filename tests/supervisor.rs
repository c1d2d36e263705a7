use valida_rs::dispatch::MAGIC_TERMINATOR;
use valida_rs::outcome::{ShouldPanic, TestOutcome};
use valida_rs::registry::TestDescriptor;
use valida_rs::supervisor::{
    expected_handshake, guest_outcome, output_without_marker, guest_timeout, handshake_confirmed, has_two_lines,
    request_bytes, Action, ChildStatus, GuestEnd, GuestVerdict, Supervisor,
};

const SECOND: u64 = 1_000_000_000;

fn desc(name: &str, sp: ShouldPanic) -> TestDescriptor {
    TestDescriptor {
        name: name.to_string(),
        source_file: "tests/t.rs".to_string(),
        start_line: 1,
        start_col: 1,
        ignore: false,
        should_panic: sp,
    }
}

/// A supervisor whose single candidate has confirmed the test at time `t0`.
fn confirmed(sp: ShouldPanic, host: u64, t0: u64) -> Supervisor {
    let d = desc("x", sp);
    let mut s = Supervisor::new(&d, 1, host);
    assert_eq!(s.begin(), Action::Spawn(0));
    s.started(0);
    s.output(b"Available tests: (x, tests/t.rs)\nRunning test: x in valida vm\n");
    assert_eq!(s.tick(t0, ChildStatus::Running, false), Action::Wait);
    s
}

#[test]
fn timeout_scales_with_the_host_run() {
    assert_eq!(guest_timeout(SECOND), 20 * SECOND as u128);
    assert_eq!(guest_timeout(0), 10 * SECOND as u128);
    assert_eq!(guest_timeout(SECOND / 4), 10 * SECOND as u128);
    assert_eq!(guest_timeout(u64::MAX), u64::MAX as u128 * 20);
}

#[test]
fn silent_guest_times_out_after_twenty_host_runs() {
    let t0 = 3 * SECOND;
    let mut s = confirmed(ShouldPanic::No, SECOND, t0);
    assert_eq!(s.tick(t0 + 20 * SECOND - 1, ChildStatus::Running, false), Action::Wait);
    assert_eq!(
        s.tick(t0 + 20 * SECOND, ChildStatus::Running, false),
        Action::Finish(GuestVerdict::Ran(
            TestOutcome::Failed("Test panicked unexpectedly".to_string()),
            GuestEnd::TimedOut
        ))
    );
    let mut p = confirmed(ShouldPanic::Yes, SECOND, t0);
    assert_eq!(p.tick(t0 + 20 * SECOND - 1, ChildStatus::Running, false), Action::Wait);
    assert_eq!(
        p.tick(t0 + 20 * SECOND, ChildStatus::Running, false),
        Action::Finish(GuestVerdict::Ran(TestOutcome::Passed(20 * SECOND), GuestEnd::TimedOut))
    );
}

#[test]
fn second_candidate_is_tried_after_a_mismatch() {
    let d = desc("x", ShouldPanic::No);
    let mut s = Supervisor::new(&d, 2, SECOND);
    assert_eq!(s.begin(), Action::Spawn(0));
    s.started(0);
    s.output(b"Available tests: (y, tests/t.rs)\n");
    assert_eq!(s.tick(1_000, ChildStatus::Running, false), Action::Wait);
    assert_eq!(s.tick(2_000, ChildStatus::Exited(true), true), Action::Spawn(1));
    s.started(3_000);
    assert!(s.output_so_far().is_empty());
    s.output(b"Available tests: (x, tests/t.rs)\nRunning test: x in valida vm\n");
    assert_eq!(s.tick(4_000, ChildStatus::Running, false), Action::Wait);
    s.output(b"some output\n");
    assert_eq!(
        s.tick(9_000, ChildStatus::Exited(true), true),
        Action::Finish(GuestVerdict::Ran(TestOutcome::Passed(5_000), GuestEnd::Exited(true)))
    );
}

#[test]
fn no_candidate_confirms_the_test() {
    let d = desc("x", ShouldPanic::No);
    let mut s = Supervisor::new(&d, 1, SECOND);
    assert_eq!(s.begin(), Action::Spawn(0));
    s.started(0);
    assert_eq!(s.tick(5 * SECOND - 1, ChildStatus::Running, false), Action::Wait);
    assert_eq!(
        s.tick(5 * SECOND, ChildStatus::Running, false),
        Action::Finish(GuestVerdict::NotFound)
    );
    let mut none = Supervisor::new(&d, 0, SECOND);
    assert_eq!(none.begin(), Action::Finish(GuestVerdict::NoCandidates));
}

#[test]
fn marker_wins_over_exit() {
    let mut s = confirmed(ShouldPanic::No, SECOND, 100);
    s.output(b"panicked at ...\n");
    s.output(MAGIC_TERMINATOR.as_bytes());
    s.output(b"\n");
    assert_eq!(
        s.tick(200, ChildStatus::Exited(true), true),
        Action::Finish(GuestVerdict::Ran(
            TestOutcome::Failed("Test panicked unexpectedly".to_string()),
            GuestEnd::Marker
        ))
    );
    let mut p = confirmed(ShouldPanic::YesWithMessage("boom".to_string()), SECOND, 100);
    p.output(MAGIC_TERMINATOR.as_bytes());
    p.output(b"\n");
    assert_eq!(
        p.tick(150, ChildStatus::Running, false),
        Action::Finish(GuestVerdict::Ran(TestOutcome::Passed(50), GuestEnd::Marker))
    );
}

#[test]
fn exit_status_goes_through_the_table() {
    let mut s = confirmed(ShouldPanic::Yes, SECOND, 0);
    assert_eq!(
        s.tick(10, ChildStatus::Exited(true), true),
        Action::Finish(GuestVerdict::Ran(TestOutcome::ShouldPanicButPassed, GuestEnd::Exited(true)))
    );
    let mut f = confirmed(ShouldPanic::No, SECOND, 0);
    assert_eq!(
        f.tick(10, ChildStatus::Exited(false), true),
        Action::Finish(GuestVerdict::Ran(
            TestOutcome::Failed("Test returned error".to_string()),
            GuestEnd::Exited(false)
        ))
    );
    let mut w = confirmed(ShouldPanic::No, SECOND, 0);
    assert_eq!(
        w.tick(10, ChildStatus::WaitFailed, false),
        Action::Finish(GuestVerdict::Ran(
            TestOutcome::Failed("Failed to wait for cargo process".to_string()),
            GuestEnd::WaitFailed
        ))
    );
    assert_eq!(w.tick(20, ChildStatus::Running, false), Action::Wait);
}

#[test]
fn guest_outcomes() {
    assert_eq!(
        guest_outcome(GuestEnd::Exited(false), &ShouldPanic::Yes, 1),
        TestOutcome::Failed("Test returned error".to_string())
    );
    assert_eq!(guest_outcome(GuestEnd::TimedOut, &ShouldPanic::Yes, 1), TestOutcome::Passed(1));
}

#[test]
fn request_and_handshake_bytes() {
    let d = desc("mod::x", ShouldPanic::No);
    assert_eq!(request_bytes(&d), b"mod::x\ntests/t.rs\n".to_vec());
    assert_eq!(expected_handshake(&d), b"Running test: mod::x in valida vm".to_vec());
}

#[test]
fn handshake_lines() {
    let e = b"Running test: x in valida vm";
    assert!(handshake_confirmed(b"Available tests:\nRunning test: x in valida vm\n", e));
    assert!(handshake_confirmed(b"Available tests:\r\nRunning test: x in valida vm\r\n", e));
    assert!(handshake_confirmed(b"A\nRunning test: x in valida vm", e));
    assert!(!handshake_confirmed(b"Running test: x in valida vm\n", e));
    assert!(!handshake_confirmed(b"A\nRunning test: y in valida vm\n", e));
    assert!(!handshake_confirmed(b"A\nRunning test: x in valida vm!\n", e));
    assert!(!handshake_confirmed(b"A\n", e));
    assert!(has_two_lines(b"a\nb\n"));
    assert!(has_two_lines(b"\n\n"));
    assert!(!has_two_lines(b"a\nb"));
}

#[test]
fn trailing_marker_is_left_out_of_the_output() {
    let mut out = b"panicked at x\n".to_vec();
    out.extend_from_slice(MAGIC_TERMINATOR.as_bytes());
    out.extend_from_slice(b"\n");
    assert_eq!(output_without_marker(&out), b"panicked at x\n".to_vec());
    let mut followed = out.clone();
    followed.extend_from_slice(b"more");
    assert_eq!(output_without_marker(&followed), followed);
    assert_eq!(output_without_marker(b"plain \n"), b"plain \n".to_vec());
    assert_eq!(output_without_marker(b""), Vec::<u8>::new());
}
