use valida_rs::orchestrator::{
    filter_argument, guest_enabled, select_tests, Orchestrator, RunRecord, Step,
};
use valida_rs::outcome::{classify, ShouldPanic, Termination, TestOutcome};
use valida_rs::registry::TestDescriptor;

fn desc(name: &str, ignore: bool) -> TestDescriptor {
    TestDescriptor {
        name: name.to_string(),
        source_file: "tests/t.rs".to_string(),
        start_line: 1,
        start_col: 1,
        ignore,
        should_panic: ShouldPanic::No,
    }
}

fn record(passed: u64, guest_passed: u64, ignored: u64, failed: u64, guest_failed: u64) -> RunRecord {
    RunRecord { passed, guest_passed, ignored, failed, guest_failed, unsupported: 0 }
}

#[test]
fn three_tests_one_ignored_on_the_host_only() {
    let reg = vec![desc("first", false), desc("second", true), desc("third", false)];
    let mut o = Orchestrator::new(&reg, None, false);
    let mut steps = Vec::new();
    loop {
        let s = o.next_step();
        steps.push(s);
        match s {
            Step::Ignored(_) => {}
            Step::RunOnHost(i) => {
                let out = classify(&Termination::Completed, &reg[i].should_panic, 10);
                assert_eq!(o.host_finished(&out), Step::Finished);
            }
            Step::Finished => break,
            Step::RunOnGuest(..) => panic!("guest execution is disabled"),
        }
    }
    assert_eq!(
        steps,
        vec![Step::RunOnHost(0), Step::Ignored(1), Step::RunOnHost(2), Step::Finished]
    );
    assert_eq!(o.record(), record(2, 0, 1, 0, 0));
    assert_eq!(o.record().exit_code(), 0);
}

#[test]
fn guest_runs_follow_passing_host_runs() {
    let reg = vec![desc("a", false), desc("b", false)];
    let mut o = Orchestrator::new(&reg, None, true);
    assert_eq!(o.next_step(), Step::RunOnHost(0));
    assert_eq!(o.host_finished(&TestOutcome::Passed(42)), Step::RunOnGuest(0, 42));
    o.guest_finished(false);
    assert_eq!(o.next_step(), Step::RunOnHost(1));
    assert_eq!(o.host_finished(&TestOutcome::Failed("x".to_string())), Step::Finished);
    assert_eq!(o.next_step(), Step::Finished);
    assert_eq!(o.record(), record(1, 0, 0, 1, 1));
    assert_eq!(o.record().exit_code(), 1);
}

#[test]
fn unsupported_and_out_of_order_events() {
    let reg = vec![desc("a", false)];
    let mut o = Orchestrator::new(&reg, None, true);
    assert_eq!(o.host_finished(&TestOutcome::Passed(1)), Step::Finished);
    o.guest_finished(true);
    assert_eq!(o.record(), record(0, 0, 0, 0, 0));
    assert_eq!(o.next_step(), Step::RunOnHost(0));
    assert_eq!(o.next_step(), Step::Finished);
    assert_eq!(o.host_finished(&TestOutcome::Unsupported), Step::Finished);
    assert_eq!(o.record().unsupported, 1);
    assert!(o.record().all_passed());
}

#[test]
fn filter_selects_by_substring() {
    let reg = vec![desc("net::read", false), desc("disk::write", false), desc("net::write", false)];
    assert_eq!(select_tests(&reg, Some("net")), vec![0, 2]);
    assert_eq!(select_tests(&reg, Some("write")), vec![1, 2]);
    assert_eq!(select_tests(&reg, Some("none")), Vec::<usize>::new());
    assert_eq!(select_tests(&reg, None), vec![0, 1, 2]);
    let mut o = Orchestrator::new(&reg, Some("disk"), false);
    assert_eq!(o.next_step(), Step::RunOnHost(1));
}

#[test]
fn guest_toggle_values() {
    for v in ["1", "true", "TRUE", "Yes", "on", "oN"] {
        assert!(guest_enabled(Some(v)), "{v}");
    }
    for v in ["", "0", "false", "no", "off", "truee", " on", "2"] {
        assert!(!guest_enabled(Some(v)), "{v}");
    }
    assert!(!guest_enabled(None));
}

#[test]
fn filter_is_the_first_argument_that_is_not_a_flag() {
    let args = |v: &[&str]| v.iter().map(|s| s.to_string()).collect::<Vec<String>>();
    assert_eq!(filter_argument(&args(&["--nocapture", "-q", "net", "disk"])), Some(2));
    assert_eq!(filter_argument(&args(&["net"])), Some(0));
    assert_eq!(filter_argument(&args(&["--nocapture"])), None);
    assert_eq!(filter_argument(&args(&[])), None);
    assert_eq!(filter_argument(&args(&["", "x"])), Some(0));
}
