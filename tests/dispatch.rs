use valida_rs::dispatch::{announce, select_test, write_panic_report, Selection, MAGIC_TERMINATOR};
use valida_rs::outcome::ShouldPanic;
use valida_rs::registry::{matches_key, TestDescriptor};
use valida_rs::tape::{InputTape, OutputTape};

fn desc(name: &str, file: &str) -> TestDescriptor {
    TestDescriptor {
        name: name.to_string(),
        source_file: file.to_string(),
        start_line: 1,
        start_col: 1,
        ignore: false,
        should_panic: ShouldPanic::No,
    }
}

fn registry() -> Vec<TestDescriptor> {
    vec![desc("alpha", "tests/a.rs"), desc("beta", "tests/b.rs")]
}

#[test]
fn availability_line_lists_every_test() {
    let mut out = OutputTape::new();
    announce(&registry(), &mut out);
    assert_eq!(
        out.as_bytes(),
        b"Available tests: (alpha, tests/a.rs) (beta, tests/b.rs)\n"
    );
    let mut empty = OutputTape::new();
    announce(&Vec::new(), &mut empty);
    assert_eq!(empty.as_bytes(), b"Available tests:\n");
}

#[test]
fn matching_request_is_confirmed() {
    let mut input = InputTape::from_bytes(b"beta\ntests/b.rs\n");
    let mut out = OutputTape::new();
    assert_eq!(select_test(&registry(), &mut input, &mut out), Selection::Run(1));
    assert_eq!(out.as_bytes(), b"Running test: beta in valida vm\n");
}

#[test]
fn request_for_a_missing_key_writes_nothing() {
    for req in [&b"beta\ntests/a.rs\n"[..], b"gamma\ntests/b.rs\n", b"Beta\ntests/b.rs\n"] {
        let mut input = InputTape::from_bytes(req);
        let mut out = OutputTape::new();
        assert_eq!(select_test(&registry(), &mut input, &mut out), Selection::Absent);
        assert!(out.as_bytes().is_empty());
    }
}

#[test]
fn missing_lines_mean_no_action() {
    for req in [&b""[..], b"alpha\n", b"alpha"] {
        let mut input = InputTape::from_bytes(req);
        let mut out = OutputTape::new();
        assert_eq!(select_test(&registry(), &mut input, &mut out), Selection::Absent);
        assert!(out.as_bytes().is_empty());
    }
}

#[test]
fn request_lines_are_trimmed() {
    let mut input = InputTape::from_bytes(b"  alpha \r\ntests/a.rs\r\n");
    let mut out = OutputTape::new();
    assert_eq!(select_test(&registry(), &mut input, &mut out), Selection::Run(0));
}

#[test]
fn request_arriving_byte_by_byte() {
    let reg = registry();
    let mut input = InputTape::new();
    let mut out = OutputTape::new();
    let mut result = Selection::Pending;
    for b in b"alpha\ntests/a.rs\n".iter() {
        assert_eq!(result, Selection::Pending);
        input.deliver(*b);
        result = select_test(&reg, &mut input, &mut out);
    }
    assert_eq!(result, Selection::Run(0));
    assert_eq!(out.as_bytes(), b"Running test: alpha in valida vm\n");
}

#[test]
fn open_tape_with_one_line_is_pending() {
    let mut input = InputTape::new();
    for b in b"alpha\n".iter() {
        input.deliver(*b);
    }
    let mut out = OutputTape::new();
    assert_eq!(select_test(&registry(), &mut input, &mut out), Selection::Pending);
    assert_eq!(input.remaining(), 6);
    input.close();
    assert_eq!(select_test(&registry(), &mut input, &mut out), Selection::Absent);
}

#[test]
fn panic_report_ends_with_the_marker() {
    let mut out = OutputTape::new();
    write_panic_report(&mut out, "boom");
    let mut expected = b"boom\n".to_vec();
    expected.extend_from_slice(MAGIC_TERMINATOR.as_bytes());
    expected.push(b'\n');
    assert_eq!(out.as_bytes(), expected.as_slice());
}

#[test]
fn key_matching_needs_both_parts() {
    let d = desc("alpha", "tests/a.rs");
    assert!(matches_key(&d, &"alpha".to_string(), &"tests/a.rs".to_string()));
    assert!(!matches_key(&d, &"alpha".to_string(), &"tests/b.rs".to_string()));
    assert!(!matches_key(&d, &"alph".to_string(), &"tests/a.rs".to_string()));
}

#[test]
fn same_name_in_two_files_is_told_apart_by_the_file() {
    let reg = vec![desc("t", "tests/a.rs"), desc("t", "tests/b.rs"), desc("t", "tests/b.rs")];
    let mut input = InputTape::from_bytes(b"t\ntests/b.rs\n");
    let mut out = OutputTape::new();
    assert_eq!(select_test(&reg, &mut input, &mut out), Selection::Run(1));
}
