use valida_rs::tape::{
    print, read, read_line, read_n, read_until, write_vec, InputTape, OutputTape, TapeError,
};

fn tape_of(bytes: &[u8]) -> InputTape {
    InputTape::from_bytes(bytes)
}

#[test]
fn read_until_stops_at_the_stop_byte() {
    let mut t = tape_of(b"abc;def");
    assert_eq!(read_until(&mut t, b';'), Ok(b"abc".to_vec()));
    assert_eq!(read_until(&mut t, b';'), Ok(b"def".to_vec()));
    assert_eq!(read_until(&mut t, b';'), Ok(Vec::new()));
}

#[test]
fn read_until_on_an_open_tape_waits_for_the_stop_byte() {
    let mut t = InputTape::new();
    t.deliver(b'x');
    assert_eq!(read_until(&mut t, b'\n'), Err(TapeError::Incomplete));
    assert_eq!(t.remaining(), 1);
    t.deliver(b'\n');
    assert_eq!(read_until(&mut t, b'\n'), Ok(b"x".to_vec()));
    assert_eq!(t.remaining(), 0);
}

#[test]
fn read_line_trims_white_space() {
    let mut t = tape_of(b"  name \t\r\nnext\n");
    assert_eq!(read_line(&mut t), Ok("name".to_string()));
    assert_eq!(read_line(&mut t), Ok("next".to_string()));
    assert_eq!(read_line(&mut t), Err(TapeError::Exhausted));
}

#[test]
fn read_line_trims_unicode_white_space() {
    let mut t = tape_of("\u{3000}caf\u{e9}\u{a0}\n".as_bytes());
    assert_eq!(read_line(&mut t), Ok("caf\u{e9}".to_string()));
}

#[test]
fn read_line_rejects_invalid_utf8_and_consumes_the_line() {
    let mut t = tape_of(b"\xff\xfe\nok\n");
    assert_eq!(read_line(&mut t), Err(TapeError::InvalidUtf8));
    assert_eq!(read_line(&mut t), Ok("ok".to_string()));
}

#[test]
fn read_line_without_newline_on_an_ended_tape() {
    let mut t = tape_of(b"last");
    assert_eq!(read_line(&mut t), Ok("last".to_string()));
    assert_eq!(read_line(&mut t), Err(TapeError::Exhausted));
}

#[test]
fn read_line_on_an_open_tape_without_newline_is_incomplete() {
    let mut t = InputTape::new();
    t.deliver(b'a');
    assert_eq!(read_line(&mut t), Err(TapeError::Incomplete));
    t.close();
    assert_eq!(read_line(&mut t), Ok("a".to_string()));
}

#[test]
fn read_waits_for_the_end() {
    let mut t = InputTape::new();
    t.deliver(1);
    t.deliver(2);
    assert_eq!(read(&mut t), Err(TapeError::Incomplete));
    t.close();
    assert_eq!(read(&mut t), Ok(vec![1, 2]));
}

#[test]
fn read_n_reads_exactly_n() {
    let mut t = tape_of(b"hello");
    assert_eq!(read_n(&mut t, 2), Ok(b"he".to_vec()));
    assert_eq!(read_n(&mut t, 4), Err(TapeError::Exhausted));
    assert_eq!(read_n(&mut t, 3), Ok(b"llo".to_vec()));
    let mut open = InputTape::new();
    assert_eq!(read_n(&mut open, 1), Err(TapeError::Incomplete));
}

#[test]
fn read_byte_and_peek() {
    let mut t = tape_of(&[7, 8]);
    assert_eq!(t.peek(1), 8);
    assert_eq!(t.read_byte(), Some(7));
    assert_eq!(t.read_byte(), Some(8));
    assert_eq!(t.read_byte(), None);
    assert!(t.is_ended());
}

#[test]
fn output_tape_collects_writes() {
    let mut out = OutputTape::new();
    assert_eq!(out.write(b"ab"), 2);
    print(&mut out, "c\u{e9}");
    write_vec(&mut out, &[0, 255]);
    assert_eq!(out.as_bytes(), b"abc\xc3\xa9\x00\xff");
    let taken = out.take_written();
    assert_eq!(taken.len(), 7);
    assert!(out.as_bytes().is_empty());
}
