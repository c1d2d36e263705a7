use valida_rs::watcher::StreamWatcher;

const MARK: &[u8] = b"<<END>>";

fn run(chunks: &[&[u8]]) -> Vec<bool> {
    let mut w = StreamWatcher::new(MARK);
    chunks
        .iter()
        .map(|c| {
            w.push_chunk(c);
            w.poll()
        })
        .collect()
}

#[test]
fn marker_split_across_chunks_is_reported_once() {
    let hits = run(&[b"output <<E", b"N", b"D>", b">\nmore", b" text", b" and more"]);
    assert_eq!(hits.iter().filter(|h| **h).count(), 1);
    assert_eq!(hits, vec![false, false, false, true, false, false]);
}

#[test]
fn marker_is_not_reported_before_it_is_complete() {
    let hits = run(&[b"<<END", b">"]);
    assert_eq!(hits, vec![false, false]);
}

#[test]
fn marker_at_the_very_end_waits_for_one_more_byte() {
    let mut w = StreamWatcher::new(MARK);
    w.push_chunk(b"x<<END>>");
    assert!(!w.poll());
    w.push_chunk(b"\n");
    assert!(w.poll());
    w.push_chunk(b"tail");
    assert!(!w.poll());
}

#[test]
fn output_without_marker_is_never_reported() {
    let hits = run(&[b"", b"short", b"<<EN", b"D> <<END", b"x"]);
    assert!(hits.iter().all(|h| !h));
}

#[test]
fn two_markers_are_two_reports() {
    let hits = run(&[b"<<END>>.", b"<<END>>."]);
    assert_eq!(hits, vec![true, true]);
}

#[test]
fn output_keeps_every_byte() {
    let mut w = StreamWatcher::new(MARK);
    w.push_chunk(b"ab");
    w.push_chunk(b"");
    w.push_chunk(b"c");
    assert_eq!(w.output(), b"abc");
}
