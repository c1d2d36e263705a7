//! The growing buffer of a guest's output and the incremental search in it for
//! the panic marker.
//!
//! Output arrives in chunks of any size. Each poll scans only the start
//! positions `[cursor, len - marker_len)`, then moves the cursor to that bound:
//! no position is scanned before every byte that a marker there would take has
//! arrived, and none is scanned twice.

use vstd::prelude::*;

verus! {

broadcast use vstd::seq_lib::group_seq_properties;

/// Whether `marker` occurs in `buf` starting at `i`.
pub open spec fn marker_at(buf: Seq<u8>, marker: Seq<u8>, i: int) -> bool {
    0 <= i && i + marker.len() <= buf.len() && buf.subrange(i, i + marker.len()) == marker
}

/// Whether `marker` starts somewhere in `[lo, hi)` of `buf`.
pub open spec fn found_between(buf: Seq<u8>, marker: Seq<u8>, lo: int, hi: int) -> bool {
    exists|i: int| lo <= i < hi && #[trigger] marker_at(buf, marker, i)
}

/// Where a poll leaves the cursor: before the last start position at which a
/// marker could still be incomplete.
pub open spec fn scan_end(len: nat, marker_len: nat, cursor: nat) -> nat {
    if len >= marker_len {
        (len - marker_len) as nat
    } else {
        cursor
    }
}

/// The state of a watcher: what has arrived, the marker, and how far it has
/// been searched.
pub struct WatchView {
    pub buffer: Seq<u8>,
    pub marker: Seq<u8>,
    pub cursor: nat,
}

/// A watcher before any output has arrived.
pub open spec fn initial_view(marker: Seq<u8>) -> WatchView {
    WatchView { buffer: Seq::empty(), marker, cursor: 0 }
}

/// What a poll reports on state `v`.
pub open spec fn poll_hit(v: WatchView) -> bool {
    found_between(
        v.buffer,
        v.marker,
        v.cursor as int,
        scan_end(v.buffer.len(), v.marker.len(), v.cursor) as int,
    )
}

/// The state after a poll.
pub open spec fn after_poll(v: WatchView) -> WatchView {
    WatchView { cursor: scan_end(v.buffer.len(), v.marker.len(), v.cursor), ..v }
}

/// The state after `chunk` arrives.
pub open spec fn after_chunk(v: WatchView, chunk: Seq<u8>) -> WatchView {
    WatchView { buffer: v.buffer + chunk, ..v }
}

/// The state after each of `chunks` arrives and is followed by a poll.
pub open spec fn after_chunks(v: WatchView, chunks: Seq<Seq<u8>>) -> WatchView
    decreases chunks.len(),
{
    if chunks.len() == 0 {
        v
    } else {
        after_chunks(after_poll(after_chunk(v, chunks[0])), chunks.drop_first())
    }
}

/// How many of those polls report the marker.
pub open spec fn hit_count(v: WatchView, chunks: Seq<Seq<u8>>) -> nat
    decreases chunks.len(),
{
    if chunks.len() == 0 {
        0
    } else {
        let w = after_chunk(v, chunks[0]);
        (if poll_hit(w) {
            1nat
        } else {
            0nat
        }) + hit_count(after_poll(w), chunks.drop_first())
    }
}

/// The cursor never stands where a marker could still be incomplete.
pub open spec fn cursor_ok(v: WatchView) -> bool {
    v.cursor == 0 || v.cursor + v.marker.len() <= v.buffer.len()
}

/// A guest's output as it arrives, with the search for the marker in it.
pub struct StreamWatcher {
    buffer: Vec<u8>,
    marker: Vec<u8>,
    cursor: usize,
}

impl View for StreamWatcher {
    type V = WatchView;

    closed spec fn view(&self) -> WatchView {
        WatchView { buffer: self.buffer@, marker: self.marker@, cursor: self.cursor as nat }
    }
}

impl StreamWatcher {
    /// A watcher for `marker` before any output has arrived.
    pub fn new(marker: &[u8]) -> (w: Self)
        ensures
            w@ == initial_view(marker@),
    {
        let mut m: Vec<u8> = Vec::new();
        let mut i: usize = 0;
        while i < marker.len()
            invariant
                i <= marker@.len(),
                m@ == marker@.take(i as int),
            decreases marker@.len() - i,
        {
            m.push(marker[i]);
            i = i + 1;
        }
        assert(marker@.take(i as int) == marker@);
        StreamWatcher { buffer: Vec::new(), marker: m, cursor: 0 }
    }

    /// A chunk of output arrives.
    pub fn push_chunk(&mut self, chunk: &[u8])
        ensures
            final(self)@ == after_chunk(old(self)@, chunk@),
    {
        let mut i: usize = 0;
        while i < chunk.len()
            invariant
                i <= chunk@.len(),
                self.marker == old(self).marker,
                self.cursor == old(self).cursor,
                self.buffer@ == old(self).buffer@ + chunk@.take(i as int),
            decreases chunk@.len() - i,
        {
            self.buffer.push(chunk[i]);
            i = i + 1;
            assert(old(self).buffer@ + chunk@.take(i as int) == old(self).buffer@ + chunk@.take(
                i - 1,
            ).push(chunk@[i - 1]));
        }
        assert(chunk@.take(i as int) == chunk@);
    }

    /// Searches the output that has become complete since the last poll, and
    /// reports whether the marker starts in it.
    pub fn poll(&mut self) -> (hit: bool)
        ensures
            hit == poll_hit(old(self)@),
            final(self)@ == after_poll(old(self)@),
    {
        let len = self.buffer.len();
        let mlen = self.marker.len();
        let end: usize = if len >= mlen {
            len - mlen
        } else {
            self.cursor
        };
        let ghost v = self@;
        let mut i: usize = self.cursor;
        let mut hit = false;
        while i < end && !hit
            invariant
                self@ == v,
                len == v.buffer.len(),
                mlen == v.marker.len(),
                end == scan_end(len as nat, mlen as nat, v.cursor),
                v.cursor <= i || end <= i,
                hit ==> v.cursor <= i < end && marker_at(v.buffer, v.marker, i as int),
                forall|j: int| v.cursor <= j < i ==> !marker_at(v.buffer, v.marker, j),
            decreases end - i + (if hit {
                0int
            } else {
                1int
            }),
        {
            let mut k: usize = 0;
            while k < mlen && self.buffer[i + k] == self.marker[k]
                invariant
                    self@ == v,
                    i < end,
                    end + mlen == len,
                    k <= mlen,
                    len == v.buffer.len(),
                    mlen == v.marker.len(),
                    forall|t: int| 0 <= t < k ==> v.buffer[i + t] == v.marker[t],
                decreases mlen - k,
            {
                k = k + 1;
            }
            if k == mlen {
                assert(v.buffer.subrange(i as int, i + mlen) == v.marker);
                assert(marker_at(v.buffer, v.marker, i as int));
                hit = true;
            } else {
                assert(v.buffer.subrange(i as int, i + mlen)[k as int] != v.marker[k as int]);
                i = i + 1;
            }
        }
        self.cursor = end;
        hit
    }

    /// The output that has arrived.
    pub fn output(&self) -> (r: &[u8])
        ensures
            r@ == self@.buffer,
    {
        self.buffer.as_slice()
    }
}

/// Whether `a` is an initial part of `b`.
pub open spec fn prefix_of(a: Seq<u8>, b: Seq<u8>) -> bool {
    a.len() <= b.len() && b.take(a.len() as int) == a
}

proof fn lemma_flatten_prefix(chunks: Seq<Seq<u8>>, j: int)
    requires
        0 <= j <= chunks.len(),
    ensures
        prefix_of(chunks.take(j).flatten(), chunks.flatten()),
    decreases j,
{
    if j == 0 {
        assert(chunks.take(0) == Seq::<Seq<u8>>::empty());
    } else {
        let t = chunks.take(j);
        assert(t.drop_first() == chunks.drop_first().take(j - 1));
        lemma_flatten_prefix(chunks.drop_first(), j - 1);
        let a = chunks.drop_first().take(j - 1).flatten();
        let b = chunks.drop_first().flatten();
        assert(t.flatten() == chunks[0] + a);
        assert(chunks.flatten() == chunks[0] + b);
        assert((chunks[0] + b).take((chunks[0] + a).len() as int) == chunks[0] + a);
    }
}

proof fn lemma_first_chunk_prefix(v: WatchView, chunks: Seq<Seq<u8>>, s: Seq<u8>)
    requires
        chunks.len() > 0,
        prefix_of(v.buffer + chunks.flatten(), s),
    ensures
        prefix_of(v.buffer + chunks[0], s),
        after_poll(after_chunk(v, chunks[0])).buffer + chunks.drop_first().flatten() == v.buffer
            + chunks.flatten(),
{
    let c = chunks[0];
    assert(chunks.flatten() == c + chunks.drop_first().flatten());
    let x = v.buffer + c;
    let y = v.buffer + chunks.flatten();
    assert(y.take(x.len() as int) == x);
    assert(s.take(x.len() as int) == y.take(x.len() as int));
}

/// Where the marker occurs once in the whole output, at `p`, the polls report
/// it once if `p` lies in the range they scan together, and never otherwise.
proof fn lemma_polls(v: WatchView, chunks: Seq<Seq<u8>>, s: Seq<u8>, p: int)
    requires
        cursor_ok(v),
        prefix_of(v.buffer + chunks.flatten(), s),
        marker_at(s, v.marker, p),
        forall|q: int| q != p ==> !marker_at(s, v.marker, q),
    ensures
        hit_count(v, chunks) == (if v.cursor <= p < after_chunks(v, chunks).cursor {
            1nat
        } else {
            0nat
        }),
    decreases chunks.len(),
{
    lemma_polls_any(v, chunks, s);
    if chunks.len() > 0 {
        let c = chunks[0];
        let rest = chunks.drop_first();
        let v2 = after_poll(after_chunk(v, c));
        lemma_first_chunk_prefix(v, chunks, s);
        lemma_poll_step_any(v, c, s);
        lemma_polls_any(v2, rest, s);
        lemma_polls(v2, rest, s, p);
        if found_between(s, v.marker, v.cursor as int, v2.cursor as int) {
            let i = choose|i: int| v.cursor <= i < v2.cursor && #[trigger] marker_at(s, v.marker, i);
            assert(i == p);
        }
        if v.cursor <= p < v2.cursor {
            assert(marker_at(s, v.marker, p));
        }
    }
}

/// A marker that occurs once in a guest's output, and is followed there by at
/// least one more byte, is reported by exactly one poll, however the output is
/// split into chunks; and no poll reports it before all of its bytes have
/// arrived.
pub proof fn lemma_marker_reported_once(marker: Seq<u8>, chunks: Seq<Seq<u8>>, p: int)
    requires
        marker_at(chunks.flatten(), marker, p),
        forall|q: int| q != p ==> !marker_at(chunks.flatten(), marker, q),
        p + marker.len() < chunks.flatten().len(),
    ensures
        hit_count(initial_view(marker), chunks) == 1,
        forall|j: int|
            0 <= j <= chunks.len() && hit_count(initial_view(marker), #[trigger] chunks.take(j))
                > 0 ==> p + marker.len() <= chunks.take(j).flatten().len(),
{
    let v = initial_view(marker);
    let s = chunks.flatten();
    assert(v.buffer + s == s);
    assert(s.take(s.len() as int) == s);
    lemma_polls_any(v, chunks, s);
    lemma_polls(v, chunks, s, p);
    if chunks.len() == 0 {
        assert(s.len() == 0);
    }
    assert forall|j: int|
        0 <= j <= chunks.len() && hit_count(v, #[trigger] chunks.take(j)) > 0 implies p
        + marker.len() <= chunks.take(j).flatten().len() by {
        lemma_flatten_prefix(chunks, j);
        assert(v.buffer + chunks.take(j).flatten() == chunks.take(j).flatten());
        lemma_polls_any(v, chunks.take(j), s);
        lemma_polls(v, chunks.take(j), s, p);
    }
}

proof fn lemma_found_split(s: Seq<u8>, m: Seq<u8>, a: int, b: int, c: int)
    requires
        a <= b <= c,
    ensures
        found_between(s, m, a, c) <==> (found_between(s, m, a, b) || found_between(s, m, b, c)),
{
    if found_between(s, m, a, c) {
        let i = choose|i: int| a <= i < c && #[trigger] marker_at(s, m, i);
        if i < b {
            assert(found_between(s, m, a, b));
        } else {
            assert(found_between(s, m, b, c));
        }
    }
    if found_between(s, m, a, b) {
        let i = choose|i: int| a <= i < b && #[trigger] marker_at(s, m, i);
        assert(found_between(s, m, a, c));
    }
    if found_between(s, m, b, c) {
        let i = choose|i: int| b <= i < c && #[trigger] marker_at(s, m, i);
        assert(found_between(s, m, a, c));
    }
}

/// One chunk and one poll: the poll reports a marker exactly when one of the
/// whole output starts in the range that it scans.
proof fn lemma_poll_step_any(v: WatchView, chunk: Seq<u8>, s: Seq<u8>)
    requires
        cursor_ok(v),
        prefix_of(v.buffer + chunk, s),
    ensures
        poll_hit(after_chunk(v, chunk)) <==> found_between(
            s,
            v.marker,
            v.cursor as int,
            after_poll(after_chunk(v, chunk)).cursor as int,
        ),
        cursor_ok(after_poll(after_chunk(v, chunk))),
        after_poll(after_chunk(v, chunk)).cursor >= v.cursor,
{
    let w = after_chunk(v, chunk);
    let b = w.buffer;
    let m = v.marker;
    let e = after_poll(w).cursor;
    assert forall|i: int| v.cursor <= i < e implies (marker_at(b, m, i) <==> marker_at(s, m, i)) by {
        assert(i + m.len() <= b.len());
        assert(b.subrange(i, i + m.len()) == s.subrange(i, i + m.len()));
    }
    if poll_hit(w) {
        let i = choose|i: int| v.cursor <= i < e && #[trigger] marker_at(b, m, i);
        assert(marker_at(s, m, i));
    }
    if found_between(s, m, v.cursor as int, e as int) {
        let i = choose|i: int| v.cursor <= i < e && #[trigger] marker_at(s, m, i);
        assert(marker_at(b, m, i));
    }
}

proof fn lemma_polls_any(v: WatchView, chunks: Seq<Seq<u8>>, s: Seq<u8>)
    requires
        cursor_ok(v),
        prefix_of(v.buffer + chunks.flatten(), s),
    ensures
        hit_count(v, chunks) > 0 <==> found_between(
            s,
            v.marker,
            v.cursor as int,
            after_chunks(v, chunks).cursor as int,
        ),
        after_chunks(v, chunks).cursor >= v.cursor,
        cursor_ok(after_chunks(v, chunks)),
        after_chunks(v, chunks).buffer == v.buffer + chunks.flatten(),
        after_chunks(v, chunks).marker == v.marker,
        chunks.len() > 0 && after_chunks(v, chunks).buffer.len() >= v.marker.len() ==> after_chunks(
            v,
            chunks,
        ).cursor + v.marker.len() == after_chunks(v, chunks).buffer.len(),
    decreases chunks.len(),
{
    if chunks.len() == 0 {
        assert(v.buffer + chunks.flatten() == v.buffer);
    } else {
        let c = chunks[0];
        let rest = chunks.drop_first();
        let w = after_chunk(v, c);
        let v2 = after_poll(w);
        lemma_first_chunk_prefix(v, chunks, s);
        lemma_poll_step_any(v, c, s);
        lemma_polls_any(v2, rest, s);
        lemma_found_split(
            s,
            v.marker,
            v.cursor as int,
            v2.cursor as int,
            after_chunks(v2, rest).cursor as int,
        );
    }
}

/// The first marker in a guest's output is reported by the first poll after
/// all of its bytes and one more have arrived, however the output is split
/// into chunks, and no poll before that reports anything; later markers, if
/// any, do not change this.
pub proof fn lemma_first_marker_reported(marker: Seq<u8>, chunks: Seq<Seq<u8>>, p: int)
    requires
        marker_at(chunks.flatten(), marker, p),
        forall|q: int| 0 <= q < p ==> !marker_at(chunks.flatten(), marker, q),
    ensures
        forall|j: int|
            0 < j <= chunks.len() ==> (hit_count(initial_view(marker), #[trigger] chunks.take(j))
                > 0 <==> p + marker.len() < chunks.take(j).flatten().len()),
{
    let v = initial_view(marker);
    let s = chunks.flatten();
    assert forall|j: int|
        0 < j <= chunks.len() implies (hit_count(v, #[trigger] chunks.take(j)) > 0 <==> p
        + marker.len() < chunks.take(j).flatten().len()) by {
        let t = chunks.take(j);
        lemma_flatten_prefix(chunks, j);
        assert(v.buffer + t.flatten() == t.flatten());
        lemma_polls_any(v, t, s);
        let f = after_chunks(v, t);
        if hit_count(v, t) > 0 {
            let q = choose|q: int| 0 <= q < f.cursor && #[trigger] marker_at(s, marker, q);
            assert(q >= p);
        }
        if p + marker.len() < t.flatten().len() {
            assert(f.cursor + marker.len() == t.flatten().len());
            assert(found_between(s, marker, 0, f.cursor as int));
        }
    }
}

} // verus!
