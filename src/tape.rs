//! The two byte tapes of the guest, and the newline-delimited text protocol on them.
//!
//! The input tape signals its end explicitly: bytes arrive one at a time through
//! `deliver`, and `close` records that no more will come. A read that needs bytes
//! which have not arrived yet, on a tape that has not ended, consumes nothing and
//! reports `TapeError::Incomplete`, so that the caller can deliver more and retry.

use std::collections::VecDeque;
use vstd::prelude::*;
use vstd::utf8::{decode_utf8, encode_utf8, valid_utf8};

verus! {

broadcast use vstd::seq_lib::group_seq_properties;

pub const NEWLINE: u8 = 10;

/// Why a read from the input tape produced no value.
#[derive(Debug, Clone, Copy, PartialEq, Eq, Structural)]
pub enum TapeError {
    /// The bytes needed have not arrived yet; nothing was consumed.
    Incomplete,
    /// The tape has ended and holds no more bytes; nothing was consumed.
    Exhausted,
    /// A complete line arrived but is not UTF-8; the line was consumed.
    InvalidUtf8,
    /// A frame's length line is complete and not a decimal number; nothing was consumed.
    Malformed,
}

/// The position of the first `stop` in `s`, or `s.len()` where there is none.
pub open spec fn first_stop(s: Seq<u8>, stop: u8) -> nat
    decreases s.len(),
{
    if s.len() == 0 {
        0
    } else if s[0] == stop {
        0
    } else {
        1 + first_stop(s.drop_first(), stop)
    }
}

/// The bytes of `s` before its first `stop`.
pub open spec fn before_stop(s: Seq<u8>, stop: u8) -> Seq<u8> {
    s.take(first_stop(s, stop) as int)
}

/// The bytes of `s` after its first `stop`; empty where there is none.
pub open spec fn after_stop(s: Seq<u8>, stop: u8) -> Seq<u8> {
    if first_stop(s, stop) < s.len() {
        s.skip(first_stop(s, stop) as int + 1)
    } else {
        Seq::empty()
    }
}

/// The characters with the Unicode `White_Space` property.
pub open spec fn is_white_space(c: char) -> bool {
    let u = c as u32;
    (0x9 <= u && u <= 0xd) || u == 0x20 || u == 0x85 || u == 0xa0 || u == 0x1680 || (0x2000
        <= u && u <= 0x200a) || u == 0x2028 || u == 0x2029 || u == 0x202f || u == 0x205f || u
        == 0x3000
}

pub open spec fn trim_start_ws(s: Seq<char>) -> Seq<char>
    decreases s.len(),
{
    if s.len() > 0 && is_white_space(s[0]) {
        trim_start_ws(s.drop_first())
    } else {
        s
    }
}

pub open spec fn trim_end_ws(s: Seq<char>) -> Seq<char>
    decreases s.len(),
{
    if s.len() > 0 && is_white_space(s.last()) {
        trim_end_ws(s.drop_last())
    } else {
        s
    }
}

/// `s` without its leading and trailing white space.
pub open spec fn trim_ws(s: Seq<char>) -> Seq<char> {
    trim_end_ws(trim_start_ws(s))
}

/// The text of one line of the control protocol: the line's bytes decoded as
/// UTF-8, without surrounding white space.
pub open spec fn line_text(line: Seq<u8>) -> Seq<char> {
    trim_ws(decode_utf8(line))
}

pub(crate) proof fn lemma_first_stop(s: Seq<u8>, stop: u8, k: int)
    requires
        0 <= k <= s.len(),
        forall|i: int| 0 <= i < k ==> s[i] != stop,
        k == s.len() || s[k] == stop,
    ensures
        first_stop(s, stop) == k,
    decreases k,
{
    if k > 0 {
        let t = s.drop_first();
        assert forall|i: int| 0 <= i < k - 1 implies t[i] != stop by {
            assert(s[i + 1] != stop);
        }
        if k < s.len() {
            assert(t[k - 1] == s[k]);
        }
        lemma_first_stop(t, stop, k - 1);
    }
}

/// The index of the first newline in `s` at or after `from`, or `s.len()`.
pub(crate) fn newline_from(s: &[u8], from: usize) -> (r: usize)
    requires
        from <= s@.len(),
    ensures
        from <= r <= s@.len(),
        r - from == first_stop(s@.skip(from as int), NEWLINE),
{
    let mut i: usize = from;
    while i < s.len() && s[i] != NEWLINE
        invariant
            from <= i <= s@.len(),
            forall|j: int| from <= j < i ==> s@[j] != NEWLINE,
        decreases s@.len() - i,
    {
        i = i + 1;
    }
    proof {
        let t = s@.skip(from as int);
        assert forall|j: int| 0 <= j < i - from implies t[j] != NEWLINE by {
            assert(t[j] == s@[from + j]);
        }
        if i < s@.len() {
            assert(t[i - from] == s@[i as int]);
        }
        lemma_first_stop(t, NEWLINE, i - from);
    }
    i
}

/// Relies on `std::str::from_utf8`: it accepts exactly the well-formed UTF-8
/// byte strings, and the text it returns is their decoding.
#[verifier::external_body]
fn utf8_text(b: &[u8]) -> (r: Option<&str>)
    ensures
        match r {
            Some(t) => valid_utf8(b@) && t@ == decode_utf8(b@),
            None => !valid_utf8(b@),
        },
{
    std::str::from_utf8(b).ok()
}

/// Relies on `str::trim`: it removes the leading and trailing characters that
/// have the Unicode `White_Space` property.
#[verifier::external_body]
fn trim_text(s: &str) -> (r: &str)
    ensures
        r@ == trim_ws(s@),
{
    s.trim()
}

/// The read side of the guest's tapes: the bytes delivered and not yet read,
/// and whether the tape has ended.
pub struct InputTape {
    pending: VecDeque<u8>,
    ended: bool,
}

impl InputTape {
    /// The bytes delivered and not yet read.
    pub closed spec fn rest(&self) -> Seq<u8> {
        self.pending@
    }

    /// Whether the tape has signalled that no more bytes will arrive.
    pub closed spec fn ended(&self) -> bool {
        self.ended
    }

    /// An open tape on which nothing has arrived yet.
    pub fn new() -> (t: Self)
        ensures
            t.rest() == Seq::<u8>::empty(),
            !t.ended(),
    {
        InputTape { pending: VecDeque::new(), ended: false }
    }

    /// A tape that holds `bytes` and then ends.
    pub fn from_bytes(bytes: &[u8]) -> (t: Self)
        ensures
            t.rest() == bytes@,
            t.ended(),
    {
        let mut pending: VecDeque<u8> = VecDeque::new();
        let mut i: usize = 0;
        while i < bytes.len()
            invariant
                i <= bytes@.len(),
                pending@ == bytes@.take(i as int),
            decreases bytes@.len() - i,
        {
            pending.push_back(bytes[i]);
            i = i + 1;
        }
        assert(bytes@.take(i as int) == bytes@);
        InputTape { pending, ended: true }
    }

    /// One more byte arrives on the tape.
    pub fn deliver(&mut self, b: u8)
        ensures
            final(self).rest() == old(self).rest().push(b),
            final(self).ended() == old(self).ended(),
    {
        self.pending.push_back(b);
    }

    /// The tape signals that no more bytes will arrive.
    pub fn close(&mut self)
        ensures
            final(self).rest() == old(self).rest(),
            final(self).ended(),
    {
        self.ended = true;
    }

    pub fn is_ended(&self) -> (r: bool)
        ensures
            r == self.ended(),
    {
        self.ended
    }

    /// How many delivered bytes have not been read.
    pub fn remaining(&self) -> (r: usize)
        ensures
            r == self.rest().len(),
    {
        self.pending.len()
    }

    /// The `i`-th byte that has arrived and not been read, left in place.
    pub fn peek(&self, i: usize) -> (b: u8)
        requires
            i < self.rest().len(),
        ensures
            b == self.rest()[i as int],
    {
        self.pending[i]
    }

    /// The next byte, if one has arrived and not been read.
    pub fn read_byte(&mut self) -> (r: Option<u8>)
        ensures
            old(self).rest().len() > 0 ==> r == Some(old(self).rest()[0]) && final(self).rest()
                == old(self).rest().drop_first(),
            old(self).rest().len() == 0 ==> r is None && final(self).rest() == old(self).rest(),
            final(self).ended() == old(self).ended(),
    {
        self.pending.pop_front()
    }

    /// A copy of the bytes that have arrived and not been read.
    pub fn pending_bytes(&self) -> (r: Vec<u8>)
        ensures
            r@ == self.rest(),
    {
        let mut r: Vec<u8> = Vec::new();
        let mut i: usize = 0;
        while i < self.pending.len()
            invariant
                i <= self.rest().len(),
                r@ == self.rest().take(i as int),
            decreases self.rest().len() - i,
        {
            r.push(self.pending[i]);
            i = i + 1;
        }
        assert(self.rest().take(i as int) == self.rest());
        r
    }

    /// Drops the first `n` bytes.
    pub fn skip_front(&mut self, n: usize)
        requires
            n <= old(self).rest().len(),
        ensures
            final(self).rest() == old(self).rest().skip(n as int),
            final(self).ended() == old(self).ended(),
    {
        let _ = self.take_front(n);
    }

    /// Removes the first `n` bytes and returns them.
    fn take_front(&mut self, n: usize) -> (r: Vec<u8>)
        requires
            n <= old(self).rest().len(),
        ensures
            r@ == old(self).rest().take(n as int),
            final(self).rest() == old(self).rest().skip(n as int),
            final(self).ended() == old(self).ended(),
    {
        let mut out: Vec<u8> = Vec::new();
        let mut k: usize = 0;
        while k < n
            invariant
                k <= n <= old(self).rest().len(),
                out@ == old(self).rest().take(k as int),
                self.rest() == old(self).rest().skip(k as int),
                self.ended() == old(self).ended(),
            decreases n - k,
        {
            let b = self.pending.pop_front();
            match b {
                Some(b) => out.push(b),
                None => {},
            }
            k = k + 1;
        }
        out
    }
}

/// Reads up to the first `stop`, which is consumed and not returned. On a tape
/// that has ended, a last stretch without `stop` is returned whole (empty where
/// nothing is left). On an open tape without `stop`, nothing is consumed.
pub fn read_until(tape: &mut InputTape, stop: u8) -> (r: Result<Vec<u8>, TapeError>)
    ensures
        r is Ok <==> (first_stop(old(tape).rest(), stop) < old(tape).rest().len() || old(
            tape,
        ).ended()),
        match r {
            Ok(v) => v@ == before_stop(old(tape).rest(), stop) && final(tape).rest() == after_stop(
                old(tape).rest(),
                stop,
            ) && final(tape).ended() == old(tape).ended(),
            Err(e) => e == TapeError::Incomplete && *final(tape) == *old(tape),
        },
{
    let ghost rest = tape.rest();
    let n = tape.pending.len();
    let mut i: usize = 0;
    while i < n && tape.pending[i] != stop
        invariant
            i <= n == rest.len(),
            rest == tape.pending@,
            forall|j: int| 0 <= j < i ==> rest[j] != stop,
        decreases n - i,
    {
        i = i + 1;
    }
    proof {
        lemma_first_stop(rest, stop, i as int);
    }
    let found = i < n;
    if !found && !tape.ended {
        return Err(TapeError::Incomplete);
    }
    let line = tape.take_front(i);
    if found {
        let _ = tape.pending.pop_front();
        assert(rest.skip(i as int).drop_first() == rest.skip(i + 1));
    } else {
        assert(rest.skip(i as int) == Seq::<u8>::empty());
    }
    Ok(line)
}

/// Reads one line of the control protocol: its bytes up to the next newline,
/// decoded as UTF-8, without surrounding white space. It returns the text
/// itself: turning it into a number or another value is the caller's job, and
/// the length line of a framed value is read, with its payload, by
/// `codec::read_frame`.
pub fn read_line(tape: &mut InputTape) -> (r: Result<String, TapeError>)
    ensures
        old(tape).ended() && old(tape).rest().len() == 0 ==> r == Err::<String, TapeError>(
            TapeError::Exhausted,
        ),
        !old(tape).ended() && first_stop(old(tape).rest(), NEWLINE) == old(tape).rest().len()
            ==> r == Err::<String, TapeError>(TapeError::Incomplete),
        r is Ok ==> valid_utf8(before_stop(old(tape).rest(), NEWLINE)),
        (old(tape).rest().len() > 0 && (old(tape).ended() || first_stop(old(tape).rest(), NEWLINE)
            < old(tape).rest().len())) ==> {
            &&& final(tape).rest() == after_stop(old(tape).rest(), NEWLINE)
            &&& final(tape).ended() == old(tape).ended()
            &&& match r {
                Ok(s) => s@ == line_text(before_stop(old(tape).rest(), NEWLINE)),
                Err(e) => e == TapeError::InvalidUtf8 && !valid_utf8(
                    before_stop(old(tape).rest(), NEWLINE),
                ),
            }
        },
        r is Err && r != Err::<String, TapeError>(TapeError::InvalidUtf8) ==> *final(tape) == *old(
            tape,
        ),
{
    if tape.is_ended() && tape.remaining() == 0 {
        return Err(TapeError::Exhausted);
    }
    let bytes = match read_until(tape, NEWLINE) {
        Ok(v) => v,
        Err(e) => {
            return Err(e);
        },
    };
    match utf8_text(bytes.as_slice()) {
        None => Err(TapeError::InvalidUtf8),
        Some(t) => Ok(trim_text(t).to_owned()),
    }
}

/// Reads everything up to the end of the tape. On an open tape nothing is
/// consumed, as more may still arrive.
pub fn read(tape: &mut InputTape) -> (r: Result<Vec<u8>, TapeError>)
    ensures
        r is Ok <==> old(tape).ended(),
        match r {
            Ok(v) => v@ == old(tape).rest() && final(tape).rest() == Seq::<u8>::empty()
                && final(tape).ended(),
            Err(e) => e == TapeError::Incomplete && *final(tape) == *old(tape),
        },
{
    if !tape.is_ended() {
        return Err(TapeError::Incomplete);
    }
    let n = tape.remaining();
    let v = tape.take_front(n);
    assert(tape.rest() == old(tape).rest().skip(n as int));
    Ok(v)
}

/// Reads exactly `n` bytes. Where fewer have arrived nothing is consumed, and
/// the error says whether more can still come.
pub fn read_n(tape: &mut InputTape, n: usize) -> (r: Result<Vec<u8>, TapeError>)
    ensures
        r is Ok <==> n <= old(tape).rest().len(),
        match r {
            Ok(v) => v@ == old(tape).rest().take(n as int) && final(tape).rest() == old(
                tape,
            ).rest().skip(n as int) && final(tape).ended() == old(tape).ended(),
            Err(e) => *final(tape) == *old(tape) && (e == TapeError::Exhausted <==> old(
                tape,
            ).ended()) && (e == TapeError::Exhausted || e == TapeError::Incomplete),
        },
{
    if tape.remaining() < n {
        if tape.is_ended() {
            return Err(TapeError::Exhausted);
        } else {
            return Err(TapeError::Incomplete);
        }
    }
    Ok(tape.take_front(n))
}

/// The write side of the guest's tapes: every byte written, in order, until the
/// caller takes them to send on.
pub struct OutputTape {
    written: Vec<u8>,
}

impl View for OutputTape {
    type V = Seq<u8>;

    closed spec fn view(&self) -> Seq<u8> {
        self.written@
    }
}

impl OutputTape {
    pub fn new() -> (t: Self)
        ensures
            t@ == Seq::<u8>::empty(),
    {
        OutputTape { written: Vec::new() }
    }

    /// Appends `buf` and returns how many bytes were written: all of them.
    pub fn write(&mut self, buf: &[u8]) -> (n: usize)
        ensures
            final(self)@ == old(self)@ + buf@,
            n == buf@.len(),
    {
        let mut i: usize = 0;
        while i < buf.len()
            invariant
                i <= buf@.len(),
                self@ == old(self)@ + buf@.take(i as int),
            decreases buf@.len() - i,
        {
            self.written.push(buf[i]);
            i = i + 1;
            assert(old(self)@ + buf@.take(i as int) == old(self)@ + buf@.take(i - 1).push(
                buf@[i - 1],
            ));
        }
        assert(buf@.take(i as int) == buf@);
        buf.len()
    }

    /// The bytes written so far.
    pub fn as_bytes(&self) -> (r: &[u8])
        ensures
            r@ == self@,
    {
        self.written.as_slice()
    }

    /// Hands out the bytes written so far and empties the tape.
    pub fn take_written(&mut self) -> (r: Vec<u8>)
        ensures
            r@ == old(self)@,
            final(self)@ == Seq::<u8>::empty(),
    {
        let mut taken: Vec<u8> = Vec::new();
        std::mem::swap(&mut taken, &mut self.written);
        taken
    }
}

/// Writes the UTF-8 bytes of `s`.
pub fn print(out: &mut OutputTape, s: &str)
    ensures
        final(out)@ == old(out)@ + encode_utf8(s@),
{
    out.write(s.as_bytes());
}

/// Writes the UTF-8 bytes of `s` and a newline.
pub fn println(out: &mut OutputTape, s: &str)
    ensures
        final(out)@ == old(out)@ + encode_utf8(s@).push(NEWLINE),
{
    out.write(s.as_bytes());
    let nl: [u8; 1] = [NEWLINE];
    out.write(nl.as_slice());
    assert(nl@ == seq![NEWLINE]);
}

/// Writes the bytes of `v`.
pub fn write_vec(out: &mut OutputTape, v: &[u8])
    ensures
        final(out)@ == old(out)@ + v@,
{
    out.write(v);
}

} // verus!
