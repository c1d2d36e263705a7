//! The host side of one test's guest run, as a machine from state and event to
//! next state and action. The caller owns the processes: it starts the
//! candidate that an action names, hands back the guest's output and the
//! process status, and kills the process that an attempt leaves behind.
//!
//! Candidates are tried in order. Once a candidate's process has been sent the
//! request, its first two output lines are awaited for a bounded time; a second
//! line other than the expected confirmation means that the test is not in that
//! executable. Once confirmed, each tick checks, in this order, the panic
//! marker, the process status, and the time since confirmation.

use crate::dispatch::{handshake_bytes, GUEST_VM, MAGIC_TERMINATOR, RUNNING_TEST};
use crate::outcome::{classified, classify, ShouldPanic, Termination, TestOutcome, UNEXPECTED_PANIC};
use crate::registry::TestDescriptor;
use crate::tape::{after_stop, before_stop, first_stop, NEWLINE};
use crate::watcher::{
    after_chunk, after_poll, found_between, initial_view, marker_at, poll_hit, scan_end,
    StreamWatcher, WatchView,
};
use vstd::prelude::*;
use vstd::utf8::encode_utf8;

verus! {

broadcast use vstd::seq_lib::group_seq_properties;

pub const CARRIAGE_RETURN: u8 = 13;

/// How long the first two output lines are awaited, in nanoseconds.
pub const HANDSHAKE_LIMIT: u64 = 5_000_000_000;

/// The least time a confirmed test is given, in nanoseconds.
pub const TIMEOUT_FLOOR: u64 = 10_000_000_000;

/// How many times its host run a confirmed test is given.
pub const TIMEOUT_FACTOR: u64 = 20;

pub const WAIT_FAILED: &'static str = "Failed to wait for cargo process";

/// The time a confirmed test is given, for a host run of `host` nanoseconds.
pub open spec fn timeout_for(host: u64) -> nat {
    if TIMEOUT_FACTOR * host >= TIMEOUT_FLOOR {
        (TIMEOUT_FACTOR * host) as nat
    } else {
        TIMEOUT_FLOOR as nat
    }
}

/// The time a confirmed test is given: `TIMEOUT_FACTOR` times its host run,
/// and at least `TIMEOUT_FLOOR`.
pub fn guest_timeout(host: u64) -> (r: u128)
    ensures
        r == timeout_for(host),
{
    assert((host as int) * (TIMEOUT_FACTOR as int) <= 0xffff_ffff_ffff_ffff * 20) by (nonlinear_arith)
        requires
            host <= 0xffff_ffff_ffff_ffffu64,
            TIMEOUT_FACTOR == 20,
    ;
    let scaled: u128 = (host as u128) * (TIMEOUT_FACTOR as u128);
    if scaled >= TIMEOUT_FLOOR as u128 {
        scaled
    } else {
        TIMEOUT_FLOOR as u128
    }
}

/// The request for `d`: its name and its source file, one line each.
pub open spec fn request_line_bytes(d: TestDescriptor) -> Seq<u8> {
    encode_utf8(d.name@).push(NEWLINE) + encode_utf8(d.source_file@).push(NEWLINE)
}

/// The bytes to send to a candidate's process to select `d`.
pub fn request_bytes(d: &TestDescriptor) -> (r: Vec<u8>)
    ensures
        r@ == request_line_bytes(*d),
{
    let mut out = crate::tape::OutputTape::new();
    crate::tape::println(&mut out, d.name.as_str());
    crate::tape::println(&mut out, d.source_file.as_str());
    out.take_written()
}

/// The confirmation that a guest prints before it runs `d`.
pub fn expected_handshake(d: &TestDescriptor) -> (r: Vec<u8>)
    ensures
        r@ == handshake_bytes(d.name@),
{
    let mut out = crate::tape::OutputTape::new();
    crate::tape::print(&mut out, RUNNING_TEST);
    crate::tape::print(&mut out, d.name.as_str());
    crate::tape::print(&mut out, GUEST_VM);
    out.take_written()
}

/// Whether `buf` holds at least two newlines.
pub open spec fn two_lines(buf: Seq<u8>) -> bool {
    first_stop(buf, NEWLINE) < buf.len() && first_stop(after_stop(buf, NEWLINE), NEWLINE)
        < after_stop(buf, NEWLINE).len()
}

/// The text of the line at the start of `s`, without its line ending: a
/// newline, or a carriage return and a newline.
pub open spec fn line_content(s: Seq<u8>) -> Seq<u8> {
    let l = before_stop(s, NEWLINE);
    if first_stop(s, NEWLINE) < s.len() && l.len() > 0 && l.last() == CARRIAGE_RETURN {
        l.drop_last()
    } else {
        l
    }
}

/// Whether the second line of `buf` is `expected`.
pub open spec fn handshake_seen(buf: Seq<u8>, expected: Seq<u8>) -> bool {
    first_stop(buf, NEWLINE) < buf.len() && after_stop(buf, NEWLINE).len() > 0 && line_content(
        after_stop(buf, NEWLINE),
    ) == expected
}

/// Whether `buf` holds at least two newlines.
pub fn has_two_lines(buf: &[u8]) -> (r: bool)
    ensures
        r == two_lines(buf@),
{
    let i = crate::tape::newline_from(buf, 0);
    assert(buf@.skip(0) == buf@);
    if i == buf.len() {
        return false;
    }
    let k = crate::tape::newline_from(buf, i + 1);
    assert(after_stop(buf@, NEWLINE) == buf@.skip(i + 1));
    k < buf.len()
}

/// Whether the second line of `buf` is `expected`.
pub fn handshake_confirmed(buf: &[u8], expected: &[u8]) -> (r: bool)
    ensures
        r == handshake_seen(buf@, expected@),
{
    let i = crate::tape::newline_from(buf, 0);
    assert(buf@.skip(0) == buf@);
    if i == buf.len() || i + 1 == buf.len() {
        return false;
    }
    let ghost second = buf@.skip(i + 1);
    assert(after_stop(buf@, NEWLINE) == second);
    let k = crate::tape::newline_from(buf, i + 1);
    let mut end: usize = k;
    if k < buf.len() && k > i + 1 && buf[k - 1] == CARRIAGE_RETURN {
        end = k - 1;
    }
    assert(line_content(second) == buf@.subrange(i + 1, end as int));
    if end - (i + 1) != expected.len() {
        return false;
    }
    let mut j: usize = 0;
    while j < expected.len() && buf[i + 1 + j] == expected[j]
        invariant
            j <= expected@.len(),
            i + 1 + expected@.len() == end <= buf@.len(),
            forall|t: int| 0 <= t < j ==> buf@[i + 1 + t] == expected@[t],
        decreases expected@.len() - j,
    {
        j = j + 1;
    }
    if j < expected.len() {
        assert(buf@.subrange(i + 1, end as int)[j as int] != expected@[j as int]);
        false
    } else {
        assert(buf@.subrange(i + 1, end as int) == expected@);
        true
    }
}

/// What a candidate's process reported when it was last asked.
#[derive(Debug, Clone, Copy, PartialEq, Eq, Structural)]
pub enum ChildStatus {
    Running,
    /// It exited, successfully or not.
    Exited(bool),
    /// Its status could not be read.
    WaitFailed,
}

/// What ended a confirmed test's run.
#[derive(Debug, Clone, Copy, PartialEq, Eq, Structural)]
pub enum GuestEnd {
    Marker,
    Exited(bool),
    WaitFailed,
    TimedOut,
}

/// How a test ended, as the decision table sees it, for each way a guest run ends.
pub open spec fn termination_of(end: GuestEnd) -> Termination {
    match end {
        GuestEnd::Marker => Termination::Aborted,
        GuestEnd::TimedOut => Termination::Aborted,
        GuestEnd::Exited(true) => Termination::Completed,
        GuestEnd::Exited(false) => Termination::ReturnedFailure,
        GuestEnd::WaitFailed => Termination::ReturnedFailure,
    }
}

/// Whether `r` is the outcome of a guest run that ended as `end` after
/// `elapsed` nanoseconds.
pub open spec fn guest_outcome_ok(end: GuestEnd, sp: ShouldPanic, elapsed: u64, r: TestOutcome) -> bool {
    match end {
        GuestEnd::WaitFailed => r is Failed && r->Failed_0@ == WAIT_FAILED@,
        _ => classified(termination_of(end), sp, elapsed, r),
    }
}

/// The outcome of a guest run that ended as `end` after `elapsed` nanoseconds.
/// Only the marker, never a message, crosses from the guest, so an expected
/// message cannot be checked there: a marker or a timeout meets any expected panic.
pub fn guest_outcome(end: GuestEnd, sp: &ShouldPanic, elapsed: u64) -> (r: TestOutcome)
    ensures
        guest_outcome_ok(end, *sp, elapsed, r),
{
    match end {
        GuestEnd::Marker => classify(&Termination::Aborted, sp, elapsed),
        GuestEnd::TimedOut => classify(&Termination::Aborted, sp, elapsed),
        GuestEnd::Exited(true) => classify(&Termination::Completed, sp, elapsed),
        GuestEnd::Exited(false) => classify(&Termination::ReturnedFailure, sp, elapsed),
        GuestEnd::WaitFailed => TestOutcome::Failed(WAIT_FAILED.to_owned()),
    }
}

/// The verdict of one test's guest run.
#[derive(Debug, Clone, PartialEq, Eq)]
pub enum GuestVerdict {
    /// The test ran in a candidate, and ended so.
    Ran(TestOutcome, GuestEnd),
    /// No candidate confirmed the test.
    NotFound,
    /// There were no candidates.
    NoCandidates,
}

/// What the caller is to do next.
#[derive(Debug, Clone, PartialEq, Eq)]
pub enum Action {
    /// Kill the previous attempt's process, if any; start candidate `i`, send it
    /// the request, and report `started`.
    Spawn(usize),
    /// Hand over any output, then tick again.
    Wait,
    /// Kill the attempt's process, if any; this is the verdict.
    Finish(GuestVerdict),
}

/// Where the supervision of one test stands.
#[derive(Debug, Clone, Copy, PartialEq, Eq, Structural)]
pub enum Phase {
    /// A candidate is to be started.
    Idle,
    /// The candidate was sent the request at this time; its confirmation is awaited.
    Handshake(u64),
    /// The test was confirmed at this time and is running.
    Running(u64),
    /// A verdict was given.
    Done,
}

pub struct SupervisorView {
    pub should_panic: ShouldPanic,
    pub expected: Seq<u8>,
    pub candidates: nat,
    pub current: nat,
    pub timeout: nat,
    pub phase: Phase,
    pub watch: WatchView,
}

/// The time from `since` to `now`, where the clock did not go back.
pub open spec fn elapsed_since(now: u64, since: u64) -> nat {
    if now >= since {
        (now - since) as nat
    } else {
        0
    }
}

/// Whether a tick at `now`, with the process in state `status` and its output
/// stream closed or not, takes the supervision from `v` to `w` with action `a`.
pub open spec fn tick_ok(
    v: SupervisorView,
    now: u64,
    status: ChildStatus,
    closed: bool,
    w: SupervisorView,
    a: Action,
) -> bool {
    match v.phase {
        Phase::Handshake(since) => if two_lines(v.watch.buffer) || elapsed_since(now, since)
            >= HANDSHAKE_LIMIT || closed {
            if handshake_seen(v.watch.buffer, v.expected) {
                w == with_phase(v, Phase::Running(now)) && a == Action::Wait
            } else if v.current + 1 < v.candidates {
                w == at_candidate(v, v.current + 1) && a == Action::Spawn((v.current + 1) as usize)
            } else {
                w == with_phase(v, Phase::Done) && a == Action::Finish(GuestVerdict::NotFound)
            }
        } else {
            w == v && a == Action::Wait
        },
        Phase::Running(since) => {
            let el = elapsed_since(now, since);
            let end = if poll_hit(v.watch) {
                Some(GuestEnd::Marker)
            } else {
                match status {
                    ChildStatus::WaitFailed => Some(GuestEnd::WaitFailed),
                    ChildStatus::Exited(ok) => Some(GuestEnd::Exited(ok)),
                    ChildStatus::Running => if el >= v.timeout {
                        Some(GuestEnd::TimedOut)
                    } else {
                        None
                    },
                }
            };
            match end {
                Some(e) => w == with_phase(with_watch(v, after_poll(v.watch)), Phase::Done) && a is Finish && a->Finish_0 is Ran && a->Finish_0->Ran_1 == e
                    && guest_outcome_ok(e, v.should_panic, el as u64, a->Finish_0->Ran_0),
                None => w == with_watch(v, after_poll(v.watch)) && a == Action::Wait,
            }
        },
        _ => w == v && a == Action::Wait,
    }
}

pub open spec fn with_phase(v: SupervisorView, p: Phase) -> SupervisorView {
    SupervisorView { phase: p, ..v }
}

pub open spec fn with_watch(v: SupervisorView, w: WatchView) -> SupervisorView {
    SupervisorView { watch: w, ..v }
}

/// Candidate `i` is to be started.
pub open spec fn at_candidate(v: SupervisorView, i: nat) -> SupervisorView {
    SupervisorView { current: i, phase: Phase::Idle, ..v }
}

/// The current candidate was sent the request at `now`; its output is watched
/// afresh.
pub open spec fn attempt_started(v: SupervisorView, now: u64) -> SupervisorView {
    SupervisorView {
        phase: Phase::Handshake(now),
        watch: initial_view(encode_utf8(MAGIC_TERMINATOR@)),
        ..v
    }
}

/// The supervision of one test's run in the guest.
pub struct Supervisor {
    should_panic: ShouldPanic,
    expected: Vec<u8>,
    candidates: usize,
    current: usize,
    timeout: u128,
    phase: Phase,
    watcher: StreamWatcher,
}

impl View for Supervisor {
    type V = SupervisorView;

    closed spec fn view(&self) -> SupervisorView {
        SupervisorView {
            should_panic: self.should_panic,
            expected: self.expected@,
            candidates: self.candidates as nat,
            current: self.current as nat,
            timeout: self.timeout as nat,
            phase: self.phase,
            watch: self.watcher@,
        }
    }
}

impl Supervisor {
    /// The supervision of `d` over `candidates` executables, for a test whose
    /// host run took `host` nanoseconds.
    pub fn new(d: &TestDescriptor, candidates: usize, host: u64) -> (s: Self)
        ensures
            s@.should_panic == d.should_panic,
            s@.expected == handshake_bytes(d.name@),
            s@.candidates == candidates,
            s@.current == 0,
            s@.timeout == timeout_for(host),
            s@.phase == Phase::Idle,
            s@.watch == initial_view(encode_utf8(MAGIC_TERMINATOR@)),
    {
        Supervisor {
            should_panic: d.should_panic.duplicate(),
            expected: expected_handshake(d),
            candidates,
            current: 0,
            timeout: guest_timeout(host),
            phase: Phase::Idle,
            watcher: StreamWatcher::new(MAGIC_TERMINATOR.as_bytes()),
        }
    }

    /// The first action: start the first candidate, or give the verdict that
    /// there are none.
    pub fn begin(&mut self) -> (a: Action)
        ensures
            old(self)@.candidates == 0 ==> a == Action::Finish(GuestVerdict::NoCandidates)
                && final(self)@ == with_phase(old(self)@, Phase::Done),
            old(self)@.candidates > 0 ==> a == Action::Spawn(0) && final(self)@ == at_candidate(
                old(self)@,
                0,
            ),
    {
        if self.candidates == 0 {
            self.phase = Phase::Done;
            Action::Finish(GuestVerdict::NoCandidates)
        } else {
            self.current = 0;
            self.phase = Phase::Idle;
            Action::Spawn(0)
        }
    }

    /// The candidate named by the last `Spawn` was started and sent the request
    /// at `now`. Its output is watched from the start.
    pub fn started(&mut self, now: u64)
        ensures
            final(self)@ == attempt_started(old(self)@, now),
    {
        self.phase = Phase::Handshake(now);
        self.watcher = StreamWatcher::new(MAGIC_TERMINATOR.as_bytes());
    }

    /// A chunk of the current candidate's output arrived.
    pub fn output(&mut self, chunk: &[u8])
        ensures
            final(self)@ == with_watch(old(self)@, after_chunk(old(self)@.watch, chunk@)),
    {
        self.watcher.push_chunk(chunk);
    }

    /// The current candidate's output so far.
    pub fn output_so_far(&self) -> (r: &[u8])
        ensures
            r@ == self@.watch.buffer,
    {
        self.watcher.output()
    }

    /// A tick at `now`: the process is in state `status`, and its output stream
    /// is `closed` or not. All output that arrived was handed over before.
    pub fn tick(&mut self, now: u64, status: ChildStatus, closed: bool) -> (a: Action)
        ensures
            tick_ok(old(self)@, now, status, closed, final(self)@, a),
    {
        match self.phase {
            Phase::Handshake(since) => {
                let el: u64 = if now >= since {
                    now - since
                } else {
                    0
                };
                if has_two_lines(self.watcher.output()) || el >= HANDSHAKE_LIMIT || closed {
                    if handshake_confirmed(self.watcher.output(), self.expected.as_slice()) {
                        self.phase = Phase::Running(now);
                        Action::Wait
                    } else if self.candidates > 0 && self.current < self.candidates - 1 {
                        self.current = self.current + 1;
                        self.phase = Phase::Idle;
                        Action::Spawn(self.current)
                    } else {
                        self.phase = Phase::Done;
                        Action::Finish(GuestVerdict::NotFound)
                    }
                } else {
                    Action::Wait
                }
            },
            Phase::Running(since) => {
                let el: u64 = if now >= since {
                    now - since
                } else {
                    0
                };
                let hit = self.watcher.poll();
                let end: Option<GuestEnd> = if hit {
                    Some(GuestEnd::Marker)
                } else {
                    match status {
                        ChildStatus::WaitFailed => Some(GuestEnd::WaitFailed),
                        ChildStatus::Exited(ok) => Some(GuestEnd::Exited(ok)),
                        ChildStatus::Running => if el as u128 >= self.timeout {
                            Some(GuestEnd::TimedOut)
                        } else {
                            None
                        },
                    }
                };
                match end {
                    Some(e) => {
                        self.phase = Phase::Done;
                        let o = guest_outcome(e, &self.should_panic, el);
                        Action::Finish(GuestVerdict::Ran(o, e))
                    },
                    None => Action::Wait,
                }
            },
            _ => Action::Wait,
        }
    }
}

/// A confirmed guest whose host run took one second, and which neither exits
/// nor prints the marker, is given twenty seconds: until then each tick waits,
/// and from then on the run fails where no panic was expected and passes where
/// one was.
pub proof fn lemma_silent_guest_times_out(
    v: SupervisorView,
    now: u64,
    closed: bool,
    w: SupervisorView,
    a: Action,
)
    requires
        v.phase is Running,
        v.timeout == timeout_for(1_000_000_000),
        !poll_hit(v.watch),
        tick_ok(v, now, ChildStatus::Running, closed, w, a),
    ensures
        v.timeout == 20_000_000_000,
        elapsed_since(now, v.phase->Running_0) < 20_000_000_000 ==> a == Action::Wait,
        elapsed_since(now, v.phase->Running_0) >= 20_000_000_000 ==> {
            &&& a is Finish
            &&& a->Finish_0 is Ran
            &&& a->Finish_0->Ran_1 == GuestEnd::TimedOut
            &&& v.should_panic == ShouldPanic::No ==> a->Finish_0->Ran_0 is Failed
            &&& v.should_panic == ShouldPanic::Yes ==> a->Finish_0->Ran_0 == TestOutcome::Passed(
                elapsed_since(now, v.phase->Running_0) as u64,
            )
        },
{
}

/// Once the supervisor has given its verdict it asks for nothing more: every
/// later tick waits and leaves it as it is, so it never asks for another
/// process to be started.
pub proof fn lemma_verdict_is_final(
    v: SupervisorView,
    now: u64,
    status: ChildStatus,
    closed: bool,
    w: SupervisorView,
    a: Action,
)
    requires
        v.phase == Phase::Done,
        tick_ok(v, now, status, closed, w, a),
    ensures
        a == Action::Wait,
        w == v,
{
}

/// The bytes that `u8::is_ascii_whitespace` accepts: space, tab, line feed,
/// form feed and carriage return.
pub open spec fn is_ascii_ws(b: u8) -> bool {
    b == 32 || b == 9 || b == 10 || b == 12 || b == 13
}

/// `s` without its trailing ASCII white space.
pub open spec fn trim_end_ascii(s: Seq<u8>) -> Seq<u8>
    decreases s.len(),
{
    if s.len() > 0 && is_ascii_ws(s.last()) {
        trim_end_ascii(s.drop_last())
    } else {
        s
    }
}

/// A guest's output without the panic marker where that, up to trailing white
/// space, is the last thing in it; otherwise the whole output. Where something
/// followed the marker, the output is shown whole.
pub open spec fn without_marker(output: Seq<u8>, marker: Seq<u8>) -> Seq<u8> {
    let t = trim_end_ascii(output);
    let m = trim_end_ascii(marker);
    if m.len() <= t.len() && t.skip(t.len() - m.len()) == m {
        t.take(t.len() - m.len())
    } else {
        output
    }
}

/// The length of `s` without its trailing ASCII white space.
fn trimmed_len(s: &[u8]) -> (k: usize)
    ensures
        k <= s@.len(),
        trim_end_ascii(s@) == s@.take(k as int),
{
    let mut k: usize = s.len();
    assert(s@.take(k as int) == s@);
    while k > 0 && (s[k - 1] == 32 || s[k - 1] == 9 || s[k - 1] == 10 || s[k - 1] == 12 || s[k
        - 1] == 13)
        invariant
            k <= s@.len(),
            trim_end_ascii(s@) == trim_end_ascii(s@.take(k as int)),
        decreases k,
    {
        assert(s@.take(k as int).drop_last() == s@.take(k - 1));
        k = k - 1;
    }
    k
}

/// The guest's output as a failure shows it: without a trailing panic marker.
pub fn output_without_marker(output: &[u8]) -> (r: Vec<u8>)
    ensures
        r@ == without_marker(output@, encode_utf8(MAGIC_TERMINATOR@)),
{
    let marker = MAGIC_TERMINATOR.as_bytes();
    let t = trimmed_len(output);
    let m = trimmed_len(marker);
    let ghost ts = output@.take(t as int);
    let ghost ms = marker@.take(m as int);
    let mut matches = m <= t;
    if matches {
        let base = t - m;
        let mut j: usize = 0;
        while j < m && output[base + j] == marker[j]
            invariant
                base + m == t <= output@.len(),
                m <= marker@.len(),
                j <= m,
                forall|q: int| 0 <= q < j ==> output@[base + q] == marker@[q],
            decreases m - j,
        {
            j = j + 1;
        }
        matches = j == m;
        if matches {
            assert(ts.skip(base as int) == ms);
        } else {
            assert(ts.skip(base as int)[j as int] != ms[j as int]);
        }
    }
    let end: usize = if matches {
        t - m
    } else {
        output.len()
    };
    let mut r: Vec<u8> = Vec::new();
    let mut i: usize = 0;
    while i < end
        invariant
            end <= output@.len(),
            i <= end,
            r@ == output@.take(i as int),
        decreases end - i,
    {
        r.push(output[i]);
        i = i + 1;
    }
    if matches {
        assert(r@ == ts.take(t - m));
    } else {
        assert(r@ == output@);
    }
    r
}

/// Once the test is confirmed, a marker in the output decides the run at that
/// tick whatever the process status: the test fails where no panic was
/// expected, and passes where one was, with or without an expected message.
pub proof fn lemma_marker_wins(
    v: SupervisorView,
    now: u64,
    status: ChildStatus,
    closed: bool,
    w: SupervisorView,
    a: Action,
)
    requires
        v.phase is Running,
        poll_hit(v.watch),
        tick_ok(v, now, status, closed, w, a),
    ensures
        a is Finish,
        a->Finish_0 is Ran,
        a->Finish_0->Ran_1 == GuestEnd::Marker,
        w.phase == Phase::Done,
        v.should_panic == ShouldPanic::No ==> a->Finish_0->Ran_0 is Failed
            && a->Finish_0->Ran_0->Failed_0@ == UNEXPECTED_PANIC@,
        v.should_panic != ShouldPanic::No ==> a->Finish_0->Ran_0 == TestOutcome::Passed(
            elapsed_since(now, v.phase->Running_0) as u64,
        ),
{
}

/// A candidate whose second line is not the confirmation, once the wait for it
/// is over, is given up for the next candidate where there is one; the
/// expectation, the confirmation awaited and the time allowed carry over
/// unchanged, so the next candidate's run is judged as the first one's would
/// have been. After the last candidate the test is not found.
pub proof fn lemma_mismatch_moves_on(
    v: SupervisorView,
    now: u64,
    status: ChildStatus,
    closed: bool,
    w: SupervisorView,
    a: Action,
)
    requires
        v.phase is Handshake,
        two_lines(v.watch.buffer) || closed || elapsed_since(now, v.phase->Handshake_0)
            >= HANDSHAKE_LIMIT,
        !handshake_seen(v.watch.buffer, v.expected),
        tick_ok(v, now, status, closed, w, a),
    ensures
        v.current + 1 < v.candidates ==> a == Action::Spawn((v.current + 1) as usize) && w
            == at_candidate(v, v.current + 1),
        v.current + 1 >= v.candidates ==> a == Action::Finish(GuestVerdict::NotFound),
        w.should_panic == v.should_panic,
        w.expected == v.expected,
        w.timeout == v.timeout,
        w.candidates == v.candidates,
{
}

/// Once the test is confirmed, a complete marker with at least one byte after
/// it, at or past the point the search has reached, decides the run at the
/// next tick, whatever the process status: it fails where no panic was
/// expected, and passes where one was.
pub proof fn lemma_marker_in_output_decides(
    v: SupervisorView,
    p: int,
    now: u64,
    status: ChildStatus,
    closed: bool,
    w: SupervisorView,
    a: Action,
)
    requires
        v.phase is Running,
        v.watch.cursor <= p,
        marker_at(v.watch.buffer, v.watch.marker, p),
        p + v.watch.marker.len() < v.watch.buffer.len(),
        tick_ok(v, now, status, closed, w, a),
    ensures
        a is Finish,
        a->Finish_0 is Ran,
        a->Finish_0->Ran_1 == GuestEnd::Marker,
        v.should_panic == ShouldPanic::No ==> a->Finish_0->Ran_0 is Failed
            && a->Finish_0->Ran_0->Failed_0@ == UNEXPECTED_PANIC@,
        v.should_panic != ShouldPanic::No ==> a->Finish_0->Ran_0 == TestOutcome::Passed(
            elapsed_since(now, v.phase->Running_0) as u64,
        ),
{
    assert(found_between(
        v.watch.buffer,
        v.watch.marker,
        v.watch.cursor as int,
        scan_end(v.watch.buffer.len(), v.watch.marker.len(), v.watch.cursor) as int,
    ));
    lemma_marker_wins(v, now, status, closed, w, a);
}

} // verus!
