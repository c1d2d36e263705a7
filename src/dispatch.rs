//! The guest side of the selection protocol: announce the tests that this
//! executable holds, read which one to run, confirm it, and report a panic by
//! the marker that the host watches for.

use crate::registry::{has_key, matches_key, TestDescriptor};
use crate::tape::{
    after_stop, before_stop, first_stop, line_text, print, read_line, InputTape,
    OutputTape, NEWLINE,
};
use vstd::prelude::*;
use vstd::utf8::{encode_utf8, valid_utf8};

verus! {

broadcast use vstd::seq_lib::group_seq_properties;

/// Printed after a panic's report; its presence anywhere in a guest's output is
/// the only sign that the guest panicked. Changing it breaks the protocol.
pub const MAGIC_TERMINATOR: &'static str = "\n\n\n\nvalida_rs_panic_terminator_YMYGE2otWHIAZ5IKtvTkCnt7B/aNTisJtmkNu9/H0C2pZp7XTeGIO2RZypwus7wvKyG9f4/nwrEP1vEy+YJJqS6ulJqks25EgHbZXQIZIWVfVK+HgmFvaINl49axeKZgk2SNIDAayGhmO5a0okHc9qFzOZhDIblXdybCoVCVaZfX/5G9T4FbbX8ktLV0nLI/nns1fakApi2eHTxP/+lWlXFznl+eipFNQg9h3ZS7VX6i3EGTOYO86TJmAUyLAfqKWuQFTvNHeFFofd4nhUiek2FuI939T3L5uFc7A9oQClGmLTSaGytDNT8slxuaRvQM99ntk+CLK+X8eNVQdKh0xA\n\n\n\n";

pub const AVAILABLE_TESTS: &'static str = "Available tests:";

pub const ENTRY_OPEN: &'static str = " (";

pub const ENTRY_SEPARATOR: &'static str = ", ";

pub const ENTRY_CLOSE: &'static str = ")";

pub const RUNNING_TEST: &'static str = "Running test: ";

/// The environment named in the confirmation line.
pub const GUEST_VM: &'static str = " in valida vm";

/// How one test is listed in the availability line.
pub open spec fn entry_bytes(d: TestDescriptor) -> Seq<u8> {
    encode_utf8(ENTRY_OPEN@) + encode_utf8(d.name@) + encode_utf8(ENTRY_SEPARATOR@) + encode_utf8(
        d.source_file@,
    ) + encode_utf8(ENTRY_CLOSE@)
}

/// The entries of `reg`, in order.
pub open spec fn entries_bytes(reg: Seq<TestDescriptor>) -> Seq<u8>
    decreases reg.len(),
{
    if reg.len() == 0 {
        Seq::empty()
    } else {
        entries_bytes(reg.drop_last()) + entry_bytes(reg.last())
    }
}

/// The availability line, newline included.
pub open spec fn availability_line(reg: Seq<TestDescriptor>) -> Seq<u8> {
    (encode_utf8(AVAILABLE_TESTS@) + entries_bytes(reg)).push(NEWLINE)
}

/// The text of the line that confirms that the test `name` is about to run.
pub open spec fn handshake_bytes(name: Seq<char>) -> Seq<u8> {
    encode_utf8(RUNNING_TEST@) + encode_utf8(name) + encode_utf8(GUEST_VM@)
}

/// The confirmation line, newline included.
pub open spec fn handshake_line(name: Seq<char>) -> Seq<u8> {
    handshake_bytes(name).push(NEWLINE)
}

/// Whether one line can be read: it is complete, or the tape has ended.
pub open spec fn line_ready(rest: Seq<u8>, ended: bool) -> bool {
    ended || first_stop(rest, NEWLINE) < rest.len()
}

/// Whether both lines of a request can be read.
pub open spec fn request_ready(rest: Seq<u8>, ended: bool) -> bool {
    line_ready(rest, ended) && line_ready(after_stop(rest, NEWLINE), ended)
}

/// What `read_line` makes of the first line of `rest`: its text, or nothing
/// where the tape has run out or the line is not UTF-8.
pub open spec fn line_read(rest: Seq<u8>) -> Option<Seq<char>> {
    if rest.len() == 0 || !valid_utf8(before_stop(rest, NEWLINE)) {
        None
    } else {
        Some(line_text(before_stop(rest, NEWLINE)))
    }
}

/// The request on a tape whose two lines can be read: the test's name and
/// source file, or nothing where either line is missing or not UTF-8.
pub open spec fn request_of(rest: Seq<u8>) -> Option<(Seq<char>, Seq<char>)> {
    match (line_read(rest), line_read(after_stop(rest, NEWLINE))) {
        (Some(n), Some(f)) => Some((n, f)),
        _ => None,
    }
}

/// Whether no test of `reg` before `k` is selected by `(name, file)`.
pub open spec fn none_selected(
    reg: Seq<TestDescriptor>,
    name: Seq<char>,
    file: Seq<char>,
    k: int,
) -> bool {
    forall|j: int| 0 <= j < k ==> !#[trigger] has_key(reg[j], name, file)
}

/// What the dispatcher decided.
#[derive(Debug, Clone, Copy, PartialEq, Eq, Structural)]
pub enum Selection {
    /// The request has not fully arrived; nothing was read or written.
    Pending,
    /// No test is to run: the request is missing, or names no test here.
    Absent,
    /// The test at this index is to run; its confirmation line was written.
    Run(usize),
}

/// Writes the availability line: every test's name and source file.
pub fn announce(registry: &Vec<TestDescriptor>, out: &mut OutputTape)
    ensures
        final(out)@ == old(out)@ + availability_line(registry@),
{
    print(out, AVAILABLE_TESTS);
    let mut i: usize = 0;
    while i < registry.len()
        invariant
            i <= registry@.len(),
            out@ == old(out)@ + encode_utf8(AVAILABLE_TESTS@) + entries_bytes(
                registry@.take(i as int),
            ),
        decreases registry@.len() - i,
    {
        let d = &registry[i];
        print(out, ENTRY_OPEN);
        print(out, d.name.as_str());
        print(out, ENTRY_SEPARATOR);
        print(out, d.source_file.as_str());
        print(out, ENTRY_CLOSE);
        assert(registry@.take(i + 1).drop_last() == registry@.take(i as int));
        i = i + 1;
    }
    assert(registry@.take(i as int) == registry@);
    crate::tape::println(out, "");
    assert(encode_utf8(""@) == Seq::<u8>::empty()) by {
        reveal_strlit("");
    }
}

/// Writes the report of a panic, then the marker that tells the host that the
/// guest panicked: the only channel by which it can learn so.
pub fn write_panic_report(out: &mut OutputTape, report: &str)
    ensures
        final(out)@ == old(out)@ + encode_utf8(report@).push(NEWLINE) + encode_utf8(
            MAGIC_TERMINATOR@,
        ).push(NEWLINE),
{
    crate::tape::println(out, report);
    crate::tape::println(out, MAGIC_TERMINATOR);
}

/// Whether the two lines of a request can be read from `input`.
fn request_is_ready(input: &InputTape) -> (r: bool)
    ensures
        r == request_ready(input.rest(), input.ended()),
{
    let ghost rest = input.rest();
    let n = input.remaining();
    let mut i: usize = 0;
    while i < n && input.peek(i) != NEWLINE
        invariant
            i <= n == rest.len(),
            rest == input.rest(),
            forall|j: int| 0 <= j < i ==> rest[j] != NEWLINE,
        decreases n - i,
    {
        i = i + 1;
    }
    proof {
        crate::tape::lemma_first_stop(rest, NEWLINE, i as int);
    }
    if i == n {
        return input.is_ended();
    }
    let ghost second = rest.skip(i + 1);
    let mut k: usize = i + 1;
    while k < n && input.peek(k) != NEWLINE
        invariant
            i < k <= n == rest.len(),
            rest == input.rest(),
            second == rest.skip(i + 1),
            forall|j: int| i < j < k ==> rest[j] != NEWLINE,
        decreases n - k,
    {
        k = k + 1;
    }
    proof {
        assert forall|j: int| 0 <= j < k - i - 1 implies second[j] != NEWLINE by {
            assert(second[j] == rest[i + 1 + j]);
        }
        if k < n {
            assert(second[k - i - 1] == rest[k as int]);
        }
        crate::tape::lemma_first_stop(second, NEWLINE, k - i - 1);
    }
    k < n || input.is_ended()
}

/// Reads a request of two lines, a test's name and its source file, and
/// confirms the test that it selects. Until both lines can be read, nothing is
/// read and `Pending` comes back. Where a line is missing or not UTF-8, or no
/// test has that name and source file, nothing is written.
pub fn select_test(
    registry: &Vec<TestDescriptor>,
    input: &mut InputTape,
    out: &mut OutputTape,
) -> (r: Selection)
    ensures
        !request_ready(old(input).rest(), old(input).ended()) ==> {
            &&& r == Selection::Pending
            &&& *final(input) == *old(input)
            &&& final(out)@ == old(out)@
        },
        request_ready(old(input).rest(), old(input).ended()) ==> {
            &&& final(input).rest() == after_stop(after_stop(old(input).rest(), NEWLINE), NEWLINE)
            &&& final(input).ended() == old(input).ended()
            &&& match request_of(old(input).rest()) {
                None => r == Selection::Absent && final(out)@ == old(out)@,
                Some((name, file)) => match r {
                    Selection::Run(i) => {
                        &&& i < registry@.len()
                        &&& has_key(registry@[i as int], name, file)
                        &&& none_selected(registry@, name, file, i as int)
                        &&& final(out)@ == old(out)@ + handshake_line(name)
                    },
                    Selection::Absent => none_selected(registry@, name, file, registry@.len() as int)
                        && final(out)@ == old(out)@,
                    Selection::Pending => false,
                },
            }
        },
{
    if !request_is_ready(input) {
        return Selection::Pending;
    }
    let first = read_line(input);
    let second = read_line(input);
    let (name, file) = match (first, second) {
        (Ok(n), Ok(f)) => (n, f),
        _ => {
            return Selection::Absent;
        },
    };
    let ghost rest = old(input).rest();
    assert(request_of(rest) == Some((name@, file@)));
    let mut i: usize = 0;
    while i < registry.len() && !matches_key(&registry[i], &name, &file)
        invariant
            i <= registry@.len(),
            none_selected(registry@, name@, file@, i as int),
        decreases registry@.len() - i,
    {
        i = i + 1;
    }
    if i < registry.len() {
        print(out, RUNNING_TEST);
        print(out, registry[i].name.as_str());
        crate::tape::println(out, GUEST_VM);
        Selection::Run(i)
    } else {
        Selection::Absent
    }
}

} // verus!
