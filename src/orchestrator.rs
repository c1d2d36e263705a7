//! The run over the whole registry, as a machine from state and event to next
//! state and step: which tests the filter selects, which step comes next for
//! each of them, and the counts that decide the run's exit code.
//!
//! Tests run strictly one after the other, in registry order: an ignored test
//! is only counted; any other runs on the host, and, where guest execution is
//! enabled and the host run passed, then in the guest.

use crate::outcome::{has_infix, str_contains, TestOutcome};
use crate::registry::TestDescriptor;
use vstd::prelude::*;
use vstd::utf8::encode_utf8;

verus! {

broadcast use vstd::seq_lib::group_seq_properties;

/// An ASCII letter in lower case; any other byte unchanged.
pub open spec fn lower_byte(b: u8) -> u8 {
    if 65 <= b && b <= 90 {
        (b + 32) as u8
    } else {
        b
    }
}

/// Whether `value` turns guest execution on: "1", "true", "yes" or "on", in
/// any mix of cases (the ASCII codes of those letters below).
pub open spec fn truthy(value: Seq<u8>) -> bool {
    let l = value.map_values(|b: u8| lower_byte(b));
    l == seq![49u8] || l == seq![116u8, 114u8, 117u8, 101u8] || l == seq![121u8, 101u8, 115u8] || l
        == seq![111u8, 110u8]
}

/// Whether `a`, with its ASCII letters in lower case, is `target`.
fn equals_lowered(a: &[u8], target: &[u8]) -> (r: bool)
    ensures
        r == (a@.map_values(|b: u8| lower_byte(b)) == target@),
{
    if a.len() != target.len() {
        return false;
    }
    let mut i: usize = 0;
    while i < a.len()
        invariant
            i <= a@.len() == target@.len(),
            forall|j: int| 0 <= j < i ==> lower_byte(a@[j]) == target@[j],
        decreases a@.len() - i,
    {
        let b = a[i];
        let l: u8 = if 65 <= b && b <= 90 {
            b + 32
        } else {
            b
        };
        if l != target[i] {
            assert(a@.map_values(|b: u8| lower_byte(b))[i as int] != target@[i as int]);
            return false;
        }
        i = i + 1;
    }
    assert(a@.map_values(|b: u8| lower_byte(b)) == target@);
    true
}

/// Whether guest execution is enabled by a setting of `value`. Unset, it is not.
pub fn guest_enabled(value: Option<&str>) -> (r: bool)
    ensures
        r == match value {
            Some(v) => truthy(encode_utf8(v@)),
            None => false,
        },
{
    match value {
        None => false,
        Some(v) => {
            let b = v.as_bytes();
            let one: [u8; 1] = [49u8];
            let t: [u8; 4] = [116u8, 114u8, 117u8, 101u8];
            let y: [u8; 3] = [121u8, 101u8, 115u8];
            let o: [u8; 2] = [111u8, 110u8];
            assert(one@ == seq![49u8]);
            assert(t@ == seq![116u8, 114u8, 117u8, 101u8]);
            assert(y@ == seq![121u8, 101u8, 115u8]);
            assert(o@ == seq![111u8, 110u8]);
            equals_lowered(b, one.as_slice()) || equals_lowered(b, t.as_slice()) || equals_lowered(
                b,
                y.as_slice(),
            ) || equals_lowered(b, o.as_slice())
        },
    }
}

/// The ASCII code of `-`, which starts a flag.
pub const DASH: u8 = 45;

/// Whether `arg` is a flag: it starts with `-`.
pub open spec fn is_flag(arg: Seq<char>) -> bool {
    encode_utf8(arg).len() > 0 && encode_utf8(arg)[0] == DASH
}

fn starts_with_dash(arg: &String) -> (r: bool)
    ensures
        r == is_flag(arg@),
{
    let b = arg.as_str().as_bytes();
    b.len() > 0 && b[0] == DASH
}

/// Of the command-line arguments `args` (the program's name left out), the
/// index of the first that is not a flag: the test filter.
pub fn filter_argument(args: &Vec<String>) -> (r: Option<usize>)
    ensures
        match r {
            Some(i) => i < args@.len() && !is_flag(args@[i as int]@) && forall|j: int|
                0 <= j < i ==> is_flag(#[trigger] args@[j]@),
            None => forall|j: int| 0 <= j < args@.len() ==> is_flag(#[trigger] args@[j]@),
        },
{
    let mut i: usize = 0;
    while i < args.len() && starts_with_dash(&args[i])
        invariant
            i <= args@.len(),
            forall|j: int| 0 <= j < i ==> is_flag(#[trigger] args@[j]@),
        decreases args@.len() - i,
    {
        i = i + 1;
    }
    if i < args.len() {
        Some(i)
    } else {
        None
    }
}

/// Whether the filter selects a test of this name: there is none, or the name
/// contains it.
pub open spec fn passes_filter(name: Seq<char>, filter: Option<Seq<char>>) -> bool {
    match filter {
        Some(f) => has_infix(name, f),
        None => true,
    }
}

/// The indices of the tests of `reg` that the filter selects, in order.
pub open spec fn filtered(reg: Seq<TestDescriptor>, filter: Option<Seq<char>>) -> Seq<usize>
    decreases reg.len(),
{
    if reg.len() == 0 {
        Seq::empty()
    } else {
        let rest = filtered(reg.drop_last(), filter);
        if passes_filter(reg.last().name@, filter) {
            rest.push((reg.len() - 1) as usize)
        } else {
            rest
        }
    }
}

pub open spec fn filter_view(filter: Option<&str>) -> Option<Seq<char>> {
    match filter {
        Some(f) => Some(f@),
        None => None,
    }
}

/// The indices of the tests of `registry` whose name contains `filter`; all of
/// them where there is no filter.
pub fn select_tests(registry: &Vec<TestDescriptor>, filter: Option<&str>) -> (r: Vec<usize>)
    ensures
        r@ == filtered(registry@, filter_view(filter)),
{
    let mut r: Vec<usize> = Vec::new();
    let mut i: usize = 0;
    while i < registry.len()
        invariant
            i <= registry@.len(),
            r@ == filtered(registry@.take(i as int), filter_view(filter)),
        decreases registry@.len() - i,
    {
        let pass = match filter {
            Some(f) => str_contains(registry[i].name.as_str(), f),
            None => true,
        };
        assert(registry@.take(i + 1).drop_last() == registry@.take(i as int));
        if pass {
            r.push(i);
        }
        i = i + 1;
    }
    assert(registry@.take(i as int) == registry@);
    r
}

/// The counts of a run.
#[derive(Debug, Clone, Copy, PartialEq, Eq, Structural)]
pub struct RunRecord {
    pub passed: u64,
    pub guest_passed: u64,
    pub ignored: u64,
    pub failed: u64,
    pub guest_failed: u64,
    pub unsupported: u64,
}

impl RunRecord {
    pub open spec fn host_total(self) -> int {
        self.passed + self.ignored + self.failed + self.unsupported
    }

    pub open spec fn guest_total(self) -> int {
        self.guest_passed + self.guest_failed
    }

    pub open spec fn succeeded(self) -> bool {
        self.failed == 0 && self.guest_failed == 0
    }

    /// Whether nothing failed, on the host or in the guest.
    pub fn all_passed(&self) -> (r: bool)
        ensures
            r == self.succeeded(),
    {
        self.failed == 0 && self.guest_failed == 0
    }

    /// The run's exit code: 0 where nothing failed, else 1.
    pub fn exit_code(&self) -> (r: i32)
        ensures
            r == (if self.succeeded() {
                0i32
            } else {
                1i32
            }),
    {
        if self.all_passed() {
            0
        } else {
            1
        }
    }
}

pub open spec fn empty_record() -> RunRecord {
    RunRecord {
        passed: 0,
        guest_passed: 0,
        ignored: 0,
        failed: 0,
        guest_failed: 0,
        unsupported: 0,
    }
}

/// The counts after a host run with outcome `o`.
pub open spec fn count_host(r: RunRecord, o: TestOutcome) -> RunRecord {
    match o {
        TestOutcome::Passed(_) => RunRecord { passed: (r.passed + 1) as u64, ..r },
        TestOutcome::Unsupported => RunRecord { unsupported: (r.unsupported + 1) as u64, ..r },
        _ => RunRecord { failed: (r.failed + 1) as u64, ..r },
    }
}

/// The next thing to do in a run.
#[derive(Debug, Clone, Copy, PartialEq, Eq, Structural)]
pub enum Step {
    /// The test at this index is ignored; it has been counted.
    Ignored(usize),
    /// Run the test at this index on the host, and report with `host_finished`.
    RunOnHost(usize),
    /// Run the test at this index in the guest, for a host run of this many
    /// nanoseconds, and report with `guest_finished`.
    RunOnGuest(usize, u64),
    /// Every selected test has been handled.
    Finished,
}

/// What the run is waiting for.
#[derive(Debug, Clone, Copy, PartialEq, Eq, Structural)]
pub enum Awaiting {
    /// Nothing: the next step can be taken.
    Nothing,
    HostRun(usize),
    GuestRun(usize),
}

pub struct RunView {
    pub ignore: Seq<bool>,
    pub selected: Seq<usize>,
    pub next: nat,
    pub guest: bool,
    pub awaiting: Awaiting,
    pub record: RunRecord,
}

/// A run over a registry.
pub struct Orchestrator {
    ignore: Vec<bool>,
    selected: Vec<usize>,
    next: usize,
    guest: bool,
    awaiting: Awaiting,
    record: RunRecord,
}

impl View for Orchestrator {
    type V = RunView;

    closed spec fn view(&self) -> RunView {
        RunView {
            ignore: self.ignore@,
            selected: self.selected@,
            next: self.next as nat,
            guest: self.guest,
            awaiting: self.awaiting,
            record: self.record,
        }
    }
}

impl Orchestrator {
    /// The well-formed states: every selected index names a test, no count
    /// exceeds the number of tests handled, and only tests that passed on the
    /// host run in the guest.
    pub open spec fn wf(&self) -> bool {
        let v = self@;
        &&& v.next <= v.selected.len()
        &&& forall|k: int| 0 <= k < v.selected.len() ==> v.selected[k] < v.ignore.len()
        &&& v.record.host_total() <= v.next
        &&& v.record.guest_total() <= v.record.passed
        &&& match v.awaiting {
            Awaiting::Nothing => true,
            Awaiting::HostRun(i) => v.next > 0 && v.selected[v.next - 1] == i
                && v.record.host_total() < v.next,
            Awaiting::GuestRun(i) => v.next > 0 && v.selected[v.next - 1] == i
                && v.record.guest_total() < v.record.passed,
        }
    }

    /// A run over `registry`, of the tests whose name contains `filter`, in the
    /// guest too where `guest` is set.
    pub fn new(registry: &Vec<TestDescriptor>, filter: Option<&str>, guest: bool) -> (o: Self)
        ensures
            o.wf(),
            o@.selected == filtered(registry@, filter_view(filter)),
            o@.ignore == registry@.map_values(|d: TestDescriptor| d.ignore),
            o@.next == 0,
            o@.guest == guest,
            o@.awaiting == Awaiting::Nothing,
            o@.record == empty_record(),
    {
        let selected = select_tests(registry, filter);
        let mut ignore: Vec<bool> = Vec::new();
        let mut i: usize = 0;
        while i < registry.len()
            invariant
                i <= registry@.len(),
                ignore@ == registry@.take(i as int).map_values(|d: TestDescriptor| d.ignore),
            decreases registry@.len() - i,
        {
            ignore.push(registry[i].ignore);
            i = i + 1;
            assert(registry@.take(i as int).map_values(|d: TestDescriptor| d.ignore)
                == registry@.take(i - 1).map_values(|d: TestDescriptor| d.ignore).push(
                registry@[i - 1].ignore,
            ));
        }
        assert(registry@.take(i as int) == registry@);
        proof {
            lemma_filtered_bounds(registry@, filter_view(filter));
        }
        Orchestrator {
            ignore,
            selected,
            next: 0,
            guest,
            awaiting: Awaiting::Nothing,
            record: RunRecord {
                passed: 0,
                guest_passed: 0,
                ignored: 0,
                failed: 0,
                guest_failed: 0,
                unsupported: 0,
            },
        }
    }

    /// The counts so far.
    pub fn record(&self) -> (r: RunRecord)
        ensures
            r == self@.record,
    {
        self.record
    }

    /// Takes the next step, where nothing is awaited: counts the next selected
    /// test if it is ignored, else asks for its host run.
    pub fn next_step(&mut self) -> (s: Step)
        requires
            old(self).wf(),
        ensures
            final(self).wf(),
            final(self)@.ignore == old(self)@.ignore,
            final(self)@.selected == old(self)@.selected,
            final(self)@.guest == old(self)@.guest,
            old(self)@.awaiting != Awaiting::Nothing ==> s == Step::Finished && final(self)@
                == old(self)@,
            old(self)@.awaiting == Awaiting::Nothing && old(self)@.next == old(self)@.selected.len()
                ==> s == Step::Finished && final(self)@ == old(self)@,
            old(self)@.awaiting == Awaiting::Nothing && old(self)@.next < old(self)@.selected.len()
                ==> {
                let i = old(self)@.selected[old(self)@.next as int];
                &&& final(self)@.next == old(self)@.next + 1
                &&& if old(self)@.ignore[i as int] {
                    &&& s == Step::Ignored(i)
                    &&& final(self)@.awaiting == Awaiting::Nothing
                    &&& final(self)@.record == (RunRecord {
                        ignored: (old(self)@.record.ignored + 1) as u64,
                        ..old(self)@.record
                    })
                } else {
                    &&& s == Step::RunOnHost(i)
                    &&& final(self)@.awaiting == Awaiting::HostRun(i)
                    &&& final(self)@.record == old(self)@.record
                }
            },
    {
        match self.awaiting {
            Awaiting::Nothing => {},
            _ => {
                return Step::Finished;
            },
        }
        if self.next >= self.selected.len() {
            return Step::Finished;
        }
        let i = self.selected[self.next];
        self.next = self.next + 1;
        if self.ignore[i] {
            self.record.ignored = self.record.ignored + 1;
            Step::Ignored(i)
        } else {
            self.awaiting = Awaiting::HostRun(i);
            Step::RunOnHost(i)
        }
    }

    /// The host run that was asked for ended with outcome `o`. It is counted,
    /// and where it passed and guest execution is enabled, the guest run of the
    /// same test is asked for.
    pub fn host_finished(&mut self, o: &TestOutcome) -> (s: Step)
        requires
            old(self).wf(),
        ensures
            final(self).wf(),
            final(self)@.ignore == old(self)@.ignore,
            final(self)@.selected == old(self)@.selected,
            final(self)@.guest == old(self)@.guest,
            final(self)@.next == old(self)@.next,
            !(old(self)@.awaiting is HostRun) ==> s == Step::Finished && final(self)@ == old(
                self,
            )@,
            old(self)@.awaiting is HostRun ==> {
                let i = old(self)@.awaiting->HostRun_0;
                &&& final(self)@.record == count_host(old(self)@.record, *o)
                &&& match *o {
                    TestOutcome::Passed(t) => if old(self)@.guest {
                        s == Step::RunOnGuest(i, t) && final(self)@.awaiting == Awaiting::GuestRun(
                            i,
                        )
                    } else {
                        s == Step::Finished && final(self)@.awaiting == Awaiting::Nothing
                    },
                    _ => s == Step::Finished && final(self)@.awaiting == Awaiting::Nothing,
                }
            },
    {
        let i = match self.awaiting {
            Awaiting::HostRun(i) => i,
            _ => {
                return Step::Finished;
            },
        };
        match o {
            TestOutcome::Passed(t) => {
                self.record.passed = self.record.passed + 1;
                if self.guest {
                    self.awaiting = Awaiting::GuestRun(i);
                    Step::RunOnGuest(i, *t)
                } else {
                    self.awaiting = Awaiting::Nothing;
                    Step::Finished
                }
            },
            TestOutcome::Unsupported => {
                self.record.unsupported = self.record.unsupported + 1;
                self.awaiting = Awaiting::Nothing;
                Step::Finished
            },
            _ => {
                self.record.failed = self.record.failed + 1;
                self.awaiting = Awaiting::Nothing;
                Step::Finished
            },
        }
    }

    /// The guest run that was asked for passed or not. It is counted.
    pub fn guest_finished(&mut self, passed: bool)
        requires
            old(self).wf(),
        ensures
            final(self).wf(),
            final(self)@.ignore == old(self)@.ignore,
            final(self)@.selected == old(self)@.selected,
            final(self)@.guest == old(self)@.guest,
            final(self)@.next == old(self)@.next,
            !(old(self)@.awaiting is GuestRun) ==> final(self)@ == old(self)@,
            old(self)@.awaiting is GuestRun ==> {
                &&& final(self)@.awaiting == Awaiting::Nothing
                &&& final(self)@.record == if passed {
                    RunRecord { guest_passed: (old(self)@.record.guest_passed + 1) as u64, ..old(self)@.record }
                } else {
                    RunRecord { guest_failed: (old(self)@.record.guest_failed + 1) as u64, ..old(self)@.record }
                }
            },
    {
        match self.awaiting {
            Awaiting::GuestRun(_) => {},
            _ => {
                return;
            },
        }
        if passed {
            self.record.guest_passed = self.record.guest_passed + 1;
        } else {
            self.record.guest_failed = self.record.guest_failed + 1;
        }
        self.awaiting = Awaiting::Nothing;
    }
}

proof fn lemma_filtered_bounds(reg: Seq<TestDescriptor>, filter: Option<Seq<char>>)
    ensures
        filtered(reg, filter).len() <= reg.len(),
        forall|k: int| 0 <= k < filtered(reg, filter).len() ==> filtered(reg, filter)[k] < reg.len(),
    decreases reg.len(),
{
    if reg.len() > 0 {
        lemma_filtered_bounds(reg.drop_last(), filter);
    }
}

} // verus!
