//! The descriptors of the tests that a run knows about.

use crate::outcome::ShouldPanic;
use vstd::prelude::*;

verus! {

/// One test of the registry. The pair `(name, source_file)` selects it across
/// processes; the code it runs is held by the caller, at the same index.
#[derive(Debug, Clone)]
pub struct TestDescriptor {
    pub name: String,
    pub source_file: String,
    /// Where the test is declared in its source file.
    pub start_line: usize,
    pub start_col: usize,
    pub ignore: bool,
    pub should_panic: ShouldPanic,
}

/// Whether `d` is the test selected by `(name, file)`.
pub open spec fn has_key(d: TestDescriptor, name: Seq<char>, file: Seq<char>) -> bool {
    d.name@ == name && d.source_file@ == file
}

/// Whether `d` is the test selected by `(name, file)`.
pub fn matches_key(d: &TestDescriptor, name: &String, file: &String) -> (r: bool)
    ensures
        r == has_key(*d, name@, file@),
{
    d.name == *name && d.source_file == *file
}

} // verus!
