//! What a fixture printed, before and after masking.

use vstd::prelude::*;
use crate::lines::{join, join_lines, lines_view, split, split_lines, well_formed};

verus! {

/// The mathematical content of an output: its lines and the exit status of the
/// process that printed them.
pub struct OutputView {
    pub lines: Seq<Seq<u8>>,
    pub exit_status: i32,
}

/// The raw output of one run of a fixture.
#[derive(Debug)]
pub struct CapturedOutput {
    lines: Vec<Vec<u8>>,
    exit_status: i32,
}

impl View for CapturedOutput {
    type V = OutputView;

    closed spec fn view(&self) -> OutputView {
        OutputView { lines: lines_view(self.lines@), exit_status: self.exit_status }
    }
}

impl CapturedOutput {
    #[verifier::type_invariant]
    spec fn inv(self) -> bool {
        well_formed(lines_view(self.lines@))
    }

    /// Captures what a process wrote to its standard output, and how it exited.
    pub fn new(exit_status: i32, stdout: &[u8]) -> (captured: CapturedOutput)
        ensures
            captured@.lines == split_lines(stdout@),
            captured@.exit_status == exit_status,
            well_formed(captured@.lines),
    {
        CapturedOutput { lines: split(stdout), exit_status }
    }

    /// The captured lines, each with its terminator.
    pub fn lines(&self) -> (lines: &Vec<Vec<u8>>)
        ensures
            lines_view(lines@) == self@.lines,
            well_formed(self@.lines),
    {
        proof {
            use_type_invariant(self);
        }
        &self.lines
    }

    /// The exit status of the process.
    pub fn exit_status(&self) -> (status: i32)
        ensures
            status == self@.exit_status,
    {
        self.exit_status
    }

    /// Whether the process reported success.
    pub fn succeeded(&self) -> (ok: bool)
        ensures
            ok == (self@.exit_status == 0),
    {
        self.exit_status == 0
    }

    /// The captured text, byte for byte as the process wrote it.
    pub fn to_bytes(&self) -> (text: Vec<u8>)
        ensures
            text@ == join_lines(self@.lines),
    {
        join(&self.lines)
    }
}

} // verus!
