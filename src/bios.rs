//! The firmware layer: runs text programs line by line, assembles them, and
//! loads and runs binary programs.
use vstd::prelude::*;
use crate::assembler::Assembler;
use crate::cpu::{CPU, MachineState, run_tokens};
use crate::error::MachineError;
use crate::ram::RAM_SIZE;
use crate::runner::{RunStatus, loaded, run_from};
use crate::text::tokens_of;

verus! {

/// Why a text program stopped: the index of the failing line, and its
/// error.
#[derive(Clone, Copy, Debug, PartialEq, Eq, Structural)]
pub struct LineError {
    pub line: usize,
    pub error: MachineError,
}

/// Runs a text program line by line from line `i` on, from `s`: the final
/// state, and whether a `HALT` stopped it, or the first failing line and
/// its error (what the lines before it did stays).
pub open spec fn run_text_from(s: MachineState, lines: Seq<Seq<char>>, i: int) -> (
    MachineState,
    Result<bool, LineError>,
)
    decreases lines.len() - i,
{
    if i >= lines.len() {
        (s, Ok(false))
    } else {
        match run_tokens(s, tokens_of(lines[i])) {
            Err(e) => (s, Err(LineError { line: i as usize, error: e })),
            Ok((s2, false)) => (s2, Ok(true)),
            Ok((s2, true)) => run_text_from(s2, lines, i + 1),
        }
    }
}

/// Runs a whole text program from `s`.
pub open spec fn run_text(s: MachineState, lines: Seq<Seq<char>>) -> (
    MachineState,
    Result<bool, LineError>,
) {
    run_text_from(s, lines, 0)
}

/// The processor together with the assembler.
pub struct BIOS {
    pub cpu: CPU,
    pub assembler: Assembler,
}

impl BIOS {
    pub fn new(cpu: CPU) -> (b: Self)
        ensures
            b.cpu@ == cpu@,
            b.assembler@ == Seq::<(Seq<char>, nat)>::empty(),
    {
        BIOS { cpu, assembler: Assembler::new() }
    }

    /// Executes a text program, one entry per line, until it ends, halts or
    /// fails. `Ok(true)` means a `HALT` was reached.
    pub fn execute_asm(&mut self, lines: &Vec<String>) -> (r: Result<bool, LineError>)
        ensures
            (final(self).cpu@, r) == run_text(old(self).cpu@, lines@.map_values(|l: String| l@)),
            final(self).assembler@ == old(self).assembler@,
    {
        let ghost lv = lines@.map_values(|l: String| l@);
        let mut i: usize = 0;
        while i < lines.len()
            invariant
                i <= lines@.len(),
                lv == lines@.map_values(|l: String| l@),
                self.assembler@ == old(self).assembler@,
                run_text_from(self.cpu@, lv, i as int) == run_text(old(self).cpu@, lv),
            decreases lines@.len() - i,
        {
            assert(lv[i as int] == lines@[i as int]@);
            match self.cpu.execute(lines[i].as_str()) {
                Err(e) => return Err(LineError { line: i, error: e }),
                Ok(false) => return Ok(true),
                Ok(true) => {},
            }
            i = i + 1;
        }
        Ok(false)
    }

    /// Loads `program` at address 0 and runs it for at most `max_steps`
    /// instructions.
    pub fn execute_binary(&mut self, program: &Vec<u8>, max_steps: usize) -> (r: Result<
        RunStatus,
        MachineError,
    >)
        ensures
            program@.len() > RAM_SIZE ==> r == Err::<RunStatus, MachineError>(
                MachineError::OutOfBounds(RAM_SIZE),
            ) && final(self).cpu@ == old(self).cpu@,
            program@.len() <= RAM_SIZE ==> (final(self).cpu@, r) == run_from(
                loaded(old(self).cpu@, program@),
                0,
                max_steps as nat,
            ),
            final(self).assembler@ == old(self).assembler@,
    {
        match self.cpu.load_program(program) {
            Err(e) => Err(e),
            Ok(()) => self.cpu.run_binary(max_steps),
        }
    }
}

} // verus!
