use vstd::prelude::*;
use vstd::string::StringSliceAdditionalSpecFns;
use crate::machine::{run_reaches, step_spec, Fault, Machine, RunState, SpecStep};
use crate::tokens::{Error, Instruction};
use crate::{first_excess_close, lex, lex_spec, parse, resolved_jump_map, scan_stack};

verus! {

/// The persistent interactive surface: a session that accumulates
/// instructions line by line, rematches brackets tolerantly over the whole
/// buffer each turn, and resumes execution where the previous turn stopped.
pub struct Program {
    pub machine: Machine,
    /// The first still-unmatched open bracket of the buffer, if any: recorded
    /// by tolerant matching, never a jump target.
    pub pending: Option<usize>,
}

impl Program {
    /// A fresh session: no instructions, a tape of one zeroed cell, both
    /// cursors at zero.
    pub fn new(strict: bool) -> (r: Program)
        ensures
            r.machine.wf(),
            r.machine@.strict == strict,
            r.machine@.instructions == Seq::<Instruction>::empty(),
            r.machine@.jump == Seq::<Option<usize>>::empty(),
            r.machine@.cells == seq![0u8],
            r.machine@.cell_pointer == 0,
            r.machine@.instruction_pointer == 0,
            r.machine@.max_cell == 0,
            r.pending is None,
    {
        let mut cells: Vec<u8> = Vec::new();
        cells.push(0);
        proof {
            assert(cells@ =~= seq![0u8]);
        }
        Program {
            machine: Machine {
                strict,
                cells,
                instructions: Vec::new(),
                jump: Vec::new(),
                cell_pointer: 0,
                instruction_pointer: 0,
                max_cell: 0,
            },
            pending: None,
        }
    }

    /// Append one line's instructions to the session's buffer and rematch the
    /// brackets of the whole buffer tolerantly. A close bracket in excess is
    /// an `UNMATCHED_CONDITIONAL`, reported at its position in the combined
    /// buffer, and leaves the session unchanged; tape and cursors are never
    /// touched here.
    pub fn feed_line(&mut self, line: &str) -> (r: Result<(), Error>)
        requires
            old(self).machine.wf(),
        ensures
            final(self).machine.wf(),
            ({
                let code = old(self).machine@.instructions + lex_spec(line.spec_bytes());
                let n = code.len() as int;
                match r {
                    Ok(()) => {
                        &&& first_excess_close(code, n) is None
                        &&& final(self).machine@.instructions == code
                        &&& resolved_jump_map(final(self).machine@.jump, code)
                        &&& final(self).pending == (if scan_stack(code, n).len() > 0 {
                            Some(scan_stack(code, n)[0] as usize)
                        } else {
                            None::<usize>
                        })
                        &&& final(self).machine@.cells == old(self).machine@.cells
                        &&& final(self).machine@.cell_pointer == old(self).machine@.cell_pointer
                        &&& final(self).machine@.instruction_pointer == old(
                            self,
                        ).machine@.instruction_pointer
                        &&& final(self).machine@.max_cell == old(self).machine@.max_cell
                        &&& final(self).machine@.strict == old(self).machine@.strict
                    },
                    Err(e) => {
                        &&& final(self).machine@ == old(self).machine@
                        &&& final(self).pending == old(self).pending
                        &&& first_excess_close(code, n) matches Some(p) && e
                            == Error::UNMATCHED_CONDITIONAL(p as usize)
                    },
                }
            }),
    {
        let mut fresh = lex(line);
        let mut combined: Vec<Instruction> = Vec::new();
        let ilen = self.machine.instructions.len();
        let mut i: usize = 0;
        while i < ilen
            invariant
                self.machine@ == old(self).machine@,
                ilen == self.machine.instructions@.len(),
                i <= ilen,
                combined@ == self.machine.instructions@.subrange(0, i as int),
            decreases ilen - i,
        {
            combined.push(self.machine.instructions[i]);
            proof {
                assert(self.machine.instructions@.subrange(0, i as int + 1)
                    =~= self.machine.instructions@.subrange(0, i as int).push(
                    self.machine.instructions@[i as int],
                ));
            }
            i = i + 1;
        }
        proof {
            assert(self.machine.instructions@.subrange(0, ilen as int)
                =~= self.machine.instructions@);
        }
        combined.append(&mut fresh);
        match parse(&combined, true) {
            Ok(table) => {
                self.machine.instructions = combined;
                self.machine.jump = table.map;
                self.pending = table.pending;
                Ok(())
            },
            Err(e) => Err(e),
        }
    }

    /// Resume execution for at most `budget` steps, as `Machine::run` does,
    /// appending every output byte to `output`. Tape and cursors survive
    /// across turns; a `Pending` stop waits for more instructions.
    pub fn run(&mut self, output: &mut Vec<u8>, budget: usize) -> (r: Result<RunState, Fault>)
        requires
            old(self).machine.wf(),
        ensures
            final(self).machine.wf(),
            final(self).pending == old(self).pending,
            run_reaches(
                old(self).machine@,
                old(output)@,
                final(self).machine@,
                final(output)@,
                budget as nat,
            ),
            match r {
                Ok(RunState::Running) => final(self).machine@ == crate::machine::trace(
                    old(self).machine@,
                    budget as nat,
                ).0 && final(output)@ == old(output)@ + crate::machine::trace(
                    old(self).machine@,
                    budget as nat,
                ).1,
                Ok(RunState::Halted) => step_spec(final(self).machine@) is Halt,
                Ok(RunState::NeedInput) => step_spec(final(self).machine@) is AwaitInput,
                Ok(RunState::Pending) => step_spec(final(self).machine@) is Pend,
                Err(f) => step_spec(final(self).machine@) == SpecStep::Fail(f.error) && f.command
                    == final(self).machine@.instruction_pointer + 1,
            },
    {
        self.machine.run(output, budget)
    }

    /// Answer a waiting input instruction with one line of input, as
    /// `Machine::feed_input` does.
    pub fn feed_input(&mut self, line: &[u8]) -> (r: Result<(), Fault>)
        requires
            old(self).machine.wf(),
            step_spec(old(self).machine@) is AwaitInput,
        ensures
            final(self).machine.wf(),
            final(self).pending == old(self).pending,
            match r {
                Ok(()) => crate::machine::input_byte(line@) matches Some(b) && final(self).machine@
                    == (crate::machine::MachineView {
                    cells: old(self).machine@.cells.update(old(self).machine@.cell_pointer, b),
                    instruction_pointer: old(self).machine@.instruction_pointer + 1,
                    ..old(self).machine@
                }),
                Err(f) => crate::machine::input_byte(line@) is None && final(self).machine@ == old(
                    self,
                ).machine@ && f == (Fault {
                    error: Error::INPUT_OVERFLOW,
                    command: (old(self).machine@.instruction_pointer + 1) as usize,
                }),
            },
    {
        self.machine.feed_input(line)
    }

    /// The full current tape, for the session's "cells" command.
    pub fn cells(&self) -> (r: &Vec<u8>)
        ensures
            r@ == self.machine@.cells,
    {
        &self.machine.cells
    }
}

} // verus!
