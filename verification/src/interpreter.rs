use vstd::prelude::*;
use vstd::string::StringSliceAdditionalSpecFns;
use crate::machine::{fully_matched, run_reaches, step_spec, trace, Fault, Machine, RunState, SpecStep, TAPE_CEILING};
use crate::machine::{lemma_step_preserves_program, lemma_trace_preserves_program};
use crate::tokens::{Error, Instruction};
use crate::{first_excess_close, lemma_all_brackets_accounted, lex, lex_spec, parse, resolved_jump_map, scan_pairs, scan_stack};

verus! {

/// The one-shot batch surface: the whole source is lexed once, must hold at
/// least one command and fully balanced brackets, and runs on a tape of
/// 30000 zeroed cells.
pub struct Program {
    pub machine: Machine,
}

impl Program {
    /// Build a batch program from source text. An empty lexed program is
    /// `NO_COMMANDS`; brackets are matched without tolerance, so any
    /// unmatched bracket is an `UNMATCHED_CONDITIONAL` exactly as `parse`
    /// reports it.
    pub fn new(source: &str, strict: bool) -> (r: Result<Program, Error>)
        ensures
            ({
                let code = lex_spec(source.spec_bytes());
                let n = code.len() as int;
                match r {
                    Ok(p) => {
                        &&& code.len() > 0
                        &&& first_excess_close(code, n) is None
                        &&& scan_stack(code, n).len() == 0
                        &&& p.machine.wf()
                        &&& p.machine@.strict == strict
                        &&& p.machine@.instructions == code
                        &&& resolved_jump_map(p.machine@.jump, code)
                        &&& p.machine@.cells.len() == TAPE_CEILING
                        &&& (forall|j: int| 0 <= j < TAPE_CEILING ==> p.machine@.cells[j] == 0)
                        &&& p.machine@.cell_pointer == 0
                        &&& p.machine@.instruction_pointer == 0
                        &&& p.machine@.max_cell == 0
                        &&& fully_matched(p.machine@)
                    },
                    Err(e) => if code.len() == 0 {
                        e == Error::NO_COMMANDS
                    } else {
                        match first_excess_close(code, n) {
                            Some(p) => e == Error::UNMATCHED_CONDITIONAL(p as usize),
                            None => scan_stack(code, n).len() > 0 && e
                                == Error::UNMATCHED_CONDITIONAL(
                                (scan_stack(code, n)[0] + 1) as usize,
                            ),
                        }
                    },
                }
            }),
    {
        let instructions = lex(source);
        if instructions.len() == 0 {
            return Err(Error::NO_COMMANDS);
        }
        let table = match parse(&instructions, false) {
            Ok(t) => t,
            Err(e) => {
                return Err(e);
            },
        };
        let mut cells: Vec<u8> = Vec::new();
        let mut i: usize = 0;
        while i < TAPE_CEILING
            invariant
                i <= TAPE_CEILING,
                cells@.len() == i,
                forall|j: int| 0 <= j < i ==> cells@[j] == 0,
            decreases TAPE_CEILING - i,
        {
            cells.push(0);
            i = i + 1;
        }
        let program = Program {
            machine: Machine {
                strict,
                cells,
                instructions,
                jump: table.map,
                cell_pointer: 0,
                instruction_pointer: 0,
                max_cell: 0,
            },
        };
        proof {
            let code = program.machine@.instructions;
            let n = code.len() as int;
            lemma_all_brackets_accounted(code, n);
            assert forall|i: int|
                0 <= i < n && (code[i] == Instruction::CONDITIONAL_BEGIN || code[i]
                    == Instruction::CONDITIONAL_END) implies (
            #[trigger] program.machine@.jump[i]) is Some by {
                assert(scan_stack(code, n).len() == 0);
                assert(!scan_stack(code, n).contains(i));
                assert(scan_pairs(code, n).contains_key(i));
            }
        }
        Ok(program)
    }

    /// Execute at most `budget` steps of the program, as `Machine::run` does,
    /// appending every output byte to `output`.
    pub fn run(&mut self, output: &mut Vec<u8>, budget: usize) -> (r: Result<RunState, Fault>)
        requires
            old(self).machine.wf(),
        ensures
            final(self).machine.wf(),
            run_reaches(
                old(self).machine@,
                old(output)@,
                final(self).machine@,
                final(output)@,
                budget as nat,
            ),
            match r {
                Ok(RunState::Running) => final(self).machine@ == crate::machine::trace(
                    old(self).machine@,
                    budget as nat,
                ).0 && final(output)@ == old(output)@ + crate::machine::trace(
                    old(self).machine@,
                    budget as nat,
                ).1,
                Ok(RunState::Halted) => step_spec(final(self).machine@) is Halt,
                Ok(RunState::NeedInput) => step_spec(final(self).machine@) is AwaitInput,
                Ok(RunState::Pending) => step_spec(final(self).machine@) is Pend,
                Err(f) => step_spec(final(self).machine@) == SpecStep::Fail(f.error) && f.command
                    == final(self).machine@.instruction_pointer + 1,
            },
            fully_matched(old(self).machine@) ==> fully_matched(final(self).machine@) && !(r
                matches Ok(RunState::Pending)),
    {
        let r = self.machine.run(output, budget);
        proof {
            if fully_matched(old(self).machine@) {
                let m0 = old(self).machine@;
                let out0 = old(output)@;
                let n = choose|n: nat|
                    n <= budget as nat && self.machine@ == (#[trigger] trace(m0, n)).0 && output@
                        == out0 + trace(m0, n).1;
                lemma_trace_preserves_program(m0, n);
                assert(self.machine@.instructions == m0.instructions);
                assert(self.machine@.jump == m0.jump);
                assert forall|i: int|
                    0 <= i < self.machine@.instructions.len() && (self.machine@.instructions[i]
                        == Instruction::CONDITIONAL_BEGIN || self.machine@.instructions[i]
                        == Instruction::CONDITIONAL_END) implies (
                #[trigger] self.machine@.jump[i]) is Some by {
                    assert(m0.jump[i] is Some);
                }
                lemma_step_preserves_program(self.machine@);
            }
        }
        r
    }

    /// Answer a waiting input instruction with one line of input, as
    /// `Machine::feed_input` does.
    pub fn feed_input(&mut self, line: &[u8]) -> (r: Result<(), Fault>)
        requires
            old(self).machine.wf(),
            step_spec(old(self).machine@) is AwaitInput,
        ensures
            final(self).machine.wf(),
            match r {
                Ok(()) => crate::machine::input_byte(line@) matches Some(b) && final(self).machine@
                    == (crate::machine::MachineView {
                    cells: old(self).machine@.cells.update(old(self).machine@.cell_pointer, b),
                    instruction_pointer: old(self).machine@.instruction_pointer + 1,
                    ..old(self).machine@
                }),
                Err(f) => crate::machine::input_byte(line@) is None && final(self).machine@ == old(
                    self,
                ).machine@ && f == (Fault {
                    error: Error::INPUT_OVERFLOW,
                    command: (old(self).machine@.instruction_pointer + 1) as usize,
                }),
            },
    {
        self.machine.feed_input(line)
    }

    /// The tape from cell 0 through the highest cell the pointer has visited,
    /// for the debug dump after a halted run.
    pub fn debug_cells(&self) -> (r: Vec<u8>)
        requires
            self.machine.wf(),
        ensures
            r@ == self.machine@.cells.subrange(0, self.machine@.max_cell + 1),
    {
        self.machine.debug_cells()
    }
}

} // verus!
