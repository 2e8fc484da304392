use vstd::prelude::*;
use crate::tokens::{Error, Instruction};

verus! {

/// Strict mode refuses to let the tape grow past this many cells.
pub const TAPE_CEILING: usize = 30000;

/// A runtime failure together with the 1-based index of the instruction that
/// raised it.
#[derive(PartialEq, Eq, Clone, Copy, Debug, Structural)]
pub struct Fault {
    pub error: Error,
    pub command: usize,
}

/// Why a bounded run stopped without failing.
#[derive(PartialEq, Eq, Clone, Copy, Debug, Structural)]
pub enum RunState {
    /// The step budget ran out; call `run` again to continue.
    Running,
    /// The instruction pointer ran past the end of the program.
    Halted,
    /// An input instruction waits for one line of input (`feed_input`).
    NeedInput,
    /// An open bracket with no partner yet was entered on a zero cell; more
    /// instructions must arrive before execution can continue.
    Pending,
}

/// What a single fetch-execute step did.
#[derive(PartialEq, Eq, Clone, Copy, Debug, Structural)]
pub enum StepOutcome {
    /// One instruction was executed, possibly emitting an output byte.
    Stepped(Option<u8>),
    NeedInput,
    Halted,
    Pending,
    Failed(Fault),
}

/// Mathematical state of the execution engine.
#[verifier::ext_equal]
pub ghost struct MachineView {
    pub strict: bool,
    pub cells: Seq<u8>,
    pub instructions: Seq<Instruction>,
    pub jump: Seq<Option<usize>>,
    pub cell_pointer: int,
    pub instruction_pointer: int,
    pub max_cell: int,
}

/// One abstract fetch-execute step.
#[verifier::ext_equal]
pub ghost enum SpecStep {
    /// The machine advanced to `next`, possibly emitting an output byte.
    Go { next: MachineView, out: Option<u8> },
    /// An input instruction needs a line of input; the machine is unchanged.
    AwaitInput,
    /// The instruction pointer is past the end of the program.
    Halt,
    /// A bracket with no recorded partner was reached on the deciding cell
    /// value; the machine is unchanged, awaiting more instructions.
    Pend,
    /// The step raises this error; the machine is unchanged.
    Fail(Error),
}

/// The transition a machine in state `m` makes for its current instruction,
/// exactly as the execution engine performs it.
pub open spec fn step_spec(m: MachineView) -> SpecStep {
    if !(0 <= m.instruction_pointer < m.instructions.len()) {
        SpecStep::Halt
    } else {
        let ip = m.instruction_pointer;
        let cp = m.cell_pointer;
        let v = m.cells[cp];
        match m.instructions[ip] {
            Instruction::POINTER_RIGHT => if m.strict && cp == m.cells.len() - 1
                && m.cells.len() >= TAPE_CEILING {
                SpecStep::Fail(Error::CELL_BOUNDS_VIOLATED_RIGHT)
            } else {
                let cells2 = if cp == m.cells.len() - 1 {
                    m.cells.push(0)
                } else {
                    m.cells
                };
                SpecStep::Go {
                    next: MachineView {
                        cells: cells2,
                        cell_pointer: cp + 1,
                        instruction_pointer: ip + 1,
                        max_cell: if m.max_cell < cp + 1 {
                            cp + 1
                        } else {
                            m.max_cell
                        },
                        ..m
                    },
                    out: None,
                }
            },
            Instruction::POINTER_LEFT => if cp == 0 {
                if m.strict {
                    SpecStep::Fail(Error::CELL_BOUNDS_VIOLATED_LEFT)
                } else {
                    let wrapped = m.cells.len() - 1;
                    SpecStep::Go {
                        next: MachineView {
                            cell_pointer: wrapped,
                            instruction_pointer: ip + 1,
                            max_cell: if m.max_cell < wrapped {
                                wrapped
                            } else {
                                m.max_cell
                            },
                            ..m
                        },
                        out: None,
                    }
                }
            } else {
                SpecStep::Go {
                    next: MachineView { cell_pointer: cp - 1, instruction_pointer: ip + 1, ..m },
                    out: None,
                }
            },
            Instruction::DATA_INCREMENT => if v == 255 {
                if m.strict {
                    SpecStep::Fail(Error::CELL_DATA_OVERFLOW)
                } else {
                    SpecStep::Go {
                        next: MachineView {
                            cells: m.cells.update(cp, 0),
                            instruction_pointer: ip + 1,
                            ..m
                        },
                        out: None,
                    }
                }
            } else {
                SpecStep::Go {
                    next: MachineView {
                        cells: m.cells.update(cp, (v + 1) as u8),
                        instruction_pointer: ip + 1,
                        ..m
                    },
                    out: None,
                }
            },
            Instruction::DATA_DECREMENT => if v == 0 {
                if m.strict {
                    SpecStep::Fail(Error::CELL_DATA_UNDERFLOW)
                } else {
                    SpecStep::Go {
                        next: MachineView {
                            cells: m.cells.update(cp, 255),
                            instruction_pointer: ip + 1,
                            ..m
                        },
                        out: None,
                    }
                }
            } else {
                SpecStep::Go {
                    next: MachineView {
                        cells: m.cells.update(cp, (v - 1) as u8),
                        instruction_pointer: ip + 1,
                        ..m
                    },
                    out: None,
                }
            },
            Instruction::DATA_OUTPUT => SpecStep::Go {
                next: MachineView { instruction_pointer: ip + 1, ..m },
                out: Some(v),
            },
            Instruction::DATA_INPUT => SpecStep::AwaitInput,
            Instruction::CONDITIONAL_BEGIN => if v != 0 {
                SpecStep::Go {
                    next: MachineView { instruction_pointer: ip + 1, ..m },
                    out: None,
                }
            } else {
                match m.jump[ip] {
                    Some(e) => SpecStep::Go {
                        next: MachineView { instruction_pointer: e + 1, ..m },
                        out: None,
                    },
                    None => SpecStep::Pend,
                }
            },
            Instruction::CONDITIONAL_END => if v == 0 {
                SpecStep::Go {
                    next: MachineView { instruction_pointer: ip + 1, ..m },
                    out: None,
                }
            } else {
                match m.jump[ip] {
                    Some(b) => SpecStep::Go {
                        next: MachineView { instruction_pointer: b + 1, ..m },
                        out: None,
                    },
                    None => SpecStep::Pend,
                }
            },
        }
    }
}

/// The output bytes one step emits.
pub open spec fn opt_byte(out: Option<u8>) -> Seq<u8> {
    match out {
        Some(b) => seq![b],
        None => Seq::empty(),
    }
}

/// The machine state and accumulated output after `n` fetch-execute steps.
/// A machine that cannot advance (halt, pending, awaited input, failure)
/// stays where it is.
pub open spec fn trace(m: MachineView, n: nat) -> (MachineView, Seq<u8>)
    decreases n,
{
    if n == 0 {
        (m, Seq::empty())
    } else {
        match step_spec(m) {
            SpecStep::Go { next, out } => {
                let rest = trace(next, (n - 1) as nat);
                (rest.0, opt_byte(out) + rest.1)
            },
            _ => (m, Seq::empty()),
        }
    }
}

/// Extending a trace by one step appends that step's effect at its end.
pub proof fn lemma_trace_snoc(m: MachineView, n: nat)
    ensures
        ({
            let mk = trace(m, n).0;
            let out = trace(m, n).1;
            match step_spec(mk) {
                SpecStep::Go { next, out: b } => trace(m, n + 1).0 == next && trace(m, n + 1).1
                    == out + opt_byte(b),
                _ => trace(m, n + 1).0 == mk && trace(m, n + 1).1 == out,
            }
        }),
    decreases n,
{
    if n == 0 {
        match step_spec(m) {
            SpecStep::Go { next, out: b } => {
                assert(trace(m, 1).0 == trace(next, 0).0);
                assert(trace(m, 1).1 =~= opt_byte(b));
                assert(trace(m, 0).1 + opt_byte(b) =~= opt_byte(b));
            },
            _ => {
                assert(trace(m, 1).0 == m);
                assert(trace(m, 1).1 =~= trace(m, 0).1);
            },
        }
    } else {
        match step_spec(m) {
            SpecStep::Go { next, out } => {
                lemma_trace_snoc(next, (n - 1) as nat);
                let mk = trace(next, (n - 1) as nat).0;
                assert(trace(m, n).0 == mk);
                match step_spec(mk) {
                    SpecStep::Go { next: next2, out: b } => {
                        assert(trace(next, n).1 == trace(next, (n - 1) as nat).1 + opt_byte(b));
                        assert(opt_byte(out) + (trace(next, (n - 1) as nat).1 + opt_byte(b)) =~= (
                        opt_byte(out) + trace(next, (n - 1) as nat).1) + opt_byte(b));
                    },
                    _ => {
                        assert(trace(next, n).1 == trace(next, (n - 1) as nat).1);
                    },
                }
            },
            _ => {
                assert(trace(m, n + 1).0 == m && trace(m, n + 1).1 =~= trace(m, n).1);
            },
        }
    }
}

/// Every bracket of the program has a recorded partner. Batch programs have
/// this by construction, since their brackets must be fully balanced.
pub open spec fn fully_matched(m: MachineView) -> bool {
    forall|i: int|
        0 <= i < m.instructions.len() && (m.instructions[i] == Instruction::CONDITIONAL_BEGIN
            || m.instructions[i] == Instruction::CONDITIONAL_END) ==> (#[trigger] m.jump[i]) is Some
}

/// A step never changes the program, its jump table or its mode, and a fully
/// matched machine never steps into a pending bracket.
pub proof fn lemma_step_preserves_program(m: MachineView)
    ensures
        (match step_spec(m) {
            SpecStep::Go { next, .. } => next.instructions == m.instructions && next.jump == m.jump
                && next.strict == m.strict,
            _ => true,
        }),
        fully_matched(m) ==> !(step_spec(m) is Pend),
{
    if 0 <= m.instruction_pointer < m.instructions.len() {
        if fully_matched(m) {
            assert(m.instructions[m.instruction_pointer] == Instruction::CONDITIONAL_BEGIN
                || m.instructions[m.instruction_pointer] == Instruction::CONDITIONAL_END
                ==> m.jump[m.instruction_pointer] is Some);
        }
    }
}

/// However long a machine runs, the program, the jump table and the mode are
/// the ones it started with.
pub proof fn lemma_trace_preserves_program(m: MachineView, n: nat)
    ensures
        trace(m, n).0.instructions == m.instructions,
        trace(m, n).0.jump == m.jump,
        trace(m, n).0.strict == m.strict,
    decreases n,
{
    if n > 0 {
        lemma_step_preserves_program(m);
        match step_spec(m) {
            SpecStep::Go { next, .. } => {
                lemma_trace_preserves_program(next, (n - 1) as nat);
            },
            _ => {},
        }
    }
}

/// Within `budget` steps, a machine seen as `m0` with output written so far
/// `out0` can reach state `m1` with the output grown to `out1`.
pub open spec fn run_reaches(m0: MachineView, out0: Seq<u8>, m1: MachineView, out1: Seq<u8>, budget: nat) -> bool {
    exists|n: nat|
        n <= budget && m1 == (#[trigger] trace(m0, n)).0 && out1 == out0 + trace(m0, n).1
}

/// The execution engine: a growable byte tape, the program, its jump table,
/// and the two cursors. Shared by the batch and the interactive surfaces.
pub struct Machine {
    pub strict: bool,
    pub cells: Vec<u8>,
    pub instructions: Vec<Instruction>,
    pub jump: Vec<Option<usize>>,
    pub cell_pointer: usize,
    pub instruction_pointer: usize,
    pub max_cell: usize,
}

impl View for Machine {
    type V = MachineView;

    open spec fn view(&self) -> MachineView {
        MachineView {
            strict: self.strict,
            cells: self.cells@,
            instructions: self.instructions@,
            jump: self.jump@,
            cell_pointer: self.cell_pointer as int,
            instruction_pointer: self.instruction_pointer as int,
            max_cell: self.max_cell as int,
        }
    }
}

impl Machine {
    /// Structural well-formedness: one jump entry per instruction, every
    /// recorded jump target in bounds, and both tape cursors inside the tape.
    pub open spec fn wf(self) -> bool {
        &&& self.jump@.len() == self.instructions@.len()
        &&& forall|i: int|
            0 <= i < self.jump@.len() ==> (#[trigger] self.jump@[i] matches Some(j) ==> j
                < self.instructions@.len())
        &&& self.cell_pointer < self.cells@.len()
        &&& self.max_cell < self.cells@.len()
    }

    /// Perform one fetch-execute step, exactly as `step_spec` describes it.
    pub fn step_once(&mut self) -> (r: StepOutcome)
        requires
            old(self).wf(),
        ensures
            final(self).wf(),
            match r {
                StepOutcome::Stepped(out) => step_spec(old(self)@) == (SpecStep::Go {
                    next: final(self)@,
                    out,
                }),
                StepOutcome::NeedInput => final(self)@ == old(self)@ && step_spec(
                    old(self)@,
                ) is AwaitInput,
                StepOutcome::Halted => final(self)@ == old(self)@ && step_spec(
                    old(self)@,
                ) is Halt,
                StepOutcome::Pending => final(self)@ == old(self)@ && step_spec(
                    old(self)@,
                ) is Pend,
                StepOutcome::Failed(f) => final(self)@ == old(self)@ && step_spec(old(self)@)
                    == SpecStep::Fail(f.error) && f.command == old(self)@.instruction_pointer + 1,
            },
    {
        let ghost m0 = self@;
        let ilen = self.instructions.len();
        if self.instruction_pointer >= ilen {
            return StepOutcome::Halted;
        }
        let ip = self.instruction_pointer;
        let clen = self.cells.len();
        let t = self.instructions[ip];
        match t {
            Instruction::POINTER_RIGHT => {
                if self.strict && self.cell_pointer == clen - 1 && clen >= TAPE_CEILING {
                    return StepOutcome::Failed(
                        Fault { error: Error::CELL_BOUNDS_VIOLATED_RIGHT, command: ip + 1 },
                    );
                }
                if self.cell_pointer == clen - 1 {
                    self.cells.push(0);
                }
                self.cell_pointer = self.cell_pointer + 1;
                if self.max_cell < self.cell_pointer {
                    self.max_cell = self.cell_pointer;
                }
                self.instruction_pointer = ip + 1;
                proof {
                    assert(step_spec(m0) =~= (SpecStep::Go { next: self@, out: None::<u8> }));
                }
                StepOutcome::Stepped(None)
            },
            Instruction::POINTER_LEFT => {
                if self.cell_pointer == 0 {
                    if self.strict {
                        return StepOutcome::Failed(
                            Fault { error: Error::CELL_BOUNDS_VIOLATED_LEFT, command: ip + 1 },
                        );
                    }
                    self.cell_pointer = clen - 1;
                    if self.max_cell < self.cell_pointer {
                        self.max_cell = self.cell_pointer;
                    }
                } else {
                    self.cell_pointer = self.cell_pointer - 1;
                }
                self.instruction_pointer = ip + 1;
                proof {
                    assert(step_spec(m0) =~= (SpecStep::Go { next: self@, out: None::<u8> }));
                }
                StepOutcome::Stepped(None)
            },
            Instruction::DATA_INCREMENT => {
                let v = self.cells[self.cell_pointer];
                if v == 255 {
                    if self.strict {
                        return StepOutcome::Failed(
                            Fault { error: Error::CELL_DATA_OVERFLOW, command: ip + 1 },
                        );
                    }
                    self.cells.set(self.cell_pointer, 0);
                } else {
                    self.cells.set(self.cell_pointer, v + 1);
                }
                self.instruction_pointer = ip + 1;
                proof {
                    assert(step_spec(m0) =~= (SpecStep::Go { next: self@, out: None::<u8> }));
                }
                StepOutcome::Stepped(None)
            },
            Instruction::DATA_DECREMENT => {
                let v = self.cells[self.cell_pointer];
                if v == 0 {
                    if self.strict {
                        return StepOutcome::Failed(
                            Fault { error: Error::CELL_DATA_UNDERFLOW, command: ip + 1 },
                        );
                    }
                    self.cells.set(self.cell_pointer, 255);
                } else {
                    self.cells.set(self.cell_pointer, v - 1);
                }
                self.instruction_pointer = ip + 1;
                proof {
                    assert(step_spec(m0) =~= (SpecStep::Go { next: self@, out: None::<u8> }));
                }
                StepOutcome::Stepped(None)
            },
            Instruction::DATA_OUTPUT => {
                let b = self.cells[self.cell_pointer];
                self.instruction_pointer = ip + 1;
                proof {
                    assert(step_spec(m0) =~= (SpecStep::Go { next: self@, out: Some(b) }));
                }
                StepOutcome::Stepped(Some(b))
            },
            Instruction::DATA_INPUT => StepOutcome::NeedInput,
            Instruction::CONDITIONAL_BEGIN => {
                let v = self.cells[self.cell_pointer];
                if v != 0 {
                    self.instruction_pointer = ip + 1;
                    proof {
                        assert(step_spec(m0) =~= (SpecStep::Go { next: self@, out: None::<u8> }));
                    }
                    StepOutcome::Stepped(None)
                } else {
                    match self.jump[ip] {
                        Some(e) => {
                            self.instruction_pointer = e + 1;
                            proof {
                                assert(step_spec(m0) =~= (SpecStep::Go {
                                    next: self@,
                                    out: None::<u8>,
                                }));
                            }
                            StepOutcome::Stepped(None)
                        },
                        None => StepOutcome::Pending,
                    }
                }
            },
            Instruction::CONDITIONAL_END => {
                let v = self.cells[self.cell_pointer];
                if v == 0 {
                    self.instruction_pointer = ip + 1;
                    proof {
                        assert(step_spec(m0) =~= (SpecStep::Go { next: self@, out: None::<u8> }));
                    }
                    StepOutcome::Stepped(None)
                } else {
                    match self.jump[ip] {
                        Some(b) => {
                            self.instruction_pointer = b + 1;
                            proof {
                                assert(step_spec(m0) =~= (SpecStep::Go {
                                    next: self@,
                                    out: None::<u8>,
                                }));
                            }
                            StepOutcome::Stepped(None)
                        },
                        None => StepOutcome::Pending,
                    }
                }
            },
        }
    }

    /// Execute at most `budget` steps, appending every emitted byte to
    /// `output` in order. Stops early when the machine halts, wants input,
    /// reaches a pending bracket, or fails; `Running` means the budget ran
    /// out with the machine still able to advance another step.
    pub fn run(&mut self, output: &mut Vec<u8>, budget: usize) -> (r: Result<RunState, Fault>)
        requires
            old(self).wf(),
        ensures
            final(self).wf(),
            run_reaches(old(self)@, old(output)@, final(self)@, final(output)@, budget as nat),
            match r {
                Ok(RunState::Running) => final(self)@ == trace(old(self)@, budget as nat).0
                    && final(output)@ == old(output)@ + trace(old(self)@, budget as nat).1,
                Ok(RunState::Halted) => step_spec(final(self)@) is Halt,
                Ok(RunState::NeedInput) => step_spec(final(self)@) is AwaitInput,
                Ok(RunState::Pending) => step_spec(final(self)@) is Pend,
                Err(f) => step_spec(final(self)@) == SpecStep::Fail(f.error) && f.command
                    == final(self)@.instruction_pointer + 1,
            },
    {
        let ghost m0 = old(self)@;
        let ghost out0 = old(output)@;
        proof {
            assert(out0 + trace(m0, 0).1 =~= out0);
        }
        let mut k: usize = 0;
        while k < budget
            invariant
                m0 == old(self)@,
                out0 == old(output)@,
                self.wf(),
                k <= budget,
                self@ == trace(m0, k as nat).0,
                output@ == out0 + trace(m0, k as nat).1,
            decreases budget - k,
        {
            proof {
                lemma_trace_snoc(m0, k as nat);
            }
            match self.step_once() {
                StepOutcome::Stepped(b) => {
                    match b {
                        Some(x) => output.push(x),
                        None => (),
                    }
                    proof {
                        assert(output@ =~= out0 + trace(m0, (k + 1) as nat).1);
                    }
                    k = k + 1;
                },
                StepOutcome::Halted => {
                    proof {
                        assert(run_reaches(m0, out0, self@, output@, budget as nat));
                    }
                    return Ok(RunState::Halted);
                },
                StepOutcome::NeedInput => {
                    proof {
                        assert(run_reaches(m0, out0, self@, output@, budget as nat));
                    }
                    return Ok(RunState::NeedInput);
                },
                StepOutcome::Pending => {
                    proof {
                        assert(run_reaches(m0, out0, self@, output@, budget as nat));
                    }
                    return Ok(RunState::Pending);
                },
                StepOutcome::Failed(f) => {
                    proof {
                        assert(run_reaches(m0, out0, self@, output@, budget as nat));
                    }
                    return Err(f);
                },
            }
        }
        proof {
            assert(run_reaches(m0, out0, self@, output@, budget as nat));
        }
        Ok(RunState::Running)
    }

    /// Answer a waiting input instruction with one line of input. Carriage
    /// returns are stripped; the line must then be a single byte, optionally
    /// followed by a newline, which becomes the current cell's value; any
    /// other content is an `INPUT_OVERFLOW`, and the machine is unchanged.
    pub fn feed_input(&mut self, line: &[u8]) -> (r: Result<(), Fault>)
        requires
            old(self).wf(),
            step_spec(old(self)@) is AwaitInput,
        ensures
            final(self).wf(),
            match r {
                Ok(()) => input_byte(line@) matches Some(b) && final(self)@ == (MachineView {
                    cells: old(self)@.cells.update(old(self)@.cell_pointer, b),
                    instruction_pointer: old(self)@.instruction_pointer + 1,
                    ..old(self)@
                }),
                Err(f) => input_byte(line@) is None && final(self)@ == old(self)@ && f == (Fault {
                    error: Error::INPUT_OVERFLOW,
                    command: (old(self)@.instruction_pointer + 1) as usize,
                }),
            },
    {
        let n = line.len();
        let mut stripped: Vec<u8> = Vec::new();
        let mut i: usize = 0;
        while i < n
            invariant
                i <= n,
                n == line@.len(),
                stripped@ == line@.subrange(0, i as int).filter(|b: u8| b != 13),
            decreases n - i,
        {
            let b = line[i];
            proof {
                reveal(Seq::filter);
                let pre = line@.subrange(0, i as int);
                let post = line@.subrange(0, i as int + 1);
                assert(post.drop_last() =~= pre);
                assert(post.last() == line@[i as int]);
            }
            if b != 13 {
                stripped.push(b);
            }
            i = i + 1;
        }
        proof {
            assert(line@.subrange(0, n as int) =~= line@);
        }
        let ilen = self.instructions.len();
        proof {
            assert(0 <= self@.instruction_pointer < self@.instructions.len());
        }
        let ip = self.instruction_pointer;
        let ok: bool = stripped.len() == 1 || (stripped.len() == 2 && stripped[1] == 10);
        if !ok {
            return Err(Fault { error: Error::INPUT_OVERFLOW, command: ip + 1 });
        }
        let b = stripped[0];
        self.cells.set(self.cell_pointer, b);
        self.instruction_pointer = ip + 1;
        proof {
            assert(final(self)@ =~= (MachineView {
                cells: old(self)@.cells.update(old(self)@.cell_pointer, b),
                instruction_pointer: old(self)@.instruction_pointer + 1,
                ..old(self)@
            }));
        }
        Ok(())
    }

    /// The tape from cell 0 through the highest cell the pointer has visited.
    pub fn debug_cells(&self) -> (r: Vec<u8>)
        requires
            self.wf(),
        ensures
            r@ == self@.cells.subrange(0, self@.max_cell + 1),
    {
        let clen = self.cells.len();
        let mut r: Vec<u8> = Vec::new();
        let mut i: usize = 0;
        while i <= self.max_cell
            invariant
                self.wf(),
                clen == self@.cells.len(),
                i <= self.max_cell + 1,
                r@ == self@.cells.subrange(0, i as int),
            decreases self.max_cell + 1 - i,
        {
            r.push(self.cells[i]);
            proof {
                assert(self@.cells.subrange(0, i as int + 1) =~= self@.cells.subrange(
                    0,
                    i as int,
                ).push(self@.cells[i as int]));
            }
            i = i + 1;
        }
        r
    }
}

/// The byte a supplied input line denotes: the line, with every carriage
/// return removed, must be one byte alone or one byte followed by a newline.
pub open spec fn input_byte(line: Seq<u8>) -> Option<u8> {
    let t = line.filter(|b: u8| b != 13);
    if t.len() == 1 {
        Some(t[0])
    } else if t.len() == 2 && t[1] == 10 {
        Some(t[0])
    } else {
        None
    }
}

} // verus!
