use blazefuck::interpreter::Program;
use blazefuck::machine::RunState;
use blazefuck::tokens::Error;

const GREETING: &str = "++++++++++[>+++++++>++++++++++>+++>+<<<<-]>++.>+.+++++++..+++.>++++++++++++++.------------.<<+++++++++++++++.>.+++.------.--------.>+.>.";

const BUDGET: usize = 10_000_000;

#[test]
fn greeting_program_prints_hello_world() {
    let mut program = Program::new(GREETING, false).unwrap();
    let mut out: Vec<u8> = Vec::new();
    let state = program.run(&mut out, BUDGET).unwrap();
    assert_eq!(state, RunState::Halted);
    assert_eq!(out, b"Hello, World!\n".to_vec());
}

#[test]
fn empty_program_is_refused() {
    match Program::new("just prose", true) {
        Err(Error::NO_COMMANDS) => (),
        other => panic!("expected NO_COMMANDS, got {:?}", other.map(|_| ())),
    }
}

#[test]
fn unbalanced_program_is_refused() {
    match Program::new("+[", false) {
        Err(Error::UNMATCHED_CONDITIONAL(p)) => assert_eq!(p, 2),
        other => panic!("expected UNMATCHED_CONDITIONAL, got {:?}", other.map(|_| ())),
    }
}

#[test]
fn strict_mode_stops_at_the_tape_ceiling() {
    let source: String = ">".repeat(30001);
    let mut program = Program::new(&source, true).unwrap();
    let mut out: Vec<u8> = Vec::new();
    match program.run(&mut out, BUDGET) {
        Err(fault) => {
            assert_eq!(fault.error, Error::CELL_BOUNDS_VIOLATED_RIGHT);
            assert_eq!(fault.command, 30000);
        },
        other => panic!("expected a fault, got {:?}", other),
    }
}

#[test]
fn lenient_mode_grows_past_the_ceiling() {
    let source: String = ">".repeat(30001);
    let mut program = Program::new(&source, false).unwrap();
    let mut out: Vec<u8> = Vec::new();
    let state = program.run(&mut out, BUDGET).unwrap();
    assert_eq!(state, RunState::Halted);
    assert!(program.machine.cells.len() >= 30001);
}

#[test]
fn lenient_decrement_wraps_to_255() {
    let mut program = Program::new("-", false).unwrap();
    let mut out: Vec<u8> = Vec::new();
    let state = program.run(&mut out, BUDGET).unwrap();
    assert_eq!(state, RunState::Halted);
    assert_eq!(program.machine.cells[0], 255);
}

#[test]
fn strict_decrement_underflows() {
    let mut program = Program::new("-", true).unwrap();
    let mut out: Vec<u8> = Vec::new();
    match program.run(&mut out, BUDGET) {
        Err(fault) => {
            assert_eq!(fault.error, Error::CELL_DATA_UNDERFLOW);
            assert_eq!(fault.command, 1);
        },
        other => panic!("expected a fault, got {:?}", other),
    }
}

#[test]
fn lenient_increment_wraps_to_zero() {
    let source: String = "+".repeat(256);
    let mut program = Program::new(&source, false).unwrap();
    let mut out: Vec<u8> = Vec::new();
    let state = program.run(&mut out, BUDGET).unwrap();
    assert_eq!(state, RunState::Halted);
    assert_eq!(program.machine.cells[0], 0);
}

#[test]
fn strict_increment_overflows() {
    let source: String = "+".repeat(256);
    let mut program = Program::new(&source, true).unwrap();
    let mut out: Vec<u8> = Vec::new();
    match program.run(&mut out, BUDGET) {
        Err(fault) => {
            assert_eq!(fault.error, Error::CELL_DATA_OVERFLOW);
            assert_eq!(fault.command, 256);
        },
        other => panic!("expected a fault, got {:?}", other),
    }
}

#[test]
fn strict_move_left_from_cell_zero_fails() {
    let mut program = Program::new("<", true).unwrap();
    let mut out: Vec<u8> = Vec::new();
    match program.run(&mut out, BUDGET) {
        Err(fault) => {
            assert_eq!(fault.error, Error::CELL_BOUNDS_VIOLATED_LEFT);
            assert_eq!(fault.command, 1);
        },
        other => panic!("expected a fault, got {:?}", other),
    }
}

#[test]
fn lenient_move_left_wraps_to_last_cell() {
    // The tape has 30000 cells, so "<" lands on index 29999; "+" marks it.
    let mut program = Program::new("<+", false).unwrap();
    let mut out: Vec<u8> = Vec::new();
    let state = program.run(&mut out, BUDGET).unwrap();
    assert_eq!(state, RunState::Halted);
    assert_eq!(program.machine.cells[29999], 1);
    assert_eq!(program.machine.cell_pointer, 29999);
}

#[test]
fn input_of_two_data_bytes_overflows() {
    let mut program = Program::new(",", false).unwrap();
    let mut out: Vec<u8> = Vec::new();
    let state = program.run(&mut out, BUDGET).unwrap();
    assert_eq!(state, RunState::NeedInput);
    match program.feed_input(b"AB\n") {
        Err(fault) => {
            assert_eq!(fault.error, Error::INPUT_OVERFLOW);
            assert_eq!(fault.command, 1);
        },
        other => panic!("expected a fault, got {:?}", other),
    }
}

#[test]
fn input_of_one_byte_sets_the_cell() {
    let mut program = Program::new(",", false).unwrap();
    let mut out: Vec<u8> = Vec::new();
    let state = program.run(&mut out, BUDGET).unwrap();
    assert_eq!(state, RunState::NeedInput);
    program.feed_input(b"A\n").unwrap();
    let state = program.run(&mut out, BUDGET).unwrap();
    assert_eq!(state, RunState::Halted);
    assert_eq!(program.machine.cells[0], 65);
}

#[test]
fn input_accepts_a_bare_byte_and_strips_carriage_returns() {
    let mut program = Program::new(",.", false).unwrap();
    let mut out: Vec<u8> = Vec::new();
    assert_eq!(program.run(&mut out, BUDGET).unwrap(), RunState::NeedInput);
    program.feed_input(b"Z\r\n").unwrap();
    assert_eq!(program.run(&mut out, BUDGET).unwrap(), RunState::Halted);
    assert_eq!(out, vec![b'Z']);
}

#[test]
fn empty_input_line_overflows() {
    let mut program = Program::new(",", false).unwrap();
    let mut out: Vec<u8> = Vec::new();
    assert_eq!(program.run(&mut out, BUDGET).unwrap(), RunState::NeedInput);
    match program.feed_input(b"") {
        Err(fault) => assert_eq!(fault.error, Error::INPUT_OVERFLOW),
        other => panic!("expected a fault, got {:?}", other),
    }
}

#[test]
fn run_reports_running_when_the_budget_ends() {
    let mut program = Program::new("+[]", false).unwrap();
    let mut out: Vec<u8> = Vec::new();
    let state = program.run(&mut out, 1000).unwrap();
    assert_eq!(state, RunState::Running);
    let state = program.run(&mut out, 1000).unwrap();
    assert_eq!(state, RunState::Running);
}

#[test]
fn debug_cells_cover_the_highest_visited_cell() {
    let mut program = Program::new("+>++>+++<", false).unwrap();
    let mut out: Vec<u8> = Vec::new();
    assert_eq!(program.run(&mut out, BUDGET).unwrap(), RunState::Halted);
    assert_eq!(program.debug_cells(), vec![1, 2, 3]);
}

#[test]
fn error_messages_match_the_reported_kind() {
    assert_eq!(
        Error::NO_COMMANDS.message(),
        "No commands found in the source file"
    );
    assert_eq!(
        Error::CELL_DATA_UNDERFLOW.message(),
        "The cell data was decremented past the cell capacity (expected >= 0 bytes)"
    );
}
