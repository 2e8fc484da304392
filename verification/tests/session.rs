use blazefuck::interact::Program;
use blazefuck::machine::RunState;
use blazefuck::tokens::Error;

const BUDGET: usize = 10_000_000;

#[test]
fn tape_and_cursors_survive_across_turns() {
    let mut session = Program::new(false);
    let mut out: Vec<u8> = Vec::new();
    session.feed_line("+++").unwrap();
    assert_eq!(session.run(&mut out, BUDGET).unwrap(), RunState::Halted);
    assert_eq!(out, vec![]);
    session.feed_line(".").unwrap();
    assert_eq!(session.run(&mut out, BUDGET).unwrap(), RunState::Halted);
    assert_eq!(out, vec![3]);
}

#[test]
fn open_bracket_on_zero_cell_is_pending() {
    let mut session = Program::new(false);
    let mut out: Vec<u8> = Vec::new();
    session.feed_line("[").unwrap();
    assert_eq!(session.pending, Some(0));
    assert_eq!(session.run(&mut out, BUDGET).unwrap(), RunState::Pending);
    // The next turn closes the loop; the zero cell skips its body entirely.
    session.feed_line("+]").unwrap();
    assert_eq!(session.pending, None);
    assert_eq!(session.run(&mut out, BUDGET).unwrap(), RunState::Halted);
    session.feed_line(".").unwrap();
    assert_eq!(session.run(&mut out, BUDGET).unwrap(), RunState::Halted);
    assert_eq!(out, vec![0]);
}

#[test]
fn pending_loop_resumes_once_closed() {
    let mut session = Program::new(false);
    let mut out: Vec<u8> = Vec::new();
    // One pass of a counting loop, entered while still unclosed.
    session.feed_line("++[").unwrap();
    assert_eq!(session.run(&mut out, BUDGET).unwrap(), RunState::Halted);
    session.feed_line("-]").unwrap();
    assert_eq!(session.run(&mut out, BUDGET).unwrap(), RunState::Halted);
    session.feed_line(".").unwrap();
    assert_eq!(session.run(&mut out, BUDGET).unwrap(), RunState::Halted);
    assert_eq!(out, vec![0]);
}

#[test]
fn excess_close_ends_the_turn_with_a_syntax_error() {
    let mut session = Program::new(false);
    session.feed_line("+").unwrap();
    match session.feed_line("]") {
        Err(Error::UNMATCHED_CONDITIONAL(p)) => assert_eq!(p, 1),
        other => panic!("expected an unmatched conditional, got {:?}", other),
    }
}

#[test]
fn session_tape_starts_with_one_cell_and_grows() {
    let mut session = Program::new(false);
    assert_eq!(session.cells(), &vec![0]);
    let mut out: Vec<u8> = Vec::new();
    session.feed_line(">>+").unwrap();
    assert_eq!(session.run(&mut out, BUDGET).unwrap(), RunState::Halted);
    assert_eq!(session.cells(), &vec![0, 0, 1]);
}

#[test]
fn session_strict_mode_still_underflows() {
    let mut session = Program::new(true);
    let mut out: Vec<u8> = Vec::new();
    session.feed_line("-").unwrap();
    match session.run(&mut out, BUDGET) {
        Err(fault) => {
            assert_eq!(fault.error, Error::CELL_DATA_UNDERFLOW);
            assert_eq!(fault.command, 1);
        },
        other => panic!("expected a fault, got {:?}", other),
    }
}

#[test]
fn session_strict_mode_stops_at_the_tape_ceiling() {
    let mut session = Program::new(true);
    let mut out: Vec<u8> = Vec::new();
    let line: String = ">".repeat(30000);
    session.feed_line(&line).unwrap();
    match session.run(&mut out, BUDGET) {
        Err(fault) => {
            assert_eq!(fault.error, Error::CELL_BOUNDS_VIOLATED_RIGHT);
            assert_eq!(fault.command, 30000);
        },
        other => panic!("expected a fault, got {:?}", other),
    }
}

#[test]
fn session_lenient_mode_grows_past_the_ceiling() {
    let mut session = Program::new(false);
    let mut out: Vec<u8> = Vec::new();
    let line: String = ">".repeat(30001);
    session.feed_line(&line).unwrap();
    assert_eq!(session.run(&mut out, BUDGET).unwrap(), RunState::Halted);
    assert!(session.cells().len() >= 30001);
}

#[test]
fn session_input_is_validated_like_batch() {
    let mut session = Program::new(false);
    let mut out: Vec<u8> = Vec::new();
    session.feed_line(",").unwrap();
    assert_eq!(session.run(&mut out, BUDGET).unwrap(), RunState::NeedInput);
    match session.feed_input(b"AB\n") {
        Err(fault) => assert_eq!(fault.error, Error::INPUT_OVERFLOW),
        other => panic!("expected a fault, got {:?}", other),
    }
}
