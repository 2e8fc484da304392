use blazefuck::tokens::Error;
use blazefuck::{lex, parse};

#[test]
fn nested_pairs_resolve_both_directions() {
    let code = lex("[[]]");
    let table = parse(&code, false).unwrap();
    assert_eq!(table.map, vec![Some(3), Some(2), Some(1), Some(0)]);
    assert_eq!(table.pending, None);
}

#[test]
fn excess_close_fails_at_its_position() {
    let code = lex("[]]");
    match parse(&code, false) {
        Err(Error::UNMATCHED_CONDITIONAL(p)) => assert_eq!(p, 2),
        other => panic!("expected an unmatched conditional, got {:?}", other),
    }
}

#[test]
fn excess_close_fails_even_when_tolerant() {
    let code = lex("[]]");
    match parse(&code, true) {
        Err(Error::UNMATCHED_CONDITIONAL(p)) => assert_eq!(p, 2),
        other => panic!("expected an unmatched conditional, got {:?}", other),
    }
}

#[test]
fn unmatched_open_fails_without_tolerance() {
    let code = lex("[[");
    match parse(&code, false) {
        Err(Error::UNMATCHED_CONDITIONAL(p)) => assert_eq!(p, 1),
        other => panic!("expected an unmatched conditional, got {:?}", other),
    }
}

#[test]
fn unmatched_open_is_pending_when_tolerant() {
    let code = lex("[[");
    let table = parse(&code, true).unwrap();
    assert_eq!(table.pending, Some(0));
    assert_eq!(table.map, vec![None, None]);
}

#[test]
fn noncommands_do_not_shift_positions() {
    let code = lex("x[y]z]");
    match parse(&code, false) {
        Err(Error::UNMATCHED_CONDITIONAL(p)) => assert_eq!(p, 2),
        other => panic!("expected an unmatched conditional, got {:?}", other),
    }
}
