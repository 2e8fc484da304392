use blazefuck::lex;
use blazefuck::tokens::Instruction;

#[test]
fn lex_all_commands_in_order() {
    let r = lex("><+-.,[]");
    assert_eq!(
        r,
        vec![
            Instruction::POINTER_RIGHT,
            Instruction::POINTER_LEFT,
            Instruction::DATA_INCREMENT,
            Instruction::DATA_DECREMENT,
            Instruction::DATA_OUTPUT,
            Instruction::DATA_INPUT,
            Instruction::CONDITIONAL_BEGIN,
            Instruction::CONDITIONAL_END,
        ]
    );
}

#[test]
fn lex_is_pure_and_idempotent() {
    let text = "say + hello [ to > the < world ] - twice";
    let first = lex(text);
    let second = lex(text);
    assert_eq!(first, second);
}

#[test]
fn lex_ignores_noncommand_bytes() {
    let with_comments = "a + b - c [ d ] e\n\t> prose <";
    let bare = "+-[]><";
    assert_eq!(lex(with_comments), lex(bare));
}

#[test]
fn lex_of_pure_prose_is_empty() {
    assert_eq!(lex("hello world"), vec![]);
    assert_eq!(lex(""), vec![]);
}
