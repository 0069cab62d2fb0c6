use rustis100::tis100::lexer::{next_token, Operator, Token};

fn chars(s: &str) -> Vec<char> {
    s.chars().collect()
}

#[test]
fn end_of_input_is_idempotent() {
    let text = chars("ADD");
    assert_eq!(next_token(&text, 3).unwrap(), (Token::EOF, 3));
    assert_eq!(next_token(&text, 10).unwrap(), (Token::EOF, 10));
    let empty = chars("");
    assert_eq!(next_token(&empty, 0).unwrap(), (Token::EOF, 0));
}

#[test]
fn digits_are_consumed_greedily() {
    let text = chars("123A");
    assert_eq!(next_token(&text, 0).unwrap(), (Token::Number(123), 3));
    let text = chars("007");
    assert_eq!(next_token(&text, 0).unwrap(), (Token::Number(7), 3));
}

#[test]
fn mnemonics_carry_their_operand_count() {
    assert_eq!(next_token(&chars("ADD1"), 0).unwrap(), (Token::Op(Operator::Add, 1), 3));
    assert_eq!(next_token(&chars("MOV12"), 0).unwrap(), (Token::Op(Operator::Mov, 2), 3));
    assert_eq!(next_token(&chars("NOP"), 0).unwrap(), (Token::Op(Operator::Nop, 0), 3));
    assert_eq!(next_token(&chars("SWP"), 0).unwrap(), (Token::Op(Operator::Swp, 0), 3));
}

#[test]
fn mnemonics_are_case_sensitive() {
    let err = next_token(&chars("add1"), 0).unwrap_err();
    assert_eq!(err.message(), "Unknown token encountered while parsing: 'add'");
}

#[test]
fn lexing_resumes_at_the_returned_position() {
    let text = chars("ADD42");
    let (tok, pos) = next_token(&text, 0).unwrap();
    assert_eq!(tok, Token::Op(Operator::Add, 1));
    let (tok, pos) = next_token(&text, pos).unwrap();
    assert_eq!(tok, Token::Number(42));
    let (tok, _) = next_token(&text, pos).unwrap();
    assert_eq!(tok, Token::EOF);
}
