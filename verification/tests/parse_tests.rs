use rustis100::errors::InterpretErrorKind;
use rustis100::tis100::parse::parse;
use rustis100::tis100::sample_code;
use rustis100::tis100::Instruction;

#[test]
fn two_nodes_scenario() {
    let nodes = parse("@0ADD4ADD2\n\n@1 ADD1".to_string()).unwrap();
    assert_eq!(nodes.len(), 2);
    assert_eq!(nodes[0].id, 0);
    assert_eq!(nodes[0].instructions, vec![Instruction::Add(4), Instruction::Add(2)]);
    assert_eq!(nodes[1].id, 1);
    assert_eq!(nodes[1].instructions, vec![Instruction::Add(1)]);
    assert_eq!(nodes[0].state.acc, 0);
    assert_eq!(nodes[0].state.bak, 0);
    assert!(nodes[0].jumpmarks.is_empty());
}

#[test]
fn sample_code_parses() {
    let nodes = parse(sample_code()).unwrap();
    assert_eq!(nodes.len(), 2);
    assert_eq!(nodes[0].instructions, vec![Instruction::Add(4), Instruction::Add(2)]);
    assert_eq!(nodes[1].instructions, vec![Instruction::Add(1)]);
}

#[test]
fn whitespace_and_commas_are_insignificant() {
    let nodes = parse("@0 A D D , 4\t".to_string()).unwrap();
    assert_eq!(nodes.len(), 1);
    assert_eq!(nodes[0].instructions, vec![Instruction::Add(4)]);
}

#[test]
fn empty_input_yields_no_nodes() {
    let nodes = parse(String::new()).unwrap();
    assert!(nodes.is_empty());
}

#[test]
fn stray_blank_segments_are_skipped() {
    let nodes = parse("@@0ADD1".to_string()).unwrap();
    assert_eq!(nodes.len(), 1);
    assert_eq!(nodes[0].id, 0);
}

#[test]
fn multi_digit_node_id() {
    let nodes = parse("@42ADD1".to_string()).unwrap();
    assert_eq!(nodes[0].id, 42);
}

#[test]
fn jumpmark_prefix_is_recorded_and_stripped() {
    let nodes = parse("@0FOO:ADD1".to_string()).unwrap();
    assert_eq!(nodes[0].instructions, vec![Instruction::Add(1)]);
    assert_eq!(nodes[0].jumpmarks, vec![("FOO:".to_string(), 0)]);
}

#[test]
fn pure_jumpmark_line_is_dropped() {
    let nodes = parse("@0\nLOOP:\nADD1".to_string()).unwrap();
    assert_eq!(nodes[0].instructions, vec![Instruction::Add(1)]);
    assert_eq!(nodes[0].jumpmarks, vec![("LOOP:".to_string(), 0)]);
}

#[test]
fn sub_and_nop_mnemonics_decode() {
    let nodes = parse("@0SUB7\nNOP".to_string()).unwrap();
    assert_eq!(nodes[0].instructions, vec![Instruction::Sub(7), Instruction::Nop]);
}

#[test]
fn unimplemented_operators_decode_to_nop() {
    let nodes = parse("@0SAV\nSWP\nNEG\nJMP3\nJRO1\nJEZ2\nJNZ2\nJGZ2\nJLZ2".to_string()).unwrap();
    assert_eq!(nodes[0].instructions.len(), 9);
    for instr in &nodes[0].instructions {
        assert_eq!(*instr, Instruction::Nop);
    }
}

#[test]
fn mov_requires_two_operands() {
    // Greedy digit-run matching consumes "12" as one operand, so a second
    // operand is missing.
    let err = parse("@0MOV12".to_string()).unwrap_err();
    assert_eq!(err.kind(), InterpretErrorKind::SyntaxError);
}

#[test]
fn unknown_mnemonic_is_a_token_error() {
    let err = parse("@0XYZ1".to_string()).unwrap_err();
    assert_eq!(err.kind(), InterpretErrorKind::TokenError);
    assert_eq!(err.message(), "Unknown token encountered while parsing: 'XYZ'");
}

#[test]
fn missing_operand_is_a_syntax_error() {
    let err = parse("@0ADD".to_string()).unwrap_err();
    assert_eq!(err.kind(), InterpretErrorKind::SyntaxError);
    assert_eq!(err.message(), "Unexpected Token: expected operand at position 3");
}

#[test]
fn unknown_symbol_is_a_token_error() {
    let err = parse("@0+".to_string()).unwrap_err();
    assert_eq!(err.kind(), InterpretErrorKind::TokenError);
    assert_eq!(err.message(), "Unknown symbol encountered while parsing: +");
}

#[test]
fn truncated_mnemonic_is_a_token_error() {
    let err = parse("@0AD".to_string()).unwrap_err();
    assert_eq!(err.kind(), InterpretErrorKind::TokenError);
    assert_eq!(err.message(), "Token too short: A");
}

#[test]
fn missing_node_id_is_a_token_error() {
    let err = parse("XYZ@0ADD1".to_string()).unwrap_err();
    assert_eq!(err.kind(), InterpretErrorKind::TokenError);
    assert_eq!(err.message(), "Numeric node ID missing after '@'");
}

#[test]
fn number_beyond_u32_is_a_token_error() {
    let err = parse("@0ADD4294967296".to_string()).unwrap_err();
    assert_eq!(err.kind(), InterpretErrorKind::TokenError);
    assert_eq!(err.message(), "Number literal too large: 4294967296");
}

#[test]
fn node_id_beyond_u32_is_a_token_error() {
    let err = parse("@4294967296ADD1".to_string()).unwrap_err();
    assert_eq!(err.kind(), InterpretErrorKind::TokenError);
    assert_eq!(err.message(), "Number literal too large: 4294967296");
}

#[test]
fn largest_operand_still_parses() {
    let nodes = parse("@0ADD4294967295".to_string()).unwrap();
    assert_eq!(nodes[0].instructions, vec![Instruction::Add(4294967295)]);
}

#[test]
fn wrong_token_in_operator_position() {
    let err = parse("@0\n5ADD1".to_string()).unwrap_err();
    assert_eq!(err.kind(), InterpretErrorKind::SyntaxError);
    assert_eq!(
        err.message(),
        "Unexpected Token: expected Operator at position 1. Got Number instead."
    );
}

#[test]
fn error_describe_names_the_kind() {
    let err = parse("@0XYZ1".to_string()).unwrap_err();
    assert_eq!(err.describe(), "TokenError: Unknown token encountered while parsing: 'XYZ'");
    let err = parse("@0ADD".to_string()).unwrap_err();
    assert!(err.describe().starts_with("SyntaxError: "));
}

#[test]
fn fail_fast_on_first_bad_node() {
    assert!(parse("@0ADD1@1XYZ2".to_string()).is_err());
}
