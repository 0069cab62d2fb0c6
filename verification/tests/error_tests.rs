use rustis100::errors::{InterpretError, InterpretErrorKind};
use rustis100::token_error::{TokenError, TokenErrorKind};

#[test]
fn interpret_error_constructors_carry_kind_and_message() {
    let e = InterpretError::token_error("bad token".to_string());
    assert_eq!(e.kind(), InterpretErrorKind::TokenError);
    assert_eq!(e.message(), "bad token");
    assert_eq!(e.describe(), "TokenError: bad token");

    let e = InterpretError::syntax_error("bad shape".to_string());
    assert_eq!(e.kind(), InterpretErrorKind::SyntaxError);
    assert_eq!(e.message(), "bad shape");
    assert_eq!(e.describe(), "SyntaxError: bad shape");
}

#[test]
fn token_error_carries_its_message() {
    let e = TokenError::new("unreadable".to_string());
    assert_eq!(e.kind(), TokenErrorKind::ParseError);
    assert_eq!(e.message(), "unreadable");
}
