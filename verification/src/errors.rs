//! Errors raised while interpreting program text.

use vstd::prelude::*;
use vstd::string::StringExecFns;

verus! {

/// The two classes of interpreter failure: malformed lexical input, and
/// well-formed tokens in the wrong grammatical position.
#[derive(Copy, Clone, Debug, PartialEq, Eq, Structural)]
pub enum InterpretErrorKind {
    TokenError,
    SyntaxError,
}

/// An error raised while interpreting program text: a kind together with a
/// human-readable message.
#[derive(Debug)]
pub struct InterpretError {
    kind: InterpretErrorKind,
    message: String,
}

/// Ghost description of an `InterpretError`; parser contracts pin the error
/// they return down to this.
pub ghost struct ErrorSpec {
    pub kind: InterpretErrorKind,
    pub message: Seq<char>,
}

pub open spec fn token_error_spec(message: Seq<char>) -> ErrorSpec {
    ErrorSpec { kind: InterpretErrorKind::TokenError, message }
}

pub open spec fn syntax_error_spec(message: Seq<char>) -> ErrorSpec {
    ErrorSpec { kind: InterpretErrorKind::SyntaxError, message }
}

impl InterpretError {
    pub closed spec fn spec_kind(&self) -> InterpretErrorKind {
        self.kind
    }

    pub closed spec fn spec_message(&self) -> Seq<char> {
        self.message@
    }

    /// Whether this error is exactly the one that `e` describes.
    pub open spec fn describes(&self, e: ErrorSpec) -> bool {
        self.spec_kind() == e.kind && self.spec_message() == e.message
    }

    pub fn token_error(message: String) -> (r: Self)
        ensures
            r.spec_kind() == InterpretErrorKind::TokenError,
            r.spec_message() == message@,
    {
        InterpretError { kind: InterpretErrorKind::TokenError, message }
    }

    pub fn syntax_error(message: String) -> (r: Self)
        ensures
            r.spec_kind() == InterpretErrorKind::SyntaxError,
            r.spec_message() == message@,
    {
        InterpretError { kind: InterpretErrorKind::SyntaxError, message }
    }

    pub fn kind(&self) -> (k: InterpretErrorKind)
        ensures
            k == self.spec_kind(),
    {
        self.kind
    }

    pub fn message(&self) -> (m: &str)
        ensures
            m@ == self.spec_message(),
    {
        self.message.as_str()
    }

    /// The full display form of the error: its kind as a word, a colon, and
    /// the message.
    pub fn describe(&self) -> (s: String)
        ensures
            s@ == self.describe_spec(),
    {
        let mut s = match self.kind {
            InterpretErrorKind::TokenError => String::from_str("TokenError: "),
            InterpretErrorKind::SyntaxError => String::from_str("SyntaxError: "),
        };
        s.append(self.message.as_str());
        s
    }

    pub open spec fn describe_spec(&self) -> Seq<char> {
        match self.spec_kind() {
            InterpretErrorKind::TokenError => "TokenError: "@ + self.spec_message(),
            InterpretErrorKind::SyntaxError => "SyntaxError: "@ + self.spec_message(),
        }
    }
}

} // verus!
