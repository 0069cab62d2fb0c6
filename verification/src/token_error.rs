//! A standalone error type for lexical failures, kept separate from the
//! interpreter-wide error so that tokenizers can be reused on their own.

use vstd::prelude::*;

verus! {

/// The classes of `TokenError`.
#[derive(Copy, Clone, Debug, PartialEq, Eq, Structural)]
pub enum TokenErrorKind {
    ParseError,
}

/// A lexical error: a kind together with a human-readable message.
#[derive(Debug)]
pub struct TokenError {
    kind: TokenErrorKind,
    message: String,
}

impl TokenError {
    pub closed spec fn spec_kind(&self) -> TokenErrorKind {
        self.kind
    }

    pub closed spec fn spec_message(&self) -> Seq<char> {
        self.message@
    }

    pub fn new(message: String) -> (r: Self)
        ensures
            r.spec_kind() == TokenErrorKind::ParseError,
            r.spec_message() == message@,
    {
        TokenError { kind: TokenErrorKind::ParseError, message }
    }

    pub fn kind(&self) -> (k: TokenErrorKind)
        ensures
            k == self.spec_kind(),
    {
        self.kind
    }

    pub fn message(&self) -> (m: &str)
        ensures
            m@ == self.spec_message(),
    {
        self.message.as_str()
    }
}

} // verus!
