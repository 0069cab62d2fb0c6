//! The lexer: turns a character sequence plus a cursor position into the
//! next token and the new cursor position, consulting the opcode table for
//! three-letter mnemonics.

use vstd::prelude::*;
use crate::errors::{ErrorSpec, InterpretError, token_error_spec};
use crate::text::{
    alpha_char, chars_to_string, digit_char, digit_run_end, digits_to_u32, digits_value,
    is_alpha_char, is_digit_char, scan_digit_run, str_to_chars, subvec,
};

verus! {

/// The closed set of operators named by the opcode table.
#[derive(Copy, Clone, Debug, PartialEq, Eq, Structural)]
pub enum Operator {
    // Arithmetic
    Add,
    Sub,
    Neg,
    // Channels and registers
    Mov,
    Swp,
    Sav,
    // Jump instructions
    Jmp,
    Jez,
    Jnz,
    Jgz,
    Jlz,
    Jro,
    // No operation
    Nop,
}

/// A token produced by the lexer. `Op` carries the operator together with
/// the operand count the opcode table assigns to its mnemonic.
#[derive(Copy, Clone, Debug, PartialEq, Eq, Structural)]
pub enum Token {
    Number(u32),
    NodeID(u32),
    EOF,
    Op(Operator, usize),
}

// ---------------------------------------------------------------------------
// Opcode table
// ---------------------------------------------------------------------------

/// The opcode table: the 13 three-letter mnemonics, each mapped to its
/// operator and its fixed operand count.
pub open spec fn spec_opcode(c0: char, c1: char, c2: char) -> Option<(Operator, usize)> {
    if c0 == 'A' && c1 == 'D' && c2 == 'D' {
        Some((Operator::Add, 1))
    } else if c0 == 'S' && c1 == 'U' && c2 == 'B' {
        Some((Operator::Sub, 1))
    } else if c0 == 'N' && c1 == 'O' && c2 == 'P' {
        Some((Operator::Nop, 0))
    } else if c0 == 'S' && c1 == 'A' && c2 == 'V' {
        Some((Operator::Sav, 0))
    } else if c0 == 'S' && c1 == 'W' && c2 == 'P' {
        Some((Operator::Swp, 0))
    } else if c0 == 'N' && c1 == 'E' && c2 == 'G' {
        Some((Operator::Neg, 0))
    } else if c0 == 'J' && c1 == 'M' && c2 == 'P' {
        Some((Operator::Jmp, 1))
    } else if c0 == 'J' && c1 == 'R' && c2 == 'O' {
        Some((Operator::Jro, 1))
    } else if c0 == 'J' && c1 == 'E' && c2 == 'Z' {
        Some((Operator::Jez, 1))
    } else if c0 == 'J' && c1 == 'N' && c2 == 'Z' {
        Some((Operator::Jnz, 1))
    } else if c0 == 'J' && c1 == 'G' && c2 == 'Z' {
        Some((Operator::Jgz, 1))
    } else if c0 == 'J' && c1 == 'L' && c2 == 'Z' {
        Some((Operator::Jlz, 1))
    } else if c0 == 'M' && c1 == 'O' && c2 == 'V' {
        Some((Operator::Mov, 2))
    } else {
        None
    }
}

/// Looks a three-character mnemonic up in the opcode table.
pub fn opcode_lookup(c0: char, c1: char, c2: char) -> (r: Option<(Operator, usize)>)
    ensures
        r == spec_opcode(c0, c1, c2),
{
    if c0 == 'A' && c1 == 'D' && c2 == 'D' {
        Some((Operator::Add, 1))
    } else if c0 == 'S' && c1 == 'U' && c2 == 'B' {
        Some((Operator::Sub, 1))
    } else if c0 == 'N' && c1 == 'O' && c2 == 'P' {
        Some((Operator::Nop, 0))
    } else if c0 == 'S' && c1 == 'A' && c2 == 'V' {
        Some((Operator::Sav, 0))
    } else if c0 == 'S' && c1 == 'W' && c2 == 'P' {
        Some((Operator::Swp, 0))
    } else if c0 == 'N' && c1 == 'E' && c2 == 'G' {
        Some((Operator::Neg, 0))
    } else if c0 == 'J' && c1 == 'M' && c2 == 'P' {
        Some((Operator::Jmp, 1))
    } else if c0 == 'J' && c1 == 'R' && c2 == 'O' {
        Some((Operator::Jro, 1))
    } else if c0 == 'J' && c1 == 'E' && c2 == 'Z' {
        Some((Operator::Jez, 1))
    } else if c0 == 'J' && c1 == 'N' && c2 == 'Z' {
        Some((Operator::Jnz, 1))
    } else if c0 == 'J' && c1 == 'G' && c2 == 'Z' {
        Some((Operator::Jgz, 1))
    } else if c0 == 'J' && c1 == 'L' && c2 == 'Z' {
        Some((Operator::Jlz, 1))
    } else if c0 == 'M' && c1 == 'O' && c2 == 'V' {
        Some((Operator::Mov, 2))
    } else {
        None
    }
}

// ---------------------------------------------------------------------------
// Error messages
// ---------------------------------------------------------------------------

pub open spec fn msg_unknown_symbol(c: char) -> Seq<char> {
    "Unknown symbol encountered while parsing: "@ + seq![c]
}

fn msg_unknown_symbol_exec(c: char) -> (m: String)
    ensures
        m@ == msg_unknown_symbol(c),
{
    let mut v = str_to_chars("Unknown symbol encountered while parsing: ");
    v.push(c);
    chars_to_string(&v)
}

pub open spec fn msg_token_too_short(c: char) -> Seq<char> {
    "Token too short: "@ + seq![c]
}

fn msg_token_too_short_exec(c: char) -> (m: String)
    ensures
        m@ == msg_token_too_short(c),
{
    let mut v = str_to_chars("Token too short: ");
    v.push(c);
    chars_to_string(&v)
}

pub open spec fn msg_unknown_token(c0: char, c1: char, c2: char) -> Seq<char> {
    "Unknown token encountered while parsing: '"@ + seq![c0, c1, c2] + "'"@
}

fn msg_unknown_token_exec(c0: char, c1: char, c2: char) -> (m: String)
    ensures
        m@ == msg_unknown_token(c0, c1, c2),
{
    let mut v = str_to_chars("Unknown token encountered while parsing: '");
    v.push(c0);
    v.push(c1);
    v.push(c2);
    v.push('\'');
    proof {
        assert(v@ =~= "Unknown token encountered while parsing: '"@ + seq![c0, c1, c2]
            + seq!['\'']);
        assert("'"@ =~= seq!['\'']) by {
            reveal_strlit("'");
        }
    }
    chars_to_string(&v)
}

pub open spec fn msg_number_too_large(digits: Seq<char>) -> Seq<char> {
    "Number literal too large: "@ + digits
}

pub(crate) fn msg_number_too_large_exec(digits: &Vec<char>) -> (m: String)
    ensures
        m@ == msg_number_too_large(digits@),
{
    let mut v = str_to_chars("Number literal too large: ");
    let mut i: usize = 0;
    proof {
        assert(v@ + digits@.take(0) =~= v@);
    }
    let ghost prefix = v@;
    while i < digits.len()
        invariant
            i <= digits@.len(),
            v@ == prefix + digits@.take(i as int),
        decreases digits@.len() - i,
    {
        proof {
            assert(digits@.take(i as int + 1) =~= digits@.take(i as int).push(
                digits@[i as int],
            ));
            assert(prefix + digits@.take(i as int + 1) =~= (prefix + digits@.take(
                i as int,
            )).push(digits@[i as int]));
        }
        v.push(digits[i]);
        i = i + 1;
    }
    proof {
        assert(digits@.take(digits@.len() as int) =~= digits@);
    }
    chars_to_string(&v)
}

// ---------------------------------------------------------------------------
// The lexer itself
// ---------------------------------------------------------------------------

/// What the lexer yields on `s` at cursor `pos`: the next token and the new
/// cursor position, or the error description.
pub open spec fn spec_next_token(s: Seq<char>, pos: int) -> Result<(Token, int), ErrorSpec>
    recommends
        0 <= pos,
{
    if pos >= s.len() {
        Ok((Token::EOF, pos))
    } else if is_digit_char(s[pos]) {
        let end = digit_run_end(s, pos);
        let v = digits_value(s.subrange(pos, end));
        if v <= u32::MAX {
            Ok((Token::Number(v as u32), end))
        } else {
            Err(token_error_spec(msg_number_too_large(s.subrange(pos, end))))
        }
    } else if is_alpha_char(s[pos]) {
        if pos + 3 <= s.len() {
            match spec_opcode(s[pos], s[pos + 1], s[pos + 2]) {
                Some((op, cnt)) => Ok((Token::Op(op, cnt), pos + 3)),
                None => Err(token_error_spec(msg_unknown_token(s[pos], s[pos + 1], s[pos + 2]))),
            }
        } else {
            Err(token_error_spec(msg_token_too_short(s[pos])))
        }
    } else {
        Err(token_error_spec(msg_unknown_symbol(s[pos])))
    }
}

/// Whether the outcome `r` of the lexer is the one `s` describes.
pub open spec fn lex_result_matches(
    r: Result<(Token, usize), InterpretError>,
    s: Result<(Token, int), ErrorSpec>,
) -> bool {
    match (r, s) {
        (Ok((t, p)), Ok((st, sp))) => t == st && p as int == sp,
        (Err(e), Err(se)) => e.describes(se),
        _ => false,
    }
}

/// Bounds on the lexer's cursor movement: the cursor never moves backwards
/// or past the end, and moves strictly forwards for every token but `EOF`.
pub proof fn lemma_next_token_bounds(s: Seq<char>, pos: int)
    requires
        0 <= pos,
    ensures
        ({
            match spec_next_token(s, pos) {
                Ok((t, p)) => {
                    &&& p >= pos
                    &&& (pos <= s.len() ==> p <= s.len())
                    &&& (t != Token::EOF ==> p > pos && pos < s.len())
                    &&& (t == Token::EOF ==> p == pos && pos >= s.len())
                },
                Err(_) => true,
            }
        }),
{
    if pos < s.len() && is_digit_char(s[pos]) {
        crate::text::lemma_digit_run_end(s, pos);
        assert(digit_run_end(s, pos) == digit_run_end(s, pos + 1) || digit_run_end(s, pos)
            == pos);
        assert(digit_run_end(s, pos) > pos) by {
            crate::text::lemma_digit_run_end(s, pos + 1);
        }
    }
}

/// The lexer. Reads the next token of `text` at cursor `position`:
/// `EOF` at or past the end; a maximal run of decimal digits as an unsigned
/// number; an alphabetic character as the start of a three-character
/// mnemonic looked up in the opcode table; anything else is a token error.
pub fn next_token(text: &Vec<char>, position: usize) -> (r: Result<(Token, usize), InterpretError>)
    ensures
        lex_result_matches(r, spec_next_token(text@, position as int)),
{
    if position >= text.len() {
        return Ok((Token::EOF, position));
    }
    let c = text[position];
    if digit_char(c) {
        let end = scan_digit_run(text, position);
        proof {
            crate::text::lemma_digit_run_end(text@, position as int);
        }
        match digits_to_u32(text, position, end) {
            Some(v) => Ok((Token::Number(v), end)),
            None => {
                let run = subvec(text, position, end);
                Err(InterpretError::token_error(msg_number_too_large_exec(&run)))
            },
        }
    } else if alpha_char(c) {
        if text.len() - position >= 3 {
            let c1 = text[position + 1];
            let c2 = text[position + 2];
            match opcode_lookup(c, c1, c2) {
                Some((op, cnt)) => Ok((Token::Op(op, cnt), position + 3)),
                None => Err(InterpretError::token_error(msg_unknown_token_exec(c, c1, c2))),
            }
        } else {
            Err(InterpretError::token_error(msg_token_too_short_exec(c)))
        }
    } else {
        Err(InterpretError::token_error(msg_unknown_symbol_exec(c)))
    }
}

} // verus!
