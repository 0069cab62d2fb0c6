//! The parser: splits a whole-program string into per-node segments, strips
//! and records jumpmark labels, and decodes each retained line into
//! instructions by driving the lexer.

use vstd::prelude::*;
use crate::errors::{ErrorSpec, InterpretError, syntax_error_spec, token_error_spec};
use crate::text::{
    chars_to_string, digit_run_end, digits_to_u32, digits_value, extend_vec, dec_seq, normalize,
    normalize_text, push_dec_u64, scan_digit_run, scan_word_run, split_chars, split_text,
    str_to_chars, subvec, views_of, word_run_end,
};
use crate::tis100::lexer::{next_token, spec_next_token, spec_opcode, Operator, Token};
use crate::tis100::{Instruction, Node, NodeState};

verus! {

/// What parsing recovers of one node: its identifier, its instruction list,
/// and its jumpmark table.
pub type NodeData = (u32, Seq<Instruction>, Seq<(Seq<char>, int)>);

// ---------------------------------------------------------------------------
// Error messages
// ---------------------------------------------------------------------------

pub open spec fn token_kind_name(t: Token) -> Seq<char> {
    match t {
        Token::Number(_) => "Number"@,
        Token::NodeID(_) => "NodeID"@,
        Token::EOF => "EOF"@,
        Token::Op(_, _) => "Operator"@,
    }
}

fn token_kind_name_exec(t: Token) -> (r: &'static str)
    ensures
        r@ == token_kind_name(t),
{
    match t {
        Token::Number(_) => "Number",
        Token::NodeID(_) => "NodeID",
        Token::EOF => "EOF",
        Token::Op(_, _) => "Operator",
    }
}

pub open spec fn msg_expected_operator(p: int, t: Token) -> Seq<char>
    recommends
        p >= 0,
{
    "Unexpected Token: expected Operator at position "@ + dec_seq(p) + ". Got "@
        + token_kind_name(t) + " instead."@
}

fn msg_expected_operator_exec(p: usize, t: Token) -> (m: String)
    ensures
        m@ == msg_expected_operator(p as int, t),
{
    let mut v = str_to_chars("Unexpected Token: expected Operator at position ");
    push_dec_u64(&mut v, p as u64);
    let mid = str_to_chars(". Got ");
    extend_vec(&mut v, &mid);
    let name = str_to_chars(token_kind_name_exec(t));
    extend_vec(&mut v, &name);
    let tail = str_to_chars(" instead.");
    extend_vec(&mut v, &tail);
    proof {
        assert(v@ =~= msg_expected_operator(p as int, t));
    }
    chars_to_string(&v)
}

pub open spec fn msg_expected_operand(p: int) -> Seq<char>
    recommends
        p >= 0,
{
    "Unexpected Token: expected operand at position "@ + dec_seq(p)
}

fn msg_expected_operand_exec(p: usize) -> (m: String)
    ensures
        m@ == msg_expected_operand(p as int),
{
    let mut v = str_to_chars("Unexpected Token: expected operand at position ");
    push_dec_u64(&mut v, p as u64);
    chars_to_string(&v)
}

pub open spec fn msg_missing_node_id() -> Seq<char> {
    "Numeric node ID missing after '@'"@
}

fn msg_missing_node_id_exec() -> (m: String)
    ensures
        m@ == msg_missing_node_id(),
{
    let v = str_to_chars("Numeric node ID missing after '@'");
    chars_to_string(&v)
}

pub open spec fn msg_node_id_too_large(digits: Seq<char>) -> Seq<char> {
    crate::tis100::lexer::msg_number_too_large(digits)
}

// ---------------------------------------------------------------------------
// Decoding one line into instructions
// ---------------------------------------------------------------------------

/// The instruction a decoded operator and its operands assemble to: only
/// `ADD` and `SUB` execute distinct semantics in this core; every other
/// operator decodes to `Nop`.
pub open spec fn spec_make_instruction(op: Operator, ops: Seq<u32>) -> Instruction {
    match op {
        Operator::Add => Instruction::Add(ops[0]),
        Operator::Sub => Instruction::Sub(ops[0]),
        _ => Instruction::Nop,
    }
}

/// Reads exactly `cnt` further `Number` tokens starting at `pos`; any other
/// token kind is a syntax error.
pub open spec fn spec_read_operands(line: Seq<char>, pos: int, cnt: nat) -> Result<
    (Seq<u32>, int),
    ErrorSpec,
>
    decreases cnt,
{
    if cnt == 0 {
        Ok((seq![], pos))
    } else {
        match spec_next_token(line, pos) {
            Ok((Token::Number(x), p)) => match spec_read_operands(line, p, (cnt - 1) as nat) {
                Ok((rest, q)) => Ok((seq![x] + rest, q)),
                Err(e) => Err(e),
            },
            Ok((t, p)) => Err(syntax_error_spec(msg_expected_operand(p))),
            Err(e) => Err(e),
        }
    }
}

pub proof fn lemma_read_operands_bounds(line: Seq<char>, pos: int, cnt: nat)
    requires
        0 <= pos <= line.len(),
    ensures
        ({
            match spec_read_operands(line, pos, cnt) {
                Ok((ops, q)) => pos <= q <= line.len() && ops.len() == cnt,
                Err(_) => true,
            }
        }),
    decreases cnt,
{
    if cnt > 0 {
        crate::tis100::lexer::lemma_next_token_bounds(line, pos);
        match spec_next_token(line, pos) {
            Ok((Token::Number(x), p)) => {
                lemma_read_operands_bounds(line, p, (cnt - 1) as nat);
            },
            _ => {},
        }
    }
}

/// Decodes the remainder of a line from `pos` on: a run of instructions,
/// each one operator token followed by exactly the operand count the opcode
/// table assigns to it, until end of input.
pub open spec fn spec_decode_from(line: Seq<char>, pos: int) -> Result<Seq<Instruction>, ErrorSpec>
    decreases line.len() - pos
        when 0 <= pos <= line.len()
        via spec_decode_from_decreases
{
    match spec_next_token(line, pos) {
        Ok((Token::Op(op, cnt), p)) => match spec_read_operands(line, p, cnt as nat) {
            Ok((ops, q)) => match spec_decode_from(line, q) {
                Ok(rest) => Ok(seq![spec_make_instruction(op, ops)] + rest),
                Err(e) => Err(e),
            },
            Err(e) => Err(e),
        },
        Ok((Token::EOF, _)) => Ok(seq![]),
        Ok((t, p)) => Err(syntax_error_spec(msg_expected_operator(p, t))),
        Err(e) => Err(e),
    }
}

#[via_fn]
proof fn spec_decode_from_decreases(line: Seq<char>, pos: int) {
    crate::tis100::lexer::lemma_next_token_bounds(line, pos);
    match spec_next_token(line, pos) {
        Ok((Token::Op(op, cnt), p)) => {
            lemma_read_operands_bounds(line, p, cnt as nat);
        },
        _ => {},
    }
}

/// Decoding a whole line starts at position 0.
pub open spec fn spec_decode_line(line: Seq<char>) -> Result<Seq<Instruction>, ErrorSpec> {
    spec_decode_from(line, 0)
}

/// The opcode table assigns `ADD` and `SUB` exactly one operand.
pub proof fn lemma_opcode_arity(c0: char, c1: char, c2: char)
    ensures
        ({
            match spec_opcode(c0, c1, c2) {
                Some((op, cnt)) => {
                    &&& (op == Operator::Add ==> cnt == 1)
                    &&& (op == Operator::Sub ==> cnt == 1)
                    &&& cnt <= 2
                },
                None => true,
            }
        }),
{
}

pub open spec fn operands_result_matches(
    r: Result<(Vec<u32>, usize), InterpretError>,
    s: Result<(Seq<u32>, int), ErrorSpec>,
) -> bool {
    match (r, s) {
        (Ok((v, p)), Ok((ops, q))) => v@ == ops && p as int == q,
        (Err(e), Err(se)) => e.describes(se),
        _ => false,
    }
}

/// Reads exactly `cnt` `Number` tokens from `line` starting at `start`.
fn read_operands(line: &Vec<char>, start: usize, cnt: usize) -> (r: Result<
    (Vec<u32>, usize),
    InterpretError,
>)
    requires
        start <= line@.len(),
    ensures
        operands_result_matches(r, spec_read_operands(line@, start as int, cnt as nat)),
        ({
            match r {
                Ok((_, p)) => start <= p <= line@.len(),
                Err(_) => true,
            }
        }),
{
    let mut ops: Vec<u32> = Vec::new();
    let mut pos: usize = start;
    let mut k: usize = 0;
    while k < cnt
        invariant
            k <= cnt,
            start <= pos <= line@.len(),
            ({
                match spec_read_operands(line@, pos as int, (cnt - k) as nat) {
                    Ok((rest, q)) => spec_read_operands(line@, start as int, cnt as nat) == Ok::<
                        _,
                        ErrorSpec,
                    >((ops@ + rest, q)),
                    Err(e) => spec_read_operands(line@, start as int, cnt as nat) == Err::<
                        (Seq<u32>, int),
                        _,
                    >(e),
                }
            }),
        decreases cnt - k,
    {
        proof {
            crate::tis100::lexer::lemma_next_token_bounds(line@, pos as int);
        }
        match next_token(line, pos) {
            Err(e) => {
                return Err(e);
            },
            Ok((tok, p)) => match tok {
                Token::Number(x) => {
                    let ghost old_ops = ops@;
                    ops.push(x);
                    pos = p;
                    k = k + 1;
                    proof {
                        match spec_read_operands(line@, pos as int, (cnt - k) as nat) {
                            Ok((rest, q)) => {
                                assert(old_ops + (seq![x] + rest) =~= ops@ + rest);
                            },
                            Err(_) => {},
                        }
                    }
                },
                _ => {
                    return Err(InterpretError::syntax_error(msg_expected_operand_exec(p)));
                },
            },
        }
    }
    proof {
        assert(ops@ + seq![] =~= ops@);
    }
    Ok((ops, pos))
}

fn make_instruction(op: Operator, ops: &Vec<u32>) -> (r: Instruction)
    requires
        (op == Operator::Add || op == Operator::Sub) ==> ops@.len() >= 1,
    ensures
        r == spec_make_instruction(op, ops@),
{
    match op {
        Operator::Add => Instruction::Add(ops[0]),
        Operator::Sub => Instruction::Sub(ops[0]),
        _ => Instruction::Nop,
    }
}

pub open spec fn decode_result_matches(
    r: Result<Vec<Instruction>, InterpretError>,
    s: Result<Seq<Instruction>, ErrorSpec>,
) -> bool {
    match (r, s) {
        (Ok(v), Ok(is)) => v@ == is,
        (Err(e), Err(se)) => e.describes(se),
        _ => false,
    }
}

/// Decodes one retained source line: a run of instructions, each one
/// operator followed by exactly as many numeric operands as the opcode
/// table specifies, until the end of the line.
pub fn decode_line(line: &Vec<char>) -> (r: Result<Vec<Instruction>, InterpretError>)
    ensures
        decode_result_matches(r, spec_decode_line(line@)),
{
    let mut instrs: Vec<Instruction> = Vec::new();
    let mut position: usize = 0;
    loop
        invariant
            position <= line@.len(),
            ({
                match spec_decode_from(line@, position as int) {
                    Ok(rest) => spec_decode_line(line@) == Ok::<_, ErrorSpec>(instrs@ + rest),
                    Err(e) => spec_decode_line(line@) == Err::<Seq<Instruction>, _>(e),
                }
            }),
        decreases line@.len() - position,
    {
        proof {
            crate::tis100::lexer::lemma_next_token_bounds(line@, position as int);
        }
        match next_token(line, position) {
            Err(e) => {
                return Err(e);
            },
            Ok((tok, p)) => match tok {
                Token::EOF => {
                    proof {
                        assert(instrs@ + seq![] =~= instrs@);
                    }
                    return Ok(instrs);
                },
                Token::Op(op, cnt) => {
                    proof {
                        lemma_opcode_arity(
                            line@[position as int],
                            line@[position as int + 1],
                            line@[position as int + 2],
                        );
                        lemma_read_operands_bounds(line@, p as int, cnt as nat);
                    }
                    match read_operands(line, p, cnt) {
                        Err(e) => {
                            return Err(e);
                        },
                        Ok((ops, q)) => {
                            let instr = make_instruction(op, &ops);
                            let ghost old_instrs = instrs@;
                            instrs.push(instr);
                            position = q;
                            proof {
                                match spec_decode_from(line@, position as int) {
                                    Ok(rest) => {
                                        assert(old_instrs + (seq![instr] + rest) =~= instrs@
                                            + rest);
                                    },
                                    Err(_) => {},
                                }
                            }
                        },
                    }
                },
                _ => {
                    return Err(InterpretError::syntax_error(msg_expected_operator_exec(p, tok)));
                },
            },
        }
    }
}

// ---------------------------------------------------------------------------
// Lines and jumpmarks
// ---------------------------------------------------------------------------

/// A line with one trailing carriage return removed, as the line splitter
/// accepts both bare and carriage-return line endings.
pub open spec fn strip_cr(l: Seq<char>) -> Seq<char> {
    if l.len() > 0 && l.last() == '\r' {
        l.drop_last()
    } else {
        l
    }
}

/// Raw split segments with line endings stripped and empty lines dropped.
pub open spec fn clean_lines(raw: Seq<Seq<char>>) -> Seq<Seq<char>>
    decreases raw.len(),
{
    if raw.len() == 0 {
        seq![]
    } else {
        let prev = clean_lines(raw.drop_last());
        let l = strip_cr(raw.last());
        if l.len() > 0 {
            prev.push(l)
        } else {
            prev
        }
    }
}

/// The retained lines of a node body: split on newlines, stripped of
/// carriage returns, with empty lines dropped.
pub open spec fn spec_node_lines(body: Seq<char>) -> Seq<Seq<char>> {
    clean_lines(split_text(body, '\n'))
}

/// The length of a jumpmark prefix of `line`: a non-empty run of word
/// characters followed by `:` yields the length including the colon;
/// anything else yields 0.
pub open spec fn jumpmark_prefix_len(line: Seq<char>) -> int {
    let e = word_run_end(line, 0);
    if 0 < e && e < line.len() && line[e] == ':' {
        e + 1
    } else {
        0
    }
}

fn jumpmark_prefix(line: &Vec<char>) -> (jp: usize)
    ensures
        jp as int == jumpmark_prefix_len(line@),
        jp <= line@.len(),
{
    let e = scan_word_run(line, 0);
    proof {
        crate::text::lemma_word_run_end(line@, 0);
    }
    if 0 < e && e < line.len() && line[e] == ':' {
        e + 1
    } else {
        0
    }
}

/// Splits a node body into its retained lines.
fn split_clean_lines(body: &Vec<char>) -> (r: Vec<Vec<char>>)
    ensures
        views_of(r@) == spec_node_lines(body@),
{
    let raw = split_chars(body, '\n');
    let mut out: Vec<Vec<char>> = Vec::new();
    let mut i: usize = 0;
    proof {
        assert(views_of(raw@).take(0) =~= Seq::<Seq<char>>::empty());
        assert(views_of(out@) =~= clean_lines(views_of(raw@).take(0)));
    }
    while i < raw.len()
        invariant
            i <= raw@.len(),
            views_of(raw@) == split_text(body@, '\n'),
            views_of(out@) == clean_lines(views_of(raw@).take(i as int)),
        decreases raw@.len() - i,
    {
        let ghost rawviews = views_of(raw@);
        proof {
            assert(rawviews.take(i as int + 1).drop_last() =~= rawviews.take(i as int));
            assert(rawviews.take(i as int + 1).last() == rawviews[i as int]);
            assert(rawviews[i as int] == raw@[i as int]@);
        }
        let line = &raw[i];
        let mut end = line.len();
        if end > 0 && line[end - 1] == '\r' {
            end = end - 1;
        }
        let cleaned = subvec(line, 0, end);
        proof {
            if line@.len() > 0 && line@.last() == '\r' {
                assert(cleaned@ =~= strip_cr(line@));
            } else {
                assert(cleaned@ =~= strip_cr(line@));
            }
        }
        if cleaned.len() > 0 {
            let ghost old_out = views_of(out@);
            out.push(cleaned);
            proof {
                assert(views_of(out@) =~= old_out.push(strip_cr(line@)));
            }
        }
        i = i + 1;
    }
    proof {
        assert(views_of(raw@).take(raw@.len() as int) =~= views_of(raw@));
    }
    out
}

// ---------------------------------------------------------------------------
// Per-node parsing
// ---------------------------------------------------------------------------

/// Processes the retained lines of a node body from line index `idx` on:
/// records jumpmark labels against their line index and strips them, drops
/// lines that are empty after stripping, and decodes every other line,
/// failing fast on the first error.
pub open spec fn spec_process_lines(lines: Seq<Seq<char>>, idx: int) -> Result<
    (Seq<Instruction>, Seq<(Seq<char>, int)>),
    ErrorSpec,
>
    decreases lines.len(),
{
    if lines.len() == 0 {
        Ok((seq![], seq![]))
    } else {
        let line = lines[0];
        let jp = jumpmark_prefix_len(line);
        let marks0: Seq<(Seq<char>, int)> = if jp > 0 {
            seq![(line.take(jp), idx)]
        } else {
            seq![]
        };
        let rest = line.skip(jp);
        if rest.len() == 0 {
            match spec_process_lines(lines.drop_first(), idx + 1) {
                Ok((is2, ms2)) => Ok((is2, marks0 + ms2)),
                Err(e) => Err(e),
            }
        } else {
            match spec_decode_line(rest) {
                Ok(is1) => match spec_process_lines(lines.drop_first(), idx + 1) {
                    Ok((is2, ms2)) => Ok((is1 + is2, marks0 + ms2)),
                    Err(e) => Err(e),
                },
                Err(e) => Err(e),
            }
        }
    }
}

/// Parses one node segment: the leading digit run is the node identifier,
/// the remainder is the body whose retained lines decode to the node's
/// instruction list.
pub open spec fn spec_parse_node(seg: Seq<char>) -> Result<NodeData, ErrorSpec> {
    let de = digit_run_end(seg, 0);
    if de == 0 {
        Err(token_error_spec(msg_missing_node_id()))
    } else {
        let idv = digits_value(seg.subrange(0, de));
        if idv > u32::MAX {
            Err(token_error_spec(msg_node_id_too_large(seg.subrange(0, de))))
        } else {
            match spec_process_lines(spec_node_lines(seg.skip(de)), 0) {
                Ok((is, ms)) => Ok((idv as u32, is, ms)),
                Err(e) => Err(e),
            }
        }
    }
}

/// Whether the parsed node `n` holds exactly the data `d`, with a fresh
/// zero register state.
pub open spec fn node_matches(n: Node, d: NodeData) -> bool {
    &&& n.id == d.0
    &&& n.state.acc == 0
    &&& n.state.bak == 0
    &&& n.instructions@ == d.1
    &&& n.jumpmarks_view() == d.2
}

pub open spec fn node_result_matches(
    r: Result<Node, InterpretError>,
    s: Result<NodeData, ErrorSpec>,
) -> bool {
    match (r, s) {
        (Ok(n), Ok(d)) => node_matches(n, d),
        (Err(e), Err(se)) => e.describes(se),
        _ => false,
    }
}

/// Parses one node's segment text into a `Node` with zeroed registers.
pub fn parse_node(seg: &Vec<char>) -> (r: Result<Node, InterpretError>)
    ensures
        node_result_matches(r, spec_parse_node(seg@)),
{
    let de = scan_digit_run(seg, 0);
    proof {
        crate::text::lemma_digit_run_end(seg@, 0);
    }
    if de == 0 {
        return Err(InterpretError::token_error(msg_missing_node_id_exec()));
    }
    let id = match digits_to_u32(seg, 0, de) {
        Some(v) => v,
        None => {
            let run = subvec(seg, 0, de);
            return Err(
                InterpretError::token_error(
                    crate::tis100::lexer::msg_number_too_large_exec(&run),
                ),
            );
        },
    };
    let body = subvec(seg, de, seg.len());
    proof {
        assert(body@ =~= seg@.skip(de as int));
    }
    let lines = split_clean_lines(&body);
    let ghost lineviews = views_of(lines@);
    let mut instructions: Vec<Instruction> = Vec::new();
    let mut jumpmarks: Vec<(String, usize)> = Vec::new();
    let mut i: usize = 0;
    proof {
        assert(lineviews.skip(0) =~= lineviews);
        assert(instructions@ =~= Seq::<Instruction>::empty());
        assert(marks_view(jumpmarks@) =~= Seq::<(Seq<char>, int)>::empty());
    }
    while i < lines.len()
        invariant
            i <= lines@.len(),
            lineviews == views_of(lines@),
            de as int == digit_run_end(seg@, 0),
            0 < de <= seg@.len(),
            digits_value(seg@.subrange(0, de as int)) == id as int,
            id <= u32::MAX,
            lineviews == spec_node_lines(seg@.skip(de as int)),
            ({
                match spec_process_lines(lineviews.skip(i as int), i as int) {
                    Ok((is, ms)) => spec_process_lines(lineviews, 0) == Ok::<_, ErrorSpec>(
                        (instructions@ + is, marks_view(jumpmarks@) + ms),
                    ),
                    Err(e) => spec_process_lines(lineviews, 0) == Err::<
                        (Seq<Instruction>, Seq<(Seq<char>, int)>),
                        _,
                    >(e),
                }
            }),
        decreases lines@.len() - i,
    {
        let line = &lines[i];
        proof {
            assert(lineviews.skip(i as int)[0] == lineviews[i as int]);
            assert(lineviews.skip(i as int).drop_first() =~= lineviews.skip(i as int + 1));
            assert(lineviews[i as int] == line@);
        }
        let ghost old_marks = marks_view(jumpmarks@);
        let ghost marks0: Seq<(Seq<char>, int)> = if jumpmark_prefix_len(line@) > 0 {
            seq![(line@.take(jumpmark_prefix_len(line@)), i as int)]
        } else {
            seq![]
        };
        let jp = jumpmark_prefix(line);
        if jp > 0 {
            let labelv = subvec(line, 0, jp);
            proof {
                assert(labelv@ =~= line@.take(jp as int));
            }
            let label = chars_to_string(&labelv);
            jumpmarks.push((label, i));
            proof {
                assert(marks_view(jumpmarks@) =~= old_marks.push((line@.take(jp as int), i as int)));
                assert(marks_view(jumpmarks@) =~= old_marks + marks0);
            }
        } else {
            proof {
                assert(marks_view(jumpmarks@) =~= old_marks + marks0);
            }
        }
        let rest = subvec(line, jp, line.len());
        proof {
            assert(rest@ =~= line@.skip(jp as int));
        }
        if rest.len() > 0 {
            match decode_line(&rest) {
                Ok(is1) => {
                    let ghost old_instrs = instructions@;
                    extend_vec(&mut instructions, &is1);
                    proof {
                        match spec_process_lines(lineviews.skip(i as int + 1), i as int + 1) {
                            Ok((is2, ms2)) => {
                                assert(old_instrs + (is1@ + is2) =~= instructions@ + is2);
                                assert(old_marks + (marks0 + ms2) =~= marks_view(jumpmarks@)
                                    + ms2);
                            },
                            Err(_) => {},
                        }
                    }
                },
                Err(e) => {
                    proof {
                        assert(rest@ == lineviews.skip(i as int)[0].skip(
                            jumpmark_prefix_len(lineviews.skip(i as int)[0]),
                        ));
                        assert(spec_process_lines(lineviews.skip(i as int), i as int)
                            is Err);
                    }
                    return Err(e);
                },
            }
        } else {
            proof {
                match spec_process_lines(lineviews.skip(i as int + 1), i as int + 1) {
                    Ok((is2, ms2)) => {
                        assert(old_marks + (marks0 + ms2) =~= marks_view(jumpmarks@) + ms2);
                    },
                    Err(_) => {},
                }
            }
        }
        i = i + 1;
    }
    proof {
        assert(lineviews.skip(lineviews.len() as int) =~= Seq::<Seq<char>>::empty());
        assert(instructions@ + seq![] =~= instructions@);
        assert(marks_view(jumpmarks@) + seq![] =~= marks_view(jumpmarks@));
    }
    Ok(Node { id, state: NodeState::new(), instructions, jumpmarks })
}

/// The ghost view of a jumpmark table.
pub open spec fn marks_view(marks: Seq<(String, usize)>) -> Seq<(Seq<char>, int)> {
    marks.map_values(|p: (String, usize)| (p.0@, p.1 as int))
}

// ---------------------------------------------------------------------------
// Whole-program parsing
// ---------------------------------------------------------------------------

/// Parses the non-empty segments of the `@`-split program text, in order,
/// failing fast on the first error.
pub open spec fn spec_parse_segments(segs: Seq<Seq<char>>) -> Result<Seq<NodeData>, ErrorSpec>
    decreases segs.len(),
{
    if segs.len() == 0 {
        Ok(seq![])
    } else if segs[0].len() == 0 {
        spec_parse_segments(segs.drop_first())
    } else {
        match spec_parse_node(segs[0]) {
            Ok(d) => match spec_parse_segments(segs.drop_first()) {
                Ok(ds) => Ok(seq![d] + ds),
                Err(e) => Err(e),
            },
            Err(e) => Err(e),
        }
    }
}

/// What parsing a whole program text yields: the text is normalized by
/// deleting spaces, tabs and commas, split on `@`, and every non-empty
/// segment becomes one node.
pub open spec fn spec_parse(text: Seq<char>) -> Result<Seq<NodeData>, ErrorSpec> {
    spec_parse_segments(split_text(normalize_text(text), '@'))
}

pub open spec fn parse_result_matches(
    r: Result<Vec<Node>, InterpretError>,
    s: Result<Seq<NodeData>, ErrorSpec>,
) -> bool {
    match (r, s) {
        (Ok(ns), Ok(ds)) => ns@.len() == ds.len() && (forall|i: int|
            0 <= i < ds.len() ==> node_matches(ns@[i], ds[i])),
        (Err(e), Err(se)) => e.describes(se),
        _ => false,
    }
}

/// Parses a whole program string into a vector of nodes, one per node
/// declaration, each with its identifier, instruction list, jumpmark table
/// and zeroed registers.
pub fn parse(text: String) -> (r: Result<Vec<Node>, InterpretError>)
    ensures
        parse_result_matches(r, spec_parse(text@)),
{
    let chars = str_to_chars(text.as_str());
    let norm = normalize(&chars);
    let segs = split_chars(&norm, '@');
    let ghost segviews = views_of(segs@);
    let mut nodes: Vec<Node> = Vec::new();
    let mut i: usize = 0;
    proof {
        assert(segviews.skip(0) =~= segviews);
    }
    while i < segs.len()
        invariant
            i <= segs@.len(),
            segviews == views_of(segs@),
            segviews == split_text(normalize_text(text@), '@'),
            nodes@.len() <= i,
            forall|j: int| 0 <= j < nodes@.len() ==> node_matches(#[trigger] nodes@[j], nodes_data(nodes@)[j]),
            ({
                match spec_parse_segments(segviews.skip(i as int)) {
                    Ok(ds) => spec_parse_segments(segviews) == Ok::<_, ErrorSpec>(
                        nodes_data(nodes@) + ds,
                    ),
                    Err(e) => spec_parse_segments(segviews) == Err::<Seq<NodeData>, _>(e),
                }
            }),
        decreases segs@.len() - i,
    {
        proof {
            assert(segviews.skip(i as int)[0] == segviews[i as int]);
            assert(segviews.skip(i as int).drop_first() =~= segviews.skip(i as int + 1));
            assert(segviews[i as int] == segs@[i as int]@);
        }
        if segs[i].len() > 0 {
            match parse_node(&segs[i]) {
                Ok(node) => {
                    let ghost old_data = nodes_data(nodes@);
                    let ghost d = node_data_of(node);
                    nodes.push(node);
                    proof {
                        assert(nodes_data(nodes@) =~= old_data.push(d));
                        match spec_parse_segments(segviews.skip(i as int + 1)) {
                            Ok(ds) => {
                                assert(old_data + (seq![d] + ds) =~= nodes_data(nodes@) + ds);
                            },
                            Err(_) => {},
                        }
                    }
                },
                Err(e) => {
                    return Err(e);
                },
            }
        }
        i = i + 1;
    }
    proof {
        assert(segviews.skip(segviews.len() as int) =~= Seq::<Seq<char>>::empty());
        assert(nodes_data(nodes@) + seq![] =~= nodes_data(nodes@));
    }
    Ok(nodes)
}

/// The parsed data a node holds.
pub open spec fn node_data_of(n: Node) -> NodeData {
    (n.id, n.instructions@, n.jumpmarks_view())
}

pub open spec fn nodes_data(ns: Seq<Node>) -> Seq<NodeData> {
    ns.map_values(|n: Node| node_data_of(n))
}

} // verus!
