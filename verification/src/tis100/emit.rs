//! The serializer: renders nodes back to program text, and the round-trip
//! law that parsing the rendered text recovers every node's identifier and
//! instruction list exactly.

use vstd::prelude::*;
use crate::errors::ErrorSpec;
use crate::text::{
    chars_to_string, dec_seq, digit_run_end, digits_value, is_digit_char, is_word_char, keep_char,
    lemma_dec_seq_digits, lemma_digit_run_is, lemma_digits_value_of_dec_seq,
    lemma_normalize_identity, lemma_split_append_nosep, lemma_split_append_sep, lemma_word_run_is,
    push_dec_u64, split_text,
};
use crate::tis100::lexer::{spec_next_token, spec_opcode, Operator, Token};
use crate::tis100::parse::{
    clean_lines, jumpmark_prefix_len, spec_decode_from, spec_decode_line, spec_make_instruction,
    spec_node_lines, spec_parse, spec_parse_node, spec_parse_segments, spec_process_lines,
    spec_read_operands, strip_cr, NodeData,
};
use crate::tis100::{Instruction, Node};

verus! {

// ---------------------------------------------------------------------------
// Rendering
// ---------------------------------------------------------------------------

/// The rendering of one instruction: its mnemonic followed by the decimal
/// rendering of its operand, if it carries one.
pub open spec fn instr_chars(i: Instruction) -> Seq<char> {
    match i {
        Instruction::Add(x) => seq!['A', 'D', 'D'] + dec_seq(x as int),
        Instruction::Sub(x) => seq!['S', 'U', 'B'] + dec_seq(x as int),
        Instruction::Nop => seq!['N', 'O', 'P'],
    }
}

/// The rendering of an instruction list: each instruction on a line of its
/// own.
pub open spec fn instrs_chars(instrs: Seq<Instruction>) -> Seq<char>
    decreases instrs.len(),
{
    if instrs.len() == 0 {
        Seq::empty()
    } else {
        instr_chars(instrs[0]) + seq!['\n'] + instrs_chars(instrs.drop_first())
    }
}

/// The rendering of one node's segment: its identifier, a newline, and its
/// instruction lines.
pub open spec fn node_block(id: u32, instrs: Seq<Instruction>) -> Seq<char> {
    dec_seq(id as int) + seq!['\n'] + instrs_chars(instrs)
}

/// The rendering of a whole program: each node's segment introduced by
/// `@`.
pub open spec fn program_chars(data: Seq<(u32, Seq<Instruction>)>) -> Seq<char>
    decreases data.len(),
{
    if data.len() == 0 {
        Seq::empty()
    } else {
        seq!['@'] + node_block(data[0].0, data[0].1) + program_chars(data.drop_first())
    }
}

/// What `serialize` renders of a node vector: each node's identifier and
/// instruction list.
pub open spec fn serialize_data(ns: Seq<Node>) -> Seq<(u32, Seq<Instruction>)> {
    ns.map_values(|n: Node| (n.id, n.instructions@))
}

pub proof fn lemma_instrs_chars_append(a: Seq<Instruction>, b: Seq<Instruction>)
    ensures
        instrs_chars(a + b) == instrs_chars(a) + instrs_chars(b),
    decreases a.len(),
{
    if a.len() == 0 {
        assert(a + b =~= b);
        assert(instrs_chars(a) + instrs_chars(b) =~= instrs_chars(b));
    } else {
        lemma_instrs_chars_append(a.drop_first(), b);
        assert((a + b).drop_first() =~= a.drop_first() + b);
        assert((a + b)[0] == a[0]);
        assert(instr_chars(a[0]) + seq!['\n'] + (instrs_chars(a.drop_first()) + instrs_chars(b))
            =~= (instr_chars(a[0]) + seq!['\n'] + instrs_chars(a.drop_first()))
            + instrs_chars(b));
    }
}

pub proof fn lemma_program_chars_append(a: Seq<(u32, Seq<Instruction>)>, b: Seq<(u32, Seq<Instruction>)>)
    ensures
        program_chars(a + b) == program_chars(a) + program_chars(b),
    decreases a.len(),
{
    if a.len() == 0 {
        assert(a + b =~= b);
        assert(program_chars(a) + program_chars(b) =~= program_chars(b));
    } else {
        lemma_program_chars_append(a.drop_first(), b);
        assert((a + b).drop_first() =~= a.drop_first() + b);
        assert((a + b)[0] == a[0]);
        assert(seq!['@'] + node_block(a[0].0, a[0].1) + (program_chars(a.drop_first())
            + program_chars(b)) =~= (seq!['@'] + node_block(a[0].0, a[0].1) + program_chars(
            a.drop_first(),
        )) + program_chars(b));
    }
}

/// Appends the rendering of one instruction to `out`.
fn push_instr(out: &mut Vec<char>, i: Instruction)
    ensures
        final(out)@ == old(out)@ + instr_chars(i),
{
    match i {
        Instruction::Add(x) => {
            out.push('A');
            out.push('D');
            out.push('D');
            push_dec_u64(out, x as u64);
            proof {
                assert(out@ =~= old(out)@ + instr_chars(i));
            }
        },
        Instruction::Sub(x) => {
            out.push('S');
            out.push('U');
            out.push('B');
            push_dec_u64(out, x as u64);
            proof {
                assert(out@ =~= old(out)@ + instr_chars(i));
            }
        },
        Instruction::Nop => {
            out.push('N');
            out.push('O');
            out.push('P');
            proof {
                assert(out@ =~= old(out)@ + instr_chars(i));
            }
        },
    }
}

/// Renders a node collection back to program text: each node as `@`, its
/// identifier, and one line per instruction. Jumpmark labels are not
/// rendered; the round trip is at the instruction-list level.
pub fn serialize(nodes: &Vec<Node>) -> (r: String)
    ensures
        r@ == program_chars(serialize_data(nodes@)),
{
    let ghost data = serialize_data(nodes@);
    let mut out: Vec<char> = Vec::new();
    let mut i: usize = 0;
    proof {
        assert(data.take(0) =~= Seq::<(u32, Seq<Instruction>)>::empty());
        assert(out@ =~= program_chars(data.take(0)));
    }
    while i < nodes.len()
        invariant
            i <= nodes@.len(),
            data == serialize_data(nodes@),
            out@ == program_chars(data.take(i as int)),
        decreases nodes@.len() - i,
    {
        let node = &nodes[i];
        proof {
            assert(data[i as int] == (node.id, node.instructions@));
        }
        let ghost block_base = out@;
        out.push('@');
        push_dec_u64(&mut out, node.id as u64);
        out.push('\n');
        let ghost instrs = node.instructions@;
        let mut j: usize = 0;
        proof {
            assert(instrs.take(0) =~= Seq::<Instruction>::empty());
            assert(out@ =~= block_base + seq!['@'] + dec_seq(node.id as int) + seq!['\n']
                + instrs_chars(instrs.take(0)));
        }
        while j < node.instructions.len()
            invariant
                j <= instrs.len(),
                instrs == node.instructions@,
                out@ == block_base + seq!['@'] + dec_seq(node.id as int) + seq!['\n']
                    + instrs_chars(instrs.take(j as int)),
            decreases instrs.len() - j,
        {
            let instr = node.instructions[j];
            push_instr(&mut out, instr);
            out.push('\n');
            proof {
                assert(instrs.take(j as int + 1) =~= instrs.take(j as int) + seq![instr]);
                lemma_instrs_chars_append(instrs.take(j as int), seq![instr]);
                assert(seq![instr].drop_first() =~= Seq::<Instruction>::empty());
                assert(instrs_chars(Seq::<Instruction>::empty()) =~= Seq::<char>::empty());
                assert(instrs_chars(seq![instr]) =~= instr_chars(instr) + seq!['\n']);
                assert(out@ =~= block_base + seq!['@'] + dec_seq(node.id as int) + seq!['\n']
                    + instrs_chars(instrs.take(j as int + 1)));
            }
            j = j + 1;
        }
        proof {
            assert(instrs.take(instrs.len() as int) =~= instrs);
            assert(data.take(i as int + 1) =~= data.take(i as int) + seq![data[i as int]]);
            lemma_program_chars_append(data.take(i as int), seq![data[i as int]]);
            assert(seq![data[i as int]].drop_first() =~= Seq::<(u32, Seq<Instruction>)>::empty());
            assert(program_chars(Seq::<(u32, Seq<Instruction>)>::empty()) =~= Seq::<
                char,
            >::empty());
            assert(program_chars(seq![data[i as int]]) =~= seq!['@'] + node_block(
                node.id,
                instrs,
            ));
            assert(out@ =~= program_chars(data.take(i as int + 1)));
        }
        i = i + 1;
    }
    proof {
        assert(data.take(data.len() as int) =~= data);
    }
    chars_to_string(&out)
}

// ---------------------------------------------------------------------------
// Character classes of rendered text
// ---------------------------------------------------------------------------

/// A character of a rendered node segment: a word character or a newline.
pub open spec fn block_char(c: char) -> bool {
    is_word_char(c) || c == '\n'
}

proof fn lemma_word_char_props(c: char)
    requires
        is_word_char(c),
    ensures
        c != '\n',
        c != '@',
        c != ':',
        c != '\r',
        keep_char(c),
{
}

proof fn lemma_instr_chars_class(i: Instruction)
    ensures
        instr_chars(i).len() >= 3,
        forall|j: int| 0 <= j < instr_chars(i).len() ==> is_word_char(#[trigger] instr_chars(i)[j]),
{
    match i {
        Instruction::Add(x) => {
            lemma_dec_seq_digits(x as int);
        },
        Instruction::Sub(x) => {
            lemma_dec_seq_digits(x as int);
        },
        Instruction::Nop => {},
    }
}

proof fn lemma_instrs_chars_class(instrs: Seq<Instruction>)
    ensures
        forall|j: int|
            0 <= j < instrs_chars(instrs).len() ==> block_char(#[trigger] instrs_chars(instrs)[j]),
    decreases instrs.len(),
{
    if instrs.len() > 0 {
        lemma_instr_chars_class(instrs[0]);
        lemma_instrs_chars_class(instrs.drop_first());
        let ic0 = instr_chars(instrs[0]);
        let rest = instrs_chars(instrs.drop_first());
        let whole = instrs_chars(instrs);
        assert forall|j: int| 0 <= j < whole.len() implies block_char(whole[j]) by {
            if j < ic0.len() {
                assert(whole[j] == ic0[j]);
            } else if j == ic0.len() {
                assert(whole[j] == '\n');
            } else {
                assert(whole[j] == rest[j - ic0.len() - 1]);
            }
        }
    }
}

proof fn lemma_node_block_class(id: u32, instrs: Seq<Instruction>)
    ensures
        node_block(id, instrs).len() >= 2,
        forall|j: int|
            0 <= j < node_block(id, instrs).len() ==> block_char(
                #[trigger] node_block(id, instrs)[j],
            ),
{
    lemma_dec_seq_digits(id as int);
    lemma_instrs_chars_class(instrs);
}

proof fn lemma_program_chars_class(data: Seq<(u32, Seq<Instruction>)>)
    ensures
        forall|j: int|
            0 <= j < program_chars(data).len() ==> (block_char(#[trigger] program_chars(data)[j])
                || program_chars(data)[j] == '@'),
    decreases data.len(),
{
    if data.len() > 0 {
        lemma_node_block_class(data[0].0, data[0].1);
        lemma_program_chars_class(data.drop_first());
        let block = node_block(data[0].0, data[0].1);
        let rest = program_chars(data.drop_first());
        let whole = program_chars(data);
        assert forall|j: int| 0 <= j < whole.len() implies (block_char(whole[j]) || whole[j]
            == '@') by {
            if j == 0 {
                assert(whole[j] == '@');
            } else if j <= block.len() {
                assert(whole[j] == block[j - 1]);
            } else {
                assert(whole[j] == rest[j - block.len() - 1]);
            }
        }
    }
}

// ---------------------------------------------------------------------------
// The round trip, piece by piece
// ---------------------------------------------------------------------------

/// Splitting rendered program text on `@` yields one leading empty segment
/// and then each node's segment.
proof fn lemma_split_program(data: Seq<(u32, Seq<Instruction>)>)
    ensures
        split_text(program_chars(data), '@') == seq![Seq::<char>::empty()] + data.map_values(
            |d: (u32, Seq<Instruction>)| node_block(d.0, d.1),
        ),
    decreases data.len(),
{
    let f = |d: (u32, Seq<Instruction>)| node_block(d.0, d.1);
    if data.len() == 0 {
        assert(program_chars(data) =~= Seq::<char>::empty());
        assert(split_text(Seq::<char>::empty(), '@') == seq![Seq::<char>::empty()]);
        assert(seq![Seq::<char>::empty()] + data.map_values(f) =~= seq![Seq::<char>::empty()]);
    } else {
        let a = data.drop_last();
        let d = data.last();
        lemma_split_program(a);
        assert(data =~= a + seq![d]);
        lemma_program_chars_append(a, seq![d]);
        assert(seq![d].drop_first() =~= Seq::<(u32, Seq<Instruction>)>::empty());
        assert(program_chars(Seq::<(u32, Seq<Instruction>)>::empty()) =~= Seq::<char>::empty());
        assert(program_chars(seq![d]) =~= seq!['@'] + node_block(d.0, d.1));
        let pa = program_chars(a);
        let block = node_block(d.0, d.1);
        assert(program_chars(data) =~= (pa + seq!['@']) + block);
        lemma_split_append_sep(pa, '@');
        let s1 = split_text(pa + seq!['@'], '@');
        assert(s1 == split_text(pa, '@').push(Seq::<char>::empty()));
        lemma_node_block_class(d.0, d.1);
        assert(forall|j: int| 0 <= j < block.len() ==> block[j] != '@') by {
            assert forall|j: int| 0 <= j < block.len() implies block[j] != '@' by {
                if is_word_char(block[j]) {
                    lemma_word_char_props(block[j]);
                }
            }
        }
        lemma_split_append_nosep(pa + seq!['@'], block, '@');
        assert(s1.last() =~= Seq::<char>::empty());
        assert(s1.last() + block =~= block);
        assert(split_text(program_chars(data), '@') == s1.update(s1.len() - 1, block));
        assert(s1.update(s1.len() - 1, block) =~= split_text(pa, '@').push(block));
        assert(split_text(pa, '@').push(block) =~= seq![Seq::<char>::empty()] + data.map_values(
            f,
        ));
    }
}

/// Splitting a rendered node body on newlines yields an empty first line,
/// one line per instruction, and an empty last line.
proof fn lemma_body_lines(instrs: Seq<Instruction>)
    ensures
        split_text(seq!['\n'] + instrs_chars(instrs), '\n') == seq![Seq::<char>::empty()]
            + instrs.map_values(|i: Instruction| instr_chars(i)) + seq![Seq::<char>::empty()],
    decreases instrs.len(),
{
    let f = |i: Instruction| instr_chars(i);
    if instrs.len() == 0 {
        assert(instrs_chars(instrs) =~= Seq::<char>::empty());
        assert(seq!['\n'] + instrs_chars(instrs) =~= Seq::<char>::empty() + seq!['\n']);
        lemma_split_append_sep(Seq::<char>::empty(), '\n');
        assert(split_text(Seq::<char>::empty(), '\n') == seq![Seq::<char>::empty()]);
        assert(split_text(seq!['\n'] + instrs_chars(instrs), '\n') =~= seq![Seq::<char>::empty()]
            + instrs.map_values(f) + seq![Seq::<char>::empty()]);
    } else {
        let a = instrs.drop_last();
        let x = instrs.last();
        lemma_body_lines(a);
        assert(instrs =~= a + seq![x]);
        lemma_instrs_chars_append(a, seq![x]);
        assert(seq![x].drop_first() =~= Seq::<Instruction>::empty());
        assert(instrs_chars(Seq::<Instruction>::empty()) =~= Seq::<char>::empty());
        assert(instrs_chars(seq![x]) =~= instr_chars(x) + seq!['\n']);
        let body_a = seq!['\n'] + instrs_chars(a);
        let ic = instr_chars(x);
        assert(seq!['\n'] + instrs_chars(instrs) =~= (body_a + ic) + seq!['\n']);
        lemma_instr_chars_class(x);
        assert(forall|j: int| 0 <= j < ic.len() ==> ic[j] != '\n') by {
            assert forall|j: int| 0 <= j < ic.len() implies ic[j] != '\n' by {
                lemma_word_char_props(ic[j]);
            }
        }
        lemma_split_append_nosep(body_a, ic, '\n');
        let base = split_text(body_a, '\n');
        assert(base == seq![Seq::<char>::empty()] + a.map_values(f) + seq![Seq::<char>::empty()]);
        assert(base.last() =~= Seq::<char>::empty());
        assert(base.last() + ic =~= ic);
        let s1 = split_text(body_a + ic, '\n');
        assert(s1 == base.update(base.len() - 1, ic));
        lemma_split_append_sep(body_a + ic, '\n');
        assert(split_text(seq!['\n'] + instrs_chars(instrs), '\n') == s1.push(
            Seq::<char>::empty(),
        ));
        assert(s1.push(Seq::<char>::empty()) =~= seq![Seq::<char>::empty()] + instrs.map_values(f)
            + seq![Seq::<char>::empty()]);
    }
}

/// Cleaning the split lines drops the empty lines and keeps each
/// instruction line unchanged.
proof fn lemma_clean_instr_lines(instrs: Seq<Instruction>)
    ensures
        clean_lines(
            seq![Seq::<char>::empty()] + instrs.map_values(|i: Instruction| instr_chars(i))
                + seq![Seq::<char>::empty()],
        ) == instrs.map_values(|i: Instruction| instr_chars(i)),
{
    let f = |i: Instruction| instr_chars(i);
    let mid = seq![Seq::<char>::empty()] + instrs.map_values(f);
    let whole = mid + seq![Seq::<char>::empty()];
    assert(whole.drop_last() =~= mid);
    assert(whole.last() =~= Seq::<char>::empty());
    assert(strip_cr(whole.last()).len() == 0);
    assert(clean_lines(whole) == clean_lines(mid));
    lemma_clean_prefix(instrs);
}

proof fn lemma_clean_prefix(instrs: Seq<Instruction>)
    ensures
        clean_lines(seq![Seq::<char>::empty()] + instrs.map_values(|i: Instruction| instr_chars(i)))
            == instrs.map_values(|i: Instruction| instr_chars(i)),
    decreases instrs.len(),
{
    let f = |i: Instruction| instr_chars(i);
    let whole = seq![Seq::<char>::empty()] + instrs.map_values(f);
    if instrs.len() == 0 {
        assert(whole =~= seq![Seq::<char>::empty()]);
        assert(whole.drop_last() =~= Seq::<Seq<char>>::empty());
        assert(clean_lines(Seq::<Seq<char>>::empty()) =~= Seq::<Seq<char>>::empty());
        assert(strip_cr(whole.last()).len() == 0);
        assert(clean_lines(whole) =~= instrs.map_values(f));
    } else {
        let a = instrs.drop_last();
        let x = instrs.last();
        lemma_clean_prefix(a);
        assert(instrs =~= a.push(x));
        assert(instrs.map_values(f) =~= a.map_values(f).push(instr_chars(x)));
        let prev = seq![Seq::<char>::empty()] + a.map_values(f);
        assert(whole.drop_last() =~= prev);
        assert(whole.last() == instr_chars(x));
        lemma_instr_chars_class(x);
        let ic = instr_chars(x);
        assert(ic.last() != '\r') by {
            lemma_word_char_props(ic.last());
        }
        assert(strip_cr(ic) == ic);
        assert(ic.len() > 0);
        assert(clean_lines(whole) == clean_lines(prev).push(ic));
        assert(clean_lines(prev).push(ic) =~= instrs.map_values(f));
    }
}

/// Decoding a rendered instruction line yields exactly that instruction.
proof fn lemma_decode_instr_line(i: Instruction)
    ensures
        spec_decode_line(instr_chars(i)) == Ok::<Seq<Instruction>, ErrorSpec>(seq![i]),
{
    let line = instr_chars(i);
    lemma_instr_chars_class(i);
    let len = line.len() as int;
    match i {
        Instruction::Add(x) => {
            lemma_dec_seq_digits(x as int);
            lemma_digits_value_of_dec_seq(x as int);
            assert(line[0] == 'A' && line[1] == 'D' && line[2] == 'D');
            assert(spec_opcode('A', 'D', 'D') == Some((Operator::Add, 1usize)));
            assert(spec_next_token(line, 0) == Ok::<(Token, int), ErrorSpec>(
                (Token::Op(Operator::Add, 1), 3),
            ));
            lemma_operand_tail(line, x);
            assert(spec_read_operands(line, 3, 1) == Ok::<(Seq<u32>, int), ErrorSpec>(
                (seq![x], len),
            ));
            assert(spec_next_token(line, len) == Ok::<(Token, int), ErrorSpec>(
                (Token::EOF, len),
            ));
            assert(spec_decode_from(line, len) == Ok::<Seq<Instruction>, ErrorSpec>(seq![]));
            assert(spec_make_instruction(Operator::Add, seq![x]) == i);
            assert(seq![i] + Seq::<Instruction>::empty() =~= seq![i]);
        },
        Instruction::Sub(x) => {
            lemma_dec_seq_digits(x as int);
            lemma_digits_value_of_dec_seq(x as int);
            assert(line[0] == 'S' && line[1] == 'U' && line[2] == 'B');
            assert(spec_opcode('S', 'U', 'B') == Some((Operator::Sub, 1usize)));
            assert(spec_next_token(line, 0) == Ok::<(Token, int), ErrorSpec>(
                (Token::Op(Operator::Sub, 1), 3),
            ));
            lemma_operand_tail(line, x);
            assert(spec_read_operands(line, 3, 1) == Ok::<(Seq<u32>, int), ErrorSpec>(
                (seq![x], len),
            ));
            assert(spec_next_token(line, len) == Ok::<(Token, int), ErrorSpec>(
                (Token::EOF, len),
            ));
            assert(spec_decode_from(line, len) == Ok::<Seq<Instruction>, ErrorSpec>(seq![]));
            assert(spec_make_instruction(Operator::Sub, seq![x]) == i);
            assert(seq![i] + Seq::<Instruction>::empty() =~= seq![i]);
        },
        Instruction::Nop => {
            assert(line[0] == 'N' && line[1] == 'O' && line[2] == 'P');
            assert(len == 3);
            assert(spec_opcode('N', 'O', 'P') == Some((Operator::Nop, 0usize)));
            assert(spec_next_token(line, 0) == Ok::<(Token, int), ErrorSpec>(
                (Token::Op(Operator::Nop, 0), 3),
            ));
            assert(spec_read_operands(line, 3, 0) == Ok::<(Seq<u32>, int), ErrorSpec>(
                (seq![], 3),
            ));
            assert(spec_next_token(line, 3) == Ok::<(Token, int), ErrorSpec>((Token::EOF, 3)));
            assert(spec_decode_from(line, 3) == Ok::<Seq<Instruction>, ErrorSpec>(seq![]));
            assert(spec_make_instruction(Operator::Nop, seq![]) == i);
            assert(seq![i] + Seq::<Instruction>::empty() =~= seq![i]);
        },
    }
}

/// Reading one operand from a line whose tail is a rendered number
/// consumes the whole tail and yields the number.
proof fn lemma_operand_tail(line: Seq<char>, x: u32)
    requires
        line.len() >= 3,
        line.skip(3) =~= dec_seq(x as int),
    ensures
        spec_read_operands(line, 3, 1) == Ok::<(Seq<u32>, int), ErrorSpec>(
            (seq![x], line.len() as int),
        ),
{
    let len = line.len() as int;
    lemma_dec_seq_digits(x as int);
    lemma_digits_value_of_dec_seq(x as int);
    assert(forall|j: int| 3 <= j < len ==> is_digit_char(line[j])) by {
        assert forall|j: int| 3 <= j < len implies is_digit_char(line[j]) by {
            assert(line[j] == line.skip(3)[j - 3]);
        }
    }
    assert(is_digit_char(line[3]));
    lemma_digit_run_is(line, 3, len);
    assert(line.subrange(3, len) =~= line.skip(3));
    assert(digits_value(line.subrange(3, len)) == x as int);
    assert(spec_next_token(line, 3) == Ok::<(Token, int), ErrorSpec>((Token::Number(x), len)));
    assert(spec_read_operands(line, len, 0) == Ok::<(Seq<u32>, int), ErrorSpec>((seq![], len)));
    assert(seq![x] + Seq::<u32>::empty() =~= seq![x]);
}

/// Processing rendered instruction lines decodes every instruction back,
/// with an empty jumpmark table.
proof fn lemma_process_instr_lines(instrs: Seq<Instruction>, idx: int)
    ensures
        spec_process_lines(instrs.map_values(|i: Instruction| instr_chars(i)), idx) == Ok::<
            (Seq<Instruction>, Seq<(Seq<char>, int)>),
            ErrorSpec,
        >((instrs, seq![])),
    decreases instrs.len(),
{
    let f = |i: Instruction| instr_chars(i);
    let lines = instrs.map_values(f);
    if instrs.len() == 0 {
        assert(lines =~= Seq::<Seq<char>>::empty());
        assert(instrs =~= Seq::<Instruction>::empty());
    } else {
        let line = lines[0];
        assert(line == instr_chars(instrs[0]));
        lemma_instr_chars_class(instrs[0]);
        lemma_word_run_is(line, 0, line.len() as int);
        assert(jumpmark_prefix_len(line) == 0);
        assert(line.skip(0) =~= line);
        lemma_decode_instr_line(instrs[0]);
        assert(spec_decode_line(line) == Ok::<Seq<Instruction>, ErrorSpec>(seq![instrs[0]]));
        assert(lines.drop_first() =~= instrs.drop_first().map_values(f));
        lemma_process_instr_lines(instrs.drop_first(), idx + 1);
        assert(seq![instrs[0]] + instrs.drop_first() =~= instrs);
        assert(seq![] + Seq::<(Seq<char>, int)>::empty() =~= Seq::<(Seq<char>, int)>::empty());
    }
}

/// Parsing a rendered node segment recovers its identifier and
/// instructions, with an empty jumpmark table.
proof fn lemma_parse_node_block(id: u32, instrs: Seq<Instruction>)
    ensures
        spec_parse_node(node_block(id, instrs)) == Ok::<NodeData, ErrorSpec>(
            (id, instrs, seq![]),
        ),
{
    let seg = node_block(id, instrs);
    let dl = dec_seq(id as int).len() as int;
    lemma_dec_seq_digits(id as int);
    lemma_digits_value_of_dec_seq(id as int);
    assert(forall|j: int| 0 <= j < dl ==> is_digit_char(seg[j])) by {
        assert forall|j: int| 0 <= j < dl implies is_digit_char(seg[j]) by {
            assert(seg[j] == dec_seq(id as int)[j]);
        }
    }
    assert(seg[dl] == '\n');
    assert(!is_digit_char('\n'));
    lemma_digit_run_is(seg, 0, dl);
    assert(digit_run_end(seg, 0) == dl);
    assert(dl > 0);
    assert(seg.subrange(0, dl) =~= dec_seq(id as int));
    assert(digits_value(seg.subrange(0, dl)) == id as int);
    assert(seg.skip(dl) =~= seq!['\n'] + instrs_chars(instrs));
    lemma_body_lines(instrs);
    lemma_clean_instr_lines(instrs);
    assert(spec_node_lines(seg.skip(dl)) == instrs.map_values(|i: Instruction| instr_chars(i)));
    lemma_process_instr_lines(instrs, 0);
}

/// Parsing the split segments of rendered program text recovers every
/// node's data in order.
proof fn lemma_parse_blocks(data: Seq<(u32, Seq<Instruction>)>)
    ensures
        spec_parse_segments(data.map_values(|d: (u32, Seq<Instruction>)| node_block(d.0, d.1)))
            == Ok::<Seq<NodeData>, ErrorSpec>(
            data.map_values(
                |d: (u32, Seq<Instruction>)| (d.0, d.1, Seq::<(Seq<char>, int)>::empty()),
            ),
        ),
    decreases data.len(),
{
    let f = |d: (u32, Seq<Instruction>)| node_block(d.0, d.1);
    let g = |d: (u32, Seq<Instruction>)| (d.0, d.1, Seq::<(Seq<char>, int)>::empty());
    let segs = data.map_values(f);
    if data.len() == 0 {
        assert(segs =~= Seq::<Seq<char>>::empty());
        assert(data.map_values(g) =~= Seq::<NodeData>::empty());
    } else {
        let d0 = data[0];
        assert(segs[0] == node_block(d0.0, d0.1));
        lemma_dec_seq_digits(d0.0 as int);
        assert(segs[0].len() > 0);
        lemma_parse_node_block(d0.0, d0.1);
        assert(segs.drop_first() =~= data.drop_first().map_values(f));
        lemma_parse_blocks(data.drop_first());
        assert(data.drop_first().map_values(g) =~= data.map_values(g).drop_first());
        assert(seq![g(d0)] + data.map_values(g).drop_first() =~= data.map_values(g));
    }
}

// ---------------------------------------------------------------------------
// The round-trip law
// ---------------------------------------------------------------------------

/// Round trip: parsing rendered program text succeeds and recovers every
/// node's identifier and instruction list exactly, with empty jumpmark
/// tables.
pub proof fn lemma_round_trip(data: Seq<(u32, Seq<Instruction>)>)
    ensures
        spec_parse(program_chars(data)) == Ok::<Seq<NodeData>, ErrorSpec>(
            data.map_values(
                |d: (u32, Seq<Instruction>)| (d.0, d.1, Seq::<(Seq<char>, int)>::empty()),
            ),
        ),
{
    let text = program_chars(data);
    lemma_program_chars_class(data);
    assert(forall|j: int| 0 <= j < text.len() ==> keep_char(#[trigger] text[j])) by {
        assert forall|j: int| 0 <= j < text.len() implies keep_char(#[trigger] text[j]) by {
            if is_word_char(text[j]) {
                lemma_word_char_props(text[j]);
            }
        }
    }
    lemma_normalize_identity(text);
    lemma_split_program(data);
    let f = |d: (u32, Seq<Instruction>)| node_block(d.0, d.1);
    let segs = seq![Seq::<char>::empty()] + data.map_values(f);
    assert(segs[0].len() == 0);
    assert(segs.drop_first() =~= data.map_values(f));
    lemma_parse_blocks(data);
}

/// The value inside a successful parse outcome.
pub open spec fn parse_ok_value(r: Result<Seq<NodeData>, ErrorSpec>) -> Seq<NodeData>
    recommends
        r is Ok,
{
    match r {
        Ok(ds) => ds,
        Err(_) => seq![],
    }
}

/// For every accepted program, rendering what was parsed and parsing it
/// again yields the same identifier and the same instruction sequence for
/// every node.
pub proof fn lemma_reserialize_reparse(text: Seq<char>)
    requires
        spec_parse(text) is Ok,
    ensures
        ({
            let ds = parse_ok_value(spec_parse(text));
            let again = spec_parse(
                program_chars(ds.map_values(|d: NodeData| (d.0, d.1))),
            );
            &&& again is Ok
            &&& parse_ok_value(again).len() == ds.len()
            &&& forall|i: int|
                0 <= i < ds.len() ==> ((#[trigger] parse_ok_value(again)[i]).0 == ds[i].0
                    && parse_ok_value(again)[i].1 == ds[i].1)
        }),
{
    let ds = parse_ok_value(spec_parse(text));
    lemma_round_trip(ds.map_values(|d: NodeData| (d.0, d.1)));
}

} // verus!
