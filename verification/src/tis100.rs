//! The TIS-100-style core: node and instruction data model, and a sample
//! program.

use vstd::prelude::*;

pub mod emit;
pub mod emu;
pub mod lexer;
pub mod parse;

verus! {

/// An instruction the tick engine executes. Every mnemonic of the opcode
/// table parses, but only `ADD` and `SUB` have distinct execution semantics
/// in this core; all other operators decode to `Nop`.
#[derive(Debug, Clone, Copy, PartialEq, Eq, Structural)]
pub enum Instruction {
    Add(u32),
    Sub(u32),
    Nop,
}

/// The mutable register state of a node: two signed registers, each kept
/// within the closed range `[-999, 999]` by saturating arithmetic.
#[derive(Debug, Clone, Copy, PartialEq, Eq, Structural)]
pub struct NodeState {
    pub acc: i32,
    pub bak: i32,
}

impl NodeState {
    /// The saturation invariant: both registers within `[-999, 999]`.
    pub open spec fn wf(&self) -> bool {
        &&& -999 <= self.acc <= 999
        &&& -999 <= self.bak <= 999
    }

    pub fn new() -> (r: Self)
        ensures
            r.acc == 0,
            r.bak == 0,
            r.wf(),
    {
        NodeState { acc: 0, bak: 0 }
    }
}

/// One node: its identifier, its register state, its immutable instruction
/// list, and the jumpmark table recorded while its source text was split
/// into lines (label text mapped to the zero-based index of the retained
/// source line it was declared on).
#[derive(Debug, Clone)]
pub struct Node {
    pub id: u32,
    pub state: NodeState,
    pub instructions: Vec<Instruction>,
    pub jumpmarks: Vec<(String, usize)>,
}

impl Node {
    /// The jumpmark table as a ghost association list.
    pub open spec fn jumpmarks_view(&self) -> Seq<(Seq<char>, int)> {
        self.jumpmarks@.map_values(|p: (String, usize)| (p.0@, p.1 as int))
    }

    pub fn new() -> (r: Self)
        ensures
            r.id == 0,
            r.state.acc == 0,
            r.state.bak == 0,
            r.instructions@ == Seq::<Instruction>::empty(),
            r.jumpmarks@ == Seq::<(String, usize)>::empty(),
    {
        Node { id: 0, state: NodeState::new(), instructions: Vec::new(), jumpmarks: Vec::new() }
    }
}

/// A small example program: two nodes, the first with two `ADD`
/// instructions on one line, the second with a single `ADD`.
pub fn sample_code() -> (r: String)
    ensures
        r@ == "@0\nADD4ADD2\n\n@1 ADD1\n"@,
{
    "@0\nADD4ADD2\n\n@1 ADD1\n".to_owned()
}

} // verus!
