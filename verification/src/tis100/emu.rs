//! The tick engine: advances node state by repeatedly applying instructions
//! selected by cyclic index, with saturating arithmetic on the `acc`
//! register.

use vstd::prelude::*;
use crate::tis100::{Instruction, Node, NodeState};

verus! {

/// Clamps a computed register value to the closed range `[-999, 999]`.
pub open spec fn spec_saturate(v: int) -> int {
    if v > 999 {
        999
    } else if v < -999 {
        -999
    } else {
        v
    }
}

/// One tick: the state after executing a single instruction.
pub open spec fn spec_step(s: NodeState, i: Instruction) -> NodeState {
    match i {
        Instruction::Add(x) => NodeState { acc: spec_saturate(s.acc + x) as i32, bak: s.bak },
        Instruction::Sub(x) => NodeState { acc: spec_saturate(s.acc - x) as i32, bak: s.bak },
        Instruction::Nop => s,
    }
}

/// The state after `ticks` sequential transitions from `s`, where tick `t`
/// (0-indexed) executes `instrs[t mod instrs.len()]`. With no instructions,
/// the state is unchanged for any number of ticks.
pub open spec fn spec_tick_n(s: NodeState, instrs: Seq<Instruction>, ticks: nat) -> NodeState
    decreases ticks,
{
    if ticks == 0 || instrs.len() == 0 {
        s
    } else {
        spec_step(
            spec_tick_n(s, instrs, (ticks - 1) as nat),
            instrs[((ticks - 1) as int) % (instrs.len() as int)],
        )
    }
}

/// The saturation invariant is preserved: from a well-formed state, any
/// number of ticks under any instruction list leaves both registers within
/// `[-999, 999]`.
pub proof fn lemma_tick_n_wf(s: NodeState, instrs: Seq<Instruction>, ticks: nat)
    requires
        s.wf(),
    ensures
        spec_tick_n(s, instrs, ticks).wf(),
    decreases ticks,
{
    if ticks > 0 && instrs.len() > 0 {
        lemma_tick_n_wf(s, instrs, (ticks - 1) as nat);
    }
}

/// Saturating addition at the integer bounds of the emulated hardware, 999
/// and -999. Total: the sum is computed widely, so no host-level overflow
/// can occur for any arguments.
pub fn saturating_add(a: i32, b: i32) -> (r: i32)
    ensures
        r as int == spec_saturate(a + b),
{
    let result: i64 = a as i64 + b as i64;
    if result > 999 {
        999
    } else if result < -999 {
        -999
    } else {
        result as i32
    }
}

/// Saturating subtraction at the integer bounds of the emulated hardware,
/// 999 and -999.
pub fn saturating_sub(a: i32, b: i32) -> (r: i32)
    ensures
        r as int == spec_saturate(a - b),
{
    let result: i64 = a as i64 - b as i64;
    if result > 999 {
        999
    } else if result < -999 {
        -999
    } else {
        result as i32
    }
}

/// An operand clamped so that it fits an `i32` while saturating to the same
/// register value: beyond 2000, any addend drives a well-formed register to
/// the same saturation bound.
fn clamp_operand(x: u32) -> (r: i32)
    ensures
        0 <= r <= 2000,
        x <= 2000 ==> r == x,
        x > 2000 ==> r == 2000,
{
    if x > 2000 {
        2000
    } else {
        x as i32
    }
}

/// Applies `ticks` sequential transitions to `state` under `instructions`,
/// selecting each tick's instruction by cyclic index. Does not mutate its
/// inputs: repeated calls on the same state replay from tick 0.
pub fn tick_n(state: &NodeState, instructions: &Vec<Instruction>, ticks: usize) -> (r: NodeState)
    requires
        state.wf(),
    ensures
        r == spec_tick_n(*state, instructions@, ticks as nat),
        r.wf(),
{
    let program_length = instructions.len();
    if program_length == 0 {
        return *state;
    }
    let mut new_state = *state;
    let mut tick: usize = 0;
    while tick < ticks
        invariant
            tick <= ticks,
            program_length == instructions@.len(),
            program_length > 0,
            state.wf(),
            new_state == spec_tick_n(*state, instructions@, tick as nat),
            new_state.wf(),
        decreases ticks - tick,
    {
        let idx = tick % program_length;
        let instr = instructions[idx];
        match instr {
            Instruction::Add(x) => {
                let xi = clamp_operand(x);
                proof {
                    assert(spec_saturate(new_state.acc + xi) == spec_saturate(
                        new_state.acc + x,
                    ));
                }
                new_state.acc = saturating_add(new_state.acc, xi);
            },
            Instruction::Sub(x) => {
                let xi = clamp_operand(x);
                proof {
                    assert(spec_saturate(new_state.acc - xi) == spec_saturate(
                        new_state.acc - x,
                    ));
                }
                new_state.acc = saturating_sub(new_state.acc, xi);
            },
            Instruction::Nop => {
                // literally no operation
            },
        }
        proof {
            assert(new_state == spec_step(
                spec_tick_n(*state, instructions@, tick as nat),
                instructions@[tick as int % program_length as int],
            ));
        }
        tick = tick + 1;
    }
    new_state
}

/// Applies `tick_n` independently to every node and returns the updated
/// collection; nodes do not interact with one another.
pub fn tick_all_n(nodes: Vec<Node>, ticks: usize) -> (r: Vec<Node>)
    requires
        forall|i: int| 0 <= i < nodes@.len() ==> (#[trigger] nodes@[i]).state.wf(),
    ensures
        r@.len() == nodes@.len(),
        forall|i: int|
            0 <= i < nodes@.len() ==> {
                let n = #[trigger] r@[i];
                &&& n.id == nodes@[i].id
                &&& n.instructions == nodes@[i].instructions
                &&& n.jumpmarks == nodes@[i].jumpmarks
                &&& n.state == spec_tick_n(nodes@[i].state, nodes@[i].instructions@, ticks as nat)
                &&& n.state.wf()
            },
{
    let ghost orig = nodes@;
    let mut rest = nodes;
    let mut out: Vec<Node> = Vec::new();
    while rest.len() > 0
        invariant
            out@.len() + rest@.len() == orig.len(),
            rest@ == orig.skip(out@.len() as int),
            forall|i: int| 0 <= i < orig.len() ==> (#[trigger] orig[i]).state.wf(),
            forall|i: int|
                0 <= i < out@.len() ==> {
                    let n = #[trigger] out@[i];
                    &&& n.id == orig[i].id
                    &&& n.instructions == orig[i].instructions
                    &&& n.jumpmarks == orig[i].jumpmarks
                    &&& n.state == spec_tick_n(orig[i].state, orig[i].instructions@, ticks as nat)
                    &&& n.state.wf()
                },
        decreases rest@.len(),
    {
        let node = rest.remove(0);
        proof {
            assert(orig.skip(out@.len() as int)[0] == orig[out@.len() as int]);
            assert(rest@ =~= orig.skip(out@.len() as int + 1));
        }
        let new_state = tick_n(&node.state, &node.instructions, ticks);
        out.push(
            Node {
                id: node.id,
                state: new_state,
                instructions: node.instructions,
                jumpmarks: node.jumpmarks,
            },
        );
    }
    out
}

// ---------------------------------------------------------------------------
// Laws of the tick engine
// ---------------------------------------------------------------------------

/// Saturating arithmetic on well-formed operands stays within `[-999, 999]`
/// and equals the unclamped result whenever that result is already within
/// range.
pub proof fn lemma_saturate_in_range(acc: int, x: int)
    requires
        -999 <= acc <= 999,
        -999 <= x <= 999,
    ensures
        -999 <= spec_saturate(acc + x) <= 999,
        -999 <= acc + x <= 999 ==> spec_saturate(acc + x) == acc + x,
        -999 <= spec_saturate(acc - x) <= 999,
        -999 <= acc - x <= 999 ==> spec_saturate(acc - x) == acc - x,
{
}

/// Cyclic indexing: the final step of `k + 1` ticks executes the
/// instruction at index `k mod L`, and the selection repeats with period
/// `L`: after `L + j` ticks the final step executes the same instruction as
/// after `j` ticks.
pub proof fn lemma_tick_cyclic(s: NodeState, instrs: Seq<Instruction>, j: nat)
    requires
        instrs.len() > 0,
    ensures
        spec_tick_n(s, instrs, j + 1) == spec_step(
            spec_tick_n(s, instrs, j),
            instrs[(j as int) % (instrs.len() as int)],
        ),
        spec_tick_n(s, instrs, instrs.len() + j + 1) == spec_step(
            spec_tick_n(s, instrs, instrs.len() + j),
            instrs[(j as int) % (instrs.len() as int)],
        ),
{
    let l = instrs.len() as int;
    assert((l + j) % l == j as int % l) by {
        vstd::arithmetic::div_mod::lemma_mod_add_multiples_vanish(j as int, l);
    }
}

/// With no instructions, any number of ticks leaves the state unchanged.
pub proof fn lemma_tick_empty(s: NodeState, k: nat)
    ensures
        spec_tick_n(s, Seq::<Instruction>::empty(), k) == s,
{
}

} // verus!
