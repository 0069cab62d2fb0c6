use rustis100::tis100::emu::{saturating_add, saturating_sub, tick_all_n, tick_n};
use rustis100::tis100::parse::parse;
use rustis100::tis100::{Instruction, NodeState};

#[test]
fn saturating_add_clamps_at_bounds() {
    assert_eq!(saturating_add(999, 1), 999);
    assert_eq!(saturating_add(998, 1), 999);
    assert_eq!(saturating_add(-999, -1), -999);
    assert_eq!(saturating_add(500, 400), 900);
    assert_eq!(saturating_add(-500, 400), -100);
    assert_eq!(saturating_add(999, 999), 999);
    assert_eq!(saturating_add(-999, -999), -999);
}

#[test]
fn saturating_sub_clamps_at_bounds() {
    assert_eq!(saturating_sub(-999, 1), -999);
    assert_eq!(saturating_sub(-998, 1), -999);
    assert_eq!(saturating_sub(999, -1), 999);
    assert_eq!(saturating_sub(500, 400), 100);
    assert_eq!(saturating_sub(0, 999), -999);
}

#[test]
fn zero_ticks_leave_state_unchanged() {
    let state = NodeState { acc: 7, bak: -3 };
    let instrs = vec![Instruction::Add(1)];
    let after = tick_n(&state, &instrs, 0);
    assert_eq!(after, state);
}

#[test]
fn empty_program_never_changes_state() {
    let state = NodeState { acc: 7, bak: -3 };
    let instrs: Vec<Instruction> = Vec::new();
    for ticks in [0usize, 1, 5, 1000] {
        let after = tick_n(&state, &instrs, ticks);
        assert_eq!(after, state);
    }
}

#[test]
fn ticks_select_instructions_cyclically() {
    let state = NodeState::new();
    let instrs = vec![Instruction::Add(1), Instruction::Add(2)];
    // tick0: Add1 -> 1; tick1: Add2 -> 3; tick2: Add1 -> 4
    assert_eq!(tick_n(&state, &instrs, 3).acc, 4);
    // two further ticks revisit the same cycle: Add2 -> 6; Add1 -> 7
    assert_eq!(tick_n(&state, &instrs, 5).acc, 7);
}

#[test]
fn three_ticks_on_the_two_node_scenario() {
    let nodes = parse("@0ADD4ADD2\n\n@1 ADD1".to_string()).unwrap();
    let nodes = tick_all_n(nodes, 3);
    // tick0: Add4 -> 4; tick1: Add2 -> 6; tick2: Add4 -> 10 (cyclic revisit)
    assert_eq!(nodes[0].state.acc, 10);
    assert_eq!(nodes[1].state.acc, 3);
}

#[test]
fn repeated_calls_replay_from_the_same_state() {
    let nodes = parse("@0ADD99".to_string()).unwrap();
    let node = &nodes[0];
    for _ in 0..20 {
        let after = tick_n(&node.state, &node.instructions, 1);
        assert_eq!(after.acc, 99);
    }
    // the input state is never mutated
    assert_eq!(node.state.acc, 0);
}

#[test]
fn many_ticks_in_one_call_accumulate_and_saturate() {
    let nodes = parse("@0ADD99".to_string()).unwrap();
    let node = &nodes[0];
    let after = tick_n(&node.state, &node.instructions, 20);
    assert_eq!(after.acc, 999);
}

#[test]
fn subtraction_saturates_at_the_lower_bound() {
    let nodes = parse("@0SUB500".to_string()).unwrap();
    let node = &nodes[0];
    assert_eq!(tick_n(&node.state, &node.instructions, 1).acc, -500);
    assert_eq!(tick_n(&node.state, &node.instructions, 2).acc, -999);
}

#[test]
fn huge_operands_saturate_in_one_tick() {
    let nodes = parse("@0ADD4294967295".to_string()).unwrap();
    let node = &nodes[0];
    assert_eq!(tick_n(&node.state, &node.instructions, 1).acc, 999);
}

#[test]
fn nop_placeholders_do_not_change_state() {
    let nodes = parse("@0SAV\nNEG\nJMP1".to_string()).unwrap();
    let node = &nodes[0];
    let after = tick_n(&node.state, &node.instructions, 9);
    assert_eq!(after, node.state);
}

#[test]
fn tick_all_n_keeps_nodes_independent() {
    let nodes = parse("@0ADD1\n@1SUB1\n@2NOP".to_string()).unwrap();
    let nodes = tick_all_n(nodes, 4);
    assert_eq!(nodes[0].state.acc, 4);
    assert_eq!(nodes[1].state.acc, -4);
    assert_eq!(nodes[2].state.acc, 0);
    assert_eq!(nodes[0].id, 0);
    assert_eq!(nodes[1].id, 1);
    assert_eq!(nodes[2].id, 2);
}

#[test]
fn bak_register_is_untouched_by_this_core() {
    let state = NodeState { acc: 0, bak: 55 };
    let instrs = vec![Instruction::Add(3), Instruction::Sub(1)];
    let after = tick_n(&state, &instrs, 7);
    assert_eq!(after.bak, 55);
}
