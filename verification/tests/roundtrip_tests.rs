use rustis100::tis100::emit::serialize;
use rustis100::tis100::parse::parse;
use rustis100::tis100::{Instruction, Node, NodeState};

#[test]
fn serialize_renders_one_instruction_per_line() {
    let node = Node {
        id: 0,
        state: NodeState::new(),
        instructions: vec![Instruction::Add(4), Instruction::Sub(2), Instruction::Nop],
        jumpmarks: Vec::new(),
    };
    assert_eq!(serialize(&vec![node]), "@0\nADD4\nSUB2\nNOP\n");
}

#[test]
fn serialize_of_no_nodes_is_empty() {
    assert_eq!(serialize(&Vec::new()), "");
}

#[test]
fn round_trip_of_the_two_node_scenario() {
    let nodes = parse("@0ADD4ADD2\n\n@1 ADD1".to_string()).unwrap();
    let text = serialize(&nodes);
    assert_eq!(text, "@0\nADD4\nADD2\n@1\nADD1\n");
    let again = parse(text).unwrap();
    assert_eq!(again.len(), nodes.len());
    for (a, b) in nodes.iter().zip(again.iter()) {
        assert_eq!(a.id, b.id);
        assert_eq!(a.instructions, b.instructions);
    }
}

#[test]
fn round_trip_with_jumpmarks_and_placeholders() {
    let nodes = parse("@7LOOP:ADD1\nSAV\nJMP0\nSUB3".to_string()).unwrap();
    assert_eq!(nodes[0].jumpmarks, vec![("LOOP:".to_string(), 0)]);
    let again = parse(serialize(&nodes)).unwrap();
    assert_eq!(again.len(), 1);
    assert_eq!(again[0].id, 7);
    assert_eq!(again[0].instructions, nodes[0].instructions);
    // labels are not rendered: the round trip is at the instruction level
    assert!(again[0].jumpmarks.is_empty());
}

#[test]
fn round_trip_of_an_empty_program_node() {
    let nodes = parse("@3".to_string()).unwrap();
    assert!(nodes[0].instructions.is_empty());
    let text = serialize(&nodes);
    assert_eq!(text, "@3\n");
    let again = parse(text).unwrap();
    assert_eq!(again.len(), 1);
    assert_eq!(again[0].id, 3);
    assert!(again[0].instructions.is_empty());
}

#[test]
fn round_trip_of_largest_values() {
    let node = Node {
        id: u32::MAX,
        state: NodeState::new(),
        instructions: vec![Instruction::Add(u32::MAX), Instruction::Sub(0)],
        jumpmarks: Vec::new(),
    };
    let again = parse(serialize(&vec![node])).unwrap();
    assert_eq!(again[0].id, u32::MAX);
    assert_eq!(again[0].instructions, vec![Instruction::Add(u32::MAX), Instruction::Sub(0)]);
}
