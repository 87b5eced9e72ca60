use rspirv_cfg::Block;
use rspirv_cfg::Instruction;
use rspirv_cfg::Operand;
use rspirv_cfg::Terminator;
use rspirv_cfg::OP_BRANCH;
use rspirv_cfg::OP_BRANCH_CONDITIONAL;
use rspirv_cfg::OP_SELECTION_MERGE;
use rspirv_cfg::OP_SWITCH;

fn inst(opcode: u32, opname: &str, operands: Vec<Operand>) -> Instruction {
    Instruction {
        opcode,
        opname: opname.to_string(),
        result_id: None,
        result_type: None,
        operands,
    }
}

fn label(id: u32) -> Option<Instruction> {
    Some(Instruction {
        opcode: 248,
        opname: "Label".to_string(),
        result_id: Some(id),
        result_type: None,
        operands: vec![],
    })
}

#[test]
fn branch_has_one_successor() {
    let bb = Block {
        label: label(1),
        instructions: vec![inst(OP_BRANCH, "Branch", vec![Operand::IdRef(4)])],
    };
    let t = Terminator::from_basic_block(&bb);
    assert!(matches!(t, Terminator::Branch { target: 4 }));
    assert_eq!(t.successors(), vec![4]);
    assert_eq!(t.merge_block(), None);
}

#[test]
fn conditional_branch_orders_true_then_false() {
    let bb = Block {
        label: label(1),
        instructions: vec![inst(
            OP_BRANCH_CONDITIONAL,
            "BranchConditional",
            vec![Operand::IdRef(9), Operand::IdRef(2), Operand::IdRef(3)],
        )],
    };
    let t = Terminator::from_basic_block(&bb);
    assert_eq!(t.successors(), vec![2, 3]);
    assert_eq!(t.merge_block(), None);
}

#[test]
fn merge_annotation_is_detected_before_conditional() {
    let bb = Block {
        label: label(1),
        instructions: vec![
            inst(OP_SELECTION_MERGE, "SelectionMerge", vec![Operand::IdRef(4)]),
            inst(
                OP_BRANCH_CONDITIONAL,
                "BranchConditional",
                vec![Operand::IdRef(9), Operand::IdRef(2), Operand::IdRef(3)],
            ),
        ],
    };
    let t = Terminator::from_basic_block(&bb);
    assert_eq!(t.merge_block(), Some(4));
    // the merge target stands apart from the successor edges
    assert_eq!(t.successors(), vec![2, 3]);
    assert!(!t.successors().contains(&4));
}

#[test]
fn switch_appends_default_after_three_case_targets() {
    let bb = Block {
        label: label(1),
        instructions: vec![inst(
            OP_SWITCH,
            "Switch",
            vec![
                Operand::IdRef(7),
                Operand::IdRef(9),
                Operand::LiteralInt32(10),
                Operand::IdRef(11),
                Operand::LiteralInt32(20),
                Operand::IdRef(12),
                Operand::LiteralInt32(30),
                Operand::IdRef(13),
            ],
        )],
    };
    let t = Terminator::from_basic_block(&bb);
    match &t {
        Terminator::Switch {
            merge_block,
            values,
            targets,
        } => {
            assert_eq!(merge_block, &None);
            assert_eq!(values, &vec![10, 20, 30]);
            assert_eq!(targets, &vec![11, 12, 13, 9]);
        }
        _ => panic!("expected a switch terminator"),
    }
    assert_eq!(t.successors(), vec![11, 12, 13, 9]);
}

#[test]
fn switch_with_merge_annotation() {
    let bb = Block {
        label: label(1),
        instructions: vec![
            inst(OP_SELECTION_MERGE, "SelectionMerge", vec![Operand::IdRef(99)]),
            inst(
                OP_SWITCH,
                "Switch",
                vec![
                    Operand::IdRef(7),
                    Operand::IdRef(9),
                    Operand::LiteralInt32(1),
                    Operand::IdRef(11),
                ],
            ),
        ],
    };
    let t = Terminator::from_basic_block(&bb);
    assert_eq!(t.merge_block(), Some(99));
    assert_eq!(t.successors(), vec![11, 9]);
}

#[test]
fn empty_block_classifies_as_end() {
    let bb = Block {
        label: label(1),
        instructions: vec![],
    };
    let t = Terminator::from_basic_block(&bb);
    assert!(matches!(t, Terminator::End));
    assert_eq!(t.successors(), Vec::<u32>::new());
}

#[test]
fn non_control_flow_tail_classifies_as_end() {
    let bb = Block {
        label: label(1),
        instructions: vec![inst(253, "Return", vec![])],
    };
    let t = Terminator::from_basic_block(&bb);
    assert!(matches!(t, Terminator::End));
    assert_eq!(t.successors().len(), 0);
}

#[test]
fn merge_annotation_before_plain_branch_is_ignored() {
    let bb = Block {
        label: label(1),
        instructions: vec![
            inst(OP_SELECTION_MERGE, "SelectionMerge", vec![Operand::IdRef(4)]),
            inst(OP_BRANCH, "Branch", vec![Operand::IdRef(2)]),
        ],
    };
    let t = Terminator::from_basic_block(&bb);
    assert_eq!(t.merge_block(), None);
    assert_eq!(t.successors(), vec![2]);
}
