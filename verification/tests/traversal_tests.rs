use rspirv_cfg::Block;
use rspirv_cfg::Function;
use rspirv_cfg::Instruction;
use rspirv_cfg::Module;
use rspirv_cfg::Operand;
use rspirv_cfg::PetSpirv;
use rspirv_cfg::SpirvModule;
use rspirv_cfg::OP_BRANCH;
use rspirv_cfg::OP_BRANCH_CONDITIONAL;
use rspirv_cfg::OP_SELECTION_MERGE;

fn inst(opcode: u32, opname: &str, operands: Vec<Operand>) -> Instruction {
    Instruction {
        opcode,
        opname: opname.to_string(),
        result_id: None,
        result_type: None,
        operands,
    }
}

fn block(id: u32, instructions: Vec<Instruction>) -> Block {
    Block {
        label: Some(Instruction {
            opcode: 248,
            opname: "Label".to_string(),
            result_id: Some(id),
            result_type: None,
            operands: vec![],
        }),
        instructions,
    }
}

fn branch(target: u32) -> Instruction {
    inst(OP_BRANCH, "Branch", vec![Operand::IdRef(target)])
}

fn diamond() -> Function {
    // entry 1 branches to 2 (true) or 3 (false), both rejoin at 4
    Function {
        def: Some(Instruction {
            opcode: 54,
            opname: "Function".to_string(),
            result_id: Some(100),
            result_type: None,
            operands: vec![],
        }),
        blocks: vec![
            block(
                1,
                vec![
                    inst(OP_SELECTION_MERGE, "SelectionMerge", vec![Operand::IdRef(4)]),
                    inst(
                        OP_BRANCH_CONDITIONAL,
                        "BranchConditional",
                        vec![Operand::IdRef(9), Operand::IdRef(2), Operand::IdRef(3)],
                    ),
                ],
            ),
            block(2, vec![branch(4)]),
            block(3, vec![branch(4)]),
            block(4, vec![inst(253, "Return", vec![])]),
        ],
    }
}

fn wrap(f: Function) -> SpirvModule {
    SpirvModule::from_module(Module {
        debugs: vec![],
        functions: vec![f],
    })
}

#[test]
fn diamond_visits_each_block_once() {
    let sm = wrap(diamond());
    let pet = PetSpirv::new(&sm, &sm.module.functions[0]);
    assert!(pet.check());
    let order = pet.traverse();
    assert_eq!(order, vec![1, 2, 4, 3]);
}

#[test]
fn traversal_is_deterministic_across_calls() {
    let sm = wrap(diamond());
    let pet = PetSpirv::new(&sm, &sm.module.functions[0]);
    assert!(pet.check());
    let first = pet.traverse();
    let second = pet.traverse();
    assert_eq!(first, second);
}

#[test]
fn cycle_terminates_and_visits_once() {
    let f = Function {
        def: None,
        blocks: vec![block(1, vec![branch(2)]), block(2, vec![branch(1)])],
    };
    let sm = wrap(f);
    let pet = PetSpirv::new(&sm, &sm.module.functions[0]);
    assert!(pet.check());
    let order = pet.traverse();
    assert_eq!(order, vec![1, 2]);
}

#[test]
fn unreachable_block_is_never_visited() {
    let f = Function {
        def: None,
        blocks: vec![
            block(1, vec![branch(2)]),
            block(2, vec![inst(253, "Return", vec![])]),
            block(3, vec![branch(1)]),
        ],
    };
    let sm = wrap(f);
    let pet = PetSpirv::new(&sm, &sm.module.functions[0]);
    assert!(pet.check());
    let order = pet.traverse();
    assert_eq!(order, vec![1, 2]);
    assert!(!order.contains(&3));
}

#[test]
fn function_without_blocks_traverses_nothing() {
    let f = Function {
        def: None,
        blocks: vec![],
    };
    let sm = wrap(f);
    let pet = PetSpirv::new(&sm, &sm.module.functions[0]);
    assert!(pet.check());
    assert_eq!(pet.traverse(), Vec::<u32>::new());
}

#[test]
fn get_block_finds_the_labelled_block() {
    let sm = wrap(diamond());
    let pet = PetSpirv::new(&sm, &sm.module.functions[0]);
    assert!(pet.check());
    let bb = pet.get_block(3);
    assert_eq!(bb.label.as_ref().unwrap().result_id, Some(3));
}

#[test]
fn check_rejects_a_dangling_successor() {
    let f = Function {
        def: None,
        blocks: vec![block(1, vec![branch(7)])],
    };
    let sm = wrap(f);
    let pet = PetSpirv::new(&sm, &sm.module.functions[0]);
    assert!(!pet.check());
}

#[test]
fn get_label_prefers_the_debug_name() {
    let f = Function {
        def: None,
        blocks: vec![block(1, vec![inst(253, "Return", vec![])])],
    };
    let sm = SpirvModule::from_module(Module {
        debugs: vec![Instruction {
            opcode: 5,
            opname: "Name".to_string(),
            result_id: None,
            result_type: None,
            operands: vec![
                Operand::IdRef(1),
                Operand::LiteralString("top".to_string()),
            ],
        }],
        functions: vec![f],
    });
    let pet = PetSpirv::new(&sm, &sm.module.functions[0]);
    assert_eq!(pet.get_label(1), "top");
    assert_eq!(pet.get_label(2), "2");
}
