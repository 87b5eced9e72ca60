use rspirv_cfg::check_module;
use rspirv_cfg::export_spirv_cfg;
use rspirv_cfg::Block;
use rspirv_cfg::Function;
use rspirv_cfg::Instruction;
use rspirv_cfg::Module;
use rspirv_cfg::Operand;
use rspirv_cfg::SpirvModule;
use rspirv_cfg::OP_BRANCH;
use rspirv_cfg::OP_BRANCH_CONDITIONAL;
use rspirv_cfg::OP_NAME;
use rspirv_cfg::OP_SELECTION_MERGE;

fn inst(opcode: u32, opname: &str, operands: Vec<Operand>) -> Instruction {
    Instruction {
        opcode,
        opname: opname.to_string(),
        result_id: None,
        result_type: None,
        operands,
    }
}

fn block(id: u32, instructions: Vec<Instruction>) -> Block {
    Block {
        label: Some(Instruction {
            opcode: 248,
            opname: "Label".to_string(),
            result_id: Some(id),
            result_type: None,
            operands: vec![],
        }),
        instructions,
    }
}

fn name_inst(id: u32, name: &str) -> Instruction {
    inst(
        OP_NAME,
        "Name",
        vec![
            Operand::IdRef(id),
            Operand::LiteralString(name.to_string()),
        ],
    )
}

fn fn_def(id: u32) -> Option<Instruction> {
    Some(Instruction {
        opcode: 54,
        opname: "Function".to_string(),
        result_id: Some(id),
        result_type: None,
        operands: vec![],
    })
}

#[test]
fn single_block_function_renders_the_exact_document() {
    let f = Function {
        def: fn_def(100),
        blocks: vec![block(1, vec![])],
    };
    let sm = SpirvModule::from_module(Module {
        debugs: vec![name_inst(100, "main")],
        functions: vec![f],
    });
    assert!(check_module(&sm));
    let doc = export_spirv_cfg(&sm);
    let expected = "digraph {\n\
graph [fontname=\"monospace\", fontsize=13.5];\n\
node [fontname=\"monospace\", fontsize=13.5];\n\
edge [fontname=\"monospace\", fontsize=13.5];\n\
100 [shape=\"box\", label=\"main\"];\n\
100 -> 1\n  1 [shape=none, label=<\n\
\t<table>\n\
\t\t<tr><td align=\"center\" bgcolor=\"gray\" colspan=\"1\">%1</td></tr>\n\
\t\t<tr><td align=\"left\" balign=\"left\">\n\
\t</td></tr></table>>];\n\
}\n";
    assert_eq!(doc, expected);
}

#[test]
fn diamond_document_has_all_nodes_and_edges() {
    // entry 1: conditional branch to 2 (true) and 3 (false), merge at 4;
    // 2 and 3 branch to 4; 4 ends control flow
    let f = Function {
        def: fn_def(100),
        blocks: vec![
            block(
                1,
                vec![
                    inst(OP_SELECTION_MERGE, "SelectionMerge", vec![Operand::IdRef(4)]),
                    inst(
                        OP_BRANCH_CONDITIONAL,
                        "BranchConditional",
                        vec![Operand::IdRef(9), Operand::IdRef(2), Operand::IdRef(3)],
                    ),
                ],
            ),
            block(2, vec![inst(OP_BRANCH, "Branch", vec![Operand::IdRef(4)])]),
            block(3, vec![inst(OP_BRANCH, "Branch", vec![Operand::IdRef(4)])]),
            block(4, vec![inst(253, "Return", vec![])]),
        ],
    };
    let sm = SpirvModule::from_module(Module {
        debugs: vec![name_inst(100, "main")],
        functions: vec![f],
    });
    assert!(check_module(&sm));
    let doc = export_spirv_cfg(&sm);
    // four block nodes, declared once each
    for id in 1..=4 {
        let decl = format!("  {} [shape=none, label=<\n", id);
        assert_eq!(doc.matches(&decl).count(), 1);
    }
    // the function header points at the entry block
    assert_eq!(doc.matches("100 -> 1\n").count(), 1);
    // one control edge per successor, each exactly once, never revisited
    assert_eq!(doc.matches("  1 -> 2\n").count(), 1);
    assert_eq!(doc.matches("  1 -> 3\n").count(), 1);
    assert_eq!(doc.matches("  2 -> 4\n").count(), 1);
    assert_eq!(doc.matches("  3 -> 4\n").count(), 1);
    // one dashed merge edge from the entry to the merge block
    assert_eq!(doc.matches("\t1 -> 4[style=\"dashed\"]\n").count(), 1);
    // the merge target contributes no plain control edge from the entry
    assert_eq!(doc.matches("  1 -> 4\n").count(), 0);
}

#[test]
fn unnamed_function_header_says_unknown() {
    let f = Function {
        def: fn_def(100),
        blocks: vec![block(1, vec![])],
    };
    let sm = SpirvModule::from_module(Module {
        debugs: vec![],
        functions: vec![f],
    });
    assert!(check_module(&sm));
    let doc = export_spirv_cfg(&sm);
    assert!(doc.contains("100 [shape=\"box\", label=\"Unknown\"];\n"));
}

#[test]
fn one_document_per_function() {
    let make = |fid: u32, bid: u32| Function {
        def: fn_def(fid),
        blocks: vec![block(bid, vec![])],
    };
    let sm = SpirvModule::from_module(Module {
        debugs: vec![],
        functions: vec![make(100, 1), make(200, 2)],
    });
    assert!(check_module(&sm));
    let doc = export_spirv_cfg(&sm);
    assert_eq!(doc.matches("digraph {\n").count(), 2);
    assert_eq!(doc.matches("}\n").count(), 2);
    assert!(doc.contains("100 -> 1\n"));
    assert!(doc.contains("200 -> 2\n"));
}

#[test]
fn function_name_with_a_quote_is_backslash_escaped() {
    let f = Function {
        def: fn_def(100),
        blocks: vec![block(1, vec![])],
    };
    let sm = SpirvModule::from_module(Module {
        debugs: vec![name_inst(100, "a\"b\\c")],
        functions: vec![f],
    });
    assert!(check_module(&sm));
    let doc = export_spirv_cfg(&sm);
    assert!(doc.contains("100 [shape=\"box\", label=\"a\\\"b\\\\c\"];\n"));
}

#[test]
fn check_module_rejects_a_function_without_blocks() {
    let f = Function {
        def: fn_def(100),
        blocks: vec![],
    };
    let sm = SpirvModule::from_module(Module {
        debugs: vec![],
        functions: vec![f],
    });
    assert!(!check_module(&sm));
}

#[test]
fn check_module_rejects_a_function_without_a_definition() {
    let f = Function {
        def: None,
        blocks: vec![block(1, vec![])],
    };
    let sm = SpirvModule::from_module(Module {
        debugs: vec![],
        functions: vec![f],
    });
    assert!(!check_module(&sm));
}

#[test]
fn block_node_lists_instructions_in_block_order() {
    let f = Function {
        def: fn_def(100),
        blocks: vec![block(
            1,
            vec![
                Instruction {
                    opcode: 128,
                    opname: "IAdd".to_string(),
                    result_id: Some(5),
                    result_type: Some(2),
                    operands: vec![Operand::IdRef(3), Operand::IdRef(4)],
                },
                inst(253, "Return", vec![]),
            ],
        )],
    };
    let sm = SpirvModule::from_module(Module {
        debugs: vec![],
        functions: vec![f],
    });
    assert!(check_module(&sm));
    let doc = export_spirv_cfg(&sm);
    let add = doc.find("\t\t\t%5 = OpIAdd %2 %3 %4<br/>\n").unwrap();
    let ret = doc.find("\t\t\tOpReturn<br/>\n").unwrap();
    assert!(add < ret);
}

#[test]
fn block_header_name_is_not_escaped_but_operands_are() {
    let f = Function {
        def: fn_def(100),
        blocks: vec![block(
            1,
            vec![inst(253, "ReturnValue", vec![Operand::IdRef(1)])],
        )],
    };
    let sm = SpirvModule::from_module(Module {
        debugs: vec![name_inst(1, "a<b")],
        functions: vec![f],
    });
    assert!(check_module(&sm));
    let doc = export_spirv_cfg(&sm);
    assert!(doc.contains("colspan=\"1\">a<b(%1)</td></tr>\n"));
    assert!(doc.contains("OpReturnValue a&lt;b(%1)<br/>\n"));
}
