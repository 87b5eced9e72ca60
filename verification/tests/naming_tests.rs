use rspirv_cfg::check_debugs;
use rspirv_cfg::disassemble_instruction;
use rspirv_cfg::escape_html;
use rspirv_cfg::Block;
use rspirv_cfg::Function;
use rspirv_cfg::Instruction;
use rspirv_cfg::Module;
use rspirv_cfg::Operand;
use rspirv_cfg::SpirvModule;
use rspirv_cfg::OP_NAME;

fn name_inst(id: u32, name: &str) -> Instruction {
    Instruction {
        opcode: OP_NAME,
        opname: "Name".to_string(),
        result_id: None,
        result_type: None,
        operands: vec![
            Operand::IdRef(id),
            Operand::LiteralString(name.to_string()),
        ],
    }
}

fn module_with_debugs(debugs: Vec<Instruction>) -> SpirvModule {
    SpirvModule::from_module(Module {
        debugs,
        functions: vec![],
    })
}

#[test]
fn escape_html_replaces_the_four_special_characters() {
    assert_eq!(escape_html("a&b\"c<d>e"), "a&amp;b&quot;c&lt;d&gt;e");
    assert_eq!(escape_html(""), "");
    assert_eq!(escape_html("plain"), "plain");
    assert_eq!(escape_html("&&"), "&amp;&amp;");
}

#[test]
fn resolve_uses_name_and_id_when_a_name_is_bound() {
    let sm = module_with_debugs(vec![name_inst(7, "foo")]);
    assert_eq!(sm.name_or_id(Some(7)).unwrap(), "foo(%7)");
}

#[test]
fn resolve_falls_back_to_the_raw_identifier() {
    let sm = module_with_debugs(vec![name_inst(7, "foo")]);
    assert_eq!(sm.name_or_id(Some(9)).unwrap(), "%9");
    assert_eq!(sm.name_or_id(Some(4294967295)).unwrap(), "%4294967295");
    assert_eq!(sm.name_or_id(None), None);
}

#[test]
fn later_name_binding_overwrites_an_earlier_one() {
    let sm = module_with_debugs(vec![name_inst(7, "old"), name_inst(7, "new")]);
    assert_eq!(sm.name_or_id(Some(7)).unwrap(), "new(%7)");
}

#[test]
fn function_and_block_names_come_from_their_result_identifiers() {
    let f = Function {
        def: Some(Instruction {
            opcode: 54,
            opname: "Function".to_string(),
            result_id: Some(100),
            result_type: None,
            operands: vec![],
        }),
        blocks: vec![Block {
            label: Some(Instruction {
                opcode: 248,
                opname: "Label".to_string(),
                result_id: Some(1),
                result_type: None,
                operands: vec![],
            }),
            instructions: vec![],
        }],
    };
    let sm = SpirvModule::from_module(Module {
        debugs: vec![name_inst(100, "main"), name_inst(1, "entry")],
        functions: vec![f],
    });
    assert_eq!(sm.get_name_fn(&sm.module.functions[0]), Some("main"));
    assert_eq!(
        sm.get_name_bb(&sm.module.functions[0].blocks[0]),
        Some("entry")
    );
}

#[test]
fn unnamed_function_and_block_resolve_to_none() {
    let f = Function {
        def: None,
        blocks: vec![Block {
            label: None,
            instructions: vec![],
        }],
    };
    let sm = SpirvModule::from_module(Module {
        debugs: vec![],
        functions: vec![f],
    });
    assert_eq!(sm.get_name_fn(&sm.module.functions[0]), None);
    assert_eq!(sm.get_name_bb(&sm.module.functions[0].blocks[0]), None);
}

#[test]
fn check_debugs_rejects_a_malformed_name_annotation() {
    let bad = Module {
        debugs: vec![Instruction {
            opcode: OP_NAME,
            opname: "Name".to_string(),
            result_id: None,
            result_type: None,
            operands: vec![Operand::IdRef(7)],
        }],
        functions: vec![],
    };
    assert!(!check_debugs(&bad));
    let good = Module {
        debugs: vec![name_inst(7, "x")],
        functions: vec![],
    };
    assert!(check_debugs(&good));
}

#[test]
fn instruction_line_renders_result_type_and_operands() {
    let sm = module_with_debugs(vec![name_inst(5, "x")]);
    let i = Instruction {
        opcode: 128,
        opname: "IAdd".to_string(),
        result_id: Some(5),
        result_type: Some(2),
        operands: vec![Operand::IdRef(3), Operand::IdRef(4)],
    };
    assert_eq!(disassemble_instruction(&sm, &i), "x(%5) = OpIAdd %2 %3 %4");
}

#[test]
fn instruction_line_escapes_resolved_names() {
    let sm = module_with_debugs(vec![name_inst(3, "a<b>")]);
    let i = Instruction {
        opcode: 253,
        opname: "ReturnValue".to_string(),
        result_id: None,
        result_type: None,
        operands: vec![Operand::IdRef(3)],
    };
    assert_eq!(
        disassemble_instruction(&sm, &i),
        "OpReturnValue a&lt;b&gt;(%3)"
    );
}

#[test]
fn instruction_line_renders_literals_textually() {
    let sm = module_with_debugs(vec![]);
    let i = Instruction {
        opcode: 43,
        opname: "Constant".to_string(),
        result_id: Some(8),
        result_type: Some(2),
        operands: vec![Operand::LiteralInt32(42), Operand::Other("Aligned".to_string())],
    };
    assert_eq!(
        disassemble_instruction(&sm, &i),
        "%8 = OpConstant %2 42 Aligned"
    );
}
