//! The in-memory form of a loaded IR module: functions made of basic blocks,
//! blocks made of instructions, instructions made of an opcode and operands.
//! Every field is a plain value, so contracts can speak of the data directly.
use vstd::prelude::*;

verus! {

/// Opcode of the debug annotation that binds a name to an identifier.
pub const OP_NAME: u32 = 5;

/// Opcode of the structured-selection merge annotation.
pub const OP_SELECTION_MERGE: u32 = 247;

/// Opcode of an unconditional jump.
pub const OP_BRANCH: u32 = 249;

/// Opcode of a conditional jump.
pub const OP_BRANCH_CONDITIONAL: u32 = 250;

/// Opcode of a multi-way jump.
pub const OP_SWITCH: u32 = 251;

/// One operand of an instruction: a reference to an identifier, a 32-bit
/// literal, a literal string, or any other operand kind carried as its
/// already-rendered text.
pub enum Operand {
    IdRef(u32),
    LiteralInt32(u32),
    LiteralString(String),
    Other(String),
}

/// An operation code plus its ordered operands; optionally binds a result
/// identifier and a result-type identifier. `opname` is the opcode's mnemonic
/// without the leading `Op`.
pub struct Instruction {
    pub opcode: u32,
    pub opname: String,
    pub result_id: Option<u32>,
    pub result_type: Option<u32>,
    pub operands: Vec<Operand>,
}

/// An ordered instruction sequence, identified by the identifier bound to its
/// label instruction.
pub struct Block {
    pub label: Option<Instruction>,
    pub instructions: Vec<Instruction>,
}

/// An ordered sequence of basic blocks; `def` is the defining instruction
/// whose result identifier names the function.
pub struct Function {
    pub def: Option<Instruction>,
    pub blocks: Vec<Block>,
}

/// A loaded IR program: its functions plus the debug annotations from which
/// the name table is built.
pub struct Module {
    pub debugs: Vec<Instruction>,
    pub functions: Vec<Function>,
}

/// The identifier an operand refers to, when it is an identifier reference.
pub open spec fn operand_id(o: Operand) -> u32 {
    match o {
        Operand::IdRef(id) => id,
        _ => 0,
    }
}

/// The value of a 32-bit literal operand.
pub open spec fn operand_lit(o: Operand) -> u32 {
    match o {
        Operand::LiteralInt32(v) => v,
        _ => 0,
    }
}

/// The identifier bound to a block's label, if the block has a labelled one.
pub open spec fn label_id(bb: Block) -> Option<u32> {
    match bb.label {
        Some(inst) => inst.result_id,
        None => None,
    }
}

/// The identifier bound to a function's defining instruction, if any.
pub open spec fn def_id(f: Function) -> Option<u32> {
    match f.def {
        Some(inst) => inst.result_id,
        None => None,
    }
}

} // verus!
