//! Renders the control-flow graph of a loaded shader/kernel IR module as a
//! graph-description document: one digraph per function, one node per basic
//! block, one edge per control-flow successor, and a distinctly styled edge
//! for each structured-merge relationship.
mod cfg;
mod emit;
mod ir;
mod module_view;
mod terminator;
mod text;

pub use ir::Block;
pub use ir::Function;
pub use ir::Instruction;
pub use ir::Module;
pub use ir::Operand;
pub use ir::OP_BRANCH;
pub use ir::OP_BRANCH_CONDITIONAL;
pub use ir::OP_NAME;
pub use ir::OP_SELECTION_MERGE;
pub use ir::OP_SWITCH;
pub use cfg::GraphView;
pub use cfg::PetSpirv;
pub use emit::check_module;
pub use emit::disassemble_instruction;
pub use emit::export_spirv_cfg;
pub use module_view::check_debugs;
pub use module_view::SpirvModule;
pub use terminator::lemma_merge_target_not_successor;
pub use terminator::lemma_successor_arity;
pub use terminator::lemma_successors_ignore_merge;
pub use terminator::TermShape;
pub use terminator::Terminator;
pub use text::escape_html;
