//! Classification of a basic block's trailing instruction into a typed
//! control-flow terminator, together with detection of the structured-merge
//! target annotated immediately before a conditional or multi-way jump.
use vstd::prelude::*;
use crate::ir::Block;
use crate::ir::Operand;
use crate::ir::operand_id;
use crate::ir::operand_lit;
use crate::ir::OP_BRANCH;
use crate::ir::OP_BRANCH_CONDITIONAL;
use crate::ir::OP_SELECTION_MERGE;
use crate::ir::OP_SWITCH;

verus! {

/// The classified control-flow behaviour of a block's final instruction.
pub enum Terminator {
    Branch { target: u32 },
    BranchConditional { merge_block: Option<u32>, true_block: u32, false_block: u32 },
    Switch { merge_block: Option<u32>, values: Vec<u32>, targets: Vec<u32> },
    /// Indicates that the control flow has stopped.
    End,
}

/// The mathematical shape of a terminator, with sequences for the switch
/// case values and targets.
pub enum TermShape {
    Branch { target: u32 },
    BranchConditional { merge_block: Option<u32>, true_block: u32, false_block: u32 },
    Switch { merge_block: Option<u32>, values: Seq<u32>, targets: Seq<u32> },
    End,
}

impl View for Terminator {
    type V = TermShape;

    open spec fn view(&self) -> TermShape {
        match self {
            Terminator::Branch { target } => TermShape::Branch { target: *target },
            Terminator::BranchConditional { merge_block, true_block, false_block } => {
                TermShape::BranchConditional {
                    merge_block: *merge_block,
                    true_block: *true_block,
                    false_block: *false_block,
                }
            },
            Terminator::Switch { merge_block, values, targets } => TermShape::Switch {
                merge_block: *merge_block,
                values: values@,
                targets: targets@,
            },
            Terminator::End => TermShape::End,
        }
    }
}

/// The structured-merge target of a block: the sole operand of a
/// structured-selection merge annotation standing immediately before the
/// block's final instruction, if there is one.
pub open spec fn spec_merge_target(bb: Block) -> Option<u32> {
    if bb.instructions@.len() >= 2 {
        let prev = bb.instructions@[bb.instructions@.len() - 2];
        if prev.opcode == OP_SELECTION_MERGE && prev.operands@.len() >= 1 && prev.operands@[0]
            is IdRef {
            Some(operand_id(prev.operands@[0]))
        } else {
            None
        }
    } else {
        None
    }
}

/// The case values of a multi-way jump: the first of each operand pair
/// following the selector and default operands.
pub open spec fn switch_values(ops: Seq<Operand>) -> Seq<u32> {
    if ops.len() >= 2 {
        Seq::new(((ops.len() - 2) / 2) as nat, |i: int| operand_lit(ops[2 + 2 * i]))
    } else {
        Seq::empty()
    }
}

/// The case targets of a multi-way jump, without the trailing default: the
/// second of each operand pair following the selector and default operands.
pub open spec fn switch_case_targets(ops: Seq<Operand>) -> Seq<u32> {
    if ops.len() >= 2 {
        Seq::new(((ops.len() - 2) / 2) as nat, |i: int| operand_id(ops[3 + 2 * i]))
    } else {
        Seq::empty()
    }
}

/// What classification returns for a block: the terminator derived from the
/// block's final instruction, with merge detection for conditional and
/// multi-way jumps.
pub open spec fn spec_classify(bb: Block) -> TermShape {
    if bb.instructions@.len() == 0 {
        TermShape::End
    } else {
        let inst = bb.instructions@.last();
        let ops = inst.operands@;
        if inst.opcode == OP_SWITCH {
            TermShape::Switch {
                merge_block: spec_merge_target(bb),
                values: switch_values(ops),
                targets: switch_case_targets(ops).push(operand_id(ops[1])),
            }
        } else if inst.opcode == OP_BRANCH_CONDITIONAL {
            TermShape::BranchConditional {
                merge_block: spec_merge_target(bb),
                true_block: operand_id(ops[1]),
                false_block: operand_id(ops[2]),
            }
        } else if inst.opcode == OP_BRANCH {
            TermShape::Branch { target: operand_id(ops[0]) }
        } else {
            TermShape::End
        }
    }
}

/// The ordered control-flow successors of a terminator: the single target of
/// a branch; the true target then the false target of a conditional branch;
/// the case targets followed by the default target of a switch; nothing
/// after an end.
pub open spec fn spec_successors(t: TermShape) -> Seq<u32> {
    match t {
        TermShape::Branch { target } => seq![target],
        TermShape::BranchConditional { true_block, false_block, .. } => seq![
            true_block,
            false_block,
        ],
        TermShape::Switch { targets, .. } => targets,
        TermShape::End => Seq::empty(),
    }
}

/// The merge target of a terminator, present only on conditional and
/// multi-way jumps.
pub open spec fn spec_merge(t: TermShape) -> Option<u32> {
    match t {
        TermShape::BranchConditional { merge_block, .. } => merge_block,
        TermShape::Switch { merge_block, .. } => merge_block,
        _ => None,
    }
}

/// A block whose final instruction is control-flow-affecting carries the
/// operands that classification reads: a branch target; a condition and two
/// targets; or a selector, a default target and whole (value, target) pairs.
/// A merge annotation before such an instruction carries its one identifier.
pub open spec fn wf_terminator(bb: Block) -> bool {
    bb.instructions@.len() > 0 ==> {
        let inst = bb.instructions@.last();
        let ops = inst.operands@;
        &&& (inst.opcode == OP_BRANCH ==> ops.len() >= 1 && ops[0] is IdRef)
        &&& (inst.opcode == OP_BRANCH_CONDITIONAL ==> ops.len() >= 3 && ops[1] is IdRef && ops[2]
            is IdRef)
        &&& (inst.opcode == OP_SWITCH ==> ops.len() >= 2 && (ops.len() - 2) % 2 == 0 && ops[1]
            is IdRef && (forall|j: int|
            2 <= j < ops.len() ==> ((j % 2 == 0 ==> #[trigger] ops[j] is LiteralInt32) && (j % 2
                == 1 ==> ops[j] is IdRef))))
        &&& ((inst.opcode == OP_SWITCH || inst.opcode == OP_BRANCH_CONDITIONAL)
            && bb.instructions@.len() >= 2 ==> {
            let prev = bb.instructions@[bb.instructions@.len() - 2];
            prev.opcode == OP_SELECTION_MERGE ==> prev.operands@.len() >= 1 && prev.operands@[0]
                is IdRef
        })
    }
}

impl Terminator {
    /// The merge target, present only on conditional and multi-way jumps.
    pub fn merge_block(&self) -> (r: Option<u32>)
        ensures
            r == spec_merge(self@),
    {
        match self {
            Terminator::Switch { merge_block, .. } => *merge_block,
            Terminator::BranchConditional { merge_block, .. } => *merge_block,
            _ => None,
        }
    }

    /// Derives the terminator of a block from its trailing instructions.
    pub fn from_basic_block(bb: &Block) -> (t: Terminator)
        requires
            wf_terminator(*bb),
        ensures
            t@ == spec_classify(*bb),
    {
        let n = bb.instructions.len();
        if n == 0 {
            return Terminator::End;
        }
        let inst = &bb.instructions[n - 1];
        if inst.opcode == OP_SWITCH {
            let merge_block = merge_target(bb);
            let ops_len = inst.operands.len();
            let default = match &inst.operands[1] {
                Operand::IdRef(id) => *id,
                _ => 0,
            };
            let mut values: Vec<u32> = Vec::new();
            let mut targets: Vec<u32> = Vec::new();
            let mut k: usize = 0;
            proof {
                assert(inst.operands@ == bb.instructions@.last().operands@);
            }
            while k < (ops_len - 2) / 2
                invariant
                    wf_terminator(*bb),
                    bb.instructions@.len() > 0,
                    inst == bb.instructions@.last(),
                    inst.opcode == OP_SWITCH,
                    ops_len == inst.operands@.len(),
                    ops_len >= 2,
                    0 <= k <= (ops_len - 2) / 2,
                    values@ == switch_values(inst.operands@).take(k as int),
                    targets@ == switch_case_targets(inst.operands@).take(k as int),
                decreases (ops_len - 2) / 2 - k,
            {
                proof {
                    assert((ops_len - 2) % 2 == 0);
                    assert(2 + 2 * k < ops_len) by {
                        assert(k < (ops_len - 2) / 2);
                    };
                    assert(3 + 2 * k < ops_len);
                    assert((2 + 2 * (k as int)) % 2 == 0);
                    assert((3 + 2 * (k as int)) % 2 == 1);
                }
                let v = match &inst.operands[2 + 2 * k] {
                    Operand::LiteralInt32(v) => *v,
                    _ => 0,
                };
                let t = match &inst.operands[3 + 2 * k] {
                    Operand::IdRef(id) => *id,
                    _ => 0,
                };
                values.push(v);
                targets.push(t);
                proof {
                    assert(switch_values(inst.operands@).take(k + 1) =~= switch_values(
                        inst.operands@,
                    ).take(k as int).push(operand_lit(inst.operands@[2 + 2 * (k as int)])));
                    assert(switch_case_targets(inst.operands@).take(k + 1)
                        =~= switch_case_targets(inst.operands@).take(k as int).push(
                        operand_id(inst.operands@[3 + 2 * (k as int)]),
                    ));
                }
                k = k + 1;
            }
            targets.push(default);
            proof {
                assert(switch_values(inst.operands@).take(((ops_len - 2) / 2) as int)
                    =~= switch_values(inst.operands@));
                assert(switch_case_targets(inst.operands@).take(((ops_len - 2) / 2) as int)
                    =~= switch_case_targets(inst.operands@));
            }
            Terminator::Switch { merge_block, values, targets }
        } else if inst.opcode == OP_BRANCH_CONDITIONAL {
            let merge_block = merge_target(bb);
            let true_block = match &inst.operands[1] {
                Operand::IdRef(id) => *id,
                _ => 0,
            };
            let false_block = match &inst.operands[2] {
                Operand::IdRef(id) => *id,
                _ => 0,
            };
            Terminator::BranchConditional { merge_block, true_block, false_block }
        } else if inst.opcode == OP_BRANCH {
            let target = match &inst.operands[0] {
                Operand::IdRef(id) => *id,
                _ => 0,
            };
            Terminator::Branch { target }
        } else {
            Terminator::End
        }
    }

    /// The ordered control-flow successors of this terminator.
    pub fn successors(&self) -> (r: Vec<u32>)
        ensures
            r@ == spec_successors(self@),
    {
        match self {
            Terminator::Switch { targets, .. } => {
                let mut r: Vec<u32> = Vec::new();
                let mut i: usize = 0;
                while i < targets.len()
                    invariant
                        0 <= i <= targets@.len(),
                        r@ == targets@.take(i as int),
                    decreases targets@.len() - i,
                {
                    r.push(targets[i]);
                    proof {
                        assert(targets@.take(i + 1) =~= targets@.take(i as int).push(
                            targets@[i as int],
                        ));
                    }
                    i = i + 1;
                }
                proof {
                    assert(targets@.take(targets@.len() as int) =~= targets@);
                }
                r
            },
            Terminator::Branch { target } => {
                let mut r: Vec<u32> = Vec::new();
                r.push(*target);
                proof {
                    assert(r@ =~= seq![*target]);
                }
                r
            },
            Terminator::BranchConditional { true_block, false_block, .. } => {
                let mut r: Vec<u32> = Vec::new();
                r.push(*true_block);
                r.push(*false_block);
                proof {
                    assert(r@ =~= seq![*true_block, *false_block]);
                }
                r
            },
            Terminator::End => Vec::new(),
        }
    }
}

/// The structured-merge target read off the instruction immediately before
/// the block's final one.
fn merge_target(bb: &Block) -> (r: Option<u32>)
    requires
        wf_terminator(*bb),
    ensures
        r == spec_merge_target(*bb),
{
    let n = bb.instructions.len();
    if n < 2 {
        return None;
    }
    let prev = &bb.instructions[n - 2];
    if prev.opcode == OP_SELECTION_MERGE && prev.operands.len() >= 1 {
        match &prev.operands[0] {
            Operand::IdRef(id) => Some(*id),
            _ => None,
        }
    } else {
        None
    }
}

/// Whether a block's trailing instructions carry the operands that
/// classification reads; callers test this before classifying.
pub fn check_terminator(bb: &Block) -> (b: bool)
    ensures
        b == wf_terminator(*bb),
{
    let n = bb.instructions.len();
    if n == 0 {
        return true;
    }
    let inst = &bb.instructions[n - 1];
    proof {
        assert(inst == bb.instructions@.last());
    }
    if inst.opcode == OP_BRANCH {
        if inst.operands.len() < 1 {
            return false;
        }
        match &inst.operands[0] {
            Operand::IdRef(_) => {},
            _ => {
                return false;
            },
        }
    }
    if inst.opcode == OP_BRANCH_CONDITIONAL {
        if inst.operands.len() < 3 {
            return false;
        }
        let ok1 = match &inst.operands[1] {
            Operand::IdRef(_) => true,
            _ => false,
        };
        let ok2 = match &inst.operands[2] {
            Operand::IdRef(_) => true,
            _ => false,
        };
        if !ok1 || !ok2 {
            return false;
        }
    }
    if inst.opcode == OP_SWITCH {
        let len = inst.operands.len();
        if len < 2 || (len - 2) % 2 != 0 {
            return false;
        }
        match &inst.operands[1] {
            Operand::IdRef(_) => {},
            _ => {
                return false;
            },
        }
        let mut j: usize = 2;
        while j < len
            invariant
                bb.instructions@.len() > 0,
                inst == bb.instructions@.last(),
                inst.opcode == OP_SWITCH,
                len == inst.operands@.len(),
                len >= 2,
                (len - 2) % 2 == 0,
                inst.operands@[1] is IdRef,
                2 <= j <= len,
                forall|i: int|
                    2 <= i < j ==> ((i % 2 == 0 ==> #[trigger] inst.operands@[i]
                        is LiteralInt32) && (i % 2 == 1 ==> inst.operands@[i] is IdRef)),
            decreases len - j,
        {
            if j % 2 == 0 {
                match &inst.operands[j] {
                    Operand::LiteralInt32(_) => {},
                    _ => {
                        return false;
                    },
                }
            } else {
                match &inst.operands[j] {
                    Operand::IdRef(_) => {},
                    _ => {
                        return false;
                    },
                }
            }
            j = j + 1;
        }
    }
    if (inst.opcode == OP_SWITCH || inst.opcode == OP_BRANCH_CONDITIONAL) && n >= 2 {
        let prev = &bb.instructions[n - 2];
        if prev.opcode == OP_SELECTION_MERGE {
            if prev.operands.len() < 1 {
                return false;
            }
            match &prev.operands[0] {
                Operand::IdRef(_) => {},
                _ => {
                    return false;
                },
            }
        }
    }
    true
}

/// How many successors each terminator variant has: one for a branch, two
/// for a conditional branch, one more than its case-value count for a
/// switch, none for an end.
pub proof fn lemma_successor_arity(bb: Block)
    requires
        wf_terminator(bb),
    ensures
        match spec_classify(bb) {
            TermShape::Branch { .. } => spec_successors(spec_classify(bb)).len() == 1,
            TermShape::BranchConditional { .. } => spec_successors(spec_classify(bb)).len() == 2,
            TermShape::Switch { values, .. } => spec_successors(spec_classify(bb)).len()
                == values.len() + 1,
            TermShape::End => spec_successors(spec_classify(bb)).len() == 0,
        },
{
}

/// The successor list is read off the block's final instruction alone: two
/// blocks that share their final instruction share their successors, whatever
/// merge annotation stands before it. Merge edges are therefore additional
/// and never duplicated as control edges.
pub proof fn lemma_successors_ignore_merge(bb1: Block, bb2: Block)
    requires
        bb1.instructions@.len() > 0,
        bb2.instructions@.len() > 0,
        bb1.instructions@.last() == bb2.instructions@.last(),
    ensures
        spec_successors(spec_classify(bb1)) == spec_successors(spec_classify(bb2)),
{
}

/// A detected merge target never stands among the successors, as long as it
/// differs from the jump's own target operands.
pub proof fn lemma_merge_target_not_successor(bb: Block, m: u32)
    requires
        wf_terminator(bb),
        spec_merge(spec_classify(bb)) == Some(m),
        forall|j: int|
            0 <= j < bb.instructions@.last().operands@.len() ==> operand_id(
                #[trigger] bb.instructions@.last().operands@[j],
            ) != m,
    ensures
        !spec_successors(spec_classify(bb)).contains(m),
{
    let inst = bb.instructions@.last();
    let ops = inst.operands@;
    let succs = spec_successors(spec_classify(bb));
    assert forall|i: int| 0 <= i < succs.len() implies succs[i] != m by {
        if inst.opcode == OP_SWITCH {
            if i < succs.len() - 1 {
                assert(succs[i] == operand_id(ops[3 + 2 * i]));
            } else {
                assert(succs[i] == operand_id(ops[1]));
            }
        }
    }
}

} // verus!
