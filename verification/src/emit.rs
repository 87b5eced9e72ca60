//! The graph emitter: renders one graph-description document per function,
//! with a header node for the function, one node per basic block carrying
//! its instruction listing, one edge per control-flow successor, and a
//! dashed edge for each structured-merge target.
use vstd::prelude::*;
use vstd::string::StringExecFns;
use crate::cfg::GraphView;
use crate::cfg::PetSpirv;
use crate::cfg::lemma_block_map_props;
use crate::cfg::lemma_last_labeled_valid;
use crate::cfg::lemma_sorted_lookup_position;
use crate::cfg::map_lookup;
use crate::cfg::spec_block_map;
use crate::ir::Block;
use crate::ir::Function;
use crate::ir::Instruction;
use crate::ir::Operand;
use crate::ir::def_id;
use crate::ir::label_id;
use crate::module_view::SpirvModule;
use crate::module_view::name_lookup;
use crate::module_view::spec_resolve;
use crate::terminator::Terminator;
use crate::terminator::spec_classify;
use crate::terminator::spec_merge;
use crate::terminator::spec_successors;
use crate::terminator::wf_terminator;
use crate::text::escape_html;
use crate::text::escape_seq;
use crate::text::push_quoted;
use crate::text::push_u32;
use crate::text::spec_dec;
use crate::text::spec_quoted;

verus! {

broadcast use vstd::std_specs::vec::axiom_spec_len;

/// The rendered text of one operand: an identifier reference resolves
/// through the name table and is escaped; a literal uses its textual form.
pub open spec fn spec_operand_text(ns: Seq<(u32, Seq<char>)>, o: Operand) -> Seq<char> {
    match o {
        Operand::IdRef(id) => escape_seq(spec_resolve(ns, id)),
        Operand::LiteralInt32(v) => spec_dec(v as nat),
        Operand::LiteralString(s) => spec_quoted(s@),
        Operand::Other(t) => t@,
    }
}

/// The operand renderings joined by single spaces.
pub open spec fn spec_operands_text(ns: Seq<(u32, Seq<char>)>, ops: Seq<Operand>) -> Seq<char>
    decreases ops.len(),
{
    if ops.len() == 0 {
        Seq::empty()
    } else if ops.len() == 1 {
        spec_operand_text(ns, ops[0])
    } else {
        spec_operands_text(ns, ops.drop_last()) + " "@ + spec_operand_text(ns, ops.last())
    }
}

/// One instruction as a text line: the optional escaped `result = ` part,
/// the opcode mnemonic, the optional escaped result type, then the operand
/// renderings.
pub open spec fn spec_inst_line(ns: Seq<(u32, Seq<char>)>, inst: Instruction) -> Seq<char> {
    let rid = match inst.result_id {
        Some(id) => escape_seq(spec_resolve(ns, id) + " = "@),
        None => Seq::<char>::empty(),
    };
    let rtype = match inst.result_type {
        Some(id) => escape_seq(" "@ + spec_resolve(ns, id)),
        None => Seq::<char>::empty(),
    };
    let space = if inst.operands@.len() > 0 {
        " "@
    } else {
        Seq::<char>::empty()
    };
    rid + "Op"@ + inst.opname@ + rtype + space + spec_operands_text(ns, inst.operands@)
}

/// A block's instruction listing, one indented line per instruction.
pub open spec fn spec_insts_text(ns: Seq<(u32, Seq<char>)>, insts: Seq<Instruction>) -> Seq<char>
    decreases insts.len(),
{
    if insts.len() == 0 {
        Seq::empty()
    } else {
        spec_insts_text(ns, insts.drop_last()) + "\t\t\t"@ + spec_inst_line(ns, insts.last())
            + "<br/>\n"@
    }
}

/// One block node: a table with the block's display name on a shaded header
/// row and its instruction listing below.
pub open spec fn spec_node_text(ns: Seq<(u32, Seq<char>)>, id: u32, insts: Seq<Instruction>) -> Seq<
    char,
> {
    "  "@ + spec_dec(id as nat) + " [shape=none, label=<\n"@ + "\t<table>\n"@
        + "\t\t<tr><td align=\"center\" bgcolor=\"gray\" colspan=\"1\">"@ + spec_resolve(ns, id)
        + "</td></tr>\n"@ + "\t\t<tr><td align=\"left\" balign=\"left\">\n"@ + spec_insts_text(
        ns,
        insts,
    ) + "\t</td></tr></table>>];\n"@
}

/// The node declarations, one per block-index entry in key order.
pub open spec fn spec_nodes_text(
    ns: Seq<(u32, Seq<char>)>,
    blocks: Seq<Block>,
    bm: Seq<(u32, usize)>,
) -> Seq<char>
    decreases bm.len(),
{
    if bm.len() == 0 {
        Seq::empty()
    } else {
        spec_nodes_text(ns, blocks, bm.drop_last()) + spec_node_text(
            ns,
            bm.last().0,
            blocks[bm.last().1 as int].instructions@,
        )
    }
}

/// The dashed merge edge of one node, when its terminator has a merge target.
pub open spec fn spec_merge_text(node: u32, m: Option<u32>) -> Seq<char> {
    match m {
        Some(t) => "\t"@ + spec_dec(node as nat) + " -> "@ + spec_dec(t as nat)
            + "[style=\"dashed\"]\n"@,
        None => Seq::<char>::empty(),
    }
}

/// The control-flow edges of one node, in successor order.
pub open spec fn spec_succ_text(node: u32, succs: Seq<u32>) -> Seq<char>
    decreases succs.len(),
{
    if succs.len() == 0 {
        Seq::empty()
    } else {
        spec_succ_text(node, succs.drop_last()) + "  "@ + spec_dec(node as nat) + " -> "@
            + spec_dec(succs.last() as nat) + "\n"@
    }
}

/// All edges of one visited node: its merge edge, then its successor edges.
pub open spec fn spec_node_edges(g: GraphView, node: u32) -> Seq<char> {
    match map_lookup(g.bm, node) {
        Some(idx) => {
            let t = spec_classify(g.blocks[idx as int]);
            spec_merge_text(node, spec_merge(t)) + spec_succ_text(node, spec_successors(t))
        },
        None => Seq::<char>::empty(),
    }
}

/// The edge declarations, in traversal order.
pub open spec fn spec_edges_text(g: GraphView, order: Seq<u32>) -> Seq<char>
    decreases order.len(),
{
    if order.len() == 0 {
        Seq::empty()
    } else {
        spec_edges_text(g, order.drop_last()) + spec_node_edges(g, order.last())
    }
}

/// The fixed document header: the opening brace and the style globals that
/// pin a monospace font at the size that renders alike across renderers.
pub open spec fn spec_preamble() -> Seq<char> {
    "digraph {\n"@ + "graph [fontname=\"monospace\", fontsize=13.5];\n"@
        + "node [fontname=\"monospace\", fontsize=13.5];\n"@
        + "edge [fontname=\"monospace\", fontsize=13.5];\n"@
}

/// The whole graph document of one function: preamble, function header node
/// and its edge into the entry block, the block nodes, the edges in
/// traversal order, and the closing brace.
pub open spec fn spec_fn_doc(ns: Seq<(u32, Seq<char>)>, f: Function) -> Seq<char> {
    let g = GraphView { blocks: f.blocks@, bm: spec_block_map(f.blocks@) };
    let fid = match def_id(f) {
        Some(id) => id,
        None => 0,
    };
    let fname = match def_id(f) {
        Some(id) => match name_lookup(ns, id) {
            Some(n) => n,
            None => "Unknown"@,
        },
        None => "Unknown"@,
    };
    let entry = match label_id(f.blocks@[0]) {
        Some(e) => e,
        None => 0,
    };
    let order = g.spec_dfs(seq![entry], Seq::empty());
    spec_preamble() + spec_dec(fid as nat) + " [shape=\"box\", label="@ + spec_quoted(fname)
        + "];\n"@ + spec_dec(fid as nat) + " -> "@ + spec_dec(entry as nat) + "\n"@
        + spec_nodes_text(ns, f.blocks@, g.bm) + spec_edges_text(g, order) + "}\n"@
}

/// A function the emitter can render: it has a defining instruction with a
/// result identifier, a labelled first block that its block index knows,
/// well-shaped terminators on every indexed block, and no successor that
/// leaves the index.
pub open spec fn emit_wf(f: Function) -> bool {
    let g = GraphView { blocks: f.blocks@, bm: spec_block_map(f.blocks@) };
    &&& def_id(f) is Some
    &&& f.blocks@.len() > 0
    &&& (match label_id(f.blocks@[0]) {
        Some(e) => g.has_key(e),
        None => false,
    })
    &&& forall|j: int|
        0 <= j < g.bm.len() ==> wf_terminator(g.blocks[(#[trigger] g.bm[j]).1 as int])
    &&& g.closed()
}

/// Every function of the module can be rendered.
pub open spec fn spec_module_wf(m: SpirvModule) -> bool {
    forall|i: int|
        0 <= i < m.module.functions@.len() ==> emit_wf(#[trigger] m.module.functions@[i])
}

/// Renders one instruction as the text line that stands in its block's node.
#[verifier::loop_isolation(false)]
pub fn disassemble_instruction(module: &SpirvModule, inst: &Instruction) -> (r: String)
    ensures
        r@ == spec_inst_line(module.names_view(), *inst),
{
    let ghost ns = module.names_view();
    let mut out = String::new();
    match inst.result_id {
        Some(id) => {
            let mut tmp = match module.name_or_id(Some(id)) {
                Some(s) => s,
                None => vstd::pervasive::unreached(),
            };
            tmp.append(" = ");
            let esc = escape_html(tmp.as_str());
            out.append(esc.as_str());
        },
        None => {},
    }
    out.append("Op");
    out.append(inst.opname.as_str());
    match inst.result_type {
        Some(id) => {
            let resolved = match module.name_or_id(Some(id)) {
                Some(s) => s,
                None => vstd::pervasive::unreached(),
            };
            let mut tmp = String::new();
            tmp.append(" ");
            tmp.append(resolved.as_str());
            let esc = escape_html(tmp.as_str());
            out.append(esc.as_str());
        },
        None => {},
    }
    if inst.operands.len() > 0 {
        out.append(" ");
    }
    let ghost head = out@;
    let mut i: usize = 0;
    while i < inst.operands.len()
        invariant
            0 <= i <= inst.operands@.len(),
            out@ == head + spec_operands_text(ns, inst.operands@.take(i as int)),
        decreases inst.operands@.len() - i,
    {
        if i > 0 {
            out.append(" ");
        }
        match &inst.operands[i] {
            Operand::IdRef(id) => {
                let resolved = match module.name_or_id(Some(*id)) {
                    Some(s) => s,
                    None => vstd::pervasive::unreached(),
                };
                let esc = escape_html(resolved.as_str());
                out.append(esc.as_str());
            },
            Operand::LiteralInt32(v) => {
                push_u32(&mut out, *v);
            },
            Operand::LiteralString(s) => {
                push_quoted(&mut out, s.as_str());
            },
            Operand::Other(t) => {
                out.append(t.as_str());
            },
        }
        proof {
            let ops = inst.operands@;
            assert(ops.take(i + 1).drop_last() =~= ops.take(i as int));
            assert(ops.take(i + 1).last() == ops[i as int]);
            if i == 0 {
                assert(out@ =~= head + spec_operands_text(ns, ops.take(1)));
            } else {
                assert(out@ =~= head + spec_operands_text(ns, ops.take(i + 1)));
            }
        }
        i = i + 1;
    }
    proof {
        assert(inst.operands@.take(inst.operands@.len() as int) =~= inst.operands@);
        assert(out@ =~= spec_inst_line(ns, *inst));
    }
    out
}

impl<'spir> PetSpirv<'spir> {
    /// Renders one block node: its shaded header row with the block's
    /// display name, then its instruction listing.
    #[verifier::loop_isolation(false)]
    fn emit_node(&self, id: u32, bb: &Block, out: &mut String)
        ensures
            final(out)@ == old(out)@ + spec_node_text(
                self.module.names_view(),
                id,
                bb.instructions@,
            ),
    {
        let ghost ns = self.module.names_view();
        out.append("  ");
        push_u32(out, id);
        out.append(" [shape=none, label=<\n");
        out.append("\t<table>\n");
        out.append("\t\t<tr><td align=\"center\" bgcolor=\"gray\" colspan=\"1\">");
        let name = match self.module.name_or_id(Some(id)) {
            Some(s) => s,
            None => vstd::pervasive::unreached(),
        };
        out.append(name.as_str());
        out.append("</td></tr>\n");
        out.append("\t\t<tr><td align=\"left\" balign=\"left\">\n");
        let ghost base_insts = out@;
        let mut k: usize = 0;
        while k < bb.instructions.len()
            invariant
                0 <= k <= bb.instructions@.len(),
                out@ == base_insts + spec_insts_text(ns, bb.instructions@.take(k as int)),
            decreases bb.instructions@.len() - k,
        {
            out.append("\t\t\t");
            let line = disassemble_instruction(self.module, &bb.instructions[k]);
            out.append(line.as_str());
            out.append("<br/>\n");
            proof {
                assert(bb.instructions@.take(k + 1).drop_last() =~= bb.instructions@.take(
                    k as int,
                ));
                assert(bb.instructions@.take(k + 1).last() == bb.instructions@[k as int]);
                assert(out@ =~= base_insts + spec_insts_text(ns, bb.instructions@.take(k + 1)));
            }
            k = k + 1;
        }
        out.append("\t</td></tr></table>>];\n");
        proof {
            assert(bb.instructions@.take(bb.instructions@.len() as int) =~= bb.instructions@);
            assert(final(out)@ =~= old(out)@ + spec_node_text(ns, id, bb.instructions@));
        }
    }

    /// Renders the edges of one visited block: the dashed merge edge when
    /// its terminator has a merge target, then one edge per successor.
    #[verifier::loop_isolation(false)]
    fn emit_node_edges(&self, node: u32, out: &mut String)
        requires
            self.cfg_wf(),
        ensures
            final(out)@ == old(out)@ + spec_node_edges(self.graph(), node),
    {
        let ghost g = self.graph();
        if !self.contains_key(node) {
            return;
        }
        proof {
            self.lemma_key_block(node);
        }
        let bb = self.get_block(node);
        let t = Terminator::from_basic_block(bb);
        match t.merge_block() {
            Some(m) => {
                out.append("\t");
                push_u32(out, node);
                out.append(" -> ");
                push_u32(out, m);
                out.append("[style=\"dashed\"]\n");
            },
            None => {},
        }
        let ghost base_succ = out@;
        let succs = t.successors();
        let mut k: usize = 0;
        while k < succs.len()
            invariant
                0 <= k <= succs@.len(),
                out@ == base_succ + spec_succ_text(node, succs@.take(k as int)),
            decreases succs@.len() - k,
        {
            out.append("  ");
            push_u32(out, node);
            out.append(" -> ");
            push_u32(out, succs[k]);
            out.append("\n");
            proof {
                assert(succs@.take(k + 1).drop_last() =~= succs@.take(k as int));
                assert(succs@.take(k + 1).last() == succs@[k as int]);
                assert(out@ =~= base_succ + spec_succ_text(node, succs@.take(k + 1)));
            }
            k = k + 1;
        }
        proof {
            assert(succs@.take(succs@.len() as int) =~= succs@);
            assert(final(out)@ =~= old(out)@ + spec_node_edges(g, node));
        }
    }

    /// Renders this function's whole graph document at the end of `out`.
    #[verifier::loop_isolation(false)]
    #[verifier::rlimit(100)]
    pub fn add_fn_to_dot(&self, out: &mut String)
        requires
            self.cfg_wf(),
            def_id(*self.function) is Some,
            self.function.blocks@.len() > 0,
        ensures
            final(out)@ == old(out)@ + spec_fn_doc(self.module.names_view(), *self.function),
    {
        let ghost ns = self.module.names_view();
        let nb = self.function.blocks.len();
        let fn_name: String = match self.module.get_name_fn(self.function) {
            Some(s) => s.to_owned(),
            None => "Unknown".to_owned(),
        };
        let fn_id = match &self.function.def {
            Some(inst) => match inst.result_id {
                Some(id) => id,
                None => vstd::pervasive::unreached(),
            },
            None => vstd::pervasive::unreached(),
        };
        let entry = match &self.function.blocks[0].label {
            Some(l) => match l.result_id {
                Some(id) => id,
                None => vstd::pervasive::unreached(),
            },
            None => vstd::pervasive::unreached(),
        };
        out.append("digraph {\n");
        out.append("graph [fontname=\"monospace\", fontsize=13.5];\n");
        out.append("node [fontname=\"monospace\", fontsize=13.5];\n");
        out.append("edge [fontname=\"monospace\", fontsize=13.5];\n");
        push_u32(out, fn_id);
        out.append(" [shape=\"box\", label=");
        push_quoted(out, fn_name.as_str());
        out.append("];\n");
        push_u32(out, fn_id);
        out.append(" -> ");
        push_u32(out, entry);
        out.append("\n");
        let ghost base_nodes = out@;
        let mut i: usize = 0;
        while i < self.block_map.len()
            invariant
                0 <= i <= self.block_map@.len(),
                out@ == base_nodes + spec_nodes_text(
                    ns,
                    self.function.blocks@,
                    self.block_map@.take(i as int),
                ),
            decreases self.block_map@.len() - i,
        {
            let id = self.block_map[i].0;
            let idx = self.block_map[i].1;
            proof {
                lemma_block_map_props(self.function.blocks@);
                lemma_sorted_lookup_position(self.block_map@, i as int);
                lemma_last_labeled_valid(self.function.blocks@, id);
            }
            let bb = &self.function.blocks[idx];
            self.emit_node(id, bb, out);
            proof {
                assert(self.block_map@.take(i + 1).drop_last() =~= self.block_map@.take(i as int));
                assert(self.block_map@.take(i + 1).last() == self.block_map@[i as int]);
                assert(out@ =~= base_nodes + spec_nodes_text(
                    ns,
                    self.function.blocks@,
                    self.block_map@.take(i + 1),
                ));
            }
            i = i + 1;
        }
        proof {
            assert(self.block_map@.take(self.block_map@.len() as int) =~= self.block_map@);
        }
        let order = self.traverse();
        let ghost base_edges = out@;
        let ghost g = self.graph();
        let mut i: usize = 0;
        while i < order.len()
            invariant
                0 <= i <= order@.len(),
                out@ == base_edges + spec_edges_text(g, order@.take(i as int)),
            decreases order@.len() - i,
        {
            let node = order[i];
            self.emit_node_edges(node, out);
            proof {
                assert(order@.take(i + 1).drop_last() =~= order@.take(i as int));
                assert(order@.take(i + 1).last() == order@[i as int]);
                assert(out@ =~= base_edges + spec_edges_text(g, order@.take(i + 1)));
            }
            i = i + 1;
        }
        proof {
            assert(order@.take(order@.len() as int) =~= order@);
        }
        out.append("}\n");
        proof {
            assert(g.bm == spec_block_map(self.function.blocks@));
            assert(final(out)@ =~= old(out)@ + spec_fn_doc(ns, *self.function));
        }
    }
}

/// Whether every function of the module can be rendered; callers test this
/// before exporting.
pub fn check_module(m: &SpirvModule) -> (b: bool)
    ensures
        b == spec_module_wf(*m),
{
    let mut i: usize = 0;
    while i < m.module.functions.len()
        invariant
            0 <= i <= m.module.functions@.len(),
            forall|j: int| 0 <= j < i ==> emit_wf(#[trigger] m.module.functions@[j]),
        decreases m.module.functions@.len() - i,
    {
        let f = &m.module.functions[i];
        let def_ok = match &f.def {
            Some(inst) => inst.result_id.is_some(),
            None => false,
        };
        if !def_ok {
            return false;
        }
        if f.blocks.len() == 0 {
            return false;
        }
        let label_ok = match &f.blocks[0].label {
            Some(l) => l.result_id.is_some(),
            None => false,
        };
        if !label_ok {
            return false;
        }
        let pet = PetSpirv::new(m, f);
        let ghost g = GraphView { blocks: f.blocks@, bm: spec_block_map(f.blocks@) };
        proof {
            assert(pet.graph() == g);
        }
        if !pet.check() {
            return false;
        }
        i = i + 1;
    }
    true
}

/// Renders the control-flow graphs of every function of the module, one
/// self-contained graph document after another.
#[verifier::loop_isolation(false)]
pub fn export_spirv_cfg(module: &SpirvModule) -> (r: String)
    requires
        spec_module_wf(*module),
    ensures
        r@ == spec_export(module.names_view(), module.module.functions@),
{
    let mut out = String::new();
    let mut i: usize = 0;
    while i < module.module.functions.len()
        invariant
            0 <= i <= module.module.functions@.len(),
            out@ == spec_export(module.names_view(), module.module.functions@.take(i as int)),
        decreases module.module.functions@.len() - i,
    {
        let f = &module.module.functions[i];
        let pet = PetSpirv::new(module, f);
        let ghost g = GraphView { blocks: f.blocks@, bm: spec_block_map(f.blocks@) };
        proof {
            assert(pet.graph() == g);
            assert(emit_wf(module.module.functions@[i as int]));
            assert(pet.cfg_wf());
        }
        pet.add_fn_to_dot(&mut out);
        proof {
            assert(module.module.functions@.take(i + 1).drop_last()
                =~= module.module.functions@.take(i as int));
            assert(module.module.functions@.take(i + 1).last()
                == module.module.functions@[i as int]);
            assert(out@ =~= spec_export(
                module.names_view(),
                module.module.functions@.take(i + 1),
            ));
        }
        i = i + 1;
    }
    proof {
        assert(module.module.functions@.take(module.module.functions@.len() as int)
            =~= module.module.functions@);
    }
    out
}

/// The concatenated documents of a sequence of functions.
pub open spec fn spec_export(ns: Seq<(u32, Seq<char>)>, fs: Seq<Function>) -> Seq<char>
    decreases fs.len(),
{
    if fs.len() == 0 {
        Seq::empty()
    } else {
        spec_export(ns, fs.drop_last()) + spec_fn_doc(ns, fs.last())
    }
}

} // verus!
