//! A loaded module together with its name table: the mapping from numeric
//! identifier to debug name, built once by scanning the debug annotations,
//! with later bindings for the same identifier overwriting earlier ones.
use vstd::prelude::*;
use vstd::string::StringExecFns;
use crate::ir::Function;
use crate::ir::Block;
use crate::ir::Instruction;
use crate::ir::Module;
use crate::ir::Operand;
use crate::ir::OP_NAME;
use crate::ir::def_id;
use crate::ir::label_id;
use crate::text::push_u32;
use crate::text::spec_dec;

verus! {

/// A loaded IR module plus its derived name table.
pub struct SpirvModule {
    pub module: Module,
    pub names: Vec<(u32, String)>,
}

/// Looks an identifier up in a name table, scanning from the end so that the
/// latest binding wins.
pub open spec fn name_lookup(ns: Seq<(u32, Seq<char>)>, id: u32) -> Option<Seq<char>>
    decreases ns.len(),
{
    if ns.len() == 0 {
        None
    } else if ns.last().0 == id {
        Some(ns.last().1)
    } else {
        name_lookup(ns.drop_last(), id)
    }
}

/// A debug annotation with the name-binding opcode carries an identifier and
/// a literal string, in that order.
pub open spec fn wf_name_inst(inst: Instruction) -> bool {
    inst.opcode == OP_NAME ==> inst.operands@.len() >= 2 && inst.operands@[0] is IdRef
        && inst.operands@[1] is LiteralString
}

/// Every name-binding annotation in the debug section has its expected shape.
pub open spec fn wf_debugs(debugs: Seq<Instruction>) -> bool {
    forall|i: int| 0 <= i < debugs.len() ==> wf_name_inst(#[trigger] debugs[i])
}

/// The (identifier, name) pairs read off the debug section, in document order.
pub open spec fn names_of(debugs: Seq<Instruction>) -> Seq<(u32, Seq<char>)>
    decreases debugs.len(),
{
    if debugs.len() == 0 {
        Seq::empty()
    } else {
        let prefix = names_of(debugs.drop_last());
        let inst = debugs.last();
        if inst.opcode == OP_NAME && inst.operands@.len() >= 2 {
            match (inst.operands@[0], inst.operands@[1]) {
                (Operand::IdRef(id), Operand::LiteralString(s)) => prefix.push((id, s@)),
                _ => prefix,
            }
        } else {
            prefix
        }
    }
}

/// The display form of an identifier: `name(%id)` when a name is bound,
/// `%id` otherwise.
pub open spec fn spec_resolve(ns: Seq<(u32, Seq<char>)>, id: u32) -> Seq<char> {
    match name_lookup(ns, id) {
        Some(n) => n + "(%"@ + spec_dec(id as nat) + ")"@,
        None => "%"@ + spec_dec(id as nat),
    }
}

/// Whether every name-binding debug annotation of the module is well-shaped;
/// callers test this before building a `SpirvModule`.
pub fn check_debugs(m: &Module) -> (b: bool)
    ensures
        b == wf_debugs(m.debugs@),
{
    let mut i: usize = 0;
    while i < m.debugs.len()
        invariant
            0 <= i <= m.debugs@.len(),
            forall|j: int| 0 <= j < i ==> wf_name_inst(#[trigger] m.debugs@[j]),
        decreases m.debugs@.len() - i,
    {
        let inst = &m.debugs[i];
        if inst.opcode == OP_NAME {
            if inst.operands.len() < 2 {
                return false;
            }
            let ok0 = match &inst.operands[0] {
                Operand::IdRef(_) => true,
                _ => false,
            };
            let ok1 = match &inst.operands[1] {
                Operand::LiteralString(_) => true,
                _ => false,
            };
            if !ok0 || !ok1 {
                return false;
            }
        }
        i = i + 1;
    }
    true
}

impl SpirvModule {
    /// The name table as pairs of identifier and character sequence.
    pub open spec fn names_view(self) -> Seq<(u32, Seq<char>)> {
        self.names@.map_values(|p: (u32, String)| (p.0, p.1@))
    }

    /// Wraps a loaded module, building the name table by scanning every
    /// name-binding debug annotation in document order.
    pub fn from_module(module: Module) -> (r: SpirvModule)
        requires
            wf_debugs(module.debugs@),
        ensures
            r.module == module,
            r.names_view() == names_of(module.debugs@),
    {
        let mut names: Vec<(u32, String)> = Vec::new();
        let mut i: usize = 0;
        while i < module.debugs.len()
            invariant
                0 <= i <= module.debugs@.len(),
                names@.map_values(|p: (u32, String)| (p.0, p.1@)) == names_of(
                    module.debugs@.take(i as int),
                ),
            decreases module.debugs@.len() - i,
        {
            let inst = &module.debugs[i];
            proof {
                assert(module.debugs@.take(i + 1).drop_last() =~= module.debugs@.take(i as int));
            }
            if inst.opcode == OP_NAME && inst.operands.len() >= 2 {
                match (&inst.operands[0], &inst.operands[1]) {
                    (Operand::IdRef(id), Operand::LiteralString(s)) => {
                        let ghost old_names = names@;
                        names.push((*id, s.clone()));
                        proof {
                            assert(names@.map_values(|p: (u32, String)| (p.0, p.1@)) =~= old_names
                                .map_values(|p: (u32, String)| (p.0, p.1@)).push((*id, s@)));
                        }
                    },
                    _ => {},
                }
            }
            i = i + 1;
        }
        proof {
            assert(module.debugs@.take(module.debugs@.len() as int) =~= module.debugs@);
        }
        SpirvModule { module, names }
    }

    /// The debug name bound to an identifier, if any; the latest binding wins.
    pub fn get_name(&self, id: u32) -> (r: Option<&String>)
        ensures
            match r {
                Some(s) => name_lookup(self.names_view(), id) == Some(s@),
                None => name_lookup(self.names_view(), id) is None,
            },
    {
        let mut i: usize = self.names.len();
        proof {
            assert(self.names_view().take(i as int) =~= self.names_view());
        }
        while i > 0
            invariant
                0 <= i <= self.names@.len(),
                name_lookup(self.names_view(), id) == name_lookup(
                    self.names_view().take(i as int),
                    id,
                ),
            decreases i,
        {
            i = i - 1;
            proof {
                assert(self.names_view().take(i + 1).drop_last() =~= self.names_view().take(
                    i as int,
                ));
            }
            if self.names[i].0 == id {
                return Some(&self.names[i].1);
            }
        }
        None
    }

    /// The display form of an identifier: `name(%id)` when a debug name is
    /// bound to it, `%id` otherwise; `None` only for an absent identifier.
    pub fn name_or_id(&self, id: Option<u32>) -> (r: Option<String>)
        ensures
            match id {
                Some(i) => r matches Some(s) && s@ == spec_resolve(self.names_view(), i),
                None => r is None,
            },
    {
        let i = match id {
            Some(i) => i,
            None => {
                return None;
            },
        };
        let mut out = String::new();
        match self.get_name(i) {
            Some(name) => {
                let n = name.clone();
                out.append(n.as_str());
                out.append("(%");
                push_u32(&mut out, i);
                out.append(")");
            },
            None => {
                out.append("%");
                push_u32(&mut out, i);
            },
        }
        Some(out)
    }

    /// The debug name of a function, read off its defining instruction's
    /// result identifier.
    pub fn get_name_fn<'m>(&'m self, f: &Function) -> (r: Option<&'m str>)
        ensures
            match def_id(*f) {
                Some(id) => match r {
                    Some(s) => name_lookup(self.names_view(), id) == Some(s@),
                    None => name_lookup(self.names_view(), id) is None,
                },
                None => r is None,
            },
    {
        let inst = match &f.def {
            Some(inst) => inst,
            None => {
                return None;
            },
        };
        let id = match inst.result_id {
            Some(id) => id,
            None => {
                return None;
            },
        };
        match self.get_name(id) {
            Some(s) => Some(s.as_str()),
            None => None,
        }
    }

    /// The debug name of a basic block, read off its label's result
    /// identifier.
    pub fn get_name_bb<'m>(&'m self, bb: &Block) -> (r: Option<&'m str>)
        ensures
            match label_id(*bb) {
                Some(id) => match r {
                    Some(s) => name_lookup(self.names_view(), id) == Some(s@),
                    None => name_lookup(self.names_view(), id) is None,
                },
                None => r is None,
            },
    {
        let label = match &bb.label {
            Some(label) => label,
            None => {
                return None;
            },
        };
        let id = match label.result_id {
            Some(id) => id,
            None => {
                return None;
            },
        };
        match self.get_name(id) {
            Some(s) => Some(s.as_str()),
            None => None,
        }
    }
}

} // verus!
