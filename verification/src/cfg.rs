//! The per-function view used for control-flow work: a block index mapping
//! each label identifier to its block, and the depth-first traversal that
//! visits every reachable block exactly once.
use vstd::prelude::*;
use crate::ir::Block;
use crate::ir::Function;
use crate::ir::label_id;
use crate::module_view::SpirvModule;
use crate::module_view::name_lookup;
use crate::terminator::Terminator;
use crate::terminator::check_terminator;
use crate::terminator::spec_classify;
use crate::terminator::spec_successors;
use crate::terminator::wf_terminator;
use crate::text::spec_dec;
use crate::text::u32_string;

verus! {

broadcast use vstd::std_specs::vec::axiom_spec_len;

/// Keys appear in strictly increasing order.
pub open spec fn sorted_strict(m: Seq<(u32, usize)>) -> bool {
    forall|i: int, j: int| 0 <= i < j < m.len() ==> m[i].0 < m[j].0
}

/// Looks a key up in an index map, scanning from the front.
pub open spec fn map_lookup(m: Seq<(u32, usize)>, id: u32) -> Option<usize>
    decreases m.len(),
{
    if m.len() == 0 {
        None
    } else if m[0].0 == id {
        Some(m[0].1)
    } else {
        map_lookup(m.drop_first(), id)
    }
}

/// Places a key in a sorted index map, overwriting the entry of an equal key.
pub open spec fn spec_insert(m: Seq<(u32, usize)>, id: u32, idx: usize) -> Seq<(u32, usize)>
    decreases m.len(),
{
    if m.len() == 0 {
        seq![(id, idx)]
    } else if m.last().0 < id {
        m.push((id, idx))
    } else if m.last().0 == id {
        m.drop_last().push((id, idx))
    } else {
        spec_insert(m.drop_last(), id, idx).push(m.last())
    }
}

/// The block index of a block sequence: one entry per labelled block, keyed
/// by the label identifier, a later block overwriting an earlier one with
/// the same label.
pub open spec fn spec_block_map(blocks: Seq<Block>) -> Seq<(u32, usize)>
    decreases blocks.len(),
{
    if blocks.len() == 0 {
        Seq::empty()
    } else {
        let prefix = spec_block_map(blocks.drop_last());
        match label_id(blocks.last()) {
            Some(id) => spec_insert(prefix, id, (blocks.len() - 1) as usize),
            None => prefix,
        }
    }
}

/// The index of the last block labelled with a given identifier.
pub open spec fn spec_last_labeled(blocks: Seq<Block>, k: u32) -> Option<usize>
    decreases blocks.len(),
{
    if blocks.len() == 0 {
        None
    } else if label_id(blocks.last()) == Some(k) {
        Some((blocks.len() - 1) as usize)
    } else {
        spec_last_labeled(blocks.drop_last(), k)
    }
}

proof fn lemma_lookup_push(m: Seq<(u32, usize)>, p: (u32, usize), k: u32)
    ensures
        map_lookup(m.push(p), k) == match map_lookup(m, k) {
            Some(v) => Some(v),
            None => if p.0 == k {
                Some(p.1)
            } else {
                None::<usize>
            },
        },
    decreases m.len(),
{
    if m.len() == 0 {
        assert(m.push(p)[0] == p);
        if p.0 == k {
            assert(map_lookup(m.push(p), k) == Some(p.1));
        } else {
            assert(m.push(p).drop_first() =~= Seq::<(u32, usize)>::empty());
            assert(map_lookup(Seq::<(u32, usize)>::empty(), k) is None);
        }
    } else {
        assert(m.push(p)[0] == m[0]);
        assert(m.push(p).drop_first() =~= m.drop_first().push(p));
        lemma_lookup_push(m.drop_first(), p, k);
    }
}

pub proof fn lemma_sorted_lookup_position(m: Seq<(u32, usize)>, i: int)
    requires
        sorted_strict(m),
        0 <= i < m.len(),
    ensures
        map_lookup(m, m[i].0) == Some(m[i].1),
    decreases i,
{
    if i == 0 {
    } else {
        assert(m[0].0 < m[i].0);
        assert(sorted_strict(m.drop_first())) by {
            assert forall|a: int, b: int|
                0 <= a < b < m.drop_first().len() implies m.drop_first()[a].0
                < m.drop_first()[b].0 by {
                assert(m.drop_first()[a] == m[a + 1]);
                assert(m.drop_first()[b] == m[b + 1]);
            }
        }
        lemma_sorted_lookup_position(m.drop_first(), i - 1);
        assert(m.drop_first()[i - 1] == m[i]);
    }
}

proof fn lemma_lookup_key(m: Seq<(u32, usize)>, k: u32)
    ensures
        match map_lookup(m, k) {
            Some(v) => exists|i: int| 0 <= i < m.len() && m[i] == (k, v),
            None => forall|i: int| 0 <= i < m.len() ==> (#[trigger] m[i]).0 != k,
        },
    decreases m.len(),
{
    if m.len() == 0 {
    } else if m[0].0 == k {
        assert(m[0] == (k, m[0].1));
    } else {
        lemma_lookup_key(m.drop_first(), k);
        match map_lookup(m.drop_first(), k) {
            Some(v) => {
                let i = choose|i: int|
                    0 <= i < m.drop_first().len() && m.drop_first()[i] == (k, v);
                assert(m[i + 1] == (k, v));
            },
            None => {
                assert forall|i: int| 0 <= i < m.len() implies (#[trigger] m[i]).0 != k by {
                    if i > 0 {
                        assert(m.drop_first()[i - 1] == m[i]);
                    }
                }
            },
        }
    }
}

proof fn lemma_insert_props(m: Seq<(u32, usize)>, id: u32, idx: usize)
    requires
        sorted_strict(m),
    ensures
        sorted_strict(spec_insert(m, id, idx)),
        forall|k: u32|
            #![trigger map_lookup(spec_insert(m, id, idx), k)]
            map_lookup(spec_insert(m, id, idx), k) == if k == id {
                Some(idx)
            } else {
                map_lookup(m, k)
            },
        forall|i: int|
            0 <= i < spec_insert(m, id, idx).len() ==> #[trigger] spec_insert(m, id, idx)[i] == (
            id,
            idx,
        ) || m.contains(spec_insert(m, id, idx)[i]),
    decreases m.len(),
{
    let r = spec_insert(m, id, idx);
    if m.len() == 0 {
        assert forall|k: u32|
            #![trigger map_lookup(r, k)]
            map_lookup(r, k) == if k == id {
                Some(idx)
            } else {
                map_lookup(m, k)
            } by {
            assert(r[0] == (id, idx));
            if k != id {
                assert(r.drop_first() =~= Seq::<(u32, usize)>::empty());
                assert(map_lookup(Seq::<(u32, usize)>::empty(), k) is None);
            }
        }
    } else if m.last().0 < id {
        assert forall|k: u32|
            #![trigger map_lookup(r, k)]
            map_lookup(r, k) == if k == id {
                Some(idx)
            } else {
                map_lookup(m, k)
            } by {
            lemma_lookup_push(m, (id, idx), k);
            if k == id {
                lemma_lookup_key(m, id);
                match map_lookup(m, id) {
                    Some(v) => {
                        let i = choose|i: int| 0 <= i < m.len() && m[i] == (id, v);
                        if i < m.len() - 1 {
                            assert(m[i].0 < m[m.len() - 1].0);
                        }
                        assert(false);
                    },
                    None => {},
                }
            }
        }
    } else if m.last().0 == id {
        let prefix = m.drop_last();
        assert(m =~= prefix.push(m.last()));
        assert forall|k: u32|
            #![trigger map_lookup(r, k)]
            map_lookup(r, k) == if k == id {
                Some(idx)
            } else {
                map_lookup(m, k)
            } by {
            lemma_lookup_push(prefix, (id, idx), k);
            lemma_lookup_push(prefix, m.last(), k);
            if k == id {
                lemma_lookup_key(prefix, id);
                match map_lookup(prefix, id) {
                    Some(v) => {
                        let i = choose|i: int| 0 <= i < prefix.len() && prefix[i] == (id, v);
                        assert(m[i].0 < m[m.len() - 1].0);
                        assert(false);
                    },
                    None => {},
                }
            }
        }
    } else {
        let prefix = m.drop_last();
        let sub = spec_insert(prefix, id, idx);
        assert(m =~= prefix.push(m.last()));
        lemma_insert_props(prefix, id, idx);
        // every element of the inner result has a key below the old last key
        assert forall|i: int| 0 <= i < sub.len() implies (#[trigger] sub[i]).0 < m.last().0 by {
            if sub[i] == (id, idx) {
            } else {
                let j = choose|j: int| 0 <= j < prefix.len() && prefix[j] == sub[i];
                assert(m[j].0 < m.last().0);
            }
        }
        assert(sorted_strict(r)) by {
            assert forall|i: int, j: int| 0 <= i < j < r.len() implies r[i].0 < r[j].0 by {
                if j < sub.len() {
                    assert(sub[i].0 < sub[j].0);
                }
            }
        }
        assert forall|k: u32|
            #![trigger map_lookup(r, k)]
            map_lookup(r, k) == if k == id {
                Some(idx)
            } else {
                map_lookup(m, k)
            } by {
            lemma_lookup_push(sub, m.last(), k);
            lemma_lookup_push(prefix, m.last(), k);
        }
        assert forall|i: int| 0 <= i < r.len() implies #[trigger] r[i] == (id, idx) || m.contains(
            r[i],
        ) by {
            if i < sub.len() {
                if sub[i] == (id, idx) {
                } else {
                    let j = choose|j: int| 0 <= j < prefix.len() && prefix[j] == sub[i];
                    assert(m[j] == r[i]);
                }
            } else {
                assert(r[i] == m[m.len() - 1]);
            }
        }
    }
}

/// The block index is sorted and finds exactly the last block bearing each
/// label.
pub proof fn lemma_block_map_props(blocks: Seq<Block>)
    ensures
        sorted_strict(spec_block_map(blocks)),
        forall|k: u32|
            #![trigger map_lookup(spec_block_map(blocks), k)]
            map_lookup(spec_block_map(blocks), k) == spec_last_labeled(blocks, k),
    decreases blocks.len(),
{
    if blocks.len() == 0 {
    } else {
        let prefix = blocks.drop_last();
        lemma_block_map_props(prefix);
        match label_id(blocks.last()) {
            Some(id) => {
                lemma_insert_props(spec_block_map(prefix), id, (blocks.len() - 1) as usize);
            },
            None => {},
        }
    }
}

/// A found index is in bounds and names a block bearing the label.
pub proof fn lemma_last_labeled_valid(blocks: Seq<Block>, k: u32)
    requires
        blocks.len() <= usize::MAX,
    ensures
        match spec_last_labeled(blocks, k) {
            Some(idx) => idx < blocks.len() && label_id(blocks[idx as int]) == Some(k),
            None => true,
        },
    decreases blocks.len(),
{
    if blocks.len() == 0 {
    } else if label_id(blocks.last()) == Some(k) {
        assert(blocks.last() == blocks[blocks.len() - 1]);
    } else {
        lemma_last_labeled_valid(blocks.drop_last(), k);
        match spec_last_labeled(blocks.drop_last(), k) {
            Some(idx) => {
                assert(blocks.drop_last()[idx as int] == blocks[idx as int]);
            },
            None => {},
        }
    }
}

/// Places one labelled block in the index, keeping it sorted by key and
/// overwriting an equal key.
fn map_insert(m: Vec<(u32, usize)>, id: u32, idx: usize) -> (r: Vec<(u32, usize)>)
    ensures
        r@ == spec_insert(m@, id, idx),
    decreases m@.len(),
{
    let mut m = m;
    if m.len() == 0 {
        m.push((id, idx));
        proof {
            assert(m@ =~= seq![(id, idx)]);
        }
        m
    } else {
        let last = m[m.len() - 1];
        if last.0 < id {
            m.push((id, idx));
            m
        } else if last.0 == id {
            let ghost before = m@;
            m.pop();
            m.push((id, idx));
            proof {
                assert(m@ =~= before.drop_last().push((id, idx)));
            }
            m
        } else {
            let ghost before = m@;
            let top = match m.pop() {
                Some(t) => t,
                None => (0, 0),
            };
            proof {
                assert(m@ =~= before.drop_last());
                assert(top == before.last());
            }
            let mut r = map_insert(m, id, idx);
            r.push(top);
            r
        }
    }
}

/// The mathematical view of one function's control-flow graph: its blocks
/// and its block index.
pub struct GraphView {
    pub blocks: Seq<Block>,
    pub bm: Seq<(u32, usize)>,
}

impl GraphView {
    /// Whether an identifier names a block.
    pub open spec fn has_key(self, id: u32) -> bool {
        map_lookup(self.bm, id) is Some
    }

    /// The successor identifiers of the block named by an identifier, empty
    /// for an identifier that names none.
    pub open spec fn succ_of(self, id: u32) -> Seq<u32> {
        match map_lookup(self.bm, id) {
            Some(idx) => spec_successors(spec_classify(self.blocks[idx as int])),
            None => Seq::empty(),
        }
    }

    /// Every successor of an indexed block is itself indexed.
    pub open spec fn closed(self) -> bool {
        forall|id: u32, j: int|
            self.has_key(id) && 0 <= j < self.succ_of(id).len() ==> self.has_key(
                #[trigger] self.succ_of(id)[j],
            )
    }

    /// The set of identifiers that name a block.
    pub open spec fn key_set(self) -> Set<u32> {
        self.bm.map_values(|p: (u32, usize)| p.0).to_set()
    }

    /// The identifiers a traversal may still visit: keys and pending stack
    /// entries that are not yet visited.
    pub open spec fn pool(self, stack: Seq<u32>, visited: Seq<u32>) -> Set<u32> {
        self.key_set().union(stack.to_set()).difference(visited.to_set())
    }

    pub proof fn lemma_key_set(self, id: u32)
        ensures
            self.key_set().contains(id) <==> self.has_key(id),
    {
        broadcast use vstd::set::group_set_axioms;

        let keys = self.bm.map_values(|p: (u32, usize)| p.0);
        lemma_lookup_key(self.bm, id);
        match map_lookup(self.bm, id) {
            Some(v) => {
                let i = choose|i: int| 0 <= i < self.bm.len() && self.bm[i] == (id, v);
                assert(keys[i] == id);
                assert(keys.contains(id));
            },
            None => {
                if keys.contains(id) {
                    let i = choose|i: int| 0 <= i < keys.len() && keys[i] == id;
                    assert(self.bm[i].0 == id);
                    assert(false);
                }
            },
        }
    }

    pub proof fn lemma_pool_finite(self, stack: Seq<u32>, visited: Seq<u32>)
        ensures
            self.pool(stack, visited).finite(),
    {
        broadcast use vstd::set::group_set_axioms, vstd::seq_lib::seq_to_set_is_finite;

    }

    pub proof fn lemma_pool_skip(self, stack: Seq<u32>, visited: Seq<u32>)
        requires
            stack.len() > 0,
            visited.contains(stack.last()),
        ensures
            self.pool(stack.drop_last(), visited) == self.pool(stack, visited),
    {
        broadcast use vstd::set::group_set_axioms;

        let rest = stack.drop_last();
        assert forall|x: u32| #[trigger]
            stack.to_set().contains(x) && !visited.to_set().contains(x) implies rest.to_set()
            .contains(x) by {
            let i = choose|i: int| 0 <= i < stack.len() && stack[i] == x;
            if i == stack.len() - 1 {
                assert(false);
            } else {
                assert(rest[i] == x);
                assert(rest.contains(x));
            }
        }
        assert forall|x: u32| #[trigger] rest.to_set().contains(x) implies stack.to_set().contains(
            x,
        ) by {
            let i = choose|i: int| 0 <= i < rest.len() && rest[i] == x;
            assert(stack[i] == x);
            assert(stack.contains(x));
        }
        assert(self.pool(rest, visited) =~= self.pool(stack, visited));
    }

    pub proof fn lemma_pool_visit(self, stack: Seq<u32>, visited: Seq<u32>)
        requires
            self.closed(),
            stack.len() > 0,
            !visited.contains(stack.last()),
        ensures
            self.pool(
                stack.drop_last() + self.succ_of(stack.last()).reverse(),
                visited.push(stack.last()),
            ).len() < self.pool(stack, visited).len(),
    {
        broadcast use vstd::set::group_set_axioms, vstd::seq_lib::seq_to_set_is_finite;

        let n = stack.last();
        let rest = stack.drop_last();
        let stack2 = rest + self.succ_of(n).reverse();
        let visited2 = visited.push(n);
        let a = self.pool(stack, visited);
        let b = self.pool(stack2, visited2);
        self.lemma_pool_finite(stack, visited);
        assert forall|x: u32| #[trigger] b.contains(x) implies a.contains(x) && x != n by {
            if visited.contains(x) {
                assert(visited2[choose|i: int| 0 <= i < visited.len() && visited[i] == x] == x);
                assert(visited2.contains(x));
                assert(false);
            }
            if x == n {
                assert(visited2.last() == n);
                assert(visited2.contains(n));
                assert(false);
            }
            if stack2.to_set().contains(x) {
                let i = choose|i: int| 0 <= i < stack2.len() && stack2[i] == x;
                if i < rest.len() {
                    assert(stack[i] == x);
                    assert(stack.contains(x));
                } else {
                    let r = self.succ_of(n).reverse();
                    assert(r[i - rest.len()] == x);
                    let m = self.succ_of(n).len();
                    assert(self.succ_of(n)[m - 1 - (i - rest.len())] == x);
                    if self.has_key(n) {
                        assert(self.has_key(x));
                        self.lemma_key_set(x);
                    } else {
                        assert(self.succ_of(n).len() == 0);
                        assert(false);
                    }
                }
            }
        }
        assert(stack.contains(n));
        assert(a.contains(n));
        assert(visited2.last() == n);
        assert(visited2.contains(n));
        assert(!b.contains(n));
        b.lemma_subset_not_in_lt(a, n);
    }

    /// The visitation sequence of a depth-first walk: pops the pending stack,
    /// skips an already-visited identifier, and otherwise visits it and
    /// pushes its successors so that the first successor is walked first.
    pub open spec fn spec_dfs(self, stack: Seq<u32>, visited: Seq<u32>) -> Seq<u32>
        decreases self.pool(stack, visited).len(), stack.len(),
            when self.closed()
    {
        if stack.len() == 0 {
            visited
        } else {
            let n = stack.last();
            let rest = stack.drop_last();
            if visited.contains(n) {
                proof {
                    self.lemma_pool_skip(stack, visited);
                }
                self.spec_dfs(rest, visited)
            } else {
                proof {
                    self.lemma_pool_visit(stack, visited);
                }
                self.spec_dfs(rest + self.succ_of(n).reverse(), visited.push(n))
            }
        }
    }

    /// A sequence of identifiers is a walk when every step goes to a
    /// successor of the previous identifier.
    pub open spec fn is_path(self, p: Seq<u32>) -> bool {
        forall|i: int| 0 <= i < p.len() - 1 ==> self.succ_of(#[trigger] p[i]).contains(p[i + 1])
    }

    /// An identifier is reachable from another by following successors.
    pub open spec fn reaches(self, from: u32, to: u32) -> bool {
        exists|p: Seq<u32>|
            p.len() > 0 && p.first() == from && p.last() == to && self.is_path(p)
    }

    /// Every identifier reaches itself.
    pub proof fn lemma_reaches_self(self, x: u32)
        ensures
            self.reaches(x, x),
    {
        let p = seq![x];
        assert(p.len() > 0 && p.first() == x && p.last() == x && self.is_path(p));
    }

    /// Reachability extends along one successor step.
    pub proof fn lemma_reaches_step(self, from: u32, x: u32, y: u32)
        requires
            self.reaches(from, x),
            self.succ_of(x).contains(y),
        ensures
            self.reaches(from, y),
    {
        let p = choose|p: Seq<u32>|
            p.len() > 0 && p.first() == from && p.last() == x && self.is_path(p);
        let q = p.push(y);
        assert(self.is_path(q)) by {
            assert forall|i: int| 0 <= i < q.len() - 1 implies self.succ_of(#[trigger] q[i]).contains(
                q[i + 1],
            ) by {
                if i < p.len() - 1 {
                    assert(q[i] == p[i] && q[i + 1] == p[i + 1]);
                    assert(self.succ_of(p[i]).contains(p[i + 1]));
                } else {
                    assert(q[i] == p.last() && q[i + 1] == y);
                }
            }
        };
        assert(q.len() > 0 && q.first() == from && q.last() == y);
    }

    pub proof fn lemma_closed_path(self, p: Seq<u32>, r: Seq<u32>)
        requires
            self.is_path(p),
            p.len() > 0,
            r.contains(p.first()),
            forall|v: u32, j: int|
                r.contains(v) && 0 <= j < self.succ_of(v).len() ==> r.contains(
                    #[trigger] self.succ_of(v)[j],
                ),
        ensures
            r.contains(p.last()),
        decreases p.len(),
    {
        if p.len() == 1 {
        } else {
            let q = p.drop_last();
            assert(self.is_path(q)) by {
                assert forall|i: int| 0 <= i < q.len() - 1 implies self.succ_of(
                    #[trigger] q[i],
                ).contains(q[i + 1]) by {
                    assert(q[i] == p[i] && q[i + 1] == p[i + 1]);
                    assert(self.succ_of(p[i]).contains(p[i + 1]));
                }
            };
            self.lemma_closed_path(q, r);
            assert(self.succ_of(p[p.len() - 2]).contains(p.last()));
            let j = choose|j: int|
                0 <= j < self.succ_of(q.last()).len() && self.succ_of(q.last())[j] == p.last();
            assert(r.contains(self.succ_of(q.last())[j]));
        }
    }
    proof fn lemma_dfs_props(self, stack: Seq<u32>, visited: Seq<u32>, r_ok: spec_fn(u32) -> bool)
        requires
            self.closed(),
            visited.no_duplicates(),
            forall|i: int| 0 <= i < stack.len() ==> self.has_key(#[trigger] stack[i]),
            forall|i: int| 0 <= i < visited.len() ==> self.has_key(#[trigger] visited[i]),
            forall|i: int| 0 <= i < stack.len() ==> r_ok(#[trigger] stack[i]),
            forall|i: int| 0 <= i < visited.len() ==> r_ok(#[trigger] visited[i]),
            forall|x: u32, j: int|
                r_ok(x) && 0 <= j < self.succ_of(x).len() ==> r_ok(#[trigger] self.succ_of(x)[j]),
            forall|v: u32, j: int|
                visited.contains(v) && 0 <= j < self.succ_of(v).len() ==> visited.contains(
                    #[trigger] self.succ_of(v)[j],
                ) || stack.contains(self.succ_of(v)[j]),
        ensures
            self.spec_dfs(stack, visited).no_duplicates(),
            visited.is_prefix_of(self.spec_dfs(stack, visited)),
            forall|i: int|
                0 <= i < stack.len() ==> self.spec_dfs(stack, visited).contains(
                    #[trigger] stack[i],
                ),
            forall|i: int|
                0 <= i < self.spec_dfs(stack, visited).len() ==> r_ok(
                    #[trigger] self.spec_dfs(stack, visited)[i],
                ),
            forall|v: u32, j: int|
                self.spec_dfs(stack, visited).contains(v) && 0 <= j < self.succ_of(v).len()
                    ==> self.spec_dfs(stack, visited).contains(#[trigger] self.succ_of(v)[j]),
        decreases self.pool(stack, visited).len(), stack.len(),
    {
        let r = self.spec_dfs(stack, visited);
        if stack.len() == 0 {
            assert(visited.is_prefix_of(r)) by {
                assert(r.subrange(0, visited.len() as int) =~= visited);
            }
            assert forall|v: u32, j: int|
                r.contains(v) && 0 <= j < self.succ_of(v).len() implies r.contains(
                #[trigger] self.succ_of(v)[j],
            ) by {
                assert(visited.contains(v));
                assert(visited.contains(self.succ_of(v)[j]) || stack.contains(self.succ_of(v)[j]));
                if stack.contains(self.succ_of(v)[j]) {
                    let i = choose|i: int|
                        0 <= i < stack.len() && stack[i] == self.succ_of(v)[j];
                    assert(false);
                }
            }
        } else {
            let n = stack.last();
            let rest = stack.drop_last();
            if visited.contains(n) {
                self.lemma_pool_skip(stack, visited);
                assert forall|i: int|
                    0 <= i < rest.len() implies self.has_key(#[trigger] rest[i]) && r_ok(
                    rest[i],
                ) by {
                    assert(rest[i] == stack[i]);
                }
                assert forall|v: u32, j: int|
                    visited.contains(v) && 0 <= j < self.succ_of(v).len() implies visited.contains(
                    #[trigger] self.succ_of(v)[j],
                ) || rest.contains(self.succ_of(v)[j]) by {
                    let s = self.succ_of(v)[j];
                    if !visited.contains(s) {
                        assert(stack.contains(s));
                        let i = choose|i: int| 0 <= i < stack.len() && stack[i] == s;
                        if i == stack.len() - 1 {
                            assert(s == n);
                            assert(false);
                        } else {
                            assert(rest[i] == s);
                            assert(rest.contains(s));
                        }
                    }
                }
                self.lemma_dfs_props(rest, visited, r_ok);
                assert(r == self.spec_dfs(rest, visited));
                assert forall|i: int| 0 <= i < stack.len() implies r.contains(
                    #[trigger] stack[i],
                ) by {
                    if i == stack.len() - 1 {
                        lemma_prefix_contains(visited, r, n);
                    } else {
                        assert(rest[i] == stack[i]);
                        assert(r.contains(rest[i]));
                    }
                }
            } else {
                self.lemma_pool_visit(stack, visited);
                let stack2 = rest + self.succ_of(n).reverse();
                let visited2 = visited.push(n);
                let m = self.succ_of(n).len();
                assert(stack[stack.len() - 1] == n);
                assert(visited2.no_duplicates()) by {
                    assert forall|i: int, j: int|
                        0 <= i < visited2.len() && 0 <= j < visited2.len() && i != j
                        implies visited2[i] != visited2[j] by {
                        if i < visited.len() && j < visited.len() {
                        } else if j == visited.len() {
                            assert(visited2[i] == visited[i]);
                            assert(visited.contains(visited[i]));
                        } else {
                            assert(visited2[j] == visited[j]);
                            assert(visited.contains(visited[j]));
                        }
                    }
                }
                assert forall|i: int|
                    0 <= i < stack2.len() implies self.has_key(#[trigger] stack2[i]) && r_ok(
                    stack2[i],
                ) by {
                    if i < rest.len() {
                        assert(stack2[i] == stack[i]);
                    } else {
                        let rv = self.succ_of(n).reverse();
                        assert(stack2[i] == rv[i - rest.len()]);
                        let jj = m - 1 - (i - rest.len());
                        assert(rv[i - rest.len()] == self.succ_of(n)[jj]);
                        assert(self.has_key(self.succ_of(n)[jj]));
                        assert(r_ok(n));
                        assert(r_ok(self.succ_of(n)[jj]));
                    }
                }
                assert forall|i: int|
                    0 <= i < visited2.len() implies self.has_key(#[trigger] visited2[i]) && r_ok(
                    visited2[i],
                ) by {
                    if i < visited.len() {
                        assert(visited2[i] == visited[i]);
                    } else {
                        assert(visited2[i] == n);
                    }
                }
                assert forall|v: u32, j: int|
                    visited2.contains(v) && 0 <= j < self.succ_of(v).len()
                    implies visited2.contains(#[trigger] self.succ_of(v)[j]) || stack2.contains(
                    self.succ_of(v)[j],
                ) by {
                    let s = self.succ_of(v)[j];
                    let vi = choose|i: int| 0 <= i < visited2.len() && visited2[i] == v;
                    if vi < visited.len() {
                        assert(visited[vi] == v);
                        assert(visited.contains(v));
                        assert(visited.contains(s) || stack.contains(s));
                        if visited.contains(s) {
                            let i2 = choose|i2: int| 0 <= i2 < visited.len() && visited[i2] == s;
                            assert(visited2[i2] == s);
                            assert(visited2.contains(s));
                        } else {
                            let i2 = choose|i2: int| 0 <= i2 < stack.len() && stack[i2] == s;
                            if i2 == stack.len() - 1 {
                                assert(s == n);
                                assert(visited2[visited.len() as int] == n);
                                assert(visited2.contains(s));
                            } else {
                                assert(stack2[i2] == s);
                                assert(stack2.contains(s));
                            }
                        }
                    } else {
                        assert(v == n);
                        let rv = self.succ_of(n).reverse();
                        assert(rv[m - 1 - j] == self.succ_of(n)[j]);
                        assert(stack2[rest.len() + (m - 1 - j)] == rv[m - 1 - j]);
                        assert(stack2.contains(s));
                    }
                }
                self.lemma_dfs_props(stack2, visited2, r_ok);
                assert(r == self.spec_dfs(stack2, visited2));
                assert(visited2.is_prefix_of(r));
                assert(visited.is_prefix_of(r)) by {
                    assert forall|i: int| 0 <= i < visited.len() implies visited[i] == r.subrange(
                        0,
                        visited.len() as int,
                    )[i] by {
                        assert(visited2[i] == r.subrange(0, visited2.len() as int)[i]);
                        assert(visited2[i] == visited[i]);
                    }
                    assert(visited =~= r.subrange(0, visited.len() as int));
                }
                assert forall|i: int| 0 <= i < stack.len() implies r.contains(
                    #[trigger] stack[i],
                ) by {
                    if i == stack.len() - 1 {
                        assert(visited2[visited.len() as int] == n);
                        assert(visited2.contains(n));
                        lemma_prefix_contains(visited2, r, n);
                    } else {
                        assert(stack2[i] == stack[i]);
                        assert(r.contains(stack2[i]));
                    }
                }
            }
        }
    }
}

/// A function viewed through its block index, ready for traversal and
/// rendering.
pub struct PetSpirv<'spir> {
    pub module: &'spir SpirvModule,
    pub function: &'spir Function,
    pub block_map: Vec<(u32, usize)>,
}

proof fn lemma_prefix_contains(a: Seq<u32>, b: Seq<u32>, x: u32)
    requires
        a.is_prefix_of(b),
        a.contains(x),
    ensures
        b.contains(x),
{
    let i = choose|i: int| 0 <= i < a.len() && a[i] == x;
    assert(a[i] == b.subrange(0, a.len() as int)[i]);
    assert(b[i] == x);
}

/// Whether a vector of identifiers holds a given one.
fn vec_contains(v: &Vec<u32>, x: u32) -> (b: bool)
    ensures
        b == v@.contains(x),
{
    let mut i: usize = 0;
    while i < v.len()
        invariant
            0 <= i <= v@.len(),
            forall|j: int| 0 <= j < i ==> v@[j] != x,
        decreases v@.len() - i,
    {
        if v[i] == x {
            return true;
        }
        i = i + 1;
    }
    false
}

impl<'spir> PetSpirv<'spir> {
    /// The mathematical view of this function's control-flow graph.
    pub open spec fn graph(self) -> GraphView {
        GraphView { blocks: self.function.blocks@, bm: self.block_map@ }
    }

    /// The successors of the block named by an identifier.
    pub open spec fn succ_of(self, id: u32) -> Seq<u32> {
        self.graph().succ_of(id)
    }

    /// An identifier is reachable from another by following successors.
    pub open spec fn reaches(self, from: u32, to: u32) -> bool {
        self.graph().reaches(from, to)
    }

    /// The block index belongs to the function.
    pub open spec fn wf(self) -> bool {
        self.block_map@ == spec_block_map(self.function.blocks@)
    }

    /// Whether an identifier names a block of this function.
    pub open spec fn has_key(self, id: u32) -> bool {
        map_lookup(self.block_map@, id) is Some
    }



    /// The label identifier of the function's first block.
    pub open spec fn entry(self) -> u32 {
        match label_id(self.function.blocks@[0]) {
            Some(e) => e,
            None => 0,
        }
    }

    /// Well-formed for control-flow work: the index belongs to the function,
    /// every indexed block has a well-shaped terminator, every successor is
    /// indexed, and a nonempty function has an indexed, labelled entry.
    pub open spec fn cfg_wf(self) -> bool {
        &&& self.wf()
        &&& forall|j: int|
            0 <= j < self.block_map@.len() ==> wf_terminator(
                self.function.blocks@[(#[trigger] self.block_map@[j]).1 as int],
            )
        &&& self.graph().closed()
        &&& self.function.blocks@.len() > 0 ==> label_id(self.function.blocks@[0]) is Some
            && self.has_key(self.entry())
    }




    pub proof fn lemma_key_block(self, id: u32)
        requires
            self.cfg_wf(),
            self.has_key(id),
        ensures
            match map_lookup(self.block_map@, id) {
                Some(idx) => wf_terminator(self.function.blocks@[idx as int]),
                None => false,
            },
    {
        lemma_lookup_key(self.block_map@, id);
        match map_lookup(self.block_map@, id) {
            Some(idx) => {
                let i = choose|i: int|
                    0 <= i < self.block_map@.len() && self.block_map@[i] == (id, idx);
                assert(self.block_map@[i].1 == idx);
            },
            None => {},
        }
    }





    /// The full visitation sequence of this function, starting at its entry.
    pub open spec fn spec_traverse(self) -> Seq<u32> {
        if self.function.blocks@.len() > 0 {
            self.graph().spec_dfs(seq![self.entry()], Seq::empty())
        } else {
            Seq::empty()
        }
    }

    /// Builds the per-function view, indexing every labelled block by its
    /// label identifier.
    pub fn new(module: &'spir SpirvModule, function: &'spir Function) -> (r: Self)
        ensures
            r.module == module,
            r.function == function,
            r.wf(),
    {
        let mut block_map: Vec<(u32, usize)> = Vec::new();
        let n = function.blocks.len();
        let mut i: usize = 0;
        while i < n
            invariant
                n == function.blocks@.len(),
                0 <= i <= n,
                block_map@ == spec_block_map(function.blocks@.take(i as int)),
            decreases n - i,
        {
            proof {
                assert(function.blocks@.take(i + 1).drop_last() =~= function.blocks@.take(i as int));
                assert(function.blocks@.take(i + 1).last() == function.blocks@[i as int]);
            }
            let bb = &function.blocks[i];
            match &bb.label {
                Some(l) => {
                    match l.result_id {
                        Some(id) => {
                            block_map = map_insert(block_map, id, i);
                        },
                        None => {},
                    }
                },
                None => {},
            }
            i = i + 1;
        }
        proof {
            assert(function.blocks@.take(n as int) =~= function.blocks@);
        }
        PetSpirv { module, function, block_map }
    }

    /// The block named by an identifier; the identifier must name one.
    pub fn get_block(&self, id: u32) -> (r: &'spir Block)
        requires
            self.wf(),
            self.has_key(id),
        ensures
            match map_lookup(self.block_map@, id) {
                Some(idx) => *r == self.function.blocks@[idx as int],
                None => false,
            },
    {
        let nb = self.function.blocks.len();
        proof {
            assert(self.block_map@.skip(0) =~= self.block_map@);
        }
        let mut i: usize = 0;
        while i < self.block_map.len()
            invariant
                self.wf(),
                nb == self.function.blocks@.len(),
                0 <= i <= self.block_map@.len(),
                map_lookup(self.block_map@, id) == map_lookup(
                    self.block_map@.skip(i as int),
                    id,
                ),
            decreases self.block_map@.len() - i,
        {
            proof {
                assert(self.block_map@.skip(i as int)[0] == self.block_map@[i as int]);
                assert(self.block_map@.skip(i as int).drop_first() =~= self.block_map@.skip(i + 1));
            }
            if self.block_map[i].0 == id {
                let idx = self.block_map[i].1;
                proof {
                    assert(map_lookup(self.block_map@, id) == Some(idx));
                    lemma_block_map_props(self.function.blocks@);
                    lemma_last_labeled_valid(self.function.blocks@, id);
                }
                return &self.function.blocks[idx];
            }
            i = i + 1;
        }
        proof {
            assert(self.block_map@.skip(self.block_map@.len() as int).len() == 0);
            assert(false);
        }
        vstd::pervasive::unreached()
    }

    /// Whether an identifier names a block of this function.
    pub fn contains_key(&self, id: u32) -> (b: bool)
        ensures
            b == self.has_key(id),
    {
        proof {
            assert(self.block_map@.skip(0) =~= self.block_map@);
        }
        let mut i: usize = 0;
        while i < self.block_map.len()
            invariant
                0 <= i <= self.block_map@.len(),
                map_lookup(self.block_map@, id) == map_lookup(
                    self.block_map@.skip(i as int),
                    id,
                ),
            decreases self.block_map@.len() - i,
        {
            proof {
                assert(self.block_map@.skip(i as int)[0] == self.block_map@[i as int]);
                assert(self.block_map@.skip(i as int).drop_first() =~= self.block_map@.skip(i + 1));
            }
            if self.block_map[i].0 == id {
                return true;
            }
            i = i + 1;
        }
        proof {
            assert(self.block_map@.skip(self.block_map@.len() as int).len() == 0);
        }
        false
    }

    /// The display label of an identifier: its debug name when one is bound,
    /// its decimal form otherwise.
    pub fn get_label(&self, id: u32) -> (r: String)
        ensures
            r@ == match name_lookup(self.module.names_view(), id) {
                Some(n) => n,
                None => spec_dec(id as nat),
            },
    {
        match self.module.get_name(id) {
            Some(s) => s.clone(),
            None => u32_string(id),
        }
    }

    /// Walks the blocks reachable from the entry depth-first, visiting each
    /// exactly once, and returns the visitation order. Repeated calls return
    /// the same sequence: the result is a function of the block index alone.
    pub fn traverse(&self) -> (order: Vec<u32>)
        requires
            self.cfg_wf(),
        ensures
            order@ == self.spec_traverse(),
    {
        let mut order: Vec<u32> = Vec::new();
        let mut stack: Vec<u32> = Vec::new();
        if self.function.blocks.len() == 0 {
            return order;
        }
        let entry_block = &self.function.blocks[0];
        let entry = match &entry_block.label {
            Some(l) => match l.result_id {
                Some(id) => id,
                None => vstd::pervasive::unreached(),
            },
            None => vstd::pervasive::unreached(),
        };
        stack.push(entry);
        proof {
            assert(stack@ =~= seq![self.entry()]);
        }
        while stack.len() > 0
            invariant
                self.cfg_wf(),
                forall|i: int| 0 <= i < stack@.len() ==> self.has_key(#[trigger] stack@[i]),
                self.graph().spec_dfs(stack@, order@) == self.spec_traverse(),
            decreases self.graph().pool(stack@, order@).len(), stack@.len(),
    {
            let ghost old_stack = stack@;
            let ghost old_order = order@;
            let n = match stack.pop() {
                Some(n) => n,
                None => vstd::pervasive::unreached(),
            };
            proof {
                assert(n == old_stack.last());
                assert(stack@ =~= old_stack.drop_last());
            }
            if vec_contains(&order, n) {
                proof {
                    self.graph().lemma_pool_skip(old_stack, old_order);
                }
            } else {
                order.push(n);
                proof {
                    self.lemma_key_block(n);
                }
                let bb = self.get_block(n);
                let t = Terminator::from_basic_block(bb);
                let succs = t.successors();
                proof {
                    assert(succs@ == self.succ_of(n));
                }
                let mut k: usize = succs.len();
                proof {
                    assert(succs@.skip(k as int).reverse() =~= Seq::<u32>::empty());
                    assert(stack@ =~= old_stack.drop_last() + succs@.skip(k as int).reverse());
                }
                while k > 0
                    invariant
                        self.cfg_wf(),
                        self.has_key(n),
                        succs@ == self.succ_of(n),
                        0 <= k <= succs@.len(),
                        stack@ == old_stack.drop_last() + succs@.skip(k as int).reverse(),
                        forall|i: int|
                            0 <= i < old_stack.drop_last().len() ==> self.has_key(
                                #[trigger] old_stack.drop_last()[i],
                            ),
                        forall|i: int| 0 <= i < stack@.len() ==> self.has_key(#[trigger] stack@[i]),
                    decreases k,
                {
                    k = k - 1;
                    let s = succs[k];
                    proof {
                        assert(self.succ_of(n)[k as int] == s);
                        assert(self.has_key(s));
                    }
                    stack.push(s);
                    proof {
                        assert(succs@.skip(k as int).reverse() =~= succs@.skip(k + 1).reverse().push(
                            succs@[k as int],
                        ));
                        assert(stack@ =~= old_stack.drop_last() + succs@.skip(k as int).reverse());
                    }
                }
                proof {
                    assert(succs@.skip(0) =~= succs@);
                    assert(stack@ == old_stack.drop_last() + self.succ_of(n).reverse());
                    assert(order@ == old_order.push(n));
                    self.graph().lemma_pool_visit(old_stack, old_order);
                }
            }
        }
        proof {
            assert(self.graph().spec_dfs(stack@, order@) == order@);
        }
        order
    }







    /// Whether this view is fit for traversal and rendering; callers test
    /// this before traversing or emitting.
    pub fn check(&self) -> (b: bool)
        requires
            self.wf(),
        ensures
            b == self.cfg_wf(),
    {
        let nb = self.function.blocks.len();
        if nb > 0 {
            let ok = match &self.function.blocks[0].label {
                Some(l) => match l.result_id {
                    Some(id) => self.contains_key(id),
                    None => false,
                },
                None => false,
            };
            if !ok {
                return false;
            }
        }
        let mut j: usize = 0;
        while j < self.block_map.len()
            invariant
                self.wf(),
                nb == self.function.blocks@.len(),
                self.function.blocks@.len() > 0 ==> label_id(self.function.blocks@[0]) is Some
                    && self.has_key(self.entry()),
                0 <= j <= self.block_map@.len(),
                forall|i: int|
                    0 <= i < j ==> wf_terminator(
                        self.function.blocks@[(#[trigger] self.block_map@[i]).1 as int],
                    ),
                forall|i: int, k: int|
                    #![trigger self.graph().succ_of(self.block_map@[i].0)[k]]
                    0 <= i < j && 0 <= k < self.graph().succ_of(self.block_map@[i].0).len()
                        ==> self.has_key(self.graph().succ_of(self.block_map@[i].0)[k]),
            decreases self.block_map@.len() - j,
        {
            let id = self.block_map[j].0;
            let idx = self.block_map[j].1;
            proof {
                lemma_block_map_props(self.function.blocks@);
                lemma_sorted_lookup_position(self.block_map@, j as int);
                lemma_last_labeled_valid(self.function.blocks@, id);
            }
            let bb = &self.function.blocks[idx];
            if !check_terminator(bb) {
                return false;
            }
            let t = Terminator::from_basic_block(bb);
            let succs = t.successors();
            proof {
                assert(succs@ == self.graph().succ_of(id));
            }
            let mut k: usize = 0;
            while k < succs.len()
                invariant
                    self.wf(),
                    map_lookup(self.block_map@, id) == Some(idx),
                    succs@ == self.graph().succ_of(id),
                    0 <= k <= succs@.len(),
                    forall|i: int| 0 <= i < k ==> self.has_key(#[trigger] succs@[i]),
                decreases succs@.len() - k,
            {
                if !self.contains_key(succs[k]) {
                    proof {
                        assert(self.graph().succ_of(id)[k as int] == succs@[k as int]);
                        assert(!self.graph().closed());
                    }
                    return false;
                }
                k = k + 1;
            }
            j = j + 1;
        }
        proof {
            assert forall|id2: u32, k: int|
                self.graph().has_key(id2) && 0 <= k < self.graph().succ_of(id2).len()
                implies self.graph().has_key(#[trigger] self.graph().succ_of(id2)[k]) by {
                lemma_lookup_key(self.block_map@, id2);
                match map_lookup(self.block_map@, id2) {
                    Some(v) => {
                        let i = choose|i: int|
                            0 <= i < self.block_map@.len() && self.block_map@[i] == (id2, v);
                        assert(self.block_map@[i].0 == id2);
                        assert(self.has_key(self.graph().succ_of(self.block_map@[i].0)[k]));
                    },
                    None => {},
                }
            }
            assert(self.graph().closed());
        }
        true
    }

    /// Traversal visits exactly the blocks reachable from the function's
    /// entry, each one exactly once: the visitation sequence has no
    /// duplicates and holds an identifier precisely when it is reachable.
    /// Unreachable blocks are never visited.
    pub proof fn lemma_traversal_exact(self)
        requires
            self.cfg_wf(),
            self.function.blocks@.len() > 0,
        ensures
            self.spec_traverse().no_duplicates(),
            forall|id: u32|
                #[trigger] self.spec_traverse().contains(id) <==> self.reaches(self.entry(), id),
    {
        let e = self.entry();
        let g = self.graph();
        let stack = seq![e];
        let visited = Seq::<u32>::empty();
        let r_ok = |id: u32| g.reaches(e, id);
        g.lemma_reaches_self(e);
        assert(stack[0] == e);
        assert forall|x: u32, j: int|
            r_ok(x) && 0 <= j < g.succ_of(x).len() implies r_ok(#[trigger] g.succ_of(x)[j]) by {
            assert(g.succ_of(x).contains(g.succ_of(x)[j]));
            g.lemma_reaches_step(e, x, g.succ_of(x)[j]);
        };
        g.lemma_dfs_props(stack, visited, r_ok);
        let r = g.spec_dfs(stack, visited);
        assert(r == self.spec_traverse());
        assert(r.contains(stack[0]));
        assert forall|id: u32| #[trigger] r.contains(id) implies self.reaches(e, id) by {
            let i = choose|i: int| 0 <= i < r.len() && r[i] == id;
            assert(r_ok(r[i]));
        };
        assert forall|id: u32| self.reaches(e, id) implies r.contains(id) by {
            let p = choose|p: Seq<u32>|
                p.len() > 0 && p.first() == e && p.last() == id && g.is_path(p);
            g.lemma_closed_path(p, r);
        };
    }

    /// Traversal is deterministic and restartable: any two visitation
    /// sequences of the same function are identical.
    pub proof fn lemma_traversal_deterministic(self, r1: Seq<u32>, r2: Seq<u32>)
        requires
            r1 == self.spec_traverse(),
            r2 == self.spec_traverse(),
        ensures
            r1 == r2,
    {
    }
}

} // verus!
