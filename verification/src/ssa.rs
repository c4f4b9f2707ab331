//! The transformation into static single-assignment form: dominance
//! frontiers, phi nodes, versions.

use crate::block::{block_views, BasicBlock, BlockView};
use crate::error::OptError;
use crate::instruction::{instruction_views, InstructionView, OpKind};
use crate::ir::{Item, VarKey, Variable};
use crate::optimizer::{Optimizer, OptimizerView};
use crate::phi_frontiers::{idoms_of, lemma_place_all_frame};
use crate::program::{Program, ProgramView};
use crate::varmap::{find_key, lemma_key_position, without_key};
use crate::version::{tree_renamed, version_tree, Renaming};
use vstd::prelude::*;

verus! {

/// The local of which an instruction assigns one item, which therefore
/// gets no versions.
pub open spec fn index_assigned(op: InstructionView) -> Option<VarKey> {
    if op.kind == OpKind::IndexAssign {
        match op.out {
            Some(Variable::Local { id, depth, .. }) => Some((id, depth)),
            _ => None,
        }
    } else {
        None
    }
}

/// The variables without the locals that `ops` assign item by item.
pub open spec fn exempt_ops(vars: Seq<(VarKey, Item)>, ops: Seq<InstructionView>) -> Seq<
    (VarKey, Item),
>
    decreases ops.len(),
{
    if ops.len() == 0 {
        vars
    } else {
        match index_assigned(ops.last()) {
            Some(k) => without_key(exempt_ops(vars, ops.drop_last()), k),
            None => exempt_ops(vars, ops.drop_last()),
        }
    }
}

/// The variables without the locals that the first `m` blocks assign item
/// by item; a block that is no node counts for nothing.
pub open spec fn exempt_blocks(
    vars: Seq<(VarKey, Item)>,
    blocks: Seq<BlockView>,
    nodes: Set<u32>,
    m: nat,
) -> Seq<(VarKey, Item)>
    decreases m,
{
    if m == 0 {
        vars
    } else if m <= blocks.len() && nodes.contains((m - 1) as u32) {
        exempt_ops(exempt_blocks(vars, blocks, nodes, (m - 1) as nat), blocks[m - 1].ops)
    } else {
        exempt_blocks(vars, blocks, nodes, (m - 1) as nat)
    }
}

impl ProgramView {
    /// Whether `other` has the graph of `self`: the same blocks, edges and
    /// entry, and as many block indices in use.
    pub open spec fn same_graph(self, other: ProgramView) -> bool {
        &&& other.nodes == self.nodes
        &&& other.arcs == self.arcs
        &&& other.free == self.free
        &&& other.edges_added == self.edges_added
        &&& other.root == self.root
        &&& other.blocks.len() == self.blocks.len()
    }

    /// The program without the variables that are assigned item by item:
    /// they keep their names.
    pub open spec fn exempt_index_assign_locals(self) -> ProgramView {
        ProgramView {
            variables: exempt_blocks(self.variables, self.blocks, self.nodes, self.blocks.len()),
            ..self
        }
    }

    /// The program with versions: the dominator tree is renamed from the
    /// entry block on.
    pub open spec fn version_program(self) -> Result<ProgramView, OptError> {
        match version_tree(
            self.blocks,
            self.arcs,
            idoms_of(self),
            self.variables,
            Renaming { counters: Seq::empty(), current: Seq::empty() },
            self.root,
            self.blocks.len(),
        ) {
            Ok((blocks, _)) => Ok(ProgramView { blocks, ..self }),
            Err(e) => Err(e),
        }
    }

    /// The program without variables that wait for versions, and without the
    /// notes on which block assigns which local.
    pub open spec fn cleared(self) -> ProgramView {
        ProgramView {
            variables: Seq::empty(),
            blocks: Seq::new(
                self.blocks.len(),
                |b: int| BlockView { writes: Set::empty(), ..self.blocks[b] },
            ),
            ..self
        }
    }

    /// The program in static single-assignment form: dominance frontiers are
    /// noted, phi nodes placed, versions given, and what only served that is
    /// cleared.
    pub open spec fn ssa_transform(self) -> Result<ProgramView, OptError> {
        match self.with_frontiers().with_phis().version_program() {
            Ok(p) => Ok(p.cleared()),
            Err(e) => Err(e),
        }
    }
}

impl Program {
    /// Takes the locals whose lanes are assigned out of the variables: they
    /// currently must be mutated, so they get no versions.
    pub fn exempt_index_assign_locals(&mut self)
        requires
            old(self).wf(),
        ensures
            final(self).wf(),
            final(self)@ == old(self)@.exempt_index_assign_locals(),
    {
        let ghost p0 = self@;
        proof {
            self.lemma_view_wf();
        }
        let n = self.blocks.len();
        let mut b: usize = 0;
        while b < n
            invariant
                b <= n,
                n == self.blocks@.len(),
                n <= u32::MAX,
                self.graph == old(self).graph,
                self.blocks == old(self).blocks,
                self.slices == old(self).slices,
                self.root == old(self).root,
                self.int_ranges == old(self).int_ranges,
                p0 == old(self)@,
                self.variables@ == exempt_blocks(p0.variables, p0.blocks, p0.nodes, b as nat),
            decreases n - b,
        {
            if self.graph.contains_node(b as u32) {
                let ghost start = self.variables@;
                let ghost views = p0.blocks[b as int].ops;
                let count = self.blocks[b].ops.len();
                let mut i: usize = 0;
                while i < count
                    invariant
                        i <= count,
                        b < n,
                        n == self.blocks@.len(),
                        count == self.blocks@[b as int].ops@.len(),
                        views == instruction_views(self.blocks@[b as int].ops@),
                        self.graph == old(self).graph,
                        self.blocks == old(self).blocks,
                        self.slices == old(self).slices,
                        self.root == old(self).root,
                        self.int_ranges == old(self).int_ranges,
                        self.variables@ == exempt_ops(start, views.take(i as int)),
                    decreases count - i,
                {
                    proof {
                        assert(views.take(i + 1).drop_last() =~= views.take(i as int));
                        assert(views.take(i + 1).last() == self.blocks@[b as int].ops@[i as int]@);
                    }
                    let op = &self.blocks[b].ops[i];
                    let key = match op.kind {
                        OpKind::IndexAssign => match op.out {
                            Some(Variable::Local { id, depth, .. }) => Some((id, depth)),
                            _ => None,
                        },
                        _ => None,
                    };
                    match key {
                        Some(k) => match find_key(&self.variables, k) {
                            Some(p) => {
                                proof {
                                    lemma_key_position(self.variables@, k);
                                }
                                self.variables.remove(p);
                            },
                            None => {},
                        },
                        None => {},
                    }
                    i += 1;
                }
                proof {
                    assert(views.take(i as int) =~= views);
                }
            }
            b += 1;
        }
    }

    /// Gives every assignment of a variable its version, and every read the
    /// version that reaches it.
    pub fn version_program(&mut self) -> (done: Result<(), OptError>)
        requires
            old(self).wf(),
            old(self)@.nodes.contains(old(self)@.root),
        ensures
            match old(self)@.version_program() {
                Ok(p) => done is Ok && final(self)@ == p && final(self).wf() && old(self)@.same_graph(p),
                Err(e) => done == Err::<(), OptError>(e),
            },
    {
        proof {
            self.lemma_view_wf();
        }
        let idoms = self.graph.immediate_dominators(self.root);
        assert(idoms@ =~= idoms_of(self@));
        let mut counters: Vec<(VarKey, u32)> = Vec::new();
        let fuel = self.blocks.len();
        tree_renamed(
            &mut self.blocks,
            &self.graph,
            &idoms,
            &self.variables,
            &mut counters,
            Vec::new(),
            self.root,
            fuel,
        )
    }

    /// Forgets the variables and what each block assigns.
    pub fn clear_variables(&mut self)
        requires
            old(self).wf(),
        ensures
            final(self).wf(),
            final(self)@ == old(self)@.cleared(),
    {
        self.variables = Vec::new();
        let n = self.blocks.len();
        let mut b: usize = 0;
        while b < n
            invariant
                b <= n,
                n == self.blocks@.len(),
                n == old(self).blocks@.len(),
                self.graph == old(self).graph,
                self.variables@ == Seq::<(VarKey, Item)>::empty(),
                self.slices == old(self).slices,
                self.root == old(self).root,
                self.int_ranges == old(self).int_ranges,
                forall|j: int|
                    0 <= j < b ==> (#[trigger] self.blocks@[j])@ == old(self)@.cleared().blocks[j],
                forall|j: int| b <= j < n ==> #[trigger] self.blocks@[j] == old(self).blocks@[j],
            decreases n - b,
        {
            let block = &mut self.blocks[b];
            block.writes = Vec::new();
            proof {
                assert(self.blocks@[b as int]@.writes =~= Set::<VarKey>::empty());
            }
            b += 1;
        }
        proof {
            assert(self@.blocks =~= old(self)@.cleared().blocks);
        }
    }

    /// Brings the program into static single-assignment form.
    pub fn ssa_transform(&mut self) -> (done: Result<(), OptError>)
        requires
            old(self).wf(),
            old(self)@.nodes.contains(old(self)@.root),
        ensures
            match old(self)@.ssa_transform() {
                Ok(p) => done is Ok && final(self)@ == p && final(self).wf() && old(self)@.same_graph(p),
                Err(e) => done == Err::<(), OptError>(e),
            },
    {
        self.fill_dom_frontiers();
        proof {
            lemma_place_all_frame(self@, self@.variables);
        }
        self.place_phi_nodes();
        match self.version_program() {
            Ok(()) => {},
            Err(e) => return Err(e),
        }
        self.clear_variables();
        Ok(())
    }
}

} // verus!
