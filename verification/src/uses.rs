//! Which variables are read, and the removal of instructions whose result
//! nobody reads.

use crate::block::{block_views, phi_views, BasicBlock, BlockView, ControlFlow, PhiView};
use crate::counter::AtomicCounter;
use crate::instruction::{instruction_views, Instruction, InstructionView, OpKind};
use crate::ir::Variable;
use crate::passes::lemma_advance_sum;
use crate::program::{Program, ProgramView};
use vstd::prelude::*;

verus! {

/// The values that the entries of a phi node take.
pub open spec fn entry_values(entries: Seq<(u32, Variable)>) -> Set<Variable>
    decreases entries.len(),
{
    if entries.len() == 0 {
        Set::empty()
    } else {
        entry_values(entries.drop_last()).insert(entries.last().1)
    }
}

/// The variables that phi nodes read.
pub open spec fn phis_reads(phis: Seq<PhiView>) -> Set<Variable>
    decreases phis.len(),
{
    if phis.len() == 0 {
        Set::empty()
    } else {
        phis_reads(phis.drop_last()).union(entry_values(phis.last().entries))
    }
}

/// The variables that instructions read.
pub open spec fn ops_reads(ops: Seq<InstructionView>) -> Set<Variable>
    decreases ops.len(),
{
    if ops.len() == 0 {
        Set::empty()
    } else {
        ops_reads(ops.drop_last()).union(ops.last().args.to_set())
    }
}

/// The variables that a block reads: in its phi nodes, its instructions and
/// its terminator.
pub open spec fn block_reads(b: BlockView) -> Set<Variable> {
    phis_reads(b.phi_nodes).union(ops_reads(b.ops)).union(
        match b.control_flow.condition() {
            Some(v) => set![v],
            None => Set::empty(),
        },
    )
}

/// The variables that the blocks below `m` read; a block that is no node
/// counts for nothing.
pub open spec fn reads_upto(blocks: Seq<BlockView>, nodes: Set<u32>, m: nat) -> Set<Variable>
    decreases m,
{
    if m == 0 {
        Set::empty()
    } else if m <= blocks.len() && nodes.contains((m - 1) as u32) {
        reads_upto(blocks, nodes, (m - 1) as nat).union(block_reads(blocks[m - 1]))
    } else {
        reads_upto(blocks, nodes, (m - 1) as nat)
    }
}

/// Whether `op` is a plain copy: `out = value`, where `out` is a versioned
/// variable and `value` another one or a constant.
pub open spec fn is_copy(op: InstructionView) -> bool {
    &&& op.kind == OpKind::Assign
    &&& op.args.len() == 1
    &&& op.out is Some
    &&& op.out->0 is Versioned
    &&& (op.args[0] is Versioned || op.args[0] is ConstantScalar)
    &&& op.args[0] != op.out->0
}

/// Whether `op` is removed: its result is a versioned variable that nobody
/// reads, and it is pure; where only copies are removed, it is a copy.
pub open spec fn removable(op: InstructionView, used: Set<Variable>, only_copies: bool) -> bool {
    &&& if only_copies {
        is_copy(op)
    } else {
        op.kind.is_pure_spec()
    }
    &&& op.out is Some
    &&& op.out->0 is Versioned
    &&& !used.contains(op.out->0)
}

/// The instructions that stay.
pub open spec fn kept_ops(ops: Seq<InstructionView>, used: Set<Variable>, only_copies: bool) -> Seq<
    InstructionView,
>
    decreases ops.len(),
{
    if ops.len() == 0 {
        Seq::empty()
    } else if removable(ops.last(), used, only_copies) {
        kept_ops(ops.drop_last(), used, only_copies)
    } else {
        kept_ops(ops.drop_last(), used, only_copies).push(ops.last())
    }
}

/// The number of instructions that are removed.
pub open spec fn removed_ops(ops: Seq<InstructionView>, used: Set<Variable>, only_copies: bool) -> nat
    decreases ops.len(),
{
    if ops.len() == 0 {
        0
    } else {
        removed_ops(ops.drop_last(), used, only_copies) + if removable(
            ops.last(),
            used,
            only_copies,
        ) {
            1nat
        } else {
            0nat
        }
    }
}

/// The number of instructions that are removed from the blocks below `m`.
pub open spec fn removed_upto(
    blocks: Seq<BlockView>,
    nodes: Set<u32>,
    used: Set<Variable>,
    only_copies: bool,
    m: nat,
) -> nat
    decreases m,
{
    if m == 0 {
        0
    } else {
        removed_upto(blocks, nodes, used, only_copies, (m - 1) as nat) + if m <= blocks.len()
            && nodes.contains((m - 1) as u32) {
            removed_ops(blocks[m - 1].ops, used, only_copies)
        } else {
            0
        }
    }
}

impl ProgramView {
    /// The variables that the program reads.
    pub open spec fn reads(self) -> Set<Variable> {
        reads_upto(self.blocks, self.nodes, self.blocks.len())
    }

    /// Block `b` without the instructions whose result nobody reads.
    pub open spec fn sweep_block(self, only_copies: bool, b: int) -> BlockView {
        if self.nodes.contains(b as u32) {
            BlockView {
                ops: kept_ops(self.blocks[b].ops, self.reads(), only_copies),
                ..self.blocks[b]
            }
        } else {
            self.blocks[b]
        }
    }

    /// The program without the instructions whose result nobody reads.
    pub open spec fn eliminate_unused(self, only_copies: bool) -> ProgramView {
        ProgramView {
            blocks: Seq::new(self.blocks.len(), |b: int| self.sweep_block(only_copies, b)),
            ..self
        }
    }

    /// The number of instructions whose result nobody reads.
    pub open spec fn unused(self, only_copies: bool) -> nat {
        removed_upto(self.blocks, self.nodes, self.reads(), only_copies, self.blocks.len())
    }
}

/// Whether `v` is among `set`.
pub fn has_variable(set: &Vec<Variable>, v: &Variable) -> (found: bool)
    ensures
        found == set@.to_set().contains(*v),
{
    let mut i: usize = 0;
    while i < set.len()
        invariant
            i <= set.len(),
            forall|j: int| 0 <= j < i ==> set@[j] != *v,
        decreases set.len() - i,
    {
        if set[i] == *v {
            return true;
        }
        i += 1;
    }
    false
}

/// Puts `v` among `set`.
pub fn add_variable(set: &mut Vec<Variable>, v: Variable)
    ensures
        final(set)@.to_set() == old(set)@.to_set().insert(v),
{
    if has_variable(set, &v) {
        assert(set@.to_set() =~= set@.to_set().insert(v));
    } else {
        let ghost before = set@;
        set.push(v);
        proof {
            before.lemma_push_to_set_commute(v);
        }
    }
}

/// Puts the variables that a block reads among `set`.
pub fn add_block_reads(block: &BasicBlock, set: &mut Vec<Variable>)
    ensures
        final(set)@.to_set() == old(set)@.to_set().union(block_reads(block@)),
{
    let ghost start = set@.to_set();
    let ghost phis = phi_views(block.phi_nodes@);
    let mut i: usize = 0;
    assert(set@.to_set() =~= start.union(phis_reads(phis.take(0))));
    while i < block.phi_nodes.len()
        invariant
            i <= block.phi_nodes.len(),
            phis == phi_views(block.phi_nodes@),
            set@.to_set() == start.union(phis_reads(phis.take(i as int))),
        decreases block.phi_nodes.len() - i,
    {
        let entries = &block.phi_nodes[i].entries;
        let ghost before = set@.to_set();
        let mut j: usize = 0;
        assert(set@.to_set() =~= before.union(entry_values(entries@.take(0))));
        while j < entries.len()
            invariant
                j <= entries.len(),
                set@.to_set() == before.union(entry_values(entries@.take(j as int))),
            decreases entries.len() - j,
        {
            proof {
                assert(entries@.take(j + 1).drop_last() =~= entries@.take(j as int));
                assert(entries@.take(j + 1).last() == entries@[j as int]);
            }
            add_variable(set, entries[j].1);
            proof {
                assert(set@.to_set() =~= before.union(entry_values(entries@.take(j + 1))));
            }
            j += 1;
        }
        proof {
            assert(entries@.take(j as int) =~= entries@);
            assert(phis.take(i + 1).drop_last() =~= phis.take(i as int));
            assert(phis.take(i + 1).last() == block.phi_nodes@[i as int]@);
            assert(set@.to_set() =~= start.union(phis_reads(phis.take(i + 1))));
        }
        i += 1;
    }
    proof {
        assert(phis.take(i as int) =~= phis);
    }
    let ghost middle = set@.to_set();
    let ghost ops = instruction_views(block.ops@);
    let mut i: usize = 0;
    assert(set@.to_set() =~= middle.union(ops_reads(ops.take(0))));
    while i < block.ops.len()
        invariant
            i <= block.ops.len(),
            ops == instruction_views(block.ops@),
            set@.to_set() == middle.union(ops_reads(ops.take(i as int))),
        decreases block.ops.len() - i,
    {
        let args = &block.ops[i].args;
        let ghost before = set@.to_set();
        let mut j: usize = 0;
        assert(set@.to_set() =~= before.union(args@.take(0).to_set()));
        while j < args.len()
            invariant
                j <= args.len(),
                set@.to_set() == before.union(args@.take(j as int).to_set()),
            decreases args.len() - j,
        {
            proof {
                args@.take(j as int).lemma_push_to_set_commute(args@[j as int]);
                assert(args@.take(j + 1) =~= args@.take(j as int).push(args@[j as int]));
            }
            add_variable(set, args[j]);
            proof {
                assert(set@.to_set() =~= before.union(args@.take(j + 1).to_set()));
            }
            j += 1;
        }
        proof {
            assert(args@.take(j as int) =~= args@);
            assert(ops.take(i + 1).drop_last() =~= ops.take(i as int));
            assert(ops.take(i + 1).last() == block.ops@[i as int]@);
            assert(set@.to_set() =~= middle.union(ops_reads(ops.take(i + 1))));
        }
        i += 1;
    }
    proof {
        assert(ops.take(i as int) =~= ops);
    }
    let cond = match &block.control_flow {
        ControlFlow::IfElse { cond, .. } => Some(*cond),
        ControlFlow::Switch { value, .. } => Some(*value),
        ControlFlow::Break { cond, .. } => Some(*cond),
        _ => None,
    };
    assert(cond == block@.control_flow.condition());
    match cond {
        Some(v) => {
            add_variable(set, v);
        },
        None => {},
    }
    proof {
        assert(set@.to_set() =~= start.union(block_reads(block@)));
    }
}

/// Whether `op` is a plain copy.
pub fn copy_like(op: &Instruction) -> (yes: bool)
    ensures
        yes == is_copy(op@),
{
    let assigns = match op.kind {
        OpKind::Assign => true,
        _ => false,
    };
    if !assigns || op.args.len() != 1 {
        return false;
    }
    match op.out {
        Some(out) => {
            let versioned = match out {
                Variable::Versioned { .. } => true,
                _ => false,
            };
            let plain = match op.args[0] {
                Variable::Versioned { .. } => true,
                Variable::ConstantScalar(_) => true,
                _ => false,
            };
            versioned && plain && op.args[0] != out
        },
        None => false,
    }
}

/// Whether `op` is removed.
pub fn can_remove(op: &Instruction, used: &Vec<Variable>, only_copies: bool) -> (yes: bool)
    ensures
        yes == removable(op@, used@.to_set(), only_copies),
{
    let eligible = if only_copies {
        copy_like(op)
    } else {
        op.kind.is_pure()
    };
    if !eligible {
        return false;
    }
    match op.out {
        Some(out) => {
            let versioned = match out {
                Variable::Versioned { .. } => true,
                _ => false,
            };
            versioned && !has_variable(used, &out)
        },
        None => false,
    }
}

impl Program {
    /// The variables that the program reads.
    pub fn collect_reads(&self) -> (used: Vec<Variable>)
        requires
            self.wf(),
        ensures
            used@.to_set() == self@.reads(),
    {
        proof {
            self.lemma_view_wf();
        }
        let n = self.blocks.len();
        let mut used: Vec<Variable> = Vec::new();
        let mut b: usize = 0;
        assert(used@.to_set() =~= reads_upto(self@.blocks, self@.nodes, 0));
        while b < n
            invariant
                b <= n,
                n == self.blocks@.len(),
                n <= u32::MAX,
                used@.to_set() == reads_upto(self@.blocks, self@.nodes, b as nat),
            decreases n - b,
        {
            if self.graph.contains_node(b as u32) {
                add_block_reads(&self.blocks[b], &mut used);
            }
            b += 1;
        }
        used
    }

    /// Removes the instructions whose result nobody reads, and counts them:
    /// the pure ones, or only the plain copies.
    pub fn eliminate_unused(&mut self, only_copies: bool, counter: &mut AtomicCounter)
        requires
            old(self).wf(),
        ensures
            final(self).wf(),
            final(self)@ == old(self)@.eliminate_unused(only_copies),
            final(counter)@ == AtomicCounter::advance(
                old(counter)@,
                old(self)@.unused(only_copies),
            ),
    {
        let ghost p0 = self@;
        proof {
            self.lemma_view_wf();
        }
        let used = self.collect_reads();
        let n = self.blocks.len();
        let mut b: usize = 0;
        while b < n
            invariant
                b <= n,
                n == self.blocks@.len(),
                n == p0.blocks.len(),
                n <= u32::MAX,
                p0 == old(self)@,
                used@.to_set() == p0.reads(),
                self.graph == old(self).graph,
                self.variables == old(self).variables,
                self.slices == old(self).slices,
                self.root == old(self).root,
                self.int_ranges == old(self).int_ranges,
                forall|j: int|
                    0 <= j < b ==> (#[trigger] self.blocks@[j])@ == p0.sweep_block(only_copies, j),
                forall|j: int| b <= j < n ==> (#[trigger] self.blocks@[j])@ == p0.blocks[j],
                counter@ == AtomicCounter::advance(
                    old(counter)@,
                    removed_upto(p0.blocks, p0.nodes, p0.reads(), only_copies, b as nat),
                ),
            decreases n - b,
        {
            if self.graph.contains_node(b as u32) {
                let ghost views = p0.blocks[b as int].ops;
                let ghost c0 = counter@;
                let ops = &self.blocks[b].ops;
                let mut kept: Vec<Instruction> = Vec::new();
                let mut i: usize = 0;
                assert(instruction_views(kept@) =~= kept_ops(
                    views.take(0),
                    p0.reads(),
                    only_copies,
                ));
                while i < ops.len()
                    invariant
                        i <= ops.len(),
                        views == instruction_views(ops@),
                        used@.to_set() == p0.reads(),
                        instruction_views(kept@) == kept_ops(
                            views.take(i as int),
                            p0.reads(),
                            only_copies,
                        ),
                        counter@ == AtomicCounter::advance(
                            c0,
                            removed_ops(views.take(i as int), p0.reads(), only_copies),
                        ),
                    decreases ops.len() - i,
                {
                    proof {
                        assert(views.take(i + 1).drop_last() =~= views.take(i as int));
                        assert(views.take(i + 1).last() == ops@[i as int]@);
                    }
                    if can_remove(&ops[i], &used, only_copies) {
                        counter.inc();
                    } else {
                        let ghost before = instruction_views(kept@);
                        let op = ops[i].duplicate();
                        let ghost view = op@;
                        kept.push(op);
                        proof {
                            assert(instruction_views(kept@) =~= before.push(view));
                        }
                    }
                    i += 1;
                }
                proof {
                    assert(views.take(i as int) =~= views);
                    lemma_advance_sum(
                        old(counter)@,
                        removed_upto(p0.blocks, p0.nodes, p0.reads(), only_copies, b as nat),
                        removed_ops(views, p0.reads(), only_copies),
                    );
                }
                let block = &mut self.blocks[b];
                block.ops = kept;
            }
            b += 1;
        }
        proof {
            assert(self@.blocks =~= p0.eliminate_unused(only_copies).blocks);
        }
    }
}

} // verus!
