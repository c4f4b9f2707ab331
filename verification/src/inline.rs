//! Inlining of assignments: who reads a plain copy reads its source
//! instead, and the copy goes when nobody reads it any more.

use crate::block::{
    block_views, phi_views, BasicBlock, BlockView, ControlFlow, ControlFlowView, PhiInstruction,
    PhiView,
};
use crate::version::copy_entries;
use crate::counter::AtomicCounter;
use crate::instruction::{instruction_views, Instruction, InstructionView, OpKind};
use crate::ir::Variable;
use crate::passes::lemma_advance_sum;
use crate::program::{Program, ProgramView};
use crate::rewrite::same_args;
use crate::uses::{copy_like, is_copy};
use vstd::prelude::*;

verus! {

/// The plain copies among `ops`, each as the variable that is written and
/// its source.
pub open spec fn copies_of(ops: Seq<InstructionView>) -> Seq<(Variable, Variable)>
    decreases ops.len(),
{
    if ops.len() == 0 {
        Seq::empty()
    } else if is_copy(ops.last()) {
        copies_of(ops.drop_last()).push((ops.last().out->0, ops.last().args[0]))
    } else {
        copies_of(ops.drop_last())
    }
}

/// The plain copies in the blocks below `m`.
pub open spec fn copies_upto(blocks: Seq<BlockView>, nodes: Set<u32>, m: nat) -> Seq<
    (Variable, Variable),
>
    decreases m,
{
    if m == 0 {
        Seq::empty()
    } else if m <= blocks.len() && nodes.contains((m - 1) as u32) {
        copies_upto(blocks, nodes, (m - 1) as nat) + copies_of(blocks[m - 1].ops)
    } else {
        copies_upto(blocks, nodes, (m - 1) as nat)
    }
}

/// The place of the first copy into `v`, or -1.
pub open spec fn copy_position(copies: Seq<(Variable, Variable)>, v: Variable) -> int
    decreases copies.len(),
{
    if copies.len() == 0 {
        -1
    } else {
        let p = copy_position(copies.drop_last(), v);
        if p >= 0 {
            p
        } else if copies.last().0 == v {
            copies.len() - 1
        } else {
            -1
        }
    }
}

/// What is read in the place of `v`: the source of the first copy into
/// `v`, or `v` itself.
pub open spec fn source(copies: Seq<(Variable, Variable)>, v: Variable) -> Variable {
    let p = copy_position(copies, v);
    if 0 <= p < copies.len() {
        copies[p].1
    } else {
        v
    }
}

/// The operands with each in the place of which its source is read.
pub open spec fn replace_reads(copies: Seq<(Variable, Variable)>, args: Seq<Variable>) -> Seq<
    Variable,
> {
    Seq::new(args.len(), |i: int| source(copies, args[i]))
}

/// An instruction that reads sources in the place of copies.
pub open spec fn inline_op(copies: Seq<(Variable, Variable)>, op: InstructionView) -> InstructionView {
    InstructionView { args: replace_reads(copies, op.args), ..op }
}

/// A terminator that reads the source in the place of a copy.
pub open spec fn inline_terminator(copies: Seq<(Variable, Variable)>, control_flow: ControlFlowView) -> ControlFlowView {
    match control_flow.condition() {
        Some(v) => control_flow.with_condition(source(copies, v)),
        None => control_flow,
    }
}

/// The number of instructions below `m` that read a copy.
pub open spec fn inlined_upto(copies: Seq<(Variable, Variable)>, ops: Seq<InstructionView>, m: nat) -> nat
    decreases m,
{
    if m == 0 {
        0
    } else {
        inlined_upto(copies, ops, (m - 1) as nat) + if m <= ops.len() && replace_reads(
            copies,
            ops[m - 1].args,
        ) != ops[m - 1].args {
            1nat
        } else {
            0nat
        }
    }
}

/// The number of places in a block that read a copy: instructions, and the
/// terminator.
pub open spec fn block_inlined(copies: Seq<(Variable, Variable)>, b: BlockView) -> nat {
    inlined_upto(copies, b.ops, b.ops.len()) + if inline_terminator(copies, b.control_flow)
        != b.control_flow {
        1nat
    } else {
        0nat
    }
}

/// The number of places in the blocks below `m` that read a copy.
pub open spec fn blocks_inlined(
    copies: Seq<(Variable, Variable)>,
    blocks: Seq<BlockView>,
    nodes: Set<u32>,
    m: nat,
) -> nat
    decreases m,
{
    if m == 0 {
        0
    } else {
        blocks_inlined(copies, blocks, nodes, (m - 1) as nat) + if m <= blocks.len()
            && nodes.contains((m - 1) as u32) {
            block_inlined(copies, blocks[m - 1])
        } else {
            0
        }
    }
}

/// The phi nodes that stay phi nodes: those that do not have just one
/// entry.
pub open spec fn kept_phis(phis: Seq<PhiView>) -> Seq<PhiView>
    decreases phis.len(),
{
    if phis.len() == 0 {
        Seq::empty()
    } else if phis.last().entries.len() == 1 {
        kept_phis(phis.drop_last())
    } else {
        kept_phis(phis.drop_last()).push(phis.last())
    }
}

/// The copies that the phi nodes with just one entry become.
pub open spec fn demoted_phis(phis: Seq<PhiView>) -> Seq<InstructionView>
    decreases phis.len(),
{
    if phis.len() == 0 {
        Seq::empty()
    } else if phis.last().entries.len() == 1 {
        demoted_phis(phis.drop_last()).push(
            InstructionView {
                kind: OpKind::Assign,
                out: Some(phis.last().out),
                args: seq![phis.last().entries[0].1],
            },
        )
    } else {
        demoted_phis(phis.drop_last())
    }
}

/// The number of phi nodes in the blocks below `m` that have just one
/// entry.
pub open spec fn demoted_upto(blocks: Seq<BlockView>, nodes: Set<u32>, m: nat) -> nat
    decreases m,
{
    if m == 0 {
        0
    } else {
        demoted_upto(blocks, nodes, (m - 1) as nat) + if m <= blocks.len() && nodes.contains(
            (m - 1) as u32,
        ) {
            demoted_phis(blocks[m - 1].phi_nodes).len()
        } else {
            0
        }
    }
}

impl ProgramView {
    /// Block `b` with its phi nodes of one entry as copies in front of its
    /// instructions.
    pub open spec fn demote_block(self, b: int) -> BlockView {
        if self.nodes.contains(b as u32) {
            BlockView {
                phi_nodes: kept_phis(self.blocks[b].phi_nodes),
                ops: demoted_phis(self.blocks[b].phi_nodes) + self.blocks[b].ops,
                ..self.blocks[b]
            }
        } else {
            self.blocks[b]
        }
    }

    /// The program with every phi node that has just one entry as a copy.
    pub open spec fn demote_phis(self) -> ProgramView {
        ProgramView {
            blocks: Seq::new(self.blocks.len(), |b: int| self.demote_block(b)),
            ..self
        }
    }

    /// The number of phi nodes that have just one entry.
    pub open spec fn demotions(self) -> nat {
        demoted_upto(self.blocks, self.nodes, self.blocks.len())
    }
}

impl ProgramView {
    /// The plain copies of the program.
    pub open spec fn copies(self) -> Seq<(Variable, Variable)> {
        copies_upto(self.blocks, self.nodes, self.blocks.len())
    }

    /// Block `b` with sources read in the place of copies.
    pub open spec fn substitute_block(self, b: int) -> BlockView {
        if self.nodes.contains(b as u32) {
            BlockView {
                ops: Seq::new(
                    self.blocks[b].ops.len(),
                    |i: int| inline_op(self.copies(), self.blocks[b].ops[i]),
                ),
                control_flow: inline_terminator(self.copies(), self.blocks[b].control_flow),
                ..self.blocks[b]
            }
        } else {
            self.blocks[b]
        }
    }

    /// The program with sources read in the place of copies, in
    /// instructions and terminators; phi nodes read what they read.
    pub open spec fn substitute_copies(self) -> ProgramView {
        ProgramView {
            blocks: Seq::new(self.blocks.len(), |b: int| self.substitute_block(b)),
            ..self
        }
    }

    /// The number of places that read a copy.
    pub open spec fn substitutions(self) -> nat {
        blocks_inlined(self.copies(), self.blocks, self.nodes, self.blocks.len())
    }

    /// The program after the inlining of assignments: phi nodes with one
    /// entry are copies, sources are read in the place of copies, and the
    /// copies that nobody reads any more are gone.
    pub open spec fn inline_assignments(self) -> ProgramView {
        self.demote_phis().substitute_copies().eliminate_unused(true)
    }

    /// The number of changes that the inlining of assignments makes.
    pub open spec fn inlined(self) -> nat {
        self.demotions() + self.demote_phis().substitutions()
            + self.demote_phis().substitute_copies().unused(true)
    }
}

/// A copy that is found in the first `n` copies is found at the same place
/// in all of them.
pub proof fn lemma_copy_position_prefix(copies: Seq<(Variable, Variable)>, n: int, v: Variable)
    requires
        0 <= n <= copies.len(),
        copy_position(copies.take(n), v) >= 0,
    ensures
        copy_position(copies, v) == copy_position(copies.take(n), v),
    decreases copies.len() - n,
{
    if n < copies.len() {
        assert(copies.drop_last().take(n) =~= copies.take(n));
        lemma_copy_position_prefix(copies.drop_last(), n, v);
    } else {
        assert(copies.take(n) =~= copies);
    }
}

/// What is read in the place of `v`.
pub fn source_of(copies: &Vec<(Variable, Variable)>, v: Variable) -> (read: Variable)
    ensures
        read == source(copies@, v),
{
    let mut i: usize = 0;
    while i < copies.len()
        invariant
            i <= copies.len(),
            copy_position(copies@.take(i as int), v) == -1,
        decreases copies.len() - i,
    {
        proof {
            assert(copies@.take(i + 1).drop_last() =~= copies@.take(i as int));
        }
        if copies[i].0 == v {
            proof {
                lemma_copy_position_prefix(copies@, i + 1, v);
            }
            return copies[i].1;
        }
        i += 1;
    }
    assert(copies@.take(i as int) =~= copies@);
    v
}

/// The operands with sources in the place of copies.
pub fn reads_replaced(copies: &Vec<(Variable, Variable)>, args: &Vec<Variable>) -> (made: Vec<
    Variable,
>)
    ensures
        made@ == replace_reads(copies@, args@),
{
    let mut made: Vec<Variable> = Vec::new();
    let mut i: usize = 0;
    while i < args.len()
        invariant
            i <= args.len(),
            made@.len() == i,
            forall|j: int| 0 <= j < i ==> #[trigger] made@[j] == source(copies@, args@[j]),
        decreases args.len() - i,
    {
        made.push(source_of(copies, args[i]));
        i += 1;
    }
    assert(made@ =~= replace_reads(copies@, args@));
    made
}

impl Program {
    /// The plain copies of the program.
    pub fn collect_copies(&self) -> (copies: Vec<(Variable, Variable)>)
        requires
            self.wf(),
        ensures
            copies@ == self@.copies(),
    {
        proof {
            self.lemma_view_wf();
        }
        let n = self.blocks.len();
        let mut copies: Vec<(Variable, Variable)> = Vec::new();
        let mut b: usize = 0;
        while b < n
            invariant
                b <= n,
                n == self.blocks@.len(),
                n <= u32::MAX,
                copies@ == copies_upto(self@.blocks, self@.nodes, b as nat),
            decreases n - b,
        {
            if self.graph.contains_node(b as u32) {
                let ghost start = copies@;
                let ops = &self.blocks[b].ops;
                let ghost views = instruction_views(ops@);
                let mut i: usize = 0;
                assert(copies@ =~= start + copies_of(views.take(0)));
                while i < ops.len()
                    invariant
                        i <= ops.len(),
                        views == instruction_views(ops@),
                        copies@ == start + copies_of(views.take(i as int)),
                    decreases ops.len() - i,
                {
                    proof {
                        assert(views.take(i + 1).drop_last() =~= views.take(i as int));
                        assert(views.take(i + 1).last() == ops@[i as int]@);
                    }
                    if copy_like(&ops[i]) {
                        match ops[i].out {
                            Some(out) => {
                                copies.push((out, ops[i].args[0]));
                            },
                            None => {},
                        }
                    }
                    proof {
                        assert(copies@ =~= start + copies_of(views.take(i + 1)));
                    }
                    i += 1;
                }
                proof {
                    assert(views.take(i as int) =~= views);
                }
            }
            b += 1;
        }
        copies
    }

    /// Lets every instruction and terminator read sources in the place of
    /// copies, and counts the places that change.
    pub fn substitute_copies(&mut self, counter: &mut AtomicCounter)
        requires
            old(self).wf(),
        ensures
            final(self).wf(),
            final(self)@ == old(self)@.substitute_copies(),
            final(counter)@ == AtomicCounter::advance(old(counter)@, old(self)@.substitutions()),
    {
        let ghost p0 = self@;
        proof {
            self.lemma_view_wf();
        }
        let copies = self.collect_copies();
        let n = self.blocks.len();
        let mut b: usize = 0;
        while b < n
            invariant
                b <= n,
                n == self.blocks@.len(),
                n == p0.blocks.len(),
                n <= u32::MAX,
                p0 == old(self)@,
                copies@ == p0.copies(),
                self.graph == old(self).graph,
                self.variables == old(self).variables,
                self.slices == old(self).slices,
                self.root == old(self).root,
                self.int_ranges == old(self).int_ranges,
                forall|j: int| 0 <= j < b ==> (#[trigger] self.blocks@[j])@ == p0.substitute_block(j),
                forall|j: int| b <= j < n ==> (#[trigger] self.blocks@[j])@ == p0.blocks[j],
                counter@ == AtomicCounter::advance(
                    old(counter)@,
                    blocks_inlined(copies@, p0.blocks, p0.nodes, b as nat),
                ),
            decreases n - b,
        {
            if self.graph.contains_node(b as u32) {
                let ghost views = p0.blocks[b as int].ops;
                let ghost c0 = counter@;
                let ops = &self.blocks[b].ops;
                let mut made: Vec<Instruction> = Vec::new();
                let mut i: usize = 0;
                while i < ops.len()
                    invariant
                        i <= ops.len(),
                        views == instruction_views(ops@),
                        made@.len() == i,
                        forall|t: int|
                            0 <= t < i ==> (#[trigger] made@[t])@ == inline_op(copies@, views[t]),
                        counter@ == AtomicCounter::advance(
                            c0,
                            inlined_upto(copies@, views, i as nat),
                        ),
                    decreases ops.len() - i,
                {
                    let args = reads_replaced(&copies, &ops[i].args);
                    if !same_args(&args, &ops[i].args) {
                        counter.inc();
                    }
                    made.push(Instruction { kind: ops[i].kind, out: ops[i].out, args });
                    i += 1;
                }
                let control_flow = match self.blocks[b].control_flow.condition() {
                    Some(v) => {
                        let read = source_of(&copies, v);
                        if read != v {
                            counter.inc();
                        }
                        self.blocks[b].control_flow.with_condition(read)
                    },
                    None => self.blocks[b].control_flow.duplicate(),
                };
                proof {
                    let old_cf = p0.blocks[b as int].control_flow;
                    assert(control_flow@ == inline_terminator(copies@, old_cf));
                    assert((control_flow@ != old_cf) <==> (old_cf.condition() is Some && source(
                        copies@,
                        old_cf.condition()->0,
                    ) != old_cf.condition()->0));
                    lemma_advance_sum(c0, inlined_upto(copies@, views, views.len()), 1);
                    lemma_advance_sum(
                        old(counter)@,
                        blocks_inlined(copies@, p0.blocks, p0.nodes, b as nat),
                        block_inlined(copies@, p0.blocks[b as int]),
                    );
                }
                let block = &mut self.blocks[b];
                block.ops = made;
                block.control_flow = control_flow;
                proof {
                    assert(self.blocks@[b as int]@.ops =~= p0.substitute_block(b as int).ops);
                }
            }
            b += 1;
        }
        proof {
            assert(self@.blocks =~= p0.substitute_copies().blocks);
        }
    }

    /// Makes a copy of every phi node that has just one entry, and counts
    /// them.
    pub fn demote_phis(&mut self, counter: &mut AtomicCounter)
        requires
            old(self).wf(),
        ensures
            final(self).wf(),
            final(self)@ == old(self)@.demote_phis(),
            final(counter)@ == AtomicCounter::advance(old(counter)@, old(self)@.demotions()),
    {
        let ghost p0 = self@;
        proof {
            self.lemma_view_wf();
        }
        let n = self.blocks.len();
        let mut b: usize = 0;
        while b < n
            invariant
                b <= n,
                n == self.blocks@.len(),
                n == p0.blocks.len(),
                n <= u32::MAX,
                p0 == old(self)@,
                self.graph == old(self).graph,
                self.variables == old(self).variables,
                self.slices == old(self).slices,
                self.root == old(self).root,
                self.int_ranges == old(self).int_ranges,
                forall|j: int| 0 <= j < b ==> (#[trigger] self.blocks@[j])@ == p0.demote_block(j),
                forall|j: int| b <= j < n ==> (#[trigger] self.blocks@[j])@ == p0.blocks[j],
                counter@ == AtomicCounter::advance(
                    old(counter)@,
                    demoted_upto(p0.blocks, p0.nodes, b as nat),
                ),
            decreases n - b,
        {
            if self.graph.contains_node(b as u32) {
                let ghost views = p0.blocks[b as int].phi_nodes;
                let ghost old_ops = p0.blocks[b as int].ops;
                let ghost c0 = counter@;
                let phis = &self.blocks[b].phi_nodes;
                let mut kept: Vec<PhiInstruction> = Vec::new();
                let mut made: Vec<Instruction> = Vec::new();
                let mut i: usize = 0;
                assert(phi_views(kept@) =~= kept_phis(views.take(0)));
                assert(instruction_views(made@) =~= demoted_phis(views.take(0)));
                while i < phis.len()
                    invariant
                        i <= phis.len(),
                        views == phi_views(phis@),
                        phi_views(kept@) == kept_phis(views.take(i as int)),
                        instruction_views(made@) == demoted_phis(views.take(i as int)),
                        counter@ == AtomicCounter::advance(
                            c0,
                            demoted_phis(views.take(i as int)).len(),
                        ),
                    decreases phis.len() - i,
                {
                    proof {
                        assert(views.take(i + 1).drop_last() =~= views.take(i as int));
                        assert(views.take(i + 1).last() == phis@[i as int]@);
                    }
                    let phi = &phis[i];
                    if phi.entries.len() == 1 {
                        let ghost before = instruction_views(made@);
                        let op = Instruction::unary(OpKind::Assign, phi.entries[0].1, phi.out);
                        let ghost view = op@;
                        made.push(op);
                        counter.inc();
                        proof {
                            assert(instruction_views(made@) =~= before.push(view));
                        }
                    } else {
                        let ghost before = phi_views(kept@);
                        let copy = PhiInstruction {
                            out: phi.out,
                            entries: copy_entries(&phi.entries),
                        };
                        let ghost view = copy@;
                        kept.push(copy);
                        proof {
                            assert(phi_views(kept@) =~= before.push(view));
                        }
                    }
                    i += 1;
                }
                proof {
                    assert(views.take(i as int) =~= views);
                }
                let ops = &self.blocks[b].ops;
                let ghost front = instruction_views(made@);
                let mut j: usize = 0;
                assert(instruction_views(made@) =~= front + old_ops.take(0));
                while j < ops.len()
                    invariant
                        j <= ops.len(),
                        old_ops == instruction_views(ops@),
                        instruction_views(made@) == front + old_ops.take(j as int),
                    decreases ops.len() - j,
                {
                    let ghost before = instruction_views(made@);
                    let op = ops[j].duplicate();
                    let ghost view = op@;
                    made.push(op);
                    proof {
                        assert(instruction_views(made@) =~= before.push(view));
                        assert(old_ops.take(j + 1) =~= old_ops.take(j as int).push(
                            old_ops[j as int],
                        ));
                        assert(instruction_views(made@) =~= front + old_ops.take(j + 1));
                    }
                    j += 1;
                }
                proof {
                    assert(old_ops.take(j as int) =~= old_ops);
                    lemma_advance_sum(
                        old(counter)@,
                        demoted_upto(p0.blocks, p0.nodes, b as nat),
                        demoted_phis(views).len(),
                    );
                }
                let block = &mut self.blocks[b];
                block.phi_nodes = kept;
                block.ops = made;
            }
            b += 1;
        }
        proof {
            assert(self@.blocks =~= p0.demote_phis().blocks);
        }
    }

    /// Inlines assignments: phi nodes with one entry become copies, sources
    /// are read in the place of plain copies, and the copies that nobody
    /// reads any more are removed. Counts the changes.
    pub fn inline_assignments(&mut self, counter: &mut AtomicCounter)
        requires
            old(self).wf(),
        ensures
            final(self).wf(),
            final(self)@ == old(self)@.inline_assignments(),
            final(counter)@ == AtomicCounter::advance(old(counter)@, old(self)@.inlined()),
    {
        self.demote_phis(counter);
        self.substitute_copies(counter);
        proof {
            let stage1 = old(self)@.demote_phis();
            lemma_advance_sum(old(counter)@, old(self)@.demotions(), stage1.substitutions());
            lemma_advance_sum(
                old(counter)@,
                old(self)@.demotions() + stage1.substitutions(),
                stage1.substitute_copies().unused(true),
            );
        }
        self.eliminate_unused(true, counter);
    }
}

} // verus!
