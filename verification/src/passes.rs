//! The optimization passes, and how each is applied to a program.

use crate::block::{block_views, BasicBlock, BlockView};
use crate::counter::AtomicCounter;
use crate::instruction::{instruction_views, Instruction, InstructionView, OpKind};
use crate::ir::{VarId, VarKey, Variable};
use crate::program::{CubeDim, Program, ProgramView, Range, Slice};
use crate::guards::{guarded_upper, guards_of, upper_by_guards, Guard};
use crate::phi_frontiers::idoms_of;
use crate::range::{is_inside, provably_inside};
use crate::rewrite::{
    const_eval, const_eval_at, copy_transform, copy_transform_at, merge_same, merge_same_at,
    option_view, remove_index_scalar, remove_index_scalar_at, simplify, simplify_at,
};
use vstd::prelude::*;

verus! {

/// A pass that rewrites one instruction at a time.
#[derive(Clone, Copy, Debug, PartialEq, Eq, Structural)]
pub enum Rule {
    ConstEval,
    ConstOperandSimplify,
    MergeSameExpressions,
    RemoveIndexScalar,
    CopyTransform,
    InBoundsToUnchecked,
}

/// What a rule may look up besides the block that it works on.
pub struct Facts {
    pub ranges: Seq<(VarId, Range)>,
    pub slices: Seq<(VarKey, Slice)>,
    pub dim: CubeDim,
    pub idoms: Seq<Option<u32>>,
    pub guards: Seq<Option<Guard>>,
}

impl Facts {
    /// The upper bound that the guards give `v` in block `b`.
    pub open spec fn guard(self, b: u32, v: Variable) -> Option<i64> {
        guarded_upper(self.ranges, self.dim, self.idoms, self.guards, b, v, self.guards.len())
    }
}

/// Removal of bounds checks: an access whose index is known to lie inside
/// what it indexes is the same access without a check.
pub open spec fn in_bounds(facts: Facts, b: u32, op: InstructionView) -> Option<InstructionView> {
    if op.kind == OpKind::Index && op.args.len() == 2 && provably_inside(
        facts.ranges,
        facts.slices,
        facts.dim,
        op.args[0],
        op.args[1],
        facts.guard(b, op.args[1]),
    ) {
        Some(InstructionView { kind: OpKind::UncheckedIndex, ..op })
    } else if op.kind == OpKind::IndexAssign && op.args.len() == 2 && op.out is Some
        && provably_inside(
        facts.ranges,
        facts.slices,
        facts.dim,
        op.out->0,
        op.args[0],
        facts.guard(b, op.args[0]),
    ) {
        Some(InstructionView { kind: OpKind::UncheckedIndexAssign, ..op })
    } else {
        None
    }
}

/// What a rule makes of the instruction at place `j` of block `b`, if it
/// changes it.
pub open spec fn rewritten(rule: Rule, facts: Facts, b: u32, ops: Seq<InstructionView>, j: int) -> Option<
    InstructionView,
> {
    match rule {
        Rule::ConstEval => const_eval(ops[j]),
        Rule::ConstOperandSimplify => simplify(ops[j]),
        Rule::MergeSameExpressions => merge_same(ops, j),
        Rule::RemoveIndexScalar => remove_index_scalar(ops, j),
        Rule::CopyTransform => copy_transform(ops, j),
        Rule::InBoundsToUnchecked => in_bounds(facts, b, ops[j]),
    }
}

/// The instructions of a block after a rule: each is what the rule makes of
/// it, or itself.
pub open spec fn rewrite_ops(rule: Rule, facts: Facts, b: u32, ops: Seq<InstructionView>) -> Seq<
    InstructionView,
> {
    Seq::new(
        ops.len(),
        |j: int|
            match rewritten(rule, facts, b, ops, j) {
                Some(op) => op,
                None => ops[j],
            },
    )
}

/// The number of instructions below place `m` that a rule changes.
pub open spec fn changes_upto(rule: Rule, facts: Facts, b: u32, ops: Seq<InstructionView>, m: nat) -> nat
    decreases m,
{
    if m == 0 {
        0
    } else {
        changes_upto(rule, facts, b, ops, (m - 1) as nat) + if rewritten(
            rule,
            facts,
            b,
            ops,
            m - 1,
        ) is Some {
            1nat
        } else {
            0nat
        }
    }
}

/// The number of instructions that a rule changes in the blocks below `m`;
/// a block that is no node counts for nothing.
pub open spec fn block_changes_upto(
    rule: Rule,
    facts: Facts,
    blocks: Seq<BlockView>,
    nodes: Set<u32>,
    m: nat,
) -> nat
    decreases m,
{
    if m == 0 {
        0
    } else {
        block_changes_upto(rule, facts, blocks, nodes, (m - 1) as nat) + if m <= blocks.len()
            && nodes.contains((m - 1) as u32) {
            changes_upto(rule, facts, (m - 1) as u32, blocks[m - 1].ops, blocks[m - 1].ops.len())
        } else {
            0
        }
    }
}

impl ProgramView {
    /// What a rule may look up in the program; dominators and guards are
    /// there for the removal of bounds checks alone.
    pub open spec fn facts(self, rule: Rule, dim: CubeDim) -> Facts {
        Facts {
            ranges: self.int_ranges,
            slices: self.slices,
            dim,
            idoms: if rule == Rule::InBoundsToUnchecked {
                idoms_of(self)
            } else {
                Seq::empty()
            },
            guards: if rule == Rule::InBoundsToUnchecked {
                guards_of(self)
            } else {
                Seq::empty()
            },
        }
    }

    /// Block `b` after a rule; a block that is no node stays as it is.
    pub open spec fn rewrite_block(self, rule: Rule, dim: CubeDim, b: int) -> BlockView {
        if self.nodes.contains(b as u32) {
            BlockView {
                ops: rewrite_ops(rule, self.facts(rule, dim), b as u32, self.blocks[b].ops),
                ..self.blocks[b]
            }
        } else {
            self.blocks[b]
        }
    }

    /// The program after a rule was applied to every instruction.
    pub open spec fn rewrite(self, rule: Rule, dim: CubeDim) -> ProgramView {
        ProgramView {
            blocks: Seq::new(self.blocks.len(), |b: int| self.rewrite_block(rule, dim, b)),
            ..self
        }
    }

    /// The number of instructions that a rule changes.
    pub open spec fn rewrite_changes(self, rule: Rule, dim: CubeDim) -> nat {
        block_changes_upto(rule, self.facts(rule, dim), self.blocks, self.nodes, self.blocks.len())
    }
}

/// What a rule makes of the instruction at place `j` of a block.
pub fn rewrite_at(
    rule: Rule,
    ranges: &Vec<(VarId, Range)>,
    slices: &Vec<(VarKey, Slice)>,
    dim: CubeDim,
    idoms: &Vec<Option<u32>>,
    guards: &Vec<Option<Guard>>,
    b: u32,
    ops: &Vec<Instruction>,
    j: usize,
) -> (made: Option<Instruction>)
    requires
        j < ops@.len(),
    ensures
        option_view(made) == rewritten(
            rule,
            Facts { ranges: ranges@, slices: slices@, dim, idoms: idoms@, guards: guards@ },
            b,
            instruction_views(ops@),
            j as int,
        ),
{
    match rule {
        Rule::ConstEval => const_eval_at(&ops[j]),
        Rule::ConstOperandSimplify => simplify_at(&ops[j]),
        Rule::MergeSameExpressions => merge_same_at(ops, j),
        Rule::RemoveIndexScalar => remove_index_scalar_at(ops, j),
        Rule::CopyTransform => copy_transform_at(ops, j),
        Rule::InBoundsToUnchecked => {
            let op = &ops[j];
            let reading = match op.kind {
                OpKind::Index => true,
                _ => false,
            };
            let writing = match op.kind {
                OpKind::IndexAssign => true,
                _ => false,
            };
            if reading && op.args.len() == 2 && is_inside(
                ranges,
                slices,
                dim,
                &op.args[0],
                &op.args[1],
                upper_by_guards(ranges, dim, idoms, guards, b, &op.args[1]),
            ) {
                let mut made = op.duplicate();
                made.kind = OpKind::UncheckedIndex;
                Some(made)
            } else if writing && op.args.len() == 2 {
                match op.out {
                    Some(array) => {
                        if is_inside(
                            ranges,
                            slices,
                            dim,
                            &array,
                            &op.args[0],
                            upper_by_guards(ranges, dim, idoms, guards, b, &op.args[0]),
                        ) {
                            let mut made = op.duplicate();
                            made.kind = OpKind::UncheckedIndexAssign;
                            Some(made)
                        } else {
                            None
                        }
                    },
                    None => None,
                }
            } else {
                None
            }
        },
    }
}

/// Applies a rule to every instruction of a block, and counts the changes.
pub fn rewrite_block_ops(
    rule: Rule,
    ranges: &Vec<(VarId, Range)>,
    slices: &Vec<(VarKey, Slice)>,
    dim: CubeDim,
    idoms: &Vec<Option<u32>>,
    guards: &Vec<Option<Guard>>,
    b: u32,
    ops: &Vec<Instruction>,
    counter: &mut AtomicCounter,
) -> (made: Vec<Instruction>)
    ensures
        instruction_views(made@) == rewrite_ops(
            rule,
            Facts { ranges: ranges@, slices: slices@, dim, idoms: idoms@, guards: guards@ },
            b,
            instruction_views(ops@),
        ),
        final(counter)@ == AtomicCounter::advance(
            old(counter)@,
            changes_upto(
                rule,
                Facts { ranges: ranges@, slices: slices@, dim, idoms: idoms@, guards: guards@ },
                b,
                instruction_views(ops@),
                ops@.len(),
            ),
        ),
{
    let ghost facts = Facts {
        ranges: ranges@,
        slices: slices@,
        dim,
        idoms: idoms@,
        guards: guards@,
    };
    let ghost views = instruction_views(ops@);
    let mut made: Vec<Instruction> = Vec::new();
    let mut j: usize = 0;
    while j < ops.len()
        invariant
            j <= ops.len(),
            views == instruction_views(ops@),
            facts == (Facts {
                ranges: ranges@,
                slices: slices@,
                dim,
                idoms: idoms@,
                guards: guards@,
            }),
            made@.len() == j,
            forall|t: int|
                0 <= t < j ==> (#[trigger] made@[t])@ == rewrite_ops(rule, facts, b, views)[t],
            counter@ == AtomicCounter::advance(
                old(counter)@,
                changes_upto(rule, facts, b, views, j as nat),
            ),
        decreases ops.len() - j,
    {
        match rewrite_at(rule, ranges, slices, dim, idoms, guards, b, ops, j) {
            Some(op) => {
                made.push(op);
                counter.inc();
            },
            None => {
                made.push(ops[j].duplicate());
            },
        }
        j += 1;
    }
    proof {
        assert(instruction_views(made@) =~= rewrite_ops(rule, facts, b, views));
    }
    made
}

impl Program {
    /// Applies a rule to every instruction of the program, and counts the
    /// changes.
    pub fn apply_rule(&mut self, rule: Rule, dim: CubeDim, counter: &mut AtomicCounter)
        requires
            old(self).wf(),
            old(self)@.nodes.contains(old(self)@.root),
        ensures
            final(self).wf(),
            final(self)@ == old(self)@.rewrite(rule, dim),
            final(counter)@ == AtomicCounter::advance(
                old(counter)@,
                old(self)@.rewrite_changes(rule, dim),
            ),
    {
        let ghost p0 = self@;
        let ghost facts = p0.facts(rule, dim);
        proof {
            self.lemma_view_wf();
        }
        let n = self.blocks.len();
        let checks = match rule {
            Rule::InBoundsToUnchecked => true,
            _ => false,
        };
        let idoms: Vec<Option<u32>> = if checks {
            self.graph.immediate_dominators(self.root)
        } else {
            Vec::new()
        };
        let guards: Vec<Option<Guard>> = if checks {
            self.collect_guards()
        } else {
            Vec::new()
        };
        proof {
            assert(idoms@ =~= facts.idoms);
            assert(guards@ =~= facts.guards);
        }
        let mut b: usize = 0;
        while b < n
            invariant
                b <= n,
                n == self.blocks@.len(),
                n == p0.blocks.len(),
                n <= u32::MAX,
                p0 == old(self)@,
                facts == p0.facts(rule, dim),
                idoms@ == facts.idoms,
                guards@ == facts.guards,
                self.graph == old(self).graph,
                self.variables == old(self).variables,
                self.slices == old(self).slices,
                self.root == old(self).root,
                self.int_ranges == old(self).int_ranges,
                forall|j: int|
                    0 <= j < b ==> (#[trigger] self.blocks@[j])@ == p0.rewrite_block(rule, dim, j),
                forall|j: int| b <= j < n ==> (#[trigger] self.blocks@[j])@ == p0.blocks[j],
                counter@ == AtomicCounter::advance(
                    old(counter)@,
                    block_changes_upto(rule, facts, p0.blocks, p0.nodes, b as nat),
                ),
            decreases n - b,
        {
            if self.graph.contains_node(b as u32) {
                let ghost before = counter@;
                let ghost count = changes_upto(
                    rule,
                    facts,
                    b as u32,
                    p0.blocks[b as int].ops,
                    p0.blocks[b as int].ops.len(),
                );
                let made = rewrite_block_ops(
                    rule,
                    &self.int_ranges,
                    &self.slices,
                    dim,
                    &idoms,
                    &guards,
                    b as u32,
                    &self.blocks[b].ops,
                    counter,
                );
                let block = &mut self.blocks[b];
                block.ops = made;
                proof {
                    lemma_advance_sum(
                        old(counter)@,
                        block_changes_upto(rule, facts, p0.blocks, p0.nodes, b as nat),
                        count,
                    );
                }
            }
            b += 1;
        }
        proof {
            assert(self@.blocks =~= p0.rewrite(rule, dim).blocks);
        }
    }
}

/// Advancing a counter by two numbers one after the other advances it by
/// their sum.
pub proof fn lemma_advance_sum(count: nat, a: nat, b: nat)
    ensures
        AtomicCounter::advance(AtomicCounter::advance(count, a), b) == AtomicCounter::advance(
            count,
            a + b,
        ),
    decreases b,
{
    if b > 0 {
        lemma_advance_sum(count, a, (b - 1) as nat);
    }
}

} // verus!
