//! Removal of branches whose condition is a constant.

use crate::block::{block_views, BasicBlock, BlockView, ControlFlow, ControlFlowView, PhiView};
use crate::counter::AtomicCounter;
use crate::graph::{newest_arc, NodeId};
use crate::ir::{ConstantValue, Variable};
use crate::passes::lemma_advance_sum;
use crate::program::{Program, ProgramView};
use vstd::prelude::*;

verus! {

/// The place of the first entry for the block `from`, or -1.
pub open spec fn first_entry(entries: Seq<(u32, Variable)>, from: u32) -> int
    decreases entries.len(),
{
    if entries.len() == 0 {
        -1
    } else {
        let p = first_entry(entries.drop_last(), from);
        if p >= 0 {
            p
        } else if entries.last().0 == from {
            entries.len() - 1
        } else {
            -1
        }
    }
}

/// The entries without the first entry for the block `from`.
pub open spec fn entries_less_one(entries: Seq<(u32, Variable)>, from: u32) -> Seq<
    (u32, Variable),
> {
    let p = first_entry(entries, from);
    if 0 <= p < entries.len() {
        entries.remove(p)
    } else {
        entries
    }
}

/// A block whose phi nodes have one entry less for the block `from`.
pub open spec fn block_less_one(block: BlockView, from: u32) -> BlockView {
    BlockView {
        phi_nodes: Seq::new(
            block.phi_nodes.len(),
            |i: int|
                PhiView {
                    out: block.phi_nodes[i].out,
                    entries: entries_less_one(block.phi_nodes[i].entries, from),
                },
        ),
        ..block
    }
}

/// Where a terminator with a constant condition goes, and where it does
/// not go.
pub open spec fn decided(control_flow: ControlFlowView) -> Option<(u32, u32)> {
    match control_flow {
        ControlFlowView::IfElse {
            cond: Variable::ConstantScalar(ConstantValue::Bool(c)),
            then,
            or_else,
            ..
        } => Some(if c {
            (then, or_else)
        } else {
            (or_else, then)
        }),
        ControlFlowView::Break {
            cond: Variable::ConstantScalar(ConstantValue::Bool(c)),
            body,
            or_break,
        } => Some(if c {
            (body, or_break)
        } else {
            (or_break, body)
        }),
        _ => None,
    }
}

impl ProgramView {
    /// The program without the newest edge from `a` to `b`, if there is one;
    /// the phi nodes of `b` have one entry less for `a`.
    pub open spec fn remove_edge(self, a: u32, b: u32) -> ProgramView {
        let i = newest_arc(self.arcs, a, b);
        if 0 <= i < self.arcs.len() && b < self.blocks.len() {
            ProgramView {
                arcs: self.arcs.remove(i),
                blocks: self.blocks.update(b as int, block_less_one(self.blocks[b as int], a)),
                ..self
            }
        } else {
            self
        }
    }

    /// Whether block `b` ends in a branch with a constant condition.
    pub open spec fn has_const_branch(self, b: u32) -> bool {
        self.nodes.contains(b) && b < self.blocks.len() && decided(
            self.blocks[b as int].control_flow,
        ) is Some
    }

    /// The program with the branch at the end of block `b` decided: the
    /// block falls through to where the branch goes, and the edge to where
    /// it does not go is removed.
    pub open spec fn decide_branch(self, b: u32) -> ProgramView {
        if self.has_const_branch(b) {
            match decided(self.blocks[b as int].control_flow) {
                Some((_, dropped)) => self.set_control_flow(
                    b,
                    ControlFlowView::Fallthrough,
                ).remove_edge(b, dropped),
                None => self,
            }
        } else {
            self
        }
    }

    /// The program with the constant branches of the blocks below `m`
    /// decided.
    pub open spec fn decide_upto(self, m: nat) -> ProgramView
        decreases m,
    {
        if m == 0 {
            self
        } else {
            self.decide_upto((m - 1) as nat).decide_branch((m - 1) as u32)
        }
    }

    /// The number of constant branches in the blocks below `m`.
    pub open spec fn const_branches_upto(self, m: nat) -> nat
        decreases m,
    {
        if m == 0 {
            0
        } else {
            self.const_branches_upto((m - 1) as nat) + if self.decide_upto(
                (m - 1) as nat,
            ).has_const_branch((m - 1) as u32) {
                1nat
            } else {
                0nat
            }
        }
    }

    /// The program with all its constant branches decided.
    pub open spec fn eliminate_const_branches(self) -> ProgramView {
        self.decide_upto(self.blocks.len())
    }

    /// The number of constant branches.
    pub open spec fn const_branches(self) -> nat {
        self.const_branches_upto(self.blocks.len())
    }
}

/// Deciding branches changes neither the blocks that there are, nor their
/// number, nor the entry.
pub proof fn lemma_decide_frame(p: ProgramView, m: nat)
    ensures
        p.decide_upto(m).nodes == p.nodes,
        p.decide_upto(m).root == p.root,
        p.decide_upto(m).blocks.len() == p.blocks.len(),
    decreases m,
{
    if m > 0 {
        lemma_decide_frame(p, (m - 1) as nat);
    }
}

/// Takes the first entry for the block `from` out of each phi node of a
/// block.
pub fn drop_one_entry(block: &mut BasicBlock, from: NodeId)
    ensures
        final(block)@ == block_less_one(old(block)@, from),
{
    let n = block.phi_nodes.len();
    let mut i: usize = 0;
    while i < n
        invariant
            i <= n,
            n == block.phi_nodes@.len(),
            n == old(block).phi_nodes@.len(),
            block.ops == old(block).ops,
            block.control_flow == old(block).control_flow,
            block.writes == old(block).writes,
            block.live_vars == old(block).live_vars,
            block.dom_frontiers == old(block).dom_frontiers,
            forall|j: int|
                0 <= j < i ==> (#[trigger] block.phi_nodes@[j])@ == block_less_one(
                    old(block)@,
                    from,
                ).phi_nodes[j],
            forall|j: int| i <= j < n ==> #[trigger] block.phi_nodes@[j] == old(block).phi_nodes@[j],
        decreases n - i,
    {
        let ghost before = block.phi_nodes@[i as int].entries@;
        let m = block.phi_nodes[i].entries.len();
        let mut found: Option<usize> = None;
        let mut j: usize = 0;
        while j < m && found.is_none()
            invariant
                j <= m,
                i < n,
                n == block.phi_nodes@.len(),
                m == before.len(),
                before == block.phi_nodes@[i as int].entries@,
                match found {
                    Some(p) => p == first_entry(before, from) && p < m,
                    None => first_entry(before.take(j as int), from) == -1,
                },
            decreases m - j, if found is None { 1nat } else { 0nat },
        {
            proof {
                assert(before.take(j + 1).drop_last() =~= before.take(j as int));
                assert(before.take(j + 1).last() == before[j as int]);
            }
            if block.phi_nodes[i].entries[j].0 == from {
                proof {
                    lemma_first_entry_prefix(before, j + 1, from);
                }
                found = Some(j);
            } else {
                j += 1;
            }
        }
        proof {
            if found is None {
                assert(before.take(j as int) =~= before);
            }
        }
        match found {
            Some(p) => {
                let phi = &mut block.phi_nodes[i];
                phi.entries.remove(p);
            },
            None => {},
        }
        i += 1;
    }
    proof {
        assert(block@.phi_nodes =~= block_less_one(old(block)@, from).phi_nodes);
    }
}

/// An entry that is found in the first `n` entries is found at the same
/// place in all of them.
pub proof fn lemma_first_entry_prefix(entries: Seq<(u32, Variable)>, n: int, from: u32)
    requires
        0 <= n <= entries.len(),
        first_entry(entries.take(n), from) >= 0,
    ensures
        first_entry(entries, from) == first_entry(entries.take(n), from),
    decreases entries.len() - n,
{
    if n < entries.len() {
        assert(entries.drop_last().take(n) =~= entries.take(n));
        lemma_first_entry_prefix(entries.drop_last(), n, from);
    } else {
        assert(entries.take(n) =~= entries);
    }
}

impl Program {
    /// Removes the newest edge from `a` to `b`, if there is one, and one
    /// entry for `a` from each phi node of `b`.
    pub fn remove_edge(&mut self, a: NodeId, b: NodeId)
        requires
            old(self).wf(),
        ensures
            final(self).wf(),
            final(self)@ == old(self)@.remove_edge(a, b),
            final(self).blocks@.len() == old(self).blocks@.len(),
    {
        proof {
            crate::graph::lemma_newest_arc(self@.arcs, a, b);
        }
        if (b as usize) < self.blocks.len() {
            if self.graph.remove_edge(a, b) {
                let block = &mut self.blocks[b as usize];
                drop_one_entry(block, a);
                proof {
                    assert(self@.blocks =~= old(self)@.remove_edge(a, b).blocks);
                }
            }
        }
    }

    /// Decides the branch at the end of block `b`, if its condition is a
    /// constant, and says whether it did.
    pub fn decide_branch(&mut self, b: NodeId) -> (changed: bool)
        requires
            old(self).wf(),
        ensures
            final(self).wf(),
            final(self)@ == old(self)@.decide_branch(b),
            changed == old(self)@.has_const_branch(b),
            final(self).blocks@.len() == old(self).blocks@.len(),
    {
        if (b as usize) >= self.blocks.len() || !self.graph.contains_node(b) {
            return false;
        }
        let dropped = match &self.blocks[b as usize].control_flow {
            ControlFlow::IfElse {
                cond: Variable::ConstantScalar(ConstantValue::Bool(c)),
                then,
                or_else,
                ..
            } => Some(if *c {
                *or_else
            } else {
                *then
            }),
            ControlFlow::Break {
                cond: Variable::ConstantScalar(ConstantValue::Bool(c)),
                body,
                or_break,
            } => Some(if *c {
                *or_break
            } else {
                *body
            }),
            _ => None,
        };
        match dropped {
            Some(d) => {
                self.set_control_flow(b, ControlFlow::Fallthrough);
                self.remove_edge(b, d);
                true
            },
            None => false,
        }
    }

    /// Decides every branch whose condition is a constant, and counts them.
    pub fn eliminate_const_branches(&mut self, counter: &mut AtomicCounter)
        requires
            old(self).wf(),
        ensures
            final(self).wf(),
            final(self)@ == old(self)@.eliminate_const_branches(),
            final(counter)@ == AtomicCounter::advance(old(counter)@, old(self)@.const_branches()),
    {
        let ghost p0 = self@;
        proof {
            self.lemma_view_wf();
        }
        let n = self.blocks.len();
        let mut b: usize = 0;
        while b < n
            invariant
                b <= n,
                n == self.blocks@.len(),
                n == p0.blocks.len(),
                n <= u32::MAX,
                self.wf(),
                p0 == old(self)@,
                self@ == p0.decide_upto(b as nat),
                counter@ == AtomicCounter::advance(old(counter)@, p0.const_branches_upto(b as nat)),
            decreases n - b,
        {
            proof {
                lemma_advance_sum(old(counter)@, p0.const_branches_upto(b as nat), 1);
            }
            if self.decide_branch(b as u32) {
                counter.inc();
            }
            b += 1;
        }
    }
}

} // verus!
