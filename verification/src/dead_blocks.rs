//! Removal of the blocks that cannot be reached from the entry block.

use crate::block::{block_views, phi_views, BasicBlock, BlockView, PhiInstruction, PhiView};
use crate::closure::{adjacency, close, flagged, reached};
use crate::counter::AtomicCounter;
use crate::graph::{arcs_without_node, successors_of, NodeId};
use crate::ir::Variable;
use crate::optimizer::{Optimizer, OptimizerView};
use crate::passes::lemma_advance_sum;
use crate::program::{Program, ProgramView};
use vstd::prelude::*;

verus! {

/// The entries without those for the block `from`.
pub open spec fn entries_without(entries: Seq<(u32, Variable)>, from: u32) -> Seq<(u32, Variable)>
    decreases entries.len(),
{
    if entries.len() == 0 {
        Seq::empty()
    } else if entries.last().0 == from {
        entries_without(entries.drop_last(), from)
    } else {
        entries_without(entries.drop_last(), from).push(entries.last())
    }
}

/// A block whose phi nodes have no entry for the block `from`.
pub open spec fn block_without(block: BlockView, from: u32) -> BlockView {
    BlockView {
        phi_nodes: Seq::new(
            block.phi_nodes.len(),
            |i: int|
                PhiView {
                    out: block.phi_nodes[i].out,
                    entries: entries_without(block.phi_nodes[i].entries, from),
                },
        ),
        ..block
    }
}

/// For each block the set of its successors.
pub open spec fn succ_edges(p: ProgramView) -> Seq<Set<u32>> {
    Seq::new(p.blocks.len(), |b: int| successors_of(p.arcs, b as u32).to_set())
}

/// The blocks that can be reached from the entry block, the entry block
/// among them.
pub open spec fn reachable_blocks(p: ProgramView) -> Set<u32> {
    reached(succ_edges(p), set![p.root], Set::new(|b: u32| b < p.blocks.len())).insert(p.root)
}

impl ProgramView {
    /// The program without the block `d`: its node and the edges at it are
    /// gone, and no phi node has an entry for it.
    pub open spec fn remove_block(self, d: u32) -> ProgramView {
        ProgramView {
            nodes: self.nodes.remove(d),
            arcs: arcs_without_node(self.arcs, d),
            free: self.free.push(d),
            blocks: Seq::new(self.blocks.len(), |b: int| block_without(self.blocks[b], d)),
            ..self
        }
    }

    /// Whether the block `b` is removed as dead: it is a block other than
    /// the return block that is not among `live`.
    pub open spec fn is_dead(self, ret: u32, live: Set<u32>, b: u32) -> bool {
        self.nodes.contains(b) && !live.contains(b) && b != ret
    }

    /// The program without the dead blocks below `m`.
    pub open spec fn without_dead_upto(self, ret: u32, live: Set<u32>, m: nat) -> ProgramView
        decreases m,
    {
        if m == 0 {
            self
        } else {
            let before = self.without_dead_upto(ret, live, (m - 1) as nat);
            if before.is_dead(ret, live, (m - 1) as u32) {
                before.remove_block((m - 1) as u32)
            } else {
                before
            }
        }
    }

    /// The number of dead blocks below `m`.
    pub open spec fn dead_upto(self, ret: u32, live: Set<u32>, m: nat) -> nat
        decreases m,
    {
        if m == 0 {
            0
        } else {
            self.dead_upto(ret, live, (m - 1) as nat) + if self.is_dead(
                ret,
                live,
                (m - 1) as u32,
            ) {
                1nat
            } else {
                0nat
            }
        }
    }

    /// The program without its dead blocks: every block that cannot be
    /// reached from the entry block is removed, but for the return block.
    pub open spec fn eliminate_dead_blocks(self, ret: u32) -> ProgramView {
        self.without_dead_upto(ret, reachable_blocks(self), self.blocks.len())
    }

    /// The number of dead blocks.
    pub open spec fn dead_blocks(self, ret: u32) -> nat {
        self.dead_upto(ret, reachable_blocks(self), self.blocks.len())
    }
}

/// Removing dead blocks leaves the blocks that are not dead, and changes
/// neither the number of block indices nor the entry.
pub proof fn lemma_without_dead(p: ProgramView, ret: u32, live: Set<u32>, m: nat)
    ensures
        p.without_dead_upto(ret, live, m).blocks.len() == p.blocks.len(),
        p.without_dead_upto(ret, live, m).root == p.root,
        forall|b: u32|
            p.without_dead_upto(ret, live, m).nodes.contains(b) <==> p.nodes.contains(b) && !(b < m
                && p.is_dead(ret, live, b)),
    decreases m,
{
    if m > 0 {
        lemma_without_dead(p, ret, live, (m - 1) as nat);
    }
}

/// Takes the entries for the block `from` out of the phi nodes of a block.
pub fn drop_entries(block: &mut BasicBlock, from: NodeId)
    ensures
        final(block)@ == block_without(old(block)@, from),
{
    let n = block.phi_nodes.len();
    let mut i: usize = 0;
    while i < n
        invariant
            i <= n,
            n == block.phi_nodes@.len(),
            n == old(block).phi_nodes@.len(),
            block.ops == old(block).ops,
            block.control_flow == old(block).control_flow,
            block.writes == old(block).writes,
            block.live_vars == old(block).live_vars,
            block.dom_frontiers == old(block).dom_frontiers,
            forall|j: int|
                0 <= j < i ==> (#[trigger] block.phi_nodes@[j])@ == block_without(
                    old(block)@,
                    from,
                ).phi_nodes[j],
            forall|j: int| i <= j < n ==> #[trigger] block.phi_nodes@[j] == old(block).phi_nodes@[j],
        decreases n - i,
    {
        let ghost before = block.phi_nodes@[i as int].entries@;
        let mut kept: Vec<(NodeId, Variable)> = Vec::new();
        let m = block.phi_nodes[i].entries.len();
        let mut j: usize = 0;
        while j < m
            invariant
                j <= m,
                i < n,
                n == block.phi_nodes@.len(),
                m == before.len(),
                before == block.phi_nodes@[i as int].entries@,
                kept@ == entries_without(before.take(j as int), from),
            decreases m - j,
        {
            proof {
                assert(before.take(j + 1).drop_last() =~= before.take(j as int));
                assert(before.take(j + 1).last() == before[j as int]);
            }
            let entry = block.phi_nodes[i].entries[j];
            if entry.0 != from {
                kept.push(entry);
            }
            j += 1;
        }
        proof {
            assert(before.take(j as int) =~= before);
        }
        let phi = &mut block.phi_nodes[i];
        phi.entries = kept;
        i += 1;
    }
    proof {
        assert(block@.phi_nodes =~= block_without(old(block)@, from).phi_nodes);
    }
}

impl Program {
    /// For each block its successors.
    pub fn successor_lists(&self) -> (lists: Vec<Vec<u32>>)
        requires
            self.wf(),
        ensures
            adjacency(lists@) == succ_edges(self@),
            lists@.len() == self@.blocks.len(),
    {
        proof {
            self.lemma_view_wf();
        }
        let n = self.blocks.len();
        let mut lists: Vec<Vec<u32>> = Vec::new();
        let mut b: usize = 0;
        while b < n
            invariant
                b <= n,
                n == self.blocks@.len(),
                n <= u32::MAX,
                lists@.len() == b,
                forall|i: int|
                    0 <= i < b ==> (#[trigger] lists@[i])@ == successors_of(self@.arcs, i as u32),
            decreases n - b,
        {
            lists.push(self.successors(b as u32));
            b += 1;
        }
        assert(adjacency(lists@) =~= succ_edges(self@));
        lists
    }

    /// Removes the block `d` with its edges, and the entries for it from
    /// all phi nodes.
    pub fn remove_block(&mut self, d: NodeId)
        requires
            old(self).wf(),
            old(self)@.nodes.contains(d),
        ensures
            final(self).wf(),
            final(self)@ == old(self)@.remove_block(d),
            final(self).blocks@.len() == old(self).blocks@.len(),
    {
        self.graph.remove_node(d);
        let n = self.blocks.len();
        let mut b: usize = 0;
        while b < n
            invariant
                b <= n,
                n == self.blocks@.len(),
                n == old(self).blocks@.len(),
                self.wf(),
                self.graph.nodes() == old(self)@.nodes.remove(d),
                self.graph.arcs() == arcs_without_node(old(self)@.arcs, d),
                self.graph.free() == old(self)@.free.push(d),
                self.graph.edges_added() == old(self)@.edges_added,
                self.variables == old(self).variables,
                self.slices == old(self).slices,
                self.root == old(self).root,
                self.int_ranges == old(self).int_ranges,
                forall|j: int|
                    0 <= j < b ==> (#[trigger] self.blocks@[j])@ == block_without(
                        old(self)@.blocks[j],
                        d,
                    ),
                forall|j: int| b <= j < n ==> #[trigger] self.blocks@[j] == old(self).blocks@[j],
            decreases n - b,
        {
            let block = &mut self.blocks[b];
            drop_entries(block, d);
            b += 1;
        }
        proof {
            assert(self@.blocks =~= old(self)@.remove_block(d).blocks);
        }
    }

    /// Removes every block that cannot be reached from the entry block, but
    /// for the return block `ret`, and counts the removed blocks.
    pub fn eliminate_dead_blocks(&mut self, ret: NodeId, counter: &mut AtomicCounter)
        requires
            old(self).wf(),
        ensures
            final(self).wf(),
            final(self)@ == old(self)@.eliminate_dead_blocks(ret),
            final(counter)@ == AtomicCounter::advance(
                old(counter)@,
                old(self)@.dead_blocks(ret),
            ),
    {
        let ghost p0 = self@;
        proof {
            self.lemma_view_wf();
        }
        let succs = self.successor_lists();
        let n = self.blocks.len();
        let mut seeds: Vec<u32> = Vec::new();
        seeds.push(self.root);
        let allowed: Vec<bool> = vec![true; n];
        proof {
            Seq::<u32>::empty().lemma_push_to_set_commute(self.root);
            assert(seeds@ =~= Seq::<u32>::empty().push(self.root));
            assert(Seq::<u32>::empty().to_set() =~= Set::<u32>::empty());
            assert(seeds@.to_set() =~= set![self.root]);
            assert(flagged(allowed@) =~= Set::new(|b: u32| b < p0.blocks.len()));
        }
        let marks = close(&succs, &seeds, &allowed);
        let ghost live = reachable_blocks(p0);
        let root = self.root;
        let mut b: usize = 0;
        while b < n
            invariant
                b <= n,
                n == self.blocks@.len(),
                n == p0.blocks.len(),
                n <= u32::MAX,
                marks@.len() == n,
                root == p0.root,
                self.wf(),
                p0 == old(self)@,
                live == reachable_blocks(p0),
                flagged(marks@).insert(root) == live,
                self@ == p0.without_dead_upto(ret, live, b as nat),
                counter@ == AtomicCounter::advance(old(counter)@, p0.dead_upto(ret, live, b as nat)),
            decreases n - b,
        {
            proof {
                lemma_without_dead(p0, ret, live, b as nat);
                assert(flagged(marks@).contains(b as u32) <==> marks@[b as int]);
                assert(live.contains(b as u32) <==> (flagged(marks@).contains(b as u32) || b
                    == root));
                lemma_advance_sum(old(counter)@, p0.dead_upto(ret, live, b as nat), 1);
            }
            if self.graph.contains_node(b as u32) && !marks[b] && b as u32 != root && b as u32
                != ret {
                self.remove_block(b as u32);
                counter.inc();
            }
            b += 1;
        }
    }
}

} // verus!
