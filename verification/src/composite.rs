//! Merging of item-wise assignments: the assignments that fill every lane
//! of a vector, one behind the other, become one.

use crate::block::{block_views, BasicBlock, BlockView};
use crate::counter::AtomicCounter;
use crate::instruction::{instruction_views, Instruction, InstructionView, OpKind};
use crate::ir::{ConstantValue, Variable};
use crate::passes::lemma_advance_sum;
use crate::program::{Program, ProgramView};
use vstd::prelude::*;

verus! {

/// Whether `op` assigns `value` to lane `k` of the vector `v`, where
/// `value` is not `v` itself.
pub open spec fn fills_lane(op: InstructionView, v: Variable, k: int) -> bool {
    &&& op.kind == OpKind::IndexAssign
    &&& op.out == Some(v)
    &&& op.args.len() == 2
    &&& op.args[0] == Variable::ConstantScalar(ConstantValue::UInt(k as u64))
    &&& op.args[1] != v
}

/// The number of lanes of the vector that the instruction at place `i`
/// assigns to, if it is a local with two lanes or more.
pub open spec fn lanes_at(ops: Seq<InstructionView>, i: int) -> int {
    if 0 <= i < ops.len() {
        match ops[i].out {
            Some(Variable::Local { item, .. }) => if item.vectorization >= 2 {
                item.vectorization as int
            } else {
                0
            },
            _ => 0,
        }
    } else {
        0
    }
}

/// Whether the `n` instructions from place `i` on fill the lanes 0 to
/// `n - 1` of one vector, in this order.
pub open spec fn fills_from(ops: Seq<InstructionView>, i: int, n: int) -> bool {
    &&& 0 <= i
    &&& i + n <= ops.len()
    &&& forall|k: int| 0 <= k < n ==> fills_lane(#[trigger] ops[i + k], ops[i].out->0, k)
}

/// Whether a vector is filled from place `i` on: it has `lanes_at` lanes,
/// and as many instructions fill them.
pub open spec fn window_at(ops: Seq<InstructionView>, i: int) -> bool {
    lanes_at(ops, i) >= 2 && fills_from(ops, i, lanes_at(ops, i))
}

/// The one assignment that fills all lanes of the vector at once.
pub open spec fn composite_at(ops: Seq<InstructionView>, i: int) -> InstructionView {
    InstructionView {
        kind: OpKind::Composite,
        out: ops[i].out,
        args: Seq::new(lanes_at(ops, i) as nat, |k: int| ops[i + k].args[1]),
    }
}

/// The instructions from place `i` on, with every filled vector in one
/// assignment.
pub open spec fn merged_from(ops: Seq<InstructionView>, i: int) -> Seq<InstructionView>
    decreases ops.len() - i,
{
    if i < 0 || i >= ops.len() {
        Seq::empty()
    } else if window_at(ops, i) {
        seq![composite_at(ops, i)] + merged_from(ops, i + lanes_at(ops, i))
    } else {
        seq![ops[i]] + merged_from(ops, i + 1)
    }
}

/// The number of vectors that are filled from place `i` on.
pub open spec fn merges_from(ops: Seq<InstructionView>, i: int) -> nat
    decreases ops.len() - i,
{
    if i < 0 || i >= ops.len() {
        0
    } else if window_at(ops, i) {
        1 + merges_from(ops, i + lanes_at(ops, i))
    } else {
        merges_from(ops, i + 1)
    }
}

/// The number of vectors that are filled in the blocks below `m`.
pub open spec fn merges_upto(blocks: Seq<BlockView>, nodes: Set<u32>, m: nat) -> nat
    decreases m,
{
    if m == 0 {
        0
    } else {
        merges_upto(blocks, nodes, (m - 1) as nat) + if m <= blocks.len() && nodes.contains(
            (m - 1) as u32,
        ) {
            merges_from(blocks[m - 1].ops, 0)
        } else {
            0
        }
    }
}

impl ProgramView {
    /// Block `b` with every filled vector in one assignment.
    pub open spec fn merge_block(self, b: int) -> BlockView {
        if self.nodes.contains(b as u32) {
            BlockView { ops: merged_from(self.blocks[b].ops, 0), ..self.blocks[b] }
        } else {
            self.blocks[b]
        }
    }

    /// The program with every filled vector in one assignment.
    pub open spec fn composite_merge(self) -> ProgramView {
        ProgramView {
            blocks: Seq::new(self.blocks.len(), |b: int| self.merge_block(b)),
            ..self
        }
    }

    /// The number of vectors that are filled lane by lane.
    pub open spec fn composites(self) -> nat {
        merges_upto(self.blocks, self.nodes, self.blocks.len())
    }
}

/// Whether a vector is filled from place `i` on, and with how many lanes.
pub fn find_window(ops: &Vec<Instruction>, i: usize) -> (lanes: Option<usize>)
    requires
        i < ops@.len(),
    ensures
        match lanes {
            Some(n) => window_at(instruction_views(ops@), i as int) && n == lanes_at(
                instruction_views(ops@),
                i as int,
            ),
            None => !window_at(instruction_views(ops@), i as int),
        },
{
    let ghost views = instruction_views(ops@);
    let (v, n) = match ops[i].out {
        Some(Variable::Local { id, depth, item }) => {
            if item.vectorization >= 2 {
                (Variable::Local { id, depth, item }, item.vectorization as usize)
            } else {
                return None;
            }
        },
        _ => return None,
    };
    if n > ops.len() - i {
        return None;
    }
    let mut k: usize = 0;
    while k < n
        invariant
            k <= n,
            i + n <= ops@.len(),
            ops@.len() <= usize::MAX,
            n == lanes_at(views, i as int),
            views == instruction_views(ops@),
            views[i as int].out == Some(v),
            forall|t: int| 0 <= t < k ==> fills_lane(#[trigger] views[i + t], v, t),
        decreases n - k,
    {
        let op = &ops[i + k];
        let assigns = match op.kind {
            OpKind::IndexAssign => true,
            _ => false,
        };
        let same = match op.out {
            Some(out) => out == v,
            None => false,
        };
        if !(assigns && same && op.args.len() == 2) {
            proof {
                assert(!fills_lane(views[i + k], v, k as int));
            }
            return None;
        }
        let at_lane = match op.args[0] {
            Variable::ConstantScalar(ConstantValue::UInt(c)) => c == k as u64,
            _ => false,
        };
        if !at_lane || op.args[1] == v {
            proof {
                assert(!fills_lane(views[i + k], v, k as int));
            }
            return None;
        }
        k += 1;
    }
    Some(n)
}

/// Merges the filled vectors of a block, and counts them.
pub fn merge_ops(ops: &Vec<Instruction>, counter: &mut AtomicCounter) -> (made: Vec<Instruction>)
    ensures
        instruction_views(made@) == merged_from(instruction_views(ops@), 0),
        final(counter)@ == AtomicCounter::advance(
            old(counter)@,
            merges_from(instruction_views(ops@), 0),
        ),
{
    let ghost views = instruction_views(ops@);
    let mut made: Vec<Instruction> = Vec::new();
    let ghost mut done: nat = 0;
    let mut i: usize = 0;
    assert(instruction_views(made@) + merged_from(views, 0) =~= merged_from(views, 0));
    while i < ops.len()
        invariant
            i <= ops.len(),
            views == instruction_views(ops@),
            instruction_views(made@) + merged_from(views, i as int) == merged_from(views, 0),
            counter@ == AtomicCounter::advance(old(counter)@, done),
            done + merges_from(views, i as int) == merges_from(views, 0),
        decreases ops.len() - i,
    {
        let ghost before = instruction_views(made@);
        match find_window(ops, i) {
            Some(n) => {
                let mut args: Vec<Variable> = Vec::new();
                let mut k: usize = 0;
                while k < n
                    invariant
                        k <= n,
                        i + n <= ops@.len(),
                        ops@.len() <= usize::MAX,
                        views == instruction_views(ops@),
                        fills_from(views, i as int, n as int),
                        args@.len() == k,
                        forall|t: int| 0 <= t < k ==> #[trigger] args@[t] == views[i + t].args[1],
                    decreases n - k,
                {
                    proof {
                        assert(fills_lane(views[i + k], views[i as int].out->0, k as int));
                    }
                    args.push(ops[i + k].args[1]);
                    k += 1;
                }
                let op = Instruction { kind: OpKind::Composite, out: ops[i].out, args };
                proof {
                    assert(op@.args =~= composite_at(views, i as int).args);
                }
                let ghost view = op@;
                made.push(op);
                counter.inc();
                proof {
                    assert(instruction_views(made@) =~= before.push(view));
                    assert(instruction_views(made@) + merged_from(views, i + n) =~= before
                        + merged_from(views, i as int));
                    lemma_advance_sum(old(counter)@, done, 1);
                    done = done + 1;
                }
                i += n;
            },
            None => {
                let op = ops[i].duplicate();
                let ghost view = op@;
                made.push(op);
                proof {
                    assert(instruction_views(made@) =~= before.push(view));
                    assert(instruction_views(made@) + merged_from(views, i + 1) =~= before
                        + merged_from(views, i as int));
                }
                i += 1;
            },
        }
    }
    proof {
        assert(instruction_views(made@) + Seq::<InstructionView>::empty() =~= instruction_views(
            made@,
        ));
    }
    made
}

impl Program {
    /// Merges the assignments that fill a vector lane by lane into one
    /// assignment each, and counts them.
    pub fn composite_merge(&mut self, counter: &mut AtomicCounter)
        requires
            old(self).wf(),
        ensures
            final(self).wf(),
            final(self)@ == old(self)@.composite_merge(),
            final(counter)@ == AtomicCounter::advance(old(counter)@, old(self)@.composites()),
    {
        let ghost p0 = self@;
        proof {
            self.lemma_view_wf();
        }
        let n = self.blocks.len();
        let mut b: usize = 0;
        while b < n
            invariant
                b <= n,
                n == self.blocks@.len(),
                n == p0.blocks.len(),
                n <= u32::MAX,
                p0 == old(self)@,
                self.graph == old(self).graph,
                self.variables == old(self).variables,
                self.slices == old(self).slices,
                self.root == old(self).root,
                self.int_ranges == old(self).int_ranges,
                forall|j: int| 0 <= j < b ==> (#[trigger] self.blocks@[j])@ == p0.merge_block(j),
                forall|j: int| b <= j < n ==> (#[trigger] self.blocks@[j])@ == p0.blocks[j],
                counter@ == AtomicCounter::advance(
                    old(counter)@,
                    merges_upto(p0.blocks, p0.nodes, b as nat),
                ),
            decreases n - b,
        {
            if self.graph.contains_node(b as u32) {
                let made = merge_ops(&self.blocks[b].ops, counter);
                proof {
                    lemma_advance_sum(
                        old(counter)@,
                        merges_upto(p0.blocks, p0.nodes, b as nat),
                        merges_from(p0.blocks[b as int].ops, 0),
                    );
                }
                let block = &mut self.blocks[b];
                block.ops = made;
            }
            b += 1;
        }
        proof {
            assert(self@.blocks =~= p0.composite_merge().blocks);
        }
    }
}

} // verus!
