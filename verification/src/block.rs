//! Basic blocks: phi nodes, straight-line instructions and one terminator.

use crate::graph::NodeId;
use crate::instruction::{instruction_views, Instruction, InstructionView};
use crate::ir::{VarKey, Variable};
use vstd::prelude::*;

verus! {

/// The terminator of a block: where control goes when the block is done.
#[derive(Debug)]
pub enum ControlFlow {
    /// Falls through to the only successor.
    Fallthrough,
    /// Goes to `then` if `cond` holds and to `or_else` if not; both ways meet
    /// again at `merge`.
    IfElse { cond: Variable, then: NodeId, or_else: NodeId, merge: NodeId },
    /// Goes to the block that stands beside the value of `value`, or to
    /// `default` when none does; all ways meet again at `merge`.
    Switch { value: Variable, default: NodeId, branches: Vec<(u32, NodeId)>, merge: NodeId },
    /// Enters a loop at `body`; a round ends in `continue_target` and the
    /// loop is left for `merge`.
    Loop { body: NodeId, continue_target: NodeId, merge: NodeId },
    /// Inside a loop: goes on with `body` if `cond` holds and leaves the loop
    /// for `or_break` if not.
    Break { cond: Variable, body: NodeId, or_break: NodeId },
    /// Leaves the kernel.
    Return,
}

/// A terminator as a value.
pub enum ControlFlowView {
    Fallthrough,
    IfElse { cond: Variable, then: u32, or_else: u32, merge: u32 },
    Switch { value: Variable, default: u32, branches: Seq<(u32, u32)>, merge: u32 },
    Loop { body: u32, continue_target: u32, merge: u32 },
    Break { cond: Variable, body: u32, or_break: u32 },
    Return,
}

impl View for ControlFlow {
    type V = ControlFlowView;

    open spec fn view(&self) -> ControlFlowView {
        match self {
            ControlFlow::Fallthrough => ControlFlowView::Fallthrough,
            ControlFlow::IfElse { cond, then, or_else, merge } => ControlFlowView::IfElse {
                cond: *cond,
                then: *then,
                or_else: *or_else,
                merge: *merge,
            },
            ControlFlow::Switch { value, default, branches, merge } => ControlFlowView::Switch {
                value: *value,
                default: *default,
                branches: branches@,
                merge: *merge,
            },
            ControlFlow::Loop { body, continue_target, merge } => ControlFlowView::Loop {
                body: *body,
                continue_target: *continue_target,
                merge: *merge,
            },
            ControlFlow::Break { cond, body, or_break } => ControlFlowView::Break {
                cond: *cond,
                body: *body,
                or_break: *or_break,
            },
            ControlFlow::Return => ControlFlowView::Return,
        }
    }
}

impl ControlFlowView {
    /// The terminator with `v` in the place of the variable that it reads,
    /// if it reads one.
    pub open spec fn with_condition(self, v: Variable) -> ControlFlowView {
        match self {
            ControlFlowView::IfElse { then, or_else, merge, .. } => ControlFlowView::IfElse {
                cond: v,
                then,
                or_else,
                merge,
            },
            ControlFlowView::Switch { default, branches, merge, .. } => ControlFlowView::Switch {
                value: v,
                default,
                branches,
                merge,
            },
            ControlFlowView::Break { body, or_break, .. } => ControlFlowView::Break {
                cond: v,
                body,
                or_break,
            },
            other => other,
        }
    }

    /// The variable that the terminator reads, if it reads one.
    pub open spec fn condition(self) -> Option<Variable> {
        match self {
            ControlFlowView::IfElse { cond, .. } => Some(cond),
            ControlFlowView::Switch { value, .. } => Some(value),
            ControlFlowView::Break { cond, .. } => Some(cond),
            _ => None,
        }
    }
}

impl ControlFlow {
    /// The variable that the terminator reads, if it reads one.
    pub fn condition(&self) -> (cond: Option<Variable>)
        ensures
            cond == self@.condition(),
    {
        match self {
            ControlFlow::IfElse { cond, .. } => Some(*cond),
            ControlFlow::Switch { value, .. } => Some(*value),
            ControlFlow::Break { cond, .. } => Some(*cond),
            _ => None,
        }
    }

    /// A copy of the terminator.
    pub fn duplicate(&self) -> (made: ControlFlow)
        ensures
            made@ == self@,
    {
        match self.condition() {
            Some(v) => self.with_condition(v),
            None => match self {
                ControlFlow::Loop { body, continue_target, merge } => ControlFlow::Loop {
                    body: *body,
                    continue_target: *continue_target,
                    merge: *merge,
                },
                ControlFlow::Return => ControlFlow::Return,
                _ => ControlFlow::Fallthrough,
            },
        }
    }

    /// The terminator with `v` in the place of the variable that it reads.
    pub fn with_condition(&self, v: Variable) -> (made: ControlFlow)
        ensures
            made@ == self@.with_condition(v),
    {
        match self {
            ControlFlow::Fallthrough => ControlFlow::Fallthrough,
            ControlFlow::IfElse { then, or_else, merge, .. } => ControlFlow::IfElse {
                cond: v,
                then: *then,
                or_else: *or_else,
                merge: *merge,
            },
            ControlFlow::Switch { default, branches, merge, .. } => {
                let mut copy: Vec<(u32, NodeId)> = Vec::new();
                let mut i: usize = 0;
                while i < branches.len()
                    invariant
                        i <= branches.len(),
                        copy@ == branches@.take(i as int),
                    decreases branches.len() - i,
                {
                    copy.push(branches[i]);
                    proof {
                        assert(branches@.take(i + 1) =~= branches@.take(i as int).push(
                            branches@[i as int],
                        ));
                    }
                    i += 1;
                }
                assert(branches@.take(i as int) =~= branches@);
                ControlFlow::Switch { value: v, default: *default, branches: copy, merge: *merge }
            },
            ControlFlow::Loop { body, continue_target, merge } => ControlFlow::Loop {
                body: *body,
                continue_target: *continue_target,
                merge: *merge,
            },
            ControlFlow::Break { body, or_break, .. } => ControlFlow::Break {
                cond: v,
                body: *body,
                or_break: *or_break,
            },
            ControlFlow::Return => ControlFlow::Return,
        }
    }
}

/// A phi node: `out` takes the value that stands beside the block from
/// which control came.
#[derive(Debug)]
pub struct PhiInstruction {
    /// The variable that the phi node writes.
    pub out: Variable,
    /// For each predecessor, by its block, the variable whose value is taken.
    pub entries: Vec<(NodeId, Variable)>,
}

/// A phi node as a value.
pub struct PhiView {
    pub out: Variable,
    pub entries: Seq<(u32, Variable)>,
}

impl View for PhiInstruction {
    type V = PhiView;

    open spec fn view(&self) -> PhiView {
        PhiView { out: self.out, entries: self.entries@ }
    }
}

impl PhiView {
    /// The blocks that the phi node has an entry for, in the order of the
    /// entries.
    pub open spec fn keys(self) -> Seq<u32> {
        Seq::new(self.entries.len(), |i: int| self.entries[i].0)
    }
}

/// The views of a sequence of phi nodes.
pub open spec fn phi_views(phis: Seq<PhiInstruction>) -> Seq<PhiView> {
    Seq::new(phis.len(), |i: int| phis[i]@)
}

/// A basic block.
#[derive(Debug)]
pub struct BasicBlock {
    /// The phi nodes at the entry of the block, in order.
    pub phi_nodes: Vec<PhiInstruction>,
    /// The instructions of the block, in order, without the terminator.
    pub ops: Vec<Instruction>,
    /// The terminator.
    pub control_flow: ControlFlow,
    /// The locals that the block assigns; the order says nothing.
    pub writes: Vec<VarKey>,
    /// The locals that are live at the entry of the block; the order says
    /// nothing.
    pub live_vars: Vec<VarKey>,
    /// The dominance frontier of the block; the order says nothing.
    pub dom_frontiers: Vec<NodeId>,
}

/// A basic block as a value.
pub struct BlockView {
    pub phi_nodes: Seq<PhiView>,
    pub ops: Seq<InstructionView>,
    pub control_flow: ControlFlowView,
    pub writes: Set<VarKey>,
    pub live_vars: Set<VarKey>,
    pub dom_frontiers: Set<u32>,
}

impl View for BasicBlock {
    type V = BlockView;

    open spec fn view(&self) -> BlockView {
        BlockView {
            phi_nodes: phi_views(self.phi_nodes@),
            ops: instruction_views(self.ops@),
            control_flow: self.control_flow@,
            writes: self.writes@.to_set(),
            live_vars: self.live_vars@.to_set(),
            dom_frontiers: self.dom_frontiers@.to_set(),
        }
    }
}

/// The views of a sequence of blocks.
pub open spec fn block_views(blocks: Seq<BasicBlock>) -> Seq<BlockView> {
    Seq::new(blocks.len(), |i: int| blocks[i]@)
}

impl BlockView {
    /// A block without phi nodes and instructions that falls through.
    pub open spec fn empty() -> BlockView {
        BlockView {
            phi_nodes: Seq::empty(),
            ops: Seq::empty(),
            control_flow: ControlFlowView::Fallthrough,
            writes: Set::empty(),
            live_vars: Set::empty(),
            dom_frontiers: Set::empty(),
        }
    }

    /// The number of instructions of the block, with its phi nodes and its
    /// terminator.
    pub open spec fn instruction_count(self) -> nat {
        self.phi_nodes.len() + self.ops.len() + 1
    }
}

impl BasicBlock {
    /// A block without phi nodes and instructions that falls through.
    pub fn new() -> (block: Self)
        ensures
            block@ == BlockView::empty(),
    {
        let block = BasicBlock {
            phi_nodes: Vec::new(),
            ops: Vec::new(),
            control_flow: ControlFlow::Fallthrough,
            writes: Vec::new(),
            live_vars: Vec::new(),
            dom_frontiers: Vec::new(),
        };
        assert(block@.phi_nodes =~= Seq::empty());
        assert(block@.ops =~= Seq::empty());
        assert(block@.writes =~= Set::empty());
        assert(block@.live_vars =~= Set::empty());
        assert(block@.dom_frontiers =~= Set::empty());
        block
    }
}

impl Default for BasicBlock {
    fn default() -> (block: Self)
        ensures
            block@ == BlockView::empty(),
    {
        BasicBlock::new()
    }
}

} // verus!
