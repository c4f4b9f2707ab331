//! The program that the optimizer works on: the graph of blocks, the blocks
//! themselves and what is recorded about variables.

use crate::block::{block_views, BasicBlock, BlockView, ControlFlow, ControlFlowView};
use crate::error::OptError;
use crate::graph::{next_node, predecessors_of, successors_of, FlowGraph, NodeId};
use crate::instruction::{instruction_views, Instruction, InstructionView};
use crate::ir::{Item, VarId, VarKey, Variable};
use crate::varmap::{add_key, find_key, lemma_key_position, with_entry};
use vstd::prelude::*;

verus! {

/// Whether indices are checked against the bounds of what they index.
#[derive(Clone, Copy, Debug, PartialEq, Eq, Structural)]
pub enum ExecutionMode {
    /// Bounds checks stay unless they are proved redundant.
    Checked,
    /// No bounds checks, and no analysis that would remove them.
    Unchecked,
}

/// The size of a cube of units along x, y and z.
#[derive(Clone, Copy, Debug, PartialEq, Eq, Structural)]
pub struct CubeDim {
    pub x: u32,
    pub y: u32,
    pub z: u32,
}

/// How the end of a slice was computed: `lhs + rhs` or `lhs - rhs`.
#[derive(Clone, Copy, Debug, PartialEq, Eq, Structural)]
pub struct EndOp {
    pub subtract: bool,
    pub lhs: Variable,
    pub rhs: Variable,
}

/// A contiguous part `[start, end)` of an array.
#[derive(Clone, Copy, Debug, PartialEq, Eq, Structural)]
pub struct Slice {
    pub start: Variable,
    pub end: Variable,
    pub end_op: Option<EndOp>,
    /// The number of items, where both ends are known.
    pub const_len: Option<u32>,
}

/// The values that an integer may take: from `lower_bound` to `upper_bound`,
/// both included; a bound that is missing is no bound.
#[derive(Clone, Copy, Debug, PartialEq, Eq, Structural)]
pub struct Range {
    pub lower_bound: Option<i64>,
    pub upper_bound: Option<i64>,
}

/// The state of the program under optimization.
pub struct Program {
    /// The locals that were seen and still wait for their versions.
    pub variables: Vec<(VarKey, Item)>,
    /// The slices that were seen, by the name of the slice variable.
    pub slices: Vec<(VarKey, Slice)>,
    /// Which blocks there are and which edges run between them.
    pub graph: FlowGraph,
    /// The blocks, each at the index of its node.
    pub blocks: Vec<BasicBlock>,
    /// The entry block.
    pub root: NodeId,
    /// What is known of the values of versioned integers.
    pub int_ranges: Vec<(VarId, Range)>,
}

/// A program as a value.
pub struct ProgramView {
    pub variables: Seq<(VarKey, Item)>,
    pub slices: Seq<(VarKey, Slice)>,
    pub nodes: Set<u32>,
    pub arcs: Seq<(u32, u32)>,
    pub free: Seq<u32>,
    pub edges_added: nat,
    pub blocks: Seq<BlockView>,
    pub root: u32,
    pub int_ranges: Seq<(VarId, Range)>,
}

impl View for Program {
    type V = ProgramView;

    open spec fn view(&self) -> ProgramView {
        ProgramView {
            variables: self.variables@,
            slices: self.slices@,
            nodes: self.graph.nodes(),
            arcs: self.graph.arcs(),
            free: self.graph.free(),
            edges_added: self.graph.edges_added(),
            blocks: block_views(self.blocks@),
            root: self.root,
            int_ranges: self.int_ranges@,
        }
    }
}

impl ProgramView {
    /// A program without blocks.
    pub open spec fn empty() -> ProgramView {
        ProgramView {
            variables: Seq::empty(),
            slices: Seq::empty(),
            nodes: Set::empty(),
            arcs: Seq::empty(),
            free: Seq::empty(),
            edges_added: 0,
            blocks: Seq::empty(),
            root: 0,
            int_ranges: Seq::empty(),
        }
    }

    /// The program is consistent: every node has its block, edges run
    /// between nodes, and the vacant indices are no nodes.
    pub open spec fn wf(self) -> bool {
        &&& self.blocks.len() <= u32::MAX
        &&& forall|n: u32| self.nodes.contains(n) ==> n < self.blocks.len()
        &&& forall|i: int|
            0 <= i < self.free.len() ==> #[trigger] self.free[i] < self.blocks.len()
                && !self.nodes.contains(self.free[i])
        &&& self.free.no_duplicates()
        &&& forall|i: int|
            0 <= i < self.arcs.len() ==> self.nodes.contains((#[trigger] self.arcs[i]).0)
                && self.nodes.contains(self.arcs[i].1)
    }

    /// Whether no block of the program has a phi node.
    pub open spec fn no_phis(self) -> bool {
        forall|b: int| 0 <= b < self.blocks.len() ==> (#[trigger] self.blocks[b]).phi_nodes.len() == 0
    }

    /// The successors of `n`, newest edge first.
    pub open spec fn successors(self, n: u32) -> Seq<u32> {
        successors_of(self.arcs, n)
    }

    /// The predecessors of `n`, newest edge first.
    pub open spec fn predecessors(self, n: u32) -> Seq<u32> {
        predecessors_of(self.arcs, n)
    }

    /// The program with one more block, empty, and the index of that block;
    /// or the error when all indices are used.
    pub open spec fn add_block(self) -> Result<(ProgramView, u32), OptError> {
        if self.blocks.len() >= u32::MAX {
            Err(OptError::GraphFull)
        } else {
            let n = next_node(self.free, self.blocks.len());
            Ok(
                (
                    ProgramView {
                        nodes: self.nodes.insert(n),
                        free: if self.free.len() > 0 {
                            self.free.drop_last()
                        } else {
                            self.free
                        },
                        blocks: if self.free.len() > 0 {
                            self.blocks.update(n as int, BlockView::empty())
                        } else {
                            self.blocks.push(BlockView::empty())
                        },
                        ..self
                    },
                    n,
                ),
            )
        }
    }

    /// The program with one more edge, from `a` to `b`; or the error when
    /// `u32::MAX` edges were added before.
    pub open spec fn add_edge(self, a: u32, b: u32) -> Result<ProgramView, OptError> {
        if self.edges_added >= u32::MAX {
            Err(OptError::GraphFull)
        } else {
            Ok(
                ProgramView {
                    arcs: self.arcs.push((a, b)),
                    edges_added: self.edges_added + 1,
                    ..self
                },
            )
        }
    }

    /// The program with `block` replaced.
    pub open spec fn with_block(self, n: u32, block: BlockView) -> ProgramView {
        ProgramView { blocks: self.blocks.update(n as int, block), ..self }
    }

    /// The program with `op` at the end of block `n`; a local that `op`
    /// assigns is among the writes of the block.
    pub open spec fn push_op(self, n: u32, op: InstructionView) -> ProgramView {
        let block = self.blocks[n as int];
        self.with_block(
            n,
            BlockView {
                ops: block.ops.push(op),
                writes: match op.written_local() {
                    Some(k) => block.writes.insert(k),
                    None => block.writes,
                },
                ..block
            },
        )
    }

    /// The program with `control_flow` as the terminator of block `n`.
    pub open spec fn set_control_flow(self, n: u32, control_flow: ControlFlowView) -> ProgramView {
        self.with_block(n, BlockView { control_flow, ..self.blocks[n as int] })
    }

    /// The program with the local `v` among its variables; anything but a
    /// local changes nothing.
    pub open spec fn declare(self, v: Variable) -> ProgramView {
        match v {
            Variable::Local { id, depth, item } => ProgramView {
                variables: with_entry(self.variables, (id, depth), item),
                ..self
            },
            _ => self,
        }
    }

    /// The number of instructions of the program: those of its blocks, each
    /// with its phi nodes and its terminator.
    pub open spec fn instruction_count(self) -> nat {
        blocks_instruction_count(self.blocks, self.nodes)
    }
}

/// The number of instructions in those of `blocks` that are nodes.
pub open spec fn blocks_instruction_count(blocks: Seq<BlockView>, nodes: Set<u32>) -> nat
    decreases blocks.len(),
{
    if blocks.len() == 0 {
        0
    } else {
        blocks_instruction_count(blocks.drop_last(), nodes) + if nodes.contains(
            (blocks.len() - 1) as u32,
        ) {
            blocks.last().instruction_count()
        } else {
            0
        }
    }
}

impl Program {
    /// The program is consistent.
    pub open spec fn wf(&self) -> bool {
        &&& self.graph.wf()
        &&& self.blocks@.len() == self.graph.slots()
    }

    /// A consistent program has a consistent view.
    pub proof fn lemma_view_wf(&self)
        requires
            self.wf(),
        ensures
            self@.wf(),
    {
    }

    /// A program without blocks.
    pub fn new() -> (program: Self)
        ensures
            program.wf(),
            program@ == ProgramView::empty(),
    {
        let program = Program {
            variables: Vec::new(),
            slices: Vec::new(),
            graph: FlowGraph::new(),
            blocks: Vec::new(),
            root: 0,
            int_ranges: Vec::new(),
        };
        assert(program@.blocks =~= Seq::empty());
        program
    }

    /// Adds an empty block and returns its index.
    pub fn add_block(&mut self) -> (added: Result<NodeId, OptError>)
        requires
            old(self).wf(),
        ensures
            final(self).wf(),
            match old(self)@.add_block() {
                Ok((program, n)) => added == Ok::<NodeId, OptError>(n) && final(self)@
                    == program && !old(self)@.nodes.contains(n),
                Err(e) => added == Err::<NodeId, OptError>(e) && final(self)@ == old(self)@,
            },
    {
        match self.graph.add_node() {
            Some(n) => {
                if n as usize == self.blocks.len() {
                    self.blocks.push(BasicBlock::new());
                    proof {
                        assert(self@.blocks =~= old(self)@.blocks.push(BlockView::empty()));
                    }
                } else {
                    self.blocks[n as usize] = BasicBlock::new();
                    proof {
                        assert(self@.blocks =~= old(self)@.blocks.update(
                            n as int,
                            BlockView::empty(),
                        ));
                    }
                }
                Ok(n)
            },
            None => Err(OptError::GraphFull),
        }
    }

    /// Adds an edge from `a` to `b`, two blocks of the program.
    pub fn add_edge(&mut self, a: NodeId, b: NodeId) -> (added: Result<(), OptError>)
        requires
            old(self).wf(),
            old(self)@.nodes.contains(a),
            old(self)@.nodes.contains(b),
        ensures
            final(self).wf(),
            match old(self)@.add_edge(a, b) {
                Ok(program) => added is Ok && final(self)@ == program,
                Err(e) => added == Err::<(), OptError>(e) && final(self)@ == old(self)@,
            },
    {
        if self.graph.add_edge(a, b) {
            Ok(())
        } else {
            Err(OptError::GraphFull)
        }
    }

    /// Puts `op` at the end of block `n` and notes the local that it assigns.
    pub fn push_op(&mut self, n: NodeId, op: Instruction)
        requires
            old(self).wf(),
            n < old(self)@.blocks.len(),
        ensures
            final(self).wf(),
            final(self)@ == old(self)@.push_op(n, op@),
    {
        let ghost view = op@;
        let key = match op.out {
            Some(v) => v.as_local(),
            None => None,
        };
        let block = &mut self.blocks[n as usize];
        block.ops.push(op);
        match key {
            Some(k) => {
                add_key(&mut block.writes, k);
            },
            None => {},
        }
        proof {
            let before = old(self).blocks@[n as int];
            let after = self.blocks@[n as int];
            assert(instruction_views(after.ops@) =~= instruction_views(before.ops@).push(view));
            assert(self@.blocks =~= old(self)@.push_op(n, view).blocks);
        }
    }

    /// Makes `control_flow` the terminator of block `n`.
    pub fn set_control_flow(&mut self, n: NodeId, control_flow: ControlFlow)
        requires
            old(self).wf(),
            n < old(self)@.blocks.len(),
        ensures
            final(self).wf(),
            final(self)@ == old(self)@.set_control_flow(n, control_flow@),
    {
        let ghost view = control_flow@;
        let block = &mut self.blocks[n as usize];
        block.control_flow = control_flow;
        proof {
            assert(self@.blocks =~= old(self)@.set_control_flow(n, view).blocks);
        }
    }

    /// Notes the local `v` among the variables of the program.
    pub fn declare(&mut self, v: Variable)
        requires
            old(self).wf(),
        ensures
            final(self).wf(),
            final(self)@ == old(self)@.declare(v),
    {
        match v {
            Variable::Local { id, depth, item } => {
                match find_key(&self.variables, (id, depth)) {
                    Some(p) => {
                        proof {
                            lemma_key_position(self.variables@, (id, depth));
                        }
                        self.variables[p] = ((id, depth), item);
                    },
                    None => {
                        self.variables.push(((id, depth), item));
                    },
                }
            },
            _ => {},
        }
    }

    /// The blocks of the program, by rising index.
    pub fn node_ids(&self) -> (nodes: Vec<NodeId>)
        ensures
            forall|i: int, j: int| 0 <= i < j < nodes@.len() ==> nodes@[i] < nodes@[j],
            forall|n: u32| nodes@.contains(n) <==> self@.nodes.contains(n),
    {
        self.graph.node_indices()
    }

    /// The successors of block `n`, newest edge first.
    pub fn successors(&self, n: NodeId) -> (targets: Vec<NodeId>)
        ensures
            targets@ == self@.successors(n),
    {
        self.graph.successors(n)
    }

    /// The predecessors of block `n`, newest edge first.
    pub fn predecessors(&self, n: NodeId) -> (sources: Vec<NodeId>)
        ensures
            sources@ == self@.predecessors(n),
    {
        self.graph.predecessors(n)
    }
}

} // verus!
