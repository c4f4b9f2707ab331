//! The optimizer: the program together with what the parser keeps while it
//! walks the scopes.

use crate::block::{BasicBlock, ControlFlow, ControlFlowView};
use crate::error::OptError;
use crate::graph::NodeId;
use crate::instruction::{Instruction, InstructionView, OpKind};
use crate::ir::{Variable, VarKey};
use crate::program::{CubeDim, ExecutionMode, Program, ProgramView, Slice};
use crate::varmap::{find_key, lemma_key_position, with_entry};
use std::collections::VecDeque;
use vstd::prelude::*;

verus! {

/// An optimizer that applies various analyses and optimization passes to the
/// program that it holds.
pub struct Optimizer {
    /// The overall program state.
    pub program: Program,
    /// The current block while parsing.
    pub current_block: Option<NodeId>,
    /// The break targets of the loops around the current place, innermost
    /// last.
    pub loop_break: VecDeque<NodeId>,
    /// The single return block.
    pub ret: NodeId,
    /// The size of a cube, for range analysis.
    pub cube_dim: CubeDim,
    /// The execution mode; `Unchecked` skips the analysis of bounds.
    pub mode: ExecutionMode,
}

/// An optimizer as a value.
pub struct OptimizerView {
    pub program: ProgramView,
    pub current_block: Option<u32>,
    pub loop_break: Seq<u32>,
    pub ret: u32,
    pub cube_dim: CubeDim,
    pub mode: ExecutionMode,
}

impl View for Optimizer {
    type V = OptimizerView;

    open spec fn view(&self) -> OptimizerView {
        OptimizerView {
            program: self.program@,
            current_block: self.current_block,
            loop_break: self.loop_break@,
            ret: self.ret,
            cube_dim: self.cube_dim,
            mode: self.mode,
        }
    }
}

impl OptimizerView {
    /// The state is consistent: the program is and has no phi nodes yet,
    /// entry and return block are blocks of it, no edge enters the entry or
    /// leaves the return block, and the parser stands in a block other than
    /// the return block.
    pub open spec fn wf(self) -> bool {
        &&& self.program.wf()
        &&& self.program.no_phis()
        &&& self.program.nodes.contains(self.ret)
        &&& self.program.nodes.contains(self.program.root)
        &&& self.ret != self.program.root
        &&& match self.current_block {
            Some(b) => self.program.nodes.contains(b) && b != self.ret,
            None => true,
        }
        &&& forall|i: int|
            0 <= i < self.loop_break.len() ==> self.program.nodes.contains(
                #[trigger] self.loop_break[i],
            ) && self.loop_break[i] != self.program.root
        &&& forall|i: int|
            0 <= i < self.program.arcs.len() ==> (#[trigger] self.program.arcs[i]).1
                != self.program.root && self.program.arcs[i].0 != self.ret
    }

    /// The index that the next new block gets.
    pub open spec fn next_block(self) -> u32 {
        crate::graph::next_node(self.program.free, self.program.blocks.len())
    }

    /// The state with one more block, empty.
    pub open spec fn new_block(self) -> Result<OptimizerView, OptError> {
        match self.program.add_block() {
            Ok((program, _)) => Ok(OptimizerView { program, ..self }),
            Err(e) => Err(e),
        }
    }

    /// The state with one more edge, from `a` to `b`.
    pub open spec fn connect(self, a: u32, b: u32) -> Result<OptimizerView, OptError> {
        match self.program.add_edge(a, b) {
            Ok(program) => Ok(OptimizerView { program, ..self }),
            Err(e) => Err(e),
        }
    }

    /// The state with an edge from the current block to `b`, if the parser
    /// stands in a block; else the state as it is.
    pub open spec fn connect_current(self, b: u32) -> Result<OptimizerView, OptError> {
        match self.current_block {
            Some(a) => self.connect(a, b),
            None => Ok(self),
        }
    }

    /// The state with `control_flow` as the terminator of block `n`.
    pub open spec fn terminate(self, n: u32, control_flow: ControlFlowView) -> OptimizerView {
        OptimizerView { program: self.program.set_control_flow(n, control_flow), ..self }
    }

    /// The state with the parser in `block`, or in no block.
    pub open spec fn at(self, block: Option<u32>) -> OptimizerView {
        OptimizerView { current_block: block, ..self }
    }

    /// The state with `op` at the end of the current block.
    pub open spec fn emit(self, op: InstructionView) -> Result<OptimizerView, OptError> {
        match self.current_block {
            Some(b) => Ok(OptimizerView { program: self.program.push_op(b, op), ..self }),
            None => Err(OptError::NoCurrentBlock),
        }
    }

    /// The state with the slice that `op`, an operation of block `block`,
    /// makes among the slices.
    pub open spec fn record_slice(self, op: InstructionView, block: u32) -> Result<
        OptimizerView,
        OptError,
    > {
        match op.out {
            Some(Variable::Slice { id, depth, .. }) => if op.args.len() == 3 {
                Ok(
                    OptimizerView {
                        program: ProgramView {
                            slices: with_entry(
                                self.program.slices,
                                (id, depth),
                                Slice {
                                    start: op.args[1],
                                    end: op.args[2],
                                    end_op: None,
                                    const_len: None,
                                },
                            ),
                            ..self.program
                        },
                        ..self
                    },
                )
            } else {
                Err(OptError::SliceOutput(block))
            },
            _ => Err(OptError::SliceOutput(block)),
        }
    }

    /// The state after a straight-line operation: a slice is recorded, and
    /// the instruction goes to the end of the current block.
    pub open spec fn parse_plain(self, op: InstructionView) -> Result<OptimizerView, OptError> {
        match self.current_block {
            None => Err(OptError::NoCurrentBlock),
            Some(block) => if op.kind == OpKind::Slice {
                match self.record_slice(op, block) {
                    Ok(s) => s.emit(op),
                    Err(e) => Err(e),
                }
            } else {
                self.emit(op)
            },
        }
    }

    /// The state with the local `v` among the variables of the program.
    pub open spec fn declare(self, v: Variable) -> OptimizerView {
        OptimizerView { program: self.program.declare(v), ..self }
    }

    /// The state with all of `locals` among the variables, in their order.
    pub open spec fn declare_all(self, locals: Seq<Variable>) -> OptimizerView
        decreases locals.len(),
    {
        if locals.len() == 0 {
            self
        } else {
            self.declare_all(locals.drop_last()).declare(locals.last())
        }
    }

    /// The state with `target` as the innermost break target.
    pub open spec fn push_break(self, target: u32) -> OptimizerView {
        OptimizerView { loop_break: self.loop_break.push(target), ..self }
    }

    /// The state without the innermost break target.
    pub open spec fn pop_break(self) -> OptimizerView {
        OptimizerView { loop_break: self.loop_break.drop_last(), ..self }
    }

    /// Whether `later` has every block of `self`, and the same break targets.
    pub open spec fn grows_to(self, later: OptimizerView) -> bool {
        &&& forall|n: u32| self.program.nodes.contains(n) ==> later.program.nodes.contains(n)
        &&& self.program.blocks.len() <= later.program.blocks.len()
        &&& later.loop_break == self.loop_break
        &&& later.ret == self.ret
        &&& later.program.root == self.program.root
        &&& later.cube_dim == self.cube_dim
        &&& later.mode == self.mode
    }
}

impl Optimizer {
    /// The state is consistent.
    pub open spec fn wf(&self) -> bool {
        &&& self.program.wf()
        &&& self@.wf()
    }

    /// Adds an empty block and returns its index.
    pub fn new_block(&mut self) -> (added: Result<NodeId, OptError>)
        requires
            old(self).wf(),
        ensures
            match old(self)@.new_block() {
                Ok(s) => added == Ok::<NodeId, OptError>(old(self)@.next_block()) && final(self)@ == s && final(self).wf() && old(self)@.grows_to(s)
                    && !old(self)@.program.nodes.contains(old(self)@.next_block())
                    && s.program.nodes.contains(old(self)@.next_block()),
                Err(e) => added == Err::<NodeId, OptError>(e),
            },
    {
        self.program.add_block()
    }

    /// Adds an edge from `a` to `b`.
    pub fn connect(&mut self, a: NodeId, b: NodeId) -> (added: Result<(), OptError>)
        requires
            old(self).wf(),
            old(self)@.program.nodes.contains(a),
            old(self)@.program.nodes.contains(b),
            a != old(self)@.ret,
            b != old(self)@.program.root,
        ensures
            match old(self)@.connect(a, b) {
                Ok(s) => added is Ok && final(self)@ == s && final(self).wf() && old(self)@.grows_to(s) && s.program.nodes == old(self)@.program.nodes,
                Err(e) => added == Err::<(), OptError>(e),
            },
    {
        let added = self.program.add_edge(a, b);
        proof {
            if added is Ok {
                assert forall|i: int| 0 <= i < self@.program.arcs.len() implies (
                #[trigger] self@.program.arcs[i]).1 != self@.program.root
                    && self@.program.arcs[i].0 != self@.ret by {
                    if i < old(self)@.program.arcs.len() {
                        assert(self@.program.arcs[i] == old(self)@.program.arcs[i]);
                    }
                }
            }
        }
        added
    }

    /// Adds an edge from the current block to `b`, if the parser stands in a
    /// block.
    pub fn connect_current(&mut self, b: NodeId) -> (added: Result<(), OptError>)
        requires
            old(self).wf(),
            old(self)@.program.nodes.contains(b),
            b != old(self)@.program.root,
        ensures
            match old(self)@.connect_current(b) {
                Ok(s) => added is Ok && final(self)@ == s && final(self).wf() && old(self)@.grows_to(s) && s.program.nodes == old(self)@.program.nodes,
                Err(e) => added == Err::<(), OptError>(e),
            },
    {
        match self.current_block {
            Some(a) => self.connect(a, b),
            None => Ok(()),
        }
    }

    /// Makes `control_flow` the terminator of block `n`.
    pub fn terminate(&mut self, n: NodeId, control_flow: ControlFlow)
        requires
            old(self).wf(),
            old(self)@.program.nodes.contains(n),
        ensures
            final(self)@ == old(self)@.terminate(n, control_flow@),
            final(self).wf(),
            old(self)@.grows_to(final(self)@),
            final(self)@.program.nodes == old(self)@.program.nodes,
    {
        self.program.set_control_flow(n, control_flow);
    }

    /// Puts `op` at the end of the current block.
    pub fn emit(&mut self, op: Instruction) -> (done: Result<(), OptError>)
        requires
            old(self).wf(),
        ensures
            match old(self)@.emit(op@) {
                Ok(s) => done is Ok && final(self)@ == s && final(self).wf()
                    && old(self)@.grows_to(s) && s.program.nodes == old(self)@.program.nodes,
                Err(e) => done == Err::<(), OptError>(e) && final(self)@ == old(self)@
                    && final(self).wf(),
            },
    {
        match self.current_block {
            Some(b) => {
                self.program.push_op(b, op);
                Ok(())
            },
            None => Err(OptError::NoCurrentBlock),
        }
    }

    /// Notes the slice that `op`, an operation of block `block`, makes
    /// among the slices of the program. Where it fails, nothing changes.
    pub fn record_slice(&mut self, op: &Instruction, block: NodeId) -> (done: Result<
        (),
        OptError,
    >)
        requires
            old(self).wf(),
        ensures
            match old(self)@.record_slice(op@, block) {
                Ok(s) => done is Ok && final(self)@ == s && final(self).wf()
                    && old(self)@.grows_to(s) && s.program.nodes == old(self)@.program.nodes,
                Err(e) => done == Err::<(), OptError>(e) && final(self)@ == old(self)@
                    && final(self).wf(),
            },
    {
        match op.out {
            Some(Variable::Slice { id, depth, .. }) => {
                if op.args.len() == 3 {
                    let slice = Slice {
                        start: op.args[1],
                        end: op.args[2],
                        end_op: None,
                        const_len: None,
                    };
                    match find_key(&self.program.slices, (id, depth)) {
                        Some(p) => {
                            proof {
                                lemma_key_position(self.program.slices@, (id, depth));
                            }
                            self.program.slices[p] = ((id, depth), slice);
                        },
                        None => {
                            self.program.slices.push(((id, depth), slice));
                        },
                    }
                    Ok(())
                } else {
                    Err(OptError::SliceOutput(block))
                }
            },
            _ => Err(OptError::SliceOutput(block)),
        }
    }

    /// Handles one straight-line operation: records a slice, and puts the
    /// instruction at the end of the current block. Where it fails,
    /// nothing changes: no slice is recorded and no instruction is put.
    pub fn parse_plain(&mut self, op: Instruction) -> (done: Result<(), OptError>)
        requires
            old(self).wf(),
        ensures
            match old(self)@.parse_plain(op@) {
                Ok(s) => done is Ok && final(self)@ == s && final(self).wf()
                    && old(self)@.grows_to(s) && s.program.nodes == old(self)@.program.nodes,
                Err(e) => done == Err::<(), OptError>(e) && final(self)@ == old(self)@
                    && final(self).wf(),
            },
    {
        let block = match self.current_block {
            Some(block) => block,
            None => return Err(OptError::NoCurrentBlock),
        };
        if op.kind == OpKind::Slice {
            match self.record_slice(&op, block) {
                Ok(()) => self.emit(op),
                Err(e) => Err(e),
            }
        } else {
            self.emit(op)
        }
    }

    /// Notes all of `locals` among the variables of the program.
    pub fn declare_all(&mut self, locals: &Vec<Variable>)
        requires
            old(self).wf(),
        ensures
            final(self)@ == old(self)@.declare_all(locals@),
            final(self).wf(),
            old(self)@.grows_to(final(self)@),
            final(self)@.program.nodes == old(self)@.program.nodes,
    {
        let mut i: usize = 0;
        while i < locals.len()
            invariant
                i <= locals.len(),
                self.wf(),
                self@ == old(self)@.declare_all(locals@.take(i as int)),
                old(self)@.grows_to(self@),
                self@.program.nodes == old(self)@.program.nodes,
            decreases locals.len() - i,
        {
            self.program.declare(locals[i]);
            proof {
                assert(locals@.take(i + 1).drop_last() =~= locals@.take(i as int));
            }
            i += 1;
        }
        proof {
            assert(locals@.take(i as int) =~= locals@);
        }
    }

    /// The entry block of the program.
    pub fn entry(&self) -> (root: NodeId)
        ensures
            root == self@.program.root,
    {
        self.program.root
    }

    /// List of predecessor IDs of the `block`, newest edge first.
    pub fn predecessors(&self, block: NodeId) -> (sources: Vec<NodeId>)
        ensures
            sources@ == self@.program.predecessors(block),
    {
        self.program.predecessors(block)
    }

    /// List of successor IDs of the `block`, newest edge first.
    pub fn sucessors(&self, block: NodeId) -> (targets: Vec<NodeId>)
        ensures
            targets@ == self@.program.successors(block),
    {
        self.program.successors(block)
    }

    /// Reference to the [`BasicBlock`] with ID `block`.
    pub fn block(&self, block: NodeId) -> (found: &BasicBlock)
        requires
            block < self@.program.blocks.len(),
        ensures
            found@ == self@.program.blocks[block as int],
    {
        &self.program.blocks[block as usize]
    }

    /// The blocks of the program, by rising index.
    pub fn node_ids(&self) -> (nodes: Vec<NodeId>)
        ensures
            forall|i: int, j: int| 0 <= i < j < nodes@.len() ==> nodes@[i] < nodes@[j],
            forall|n: u32| nodes@.contains(n) <==> self@.program.nodes.contains(n),
    {
        self.program.node_ids()
    }

    /// Gets the `id` and `depth` of the variable if it is a local and not
    /// atomic, `None` otherwise.
    pub fn local_variable_id(&mut self, variable: &Variable) -> (key: Option<VarKey>)
        ensures
            key == variable.local_key(),
            *final(self) == *old(self),
    {
        variable.as_local()
    }
}

impl Default for Optimizer {
    /// An optimizer without blocks, for cubes of one unit, in checked mode.
    fn default() -> (opt: Self)
        ensures
            opt.program.wf(),
            opt@ == (OptimizerView {
                program: ProgramView::empty(),
                current_block: None,
                loop_break: Seq::empty(),
                ret: 0,
                cube_dim: CubeDim { x: 1, y: 1, z: 1 },
                mode: ExecutionMode::Checked,
            }),
    {
        Optimizer {
            program: Program::new(),
            current_block: None,
            loop_break: VecDeque::new(),
            ret: 0,
            cube_dim: CubeDim { x: 1, y: 1, z: 1 },
            mode: ExecutionMode::Checked,
        }
    }
}

/// A visitor that does nothing.
pub fn visit_noop(_opt: &mut Optimizer, _var: &mut Variable)
    ensures
        *final(_opt) == *old(_opt),
        *final(_var) == *old(_var),
{
}

} // verus!
