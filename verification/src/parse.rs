//! The parser: lowers a tree of scopes into blocks, edges and terminators.

use crate::block::{ControlFlow, ControlFlowView};
use crate::error::OptError;
use crate::graph::NodeId;
use crate::instruction::{Instruction, InstructionView, OpKind};
use crate::ir::{ConstantValue, Elem, Item, Variable};
use crate::optimizer::{Optimizer, OptimizerView};
use crate::procedure::{expand, expand_spec, lemma_expansion_weight, temporary};
use crate::scope::{
    case_views, cases_weight, lemma_scope_view, lemma_case_weight, lemma_operation_weight, operations_weight, Branch,
    BranchView, Operation, OperationView, Procedure, Scope, ScopeView,
};
use std::collections::VecDeque;
use vstd::prelude::*;

verus! {

/// The number of the first temporary of a scope: the number of its locals,
/// or one more than the largest number where that is less.
pub open spec fn first_temporary(scope: ScopeView) -> nat {
    if scope.locals.len() > u16::MAX {
        (u16::MAX + 1) as nat
    } else {
        scope.locals.len()
    }
}

/// The step of a loop that names none: one, in the type of the loop's index.
pub open spec fn unit_step(i: Variable) -> Variable {
    Variable::ConstantScalar(
        match i.item_spec() {
            Some(item) => match item.elem {
                Elem::Int(kind) => ConstantValue::Int(1, kind),
                Elem::AtomicInt(kind) => ConstantValue::Int(1, kind),
                _ => ConstantValue::UInt(1),
            },
            None => ConstantValue::UInt(1),
        },
    )
}

/// What a parser hands on: the state, or why it gave up.
pub type Parsed = Result<OptimizerView, OptError>;

/// `r` with one more block.
pub open spec fn and_new_block(r: Parsed) -> Parsed {
    match r {
        Ok(s) => s.new_block(),
        Err(e) => Err(e),
    }
}

/// `r` with one more edge.
pub open spec fn and_connect(r: Parsed, a: u32, b: u32) -> Parsed {
    match r {
        Ok(s) => s.connect(a, b),
        Err(e) => Err(e),
    }
}

/// `r` with an edge from where the parser stands, if it stands in a block.
pub open spec fn and_connect_current(r: Parsed, b: u32) -> Parsed {
    match r {
        Ok(s) => s.connect_current(b),
        Err(e) => Err(e),
    }
}

/// `r` with a terminator set.
pub open spec fn and_terminate(r: Parsed, n: u32, control_flow: ControlFlowView) -> Parsed {
    match r {
        Ok(s) => Ok(s.terminate(n, control_flow)),
        Err(e) => Err(e),
    }
}

/// `r` with the parser moved.
pub open spec fn and_at(r: Parsed, block: Option<u32>) -> Parsed {
    match r {
        Ok(s) => Ok(s.at(block)),
        Err(e) => Err(e),
    }
}

/// `r` with one more instruction in the current block.
pub open spec fn and_plain(r: Parsed, op: InstructionView) -> Parsed {
    match r {
        Ok(s) => s.parse_plain(op),
        Err(e) => Err(e),
    }
}

/// `r` with one more break target.
pub open spec fn and_push_break(r: Parsed, target: u32) -> Parsed {
    match r {
        Ok(s) => Ok(s.push_break(target)),
        Err(e) => Err(e),
    }
}

/// `r` without its innermost break target.
pub open spec fn and_pop_break(r: Parsed) -> Parsed {
    match r {
        Ok(s) => Ok(s.pop_break()),
        Err(e) => Err(e),
    }
}

/// The indices that the next `k + 1` new blocks get, the last of them.
pub open spec fn nth_block(s: OptimizerView, k: nat) -> u32
    decreases k,
{
    if k == 0 {
        s.next_block()
    } else {
        match s.new_block() {
            Ok(s1) => nth_block(s1, (k - 1) as nat),
            Err(_) => 0,
        }
    }
}

impl OptimizerView {
    /// Before the body of `if cond { .. }`: a block for the body and one
    /// where control meets again, an edge to each, and the parser in the
    /// body.
    pub open spec fn open_if(self, cond: Variable) -> Parsed {
        match self.current_block {
            None => Err(OptError::NoCurrentBlock),
            Some(cur) => {
                let then = nth_block(self, 0);
                let merge = nth_block(self, 1);
                and_at(
                    and_terminate(
                        and_connect(
                            and_connect(and_new_block(self.new_block()), cur, then),
                            cur,
                            merge,
                        ),
                        cur,
                        ControlFlowView::IfElse { cond, then, or_else: merge, merge },
                    ),
                    Some(then),
                )
            },
        }
    }

    /// After a body: an edge from where the parser stands to `merge`, and
    /// the parser in `next`.
    pub open spec fn close_branch(self, merge: u32, next: u32) -> Parsed {
        and_at(self.connect_current(merge), Some(next))
    }

    /// Before the first body of `if cond { .. } else { .. }`: a block for
    /// each body and one where control meets again, an edge to each body,
    /// and the parser in the first body.
    pub open spec fn open_if_else(self, cond: Variable) -> Parsed {
        match self.current_block {
            None => Err(OptError::NoCurrentBlock),
            Some(cur) => {
                let then = nth_block(self, 0);
                let or_else = nth_block(self, 1);
                let merge = nth_block(self, 2);
                and_at(
                    and_terminate(
                        and_connect(
                            and_connect(
                                and_new_block(and_new_block(self.new_block())),
                                cur,
                                then,
                            ),
                            cur,
                            or_else,
                        ),
                        cur,
                        ControlFlowView::IfElse { cond, then, or_else, merge },
                    ),
                    Some(then),
                )
            },
        }
    }

    /// Before the body of `loop { .. }`: a block for the body, one that ends
    /// each round and one behind the loop; an edge into the body; the block
    /// behind the loop as the innermost break target; the parser in the body.
    pub open spec fn open_loop(self) -> Parsed {
        match self.current_block {
            None => Err(OptError::NoCurrentBlock),
            Some(cur) => {
                let body = nth_block(self, 0);
                let continue_target = nth_block(self, 1);
                let merge = nth_block(self, 2);
                and_at(
                    and_push_break(
                        and_terminate(
                            and_connect(
                                and_new_block(and_new_block(self.new_block())),
                                cur,
                                body,
                            ),
                            cur,
                            ControlFlowView::Loop { body, continue_target, merge },
                        ),
                        merge,
                    ),
                    Some(body),
                )
            },
        }
    }

    /// After the body of a loop: an edge from where the parser stands to the
    /// block that ends the round, the edge back into the body, the break
    /// target gone, and the parser behind the loop.
    pub open spec fn close_loop(self, body: u32, continue_target: u32, merge: u32) -> Parsed {
        and_at(
            and_pop_break(
                and_connect(self.connect_current(continue_target), continue_target, body),
            ),
            Some(merge),
        )
    }

    /// Before the body of a loop over a range: the index takes the start in
    /// the current block; a head tests it against the end and goes on into
    /// the body or leaves the loop; the parser stands in the body.
    pub open spec fn open_range_loop(
        self,
        depth: u8,
        next_local: nat,
        i: Variable,
        start: Variable,
        end: Variable,
        inclusive: bool,
    ) -> Parsed {
        match self.current_block {
            None => Err(OptError::NoCurrentBlock),
            Some(cur) => if next_local > u16::MAX {
                Err(OptError::TooManyLocals)
            } else {
                let flag = temporary(depth, next_local, Elem::Bool);
                let s0 = self.declare(flag).parse_plain(
                    InstructionView { kind: OpKind::Assign, out: Some(i), args: seq![start] },
                );
                let head = nth_block(self, 0);
                let body = nth_block(self, 1);
                let continue_target = nth_block(self, 2);
                let merge = nth_block(self, 3);
                and_at(
                    and_push_break(
                        and_terminate(
                            and_connect(
                                and_connect(
                                    and_plain(
                                        and_at(
                                            and_terminate(
                                                and_connect(
                                                    and_new_block(
                                                        and_new_block(
                                                            and_new_block(and_new_block(s0)),
                                                        ),
                                                    ),
                                                    cur,
                                                    head,
                                                ),
                                                cur,
                                                ControlFlowView::Loop {
                                                    body: head,
                                                    continue_target,
                                                    merge,
                                                },
                                            ),
                                            Some(head),
                                        ),
                                        InstructionView {
                                            kind: if inclusive {
                                                OpKind::LowerEqual
                                            } else {
                                                OpKind::Lower
                                            },
                                            out: Some(flag),
                                            args: seq![i, end],
                                        },
                                    ),
                                    head,
                                    body,
                                ),
                                head,
                                merge,
                            ),
                            head,
                            ControlFlowView::Break { cond: flag, body, or_break: merge },
                        ),
                        merge,
                    ),
                    Some(body),
                )
            },
        }
    }

    /// After the body of a loop over a range: an edge from where the parser
    /// stands to the block that ends the round; there the index takes its
    /// next value; the edge back to the head; the break target gone; the
    /// parser behind the loop.
    pub open spec fn close_range_loop(
        self,
        i: Variable,
        step: Variable,
        head: u32,
        continue_target: u32,
        merge: u32,
    ) -> Parsed {
        and_at(
            and_pop_break(
                and_connect(
                    and_plain(
                        and_at(self.connect_current(continue_target), Some(continue_target)),
                        InstructionView { kind: OpKind::Add, out: Some(i), args: seq![i, step] },
                    ),
                    continue_target,
                    head,
                ),
            ),
            Some(merge),
        )
    }

    /// Before the default body of a switch: a block for it and one where
    /// control meets again, an edge to the default body, the parser in it.
    pub open spec fn open_switch(self) -> Parsed {
        match self.current_block {
            None => Err(OptError::NoCurrentBlock),
            Some(cur) => {
                let default = nth_block(self, 0);
                and_at(
                    and_connect(and_new_block(self.new_block()), cur, default),
                    Some(default),
                )
            },
        }
    }

    /// Before the body of one case of a switch: a block for it, an edge from
    /// the block of the switch, the parser in the body.
    pub open spec fn open_case(self, cur: u32) -> Parsed {
        and_at(and_connect(self.new_block(), cur, self.next_block()), Some(self.next_block()))
    }

    /// After `return`: an edge to the return block, and the parser in no
    /// block.
    pub open spec fn parse_return(self) -> Parsed {
        match self.current_block {
            None => Err(OptError::NoCurrentBlock),
            Some(_) => and_at(self.connect_current(self.ret), None),
        }
    }

    /// After `break`: an edge to the innermost break target, and the parser
    /// in no block.
    pub open spec fn parse_break(self) -> Parsed {
        match self.current_block {
            None => Err(OptError::NoCurrentBlock),
            Some(_) => if self.loop_break.len() == 0 {
                Err(OptError::BreakOutsideLoop)
            } else {
                and_at(self.connect_current(self.loop_break.last()), None)
            },
        }
    }
}

/// The state after a scope: its locals are declared and its operations
/// parsed in their order.
pub open spec fn parse_scope_spec(s: OptimizerView, scope: ScopeView) -> Parsed
    decreases scope.weight(),
{
    match parse_operations_spec(
        s.declare_all(scope.locals),
        scope.depth,
        scope.operations,
        first_temporary(scope),
    ) {
        Ok((s1, _)) => Ok(s1),
        Err(e) => Err(e),
    }
}

/// The state after a sequence of operations of a scope of depth `depth`, and
/// the number of the next temporary of that scope.
pub open spec fn parse_operations_spec(
    s: OptimizerView,
    depth: u8,
    ops: Seq<OperationView>,
    next_local: nat,
) -> Result<(OptimizerView, nat), OptError>
    decreases operations_weight(ops),
{
    if ops.len() == 0 {
        Ok((s, next_local))
    } else {
        match parse_operations_spec(s, depth, ops.drop_last(), next_local) {
            Ok((s1, n1)) => parse_operation_spec(s1, depth, ops.last(), n1),
            Err(e) => Err(e),
        }
    }
}

/// The state after one operation, and the number of the next temporary. A
/// procedure stands for its expansion: the locals of the expansion are
/// declared, and its operations are parsed where the parser stands, with
/// the temporaries numbered behind those locals.
pub open spec fn parse_operation_spec(
    s: OptimizerView,
    depth: u8,
    op: OperationView,
    next_local: nat,
) -> Result<(OptimizerView, nat), OptError>
    decreases op.weight(),
{
    match op {
        OperationView::Plain(i) => match s.parse_plain(i) {
            Ok(s1) => Ok((s1, next_local)),
            Err(e) => Err(e),
        },
        OperationView::Procedure(p) => match expand_spec(p, depth, next_local) {
            Ok(scope) => {
                proof {
                    lemma_expansion_weight(p, depth, next_local);
                }
                parse_operations_spec(
                    s.declare_all(scope.locals),
                    depth,
                    scope.operations,
                    next_local + scope.locals.len(),
                )
            },
            Err(e) => Err(e),
        },
        OperationView::Branch(b) => parse_branch_spec(s, depth, b, next_local),
    }
}

/// The state after the cases of a switch whose block is `cur` and whose ways
/// meet at `merge`, and the block of each case beside its value.
pub open spec fn parse_cases_spec(
    s: OptimizerView,
    cur: u32,
    merge: u32,
    cases: Seq<(u32, ScopeView)>,
) -> Result<(OptimizerView, Seq<(u32, u32)>), OptError>
    decreases cases_weight(cases),
{
    if cases.len() == 0 {
        Ok((s, Seq::empty()))
    } else {
        match parse_cases_spec(s, cur, merge, cases.drop_last()) {
            Ok((s1, branches)) => match s1.open_case(cur) {
                Ok(s2) => match parse_scope_spec(s2, cases.last().1) {
                    Ok(s3) => match s3.connect_current(merge) {
                        Ok(s4) => Ok((s4, branches.push((cases.last().0, s1.next_block())))),
                        Err(e) => Err(e),
                    },
                    Err(e) => Err(e),
                },
                Err(e) => Err(e),
            },
            Err(e) => Err(e),
        }
    }
}

/// The state after one branch, and the number of the next temporary.
pub open spec fn parse_branch_spec(
    s: OptimizerView,
    depth: u8,
    b: BranchView,
    next_local: nat,
) -> Result<(OptimizerView, nat), OptError>
    decreases b.weight(),
{
    match b {
        BranchView::If { cond, scope } => match s.open_if(cond) {
            Ok(s1) => match parse_scope_spec(s1, scope) {
                Ok(s2) => match s2.close_branch(nth_block(s, 1), nth_block(s, 1)) {
                    Ok(s3) => Ok((s3, next_local)),
                    Err(e) => Err(e),
                },
                Err(e) => Err(e),
            },
            Err(e) => Err(e),
        },
        BranchView::IfElse { cond, scope_if, scope_else } => match s.open_if_else(cond) {
            Ok(s1) => match parse_scope_spec(s1, scope_if) {
                Ok(s2) => match s2.close_branch(nth_block(s, 2), nth_block(s, 1)) {
                    Ok(s3) => match parse_scope_spec(s3, scope_else) {
                        Ok(s4) => match s4.close_branch(nth_block(s, 2), nth_block(s, 2)) {
                            Ok(s5) => Ok((s5, next_local)),
                            Err(e) => Err(e),
                        },
                        Err(e) => Err(e),
                    },
                    Err(e) => Err(e),
                },
                Err(e) => Err(e),
            },
            Err(e) => Err(e),
        },
        BranchView::Select { cond, then, or_else, out } => match s.parse_plain(
            InstructionView { kind: OpKind::Select, out: Some(out), args: seq![cond, then, or_else] },
        ) {
            Ok(s1) => Ok((s1, next_local)),
            Err(e) => Err(e),
        },
        BranchView::Switch { value, scope_default, cases } => match s.open_switch() {
            Ok(s1) => match parse_scope_spec(s1, scope_default) {
                Ok(s2) => match s2.connect_current(nth_block(s, 1)) {
                    Ok(s3) => match parse_cases_spec(
                        s3,
                        s.current_block.unwrap(),
                        nth_block(s, 1),
                        cases,
                    ) {
                        Ok((s4, branches)) => Ok(
                            (
                                s4.terminate(
                                    s.current_block.unwrap(),
                                    ControlFlowView::Switch {
                                        value,
                                        default: nth_block(s, 0),
                                        branches,
                                        merge: nth_block(s, 1),
                                    },
                                ).at(Some(nth_block(s, 1))),
                                next_local,
                            ),
                        ),
                        Err(e) => Err(e),
                    },
                    Err(e) => Err(e),
                },
                Err(e) => Err(e),
            },
            Err(e) => Err(e),
        },
        BranchView::RangeLoop { i, start, end, step, inclusive, scope } => match s.open_range_loop(
            depth,
            next_local,
            i,
            start,
            end,
            inclusive,
        ) {
            Ok(s1) => match parse_scope_spec(s1, scope) {
                Ok(s2) => match s2.close_range_loop(
                    i,
                    match step {
                        Some(v) => v,
                        None => unit_step(i),
                    },
                    nth_block(s, 0),
                    nth_block(s, 2),
                    nth_block(s, 3),
                ) {
                    Ok(s3) => Ok((s3, next_local + 1)),
                    Err(e) => Err(e),
                },
                Err(e) => Err(e),
            },
            Err(e) => Err(e),
        },
        BranchView::Loop { scope } => match s.open_loop() {
            Ok(s1) => match parse_scope_spec(s1, scope) {
                Ok(s2) => match s2.close_loop(nth_block(s, 0), nth_block(s, 1), nth_block(s, 2)) {
                    Ok(s3) => Ok((s3, next_local)),
                    Err(e) => Err(e),
                },
                Err(e) => Err(e),
            },
            Err(e) => Err(e),
        },
        BranchView::Return => match s.parse_return() {
            Ok(s1) => Ok((s1, next_local)),
            Err(e) => Err(e),
        },
        BranchView::Break => match s.parse_break() {
            Ok(s1) => Ok((s1, next_local)),
            Err(e) => Err(e),
        },
    }
}

/// The state after the root scope: a fresh program with its entry block and
/// its return block, the scope parsed from the entry block on, and an edge
/// from where the parser ends to the return block.
pub open spec fn parse_graph_spec(s: OptimizerView, scope: ScopeView) -> Parsed {
    let entry = nth_block(s, 0);
    let ret = nth_block(s, 1);
    match and_new_block(s.new_block()) {
        Ok(s1) => {
            let s2 = OptimizerView {
                program: crate::program::ProgramView { root: entry, ..s1.program },
                current_block: Some(entry),
                loop_break: Seq::empty(),
                ret,
                ..s1
            }.terminate(ret, ControlFlowView::Return);
            match parse_scope_spec(s2, scope) {
                Ok(s3) => s3.connect_current(ret),
                Err(e) => Err(e),
            }
        },
        Err(e) => Err(e),
    }
}

/// What a step of the parser promises: on success the state that was
/// expected, consistent and with every block that was there before; on
/// failure the error that was expected.
pub open spec fn follows(
    before: OptimizerView,
    after: &Optimizer,
    expected: Parsed,
    failure: Option<OptError>,
) -> bool {
    match expected {
        Ok(s) => failure is None && after@ == s && after.wf() && before.grows_to(s),
        Err(e) => failure == Some(e),
    }
}

/// The error of a result, if it is one.
pub open spec fn failure_of<T>(r: Result<T, OptError>) -> Option<OptError> {
    match r {
        Ok(_) => None,
        Err(e) => Some(e),
    }
}

/// Whether `b` is a block of `after` that `before` did not have.
pub open spec fn fresh(before: OptimizerView, after: OptimizerView, b: u32) -> bool {
    !before.program.nodes.contains(b) && after.program.nodes.contains(b)
}

/// An operation that fails after some operations fails after all of them.
pub proof fn lemma_operations_failure(
    s: OptimizerView,
    depth: u8,
    ops: Seq<OperationView>,
    next_local: nat,
    k: int,
)
    requires
        0 <= k <= ops.len(),
        parse_operations_spec(s, depth, ops.take(k), next_local) is Err,
    ensures
        parse_operations_spec(s, depth, ops, next_local) == parse_operations_spec(
            s,
            depth,
            ops.take(k),
            next_local,
        ),
    decreases ops.len() - k,
{
    if k < ops.len() {
        assert(ops.drop_last().take(k) =~= ops.take(k));
        lemma_operations_failure(s, depth, ops.drop_last(), next_local, k);
    } else {
        assert(ops.take(k) =~= ops);
    }
}

/// A case that fails after some cases fails after all of them.
pub proof fn lemma_cases_failure(
    s: OptimizerView,
    cur: u32,
    merge: u32,
    cases: Seq<(u32, ScopeView)>,
    k: int,
)
    requires
        0 <= k <= cases.len(),
        parse_cases_spec(s, cur, merge, cases.take(k)) is Err,
    ensures
        parse_cases_spec(s, cur, merge, cases) == parse_cases_spec(s, cur, merge, cases.take(k)),
    decreases cases.len() - k,
{
    if k < cases.len() {
        assert(cases.drop_last().take(k) =~= cases.take(k));
        lemma_cases_failure(s, cur, merge, cases.drop_last(), k);
    } else {
        assert(cases.take(k) =~= cases);
    }
}

impl Optimizer {
    /// Opens `if cond { .. }` and returns the block where control meets
    /// again.
    fn open_if(&mut self, cond: Variable) -> (opened: Result<NodeId, OptError>)
        requires
            old(self).wf(),
        ensures
            follows(old(self)@, final(self), old(self)@.open_if(cond), failure_of(opened)),
            match opened {
                Ok(merge) => merge == nth_block(old(self)@, 1) && fresh(
                    old(self)@,
                    final(self)@,
                    merge,
                ),
                Err(_) => true,
            },
    {
        proof {
            reveal_with_fuel(nth_block, 3);
        }
        let cur = match self.current_block {
            Some(cur) => cur,
            None => return Err(OptError::NoCurrentBlock),
        };
        let then = match self.new_block() {
            Ok(b) => b,
            Err(e) => return Err(e),
        };
        let merge = match self.new_block() {
            Ok(b) => b,
            Err(e) => return Err(e),
        };
        match self.connect(cur, then) {
            Ok(()) => {},
            Err(e) => return Err(e),
        }
        match self.connect(cur, merge) {
            Ok(()) => {},
            Err(e) => return Err(e),
        }
        self.terminate(cur, ControlFlow::IfElse { cond, then, or_else: merge, merge });
        self.current_block = Some(then);
        Ok(merge)
    }

    /// Closes a body: an edge to `merge`, and the parser in `next`.
    fn close_branch(&mut self, merge: NodeId, next: NodeId) -> (closed: Result<
        (),
        OptError,
    >)
        requires
            old(self).wf(),
            old(self)@.program.nodes.contains(merge),
            old(self)@.program.nodes.contains(next),
            merge != old(self)@.program.root,
            next != old(self)@.ret,
        ensures
            follows(
                old(self)@,
                final(self),
                old(self)@.close_branch(merge, next),
                failure_of(closed),
            ),
    {
        match self.connect_current(merge) {
            Ok(()) => {},
            Err(e) => return Err(e),
        }
        self.current_block = Some(next);
        Ok(())
    }

    /// Opens `if cond { .. } else { .. }` and returns the block of the second
    /// body and the block where control meets again.
    fn open_if_else(&mut self, cond: Variable) -> (opened: Result<
        (NodeId, NodeId),
        OptError,
    >)
        requires
            old(self).wf(),
        ensures
            follows(old(self)@, final(self), old(self)@.open_if_else(cond), failure_of(opened)),
            match opened {
                Ok((or_else, merge)) => or_else == nth_block(old(self)@, 1) && merge
                    == nth_block(old(self)@, 2) && fresh(old(self)@, final(self)@, or_else)
                    && fresh(old(self)@, final(self)@, merge),
                Err(_) => true,
            },
    {
        proof {
            reveal_with_fuel(nth_block, 4);
        }
        let cur = match self.current_block {
            Some(cur) => cur,
            None => return Err(OptError::NoCurrentBlock),
        };
        let then = match self.new_block() {
            Ok(b) => b,
            Err(e) => return Err(e),
        };
        let or_else = match self.new_block() {
            Ok(b) => b,
            Err(e) => return Err(e),
        };
        let merge = match self.new_block() {
            Ok(b) => b,
            Err(e) => return Err(e),
        };
        match self.connect(cur, then) {
            Ok(()) => {},
            Err(e) => return Err(e),
        }
        match self.connect(cur, or_else) {
            Ok(()) => {},
            Err(e) => return Err(e),
        }
        self.terminate(cur, ControlFlow::IfElse { cond, then, or_else, merge });
        self.current_block = Some(then);
        Ok((or_else, merge))
    }

    /// Opens `loop { .. }` and returns the block of the body, the block that
    /// ends each round and the block behind the loop.
    fn open_loop(&mut self) -> (opened: Result<(NodeId, NodeId, NodeId), OptError>)
        requires
            old(self).wf(),
        ensures
            match old(self)@.open_loop() {
                Ok(s) => failure_of(opened) is None && final(self)@ == s && final(self).wf()
                    && old(self)@.grows_to(s.pop_break()),
                Err(e) => failure_of(opened) == Some(e),
            },
            match opened {
                Ok((body, continue_target, merge)) => body == nth_block(old(self)@, 0)
                    && continue_target == nth_block(old(self)@, 1) && merge == nth_block(
                    old(self)@,
                    2,
                ) && fresh(old(self)@, final(self)@, body) && fresh(
                    old(self)@,
                    final(self)@,
                    continue_target,
                ) && fresh(old(self)@, final(self)@, merge) && final(self)@.loop_break == old(self)@.loop_break.push(merge),
                Err(_) => true,
            },
    {
        proof {
            reveal_with_fuel(nth_block, 4);
        }
        let cur = match self.current_block {
            Some(cur) => cur,
            None => return Err(OptError::NoCurrentBlock),
        };
        let body = match self.new_block() {
            Ok(b) => b,
            Err(e) => return Err(e),
        };
        let continue_target = match self.new_block() {
            Ok(b) => b,
            Err(e) => return Err(e),
        };
        let merge = match self.new_block() {
            Ok(b) => b,
            Err(e) => return Err(e),
        };
        match self.connect(cur, body) {
            Ok(()) => {},
            Err(e) => return Err(e),
        }
        self.terminate(cur, ControlFlow::Loop { body, continue_target, merge });
        self.loop_break.push_back(merge);
        self.current_block = Some(body);
        proof {
            assert(self@.pop_break().loop_break =~= old(self)@.loop_break);
        }
        Ok((body, continue_target, merge))
    }

    /// Closes the body of a loop.
    fn close_loop(&mut self, body: NodeId, continue_target: NodeId, merge: NodeId) -> (closed:
        Result<(), OptError>)
        requires
            old(self).wf(),
            old(self)@.program.nodes.contains(body),
            old(self)@.program.nodes.contains(continue_target),
            old(self)@.program.nodes.contains(merge),
            body != old(self)@.program.root,
            continue_target != old(self)@.program.root,
            continue_target != old(self)@.ret,
            merge != old(self)@.ret,
            old(self)@.loop_break.len() > 0,
        ensures
            match old(self)@.close_loop(body, continue_target, merge) {
                Ok(s) => failure_of(closed) is None && final(self)@ == s && final(self).wf()
                    && old(self)@.pop_break().grows_to(s),
                Err(e) => failure_of(closed) == Some(e),
            },
    {
        match self.connect_current(continue_target) {
            Ok(()) => {},
            Err(e) => return Err(e),
        }
        match self.connect(continue_target, body) {
            Ok(()) => {},
            Err(e) => return Err(e),
        }
        self.loop_break.pop_back();
        self.current_block = Some(merge);
        Ok(())
    }

    /// Handles `return`.
    fn parse_return(&mut self) -> (done: Result<(), OptError>)
        requires
            old(self).wf(),
        ensures
            follows(old(self)@, final(self), old(self)@.parse_return(), failure_of(done)),
    {
        if self.current_block.is_none() {
            return Err(OptError::NoCurrentBlock);
        }
        let ret = self.ret;
        match self.connect_current(ret) {
            Ok(()) => {},
            Err(e) => return Err(e),
        }
        self.current_block = None;
        Ok(())
    }

    /// Handles `break`.
    fn parse_break(&mut self) -> (done: Result<(), OptError>)
        requires
            old(self).wf(),
        ensures
            follows(old(self)@, final(self), old(self)@.parse_break(), failure_of(done)),
    {
        if self.current_block.is_none() {
            return Err(OptError::NoCurrentBlock);
        }
        if self.loop_break.len() == 0 {
            return Err(OptError::BreakOutsideLoop);
        }
        let target = self.loop_break[self.loop_break.len() - 1];
        match self.connect_current(target) {
            Ok(()) => {},
            Err(e) => return Err(e),
        }
        self.current_block = None;
        Ok(())
    }
}

/// The step of a loop that names none: one, in the type of the loop's index.
pub fn unit_step_of(i: &Variable) -> (step: Variable)
    ensures
        step == unit_step(*i),
{
    Variable::ConstantScalar(
        match i.item() {
            Some(item) => match item.elem {
                Elem::Int(kind) => ConstantValue::Int(1, kind),
                Elem::AtomicInt(kind) => ConstantValue::Int(1, kind),
                _ => ConstantValue::UInt(1),
            },
            None => ConstantValue::UInt(1),
        },
    )
}

impl Optimizer {
    /// Opens a loop over a range and returns the head of the loop, the block
    /// that ends each round and the block behind the loop.
    fn open_range_loop(
        &mut self,
        depth: u8,
        next_local: u32,
        i: Variable,
        start: Variable,
        end: Variable,
        inclusive: bool,
    ) -> (opened: Result<(NodeId, NodeId, NodeId), OptError>)
        requires
            old(self).wf(),
        ensures
            match old(self)@.open_range_loop(depth, next_local as nat, i, start, end, inclusive) {
                Ok(s) => failure_of(opened) is None && final(self)@ == s && final(self).wf()
                    && old(self)@.grows_to(s.pop_break()),
                Err(e) => failure_of(opened) == Some(e),
            },
            match opened {
                Ok((head, continue_target, merge)) => head == nth_block(old(self)@, 0)
                    && continue_target == nth_block(old(self)@, 2) && merge == nth_block(
                    old(self)@,
                    3,
                ) && fresh(old(self)@, final(self)@, head) && fresh(
                    old(self)@,
                    final(self)@,
                    continue_target,
                ) && fresh(old(self)@, final(self)@, merge) && final(self)@.loop_break == old(self)@.loop_break.push(merge),
                Err(_) => true,
            },
    {
        proof {
            reveal_with_fuel(nth_block, 5);
        }
        let cur = match self.current_block {
            Some(cur) => cur,
            None => return Err(OptError::NoCurrentBlock),
        };
        if next_local > 65535 {
            return Err(OptError::TooManyLocals);
        }
        let flag = Variable::Local {
            id: next_local as u16,
            depth,
            item: Item { elem: Elem::Bool, vectorization: 1 },
        };
        self.program.declare(flag);
        match self.parse_plain(Instruction::unary(OpKind::Assign, start, i)) {
            Ok(()) => {},
            Err(e) => return Err(e),
        }
        let head = match self.new_block() {
            Ok(b) => b,
            Err(e) => return Err(e),
        };
        let body = match self.new_block() {
            Ok(b) => b,
            Err(e) => return Err(e),
        };
        let continue_target = match self.new_block() {
            Ok(b) => b,
            Err(e) => return Err(e),
        };
        let merge = match self.new_block() {
            Ok(b) => b,
            Err(e) => return Err(e),
        };
        match self.connect(cur, head) {
            Ok(()) => {},
            Err(e) => return Err(e),
        }
        self.terminate(cur, ControlFlow::Loop { body: head, continue_target, merge });
        self.current_block = Some(head);
        let test = if inclusive {
            OpKind::LowerEqual
        } else {
            OpKind::Lower
        };
        match self.parse_plain(Instruction::binary(test, i, end, flag)) {
            Ok(()) => {},
            Err(e) => return Err(e),
        }
        match self.connect(head, body) {
            Ok(()) => {},
            Err(e) => return Err(e),
        }
        match self.connect(head, merge) {
            Ok(()) => {},
            Err(e) => return Err(e),
        }
        self.terminate(head, ControlFlow::Break { cond: flag, body, or_break: merge });
        self.loop_break.push_back(merge);
        self.current_block = Some(body);
        proof {
            assert(self@.pop_break().loop_break =~= old(self)@.loop_break);
        }
        Ok((head, continue_target, merge))
    }

    /// Closes the body of a loop over a range.
    fn close_range_loop(
        &mut self,
        i: Variable,
        step: Variable,
        head: NodeId,
        continue_target: NodeId,
        merge: NodeId,
    ) -> (closed: Result<(), OptError>)
        requires
            old(self).wf(),
            old(self)@.program.nodes.contains(head),
            old(self)@.program.nodes.contains(continue_target),
            old(self)@.program.nodes.contains(merge),
            head != old(self)@.program.root,
            continue_target != old(self)@.program.root,
            continue_target != old(self)@.ret,
            merge != old(self)@.ret,
            old(self)@.loop_break.len() > 0,
        ensures
            match old(self)@.close_range_loop(i, step, head, continue_target, merge) {
                Ok(s) => failure_of(closed) is None && final(self)@ == s && final(self).wf()
                    && old(self)@.pop_break().grows_to(s),
                Err(e) => failure_of(closed) == Some(e),
            },
    {
        match self.connect_current(continue_target) {
            Ok(()) => {},
            Err(e) => return Err(e),
        }
        self.current_block = Some(continue_target);
        match self.parse_plain(Instruction::binary(OpKind::Add, i, step, i)) {
            Ok(()) => {},
            Err(e) => return Err(e),
        }
        match self.connect(continue_target, head) {
            Ok(()) => {},
            Err(e) => return Err(e),
        }
        self.loop_break.pop_back();
        self.current_block = Some(merge);
        Ok(())
    }

    /// Opens a switch and returns its own block, the block of the default
    /// body and the block where control meets again.
    fn open_switch(&mut self) -> (opened: Result<(NodeId, NodeId, NodeId), OptError>)
        requires
            old(self).wf(),
        ensures
            follows(old(self)@, final(self), old(self)@.open_switch(), failure_of(opened)),
            match opened {
                Ok((cur, default, merge)) => old(self)@.current_block == Some(cur) && default
                    == nth_block(old(self)@, 0) && merge == nth_block(old(self)@, 1) && fresh(
                    old(self)@,
                    final(self)@,
                    default,
                ) && fresh(old(self)@, final(self)@, merge),
                Err(_) => true,
            },
    {
        proof {
            reveal_with_fuel(nth_block, 3);
        }
        let cur = match self.current_block {
            Some(cur) => cur,
            None => return Err(OptError::NoCurrentBlock),
        };
        let default = match self.new_block() {
            Ok(b) => b,
            Err(e) => return Err(e),
        };
        let merge = match self.new_block() {
            Ok(b) => b,
            Err(e) => return Err(e),
        };
        match self.connect(cur, default) {
            Ok(()) => {},
            Err(e) => return Err(e),
        }
        self.current_block = Some(default);
        Ok((cur, default, merge))
    }

    /// Opens one case of the switch in block `cur` and returns the block of
    /// its body.
    fn open_case(&mut self, cur: NodeId) -> (opened: Result<NodeId, OptError>)
        requires
            old(self).wf(),
            old(self)@.program.nodes.contains(cur),
            cur != old(self)@.ret,
        ensures
            follows(old(self)@, final(self), old(self)@.open_case(cur), failure_of(opened)),
            match opened {
                Ok(body) => body == old(self)@.next_block() && fresh(
                    old(self)@,
                    final(self)@,
                    body,
                ),
                Err(_) => true,
            },
    {
        let body = match self.new_block() {
            Ok(b) => b,
            Err(e) => return Err(e),
        };
        match self.connect(cur, body) {
            Ok(()) => {},
            Err(e) => return Err(e),
        }
        self.current_block = Some(body);
        Ok(body)
    }
}

/// What a step promises that also hands on the number of the next
/// temporary.
pub open spec fn follows_counting(
    before: OptimizerView,
    after: &Optimizer,
    expected: Result<(OptimizerView, nat), OptError>,
    got: Result<u32, OptError>,
) -> bool {
    match expected {
        Ok((s, n)) => match got {
            Ok(m) => m == n && after@ == s && after.wf() && before.grows_to(s),
            Err(_) => false,
        },
        Err(e) => got == Err::<u32, OptError>(e),
    }
}

impl Optimizer {
    /// Recursively parse a scope into the graph.
    pub fn parse_scope(&mut self, scope: Scope) -> (done: Result<(), OptError>)
        requires
            old(self).wf(),
        ensures
            follows(
                old(self)@,
                final(self),
                parse_scope_spec(old(self)@, scope@),
                failure_of(done),
            ),
    {
        self.lower_scope(&scope)
    }

    /// Parses a scope into the graph: declares its locals and handles its
    /// operations in their order.
    pub fn lower_scope(&mut self, scope: &Scope) -> (done: Result<(), OptError>)
        requires
            old(self).wf(),
        ensures
            follows(
                old(self)@,
                final(self),
                parse_scope_spec(old(self)@, scope@),
                failure_of(done),
            ),
        decreases scope@.weight(), 0nat,
    {
        self.declare_all(&scope.locals);
        let first: u32 = if scope.locals.len() > 65535 {
            65536
        } else {
            scope.locals.len() as u32
        };
        proof {
            lemma_scope_view(scope);
        }
        match self.lower_operations(scope, first) {
            Ok(_) => Ok(()),
            Err(e) => Err(e),
        }
    }

    /// Handles the operations of a scope in their order, with the
    /// temporaries numbered from `first`, and returns the number of the
    /// next temporary after them.
    pub fn lower_operations(&mut self, scope: &Scope, first: u32) -> (done: Result<u32, OptError>)
        requires
            old(self).wf(),
            first <= 65536,
        ensures
            follows_counting(
                old(self)@,
                final(self),
                parse_operations_spec(old(self)@, scope.depth, scope@.operations, first as nat),
                done,
            ),
            done is Ok ==> done.unwrap() <= 65536,
        decreases operations_weight(scope@.operations), 2nat,
    {
        let mut next: u32 = first;
        let ghost start = self@;
        let ghost ops = scope@.operations;
        proof {
            lemma_scope_view(scope);
        }
        let mut i: usize = 0;
        while i < scope.operations.len()
            invariant
                i <= scope.operations.len(),
                ops == scope@.operations,
                ops.len() == scope.operations@.len(),
                forall|j: int|
                    0 <= j < scope.operations@.len() ==> #[trigger] ops[j]
                        == scope.operations@[j]@,
                start == old(self)@,
                self.wf(),
                old(self)@.grows_to(self@),
                next <= 65536,
                parse_operations_spec(start, scope.depth, ops.take(i as int), first as nat) == Ok::<
                    (OptimizerView, nat),
                    OptError,
                >((self@, next as nat)),
            decreases scope.operations.len() - i,
        {
            proof {
                lemma_operation_weight(ops, i as int);
                assert(ops.take(i + 1).drop_last() =~= ops.take(i as int));
                assert(ops.take(i + 1).last() == ops[i as int]);
                assert(ops[i as int] == scope.operations@[i as int]@);
            }
            let ghost before = self@;
            let ghost counted = next as nat;
            match self.lower_operation(&scope.operations[i], scope.depth, next) {
                Ok(n) => {
                    next = n;
                },
                Err(e) => {
                    proof {
                        assert(parse_operation_spec(before, scope.depth, ops[i as int], counted)
                            == Err::<(OptimizerView, nat), OptError>(e));
                        assert(parse_operations_spec(
                            start,
                            scope.depth,
                            ops.take(i + 1),
                            first as nat,
                        ) == Err::<(OptimizerView, nat), OptError>(e));
                        lemma_operations_failure(
                            start,
                            scope.depth,
                            ops,
                            first as nat,
                            i + 1,
                        );
                    }
                    return Err(e);
                },
            }
            i += 1;
        }
        proof {
            assert(ops.take(i as int) =~= ops);
        }
        Ok(next)
    }

    /// Handles one operation of a scope of depth `depth` whose next
    /// temporary has the number `next`, and returns the number of the next
    /// temporary after it. A straight-line operation that fails changes
    /// nothing.
    pub fn lower_operation(&mut self, op: &Operation, depth: u8, next: u32) -> (done: Result<
        u32,
        OptError,
    >)
        requires
            old(self).wf(),
            next <= 65536,
        ensures
            follows_counting(
                old(self)@,
                final(self),
                parse_operation_spec(old(self)@, depth, op@, next as nat),
                done,
            ),
            done is Ok ==> done.unwrap() <= 65536,
            op@ is Plain && done is Err ==> final(self)@ == old(self)@ && final(self).wf(),
        decreases op@.weight(), 1nat,
    {
        match op {
            Operation::Operator(i) => match self.parse_plain(i.duplicate()) {
                Ok(()) => Ok(next),
                Err(e) => Err(e),
            },
            Operation::Metadata(i) => match self.parse_plain(i.duplicate()) {
                Ok(()) => Ok(next),
                Err(e) => Err(e),
            },
            Operation::Synchronization(i) => match self.parse_plain(i.duplicate()) {
                Ok(()) => Ok(next),
                Err(e) => Err(e),
            },
            Operation::Subcube(i) => match self.parse_plain(i.duplicate()) {
                Ok(()) => Ok(next),
                Err(e) => Err(e),
            },
            Operation::CoopMma(i) => match self.parse_plain(i.duplicate()) {
                Ok(()) => Ok(next),
                Err(e) => Err(e),
            },
            Operation::Procedure(p) => self.compile_procedure(p, depth, next),
            Operation::Branch(b) => self.parse_control_flow(b, depth, next),
        }
    }

    /// Expands a procedure and parses its expansion where the parser
    /// stands. Where the procedure cannot be expanded, nothing changes.
    pub fn compile_procedure(&mut self, proc: &Procedure, depth: u8, next: u32) -> (done: Result<
        u32,
        OptError,
    >)
        requires
            old(self).wf(),
            next <= 65536,
        ensures
            follows_counting(
                old(self)@,
                final(self),
                parse_operation_spec(
                    old(self)@,
                    depth,
                    OperationView::Procedure(*proc),
                    next as nat,
                ),
                done,
            ),
            done is Ok ==> done.unwrap() <= 65536,
            expand_spec(*proc, depth, next as nat) is Err ==> final(self)@ == old(self)@
                && final(self).wf(),
        decreases 1 + crate::scope::expansion_weight(), 0nat,
    {
        proof {
            lemma_expansion_weight(*proc, depth, next as nat);
        }
        let scope = match expand(proc, depth, next) {
            Ok(scope) => scope,
            Err(e) => return Err(e),
        };
        proof {
            lemma_scope_view(&scope);
        }
        self.declare_all(&scope.locals);
        self.lower_operations(&scope, next + scope.locals.len() as u32)
    }

    /// Handles `if cond { .. }`.
    pub fn parse_if(&mut self, cond: Variable, scope: &Scope, depth: u8, next: u32) -> (done:
        Result<u32, OptError>)
        requires
            old(self).wf(),
            next <= 65536,
        ensures
            follows_counting(
                old(self)@,
                final(self),
                parse_branch_spec(
                    old(self)@,
                    depth,
                    BranchView::If { cond, scope: scope@ },
                    next as nat,
                ),
                done,
            ),
            done is Ok ==> done.unwrap() <= 65536,
        decreases scope@.weight(), 1nat,
    {
        let merge = match self.open_if(cond) {
            Ok(merge) => merge,
            Err(e) => return Err(e),
        };
        match self.lower_scope(scope) {
            Ok(()) => {},
            Err(e) => return Err(e),
        }
        match self.close_branch(merge, merge) {
            Ok(()) => {},
            Err(e) => return Err(e),
        }
        Ok(next)
    }

    /// Handles `if cond { .. } else { .. }`.
    pub fn parse_if_else(
        &mut self,
        cond: Variable,
        scope_if: &Scope,
        scope_else: &Scope,
        depth: u8,
        next: u32,
    ) -> (done: Result<u32, OptError>)
        requires
            old(self).wf(),
            next <= 65536,
        ensures
            follows_counting(
                old(self)@,
                final(self),
                parse_branch_spec(
                    old(self)@,
                    depth,
                    BranchView::IfElse { cond, scope_if: scope_if@, scope_else: scope_else@ },
                    next as nat,
                ),
                done,
            ),
            done is Ok ==> done.unwrap() <= 65536,
        decreases scope_if@.weight() + scope_else@.weight(), 1nat,
    {
        let (or_else, merge) = match self.open_if_else(cond) {
            Ok(opened) => opened,
            Err(e) => return Err(e),
        };
        match self.lower_scope(scope_if) {
            Ok(()) => {},
            Err(e) => return Err(e),
        }
        match self.close_branch(merge, or_else) {
            Ok(()) => {},
            Err(e) => return Err(e),
        }
        match self.lower_scope(scope_else) {
            Ok(()) => {},
            Err(e) => return Err(e),
        }
        match self.close_branch(merge, merge) {
            Ok(()) => {},
            Err(e) => return Err(e),
        }
        Ok(next)
    }

    /// Handles the cases of the switch in block `cur` whose ways meet at
    /// `merge`, and returns the block of each case beside its value.
    pub fn parse_cases(&mut self, cur: NodeId, merge: NodeId, cases: &Vec<(u32, Scope)>) -> (done:
        Result<Vec<(u32, NodeId)>, OptError>)
        requires
            old(self).wf(),
            old(self)@.program.nodes.contains(cur),
            old(self)@.program.nodes.contains(merge),
            cur != old(self)@.ret,
            merge != old(self)@.ret,
            merge != old(self)@.program.root,
        ensures
            match parse_cases_spec(old(self)@, cur, merge, case_views(cases@)) {
                Ok((s, branches)) => match done {
                    Ok(found) => found@ == branches && final(self)@ == s && final(self).wf()
                        && old(self)@.grows_to(s),
                    Err(_) => false,
                },
                Err(e) => failure_of(done) == Some(e),
            },
        decreases cases_weight(case_views(cases@)), 1nat,
    {
        let ghost start = self@;
        let ghost all = case_views(cases@);
        let mut branches: Vec<(u32, NodeId)> = Vec::new();
        let mut k: usize = 0;
        while k < cases.len()
            invariant
                k <= cases.len(),
                all == case_views(cases@),
                self.wf(),
                start.grows_to(self@),
                start == old(self)@,
                start.program.nodes.contains(cur),
                start.program.nodes.contains(merge),
                cur != start.ret,
                merge != start.ret,
                merge != start.program.root,
                parse_cases_spec(start, cur, merge, all.take(k as int)) == Ok::<
                    (OptimizerView, Seq<(u32, u32)>),
                    OptError,
                >((self@, branches@)),
            decreases cases.len() - k,
        {
            proof {
                lemma_case_weight(all, k as int);
                assert(all.take(k + 1).drop_last() =~= all.take(k as int));
                assert(all.take(k + 1).last() == all[k as int]);
                assert(all[k as int] == (cases@[k as int].0, cases@[k as int].1@));
            }
            let body = match self.open_case(cur) {
                Ok(body) => body,
                Err(e) => {
                    proof {
                        lemma_cases_failure(start, cur, merge, all, k + 1);
                    }
                    return Err(e);
                },
            };
            match self.lower_scope(&cases[k].1) {
                Ok(()) => {},
                Err(e) => {
                    proof {
                        lemma_cases_failure(start, cur, merge, all, k + 1);
                    }
                    return Err(e);
                },
            }
            match self.connect_current(merge) {
                Ok(()) => {},
                Err(e) => {
                    proof {
                        lemma_cases_failure(start, cur, merge, all, k + 1);
                    }
                    return Err(e);
                },
            }
            branches.push((cases[k].0, body));
            k += 1;
        }
        proof {
            assert(all.take(k as int) =~= all);
        }
        Ok(branches)
    }

    /// Handles a switch.
    pub fn parse_switch(
        &mut self,
        value: Variable,
        scope_default: &Scope,
        cases: &Vec<(u32, Scope)>,
        depth: u8,
        next: u32,
    ) -> (done: Result<u32, OptError>)
        requires
            old(self).wf(),
            next <= 65536,
        ensures
            follows_counting(
                old(self)@,
                final(self),
                parse_branch_spec(
                    old(self)@,
                    depth,
                    BranchView::Switch {
                        value,
                        scope_default: scope_default@,
                        cases: case_views(cases@),
                    },
                    next as nat,
                ),
                done,
            ),
            done is Ok ==> done.unwrap() <= 65536,
        decreases scope_default@.weight() + cases_weight(case_views(cases@)), 2nat,
    {
        let (cur, default, merge) = match self.open_switch() {
            Ok(opened) => opened,
            Err(e) => return Err(e),
        };
        match self.lower_scope(scope_default) {
            Ok(()) => {},
            Err(e) => return Err(e),
        }
        match self.connect_current(merge) {
            Ok(()) => {},
            Err(e) => return Err(e),
        }
        let branches = match self.parse_cases(cur, merge, cases) {
            Ok(branches) => branches,
            Err(e) => return Err(e),
        };
        self.terminate(cur, ControlFlow::Switch { value, default, branches, merge });
        self.current_block = Some(merge);
        Ok(next)
    }

    /// Handles a loop over a range.
    pub fn parse_range_loop(
        &mut self,
        i: Variable,
        start: Variable,
        end: Variable,
        step: Option<Variable>,
        inclusive: bool,
        scope: &Scope,
        depth: u8,
        next: u32,
    ) -> (done: Result<u32, OptError>)
        requires
            old(self).wf(),
            next <= 65536,
        ensures
            follows_counting(
                old(self)@,
                final(self),
                parse_branch_spec(
                    old(self)@,
                    depth,
                    BranchView::RangeLoop { i, start, end, step, inclusive, scope: scope@ },
                    next as nat,
                ),
                done,
            ),
            done is Ok ==> done.unwrap() <= 65536,
        decreases scope@.weight(), 1nat,
    {
        let (head, continue_target, merge) = match self.open_range_loop(
            depth,
            next,
            i,
            start,
            end,
            inclusive,
        ) {
            Ok(opened) => opened,
            Err(e) => return Err(e),
        };
        match self.lower_scope(scope) {
            Ok(()) => {},
            Err(e) => return Err(e),
        }
        let step = match step {
            Some(v) => v,
            None => unit_step_of(&i),
        };
        match self.close_range_loop(i, step, head, continue_target, merge) {
            Ok(()) => {},
            Err(e) => return Err(e),
        }
        Ok(next + 1)
    }

    /// Handles `loop { .. }`.
    pub fn parse_loop(&mut self, scope: &Scope, depth: u8, next: u32) -> (done: Result<
        u32,
        OptError,
    >)
        requires
            old(self).wf(),
            next <= 65536,
        ensures
            follows_counting(
                old(self)@,
                final(self),
                parse_branch_spec(
                    old(self)@,
                    depth,
                    BranchView::Loop { scope: scope@ },
                    next as nat,
                ),
                done,
            ),
            done is Ok ==> done.unwrap() <= 65536,
        decreases scope@.weight(), 1nat,
    {
        let (body, continue_target, merge) = match self.open_loop() {
            Ok(opened) => opened,
            Err(e) => return Err(e),
        };
        match self.lower_scope(scope) {
            Ok(()) => {},
            Err(e) => return Err(e),
        }
        match self.close_loop(body, continue_target, merge) {
            Ok(()) => {},
            Err(e) => return Err(e),
        }
        Ok(next)
    }

    /// Handles one branch of a scope of depth `depth` whose next temporary
    /// has the number `next`, and returns the number of the next temporary
    /// after it.
    pub fn parse_control_flow(&mut self, branch: &Branch, depth: u8, next: u32) -> (done: Result<
        u32,
        OptError,
    >)
        requires
            old(self).wf(),
            next <= 65536,
        ensures
            follows_counting(
                old(self)@,
                final(self),
                parse_branch_spec(old(self)@, depth, branch@, next as nat),
                done,
            ),
            done is Ok ==> done.unwrap() <= 65536,
        decreases branch@.weight(), 0nat,
    {
        match branch {
            Branch::If { cond, scope } => self.parse_if(*cond, scope, depth, next),
            Branch::IfElse { cond, scope_if, scope_else } => self.parse_if_else(
                *cond,
                scope_if,
                scope_else,
                depth,
                next,
            ),
            Branch::Select { cond, then, or_else, out } => {
                match self.parse_plain(
                    Instruction::ternary(OpKind::Select, *cond, *then, *or_else, *out),
                ) {
                    Ok(()) => Ok(next),
                    Err(e) => Err(e),
                }
            },
            Branch::Switch { value, scope_default, cases } => self.parse_switch(
                *value,
                scope_default,
                cases,
                depth,
                next,
            ),
            Branch::RangeLoop { i, start, end, step, inclusive, scope } => self.parse_range_loop(
                *i,
                *start,
                *end,
                *step,
                *inclusive,
                scope,
                depth,
                next,
            ),
            Branch::Loop { scope } => self.parse_loop(scope, depth, next),
            Branch::Return => match self.parse_return() {
                Ok(()) => Ok(next),
                Err(e) => Err(e),
            },
            Branch::Break => match self.parse_break() {
                Ok(()) => Ok(next),
                Err(e) => Err(e),
            },
        }
    }
}

impl Optimizer {
    /// Parses the root scope: makes the entry block and the return block,
    /// parses the scope from the entry block on, and lets the last block run
    /// into the return block.
    pub fn parse_graph(&mut self, scope: &Scope) -> (done: Result<(), OptError>)
        requires
            old(self).program.wf(),
            old(self)@.program.no_phis(),
        ensures
            match parse_graph_spec(old(self)@, scope@) {
                Ok(s) => failure_of(done) is None && final(self)@ == s && final(self).wf(),
                Err(e) => failure_of(done) == Some(e),
            },
            done is Ok ==> final(self)@.program.predecessors(final(self)@.program.root).len()
                == 0,
            done is Ok ==> final(self)@.program.successors(final(self)@.ret).len() == 0,
    {
        proof {
            reveal_with_fuel(nth_block, 3);
            self.program.lemma_view_wf();
        }
        let entry = match self.program.add_block() {
            Ok(b) => b,
            Err(e) => return Err(e),
        };
        let ret = match self.program.add_block() {
            Ok(b) => b,
            Err(e) => return Err(e),
        };
        self.program.root = entry;
        self.current_block = Some(entry);
        self.loop_break = VecDeque::new();
        self.ret = ret;
        proof {
            self.program.lemma_view_wf();
            assert forall|i: int| 0 <= i < self@.program.arcs.len() implies (
            #[trigger] self@.program.arcs[i]).1 != self@.program.root && self@.program.arcs[i].0
                != self@.ret by {
                assert(old(self)@.program.nodes.contains(old(self)@.program.arcs[i].0));
            }
        }
        self.terminate(ret, ControlFlow::Return);
        match self.lower_scope(scope) {
            Ok(()) => {},
            Err(e) => return Err(e),
        }
        match self.connect_current(ret) {
            Ok(()) => {},
            Err(e) => return Err(e),
        }
        proof {
            let arcs = self@.program.arcs;
            let root = self@.program.root;
            assert forall|m: u32| !self@.program.predecessors(root).contains(m) by {
                crate::graph::lemma_predecessors_contains(arcs, root, m);
                if arcs.contains((m, root)) {
                    let i = choose|i: int| 0 <= i < arcs.len() && arcs[i] == (m, root);
                    assert(arcs[i].1 != root);
                }
            }
            assert forall|m: u32| !self@.program.successors(ret).contains(m) by {
                crate::graph::lemma_successors_contains(arcs, ret, m);
                if arcs.contains((ret, m)) {
                    let i = choose|i: int| 0 <= i < arcs.len() && arcs[i] == (ret, m);
                    assert(arcs[i].0 != ret);
                }
            }
            if self@.program.predecessors(root).len() > 0 {
                assert(self@.program.predecessors(root).contains(
                    self@.program.predecessors(root)[0],
                ));
            }
            if self@.program.successors(ret).len() > 0 {
                assert(self@.program.successors(ret).contains(self@.program.successors(ret)[0]));
            }
        }
        Ok(())
    }
}

} // verus!
