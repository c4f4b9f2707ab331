//! The input of the optimizer: a tree of scopes, each with the locals that it
//! declares and its operations in order.

use crate::instruction::{Instruction, InstructionView};
use crate::ir::Variable;
use vstd::prelude::*;

verus! {

/// A short sequence of operations that stands for its expansion.
#[derive(Clone, Copy, Debug, PartialEq, Eq, Structural)]
pub enum Procedure {
    /// `out = global[absolute position]`.
    ReadGlobal { global: Variable, out: Variable },
    /// `out = global[offset]`, where the offset is that of the absolute
    /// position counted through the strides of `layout`, over all
    /// dimensions.
    ReadGlobalWithLayout { global: Variable, layout: Variable, out: Variable },
    /// `global[absolute position] = input`.
    WriteGlobal { input: Variable, global: Variable },
    /// `out = if cond { lhs } else { rhs }`, as a branch.
    ConditionalAssign { cond: Variable, lhs: Variable, rhs: Variable, out: Variable },
    /// `out = lhs[rhs]` if `rhs` lies inside `lhs`, else zero.
    CheckedIndex { lhs: Variable, rhs: Variable, out: Variable },
    /// `out[lhs] = rhs` if `lhs` lies inside `out`.
    CheckedIndexAssign { lhs: Variable, rhs: Variable, out: Variable },
    /// `index` becomes the offset into `tensor` of `position` counted
    /// through the strides of `layout`, over the dimensions from
    /// `dim_start` up to `dim_end`.
    IndexOffsetGlobalWithLayout {
        tensor: Variable,
        layout: Variable,
        index: Variable,
        position: Variable,
        dim_start: Variable,
        dim_end: Variable,
    },
    /// Leaves the kernel if `position` lies outside `global`.
    EarlyReturn { global: Variable, position: Variable },
}

/// An operation that decides where control goes.
#[derive(Debug)]
pub enum Branch {
    If { cond: Variable, scope: Scope },
    IfElse { cond: Variable, scope_if: Scope, scope_else: Scope },
    /// No change of control: `out = if cond { then } else { or_else }`.
    Select { cond: Variable, then: Variable, or_else: Variable, out: Variable },
    Switch { value: Variable, scope_default: Scope, cases: Vec<(u32, Scope)> },
    /// `for i in start..end` (or `start..=end`) in steps of `step`, or of one.
    RangeLoop {
        i: Variable,
        start: Variable,
        end: Variable,
        step: Option<Variable>,
        inclusive: bool,
        scope: Scope,
    },
    Loop { scope: Scope },
    Return,
    Break,
}

/// One operation of a scope.
#[derive(Debug)]
pub enum Operation {
    Operator(Instruction),
    Procedure(Procedure),
    Branch(Branch),
    Metadata(Instruction),
    Synchronization(Instruction),
    Subcube(Instruction),
    CoopMma(Instruction),
}

/// A scope: the locals that it declares and its operations in order.
#[derive(Debug)]
pub struct Scope {
    pub depth: u8,
    pub locals: Vec<Variable>,
    pub operations: Vec<Operation>,
}

/// A branch as a value.
pub enum BranchView {
    If { cond: Variable, scope: ScopeView },
    IfElse { cond: Variable, scope_if: ScopeView, scope_else: ScopeView },
    Select { cond: Variable, then: Variable, or_else: Variable, out: Variable },
    Switch { value: Variable, scope_default: ScopeView, cases: Seq<(u32, ScopeView)> },
    RangeLoop {
        i: Variable,
        start: Variable,
        end: Variable,
        step: Option<Variable>,
        inclusive: bool,
        scope: ScopeView,
    },
    Loop { scope: ScopeView },
    Return,
    Break,
}

/// An operation as a value. The five kinds of straight-line operation are
/// one here: what tells them apart is the kind of the instruction.
pub enum OperationView {
    Plain(InstructionView),
    Procedure(Procedure),
    Branch(BranchView),
}

/// A scope as a value.
pub struct ScopeView {
    pub depth: u8,
    pub locals: Seq<Variable>,
    pub operations: Seq<OperationView>,
}

impl View for Scope {
    type V = ScopeView;

    open spec fn view(&self) -> ScopeView
        decreases self,
    {
        ScopeView {
            depth: self.depth,
            locals: self.locals@,
            operations: operation_views(self.operations@),
        }
    }
}

/// The views of a sequence of operations.
pub open spec fn operation_views(ops: Seq<Operation>) -> Seq<OperationView>
    decreases ops,
{
    Seq::new(
        ops.len(),
        |i: int|
            if 0 <= i < ops.len() {
                ops[i]@
            } else {
                arbitrary()
            },
    )
}

/// The views of a sequence of switch cases.
pub open spec fn case_views(cases: Seq<(u32, Scope)>) -> Seq<(u32, ScopeView)>
    decreases cases,
{
    Seq::new(
        cases.len(),
        |i: int|
            if 0 <= i < cases.len() {
                (cases[i].0, cases[i].1@)
            } else {
                arbitrary()
            },
    )
}

impl View for Operation {
    type V = OperationView;

    open spec fn view(&self) -> OperationView
        decreases self,
    {
        match self {
            Operation::Operator(op) => OperationView::Plain(op@),
            Operation::Metadata(op) => OperationView::Plain(op@),
            Operation::Synchronization(op) => OperationView::Plain(op@),
            Operation::Subcube(op) => OperationView::Plain(op@),
            Operation::CoopMma(op) => OperationView::Plain(op@),
            Operation::Procedure(p) => OperationView::Procedure(*p),
            Operation::Branch(b) => OperationView::Branch(b@),
        }
    }
}

impl View for Branch {
    type V = BranchView;

    open spec fn view(&self) -> BranchView
        decreases self,
    {
        match self {
            Branch::If { cond, scope } => BranchView::If { cond: *cond, scope: scope@ },
            Branch::IfElse { cond, scope_if, scope_else } => BranchView::IfElse {
                cond: *cond,
                scope_if: scope_if@,
                scope_else: scope_else@,
            },
            Branch::Select { cond, then, or_else, out } => BranchView::Select {
                cond: *cond,
                then: *then,
                or_else: *or_else,
                out: *out,
            },
            Branch::Switch { value, scope_default, cases } => BranchView::Switch {
                value: *value,
                scope_default: scope_default@,
                cases: case_views(cases@),
            },
            Branch::RangeLoop { i, start, end, step, inclusive, scope } => BranchView::RangeLoop {
                i: *i,
                start: *start,
                end: *end,
                step: *step,
                inclusive: *inclusive,
                scope: scope@,
            },
            Branch::Loop { scope } => BranchView::Loop { scope: scope@ },
            Branch::Return => BranchView::Return,
            Branch::Break => BranchView::Break,
        }
    }
}

/// The largest weight that the expansion of a procedure has.
pub open spec fn expansion_weight() -> nat {
    32
}

impl ScopeView {
    /// A measure of the work that parsing the scope takes: it falls from a
    /// scope to each scope inside it, and from a procedure to its expansion.
    pub open spec fn weight(self) -> nat
        decreases self, 1nat,
    {
        1 + operations_weight(self.operations)
    }

    /// Whether the scope holds no branch and no procedure, at any depth.
    pub open spec fn straight_line(self) -> bool {
        forall|i: int| 0 <= i < self.operations.len() ==> self.operations[i] is Plain
    }
}

/// The weight of a sequence of operations: the sum of their weights, and one
/// more for each.
pub open spec fn operations_weight(ops: Seq<OperationView>) -> nat
    decreases ops, 0nat,
{
    if ops.len() == 0 {
        0
    } else {
        1 + operations_weight(ops.drop_last()) + ops.last().weight()
    }
}

/// The weight of a sequence of switch cases: the sum of their weights, and
/// one more for each.
pub open spec fn cases_weight(cases: Seq<(u32, ScopeView)>) -> nat
    decreases cases, 0nat,
{
    if cases.len() == 0 {
        0
    } else {
        1 + cases_weight(cases.drop_last()) + cases.last().1.weight()
    }
}

impl OperationView {
    /// The weight of one operation.
    pub open spec fn weight(self) -> nat
        decreases self, 1nat,
    {
        match self {
            OperationView::Plain(_) => 1,
            OperationView::Procedure(_) => 1 + expansion_weight(),
            OperationView::Branch(b) => 1 + b.weight(),
        }
    }
}

impl BranchView {
    /// The weight of one branch.
    pub open spec fn weight(self) -> nat
        decreases self, 0nat,
    {
        match self {
            BranchView::If { scope, .. } => 1 + scope.weight(),
            BranchView::IfElse { scope_if, scope_else, .. } => 1 + scope_if.weight()
                + scope_else.weight(),
            BranchView::Switch { scope_default, cases, .. } => 1 + scope_default.weight()
                + cases_weight(cases),
            BranchView::RangeLoop { scope, .. } => 1 + scope.weight(),
            BranchView::Loop { scope } => 1 + scope.weight(),
            _ => 1,
        }
    }
}

/// The view of a scope, field by field.
pub proof fn lemma_scope_view(scope: &Scope)
    ensures
        scope@.depth == scope.depth,
        scope@.locals == scope.locals@,
        scope@.operations.len() == scope.operations@.len(),
        forall|i: int|
            0 <= i < scope.operations@.len() ==> #[trigger] scope@.operations[i]
                == scope.operations@[i]@,
{
    assert(scope@.operations == operation_views(scope.operations@));
}

/// Each operation of a sequence weighs less than the sequence.
pub proof fn lemma_operation_weight(ops: Seq<OperationView>, i: int)
    requires
        0 <= i < ops.len(),
    ensures
        ops[i].weight() < operations_weight(ops),
        operations_weight(ops.take(i)) <= operations_weight(ops),
    decreases ops.len(),
{
    if i < ops.len() - 1 {
        lemma_operation_weight(ops.drop_last(), i);
        assert(ops.drop_last().take(i) =~= ops.take(i));
    } else {
        assert(ops.take(i) =~= ops.drop_last());
    }
}

/// Each case of a sequence weighs less than the sequence.
pub proof fn lemma_case_weight(cases: Seq<(u32, ScopeView)>, i: int)
    requires
        0 <= i < cases.len(),
    ensures
        cases[i].1.weight() < cases_weight(cases),
        cases_weight(cases.take(i)) <= cases_weight(cases),
    decreases cases.len(),
{
    if i < cases.len() - 1 {
        lemma_case_weight(cases.drop_last(), i);
        assert(cases.drop_last().take(i) =~= cases.take(i));
    } else {
        assert(cases.take(i) =~= cases.drop_last());
    }
}

} // verus!
