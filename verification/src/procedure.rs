//! What each procedure stands for: a scope of plain operations and branches.

use crate::error::OptError;
use crate::instruction::{Instruction, InstructionView, OpKind};
use crate::ir::{ConstantValue, Elem, Item, Position, Variable};
use crate::scope::{
    expansion_weight, lemma_scope_view, operations_weight, Branch, BranchView, Operation,
    OperationView, Procedure, Scope, ScopeView,
};
use vstd::prelude::*;

verus! {

/// The temporary with number `id` in a scope of depth `depth`.
pub open spec fn temporary(depth: u8, id: nat, elem: Elem) -> Variable {
    Variable::Local { id: id as u16, depth, item: Item { elem, vectorization: 1 } }
}

/// The constant zero of the element type of `v`.
pub open spec fn zero_like(v: Variable) -> Variable {
    Variable::ConstantScalar(
        match v.item_spec() {
            Some(item) => match item.elem {
                Elem::Float(kind) => ConstantValue::Float(0, kind),
                Elem::Int(kind) => ConstantValue::Int(0, kind),
                Elem::AtomicInt(kind) => ConstantValue::Int(0, kind),
                Elem::Bool => ConstantValue::Bool(false),
                _ => ConstantValue::UInt(0),
            },
            None => ConstantValue::UInt(0),
        },
    )
}

/// A scope without locals that holds the one operation `op`.
pub open spec fn single(depth: u8, op: OperationView) -> ScopeView {
    ScopeView { depth, locals: Seq::empty(), operations: seq![op] }
}

/// A plain operation with one operand.
pub open spec fn plain1(kind: OpKind, a: Variable, out: Variable) -> OperationView {
    OperationView::Plain(InstructionView { kind, out: Some(out), args: seq![a] })
}

/// A plain operation with two operands.
pub open spec fn plain2(kind: OpKind, a: Variable, b: Variable, out: Variable) -> OperationView {
    OperationView::Plain(InstructionView { kind, out: Some(out), args: seq![a, b] })
}

/// A test that guards an access: the length of `array` goes to the first
/// temporary, the result of comparing `index` with it to the second, and
/// `guarded` follows.
pub open spec fn guarded(
    depth: u8,
    next_local: nat,
    array: Variable,
    index: Variable,
    test: OpKind,
    guarded: BranchView,
) -> Result<ScopeView, OptError> {
    if next_local + 1 > u16::MAX {
        Err(OptError::TooManyLocals)
    } else {
        let len = temporary(depth, next_local, Elem::UInt);
        let flag = temporary(depth, next_local + 1, Elem::Bool);
        Ok(
            ScopeView {
                depth,
                locals: seq![len, flag],
                operations: seq![
                    plain1(OpKind::Length, array, len),
                    plain2(test, index, len, flag),
                    OperationView::Branch(guarded),
                ],
            },
        )
    }
}

/// The number of lanes of the items of `tensor`, as a constant.
pub open spec fn lanes_of(tensor: Variable) -> Variable {
    Variable::ConstantScalar(
        ConstantValue::UInt(
            match tensor.item_spec() {
                Some(item) => item.vectorization as u64,
                None => 1,
            },
        ),
    )
}

/// The six temporaries of an offset through a layout, numbered from
/// `first`: the dimension, the stride of the layout, the position in the
/// dimension, the stride and the extent of the tensor, and one product.
pub open spec fn offset_locals(depth: u8, first: nat) -> Seq<Variable> {
    seq![
        temporary(depth, first, Elem::UInt),
        temporary(depth, first + 1, Elem::UInt),
        temporary(depth, first + 2, Elem::UInt),
        temporary(depth, first + 3, Elem::UInt),
        temporary(depth, first + 4, Elem::UInt),
        temporary(depth, first + 5, Elem::UInt),
    ]
}

/// What one dimension adds to the offset: the position is divided by the
/// stride of the layout, taken modulo the extent of the tensor and
/// multiplied by the stride of the tensor.
pub open spec fn offset_body(
    depth: u8,
    first: nat,
    tensor: Variable,
    layout: Variable,
    index: Variable,
    position: Variable,
) -> ScopeView {
    let dim = temporary(depth, first, Elem::UInt);
    let stride_layout = temporary(depth, first + 1, Elem::UInt);
    let place = temporary(depth, first + 2, Elem::UInt);
    let stride = temporary(depth, first + 3, Elem::UInt);
    let shape = temporary(depth, first + 4, Elem::UInt);
    let product = temporary(depth, first + 5, Elem::UInt);
    ScopeView {
        depth,
        locals: Seq::empty(),
        operations: seq![
            plain2(OpKind::Stride, layout, dim, stride_layout),
            plain2(OpKind::Mul, position, lanes_of(tensor), place),
            plain2(OpKind::Div, place, stride_layout, place),
            plain2(OpKind::Stride, tensor, dim, stride),
            plain2(OpKind::Shape, tensor, dim, shape),
            plain2(OpKind::Modulo, place, shape, product),
            plain2(OpKind::Mul, product, stride, product),
            plain2(OpKind::Add, index, product, index),
        ],
    }
}

/// The operations of an offset through a layout: the index begins at
/// zero, each dimension from `dim_start` up to `dim_end` adds to it, and
/// the sum is divided by the number of lanes.
pub open spec fn offset_ops(
    depth: u8,
    first: nat,
    tensor: Variable,
    layout: Variable,
    index: Variable,
    position: Variable,
    dim_start: Variable,
    dim_end: Variable,
) -> Seq<OperationView> {
    seq![
        plain1(OpKind::Assign, Variable::ConstantScalar(ConstantValue::UInt(0)), index),
        OperationView::Branch(
            BranchView::RangeLoop {
                i: temporary(depth, first, Elem::UInt),
                start: dim_start,
                end: dim_end,
                step: None,
                inclusive: false,
                scope: offset_body(depth, first, tensor, layout, index, position),
            },
        ),
        plain2(OpKind::Div, index, lanes_of(tensor), index),
    ]
}

/// The scope that a procedure stands for, in a scope of depth `depth` whose
/// next free local has the number `next_local`.
pub open spec fn expand_spec(p: Procedure, depth: u8, next_local: nat) -> Result<
    ScopeView,
    OptError,
> {
    match p {
        Procedure::ReadGlobal { global, out } => Ok(
            single(
                depth,
                plain2(OpKind::Index, global, Variable::Position(Position::AbsolutePos), out),
            ),
        ),
        Procedure::ReadGlobalWithLayout { global, layout, out } => if next_local + 6
            > u16::MAX {
            Err(OptError::TooManyLocals)
        } else {
            let index = temporary(depth, next_local, Elem::UInt);
            Ok(
                ScopeView {
                    depth,
                    locals: seq![index] + offset_locals(depth, next_local + 1),
                    operations: offset_ops(
                        depth,
                        next_local + 1,
                        global,
                        layout,
                        index,
                        Variable::Position(Position::AbsolutePos),
                        Variable::ConstantScalar(ConstantValue::UInt(0)),
                        Variable::Position(Position::Rank),
                    ).push(plain2(OpKind::Index, global, index, out)),
                },
            )
        },
        Procedure::WriteGlobal { input, global } => Ok(
            single(
                depth,
                plain2(
                    OpKind::IndexAssign,
                    Variable::Position(Position::AbsolutePos),
                    input,
                    global,
                ),
            ),
        ),
        Procedure::ConditionalAssign { cond, lhs, rhs, out } => Ok(
            single(
                depth,
                OperationView::Branch(
                    BranchView::IfElse {
                        cond,
                        scope_if: single(depth, plain1(OpKind::Assign, lhs, out)),
                        scope_else: single(depth, plain1(OpKind::Assign, rhs, out)),
                    },
                ),
            ),
        ),
        Procedure::CheckedIndex { lhs, rhs, out } => guarded(
            depth,
            next_local,
            lhs,
            rhs,
            OpKind::Lower,
            BranchView::IfElse {
                cond: temporary(depth, next_local + 1, Elem::Bool),
                scope_if: single(depth, plain2(OpKind::UncheckedIndex, lhs, rhs, out)),
                scope_else: single(depth, plain1(OpKind::Assign, zero_like(out), out)),
            },
        ),
        Procedure::CheckedIndexAssign { lhs, rhs, out } => guarded(
            depth,
            next_local,
            out,
            lhs,
            OpKind::Lower,
            BranchView::If {
                cond: temporary(depth, next_local + 1, Elem::Bool),
                scope: single(depth, plain2(OpKind::UncheckedIndexAssign, lhs, rhs, out)),
            },
        ),
        Procedure::IndexOffsetGlobalWithLayout {
            tensor,
            layout,
            index,
            position,
            dim_start,
            dim_end,
        } => if next_local + 5 > u16::MAX {
            Err(OptError::TooManyLocals)
        } else {
            Ok(
                ScopeView {
                    depth,
                    locals: offset_locals(depth, next_local),
                    operations: offset_ops(
                        depth,
                        next_local,
                        tensor,
                        layout,
                        index,
                        position,
                        dim_start,
                        dim_end,
                    ),
                },
            )
        },
        Procedure::EarlyReturn { global, position } => guarded(
            depth,
            next_local,
            global,
            position,
            OpKind::GreaterEqual,
            BranchView::If {
                cond: temporary(depth, next_local + 1, Elem::Bool),
                scope: single(depth, OperationView::Branch(BranchView::Return)),
            },
        ),
    }
}

/// The weight of one operation, two and three in a row.
pub proof fn lemma_weight_short(a: OperationView, b: OperationView, c: OperationView)
    ensures
        operations_weight(seq![a]) == 1 + a.weight(),
        operations_weight(seq![a, b]) == 2 + a.weight() + b.weight(),
        operations_weight(seq![a, b, c]) == 3 + a.weight() + b.weight() + c.weight(),
{
    let s1 = seq![a];
    let s2 = seq![a, b];
    let s3 = seq![a, b, c];
    assert(s1.drop_last() =~= Seq::<OperationView>::empty());
    assert(s2.drop_last() =~= s1);
    assert(s3.drop_last() =~= s2);
    assert(operations_weight(s1.drop_last()) == 0);
    assert(operations_weight(s1) == 1 + operations_weight(s1.drop_last()) + s1.last().weight());
    assert(operations_weight(s2) == 1 + operations_weight(s2.drop_last()) + s2.last().weight());
    assert(operations_weight(s3) == 1 + operations_weight(s3.drop_last()) + s3.last().weight());
}

/// The weight of a scope that holds one operation.
pub proof fn lemma_single_weight(depth: u8, op: OperationView)
    ensures
        single(depth, op).weight() == 2 + op.weight(),
{
    lemma_weight_short(op, op, op);
}

/// The weight of a guarded access.
pub proof fn lemma_guarded_weight(
    depth: u8,
    next_local: nat,
    array: Variable,
    index: Variable,
    test: OpKind,
    branch: BranchView,
)
    ensures
        match guarded(depth, next_local, array, index, test, branch) {
            Ok(scope) => scope.weight() == 7 + branch.weight() && scope.depth == depth
                && next_local + scope.locals.len() <= u16::MAX + 1,
            Err(_) => true,
        },
{
    match guarded(depth, next_local, array, index, test, branch) {
        Ok(scope) => {
            let a = scope.operations[0];
            let b = scope.operations[1];
            let c = scope.operations[2];
            lemma_weight_short(a, b, c);
            assert(scope.operations =~= seq![a, b, c]);
            assert(a.weight() == 1);
            assert(b.weight() == 1);
            assert(c.weight() == 1 + branch.weight());
            assert(scope.weight() == 1 + operations_weight(scope.operations));
        },
        Err(_) => {},
    }
}

/// Operations that are all plain weigh two each.
pub proof fn lemma_plain_weight(ops: Seq<OperationView>)
    requires
        forall|i: int| 0 <= i < ops.len() ==> #[trigger] ops[i] is Plain,
    ensures
        operations_weight(ops) == 2 * ops.len(),
    decreases ops.len(),
{
    if ops.len() > 0 {
        let front = ops.drop_last();
        assert forall|i: int| 0 <= i < front.len() implies #[trigger] front[i] is Plain by {
            assert(front[i] == ops[i]);
        }
        lemma_plain_weight(front);
        assert(ops[ops.len() - 1] is Plain);
        assert(ops.last().weight() == 1);
        assert(operations_weight(ops) == 1 + operations_weight(front) + ops.last().weight());
    }
}

/// The weight of the operations of an offset through a layout.
pub proof fn lemma_offset_weight(
    depth: u8,
    first: nat,
    tensor: Variable,
    layout: Variable,
    index: Variable,
    position: Variable,
    dim_start: Variable,
    dim_end: Variable,
)
    ensures
        operations_weight(
            offset_ops(depth, first, tensor, layout, index, position, dim_start, dim_end),
        ) == 24,
{
    let body = offset_body(depth, first, tensor, layout, index, position);
    lemma_plain_weight(body.operations);
    assert(body.weight() == 17);
    let ops = offset_ops(depth, first, tensor, layout, index, position, dim_start, dim_end);
    lemma_weight_short(ops[0], ops[1], ops[2]);
    assert(ops =~= seq![ops[0], ops[1], ops[2]]);
    assert(ops[1] == OperationView::Branch(
        BranchView::RangeLoop {
            i: temporary(depth, first, Elem::UInt),
            start: dim_start,
            end: dim_end,
            step: None,
            inclusive: false,
            scope: body,
        },
    ));
    assert(ops[1]->Branch_0.weight() == 18);
    assert(ops[1].weight() == 19);
    assert(ops[0].weight() == 1);
    assert(ops[2].weight() == 1);
}

/// The expansion of a procedure weighs no more than `expansion_weight`, has
/// the depth that was asked for, and its locals can be numbered.
pub proof fn lemma_expansion_weight(p: Procedure, depth: u8, next_local: nat)
    ensures
        match expand_spec(p, depth, next_local) {
            Ok(scope) => scope.weight() <= expansion_weight() && scope.depth == depth && (
            next_local <= u16::MAX + 1 ==> next_local + scope.locals.len() <= u16::MAX + 1),
            Err(_) => true,
        },
{
    let flag = temporary(depth, next_local + 1, Elem::Bool);
    match p {
        Procedure::ReadGlobal { global, out } => {
            let op = plain2(OpKind::Index, global, Variable::Position(Position::AbsolutePos), out);
            lemma_single_weight(depth, op);
            assert(op.weight() == 1);
        },
        Procedure::WriteGlobal { input, global } => {
            let op = plain2(
                OpKind::IndexAssign,
                Variable::Position(Position::AbsolutePos),
                input,
                global,
            );
            lemma_single_weight(depth, op);
            assert(op.weight() == 1);
        },
        Procedure::ConditionalAssign { cond, lhs, rhs, out } => {
            let a = plain1(OpKind::Assign, lhs, out);
            let b = plain1(OpKind::Assign, rhs, out);
            lemma_single_weight(depth, a);
            lemma_single_weight(depth, b);
            assert(a.weight() == 1 && b.weight() == 1);
            let branch = BranchView::IfElse {
                cond,
                scope_if: single(depth, a),
                scope_else: single(depth, b),
            };
            assert(branch.weight() == 7);
            let op = OperationView::Branch(branch);
            assert(op.weight() == 8);
            lemma_single_weight(depth, op);
        },
        Procedure::CheckedIndex { lhs, rhs, out } => {
            let a = plain2(OpKind::UncheckedIndex, lhs, rhs, out);
            let b = plain1(OpKind::Assign, zero_like(out), out);
            lemma_single_weight(depth, a);
            lemma_single_weight(depth, b);
            assert(a.weight() == 1 && b.weight() == 1);
            let branch = BranchView::IfElse {
                cond: flag,
                scope_if: single(depth, a),
                scope_else: single(depth, b),
            };
            assert(branch.weight() == 7);
            lemma_guarded_weight(depth, next_local, lhs, rhs, OpKind::Lower, branch);
        },
        Procedure::CheckedIndexAssign { lhs, rhs, out } => {
            let a = plain2(OpKind::UncheckedIndexAssign, lhs, rhs, out);
            lemma_single_weight(depth, a);
            assert(a.weight() == 1);
            let branch = BranchView::If { cond: flag, scope: single(depth, a) };
            assert(branch.weight() == 4);
            lemma_guarded_weight(depth, next_local, out, lhs, OpKind::Lower, branch);
        },
        Procedure::EarlyReturn { global, position } => {
            let a = OperationView::Branch(BranchView::Return);
            lemma_single_weight(depth, a);
            assert(BranchView::Return.weight() == 1);
            assert(a.weight() == 2);
            let branch = BranchView::If { cond: flag, scope: single(depth, a) };
            assert(branch.weight() == 5);
            lemma_guarded_weight(depth, next_local, global, position, OpKind::GreaterEqual, branch);
        },
        Procedure::ReadGlobalWithLayout { global, layout, out } => {
            if next_local + 6 <= u16::MAX {
                let index = temporary(depth, next_local, Elem::UInt);
                let position = Variable::Position(Position::AbsolutePos);
                let zero = Variable::ConstantScalar(ConstantValue::UInt(0));
                let rank = Variable::Position(Position::Rank);
                let ops = offset_ops(
                    depth,
                    next_local + 1,
                    global,
                    layout,
                    index,
                    position,
                    zero,
                    rank,
                );
                lemma_offset_weight(
                    depth,
                    next_local + 1,
                    global,
                    layout,
                    index,
                    position,
                    zero,
                    rank,
                );
                let read = plain2(OpKind::Index, global, index, out);
                assert(ops.push(read).drop_last() =~= ops);
                assert(read.weight() == 1);
                assert(operations_weight(ops.push(read)) == 26);
            }
        },
        Procedure::IndexOffsetGlobalWithLayout {
            tensor,
            layout,
            index,
            position,
            dim_start,
            dim_end,
        } => {
            lemma_offset_weight(
                depth,
                next_local,
                tensor,
                layout,
                index,
                position,
                dim_start,
                dim_end,
            );
        },
    }
}

/// The constant zero of the element type of `v`.
pub fn zero_of(v: &Variable) -> (zero: Variable)
    ensures
        zero == zero_like(*v),
{
    Variable::ConstantScalar(
        match v.item() {
            Some(item) => match item.elem {
                Elem::Float(kind) => ConstantValue::Float(0, kind),
                Elem::Int(kind) => ConstantValue::Int(0, kind),
                Elem::AtomicInt(kind) => ConstantValue::Int(0, kind),
                Elem::Bool => ConstantValue::Bool(false),
                _ => ConstantValue::UInt(0),
            },
            None => ConstantValue::UInt(0),
        },
    )
}

/// A scope without locals that holds the one operation `op`.
pub fn single_scope(depth: u8, op: Operation) -> (scope: Scope)
    ensures
        scope@ == single(depth, op@),
{
    let ghost view = op@;
    let mut operations: Vec<Operation> = Vec::new();
    operations.push(op);
    let scope = Scope { depth, locals: Vec::new(), operations };
    proof {
        assert(scope@.operations =~= seq![view]);
        assert(scope@.locals =~= Seq::empty());
    }
    scope
}

/// A scope that tests an index against the length of an array before the
/// branch `branch`.
pub fn guarded_scope(
    depth: u8,
    next_local: u32,
    array: Variable,
    index: Variable,
    test: OpKind,
    branch: Branch,
) -> (made: Result<Scope, OptError>)
    ensures
        match guarded(depth, next_local as nat, array, index, test, branch@) {
            Ok(s) => match made {
                Ok(scope) => scope@ == s,
                Err(_) => false,
            },
            Err(e) => match made {
                Ok(_) => false,
                Err(e2) => e2 == e,
            },
        },
{
    if next_local >= 65535 {
        return Err(OptError::TooManyLocals);
    }
    let ghost view = branch@;
    let len = Variable::Local {
        id: next_local as u16,
        depth,
        item: Item { elem: Elem::UInt, vectorization: 1 },
    };
    let flag = Variable::Local {
        id: (next_local + 1) as u16,
        depth,
        item: Item { elem: Elem::Bool, vectorization: 1 },
    };
    let mut locals: Vec<Variable> = Vec::new();
    locals.push(len);
    locals.push(flag);
    let mut operations: Vec<Operation> = Vec::new();
    operations.push(Operation::Metadata(Instruction::unary(OpKind::Length, array, len)));
    operations.push(Operation::Operator(Instruction::binary(test, index, len, flag)));
    operations.push(Operation::Branch(branch));
    let scope = Scope { depth, locals, operations };
    proof {
        assert(scope@.locals =~= seq![len, flag]);
        assert(scope@.operations =~= seq![
            plain1(OpKind::Length, array, len),
            plain2(test, index, len, flag),
            OperationView::Branch(view),
        ]);
    }
    Ok(scope)
}

/// The number of lanes of the items of `tensor`, as a constant.
pub fn lanes(tensor: &Variable) -> (lanes: Variable)
    ensures
        lanes == lanes_of(*tensor),
{
    Variable::ConstantScalar(
        ConstantValue::UInt(
            match tensor.item() {
                Some(item) => item.vectorization as u64,
                None => 1,
            },
        ),
    )
}

/// The scope of an offset through a layout, with its six temporaries
/// numbered from `first`.
pub fn offset_scope(
    depth: u8,
    first: u32,
    tensor: Variable,
    layout: Variable,
    index: Variable,
    position: Variable,
    dim_start: Variable,
    dim_end: Variable,
) -> (scope: Scope)
    requires
        first + 5 <= u16::MAX,
    ensures
        scope@ == (ScopeView {
            depth,
            locals: offset_locals(depth, first as nat),
            operations: offset_ops(
                depth,
                first as nat,
                tensor,
                layout,
                index,
                position,
                dim_start,
                dim_end,
            ),
        }),
{
    let uint = Item { elem: Elem::UInt, vectorization: 1 };
    let dim = Variable::Local { id: first as u16, depth, item: uint };
    let stride_layout = Variable::Local { id: (first + 1) as u16, depth, item: uint };
    let place = Variable::Local { id: (first + 2) as u16, depth, item: uint };
    let stride = Variable::Local { id: (first + 3) as u16, depth, item: uint };
    let shape = Variable::Local { id: (first + 4) as u16, depth, item: uint };
    let product = Variable::Local { id: (first + 5) as u16, depth, item: uint };
    let lanes = lanes(&tensor);
    let mut round: Vec<Operation> = Vec::new();
    round.push(Operation::Metadata(Instruction::binary(OpKind::Stride, layout, dim, stride_layout)));
    round.push(Operation::Operator(Instruction::binary(OpKind::Mul, position, lanes, place)));
    round.push(Operation::Operator(Instruction::binary(OpKind::Div, place, stride_layout, place)));
    round.push(Operation::Metadata(Instruction::binary(OpKind::Stride, tensor, dim, stride)));
    round.push(Operation::Metadata(Instruction::binary(OpKind::Shape, tensor, dim, shape)));
    round.push(Operation::Operator(Instruction::binary(OpKind::Modulo, place, shape, product)));
    round.push(Operation::Operator(Instruction::binary(OpKind::Mul, product, stride, product)));
    round.push(Operation::Operator(Instruction::binary(OpKind::Add, index, product, index)));
    let body = Scope { depth, locals: Vec::new(), operations: round };
    proof {
        lemma_scope_view(&body);
        assert(body@.locals =~= Seq::empty());
        assert(body@.operations =~= offset_body(
            depth,
            first as nat,
            tensor,
            layout,
            index,
            position,
        ).operations);
    }
    let mut locals: Vec<Variable> = Vec::new();
    locals.push(dim);
    locals.push(stride_layout);
    locals.push(place);
    locals.push(stride);
    locals.push(shape);
    locals.push(product);
    let mut operations: Vec<Operation> = Vec::new();
    operations.push(
        Operation::Operator(
            Instruction::unary(
                OpKind::Assign,
                Variable::ConstantScalar(ConstantValue::UInt(0)),
                index,
            ),
        ),
    );
    operations.push(
        Operation::Branch(
            Branch::RangeLoop {
                i: dim,
                start: dim_start,
                end: dim_end,
                step: None,
                inclusive: false,
                scope: body,
            },
        ),
    );
    operations.push(Operation::Operator(Instruction::binary(OpKind::Div, index, lanes, index)));
    let scope = Scope { depth, locals, operations };
    proof {
        lemma_scope_view(&scope);
        assert(scope@.locals =~= offset_locals(depth, first as nat));
        assert(scope@.operations =~= offset_ops(
            depth,
            first as nat,
            tensor,
            layout,
            index,
            position,
            dim_start,
            dim_end,
        ));
    }
    scope
}

/// The scope that the procedure `p` stands for, in a scope of depth `depth`
/// whose next free local has the number `next_local`.
pub fn expand(p: &Procedure, depth: u8, next_local: u32) -> (made: Result<Scope, OptError>)
    ensures
        match expand_spec(*p, depth, next_local as nat) {
            Ok(s) => match made {
                Ok(scope) => scope@ == s,
                Err(_) => false,
            },
            Err(e) => match made {
                Ok(_) => false,
                Err(e2) => e2 == e,
            },
        },
{
    let position = Variable::Position(Position::AbsolutePos);
    match *p {
        Procedure::ReadGlobal { global, out } => Ok(
            single_scope(
                depth,
                Operation::Operator(Instruction::binary(OpKind::Index, global, position, out)),
            ),
        ),
        Procedure::ReadGlobalWithLayout { global, layout, out } => {
            if next_local >= 65530 {
                return Err(OptError::TooManyLocals);
            }
            let index = Variable::Local {
                id: next_local as u16,
                depth,
                item: Item { elem: Elem::UInt, vectorization: 1 },
            };
            let mut scope = offset_scope(
                depth,
                next_local + 1,
                global,
                layout,
                index,
                position,
                Variable::ConstantScalar(ConstantValue::UInt(0)),
                Variable::Position(Position::Rank),
            );
            let ghost inner = scope@;
            proof {
                lemma_scope_view(&scope);
            }
            scope.locals.insert(0, index);
            scope.operations.push(
                Operation::Operator(Instruction::binary(OpKind::Index, global, index, out)),
            );
            proof {
                lemma_scope_view(&scope);
                assert(scope@.locals =~= seq![index] + inner.locals);
                assert(scope@.operations =~= inner.operations.push(
                    plain2(OpKind::Index, global, index, out),
                ));
            }
            Ok(scope)
        },
        Procedure::WriteGlobal { input, global } => Ok(
            single_scope(
                depth,
                Operation::Operator(
                    Instruction::binary(OpKind::IndexAssign, position, input, global),
                ),
            ),
        ),
        Procedure::ConditionalAssign { cond, lhs, rhs, out } => {
            let scope_if = single_scope(
                depth,
                Operation::Operator(Instruction::unary(OpKind::Assign, lhs, out)),
            );
            let scope_else = single_scope(
                depth,
                Operation::Operator(Instruction::unary(OpKind::Assign, rhs, out)),
            );
            Ok(
                single_scope(
                    depth,
                    Operation::Branch(Branch::IfElse { cond, scope_if, scope_else }),
                ),
            )
        },
        Procedure::CheckedIndex { lhs, rhs, out } => {
            if next_local >= 65535 {
                return Err(OptError::TooManyLocals);
            }
            let flag = Variable::Local {
                id: (next_local + 1) as u16,
                depth,
                item: Item { elem: Elem::Bool, vectorization: 1 },
            };
            let scope_if = single_scope(
                depth,
                Operation::Operator(Instruction::binary(OpKind::UncheckedIndex, lhs, rhs, out)),
            );
            let scope_else = single_scope(
                depth,
                Operation::Operator(Instruction::unary(OpKind::Assign, zero_of(&out), out)),
            );
            guarded_scope(
                depth,
                next_local,
                lhs,
                rhs,
                OpKind::Lower,
                Branch::IfElse { cond: flag, scope_if, scope_else },
            )
        },
        Procedure::CheckedIndexAssign { lhs, rhs, out } => {
            if next_local >= 65535 {
                return Err(OptError::TooManyLocals);
            }
            let flag = Variable::Local {
                id: (next_local + 1) as u16,
                depth,
                item: Item { elem: Elem::Bool, vectorization: 1 },
            };
            let scope = single_scope(
                depth,
                Operation::Operator(
                    Instruction::binary(OpKind::UncheckedIndexAssign, lhs, rhs, out),
                ),
            );
            guarded_scope(
                depth,
                next_local,
                out,
                lhs,
                OpKind::Lower,
                Branch::If { cond: flag, scope },
            )
        },
        Procedure::IndexOffsetGlobalWithLayout {
            tensor,
            layout,
            index,
            position,
            dim_start,
            dim_end,
        } => {
            if next_local >= 65531 {
                return Err(OptError::TooManyLocals);
            }
            Ok(offset_scope(depth, next_local, tensor, layout, index, position, dim_start, dim_end))
        },
        Procedure::EarlyReturn { global, position } => {
            if next_local >= 65535 {
                return Err(OptError::TooManyLocals);
            }
            let flag = Variable::Local {
                id: (next_local + 1) as u16,
                depth,
                item: Item { elem: Elem::Bool, vectorization: 1 },
            };
            let scope = single_scope(depth, Operation::Branch(Branch::Return));
            guarded_scope(
                depth,
                next_local,
                global,
                position,
                OpKind::GreaterEqual,
                Branch::If { cond: flag, scope },
            )
        },
    }
}

} // verus!
