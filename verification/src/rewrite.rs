//! The passes that rewrite one instruction at a time: what each of them
//! makes of the instruction at a place in a block.

use crate::instruction::{instruction_views, Instruction, InstructionView, OpKind};
use crate::ir::{ConstantValue, Elem, Item, Variable};
use crate::semantics::{
    eval_binary, eval_ternary, eval_unary, fold_binary, fold_ternary, fold_unary,
};
use vstd::prelude::*;

verus! {

/// `out = value`.
pub open spec fn assign(out: Variable, value: Variable) -> InstructionView {
    InstructionView { kind: OpKind::Assign, out: Some(out), args: seq![value] }
}

/// `out = c`, if there is a `c`.
pub open spec fn assign_constant(out: Variable, c: Option<ConstantValue>) -> Option<
    InstructionView,
> {
    match c {
        Some(c) => Some(assign(out, Variable::ConstantScalar(c))),
        None => None,
    }
}

/// Constant evaluation: an instruction other than a plain assignment whose
/// operands are all constants, and on which its operator is defined, is
/// the assignment of the result.
pub open spec fn const_eval(op: InstructionView) -> Option<InstructionView> {
    match op.out {
        Some(out) => if op.kind == OpKind::Assign {
            None
        } else if op.args.len() == 1 {
            match op.args[0].constant() {
                Some(a) => assign_constant(out, eval_unary(op.kind, a)),
                None => None,
            }
        } else if op.args.len() == 2 {
            match (op.args[0].constant(), op.args[1].constant()) {
                (Some(a), Some(b)) => assign_constant(out, eval_binary(op.kind, a, b)),
                _ => None,
            }
        } else if op.args.len() == 3 {
            match (op.args[0].constant(), op.args[1].constant(), op.args[2].constant()) {
                (Some(a), Some(b), Some(c)) => assign_constant(
                    out,
                    eval_ternary(op.kind, a, b, c),
                ),
                _ => None,
            }
        } else {
            None
        },
        None => None,
    }
}

/// Whether `c` is the zero of the element type `elem`.
pub open spec fn is_zero_of(c: ConstantValue, elem: Elem) -> bool {
    match c {
        ConstantValue::Int(v, k) => v == 0 && elem == Elem::Int(k),
        ConstantValue::UInt(v) => v == 0 && elem == Elem::UInt,
        _ => false,
    }
}

/// Whether `c` is the one of the element type `elem`.
pub open spec fn is_one_of(c: ConstantValue, elem: Elem) -> bool {
    match c {
        ConstantValue::Int(v, k) => v == 1 && elem == Elem::Int(k),
        ConstantValue::UInt(v) => v == 1 && elem == Elem::UInt,
        _ => false,
    }
}

/// What is left of `x op c`, where `c` is a constant and `x` has the
/// element type `elem`: `x` itself, the constant, or nothing to simplify.
/// `scalar` says whether `x` is a scalar; only then can the constant stand
/// for the result.
pub open spec fn absorb_right(kind: OpKind, x: Variable, elem: Elem, scalar: bool, c: ConstantValue) -> Option<
    Variable,
> {
    match kind {
        OpKind::Add => if is_zero_of(c, elem) {
            Some(x)
        } else {
            None
        },
        OpKind::Sub => if is_zero_of(c, elem) {
            Some(x)
        } else {
            None
        },
        OpKind::Mul => if is_one_of(c, elem) {
            Some(x)
        } else if is_zero_of(c, elem) && scalar {
            Some(Variable::ConstantScalar(c))
        } else {
            None
        },
        OpKind::Div => if is_one_of(c, elem) {
            Some(x)
        } else {
            None
        },
        OpKind::BitwiseOr => if is_zero_of(c, elem) {
            Some(x)
        } else {
            None
        },
        OpKind::BitwiseXor => if is_zero_of(c, elem) {
            Some(x)
        } else {
            None
        },
        OpKind::BitwiseAnd => if is_zero_of(c, elem) && scalar {
            Some(Variable::ConstantScalar(c))
        } else {
            None
        },
        OpKind::And => if elem == Elem::Bool {
            match c {
                ConstantValue::Bool(true) => Some(x),
                ConstantValue::Bool(false) => if scalar {
                    Some(Variable::ConstantScalar(c))
                } else {
                    None
                },
                _ => None,
            }
        } else {
            None
        },
        OpKind::Or => if elem == Elem::Bool {
            match c {
                ConstantValue::Bool(false) => Some(x),
                ConstantValue::Bool(true) => if scalar {
                    Some(Variable::ConstantScalar(c))
                } else {
                    None
                },
                _ => None,
            }
        } else {
            None
        },
        _ => None,
    }
}

/// Whether the operands of the operator may change places.
pub open spec fn commutes(kind: OpKind) -> bool {
    kind == OpKind::Add || kind == OpKind::Mul || kind == OpKind::BitwiseOr || kind
        == OpKind::BitwiseXor || kind == OpKind::BitwiseAnd || kind == OpKind::And || kind
        == OpKind::Or
}

/// Simplification with a constant operand: an instruction with two
/// operands of which one is a constant that leaves the other as it is, or
/// that decides the result alone, is the assignment of what is left.
pub open spec fn simplify(op: InstructionView) -> Option<InstructionView> {
    match op.out {
        Some(out) => if op.args.len() == 2 {
            let x = op.args[0];
            let y = op.args[1];
            match (x.item_spec(), y.constant()) {
                (Some(item), Some(c)) => match absorb_right(
                    op.kind,
                    x,
                    item.elem,
                    item.vectorization == 1,
                    c,
                ) {
                    Some(v) => Some(assign(out, v)),
                    None => None,
                },
                _ => match (y.item_spec(), x.constant()) {
                    (Some(item), Some(c)) => if commutes(op.kind) {
                        match absorb_right(op.kind, y, item.elem, item.vectorization == 1, c) {
                            Some(v) => Some(assign(out, v)),
                            None => None,
                        }
                    } else {
                        None
                    },
                    _ => None,
                },
            }
        } else {
            None
        },
        None => None,
    }
}

/// The number that a constant index stands for.
pub open spec fn index_number(v: Variable) -> Option<nat> {
    match v {
        Variable::ConstantScalar(ConstantValue::UInt(i)) => Some(i as nat),
        Variable::ConstantScalar(ConstantValue::Int(i, _)) => if i >= 0 {
            Some(i as nat)
        } else {
            None
        },
        _ => None,
    }
}

/// Whether all of `args` are constants.
pub open spec fn all_constant(args: Seq<Variable>) -> bool {
    forall|i: int| 0 <= i < args.len() ==> (#[trigger] args[i]) is ConstantScalar
}

/// Whether `op` makes `a` a vector of constants: it assigns all its lanes
/// at once, each a constant.
pub open spec fn makes_constant_vector(op: InstructionView, a: Variable) -> bool {
    op.kind == OpKind::Composite && op.out == Some(a) && all_constant(op.args)
}

/// The last place below `upto` where `a` is made a vector of constants,
/// or -1.
pub open spec fn constant_vector_at(ops: Seq<InstructionView>, a: Variable, upto: int) -> int
    decreases upto,
{
    if upto <= 0 {
        -1
    } else if upto - 1 < ops.len() && makes_constant_vector(ops[upto - 1], a) {
        upto - 1
    } else {
        constant_vector_at(ops, a, upto - 1)
    }
}

/// Removal of indexing into a known vector of constants: `out = a[k]`,
/// where `k` is a constant and `a` is a versioned variable that was made a
/// vector of constants earlier in the block, with a lane `k`, is
/// `out = c`, the constant of that lane.
pub open spec fn remove_index_scalar(ops: Seq<InstructionView>, j: int) -> Option<
    InstructionView,
> {
    if 0 <= j < ops.len() && ops[j].out is Some && (ops[j].kind == OpKind::Index || ops[j].kind
        == OpKind::UncheckedIndex) && ops[j].args.len() == 2 && ops[j].args[0] is Versioned {
        match index_number(ops[j].args[1]) {
            Some(k) => {
                let at = constant_vector_at(ops, ops[j].args[0], j);
                if at >= 0 && k < ops[at].args.len() {
                    Some(assign(ops[j].out->0, ops[at].args[k as int]))
                } else {
                    None
                }
            },
            None => None,
        }
    } else {
        None
    }
}

/// Whether `t` is a versioned vector: a value of two lanes or more.
pub open spec fn is_vector_value(t: Variable) -> bool {
    match t {
        Variable::Versioned { item, .. } => item.vectorization >= 2,
        _ => false,
    }
}

/// Copy transformation: `t = a[i]` with `b[j] = t` right behind it, where
/// `t` is a vector, makes the second instruction the copy of one item from
/// `a[i]` to `b[j]`.
pub open spec fn copy_transform(ops: Seq<InstructionView>, j: int) -> Option<InstructionView> {
    if 1 <= j < ops.len() {
        let load = ops[j - 1];
        let store = ops[j];
        match (load.out, store.out) {
            (Some(t), Some(b)) => if (load.kind == OpKind::Index || load.kind
                == OpKind::UncheckedIndex) && load.args.len() == 2 && store.kind
                == OpKind::IndexAssign && store.args.len() == 2 && store.args[1] == t
                && is_vector_value(t) {
                Some(
                    InstructionView {
                        kind: OpKind::Copy,
                        out: Some(b),
                        args: seq![
                            load.args[0],
                            load.args[1],
                            Variable::ConstantScalar(ConstantValue::UInt(1)),
                            store.args[0],
                        ],
                    },
                )
            } else {
                None
            },
            _ => None,
        }
    } else {
        None
    }
}

/// Whether an instruction of this kind computes a value from the values of
/// its operands alone, so that equal operands give equal results.
pub open spec fn is_value_kind(kind: OpKind) -> bool {
    match kind {
        OpKind::Add => true,
        OpKind::Sub => true,
        OpKind::Mul => true,
        OpKind::Div => true,
        OpKind::Modulo => true,
        OpKind::Min => true,
        OpKind::Max => true,
        OpKind::And => true,
        OpKind::Or => true,
        OpKind::BitwiseAnd => true,
        OpKind::BitwiseOr => true,
        OpKind::BitwiseXor => true,
        OpKind::ShiftLeft => true,
        OpKind::ShiftRight => true,
        OpKind::Equal => true,
        OpKind::NotEqual => true,
        OpKind::Lower => true,
        OpKind::LowerEqual => true,
        OpKind::Greater => true,
        OpKind::GreaterEqual => true,
        OpKind::Not => true,
        OpKind::Neg => true,
        OpKind::Clamp => true,
        OpKind::Select => true,
        _ => false,
    }
}

/// Whether the value of `v` is the same wherever it is read.
pub open spec fn is_stable(v: Variable) -> bool {
    v is Versioned || v is ConstantScalar || v is GlobalScalar || v is Position
}

/// Whether all of `args` are stable.
pub open spec fn all_stable(args: Seq<Variable>) -> bool {
    forall|i: int| 0 <= i < args.len() ==> is_stable(#[trigger] args[i])
}

/// Whether `op` is an expression that can stand for a later one that is
/// the same: it computes a value from stable operands into a versioned
/// variable.
pub open spec fn is_expression(op: InstructionView) -> bool {
    &&& is_value_kind(op.kind)
    &&& op.out is Some
    &&& op.out->0 is Versioned
    &&& all_stable(op.args)
}

/// The first place below `j` with the same expression as at `j`, or -1.
pub open spec fn first_same(ops: Seq<InstructionView>, j: int, upto: int) -> int
    decreases upto,
{
    if upto <= 0 {
        -1
    } else {
        let before = first_same(ops, j, upto - 1);
        if before >= 0 {
            before
        } else if upto - 1 < ops.len() && is_expression(ops[upto - 1]) && ops[upto - 1].kind
            == ops[j].kind && ops[upto - 1].args == ops[j].args {
            upto - 1
        } else {
            -1
        }
    }
}

/// Merging of same expressions: an expression that stands earlier in the
/// block with the same operator and the same operands is taken from
/// there.
pub open spec fn merge_same(ops: Seq<InstructionView>, j: int) -> Option<InstructionView> {
    if 0 <= j < ops.len() && is_expression(ops[j]) {
        let i = first_same(ops, j, j);
        if i >= 0 {
            Some(assign(ops[j].out->0, ops[i].out->0))
        } else {
            None
        }
    } else {
        None
    }
}

/// The view of an instruction that may be missing.
pub open spec fn option_view(op: Option<Instruction>) -> Option<InstructionView> {
    match op {
        Some(op) => Some(op@),
        None => None,
    }
}

/// `out = c`, if there is a `c`.
pub fn constant_assigned(out: Variable, c: Option<ConstantValue>) -> (made: Option<Instruction>)
    ensures
        option_view(made) == assign_constant(out, c),
{
    match c {
        Some(c) => Some(Instruction::unary(OpKind::Assign, Variable::ConstantScalar(c), out)),
        None => None,
    }
}

/// Constant evaluation of one instruction.
pub fn const_eval_at(op: &Instruction) -> (made: Option<Instruction>)
    ensures
        option_view(made) == const_eval(op@),
{
    match op.out {
        Some(out) => {
            if op.kind == OpKind::Assign {
                None
            } else if op.args.len() == 1 {
                match op.args[0].as_const() {
                    Some(a) => constant_assigned(out, fold_unary(op.kind, a)),
                    None => None,
                }
            } else if op.args.len() == 2 {
                match (op.args[0].as_const(), op.args[1].as_const()) {
                    (Some(a), Some(b)) => constant_assigned(out, fold_binary(op.kind, a, b)),
                    _ => None,
                }
            } else if op.args.len() == 3 {
                match (op.args[0].as_const(), op.args[1].as_const(), op.args[2].as_const()) {
                    (Some(a), Some(b), Some(c)) => constant_assigned(
                        out,
                        fold_ternary(op.kind, a, b, c),
                    ),
                    _ => None,
                }
            } else {
                None
            }
        },
        None => None,
    }
}

/// Whether `c` is the zero of the element type `elem`.
pub fn zero_of_type(c: &ConstantValue, elem: &Elem) -> (zero: bool)
    ensures
        zero == is_zero_of(*c, *elem),
{
    match c {
        ConstantValue::Int(v, k) => *v == 0 && *elem == Elem::Int(*k),
        ConstantValue::UInt(v) => *v == 0 && *elem == Elem::UInt,
        _ => false,
    }
}

/// Whether `c` is the one of the element type `elem`.
pub fn one_of_type(c: &ConstantValue, elem: &Elem) -> (one: bool)
    ensures
        one == is_one_of(*c, *elem),
{
    match c {
        ConstantValue::Int(v, k) => *v == 1 && *elem == Elem::Int(*k),
        ConstantValue::UInt(v) => *v == 1 && *elem == Elem::UInt,
        _ => false,
    }
}

/// What is left of `x op c`.
pub fn absorbed(kind: OpKind, x: Variable, elem: Elem, scalar: bool, c: ConstantValue) -> (left:
    Option<Variable>)
    ensures
        left == absorb_right(kind, x, elem, scalar, c),
{
    let zero = zero_of_type(&c, &elem);
    let one = one_of_type(&c, &elem);
    match kind {
        OpKind::Add => if zero {
            Some(x)
        } else {
            None
        },
        OpKind::Sub => if zero {
            Some(x)
        } else {
            None
        },
        OpKind::Mul => if one {
            Some(x)
        } else if zero && scalar {
            Some(Variable::ConstantScalar(c))
        } else {
            None
        },
        OpKind::Div => if one {
            Some(x)
        } else {
            None
        },
        OpKind::BitwiseOr => if zero {
            Some(x)
        } else {
            None
        },
        OpKind::BitwiseXor => if zero {
            Some(x)
        } else {
            None
        },
        OpKind::BitwiseAnd => if zero && scalar {
            Some(Variable::ConstantScalar(c))
        } else {
            None
        },
        OpKind::And => if elem == Elem::Bool {
            match c {
                ConstantValue::Bool(true) => Some(x),
                ConstantValue::Bool(false) => if scalar {
                    Some(Variable::ConstantScalar(c))
                } else {
                    None
                },
                _ => None,
            }
        } else {
            None
        },
        OpKind::Or => if elem == Elem::Bool {
            match c {
                ConstantValue::Bool(false) => Some(x),
                ConstantValue::Bool(true) => if scalar {
                    Some(Variable::ConstantScalar(c))
                } else {
                    None
                },
                _ => None,
            }
        } else {
            None
        },
        _ => None,
    }
}

/// Whether the operands of the operator may change places.
pub fn may_commute(kind: OpKind) -> (yes: bool)
    ensures
        yes == commutes(kind),
{
    match kind {
        OpKind::Add => true,
        OpKind::Mul => true,
        OpKind::BitwiseOr => true,
        OpKind::BitwiseXor => true,
        OpKind::BitwiseAnd => true,
        OpKind::And => true,
        OpKind::Or => true,
        _ => false,
    }
}

/// Simplification of one instruction with a constant operand.
pub fn simplify_at(op: &Instruction) -> (made: Option<Instruction>)
    ensures
        option_view(made) == simplify(op@),
{
    match op.out {
        Some(out) => {
            if op.args.len() == 2 {
                let x = op.args[0];
                let y = op.args[1];
                match (x.item(), y.as_const()) {
                    (Some(item), Some(c)) => match absorbed(
                        op.kind,
                        x,
                        item.elem,
                        item.vectorization == 1,
                        c,
                    ) {
                        Some(v) => Some(Instruction::unary(OpKind::Assign, v, out)),
                        None => None,
                    },
                    _ => match (y.item(), x.as_const()) {
                        (Some(item), Some(c)) => {
                            if may_commute(op.kind) {
                                match absorbed(op.kind, y, item.elem, item.vectorization == 1, c) {
                                    Some(v) => Some(Instruction::unary(OpKind::Assign, v, out)),
                                    None => None,
                                }
                            } else {
                                None
                            }
                        },
                        _ => None,
                    },
                }
            } else {
                None
            }
        },
        None => None,
    }
}

/// Whether all of `args` are constants.
pub fn constants_only(args: &Vec<Variable>) -> (all: bool)
    ensures
        all == all_constant(args@),
{
    let mut i: usize = 0;
    while i < args.len()
        invariant
            i <= args.len(),
            forall|k: int| 0 <= k < i ==> (#[trigger] args@[k]) is ConstantScalar,
        decreases args.len() - i,
    {
        match args[i] {
            Variable::ConstantScalar(_) => {},
            _ => {
                return false;
            },
        }
        i += 1;
    }
    true
}

/// Removal of indexing into a known vector of constants at place `j` of a
/// block.
pub fn remove_index_scalar_at(ops: &Vec<Instruction>, j: usize) -> (made: Option<Instruction>)
    requires
        j < ops@.len(),
    ensures
        option_view(made) == remove_index_scalar(instruction_views(ops@), j as int),
{
    let ghost views = instruction_views(ops@);
    let op = &ops[j];
    proof {
        assert(views[j as int] == op@);
    }
    let out = match op.out {
        Some(out) => out,
        None => return None,
    };
    let indexing = match op.kind {
        OpKind::Index => true,
        OpKind::UncheckedIndex => true,
        _ => false,
    };
    if !indexing || op.args.len() != 2 {
        return None;
    }
    let a = op.args[0];
    match a {
        Variable::Versioned { .. } => {},
        _ => {
            return None;
        },
    }
    let k: u64 = match op.args[1] {
        Variable::ConstantScalar(ConstantValue::UInt(i)) => i,
        Variable::ConstantScalar(ConstantValue::Int(i, _)) => if i >= 0 {
            i as u64
        } else {
            return None;
        },
        _ => {
            return None;
        },
    };
    assert(index_number(op@.args[1]) == Some(k as nat));
    let mut i: usize = j;
    while i > 0
        invariant
            i <= j,
            j < ops@.len(),
            views == instruction_views(ops@),
            views[j as int].out == Some(out),
            views[j as int].kind == OpKind::Index || views[j as int].kind
                == OpKind::UncheckedIndex,
            views[j as int].args.len() == 2,
            views[j as int].args[0] == a,
            a is Versioned,
            index_number(views[j as int].args[1]) == Some(k as nat),
            constant_vector_at(views, a, j as int) == constant_vector_at(views, a, i as int),
        decreases i,
    {
        let made = &ops[i - 1];
        proof {
            assert(views[i - 1] == made@);
        }
        let composite = match made.kind {
            OpKind::Composite => true,
            _ => false,
        };
        let writes = match made.out {
            Some(v) => v == a,
            None => false,
        };
        if composite && writes && constants_only(&made.args) {
            proof {
                assert(views[i - 1].args == made.args@);
                assert(makes_constant_vector(views[i - 1], a));
                assert(constant_vector_at(views, a, i as int) == i - 1);
            }
            if k < made.args.len() as u64 {
                return Some(Instruction::unary(OpKind::Assign, made.args[k as usize], out));
            } else {
                return None;
            }
        }
        i -= 1;
    }
    None
}

/// Copy transformation at place `j` of a block.
pub fn copy_transform_at(ops: &Vec<Instruction>, j: usize) -> (made: Option<Instruction>)
    requires
        j < ops@.len(),
    ensures
        option_view(made) == copy_transform(instruction_views(ops@), j as int),
{
    if j >= 1 {
        let load = &ops[j - 1];
        let store = &ops[j];
        match (load.out, store.out) {
            (Some(t), Some(b)) => {
                let loading = match load.kind {
                    OpKind::Index => true,
                    OpKind::UncheckedIndex => true,
                    _ => false,
                };
                let storing = match store.kind {
                    OpKind::IndexAssign => true,
                    _ => false,
                };
                let versioned = match t {
                    Variable::Versioned { item, .. } => item.vectorization >= 2,
                    _ => false,
                };
                if loading && load.args.len() == 2 && storing && store.args.len() == 2
                    && store.args[1] == t && versioned {
                    let mut args: Vec<Variable> = Vec::new();
                    args.push(load.args[0]);
                    args.push(load.args[1]);
                    args.push(Variable::ConstantScalar(ConstantValue::UInt(1)));
                    args.push(store.args[0]);
                    proof {
                        assert(args@ =~= seq![
                            load.args@[0],
                            load.args@[1],
                            Variable::ConstantScalar(ConstantValue::UInt(1)),
                            store.args@[0],
                        ]);
                    }
                    Some(Instruction { kind: OpKind::Copy, out: Some(b), args })
                } else {
                    None
                }
            },
            _ => None,
        }
    } else {
        None
    }
}

/// Whether an instruction of this kind computes a value from the values of
/// its operands alone.
pub fn value_kind(kind: OpKind) -> (yes: bool)
    ensures
        yes == is_value_kind(kind),
{
    match kind {
        OpKind::Add => true,
        OpKind::Sub => true,
        OpKind::Mul => true,
        OpKind::Div => true,
        OpKind::Modulo => true,
        OpKind::Min => true,
        OpKind::Max => true,
        OpKind::And => true,
        OpKind::Or => true,
        OpKind::BitwiseAnd => true,
        OpKind::BitwiseOr => true,
        OpKind::BitwiseXor => true,
        OpKind::ShiftLeft => true,
        OpKind::ShiftRight => true,
        OpKind::Equal => true,
        OpKind::NotEqual => true,
        OpKind::Lower => true,
        OpKind::LowerEqual => true,
        OpKind::Greater => true,
        OpKind::GreaterEqual => true,
        OpKind::Not => true,
        OpKind::Neg => true,
        OpKind::Clamp => true,
        OpKind::Select => true,
        _ => false,
    }
}

/// Whether `op` is an expression that can stand for a later one.
pub fn expression(op: &Instruction) -> (yes: bool)
    ensures
        yes == is_expression(op@),
{
    if !value_kind(op.kind) {
        return false;
    }
    let versioned = match op.out {
        Some(Variable::Versioned { .. }) => true,
        _ => false,
    };
    if !versioned {
        return false;
    }
    let mut i: usize = 0;
    while i < op.args.len()
        invariant
            i <= op.args.len(),
            forall|t: int| 0 <= t < i ==> is_stable(#[trigger] op.args@[t]),
        decreases op.args.len() - i,
    {
        let stable = match op.args[i] {
            Variable::Versioned { .. } => true,
            Variable::ConstantScalar(_) => true,
            Variable::GlobalScalar { .. } => true,
            Variable::Position(_) => true,
            _ => false,
        };
        if !stable {
            return false;
        }
        i += 1;
    }
    true
}

/// Whether two lists of operands are the same.
pub fn same_args(a: &Vec<Variable>, b: &Vec<Variable>) -> (same: bool)
    ensures
        same == (a@ == b@),
{
    if a.len() != b.len() {
        return false;
    }
    let mut i: usize = 0;
    while i < a.len()
        invariant
            i <= a.len(),
            a@.len() == b@.len(),
            forall|t: int| 0 <= t < i ==> a@[t] == b@[t],
        decreases a.len() - i,
    {
        if a[i] != b[i] {
            return false;
        }
        i += 1;
    }
    assert(a@ =~= b@);
    true
}

/// Merging of same expressions at place `j` of a block.
pub fn merge_same_at(ops: &Vec<Instruction>, j: usize) -> (made: Option<Instruction>)
    requires
        j < ops@.len(),
    ensures
        option_view(made) == merge_same(instruction_views(ops@), j as int),
{
    let ghost views = instruction_views(ops@);
    if !expression(&ops[j]) {
        return None;
    }
    let mut i: usize = 0;
    while i < j
        invariant
            i <= j,
            j < ops@.len(),
            views == instruction_views(ops@),
            is_expression(views[j as int]),
            first_same(views, j as int, i as int) == -1,
        decreases j - i,
    {
        let matches = expression(&ops[i]) && ops[i].kind == ops[j].kind && same_args(
            &ops[i].args,
            &ops[j].args,
        );
        if matches {
            proof {
                assert(views[i as int] == ops@[i as int]@);
                assert(views[j as int] == ops@[j as int]@);
                assert(first_same(views, j as int, i + 1) == i);
                lemma_first_same_found(views, j as int, i + 1, j as int);
            }
            let out = match ops[j].out {
                Some(v) => v,
                None => return None,
            };
            let value = match ops[i].out {
                Some(v) => v,
                None => return None,
            };
            return Some(Instruction::unary(OpKind::Assign, value, out));
        }
        i += 1;
    }
    None
}

/// A same expression that is found below `found` is the one that is found
/// below any later place.
pub proof fn lemma_first_same_found(ops: Seq<InstructionView>, j: int, found: int, upto: int)
    requires
        0 < found <= upto,
        first_same(ops, j, found) >= 0,
    ensures
        first_same(ops, j, upto) == first_same(ops, j, found),
    decreases upto - found,
{
    if found < upto {
        lemma_first_same_found(ops, j, found, upto - 1);
    }
}

} // verus!
