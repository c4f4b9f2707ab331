//! What the folding of constants keeps: the value that an instruction
//! computes.

use crate::instruction::{InstructionView, OpKind};
use crate::ir::{ConstantValue, Elem, IntKind, Variable};
use crate::rewrite::{absorb_right, assign, const_eval, is_one_of, is_zero_of, simplify};
use crate::semantics::{eval, eval_binary, eval_unary, wrap_int, wrap_uint};
use vstd::arithmetic::div_mod::lemma_small_mod;
use vstd::prelude::*;

verus! {

/// Whether a valuation gives every constant its own value.
pub open spec fn respects_constants(env: spec_fn(Variable) -> ConstantValue) -> bool {
    forall|c: ConstantValue| #[trigger] env(Variable::ConstantScalar(c)) == c
}

/// Whether `v` is a value of the element type `elem`, in its range.
pub open spec fn has_type(v: ConstantValue, elem: Elem) -> bool {
    v.valid() && match v {
        ConstantValue::Int(_, k) => elem == Elem::Int(k),
        ConstantValue::UInt(_) => elem == Elem::UInt,
        ConstantValue::Bool(_) => elem == Elem::Bool,
        ConstantValue::Float(_, k) => elem == Elem::Float(k),
    }
}

/// Whether a valuation gives every variable that is no constant a value of
/// its element type.
pub open spec fn respects_types(env: spec_fn(Variable) -> ConstantValue) -> bool {
    forall|x: Variable|
        match x.item_spec() {
            Some(item) => x is ConstantScalar || has_type(#[trigger] env(x), item.elem),
            None => true,
        }
}

/// The value that a scalar instruction computes under a valuation of its
/// operands, where its operator is defined on them.
pub open spec fn value_of(op: InstructionView, env: spec_fn(Variable) -> ConstantValue) -> Option<
    ConstantValue,
> {
    eval(op.kind, Seq::new(op.args.len(), |i: int| env(op.args[i])))
}

/// Wrapping a value that lies in the range of its type leaves it as it is.
pub proof fn lemma_wrap_identity(v: int, kind: IntKind)
    requires
        match kind {
            IntKind::I32 => -0x8000_0000 <= v < 0x8000_0000,
            IntKind::I64 => -0x8000_0000_0000_0000 <= v < 0x8000_0000_0000_0000,
        },
    ensures
        wrap_int(v, kind) == v,
{
    match kind {
        IntKind::I32 => {
            lemma_small_mod((v + 0x8000_0000) as nat, 0x1_0000_0000);
        },
        IntKind::I64 => {
            lemma_small_mod((v + 0x8000_0000_0000_0000) as nat, 0x1_0000_0000_0000_0000);
        },
    }
}

/// Constant evaluation keeps the value: the assignment that stands for an
/// instruction with constant operands computes what the instruction
/// computes.
pub proof fn lemma_const_eval_keeps_value(
    op: InstructionView,
    env: spec_fn(Variable) -> ConstantValue,
)
    requires
        respects_constants(env),
        const_eval(op) is Some,
    ensures
        value_of(const_eval(op)->0, env) == value_of(op, env),
        value_of(op, env) is Some,
        const_eval(op)->0.out == op.out,
{
    let folded = const_eval(op)->0;
    let args = Seq::new(op.args.len(), |i: int| env(op.args[i]));
    let out = op.out->0;
    if op.args.len() == 1 {
        let a = op.args[0].constant()->0;
        assert(op.args[0] == Variable::ConstantScalar(a));
        assert(args[0] == a);
        let c = eval_unary(op.kind, a)->0;
        assert(folded == assign(out, Variable::ConstantScalar(c)));
        assert(Seq::new(folded.args.len(), |i: int| env(folded.args[i]))[0] == c);
    } else if op.args.len() == 2 {
        let a = op.args[0].constant()->0;
        let b = op.args[1].constant()->0;
        assert(op.args[0] == Variable::ConstantScalar(a));
        assert(op.args[1] == Variable::ConstantScalar(b));
        assert(args[0] == a && args[1] == b);
        let c = eval_binary(op.kind, a, b)->0;
        assert(folded == assign(out, Variable::ConstantScalar(c)));
        assert(Seq::new(folded.args.len(), |i: int| env(folded.args[i]))[0] == c);
    } else {
        let a = op.args[0].constant()->0;
        let b = op.args[1].constant()->0;
        let d = op.args[2].constant()->0;
        assert(op.args[0] == Variable::ConstantScalar(a));
        assert(op.args[1] == Variable::ConstantScalar(b));
        assert(op.args[2] == Variable::ConstantScalar(d));
        assert(args[0] == a && args[1] == b && args[2] == d);
        let c = crate::semantics::eval_ternary(op.kind, a, b, d)->0;
        assert(folded == assign(out, Variable::ConstantScalar(c)));
        assert(Seq::new(folded.args.len(), |i: int| env(folded.args[i]))[0] == c);
    }
}

/// What is left of `x op c` has the value of `x op c`, and of `c op x`
/// where the operands may change places.
pub proof fn lemma_absorb_keeps_value(
    kind: OpKind,
    x: Variable,
    elem: Elem,
    c: ConstantValue,
    env: spec_fn(Variable) -> ConstantValue,
)
    requires
        respects_constants(env),
        has_type(env(x), elem),
        absorb_right(kind, x, elem, true, c) is Some,
        eval_binary(kind, env(x), c) is Some,
    ensures
        eval_binary(kind, env(x), c) == Some(env(absorb_right(kind, x, elem, true, c)->0)),
        crate::rewrite::commutes(kind) ==> eval_binary(kind, c, env(x)) == eval_binary(
            kind,
            env(x),
            c,
        ),
{
    let v = env(x);
    match v {
        ConstantValue::Int(a, k) => {
            lemma_wrap_identity(a as int, k);
            lemma_wrap_identity(0, k);
            assert(a * 1 == a) by (nonlinear_arith);
            assert(1 * a == a) by (nonlinear_arith);
            assert(a * 0 == 0) by (nonlinear_arith);
            assert(0 * a == 0) by (nonlinear_arith);
            if kind == OpKind::Div {
                let m = if a < 0 {
                    -(a as int)
                } else {
                    a as int
                };
                assert(m / 1 == m);
            }
        },
        ConstantValue::UInt(a) => {
            lemma_small_mod(a as nat, 0x1_0000_0000);
            lemma_small_mod(0, 0x1_0000_0000);
            assert(a * 1 == a) by (nonlinear_arith);
            assert(1 * a == a) by (nonlinear_arith);
            assert(a * 0 == 0) by (nonlinear_arith);
            assert(0 * a == 0) by (nonlinear_arith);
            if kind == OpKind::Div {
                assert((a as int) / 1 == a as int);
            }
        },
        _ => {},
    }
}

/// Simplification with a constant operand keeps the value: what is left of
/// a scalar instruction computes what the instruction computes, wherever
/// its operator is defined on the values of its operands.
pub proof fn lemma_simplify_keeps_value(op: InstructionView, env: spec_fn(Variable) -> ConstantValue)
    requires
        respects_constants(env),
        respects_types(env),
        simplify(op) is Some,
        value_of(op, env) is Some,
        forall|i: int|
            0 <= i < op.args.len() ==> match (#[trigger] op.args[i]).item_spec() {
                Some(item) => item.vectorization == 1,
                None => true,
            },
        forall|i: int|
            0 <= i < op.args.len() ==> match (#[trigger] op.args[i]).constant() {
                Some(c) => c.valid(),
                None => true,
            },
    ensures
        value_of(simplify(op)->0, env) == value_of(op, env),
        simplify(op)->0.out == op.out,
{
    let x = op.args[0];
    let y = op.args[1];
    let out = op.out->0;
    let args = Seq::new(op.args.len(), |i: int| env(op.args[i]));
    assert(args[0] == env(x) && args[1] == env(y));
    let made = simplify(op)->0;
    let first = match (x.item_spec(), y.constant()) {
        (Some(item), Some(c)) => true,
        _ => false,
    };
    if first {
        let item = x.item_spec()->0;
        let c = y.constant()->0;
        assert(y == Variable::ConstantScalar(c));
        assert(env(y) == c);
        if x is ConstantScalar {
            assert(x == Variable::ConstantScalar(x.constant()->0));
            assert(env(x) == x.constant()->0);
        }
        assert(has_type(env(x), item.elem));
        let left = absorb_right(op.kind, x, item.elem, true, c)->0;
        lemma_absorb_keeps_value(op.kind, x, item.elem, c, env);
        assert(made == assign(out, left));
        assert(Seq::new(made.args.len(), |i: int| env(made.args[i]))[0] == env(left));
    } else {
        let item = y.item_spec()->0;
        let c = x.constant()->0;
        assert(x == Variable::ConstantScalar(c));
        assert(env(x) == c);
        if y is ConstantScalar {
            assert(y == Variable::ConstantScalar(y.constant()->0));
            assert(env(y) == y.constant()->0);
        }
        assert(has_type(env(y), item.elem));
        let left = absorb_right(op.kind, y, item.elem, true, c)->0;
        if eval_binary(op.kind, env(y), c) is Some {
            lemma_absorb_keeps_value(op.kind, y, item.elem, c, env);
        } else {
            lemma_commuted_defined(op.kind, env(y), c);
        }
        assert(made == assign(out, left));
        assert(Seq::new(made.args.len(), |i: int| env(made.args[i]))[0] == env(left));
    }
}

/// An operator whose operands may change places is defined on two
/// operands in one order if it is in the other.
pub proof fn lemma_commuted_defined(kind: OpKind, a: ConstantValue, b: ConstantValue)
    requires
        crate::rewrite::commutes(kind),
    ensures
        eval_binary(kind, a, b) is Some <==> eval_binary(kind, b, a) is Some,
{
}

} // verus!
