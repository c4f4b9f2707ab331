//! What the operators compute on constants: integers wrap at the width of
//! their type, as two's complement does.

use crate::instruction::OpKind;
use crate::ir::{ConstantValue, IntKind};
use vstd::arithmetic::div_mod::lemma_mod_multiples_vanish;
use vstd::prelude::*;

verus! {

impl ConstantValue {
    /// Whether the value lies in the range of its type.
    pub open spec fn valid(self) -> bool {
        match self {
            ConstantValue::Int(v, IntKind::I32) => -0x8000_0000 <= v < 0x8000_0000,
            ConstantValue::UInt(v) => v < 0x1_0000_0000,
            _ => true,
        }
    }
}

/// `v` wrapped into the range of a signed integer type.
pub open spec fn wrap_int(v: int, kind: IntKind) -> int {
    match kind {
        IntKind::I32 => (v + 0x8000_0000) % 0x1_0000_0000 - 0x8000_0000,
        IntKind::I64 => (v + 0x8000_0000_0000_0000) % 0x1_0000_0000_0000_0000
            - 0x8000_0000_0000_0000,
    }
}

/// `v` wrapped into the range of the unsigned integer type.
pub open spec fn wrap_uint(v: int) -> int {
    v % 0x1_0000_0000
}

/// The quotient of `x` by `y`, rounded towards zero; `y` is not zero.
pub open spec fn quotient(x: int, y: int) -> int {
    let q = (if x < 0 {
        -x
    } else {
        x
    }) / (if y < 0 {
        -y
    } else {
        y
    });
    if (x < 0) != (y < 0) {
        -q
    } else {
        q
    }
}

/// The remainder of `x` by `y`, with the sign of `x`; `y` is not zero.
pub open spec fn remainder(x: int, y: int) -> int {
    let r = (if x < 0 {
        -x
    } else {
        x
    }) % (if y < 0 {
        -y
    } else {
        y
    });
    if x < 0 {
        -r
    } else {
        r
    }
}

/// What an arithmetic operator gives on two integers, before wrapping; for
/// any other operator, and for a division by zero, nothing.
pub open spec fn arithmetic(kind: OpKind, x: int, y: int) -> Option<int> {
    match kind {
        OpKind::Add => Some(x + y),
        OpKind::Sub => Some(x - y),
        OpKind::Mul => Some(x * y),
        OpKind::Div => if y == 0 {
            None
        } else {
            Some(quotient(x, y))
        },
        OpKind::Modulo => if y == 0 {
            None
        } else {
            Some(remainder(x, y))
        },
        OpKind::Min => Some(if x <= y {
            x
        } else {
            y
        }),
        OpKind::Max => Some(if x >= y {
            x
        } else {
            y
        }),
        _ => None,
    }
}

/// What a comparison gives on two integers; for any other operator,
/// nothing.
pub open spec fn comparison(kind: OpKind, x: int, y: int) -> Option<bool> {
    match kind {
        OpKind::Equal => Some(x == y),
        OpKind::NotEqual => Some(x != y),
        OpKind::Lower => Some(x < y),
        OpKind::LowerEqual => Some(x <= y),
        OpKind::Greater => Some(x > y),
        OpKind::GreaterEqual => Some(x >= y),
        _ => None,
    }
}

/// What an operator with two operands gives on two constants of one type;
/// nothing where the types differ, where the operator is not defined on
/// them, and on floating-point constants.
pub open spec fn eval_binary(kind: OpKind, a: ConstantValue, b: ConstantValue) -> Option<
    ConstantValue,
> {
    match (a, b) {
        (ConstantValue::Int(x, k1), ConstantValue::Int(y, k2)) => if k1 != k2 {
            None
        } else {
            match arithmetic(kind, x as int, y as int) {
                Some(v) => Some(ConstantValue::Int(wrap_int(v, k1) as i64, k1)),
                None => match comparison(kind, x as int, y as int) {
                    Some(t) => Some(ConstantValue::Bool(t)),
                    None => None,
                },
            }
        },
        (ConstantValue::UInt(x), ConstantValue::UInt(y)) => match arithmetic(
            kind,
            x as int,
            y as int,
        ) {
            Some(v) => Some(ConstantValue::UInt(wrap_uint(v) as u64)),
            None => match comparison(kind, x as int, y as int) {
                Some(t) => Some(ConstantValue::Bool(t)),
                None => None,
            },
        },
        (ConstantValue::Bool(x), ConstantValue::Bool(y)) => match kind {
            OpKind::And => Some(ConstantValue::Bool(x && y)),
            OpKind::Or => Some(ConstantValue::Bool(x || y)),
            OpKind::Equal => Some(ConstantValue::Bool(x == y)),
            OpKind::NotEqual => Some(ConstantValue::Bool(x != y)),
            _ => None,
        },
        _ => None,
    }
}

/// What an operator with one operand gives on a constant.
pub open spec fn eval_unary(kind: OpKind, a: ConstantValue) -> Option<ConstantValue> {
    match kind {
        OpKind::Assign => Some(a),
        OpKind::Not => match a {
            ConstantValue::Bool(x) => Some(ConstantValue::Bool(!x)),
            _ => None,
        },
        OpKind::Neg => match a {
            ConstantValue::Int(x, k) => Some(ConstantValue::Int(wrap_int(-(x as int), k) as i64, k)),
            _ => None,
        },
        _ => None,
    }
}

/// What an operator with three operands gives on constants.
pub open spec fn eval_ternary(kind: OpKind, a: ConstantValue, b: ConstantValue, c: ConstantValue) -> Option<
    ConstantValue,
> {
    match kind {
        OpKind::Select => match a {
            ConstantValue::Bool(t) => Some(if t {
                b
            } else {
                c
            }),
            _ => None,
        },
        OpKind::Clamp => match eval_binary(OpKind::Max, a, b) {
            Some(low) => eval_binary(OpKind::Min, low, c),
            None => None,
        },
        _ => None,
    }
}

/// What an operator gives on constant operands.
pub open spec fn eval(kind: OpKind, args: Seq<ConstantValue>) -> Option<ConstantValue> {
    if args.len() == 1 {
        eval_unary(kind, args[0])
    } else if args.len() == 2 {
        eval_binary(kind, args[0], args[1])
    } else if args.len() == 3 {
        eval_ternary(kind, args[0], args[1], args[2])
    } else {
        None
    }
}

/// A product lies between the products of the bounds of its factors.
pub proof fn lemma_product_bound(x: int, y: int, b: int)
    requires
        -b <= x <= b,
        -b <= y <= b,
    ensures
        -(b * b) <= x * y <= b * b,
{
    assert((b - x) * (b - y) >= 0) by (nonlinear_arith)
        requires
            b - x >= 0,
            b - y >= 0,
    ;
    assert((b + x) * (b + y) >= 0) by (nonlinear_arith)
        requires
            b + x >= 0,
            b + y >= 0,
    ;
    assert((b - x) * (b + y) >= 0) by (nonlinear_arith)
        requires
            b - x >= 0,
            b + y >= 0,
    ;
    assert((b + x) * (b - y) >= 0) by (nonlinear_arith)
        requires
            b + x >= 0,
            b - y >= 0,
    ;
    assert(-(b * b) <= x * y <= b * b) by (nonlinear_arith)
        requires
            (b - x) * (b - y) >= 0,
            (b + x) * (b + y) >= 0,
            (b - x) * (b + y) >= 0,
            (b + x) * (b - y) >= 0,
    ;
}

/// Wraps `v` into the range of a signed integer type.
pub fn wrapped(v: i128, kind: IntKind) -> (w: i64)
    requires
        -0x4000_0000_0000_0000_0000_0000_0000_0000 <= v <= 0x4000_0000_0000_0000_0000_0000_0000_0000,
    ensures
        w == wrap_int(v as int, kind),
{
    let base: i128 = if v < 0 {
        v + 0x4000_0000_0000_0000_0000_0000_0000_0000
    } else {
        v
    };
    match kind {
        IntKind::I32 => {
            proof {
                assert(0x1_0000_0000 * 0x4000_0000_0000_0000_0000_0000int
                    == 0x4000_0000_0000_0000_0000_0000_0000_0000int);
                if v < 0 {
                    lemma_mod_multiples_vanish(
                        0x4000_0000_0000_0000_0000_0000,
                        v + 0x8000_0000,
                        0x1_0000_0000,
                    );
                }
            }
            let m: i128 = (base + 0x8000_0000) % 0x1_0000_0000;
            (m - 0x8000_0000) as i64
        },
        IntKind::I64 => {
            proof {
                assert(0x1_0000_0000_0000_0000 * 0x4000_0000_0000_0000int
                    == 0x4000_0000_0000_0000_0000_0000_0000_0000int);
                if v < 0 {
                    lemma_mod_multiples_vanish(
                        0x4000_0000_0000_0000,
                        v + 0x8000_0000_0000_0000,
                        0x1_0000_0000_0000_0000,
                    );
                }
            }
            let m: i128 = (base + 0x8000_0000_0000_0000) % 0x1_0000_0000_0000_0000;
            (m - 0x8000_0000_0000_0000) as i64
        },
    }
}

/// What an arithmetic operator gives on two signed integers, before
/// wrapping.
pub fn arithmetic_of(kind: OpKind, x: i64, y: i64) -> (v: Option<i128>)
    ensures
        match arithmetic(kind, x as int, y as int) {
            Some(w) => v == Some(w as i128) && -0x4000_0000_0000_0000_0000_0000_0000_0000 <= w
                <= 0x4000_0000_0000_0000_0000_0000_0000_0000,
            None => v is None,
        },
{
    let x: i128 = x as i128;
    let y: i128 = y as i128;
    match kind {
        OpKind::Add => Some(x + y),
        OpKind::Sub => Some(x - y),
        OpKind::Mul => {
            proof {
                lemma_product_bound(x as int, y as int, 0x8000_0000_0000_0000);
                assert(0x8000_0000_0000_0000int * 0x8000_0000_0000_0000int
                    == 0x4000_0000_0000_0000_0000_0000_0000_0000int);
            }
            Some(x * y)
        },
        OpKind::Div => {
            if y == 0 {
                None
            } else {
                let ax: i128 = if x < 0 {
                    -x
                } else {
                    x
                };
                let ay: i128 = if y < 0 {
                    -y
                } else {
                    y
                };
                let q: i128 = ax / ay;
                assert(0 <= q <= ax) by (nonlinear_arith)
                    requires
                        q == ax / ay,
                        ax >= 0,
                        ay > 0,
                ;
                if (x < 0) != (y < 0) {
                    Some(-q)
                } else {
                    Some(q)
                }
            }
        },
        OpKind::Modulo => {
            if y == 0 {
                None
            } else {
                let ax: i128 = if x < 0 {
                    -x
                } else {
                    x
                };
                let ay: i128 = if y < 0 {
                    -y
                } else {
                    y
                };
                let r: i128 = ax % ay;
                if x < 0 {
                    Some(-r)
                } else {
                    Some(r)
                }
            }
        },
        OpKind::Min => Some(if x <= y {
            x
        } else {
            y
        }),
        OpKind::Max => Some(if x >= y {
            x
        } else {
            y
        }),
        _ => None,
    }
}

/// What an arithmetic operator gives on two unsigned integers, wrapped.
pub fn unsigned_of(kind: OpKind, x: u64, y: u64) -> (v: Option<u64>)
    ensures
        match arithmetic(kind, x as int, y as int) {
            Some(w) => v == Some(wrap_uint(w) as u64),
            None => v is None,
        },
{
    let a: u128 = x as u128;
    let b: u128 = y as u128;
    match kind {
        OpKind::Add => Some(((a + b) % 0x1_0000_0000) as u64),
        OpKind::Sub => {
            proof {
                lemma_mod_multiples_vanish(0x1_0000_0000, x - y, 0x1_0000_0000);
                assert(0x1_0000_0000 * 0x1_0000_0000int == 0x1_0000_0000_0000_0000int);
            }
            Some(((a + 0x1_0000_0000_0000_0000 - b) % 0x1_0000_0000) as u64)
        },
        OpKind::Mul => {
            proof {
                lemma_product_bound(x as int, y as int, 0xffff_ffff_ffff_ffff);
                assert(0xffff_ffff_ffff_ffffint * 0xffff_ffff_ffff_ffffint
                    < 0x1_0000_0000_0000_0000_0000_0000_0000_0000int);
                assert(x * y >= 0) by (nonlinear_arith)
                    requires
                        x >= 0,
                        y >= 0,
                ;
            }
            Some(((a * b) % 0x1_0000_0000) as u64)
        },
        OpKind::Div => {
            if y == 0 {
                None
            } else {
                Some(((a / b) % 0x1_0000_0000) as u64)
            }
        },
        OpKind::Modulo => {
            if y == 0 {
                None
            } else {
                Some(((a % b) % 0x1_0000_0000) as u64)
            }
        },
        OpKind::Min => Some(((if a <= b {
            a
        } else {
            b
        }) % 0x1_0000_0000) as u64),
        OpKind::Max => Some(((if a >= b {
            a
        } else {
            b
        }) % 0x1_0000_0000) as u64),
        _ => None,
    }
}

/// What a comparison gives on two integers.
pub fn comparison_of(kind: OpKind, x: i128, y: i128) -> (t: Option<bool>)
    ensures
        t == comparison(kind, x as int, y as int),
{
    match kind {
        OpKind::Equal => Some(x == y),
        OpKind::NotEqual => Some(x != y),
        OpKind::Lower => Some(x < y),
        OpKind::LowerEqual => Some(x <= y),
        OpKind::Greater => Some(x > y),
        OpKind::GreaterEqual => Some(x >= y),
        _ => None,
    }
}

/// What an operator with two operands gives on two constants.
pub fn fold_binary(kind: OpKind, a: ConstantValue, b: ConstantValue) -> (folded: Option<
    ConstantValue,
>)
    ensures
        folded == eval_binary(kind, a, b),
{
    match (a, b) {
        (ConstantValue::Int(x, k1), ConstantValue::Int(y, k2)) => {
            let same = match (k1, k2) {
                (IntKind::I32, IntKind::I32) => true,
                (IntKind::I64, IntKind::I64) => true,
                _ => false,
            };
            if !same {
                None
            } else {
                match arithmetic_of(kind, x, y) {
                    Some(v) => Some(ConstantValue::Int(wrapped(v, k1), k1)),
                    None => match comparison_of(kind, x as i128, y as i128) {
                        Some(t) => Some(ConstantValue::Bool(t)),
                        None => None,
                    },
                }
            }
        },
        (ConstantValue::UInt(x), ConstantValue::UInt(y)) => match unsigned_of(kind, x, y) {
            Some(v) => Some(ConstantValue::UInt(v)),
            None => match comparison_of(kind, x as i128, y as i128) {
                Some(t) => Some(ConstantValue::Bool(t)),
                None => None,
            },
        },
        (ConstantValue::Bool(x), ConstantValue::Bool(y)) => match kind {
            OpKind::And => Some(ConstantValue::Bool(x && y)),
            OpKind::Or => Some(ConstantValue::Bool(x || y)),
            OpKind::Equal => Some(ConstantValue::Bool(x == y)),
            OpKind::NotEqual => Some(ConstantValue::Bool(x != y)),
            _ => None,
        },
        _ => None,
    }
}

/// What an operator with one operand gives on a constant.
pub fn fold_unary(kind: OpKind, a: ConstantValue) -> (folded: Option<ConstantValue>)
    ensures
        folded == eval_unary(kind, a),
{
    match kind {
        OpKind::Assign => Some(a),
        OpKind::Not => match a {
            ConstantValue::Bool(x) => Some(ConstantValue::Bool(!x)),
            _ => None,
        },
        OpKind::Neg => match a {
            ConstantValue::Int(x, k) => Some(ConstantValue::Int(wrapped(-(x as i128), k), k)),
            _ => None,
        },
        _ => None,
    }
}

/// What an operator with three operands gives on constants.
pub fn fold_ternary(kind: OpKind, a: ConstantValue, b: ConstantValue, c: ConstantValue) -> (folded:
    Option<ConstantValue>)
    ensures
        folded == eval_ternary(kind, a, b, c),
{
    match kind {
        OpKind::Select => match a {
            ConstantValue::Bool(t) => Some(if t {
                b
            } else {
                c
            }),
            _ => None,
        },
        OpKind::Clamp => match fold_binary(OpKind::Max, a, b) {
            Some(low) => fold_binary(OpKind::Min, low, c),
            None => None,
        },
        _ => None,
    }
}

} // verus!
