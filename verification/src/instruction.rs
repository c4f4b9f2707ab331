//! Straight-line instructions: a kind, the operands that are read and the
//! variable that is written.

use crate::ir::{Variable, VarKey};
use vstd::prelude::*;

verus! {

/// What an instruction computes.
#[derive(Clone, Copy, Debug, PartialEq, Eq, Structural)]
pub enum OpKind {
    Add,
    Sub,
    Mul,
    Div,
    Modulo,
    Min,
    Max,
    And,
    Or,
    BitwiseAnd,
    BitwiseOr,
    BitwiseXor,
    ShiftLeft,
    ShiftRight,
    Equal,
    NotEqual,
    Lower,
    LowerEqual,
    Greater,
    GreaterEqual,
    /// `out = args[0]`.
    Assign,
    Not,
    Neg,
    /// `out = min(max(args[0], args[1]), args[2])`.
    Clamp,
    /// `out = if args[0] { args[1] } else { args[2] }`.
    Select,
    /// `out = args[0][args[1]]`, with a bounds check.
    Index,
    /// `out = args[0][args[1]]`, without a bounds check.
    UncheckedIndex,
    /// `out[args[0]] = args[1]`, with a bounds check.
    IndexAssign,
    /// `out[args[0]] = args[1]`, without a bounds check.
    UncheckedIndexAssign,
    /// `out = args[0][args[1]..args[2]]`.
    Slice,
    /// `out[args[3]] = args[0][args[1]]`, item by item.
    Copy,
    /// `out = (args[0], args[1], ...)`: every lane of a vector at once.
    Composite,
    /// `out = len(args[0])` (metadata).
    Length,
    /// `out` is the stride of `args[0]` in the dimension `args[1]`
    /// (metadata).
    Stride,
    /// `out` is the extent of `args[0]` in the dimension `args[1]`
    /// (metadata).
    Shape,
    /// A barrier for the units of a cube (synchronization).
    SyncUnits,
    /// A barrier for memory (synchronization).
    SyncStorage,
    /// A reduction over the units of a plane (subcube).
    SubcubeSum,
    /// A value of one unit for the whole plane (subcube).
    SubcubeBroadcast,
    /// A matrix multiplication by a cooperating plane (matrix unit).
    CoopMmaExecute,
}

impl OpKind {
    /// Whether an instruction of this kind does nothing but compute its
    /// output from its operands: it touches no memory and waits for nobody.
    pub open spec fn is_pure_spec(self) -> bool {
        match self {
            OpKind::IndexAssign => false,
            OpKind::UncheckedIndexAssign => false,
            OpKind::Copy => false,
            OpKind::SyncUnits => false,
            OpKind::SyncStorage => false,
            OpKind::SubcubeSum => false,
            OpKind::SubcubeBroadcast => false,
            OpKind::CoopMmaExecute => false,
            _ => true,
        }
    }

    /// Whether an instruction of this kind does nothing but compute its
    /// output from its operands.
    pub fn is_pure(&self) -> (pure: bool)
        ensures
            pure == self.is_pure_spec(),
    {
        match self {
            OpKind::IndexAssign => false,
            OpKind::UncheckedIndexAssign => false,
            OpKind::Copy => false,
            OpKind::SyncUnits => false,
            OpKind::SyncStorage => false,
            OpKind::SubcubeSum => false,
            OpKind::SubcubeBroadcast => false,
            OpKind::CoopMmaExecute => false,
            _ => true,
        }
    }
}

/// A straight-line instruction.
#[derive(Debug)]
pub struct Instruction {
    pub kind: OpKind,
    /// The variable that the instruction writes, if it writes one.
    pub out: Option<Variable>,
    /// The operands that the instruction reads, in order.
    pub args: Vec<Variable>,
}

/// An instruction as a value: its operands as a sequence.
pub struct InstructionView {
    pub kind: OpKind,
    pub out: Option<Variable>,
    pub args: Seq<Variable>,
}

impl View for Instruction {
    type V = InstructionView;

    open spec fn view(&self) -> InstructionView {
        InstructionView { kind: self.kind, out: self.out, args: self.args@ }
    }
}

/// The views of a sequence of instructions.
pub open spec fn instruction_views(ops: Seq<Instruction>) -> Seq<InstructionView> {
    Seq::new(ops.len(), |i: int| ops[i]@)
}

impl InstructionView {
    /// The local that the instruction assigns, if it assigns one that gets
    /// versions.
    pub open spec fn written_local(self) -> Option<VarKey> {
        match self.out {
            Some(v) => v.local_key(),
            None => None,
        }
    }

    /// Whether the instruction reads `v`.
    pub open spec fn reads(self, v: Variable) -> bool {
        self.args.contains(v)
    }
}

impl Instruction {
    /// An instruction of the given kind with one operand.
    pub fn unary(kind: OpKind, input: Variable, out: Variable) -> (op: Self)
        ensures
            op@ == (InstructionView { kind, out: Some(out), args: seq![input] }),
    {
        let mut args: Vec<Variable> = Vec::new();
        args.push(input);
        assert(args@ =~= seq![input]);
        Instruction { kind, out: Some(out), args }
    }

    /// An instruction of the given kind with two operands.
    pub fn binary(kind: OpKind, lhs: Variable, rhs: Variable, out: Variable) -> (op: Self)
        ensures
            op@ == (InstructionView { kind, out: Some(out), args: seq![lhs, rhs] }),
    {
        let mut args: Vec<Variable> = Vec::new();
        args.push(lhs);
        args.push(rhs);
        assert(args@ =~= seq![lhs, rhs]);
        Instruction { kind, out: Some(out), args }
    }

    /// An instruction of the given kind with three operands.
    pub fn ternary(kind: OpKind, a: Variable, b: Variable, c: Variable, out: Variable) -> (op:
        Self)
        ensures
            op@ == (InstructionView { kind, out: Some(out), args: seq![a, b, c] }),
    {
        let mut args: Vec<Variable> = Vec::new();
        args.push(a);
        args.push(b);
        args.push(c);
        assert(args@ =~= seq![a, b, c]);
        Instruction { kind, out: Some(out), args }
    }

    /// A copy of the instruction.
    pub fn duplicate(&self) -> (op: Self)
        ensures
            op@ == self@,
    {
        let mut args: Vec<Variable> = Vec::new();
        let mut i: usize = 0;
        while i < self.args.len()
            invariant
                i <= self.args.len(),
                args@ == self.args@.take(i as int),
            decreases self.args.len() - i,
        {
            args.push(self.args[i]);
            assert(self.args@.take(i + 1) =~= self.args@.take(i as int).push(self.args@[i as int]));
            i += 1;
        }
        assert(self.args@.take(i as int) =~= self.args@);
        Instruction { kind: self.kind, out: self.out, args }
    }
}

} // verus!
