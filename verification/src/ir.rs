//! The intermediate representation: element types, variables, instructions
//! and the tree of scopes that the optimizer takes as its input.

use vstd::prelude::*;

verus! {

/// The precision of a floating-point element.
#[derive(Clone, Copy, Debug, PartialEq, Eq, Structural)]
pub enum FloatKind {
    F16,
    BF16,
    F32,
    F64,
}

/// The width of a signed integer element.
#[derive(Clone, Copy, Debug, PartialEq, Eq, Structural)]
pub enum IntKind {
    I32,
    I64,
}

/// The type of one element of a value.
#[derive(Clone, Copy, Debug, PartialEq, Eq, Structural)]
pub enum Elem {
    Float(FloatKind),
    Int(IntKind),
    AtomicInt(IntKind),
    UInt,
    AtomicUInt,
    Bool,
}

impl Elem {
    /// Whether values of this type are only touched by atomic operations.
    pub open spec fn is_atomic_spec(self) -> bool {
        self is AtomicInt || self is AtomicUInt
    }

    /// The width of one element in bits.
    pub open spec fn bits_spec(self) -> nat {
        match self {
            Elem::Float(FloatKind::F16) => 16,
            Elem::Float(FloatKind::BF16) => 16,
            Elem::Float(FloatKind::F32) => 32,
            Elem::Float(FloatKind::F64) => 64,
            Elem::Int(IntKind::I32) => 32,
            Elem::Int(IntKind::I64) => 64,
            Elem::AtomicInt(IntKind::I32) => 32,
            Elem::AtomicInt(IntKind::I64) => 64,
            Elem::UInt => 32,
            Elem::AtomicUInt => 32,
            Elem::Bool => 8,
        }
    }

    /// Whether values of this type are only touched by atomic operations.
    pub fn is_atomic(&self) -> (atomic: bool)
        ensures
            atomic == self.is_atomic_spec(),
    {
        match self {
            Elem::AtomicInt(_) => true,
            Elem::AtomicUInt => true,
            _ => false,
        }
    }

    /// The width of one element in bits.
    pub fn bits(&self) -> (width: u32)
        ensures
            width == self.bits_spec(),
    {
        match self {
            Elem::Float(FloatKind::F16) => 16,
            Elem::Float(FloatKind::BF16) => 16,
            Elem::Float(FloatKind::F32) => 32,
            Elem::Float(FloatKind::F64) => 64,
            Elem::Int(IntKind::I32) => 32,
            Elem::Int(IntKind::I64) => 64,
            Elem::AtomicInt(IntKind::I32) => 32,
            Elem::AtomicInt(IntKind::I64) => 64,
            Elem::UInt => 32,
            Elem::AtomicUInt => 32,
            Elem::Bool => 8,
        }
    }
}

/// An element type together with the number of lanes of a value.
#[derive(Clone, Copy, Debug, PartialEq, Eq, Structural)]
pub struct Item {
    pub elem: Elem,
    /// The vectorization factor: 1 for a scalar, else 2, 3, 4 or 8.
    pub vectorization: u8,
}

impl Item {
    /// Whether the vectorization factor is one of 1, 2, 3, 4 and 8.
    pub open spec fn valid(self) -> bool {
        self.vectorization == 1 || self.vectorization == 2 || self.vectorization == 3
            || self.vectorization == 4 || self.vectorization == 8
    }

    /// The width of a value in bits: the element's width times the lanes.
    pub open spec fn bits_spec(self) -> nat {
        self.elem.bits_spec() * self.vectorization as nat
    }

    /// A scalar of the given element type.
    pub fn new(elem: Elem) -> (item: Self)
        ensures
            item == (Item { elem, vectorization: 1 }),
    {
        Item { elem, vectorization: 1 }
    }

    /// The width of a value in bits.
    pub fn bits(&self) -> (width: u32)
        ensures
            width == self.bits_spec(),
    {
        let lanes: u32 = self.vectorization as u32;
        let each: u32 = self.elem.bits();
        assert(each * lanes <= 64 * 255) by (nonlinear_arith)
            requires
                each <= 64,
                lanes <= 255,
        ;
        each * lanes
    }
}

/// A value that is known when the kernel is compiled. A floating-point
/// constant is kept as its bit pattern and never computed with.
#[derive(Clone, Copy, Debug, PartialEq, Eq, Structural)]
pub enum ConstantValue {
    Int(i64, IntKind),
    UInt(u64),
    Bool(bool),
    Float(u64, FloatKind),
}

/// A position of the running unit or cube, or a size of the launch grid.
#[derive(Clone, Copy, Debug, PartialEq, Eq, Structural)]
pub enum Position {
    UnitPos,
    UnitPosX,
    UnitPosY,
    UnitPosZ,
    CubePos,
    CubePosX,
    CubePosY,
    CubePosZ,
    CubeDim,
    CubeDimX,
    CubeDimY,
    CubeDimZ,
    CubeCount,
    CubeCountX,
    CubeCountY,
    CubeCountZ,
    AbsolutePos,
    AbsolutePosX,
    AbsolutePosY,
    AbsolutePosZ,
    /// The number of dimensions of the tensors of the kernel.
    Rank,
}

/// An operand of an instruction.
#[derive(Clone, Copy, Debug, PartialEq, Eq, Structural)]
pub enum Variable {
    /// A mutable name of the source program.
    Local { id: u16, depth: u8, item: Item },
    /// One static assignment of a local.
    Versioned { id: u16, depth: u8, item: Item, version: u16 },
    ConstantScalar(ConstantValue),
    GlobalScalar { id: u16, elem: Elem },
    GlobalInputArray { id: u16, item: Item },
    GlobalOutputArray { id: u16, item: Item },
    /// An array that lives in the kernel, with its number of items.
    LocalArray { id: u16, depth: u8, item: Item, length: u32 },
    Slice { id: u16, depth: u8, item: Item },
    Matrix { id: u16, depth: u8 },
    Position(Position),
}

/// The name of a local: its id and the depth of its scope.
pub type VarKey = (u16, u8);

/// The name of one static assignment: id, depth and version.
pub type VarId = (u16, u8, u16);

impl Variable {
    /// The element type and lanes of the value, where the variable has them.
    pub open spec fn item_spec(self) -> Option<Item> {
        match self {
            Variable::Local { item, .. } => Some(item),
            Variable::Versioned { item, .. } => Some(item),
            Variable::ConstantScalar(c) => Some(
                Item {
                    elem: match c {
                        ConstantValue::Int(_, kind) => Elem::Int(kind),
                        ConstantValue::UInt(_) => Elem::UInt,
                        ConstantValue::Bool(_) => Elem::Bool,
                        ConstantValue::Float(_, kind) => Elem::Float(kind),
                    },
                    vectorization: 1,
                },
            ),
            Variable::GlobalScalar { elem, .. } => Some(Item { elem, vectorization: 1 }),
            Variable::GlobalInputArray { item, .. } => Some(item),
            Variable::GlobalOutputArray { item, .. } => Some(item),
            Variable::LocalArray { item, .. } => Some(item),
            Variable::Slice { item, .. } => Some(item),
            Variable::Matrix { .. } => None,
            Variable::Position(_) => Some(Item { elem: Elem::UInt, vectorization: 1 }),
        }
    }

    /// The name of the variable if it is a local whose element type is not
    /// atomic: such locals are the ones that get versions.
    pub open spec fn local_key(self) -> Option<VarKey> {
        match self {
            Variable::Local { id, depth, item } => if item.elem.is_atomic_spec() {
                None
            } else {
                Some((id, depth))
            },
            _ => None,
        }
    }

    /// The name of the static assignment that the variable stands for.
    pub open spec fn versioned_id(self) -> Option<VarId> {
        match self {
            Variable::Versioned { id, depth, version, .. } => Some((id, depth, version)),
            _ => None,
        }
    }

    /// The constant that the variable holds.
    pub open spec fn constant(self) -> Option<ConstantValue> {
        match self {
            Variable::ConstantScalar(c) => Some(c),
            _ => None,
        }
    }

    /// The element type and lanes of the value, where the variable has them.
    pub fn item(&self) -> (item: Option<Item>)
        ensures
            item == self.item_spec(),
    {
        match self {
            Variable::Local { item, .. } => Some(*item),
            Variable::Versioned { item, .. } => Some(*item),
            Variable::ConstantScalar(c) => Some(
                Item {
                    elem: match c {
                        ConstantValue::Int(_, kind) => Elem::Int(*kind),
                        ConstantValue::UInt(_) => Elem::UInt,
                        ConstantValue::Bool(_) => Elem::Bool,
                        ConstantValue::Float(_, kind) => Elem::Float(*kind),
                    },
                    vectorization: 1,
                },
            ),
            Variable::GlobalScalar { elem, .. } => Some(Item { elem: *elem, vectorization: 1 }),
            Variable::GlobalInputArray { item, .. } => Some(*item),
            Variable::GlobalOutputArray { item, .. } => Some(*item),
            Variable::LocalArray { item, .. } => Some(*item),
            Variable::Slice { item, .. } => Some(*item),
            Variable::Matrix { .. } => None,
            Variable::Position(_) => Some(Item { elem: Elem::UInt, vectorization: 1 }),
        }
    }

    /// The name of the variable if it is a local whose element type is not
    /// atomic.
    pub fn as_local(&self) -> (key: Option<VarKey>)
        ensures
            key == self.local_key(),
    {
        match self {
            Variable::Local { id, depth, item } => if item.elem.is_atomic() {
                None
            } else {
                Some((*id, *depth))
            },
            _ => None,
        }
    }

    /// The name of the static assignment that the variable stands for.
    pub fn as_versioned(&self) -> (id: Option<VarId>)
        ensures
            id == self.versioned_id(),
    {
        match self {
            Variable::Versioned { id, depth, version, .. } => Some((*id, *depth, *version)),
            _ => None,
        }
    }

    /// The constant that the variable holds.
    pub fn as_const(&self) -> (value: Option<ConstantValue>)
        ensures
            value == self.constant(),
    {
        match self {
            Variable::ConstantScalar(c) => Some(*c),
            _ => None,
        }
    }
}

} // verus!
