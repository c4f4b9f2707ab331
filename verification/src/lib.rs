//! A middle-end for a GPU kernel intermediate representation.
//!
//! A tree of scopes is lowered into a control-flow graph of basic blocks, the
//! graph is brought into pruned static single-assignment form, and
//! optimization passes run over it until nothing changes any more.

pub mod analysis;
pub mod block;
pub mod closure;
pub mod composite;
pub mod const_branches;
pub mod counter;
pub mod dead_blocks;
pub mod driver;
pub mod error;
pub mod graph;
pub mod guards;
pub mod inline;
pub mod instruction;
pub mod ir;
pub mod launch;
pub mod laws;
pub mod liveness;
pub mod optimizer;
pub mod parse;
pub mod passes;
pub mod path_laws;
pub mod phi_frontiers;
pub mod phi_laws;
pub mod procedure;
pub mod rewrite;
pub mod program;
pub mod range;
pub mod scope;
pub mod semantics;
pub mod spirv;
pub mod spirv_builder;
pub mod ssa;
pub mod uses;
pub mod value_laws;
pub mod varmap;
pub mod version;
pub mod version_laws;

pub use block::{BasicBlock, ControlFlow, PhiInstruction};
pub use counter::AtomicCounter;
pub use error::OptError;
pub use graph::NodeId;
pub use instruction::{Instruction, OpKind};
pub use ir::{ConstantValue, Elem, FloatKind, IntKind, Item, Position, Variable};
pub use driver::OptimizerPass;
pub use optimizer::{visit_noop, Optimizer};
pub use program::{CubeDim, ExecutionMode, Program, Range, Slice};
pub use scope::{Branch, Operation, Procedure, Scope};
