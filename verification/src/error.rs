//! The ways in which a compilation is aborted.

use vstd::prelude::*;

verus! {

/// Why the optimizer gave up on a kernel.
#[derive(Clone, Copy, Debug, PartialEq, Eq, Structural)]
pub enum OptError {
    /// The graph cannot take another block or another edge.
    GraphFull,
    /// An operation stands behind a return or a break of its own scope.
    NoCurrentBlock,
    /// A break stands outside every loop.
    BreakOutsideLoop,
    /// The output of a slice operation is no slice variable; the number is
    /// that of the block in which the operation stands.
    SliceOutput(u32),
    /// A scope needs more temporaries than a `u16` can number.
    TooManyLocals,
    /// A local is assigned more often than a `u16` can number.
    TooManyVersions,
}

} // verus!
