//! Guards: comparisons that are known to hold wherever a branch on them
//! dominates.

use crate::block::{BasicBlock, BlockView, ControlFlow, ControlFlowView};
use crate::graph::predecessors_of;
use crate::instruction::{instruction_views, Instruction, InstructionView, OpKind};
use crate::ir::{VarId, Variable};
use crate::phi_frontiers::idoms_of;
use crate::program::{CubeDim, Program, ProgramView, Range};
use crate::range::{range_of_variable, tighter_upper, variable_range, bounds_tighter_upper};
use vstd::prelude::*;

verus! {

/// A comparison that holds in a part of the program: `small < large`, or
/// `small <= large` where it is not strict, in every block that `block`
/// dominates.
#[derive(Clone, Copy, Debug, PartialEq, Eq, Structural)]
pub struct Guard {
    pub block: u32,
    pub small: Variable,
    pub large: Variable,
    pub strict: bool,
}

/// The block into which a terminator goes if its condition holds, with the
/// condition.
pub open spec fn guarded_target(control_flow: ControlFlowView) -> Option<(Variable, u32)> {
    match control_flow {
        ControlFlowView::IfElse { cond, then, .. } => Some((cond, then)),
        ControlFlowView::Break { cond, body, .. } => Some((cond, body)),
        _ => None,
    }
}

/// The place of the first comparison among `ops` that computes `cond` as
/// `a < b` or `a <= b`, or -1.
pub open spec fn comparison_at(ops: Seq<InstructionView>, cond: Variable, upto: int) -> int
    decreases upto,
{
    if upto <= 0 {
        -1
    } else {
        let before = comparison_at(ops, cond, upto - 1);
        if before >= 0 {
            before
        } else if upto - 1 < ops.len() && ops[upto - 1].out == Some(cond) && (ops[upto - 1].kind
            == OpKind::Lower || ops[upto - 1].kind == OpKind::LowerEqual) && ops[upto
            - 1].args.len() == 2 {
            upto - 1
        } else {
            -1
        }
    }
}

/// The guard that the terminator of block `h` sets up: the block goes into
/// a block that has no other predecessor if a versioned condition holds
/// that the block itself computes by a comparison.
pub open spec fn guard_of(p: ProgramView, h: u32) -> Option<Guard> {
    if !p.nodes.contains(h) || h >= p.blocks.len() {
        None
    } else {
        match guarded_target(p.blocks[h as int].control_flow) {
            Some((cond, target)) => {
                let i = comparison_at(p.blocks[h as int].ops, cond, p.blocks[h as int].ops.len() as int);
                if cond is Versioned && p.predecessors(target).len() == 1 && 0 <= i
                    < p.blocks[h as int].ops.len() {
                    let op = p.blocks[h as int].ops[i];
                    Some(
                        Guard {
                            block: target,
                            small: op.args[0],
                            large: op.args[1],
                            strict: op.kind == OpKind::Lower,
                        },
                    )
                } else {
                    None
                }
            },
            None => None,
        }
    }
}

/// The guards of the program, beside the block that sets each up.
pub open spec fn guards_of(p: ProgramView) -> Seq<Option<Guard>> {
    Seq::new(p.blocks.len(), |h: int| guard_of(p, h as u32))
}

/// Whether the walk up the dominator tree from `x` meets `t` within `fuel`
/// blocks: then `t` dominates `x`.
pub open spec fn dominated(idoms: Seq<Option<u32>>, x: u32, t: u32, fuel: nat) -> bool
    decreases fuel,
{
    x == t || (fuel > 0 && x < idoms.len() && match idoms[x as int] {
        Some(up) => dominated(idoms, up, t, (fuel - 1) as nat),
        None => false,
    })
}

/// The upper bound that a guard gives the variable `v` in block `x`, if it
/// gives one.
pub open spec fn guard_bound(
    ranges: Seq<(VarId, Range)>,
    dim: CubeDim,
    idoms: Seq<Option<u32>>,
    guard: Option<Guard>,
    x: u32,
    v: Variable,
) -> Option<i64> {
    match guard {
        Some(g) => if g.small == v && v is Versioned && dominated(idoms, x, g.block, idoms.len()) {
            match variable_range(ranges, dim, g.large).upper_bound {
                Some(u) => if g.strict {
                    if u > i64::MIN {
                        Some((u - 1) as i64)
                    } else {
                        None
                    }
                } else {
                    Some(u)
                },
                None => None,
            }
        } else {
            None
        },
        None => None,
    }
}

/// The least upper bound that the first `m` guards give the variable `v`
/// in block `x`, if one of them gives one.
pub open spec fn guarded_upper(
    ranges: Seq<(VarId, Range)>,
    dim: CubeDim,
    idoms: Seq<Option<u32>>,
    guards: Seq<Option<Guard>>,
    x: u32,
    v: Variable,
    m: nat,
) -> Option<i64>
    decreases m,
{
    if m == 0 {
        None
    } else if m <= guards.len() {
        tighter_upper(
            guarded_upper(ranges, dim, idoms, guards, x, v, (m - 1) as nat),
            guard_bound(ranges, dim, idoms, guards[m - 1], x, v),
        )
    } else {
        guarded_upper(ranges, dim, idoms, guards, x, v, (m - 1) as nat)
    }
}

/// The block into which a terminator goes if its condition holds.
pub fn target_of(control_flow: &ControlFlow) -> (target: Option<(Variable, u32)>)
    ensures
        target == guarded_target(control_flow@),
{
    match control_flow {
        ControlFlow::IfElse { cond, then, .. } => Some((*cond, *then)),
        ControlFlow::Break { cond, body, .. } => Some((*cond, *body)),
        _ => None,
    }
}

/// A comparison that is found below `found` is the one that is found below
/// any later place.
pub proof fn lemma_comparison_found(ops: Seq<InstructionView>, cond: Variable, found: int, upto: int)
    requires
        0 < found <= upto,
        comparison_at(ops, cond, found) >= 0,
    ensures
        comparison_at(ops, cond, upto) == comparison_at(ops, cond, found),
    decreases upto - found,
{
    if found < upto {
        lemma_comparison_found(ops, cond, found, upto - 1);
    }
}

/// The place of the first comparison that computes `cond`.
pub fn find_comparison(ops: &Vec<Instruction>, cond: &Variable) -> (found: Option<usize>)
    ensures
        match found {
            Some(i) => i == comparison_at(instruction_views(ops@), *cond, ops@.len() as int)
                && i < ops@.len() && ops@[i as int].args@.len() == 2,
            None => comparison_at(instruction_views(ops@), *cond, ops@.len() as int) < 0,
        },
{
    let ghost views = instruction_views(ops@);
    let mut i: usize = 0;
    while i < ops.len()
        invariant
            i <= ops.len(),
            views == instruction_views(ops@),
            comparison_at(views, *cond, i as int) == -1,
        decreases ops.len() - i,
    {
        let op = &ops[i];
        let compares = match op.kind {
            OpKind::Lower => true,
            OpKind::LowerEqual => true,
            _ => false,
        };
        let writes = match op.out {
            Some(out) => out == *cond,
            None => false,
        };
        if compares && writes && op.args.len() == 2 {
            proof {
                assert(views[i as int] == ops@[i as int]@);
                assert(comparison_at(views, *cond, i + 1) == i);
                lemma_comparison_found(views, *cond, i + 1, ops@.len() as int);
            }
            return Some(i);
        }
        proof {
            assert(views[i as int] == ops@[i as int]@);
        }
        i += 1;
    }
    None
}

impl Program {
    /// The guards of the program, beside the block that sets each up.
    pub fn collect_guards(&self) -> (guards: Vec<Option<Guard>>)
        requires
            self.wf(),
        ensures
            guards@ == guards_of(self@),
    {
        proof {
            self.lemma_view_wf();
        }
        let n = self.blocks.len();
        let mut guards: Vec<Option<Guard>> = Vec::new();
        let mut h: usize = 0;
        while h < n
            invariant
                h <= n,
                n == self.blocks@.len(),
                n <= u32::MAX,
                guards@.len() == h,
                forall|i: int| 0 <= i < h ==> #[trigger] guards@[i] == guard_of(self@, i as u32),
            decreases n - h,
        {
            let mut guard: Option<Guard> = None;
            if self.graph.contains_node(h as u32) {
                match target_of(&self.blocks[h].control_flow) {
                    Some((cond, target)) => {
                        let versioned = match cond {
                            Variable::Versioned { .. } => true,
                            _ => false,
                        };
                        if versioned && self.predecessors(target).len() == 1 {
                            match find_comparison(&self.blocks[h].ops, &cond) {
                                Some(i) => {
                                    let op = &self.blocks[h].ops[i];
                                    let strict = match op.kind {
                                        OpKind::Lower => true,
                                        _ => false,
                                    };
                                    guard = Some(
                                        Guard {
                                            block: target,
                                            small: op.args[0],
                                            large: op.args[1],
                                            strict,
                                        },
                                    );
                                },
                                None => {},
                            }
                        }
                    },
                    None => {},
                }
            }
            guards.push(guard);
            h += 1;
        }
        assert(guards@ =~= guards_of(self@));
        guards
    }
}

/// Whether the walk up the dominator tree from `x` meets `t`.
pub fn is_dominated(idoms: &Vec<Option<u32>>, x: u32, t: u32) -> (yes: bool)
    ensures
        yes == dominated(idoms@, x, t, idoms@.len() as nat),
{
    let mut runner = x;
    let mut fuel = idoms.len();
    loop
        invariant
            fuel <= idoms@.len(),
            dominated(idoms@, x, t, idoms@.len() as nat) == dominated(idoms@, runner, t, fuel as nat),
        decreases fuel,
    {
        if runner == t {
            return true;
        }
        if fuel == 0 || runner as usize >= idoms.len() {
            return false;
        }
        match idoms[runner as usize] {
            Some(up) => {
                runner = up;
                fuel = fuel - 1;
            },
            None => {
                return false;
            },
        }
    }
}

/// The least upper bound that the guards give the variable `v` in block
/// `x`.
pub fn upper_by_guards(
    ranges: &Vec<(VarId, Range)>,
    dim: CubeDim,
    idoms: &Vec<Option<u32>>,
    guards: &Vec<Option<Guard>>,
    x: u32,
    v: &Variable,
) -> (upper: Option<i64>)
    ensures
        upper == guarded_upper(ranges@, dim, idoms@, guards@, x, *v, guards@.len()),
{
    let mut upper: Option<i64> = None;
    let versioned = match v {
        Variable::Versioned { .. } => true,
        _ => false,
    };
    let mut m: usize = 0;
    while m < guards.len()
        invariant
            m <= guards.len(),
            versioned == (*v is Versioned),
            upper == guarded_upper(ranges@, dim, idoms@, guards@, x, *v, m as nat),
        decreases guards.len() - m,
    {
        let bound: Option<i64> = match guards[m] {
            Some(g) => {
                if g.small == *v && versioned && is_dominated(idoms, x, g.block) {
                    match range_of_variable(ranges, dim, &g.large).upper_bound {
                        Some(u) => {
                            if g.strict {
                                if u > i64::MIN {
                                    Some(u - 1)
                                } else {
                                    None
                                }
                            } else {
                                Some(u)
                            }
                        },
                        None => None,
                    }
                } else {
                    None
                }
            },
            None => None,
        };
        upper = bounds_tighter_upper(upper, bound);
        m += 1;
    }
    upper
}

} // verus!
