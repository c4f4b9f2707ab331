//! The driver: runs the parser, the analyses and the passes in their order.

use crate::analysis::lengths_found;
use crate::block::BlockView;
use crate::const_branches::lemma_decide_frame;
use crate::counter::AtomicCounter;
use crate::dead_blocks::{lemma_without_dead, reachable_blocks};
use crate::error::OptError;
use crate::optimizer::{Optimizer, OptimizerView};
use crate::parse::{failure_of, parse_graph_spec};
use crate::passes::{lemma_advance_sum, Rule};
use crate::phi_laws::{lemma_optimize_matches, phis_match};
use crate::program::{
    blocks_instruction_count, CubeDim, ExecutionMode, Program, ProgramView,
};
use crate::scope::Scope;
use std::collections::VecDeque;
use vstd::prelude::*;

verus! {

/// An optimization pass.
#[derive(Clone, Copy, Debug, PartialEq, Eq, Structural)]
pub enum OptimizerPass {
    CompositeMerge,
    InlineAssignments,
    EliminateUnusedVariables,
    ConstOperandSimplify,
    MergeSameExpressions,
    ConstEval,
    RemoveIndexScalar,
    EliminateConstBranches,
    EliminateDeadBlocks,
    CopyTransform,
    IntegerRangeAnalysis,
    FindConstSliceLen,
    InBoundsToUnchecked,
    CopyPropagateArray,
}

/// Whether entry block and return block are blocks of the program.
pub open spec fn settled(p: ProgramView, ret: u32) -> bool {
    p.nodes.contains(p.root) && p.nodes.contains(ret)
}

impl OptimizerPass {
    /// What the pass makes of a program before it has versions, and the
    /// number of changes that it makes.
    pub open spec fn pre_ssa(self, p: ProgramView) -> (ProgramView, nat) {
        match self {
            OptimizerPass::CompositeMerge => (p.composite_merge(), p.composites()),
            _ => (p, 0),
        }
    }

    /// What the pass makes of a program with versions, and the number of
    /// changes that it makes.
    pub open spec fn post_ssa(self, p: ProgramView, ret: u32, dim: CubeDim) -> (ProgramView, nat) {
        match self {
            OptimizerPass::CompositeMerge => (p, 0),
            OptimizerPass::InlineAssignments => (p.inline_assignments(), p.inlined()),
            OptimizerPass::EliminateUnusedVariables => (
                p.eliminate_unused(false),
                p.unused(false),
            ),
            OptimizerPass::ConstOperandSimplify => (
                p.rewrite(Rule::ConstOperandSimplify, dim),
                p.rewrite_changes(Rule::ConstOperandSimplify, dim),
            ),
            OptimizerPass::MergeSameExpressions => (
                p.rewrite(Rule::MergeSameExpressions, dim),
                p.rewrite_changes(Rule::MergeSameExpressions, dim),
            ),
            OptimizerPass::ConstEval => (
                p.rewrite(Rule::ConstEval, dim),
                p.rewrite_changes(Rule::ConstEval, dim),
            ),
            OptimizerPass::RemoveIndexScalar => (
                p.rewrite(Rule::RemoveIndexScalar, dim),
                p.rewrite_changes(Rule::RemoveIndexScalar, dim),
            ),
            OptimizerPass::EliminateConstBranches => (
                p.eliminate_const_branches(),
                p.const_branches(),
            ),
            OptimizerPass::EliminateDeadBlocks => (
                p.eliminate_dead_blocks(ret),
                p.dead_blocks(ret),
            ),
            OptimizerPass::CopyTransform => (
                p.rewrite(Rule::CopyTransform, dim),
                p.rewrite_changes(Rule::CopyTransform, dim),
            ),
            OptimizerPass::IntegerRangeAnalysis => (
                p.analyze_ranges(dim),
                if p.analyzed_ranges(dim) != p.int_ranges {
                    1nat
                } else {
                    0nat
                },
            ),
            OptimizerPass::FindConstSliceLen => (
                p.find_const_slice_len(),
                lengths_found(p.slices, p.slices.len()),
            ),
            OptimizerPass::InBoundsToUnchecked => (
                p.rewrite(Rule::InBoundsToUnchecked, dim),
                p.rewrite_changes(Rule::InBoundsToUnchecked, dim),
            ),
            OptimizerPass::CopyPropagateArray => (p.copy_propagate_array(), p.array_loads()),
        }
    }

    /// Applies the pass to a program that has no versions yet, and counts
    /// its changes.
    pub fn apply_pre_ssa(&self, opt: &mut Optimizer, counter: &mut AtomicCounter)
        requires
            old(opt).program.wf(),
        ensures
            final(opt).program.wf(),
            final(opt)@ == (OptimizerView { program: self.pre_ssa(old(opt)@.program).0, ..old(opt)@ }),
            final(counter)@ == AtomicCounter::advance(
                old(counter)@,
                self.pre_ssa(old(opt)@.program).1,
            ),
            old(opt)@.program.same_graph(final(opt)@.program),
    {
        match self {
            OptimizerPass::CompositeMerge => opt.program.composite_merge(counter),
            _ => {},
        }
    }

    /// Applies the pass to a program with versions, and counts its changes.
    /// Entry block and return block stay blocks of the program.
    pub fn apply_post_ssa(&self, opt: &mut Optimizer, counter: &mut AtomicCounter)
        requires
            old(opt).program.wf(),
            settled(old(opt)@.program, old(opt)@.ret),
        ensures
            final(opt).program.wf(),
            settled(final(opt)@.program, final(opt)@.ret),
            final(opt)@ == (OptimizerView {
                program: self.post_ssa(old(opt)@.program, old(opt)@.ret, old(opt)@.cube_dim).0,
                ..old(opt)@
            }),
            final(counter)@ == AtomicCounter::advance(
                old(counter)@,
                self.post_ssa(old(opt)@.program, old(opt)@.ret, old(opt)@.cube_dim).1,
            ),
    {
        let dim = opt.cube_dim;
        let ret = opt.ret;
        match self {
            OptimizerPass::CompositeMerge => {},
            OptimizerPass::InlineAssignments => opt.program.inline_assignments(counter),
            OptimizerPass::EliminateUnusedVariables => opt.program.eliminate_unused(false, counter),
            OptimizerPass::ConstOperandSimplify => opt.program.apply_rule(
                Rule::ConstOperandSimplify,
                dim,
                counter,
            ),
            OptimizerPass::MergeSameExpressions => opt.program.apply_rule(
                Rule::MergeSameExpressions,
                dim,
                counter,
            ),
            OptimizerPass::ConstEval => opt.program.apply_rule(Rule::ConstEval, dim, counter),
            OptimizerPass::RemoveIndexScalar => opt.program.apply_rule(
                Rule::RemoveIndexScalar,
                dim,
                counter,
            ),
            OptimizerPass::EliminateConstBranches => {
                proof {
                    lemma_decide_frame(opt@.program, opt@.program.blocks.len());
                }
                opt.program.eliminate_const_branches(counter)
            },
            OptimizerPass::EliminateDeadBlocks => {
                proof {
                    lemma_without_dead(
                        opt@.program,
                        ret,
                        reachable_blocks(opt@.program),
                        opt@.program.blocks.len(),
                    );
                }
                opt.program.eliminate_dead_blocks(ret, counter)
            },
            OptimizerPass::CopyTransform => opt.program.apply_rule(
                Rule::CopyTransform,
                dim,
                counter,
            ),
            OptimizerPass::IntegerRangeAnalysis => opt.program.analyze_ranges(dim, counter),
            OptimizerPass::FindConstSliceLen => opt.program.find_const_slice_len(counter),
            OptimizerPass::InBoundsToUnchecked => opt.program.apply_rule(
                Rule::InBoundsToUnchecked,
                dim,
                counter,
            ),
            OptimizerPass::CopyPropagateArray => opt.program.copy_propagate_array(counter),
        }
    }
}

/// The passes that run on a program with versions, in their order: those
/// that run in every mode, and behind them those that need bounds checks.
pub open spec fn post_ssa_passes(mode: ExecutionMode) -> Seq<OptimizerPass> {
    let always = seq![
        OptimizerPass::InlineAssignments,
        OptimizerPass::ConstOperandSimplify,
        OptimizerPass::ConstEval,
        OptimizerPass::MergeSameExpressions,
        OptimizerPass::RemoveIndexScalar,
        OptimizerPass::EliminateConstBranches,
        OptimizerPass::EliminateDeadBlocks,
        OptimizerPass::EliminateUnusedVariables,
        OptimizerPass::CopyTransform,
    ];
    if mode == ExecutionMode::Checked {
        always + seq![
            OptimizerPass::IntegerRangeAnalysis,
            OptimizerPass::FindConstSliceLen,
            OptimizerPass::InBoundsToUnchecked,
        ]
    } else {
        always
    }
}

/// The program after one round of passes, and the number of changes in
/// the round.
pub open spec fn post_ssa_round(p: ProgramView, ret: u32, dim: CubeDim, passes: Seq<OptimizerPass>) -> (
    ProgramView,
    nat,
)
    decreases passes.len(),
{
    if passes.len() == 0 {
        (p, 0)
    } else {
        let (stage1, c1) = post_ssa_round(p, ret, dim, passes.drop_last());
        let (stage2, c2) = passes.last().post_ssa(stage1, ret, dim);
        (stage2, c1 + c2)
    }
}

/// The program after rounds of passes, and the number of rounds: a round
/// follows a round whose counter moved off zero, and there are `fuel`
/// rounds at most.
pub open spec fn post_ssa_loop(
    p: ProgramView,
    ret: u32,
    dim: CubeDim,
    passes: Seq<OptimizerPass>,
    fuel: nat,
) -> (ProgramView, nat)
    decreases fuel,
{
    if fuel == 0 {
        (p, 0)
    } else {
        let (stage1, changes) = post_ssa_round(p, ret, dim, passes);
        if AtomicCounter::advance(0, changes) == 0 {
            (stage1, 1)
        } else {
            let (stage2, rounds) = post_ssa_loop(stage1, ret, dim, passes, (fuel - 1) as nat);
            (stage2, rounds + 1)
        }
    }
}

/// The program after rounds of the one pass that runs before versions.
pub open spec fn pre_ssa_loop(p: ProgramView, fuel: nat) -> (ProgramView, nat)
    decreases fuel,
{
    if fuel == 0 {
        (p, 0)
    } else {
        let (stage1, changes) = OptimizerPass::CompositeMerge.pre_ssa(p);
        if AtomicCounter::advance(0, changes) == 0 {
            (stage1, 1)
        } else {
            let (stage2, rounds) = pre_ssa_loop(stage1, (fuel - 1) as nat);
            (stage2, rounds + 1)
        }
    }
}

/// The largest number of rounds that a loop of passes runs: 16 for each
/// instruction of the program, as far as a `usize` can hold it.
pub open spec fn ceiling(p: ProgramView) -> nat {
    if 16 * p.instruction_count() > usize::MAX {
        usize::MAX as nat
    } else {
        16 * p.instruction_count()
    }
}

impl Program {
    /// The largest number of rounds that a loop of passes runs on the
    /// program.
    pub fn round_ceiling(&self) -> (rounds: usize)
        requires
            self.wf(),
        ensures
            rounds == ceiling(self@),
    {
        proof {
            self.lemma_view_wf();
        }
        let n = self.blocks.len();
        let mut count: usize = 0;
        let mut b: usize = 0;
        while b < n
            invariant
                b <= n,
                n == self.blocks@.len(),
                n <= u32::MAX,
                count as nat == blocks_instruction_count(
                    self@.blocks.take(b as int),
                    self@.nodes,
                ) || (count == usize::MAX && blocks_instruction_count(
                    self@.blocks.take(b as int),
                    self@.nodes,
                ) >= usize::MAX),
            decreases n - b,
        {
            proof {
                assert(self@.blocks.take(b + 1).drop_last() =~= self@.blocks.take(b as int));
                assert(self@.blocks.take(b + 1).last() == self.blocks@[b as int]@);
            }
            if self.graph.contains_node(b as u32) {
                let block = &self.blocks[b];
                let phis = block.phi_nodes.len();
                let ops = block.ops.len();
                let here: u128 = phis as u128 + ops as u128 + 1;
                let sum: u128 = count as u128 + here;
                count = if sum > usize::MAX as u128 {
                    usize::MAX
                } else {
                    sum as usize
                };
            }
            b += 1;
        }
        proof {
            assert(self@.blocks.take(b as int) =~= self@.blocks);
        }
        if count > usize::MAX / 16 {
            usize::MAX
        } else {
            count * 16
        }
    }
}

impl Optimizer {
    /// The state of an optimizer before it has parsed anything.
    pub open spec fn initial(cube_dim: CubeDim, mode: ExecutionMode) -> OptimizerView {
        OptimizerView {
            program: ProgramView::empty(),
            current_block: None,
            loop_break: Seq::empty(),
            ret: 0,
            cube_dim,
            mode,
        }
    }

    /// Notes at each block the locals that are live at its entry.
    pub fn analyze_liveness(&mut self)
        requires
            old(self).program.wf(),
        ensures
            final(self).program.wf(),
            final(self)@ == (OptimizerView {
                program: old(self)@.program.with_liveness(),
                ..old(self)@
            }),
    {
        self.program.analyze_liveness();
    }

    /// Runs the pass that runs before versions, round after round, until a
    /// round changes nothing or the ceiling is met. Returns the number of
    /// rounds.
    pub fn apply_pre_ssa_passes(&mut self) -> (rounds: usize)
        requires
            old(self).program.wf(),
        ensures
            final(self).program.wf(),
            final(self)@ == (OptimizerView {
                program: pre_ssa_loop(old(self)@.program, ceiling(old(self)@.program)).0,
                ..old(self)@
            }),
            rounds == pre_ssa_loop(old(self)@.program, ceiling(old(self)@.program)).1,
            rounds <= ceiling(old(self)@.program),
            old(self)@.program.same_graph(final(self)@.program),
    {
        let limit = self.program.round_ceiling();
        let ghost p0 = self@.program;
        let mut rounds: usize = 0;
        let mut fuel = limit;
        while fuel > 0
            invariant
                self.program.wf(),
                rounds + fuel <= limit,
                limit == ceiling(p0),
                p0 == old(self)@.program,
                p0.same_graph(self@.program),
                self@ == (OptimizerView { program: self@.program, ..old(self)@ }),
                pre_ssa_loop(p0, limit as nat).0 == pre_ssa_loop(self@.program, fuel as nat).0,
                pre_ssa_loop(p0, limit as nat).1 == rounds + pre_ssa_loop(
                    self@.program,
                    fuel as nat,
                ).1,
            ensures
                fuel == 0,
            decreases fuel,
        {
            let mut counter = AtomicCounter::new(0);
            let pass = OptimizerPass::CompositeMerge;
            pass.apply_pre_ssa(self, &mut counter);
            rounds += 1;
            fuel -= 1;
            if counter.get() == 0 {
                fuel = 0;
                proof {
                    assert(pre_ssa_loop(self@.program, 0).1 == 0);
                }
                break;
            }
        }
        rounds
    }

    /// The passes that run on a program with versions, in their order.
    pub fn passes_for(mode: ExecutionMode) -> (passes: Vec<OptimizerPass>)
        ensures
            passes@ == post_ssa_passes(mode),
    {
        let mut passes: Vec<OptimizerPass> = Vec::new();
        passes.push(OptimizerPass::InlineAssignments);
        passes.push(OptimizerPass::ConstOperandSimplify);
        passes.push(OptimizerPass::ConstEval);
        passes.push(OptimizerPass::MergeSameExpressions);
        passes.push(OptimizerPass::RemoveIndexScalar);
        passes.push(OptimizerPass::EliminateConstBranches);
        passes.push(OptimizerPass::EliminateDeadBlocks);
        passes.push(OptimizerPass::EliminateUnusedVariables);
        passes.push(OptimizerPass::CopyTransform);
        match mode {
            ExecutionMode::Checked => {
                passes.push(OptimizerPass::IntegerRangeAnalysis);
                passes.push(OptimizerPass::FindConstSliceLen);
                passes.push(OptimizerPass::InBoundsToUnchecked);
            },
            ExecutionMode::Unchecked => {},
        }
        proof {
            assert(passes@ =~= post_ssa_passes(mode));
        }
        passes
    }

    /// Runs one round of passes, and counts the changes.
    pub fn run_round(&mut self, passes: &Vec<OptimizerPass>, counter: &mut AtomicCounter)
        requires
            old(self).program.wf(),
            settled(old(self)@.program, old(self)@.ret),
        ensures
            final(self).program.wf(),
            settled(final(self)@.program, final(self)@.ret),
            final(self)@ == (OptimizerView {
                program: post_ssa_round(
                    old(self)@.program,
                    old(self)@.ret,
                    old(self)@.cube_dim,
                    passes@,
                ).0,
                ..old(self)@
            }),
            final(counter)@ == AtomicCounter::advance(
                old(counter)@,
                post_ssa_round(old(self)@.program, old(self)@.ret, old(self)@.cube_dim, passes@).1,
            ),
    {
        let ghost p0 = self@.program;
        let ghost ret = self@.ret;
        let ghost dim = self@.cube_dim;
        let mut i: usize = 0;
        while i < passes.len()
            invariant
                i <= passes.len(),
                self.program.wf(),
                settled(self@.program, self@.ret),
                p0 == old(self)@.program,
                ret == old(self)@.ret,
                dim == old(self)@.cube_dim,
                self@ == (OptimizerView { program: self@.program, ..old(self)@ }),
                self@.program == post_ssa_round(p0, ret, dim, passes@.take(i as int)).0,
                counter@ == AtomicCounter::advance(
                    old(counter)@,
                    post_ssa_round(p0, ret, dim, passes@.take(i as int)).1,
                ),
            decreases passes.len() - i,
        {
            proof {
                assert(passes@.take(i + 1).drop_last() =~= passes@.take(i as int));
                assert(passes@.take(i + 1).last() == passes@[i as int]);
                lemma_advance_sum(
                    old(counter)@,
                    post_ssa_round(p0, ret, dim, passes@.take(i as int)).1,
                    passes@[i as int].post_ssa(self@.program, ret, dim).1,
                );
            }
            let pass = passes[i];
            pass.apply_post_ssa(self, counter);
            i += 1;
        }
        proof {
            assert(passes@.take(i as int) =~= passes@);
        }
    }

    /// Runs the passes that run on a program with versions, round after
    /// round, until a round changes nothing or the ceiling is met. Returns
    /// the number of rounds.
    pub fn apply_post_ssa_passes(&mut self) -> (rounds: usize)
        requires
            old(self).program.wf(),
            settled(old(self)@.program, old(self)@.ret),
        ensures
            final(self).program.wf(),
            settled(final(self)@.program, final(self)@.ret),
            final(self)@ == (OptimizerView {
                program: post_ssa_loop(
                    old(self)@.program,
                    old(self)@.ret,
                    old(self)@.cube_dim,
                    post_ssa_passes(old(self)@.mode),
                    ceiling(old(self)@.program),
                ).0,
                ..old(self)@
            }),
            rounds == post_ssa_loop(
                old(self)@.program,
                old(self)@.ret,
                old(self)@.cube_dim,
                post_ssa_passes(old(self)@.mode),
                ceiling(old(self)@.program),
            ).1,
            rounds <= ceiling(old(self)@.program),
    {
        let limit = self.program.round_ceiling();
        let passes = Self::passes_for(self.mode);
        let ghost p0 = self@.program;
        let ghost ret = self@.ret;
        let ghost dim = self@.cube_dim;
        let mut rounds: usize = 0;
        let mut fuel = limit;
        while fuel > 0
            invariant
                self.program.wf(),
                settled(self@.program, self@.ret),
                rounds + fuel <= limit,
                limit == ceiling(p0),
                p0 == old(self)@.program,
                ret == old(self)@.ret,
                dim == old(self)@.cube_dim,
                passes@ == post_ssa_passes(old(self)@.mode),
                self@ == (OptimizerView { program: self@.program, ..old(self)@ }),
                post_ssa_loop(p0, ret, dim, passes@, limit as nat).0 == post_ssa_loop(
                    self@.program,
                    ret,
                    dim,
                    passes@,
                    fuel as nat,
                ).0,
                post_ssa_loop(p0, ret, dim, passes@, limit as nat).1 == rounds + post_ssa_loop(
                    self@.program,
                    ret,
                    dim,
                    passes@,
                    fuel as nat,
                ).1,
            ensures
                fuel == 0,
            decreases fuel,
        {
            let mut counter = AtomicCounter::new(0);
            self.run_round(&passes, &mut counter);
            rounds += 1;
            fuel -= 1;
            if counter.get() == 0 {
                fuel = 0;
                proof {
                    assert(post_ssa_loop(self@.program, ret, dim, passes@, 0).1 == 0);
                }
                break;
            }
        }
        rounds
    }
}

/// The program after the whole optimization: liveness, the pass before
/// versions, the transformation into static single-assignment form, the
/// passes behind it, and the propagation of array copies, after which
/// liveness, transformation and passes run once more if it changed
/// anything.
pub open spec fn optimize(p: ProgramView, ret: u32, dim: CubeDim, mode: ExecutionMode) -> Result<
    ProgramView,
    OptError,
> {
    let stage1 = p.with_liveness();
    let stage2 = pre_ssa_loop(stage1, ceiling(stage1)).0;
    match stage2.exempt_index_assign_locals().ssa_transform() {
        Ok(stage3) => {
            let stage4 = post_ssa_loop(stage3, ret, dim, post_ssa_passes(mode), ceiling(stage3)).0;
            let (stage5, changes) = OptimizerPass::CopyPropagateArray.post_ssa(stage4, ret, dim);
            if AtomicCounter::advance(0, changes) > 0 {
                match stage5.with_liveness().ssa_transform() {
                    Ok(stage6) => Ok(
                        post_ssa_loop(stage6, ret, dim, post_ssa_passes(mode), ceiling(stage6)).0,
                    ),
                    Err(e) => Err(e),
                }
            } else {
                Ok(stage5)
            }
        },
        Err(e) => Err(e),
    }
}

/// The optimizer after it has parsed and optimized the scope.
pub open spec fn run(s: OptimizerView, scope: crate::scope::ScopeView) -> Result<
    OptimizerView,
    OptError,
> {
    match parse_graph_spec(s, scope) {
        Ok(s1) => match optimize(s1.program, s1.ret, s1.cube_dim, s1.mode) {
            Ok(program) => Ok(OptimizerView { program, ..s1 }),
            Err(e) => Err(e),
        },
        Err(e) => Err(e),
    }
}

impl Optimizer {
    /// Brings the program into static single-assignment form.
    pub fn ssa_transform(&mut self) -> (done: Result<(), OptError>)
        requires
            old(self).program.wf(),
            settled(old(self)@.program, old(self)@.ret),
        ensures
            match old(self)@.program.ssa_transform() {
                Ok(p) => done is Ok && final(self)@ == (OptimizerView { program: p, ..old(self)@ })
                    && final(self).program.wf() && settled(p, old(self)@.ret),
                Err(e) => done == Err::<(), OptError>(e),
            },
    {
        self.program.ssa_transform()
    }

    /// Takes the locals that are assigned item by item out of the
    /// variables.
    pub fn exempt_index_assign_locals(&mut self)
        requires
            old(self).program.wf(),
        ensures
            final(self).program.wf(),
            final(self)@ == (OptimizerView {
                program: old(self)@.program.exempt_index_assign_locals(),
                ..old(self)@
            }),
    {
        self.program.exempt_index_assign_locals();
    }

    /// Run all optimizations. In the program that is handed out, entry block
    /// and return block are blocks, and every phi node has one entry for
    /// each predecessor of its block, in the order of the predecessors.
    pub fn run_opt(&mut self, expand: &Scope) -> (done: Result<(), OptError>)
        requires
            old(self).program.wf(),
            old(self)@.program.no_phis(),
        ensures
            match run(old(self)@, expand@) {
                Ok(s) => done is Ok && final(self)@ == s && final(self).program.wf() && settled(
                    s.program,
                    s.ret,
                ) && phis_match(s.program),
                Err(e) => done == Err::<(), OptError>(e),
            },
    {
        match self.parse_graph(expand) {
            Ok(()) => {},
            Err(e) => return Err(e),
        }
        proof {
            lemma_optimize_matches(self@.program, self@.ret, self@.cube_dim, self@.mode);
        }
        self.analyze_liveness();
        self.apply_pre_ssa_passes();
        self.exempt_index_assign_locals();
        match self.ssa_transform() {
            Ok(()) => {},
            Err(e) => return Err(e),
        }
        self.apply_post_ssa_passes();
        let mut arrays_prop = AtomicCounter::new(0);
        let pass = OptimizerPass::CopyPropagateArray;
        pass.apply_post_ssa(self, &mut arrays_prop);
        if arrays_prop.get() > 0 {
            self.analyze_liveness();
            match self.ssa_transform() {
                Ok(()) => {},
                Err(e) => return Err(e),
            }
            self.apply_post_ssa_passes();
        }
        Ok(())
    }

    /// Create a new optimizer with the scope, `CubeDim` and execution mode
    /// passed into the compiler. Parses the scope and runs several
    /// optimization and analysis loops.
    pub fn new(expand: Scope, cube_dim: CubeDim, mode: ExecutionMode) -> (made: Result<
        Self,
        OptError,
    >)
        ensures
            match run(Self::initial(cube_dim, mode), expand@) {
                Ok(s) => match made {
                    Ok(opt) => opt@ == s && opt.program.wf() && settled(s.program, s.ret)
                        && phis_match(s.program),
                    Err(_) => false,
                },
                Err(e) => failure_of(made) == Some(e),
            },
    {
        let mut opt = Optimizer {
            program: Program::new(),
            current_block: None,
            loop_break: VecDeque::new(),
            ret: 0,
            cube_dim,
            mode,
        };
        match opt.run_opt(&expand) {
            Ok(()) => Ok(opt),
            Err(e) => Err(e),
        }
    }
}

} // verus!
