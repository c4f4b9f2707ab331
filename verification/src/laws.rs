//! What holds of the optimizer as a whole.

use crate::block::BlockView;
use crate::counter::AtomicCounter;
use crate::graph::predecessors_of;
use crate::ir::{Item, VarKey};
use crate::parse::{nth_block, parse_graph_spec, parse_operations_spec, parse_scope_spec};
use crate::passes::Rule;
use crate::phi_frontiers::{frontier, in_frontier, phi_blocks};
use crate::phi_laws::{
    blocks_same_keys, lemma_first_index, lemma_predecessors_remove, lemma_version_tree_keys,
    same_phis,
};
use crate::scope::OperationView;
use crate::version::Renaming;
use crate::dead_blocks::{lemma_without_dead, reachable_blocks};
use crate::driver::{
    ceiling, optimize, post_ssa_loop, post_ssa_passes, post_ssa_round, pre_ssa_loop, run, settled,
    OptimizerPass,
};
use crate::error::OptError;
use crate::optimizer::{Optimizer, OptimizerView};
use crate::program::{CubeDim, ExecutionMode, ProgramView};
use crate::scope::ScopeView;
use vstd::prelude::*;

verus! {

/// A loop of passes runs no more rounds than its fuel allows, so no more
/// than 16 for each instruction that the program had when the loop began.
pub proof fn lemma_rounds_bounded(
    p: ProgramView,
    ret: u32,
    dim: CubeDim,
    passes: Seq<OptimizerPass>,
    fuel: nat,
)
    ensures
        post_ssa_loop(p, ret, dim, passes, fuel).1 <= fuel,
        pre_ssa_loop(p, fuel).1 <= fuel,
    decreases fuel,
{
    if fuel > 0 {
        let (stage1, changes) = crate::driver::post_ssa_round(p, ret, dim, passes);
        lemma_rounds_bounded(stage1, ret, dim, passes, (fuel - 1) as nat);
        let (q1, merged) = OptimizerPass::CompositeMerge.pre_ssa(p);
        lemma_rounds_bounded(q1, ret, dim, passes, (fuel - 1) as nat);
    }
}

/// The loops of passes of the driver run no more than 16 rounds for each
/// instruction that the program had when the loop began.
pub proof fn lemma_driver_terminates(
    p: ProgramView,
    ret: u32,
    dim: CubeDim,
    passes: Seq<OptimizerPass>,
)
    ensures
        post_ssa_loop(p, ret, dim, passes, ceiling(p)).1 <= 16 * p.instruction_count(),
        pre_ssa_loop(p, ceiling(p)).1 <= 16 * p.instruction_count(),
{
    lemma_rounds_bounded(p, ret, dim, passes, ceiling(p));
}

/// Two runs on the same scope, with the same size of a cube and in the same
/// mode, end in the same state: what `Optimizer::new` promises of its
/// result determines the result.
pub proof fn lemma_run_deterministic(
    scope: ScopeView,
    dim: CubeDim,
    mode: ExecutionMode,
    first: Result<OptimizerView, OptError>,
    second: Result<OptimizerView, OptError>,
)
    requires
        first == run(Optimizer::initial(dim, mode), scope),
        second == run(Optimizer::initial(dim, mode), scope),
    ensures
        first == second,
{
}

/// The removal of dead blocks removes neither the entry block nor the
/// return block.
pub proof fn lemma_dead_blocks_keep_entry_and_return(p: ProgramView, ret: u32)
    requires
        p.nodes.contains(p.root),
        p.nodes.contains(ret),
    ensures
        p.eliminate_dead_blocks(ret).nodes.contains(p.root),
        p.eliminate_dead_blocks(ret).nodes.contains(ret),
        p.eliminate_dead_blocks(ret).root == p.root,
        forall|b: u32| p.eliminate_dead_blocks(ret).nodes.contains(b) ==> p.nodes.contains(b),
{
    lemma_without_dead(p, ret, reachable_blocks(p), p.blocks.len());
}

/// Whether `t` has the graph and the parser's place of `s`, and no phi
/// node if `s` has none.
pub open spec fn same_shape(s: OptimizerView, t: OptimizerView) -> bool {
    &&& t.program.nodes == s.program.nodes
    &&& t.program.arcs == s.program.arcs
    &&& t.program.free == s.program.free
    &&& t.program.edges_added == s.program.edges_added
    &&& t.program.blocks.len() == s.program.blocks.len()
    &&& t.program.root == s.program.root
    &&& t.current_block == s.current_block
    &&& t.ret == s.ret
    &&& t.cube_dim == s.cube_dim
    &&& t.mode == s.mode
    &&& (s.program.no_phis() ==> t.program.no_phis())
}

/// Declaring locals changes the variables only.
pub proof fn lemma_declare_all_shape(s: OptimizerView, locals: Seq<crate::ir::Variable>)
    ensures
        same_shape(s, s.declare_all(locals)),
        s.declare_all(locals).program.blocks == s.program.blocks,
    decreases locals.len(),
{
    if locals.len() > 0 {
        lemma_declare_all_shape(s, locals.drop_last());
    }
}

/// A plain operation changes neither the graph nor the place of the
/// parser, and makes no phi node.
pub proof fn lemma_parse_plain_shape(s: OptimizerView, op: crate::instruction::InstructionView)
    requires
        match s.current_block {
            Some(b) => b < s.program.blocks.len(),
            None => true,
        },
    ensures
        match s.parse_plain(op) {
            Ok(t) => same_shape(s, t),
            Err(_) => true,
        },
{
    match s.parse_plain(op) {
        Ok(t) => {
            let mid = if op.kind == crate::instruction::OpKind::Slice {
                s.record_slice(op, s.current_block->0)->Ok_0
            } else {
                s
            };
            assert(mid.program.blocks == s.program.blocks);
            let b = s.current_block->0;
            assert(t.program.blocks.len() == s.program.blocks.len());
            if s.program.no_phis() {
                assert forall|n: int| 0 <= n < t.program.blocks.len() implies (
                #[trigger] t.program.blocks[n]).phi_nodes.len() == 0 by {
                    assert(s.program.blocks[n].phi_nodes.len() == 0);
                }
            }
        },
        Err(_) => {},
    }
}

/// Operations that are all plain change neither the graph nor the place of
/// the parser, and make no phi node.
pub proof fn lemma_plain_operations(
    s: OptimizerView,
    depth: u8,
    ops: Seq<OperationView>,
    next_local: nat,
)
    requires
        forall|i: int| 0 <= i < ops.len() ==> ops[i] is Plain,
        match s.current_block {
            Some(b) => b < s.program.blocks.len(),
            None => true,
        },
    ensures
        match parse_operations_spec(s, depth, ops, next_local) {
            Ok((t, _)) => same_shape(s, t),
            Err(_) => true,
        },
    decreases ops.len(),
{
    if ops.len() > 0 {
        assert forall|i: int| 0 <= i < ops.drop_last().len() implies ops.drop_last()[i] is Plain by {
            assert(ops.drop_last()[i] == ops[i]);
        }
        lemma_plain_operations(s, depth, ops.drop_last(), next_local);
        assert(ops.last() == ops[ops.len() - 1]);
        match parse_operations_spec(s, depth, ops.drop_last(), next_local) {
            Ok((s1, n1)) => {
                let op = ops.last()->Plain_0;
                assert(ops.last() == OperationView::Plain(op));
                lemma_parse_plain_shape(s1, op);
                assert(parse_operations_spec(s, depth, ops, next_local)
                    == crate::parse::parse_operation_spec(s1, depth, ops.last(), n1));
                match s1.parse_plain(op) {
                    Ok(t) => {
                        assert(crate::parse::parse_operation_spec(s1, depth, ops.last(), n1)
                            == Ok::<(OptimizerView, nat), OptError>((t, n1)));
                        assert(same_shape(s1, t));
                        assert(same_shape(s, t));
                    },
                    Err(e) => {
                        assert(crate::parse::parse_operation_spec(s1, depth, ops.last(), n1)
                            is Err);
                    },
                }
            },
            Err(_) => {},
        }
    }
}

/// A scope without control flow gives a graph of exactly two blocks, the
/// entry block and the return block, with one edge between them and
/// without phi nodes.
pub proof fn lemma_straight_line_graph(scope: ScopeView, dim: CubeDim, mode: ExecutionMode)
    requires
        scope.straight_line(),
    ensures
        match parse_graph_spec(Optimizer::initial(dim, mode), scope) {
            Ok(s) => {
                &&& s.program.nodes == set![0u32, 1u32]
                &&& s.program.root == 0
                &&& s.ret == 1
                &&& s.program.arcs == seq![(0u32, 1u32)]
                &&& s.program.blocks.len() == 2
                &&& s.program.no_phis()
                &&& s.cube_dim == dim
                &&& s.mode == mode
            },
            Err(_) => true,
        },
{
    reveal_with_fuel(nth_block, 3);
    let s = Optimizer::initial(dim, mode);
    match crate::parse::and_new_block(s.new_block()) {
        Ok(s1) => {
            let s2 = OptimizerView {
                program: ProgramView { root: 0, ..s1.program },
                current_block: Some(0u32),
                loop_break: Seq::empty(),
                ret: 1,
                ..s1
            }.terminate(1, crate::block::ControlFlowView::Return);
            assert(s2.program.nodes =~= set![0u32, 1u32]);
            assert(s2.program.no_phis());
            let s3 = s2.declare_all(scope.locals);
            lemma_declare_all_shape(s2, scope.locals);
            lemma_plain_operations(
                s3,
                scope.depth,
                scope.operations,
                crate::parse::first_temporary(scope),
            );
            match parse_scope_spec(s2, scope) {
                Ok(s4) => {
                    assert(same_shape(s3, s4));
                    match s4.connect_current(1) {
                        Ok(s5) => {
                            assert(s5.program.arcs =~= seq![(0u32, 1u32)]);
                        },
                        Err(_) => {},
                    }
                },
                Err(_) => {},
            }
        },
        Err(_) => {},
    }
}

/// Where no block has two predecessors, no phi node is placed.
pub proof fn lemma_place_all_nothing(p: ProgramView, vars: Seq<(VarKey, Item)>)
    requires
        forall|a: int| 0 <= a < p.blocks.len() ==> (#[trigger] p.blocks[a]).dom_frontiers
            == Set::<u32>::empty(),
    ensures
        p.place_all(vars) == p,
    decreases vars.len(),
{
    if vars.len() > 0 {
        lemma_place_all_nothing(p, vars.drop_last());
        let k = vars.last().0;
        let none = Set::<u32>::empty();
        assert(crate::closure::closed_under(
            crate::phi_frontiers::frontier_sets(p),
            crate::phi_frontiers::def_blocks(p, k),
            crate::phi_frontiers::live_at(p, k),
            none,
        ));
        assert forall|f: u32| !(#[trigger] phi_blocks(p, k).contains(f)) by {
            if phi_blocks(p, k).contains(f) {
                assert(none.contains(f));
            }
        }
        assert(p.place_for(k, vars.last().1).blocks =~= p.blocks);
    }
}

/// The transformation into static single-assignment form places no phi
/// node in a program in which no block has two predecessors; with a scope
/// without control flow, the graph has its two blocks and no phi node
/// after the transformation too.
pub proof fn lemma_no_join_no_phis(p: ProgramView)
    requires
        p.no_phis(),
        forall|b: u32| #[trigger] p.predecessors(b).len() < 2,
    ensures
        match p.ssa_transform() {
            Ok(q) => q.no_phis() && p.same_graph(q),
            Err(_) => true,
        },
{
    let stage1 = p.with_frontiers();
    assert forall|a: int| 0 <= a < stage1.blocks.len() implies (#[trigger] stage1.blocks[a]).dom_frontiers
        == Set::<u32>::empty() by {
        assert forall|b: u32| !(#[trigger] frontier(p, a as u32).contains(b)) by {
            assert(p.predecessors(b).len() < 2);
        }
        assert(frontier(p, a as u32) =~= Set::<u32>::empty());
    }
    lemma_place_all_nothing(stage1, stage1.variables);
    lemma_version_tree_keys(
        stage1.blocks,
        stage1.arcs,
        crate::phi_frontiers::idoms_of(stage1),
        stage1.variables,
        Renaming { counters: Seq::empty(), current: Seq::empty() },
        stage1.root,
        stage1.blocks.len(),
    );
    match stage1.version_program() {
        Ok(stage3) => {
            assert(blocks_same_keys(stage1.blocks, stage3.blocks));
            assert forall|b: int| 0 <= b < stage3.blocks.len() implies (
            #[trigger] stage3.blocks[b]).phi_nodes.len() == 0 by {
                assert(p.blocks[b].phi_nodes.len() == 0);
                assert(crate::phi_laws::same_keys(stage1.blocks[b].phi_nodes, stage3.blocks[b].phi_nodes));
            }
        },
        Err(_) => {},
    }
}

/// Whether the program is as plain as a program without control flow: its
/// blocks are the entry block and the return block, no block has a phi
/// node, and no block has two predecessors.
#[verifier::opaque]
pub open spec fn plain(p: ProgramView, root: u32, ret: u32) -> bool {
    &&& p.root == root
    &&& p.nodes == set![root, ret]
    &&& p.no_phis()
    &&& forall|b: u32| #[trigger] p.predecessors(b).len() < 2
}

/// A program with the same phi nodes, blocks, edges and entry stays plain.
pub proof fn lemma_same_phis_plain(p: ProgramView, q: ProgramView, root: u32, ret: u32)
    requires
        plain(p, root, ret),
        same_phis(p, q),
        q.root == p.root,
    ensures
        plain(q, root, ret),
{
    reveal(plain);
    assert forall|b: int| 0 <= b < q.blocks.len() implies (#[trigger] q.blocks[b]).phi_nodes.len()
        == 0 by {
        assert(p.blocks[b].phi_nodes.len() == 0);
    }
    assert forall|b: u32| #[trigger] q.predecessors(b).len() < 2 by {
        assert(p.predecessors(b).len() < 2);
    }
}

/// Deciding the constant branches of the blocks below `m` keeps a program
/// plain.
pub proof fn lemma_decide_upto_plain(p: ProgramView, root: u32, ret: u32, m: nat)
    requires
        plain(p, root, ret),
    ensures
        plain(p.decide_upto(m), root, ret),
    decreases m,
{
    reveal(plain);
    if m > 0 {
        lemma_decide_upto_plain(p, root, ret, (m - 1) as nat);
        let before = p.decide_upto((m - 1) as nat);
        let h = (m - 1) as u32;
        let after = before.decide_branch(h);
        if before.has_const_branch(h) {
            let set = before.set_control_flow(h, crate::block::ControlFlowView::Fallthrough);
            match crate::const_branches::decided(before.blocks[h as int].control_flow) {
                Some((_, dropped)) => {
                    let i = crate::graph::newest_arc(set.arcs, h, dropped);
                    assert forall|b: int| 0 <= b < after.blocks.len() implies (
                    #[trigger] after.blocks[b]).phi_nodes.len() == 0 by {
                        assert(before.blocks[b].phi_nodes.len() == 0);
                    }
                    assert forall|b: u32| #[trigger] after.predecessors(b).len() < 2 by {
                        assert(before.predecessors(b).len() < 2);
                        if 0 <= i < set.arcs.len() && dropped < set.blocks.len() {
                            lemma_predecessors_remove(set.arcs, h, dropped, b);
                            lemma_first_index(set.predecessors(dropped), h);
                        }
                    }
                },
                None => {},
            }
        }
    }
}

/// A plain program has no dead block.
pub proof fn lemma_without_dead_plain(p: ProgramView, root: u32, ret: u32, m: nat)
    requires
        plain(p, root, ret),
    ensures
        p.without_dead_upto(ret, reachable_blocks(p), m) == p,
    decreases m,
{
    reveal(plain);
    if m > 0 {
        lemma_without_dead_plain(p, root, ret, (m - 1) as nat);
    }
}

/// Every pass keeps a plain program plain.
pub proof fn lemma_pass_plain(
    pass: OptimizerPass,
    p: ProgramView,
    root: u32,
    ret: u32,
    dim: CubeDim,
)
    requires
        plain(p, root, ret),
    ensures
        plain(pass.post_ssa(p, ret, dim).0, root, ret),
        plain(pass.pre_ssa(p).0, root, ret),
{
    lemma_same_phis_plain(p, pass.pre_ssa(p).0, root, ret);
    match pass {
        OptimizerPass::CompositeMerge => {},
        OptimizerPass::InlineAssignments => {
            let stage1 = p.demote_phis();
            reveal(plain);
            assert forall|b: int| 0 <= b < stage1.blocks.len() implies (
            #[trigger] stage1.blocks[b]).phi_nodes.len() == 0 by {
                assert(p.blocks[b].phi_nodes.len() == 0);
                assert(p.blocks[b].phi_nodes =~= Seq::empty());
            }
            assert forall|b: u32| #[trigger] stage1.predecessors(b).len() < 2 by {
                assert(p.predecessors(b).len() < 2);
            }
            lemma_same_phis_plain(stage1, stage1.substitute_copies(), root, ret);
            lemma_same_phis_plain(
                stage1.substitute_copies(),
                stage1.substitute_copies().eliminate_unused(true),
                root,
                ret,
            );
        },
        OptimizerPass::EliminateUnusedVariables => {
            lemma_same_phis_plain(p, p.eliminate_unused(false), root, ret);
        },
        OptimizerPass::ConstOperandSimplify => {
            lemma_same_phis_plain(p, p.rewrite(Rule::ConstOperandSimplify, dim), root, ret);
        },
        OptimizerPass::MergeSameExpressions => {
            lemma_same_phis_plain(p, p.rewrite(Rule::MergeSameExpressions, dim), root, ret);
        },
        OptimizerPass::ConstEval => {
            lemma_same_phis_plain(p, p.rewrite(Rule::ConstEval, dim), root, ret);
        },
        OptimizerPass::RemoveIndexScalar => {
            lemma_same_phis_plain(p, p.rewrite(Rule::RemoveIndexScalar, dim), root, ret);
        },
        OptimizerPass::EliminateConstBranches => {
            lemma_decide_upto_plain(p, root, ret, p.blocks.len());
        },
        OptimizerPass::EliminateDeadBlocks => {
            lemma_without_dead_plain(p, root, ret, p.blocks.len());
        },
        OptimizerPass::CopyTransform => {
            lemma_same_phis_plain(p, p.rewrite(Rule::CopyTransform, dim), root, ret);
        },
        OptimizerPass::IntegerRangeAnalysis => {
            lemma_same_phis_plain(p, p.analyze_ranges(dim), root, ret);
        },
        OptimizerPass::FindConstSliceLen => {
            lemma_same_phis_plain(p, p.find_const_slice_len(), root, ret);
        },
        OptimizerPass::InBoundsToUnchecked => {
            lemma_same_phis_plain(p, p.rewrite(Rule::InBoundsToUnchecked, dim), root, ret);
        },
        OptimizerPass::CopyPropagateArray => {
            lemma_same_phis_plain(p, p.copy_propagate_array(), root, ret);
        },
    }
}

/// A round of passes, and the loops of passes, keep a plain program plain.
pub proof fn lemma_loops_plain(
    p: ProgramView,
    root: u32,
    ret: u32,
    dim: CubeDim,
    passes: Seq<OptimizerPass>,
    fuel: nat,
)
    requires
        plain(p, root, ret),
    ensures
        plain(post_ssa_round(p, ret, dim, passes).0, root, ret),
        plain(post_ssa_loop(p, ret, dim, passes, fuel).0, root, ret),
        plain(pre_ssa_loop(p, fuel).0, root, ret),
    decreases fuel, passes.len(),
{
    if passes.len() > 0 {
        lemma_loops_plain(p, root, ret, dim, passes.drop_last(), fuel);
        lemma_pass_plain(
            passes.last(),
            post_ssa_round(p, ret, dim, passes.drop_last()).0,
            root,
            ret,
            dim,
        );
    }
    if fuel > 0 {
        lemma_loops_plain(
            post_ssa_round(p, ret, dim, passes).0,
            root,
            ret,
            dim,
            passes,
            (fuel - 1) as nat,
        );
        lemma_pass_plain(OptimizerPass::CompositeMerge, p, root, ret, dim);
        lemma_loops_plain(
            OptimizerPass::CompositeMerge.pre_ssa(p).0,
            root,
            ret,
            dim,
            passes,
            (fuel - 1) as nat,
        );
    }
}

/// The transformation into static single-assignment form keeps a plain
/// program plain.
pub proof fn lemma_ssa_plain(p: ProgramView, root: u32, ret: u32)
    requires
        plain(p, root, ret),
    ensures
        match p.ssa_transform() {
            Ok(q) => plain(q, root, ret),
            Err(_) => true,
        },
{
    reveal(plain);
    lemma_no_join_no_phis(p);
    match p.ssa_transform() {
        Ok(q) => {
            assert forall|b: u32| #[trigger] q.predecessors(b).len() < 2 by {
                assert(p.predecessors(b).len() < 2);
            }
        },
        Err(_) => {},
    }
}

/// The liveness analysis keeps a plain program plain.
pub proof fn lemma_liveness_plain(p: ProgramView, root: u32, ret: u32)
    requires
        plain(p, root, ret),
    ensures
        plain(p.with_liveness(), root, ret),
        p.with_liveness().root == p.root,
{
    lemma_same_phis_plain(p, p.with_liveness(), root, ret);
}

/// What precedes the transformation into static single-assignment form
/// keeps a plain program plain.
pub proof fn lemma_prepared_plain(
    p: ProgramView,
    root: u32,
    ret: u32,
    dim: CubeDim,
    mode: ExecutionMode,
)
    requires
        plain(p, root, ret),
    ensures
        plain(pre_ssa_loop(p, ceiling(p)).0.exempt_index_assign_locals(), root, ret),
{
    lemma_loops_plain(p, root, ret, dim, post_ssa_passes(mode), ceiling(p));
    let stage2 = pre_ssa_loop(p, ceiling(p)).0;
    lemma_same_phis_plain(stage2, stage2.exempt_index_assign_locals(), root, ret);
}

/// What follows the first loop of passes keeps a plain program plain.
pub proof fn lemma_finished_plain(
    stage4: ProgramView,
    root: u32,
    ret: u32,
    dim: CubeDim,
    mode: ExecutionMode,
)
    requires
        plain(stage4, root, ret),
    ensures
        ({
            let stage5 = OptimizerPass::CopyPropagateArray.post_ssa(stage4, ret, dim).0;
            &&& plain(stage5, root, ret)
            &&& match stage5.with_liveness().ssa_transform() {
                Ok(stage6) => plain(
                    post_ssa_loop(stage6, ret, dim, post_ssa_passes(mode), ceiling(stage6)).0,
                    root,
                    ret,
                ),
                Err(_) => true,
            }
        }),
{
    lemma_pass_plain(OptimizerPass::CopyPropagateArray, stage4, root, ret, dim);
    let stage5 = OptimizerPass::CopyPropagateArray.post_ssa(stage4, ret, dim).0;
    lemma_liveness_plain(stage5, root, ret);
    lemma_ssa_plain(stage5.with_liveness(), root, ret);
    match stage5.with_liveness().ssa_transform() {
        Ok(stage6) => {
            lemma_loops_plain(stage6, root, ret, dim, post_ssa_passes(mode), ceiling(stage6));
        },
        Err(_) => {},
    }
}

/// The whole optimization keeps a plain program plain.
pub proof fn lemma_optimize_plain(
    p: ProgramView,
    root: u32,
    ret: u32,
    dim: CubeDim,
    mode: ExecutionMode,
)
    requires
        plain(p, root, ret),
    ensures
        match optimize(p, ret, dim, mode) {
            Ok(q) => plain(q, root, ret),
            Err(_) => true,
        },
{
    let stage1 = p.with_liveness();
    lemma_liveness_plain(p, root, ret);
    lemma_prepared_plain(stage1, root, ret, dim, mode);
    let p2x = pre_ssa_loop(stage1, ceiling(stage1)).0.exempt_index_assign_locals();
    lemma_ssa_plain(p2x, root, ret);
    match p2x.ssa_transform() {
        Ok(stage3) => {
            lemma_loops_plain(stage3, root, ret, dim, post_ssa_passes(mode), ceiling(stage3));
            let stage4 = post_ssa_loop(stage3, ret, dim, post_ssa_passes(mode), ceiling(stage3)).0;
            lemma_finished_plain(stage4, root, ret, dim, mode);
        },
        Err(_) => {},
    }
}

/// For a scope without control flow, the optimizer hands out a graph of
/// exactly two blocks, the entry block and the return block, without phi
/// nodes.
pub proof fn lemma_straight_line_stays_plain(scope: ScopeView, dim: CubeDim, mode: ExecutionMode)
    requires
        scope.straight_line(),
    ensures
        match run(Optimizer::initial(dim, mode), scope) {
            Ok(s) => s.program.nodes == set![0u32, 1u32] && s.program.root == 0 && s.ret == 1
                && s.program.no_phis(),
            Err(_) => true,
        },
{
    lemma_straight_line_graph(scope, dim, mode);
    match parse_graph_spec(Optimizer::initial(dim, mode), scope) {
        Ok(s) => {
            let p = s.program;
            let root = p.root;
            let ret = s.ret;
            assert(plain(p, root, ret)) by {
                reveal(plain);
                assert(p.nodes =~= set![root, ret]);
                assert forall|b: u32| #[trigger] p.predecessors(b).len() < 2 by {
                    reveal_with_fuel(predecessors_of, 3);
                    assert(p.arcs.drop_last() =~= Seq::<(u32, u32)>::empty());
                }
            }
            lemma_optimize_plain(p, root, ret, dim, mode);
            match optimize(p, ret, dim, mode) {
                Ok(q) => {
                    reveal(plain);
                    assert(q.nodes =~= set![0u32, 1u32]);
                },
                Err(_) => {},
            }
        },
        Err(_) => {},
    }
}

} // verus!
