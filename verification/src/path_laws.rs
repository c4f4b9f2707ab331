//! Where the blocks of a parsed scope lie: on a way from the entry block to
//! the return block, for scopes whose control runs through.

use crate::block::ControlFlowView;
use crate::error::OptError;
use crate::graph::{is_path, reachable};
use crate::instruction::InstructionView;
use crate::ir::{ConstantValue, Elem, Position, Variable};
use crate::laws::lemma_declare_all_shape;
use crate::optimizer::{Optimizer, OptimizerView};
use crate::parse::{
    first_temporary, nth_block, parse_branch_spec, parse_cases_spec, parse_graph_spec,
    parse_operation_spec, parse_operations_spec, parse_scope_spec,
};
use crate::procedure::{expand_spec, lemma_expansion_weight, offset_body, offset_ops};
use crate::program::{CubeDim, ExecutionMode};
use crate::scope::{
    cases_weight, operations_weight, BranchView, OperationView, Procedure, ScopeView,
};
use vstd::prelude::*;

verus! {

/// Whether control runs through each of the operations: none of them is a
/// `loop`, a `break` or a `return`, at any depth, but for a `return` that
/// ends the body of an `if` without `else`.
pub open spec fn ops_pass(ops: Seq<OperationView>) -> bool
    decreases operations_weight(ops),
{
    ops.len() == 0 || (ops_pass(ops.drop_last()) && op_passes(ops.last()))
}

/// Whether control runs through the operation.
pub open spec fn op_passes(op: OperationView) -> bool
    decreases op.weight(),
{
    match op {
        OperationView::Plain(_) => true,
        OperationView::Procedure(_) => true,
        OperationView::Branch(b) => branch_passes(b),
    }
}

/// Whether control runs through the branch.
pub open spec fn branch_passes(b: BranchView) -> bool
    decreases b.weight(),
{
    match b {
        BranchView::If { scope, .. } => scope_passes(scope) || scope_returns(scope),
        BranchView::IfElse { scope_if, scope_else, .. } => scope_passes(scope_if) && scope_passes(
            scope_else,
        ),
        BranchView::Select { .. } => true,
        BranchView::Switch { scope_default, cases, .. } => scope_passes(scope_default)
            && cases_pass(cases),
        BranchView::RangeLoop { scope, .. } => scope_passes(scope),
        BranchView::Loop { .. } => false,
        BranchView::Return => false,
        BranchView::Break => false,
    }
}

/// Whether control runs through the scope.
pub open spec fn scope_passes(scope: ScopeView) -> bool
    decreases scope.weight(),
{
    ops_pass(scope.operations)
}

/// Whether control runs through the scope up to its last operation, which
/// is a `return`.
pub open spec fn scope_returns(scope: ScopeView) -> bool
    decreases scope.weight(),
{
    &&& scope.operations.len() > 0
    &&& scope.operations.last() == OperationView::Branch(BranchView::Return)
    &&& ops_pass(scope.operations.drop_last())
}

/// Whether control runs through the body of each case.
pub open spec fn cases_pass(cases: Seq<(u32, ScopeView)>) -> bool
    decreases cases_weight(cases),
{
    cases.len() == 0 || (cases_pass(cases.drop_last()) && scope_passes(cases.last().1))
}

/// Whether a path leads from `a` to `b`.
#[verifier::opaque]
pub open spec fn leads(arcs: Seq<(u32, u32)>, a: u32, b: u32) -> bool {
    reachable(arcs, a, b)
}

/// Every node can be reached from itself.
pub proof fn lemma_reach_itself(arcs: Seq<(u32, u32)>, a: u32)
    ensures
        leads(arcs, a, a),
{
    reveal(leads);
    assert(is_path(arcs, seq![a], a, a));
}

/// An arc behind a path makes a path.
pub proof fn lemma_reach_step(arcs: Seq<(u32, u32)>, a: u32, b: u32, c: u32)
    requires
        leads(arcs, a, b),
        arcs.contains((b, c)),
    ensures
        leads(arcs, a, c),
{
    reveal(leads);
    let path = choose|path: Seq<u32>| is_path(arcs, path, a, b);
    let longer = path.push(c);
    assert forall|i: int| 0 <= i < longer.len() - 1 implies arcs.contains(
        (#[trigger] longer[i], longer[i + 1]),
    ) by {
        if i < path.len() - 1 {
            assert(arcs.contains((path[i], path[i + 1])));
        }
    }
    assert(is_path(arcs, longer, a, c));
}

/// A path behind a path makes a path.
pub proof fn lemma_reach_along(arcs: Seq<(u32, u32)>, a: u32, b: u32, path: Seq<u32>, c: u32)
    requires
        leads(arcs, a, b),
        is_path(arcs, path, b, c),
    ensures
        leads(arcs, a, c),
    decreases path.len(),
{
    reveal(leads);
    if path.len() > 1 {
        let shorter = path.drop_last();
        let before = shorter.last();
        assert forall|i: int| 0 <= i < shorter.len() - 1 implies arcs.contains(
            (#[trigger] shorter[i], shorter[i + 1]),
        ) by {
            assert(arcs.contains((path[i], path[i + 1])));
        }
        assert(is_path(arcs, shorter, b, before));
        lemma_reach_along(arcs, a, b, shorter, before);
        assert(arcs.contains((path[path.len() - 2], path[path.len() - 2 + 1])));
        lemma_reach_step(arcs, a, before, c);
    }
}

/// Where `b` can be reached from `a` and `c` from `b`, `c` can be reached
/// from `a`.
pub proof fn lemma_reach_on(arcs: Seq<(u32, u32)>, a: u32, b: u32, c: u32)
    requires
        leads(arcs, a, b),
        leads(arcs, b, c),
    ensures
        leads(arcs, a, c),
{
    reveal(leads);
    let second = choose|path: Seq<u32>| is_path(arcs, path, b, c);
    lemma_reach_along(arcs, a, b, second, c);
}

/// Whether `more` has every arc of `arcs`.
#[verifier::opaque]
pub open spec fn has_arcs(arcs: Seq<(u32, u32)>, more: Seq<(u32, u32)>) -> bool {
    forall|arc: (u32, u32)| #[trigger] arcs.contains(arc) ==> more.contains(arc)
}

/// A path stays a path when arcs are added.
pub proof fn lemma_reach_more(arcs: Seq<(u32, u32)>, more: Seq<(u32, u32)>, a: u32, b: u32)
    requires
        leads(arcs, a, b),
        has_arcs(arcs, more),
    ensures
        leads(more, a, b),
{
    reveal(has_arcs);
    reveal(leads);
    let path = choose|path: Seq<u32>| is_path(arcs, path, a, b);
    assert forall|i: int| 0 <= i < path.len() - 1 implies more.contains(
        (#[trigger] path[i], path[i + 1]),
    ) by {
        assert(arcs.contains((path[i], path[i + 1])));
    }
    assert(is_path(more, path, a, b));
}

/// A sequence of arcs with one more has the arcs that it had, and the new
/// one.
pub proof fn lemma_pushed_arc(arcs: Seq<(u32, u32)>, a: u32, b: u32)
    ensures
        has_arcs(arcs, arcs.push((a, b))),
        arcs.push((a, b)).contains((a, b)),
{
    reveal(has_arcs);
    let more = arcs.push((a, b));
    assert(more[arcs.len() as int] == (a, b));
    assert forall|arc: (u32, u32)| #[trigger] arcs.contains(arc) implies more.contains(arc) by {
        let i = choose|i: int| 0 <= i < arcs.len() && arcs[i] == arc;
        assert(more[i] == arc);
    }
}

/// What has the arcs of a sequence that has the arcs of `arcs` has the arcs
/// of `arcs`.
pub proof fn lemma_has_arcs_on(arcs: Seq<(u32, u32)>, more: Seq<(u32, u32)>, most: Seq<(u32, u32)>)
    requires
        has_arcs(arcs, more),
        has_arcs(more, most),
    ensures
        has_arcs(arcs, most),
{
    reveal(has_arcs);
}

/// Each sequence of arcs has its own arcs.
pub proof fn lemma_has_own_arcs(arcs: Seq<(u32, u32)>)
    ensures
        has_arcs(arcs, arcs),
{
    reveal(has_arcs);
}

/// Where control leaves the state: the block in which the parser stands,
/// or the return block when it stands in none.
pub open spec fn way_out(s: OptimizerView) -> u32 {
    match s.current_block {
        Some(c) => c,
        None => s.ret,
    }
}

/// Whether `n` lies on a way that begins in `from` and leads to `out` or to
/// `ret`.
pub open spec fn on_way(arcs: Seq<(u32, u32)>, from: u32, n: u32, out: u32, ret: u32) -> bool {
    leads(arcs, from, n) && (leads(arcs, n, out) || leads(arcs, n, ret))
}

/// Whether `t` has the entry block, the return block, the blocks and the
/// arcs of `s`.
pub open spec fn grows(s: OptimizerView, t: OptimizerView) -> bool {
    &&& t.ret == s.ret
    &&& t.program.root == s.program.root
    &&& has_arcs(s.program.arcs, t.program.arcs)
    &&& forall|n: u32| #[trigger] s.program.nodes.contains(n) ==> t.program.nodes.contains(n)
}

/// Whether each block that `t` has and `s` has not lies, over `arcs`, on a
/// way from `from` to `out` or to `ret`.
pub open spec fn fresh_on_way(
    s: OptimizerView,
    t: OptimizerView,
    arcs: Seq<(u32, u32)>,
    from: u32,
    out: u32,
    ret: u32,
) -> bool {
    forall|n: u32| #[trigger]
        t.program.nodes.contains(n) && !s.program.nodes.contains(n) ==> on_way(
            arcs,
            from,
            n,
            out,
            ret,
        )
}

/// Whether `t` grew from `s` so that `out` can be reached from `from`, and
/// each new block lies on a way from `from` to `out` or to the return block.
pub open spec fn spans(s: OptimizerView, t: OptimizerView, from: u32, out: u32) -> bool {
    &&& grows(s, t)
    &&& leads(t.program.arcs, from, out)
    &&& fresh_on_way(s, t, t.program.arcs, from, out, t.ret)
}

/// Blocks that lie on a way from `inner` to `inner_out` lie on a way from
/// `from` to `out`, where `inner` can be reached from `from` and `out` from
/// `inner_out`, over arcs that may be more.
pub proof fn lemma_body_on_way(
    s: OptimizerView,
    t: OptimizerView,
    arcs: Seq<(u32, u32)>,
    inner: u32,
    inner_out: u32,
    from: u32,
    out: u32,
    ret: u32,
)
    requires
        fresh_on_way(s, t, t.program.arcs, inner, inner_out, ret),
        has_arcs(t.program.arcs, arcs),
        leads(arcs, from, inner),
        leads(arcs, inner_out, out) || inner_out == ret,
    ensures
        fresh_on_way(s, t, arcs, from, out, ret),
{
    assert forall|n: u32| #[trigger]
        t.program.nodes.contains(n) && !s.program.nodes.contains(n) implies on_way(
        arcs,
        from,
        n,
        out,
        ret,
    ) by {
        assert(on_way(t.program.arcs, inner, n, inner_out, ret));
        lemma_reach_more(t.program.arcs, arcs, inner, n);
        lemma_reach_on(arcs, from, inner, n);
        if leads(t.program.arcs, n, inner_out) {
            lemma_reach_more(t.program.arcs, arcs, n, inner_out);
            if inner_out != ret {
                lemma_reach_on(arcs, n, inner_out, out);
            }
        } else {
            lemma_reach_more(t.program.arcs, arcs, n, ret);
        }
    }
}

/// What spans from `from` to `mid`, and then from `mid` on, spans from
/// `from`.
pub proof fn lemma_spans_on(
    s: OptimizerView,
    t: OptimizerView,
    u: OptimizerView,
    from: u32,
    mid: u32,
    out: u32,
)
    requires
        spans(s, t, from, mid),
        spans(t, u, mid, out),
    ensures
        spans(s, u, from, out),
{
    let arcs = u.program.arcs;
    lemma_has_arcs_on(s.program.arcs, t.program.arcs, arcs);
    lemma_has_own_arcs(arcs);
    lemma_reach_more(t.program.arcs, arcs, from, mid);
    lemma_reach_on(arcs, from, mid, out);
    lemma_reach_itself(arcs, from);
    lemma_reach_itself(arcs, out);
    lemma_body_on_way(s, t, arcs, from, mid, from, out, u.ret);
    lemma_body_on_way(t, u, arcs, mid, out, from, out, u.ret);
}

/// A state spans itself, from the block in which the parser stands.
pub proof fn lemma_spans_itself(s: OptimizerView, from: u32)
    ensures
        spans(s, s, from, from),
{
    lemma_has_own_arcs(s.program.arcs);
    lemma_reach_itself(s.program.arcs, from);
}

/// Whether each block has its place, no place is vacant, and the parser
/// stands in a block or in none.
pub open spec fn tidy(s: OptimizerView) -> bool {
    &&& s.program.free.len() == 0
    &&& forall|n: u32| #[trigger] s.program.nodes.contains(n) ==> n < s.program.blocks.len()
    &&& match s.current_block {
        Some(c) => s.program.nodes.contains(c),
        None => true,
    }
}

/// Whether `t` is `s` with the arcs `added` behind its own, the blocks
/// `blocks` among its own, and the parser in `current`.
pub open spec fn opened(
    s: OptimizerView,
    t: OptimizerView,
    added: Seq<(u32, u32)>,
    blocks: Set<u32>,
    current: Option<u32>,
) -> bool {
    &&& t.ret == s.ret
    &&& t.program.root == s.program.root
    &&& t.program.arcs == s.program.arcs + added
    &&& t.program.nodes == s.program.nodes.union(blocks)
    &&& t.current_block == current
    &&& tidy(t)
}

/// What was opened has grown, and has each arc that was added.
pub proof fn lemma_opened_grows(
    s: OptimizerView,
    t: OptimizerView,
    added: Seq<(u32, u32)>,
    blocks: Set<u32>,
    current: Option<u32>,
)
    requires
        opened(s, t, added, blocks, current),
    ensures
        grows(s, t),
        forall|i: int| 0 <= i < added.len() ==> t.program.arcs.contains(#[trigger] added[i]),
        forall|n: u32| #[trigger]
            t.program.nodes.contains(n) ==> s.program.nodes.contains(n) || blocks.contains(n),
{
    reveal(has_arcs);
    let arcs = s.program.arcs;
    assert forall|arc: (u32, u32)| #[trigger] arcs.contains(arc) implies t.program.arcs.contains(
        arc,
    ) by {
        let i = choose|i: int| 0 <= i < arcs.len() && arcs[i] == arc;
        assert(t.program.arcs[i] == arc);
    }
    assert forall|i: int| 0 <= i < added.len() implies t.program.arcs.contains(
        #[trigger] added[i],
    ) by {
        assert(t.program.arcs[arcs.len() + i] == added[i]);
    }
}

/// A plain operation changes neither blocks nor arcs, nor the place of the
/// parser.
pub proof fn lemma_plain_opens_nothing(s: OptimizerView, op: InstructionView)
    requires
        tidy(s),
    ensures
        match s.parse_plain(op) {
            Ok(t) => opened(s, t, Seq::empty(), Set::empty(), s.current_block)
                && s.current_block is Some,
            Err(_) => true,
        },
{
    match s.parse_plain(op) {
        Ok(t) => {
            assert(t.program.arcs =~= s.program.arcs + Seq::empty());
            assert(t.program.nodes =~= s.program.nodes.union(Set::empty()));
        },
        Err(_) => {},
    }
}

/// What `open_if` adds.
pub proof fn lemma_open_if(s: OptimizerView, cond: Variable)
    requires
        tidy(s),
    ensures
        match (s.open_if(cond), s.current_block) {
            (Ok(t), Some(c)) => opened(
                s,
                t,
                seq![(c, nth_block(s, 0)), (c, nth_block(s, 1))],
                set![nth_block(s, 0), nth_block(s, 1)],
                Some(nth_block(s, 0)),
            ),
            (Ok(_), None) => false,
            (Err(_), _) => true,
        },
{
    reveal_with_fuel(nth_block, 3);
    match (s.open_if(cond), s.current_block) {
        (Ok(t), Some(c)) => {
            assert(t.program.arcs =~= s.program.arcs + seq![
                (c, nth_block(s, 0)),
                (c, nth_block(s, 1)),
            ]);
            assert(t.program.nodes =~= s.program.nodes.union(
                set![nth_block(s, 0), nth_block(s, 1)],
            ));
        },
        _ => {},
    }
}

/// What `open_if_else` adds.
pub proof fn lemma_open_if_else(s: OptimizerView, cond: Variable)
    requires
        tidy(s),
    ensures
        match (s.open_if_else(cond), s.current_block) {
            (Ok(t), Some(c)) => opened(
                s,
                t,
                seq![(c, nth_block(s, 0)), (c, nth_block(s, 1))],
                set![nth_block(s, 0), nth_block(s, 1), nth_block(s, 2)],
                Some(nth_block(s, 0)),
            ),
            (Ok(_), None) => false,
            (Err(_), _) => true,
        },
{
    reveal_with_fuel(nth_block, 4);
    match (s.open_if_else(cond), s.current_block) {
        (Ok(t), Some(c)) => {
            assert(t.program.arcs =~= s.program.arcs + seq![
                (c, nth_block(s, 0)),
                (c, nth_block(s, 1)),
            ]);
            assert(t.program.nodes =~= s.program.nodes.union(
                set![nth_block(s, 0), nth_block(s, 1), nth_block(s, 2)],
            ));
        },
        _ => {},
    }
}

/// What `open_switch` adds.
pub proof fn lemma_open_switch(s: OptimizerView)
    requires
        tidy(s),
    ensures
        match (s.open_switch(), s.current_block) {
            (Ok(t), Some(c)) => opened(
                s,
                t,
                seq![(c, nth_block(s, 0))],
                set![nth_block(s, 0), nth_block(s, 1)],
                Some(nth_block(s, 0)),
            ),
            (Ok(_), None) => false,
            (Err(_), _) => true,
        },
{
    reveal_with_fuel(nth_block, 3);
    match (s.open_switch(), s.current_block) {
        (Ok(t), Some(c)) => {
            assert(t.program.arcs =~= s.program.arcs + seq![(c, nth_block(s, 0))]);
            assert(t.program.nodes =~= s.program.nodes.union(
                set![nth_block(s, 0), nth_block(s, 1)],
            ));
        },
        _ => {},
    }
}

/// What `open_case` adds.
pub proof fn lemma_open_case(s: OptimizerView, cur: u32)
    requires
        tidy(s),
        s.program.nodes.contains(cur),
    ensures
        match s.open_case(cur) {
            Ok(t) => opened(
                s,
                t,
                seq![(cur, s.next_block())],
                set![s.next_block()],
                Some(s.next_block()),
            ),
            Err(_) => true,
        },
{
    match s.open_case(cur) {
        Ok(t) => {
            assert(t.program.arcs =~= s.program.arcs + seq![(cur, s.next_block())]);
            assert(t.program.nodes =~= s.program.nodes.union(set![s.next_block()]));
        },
        _ => {},
    }
}

/// What `connect_current` adds.
pub proof fn lemma_connect_current(s: OptimizerView, b: u32)
    requires
        tidy(s),
    ensures
        match (s.connect_current(b), s.current_block) {
            (Ok(t), Some(c)) => opened(s, t, seq![(c, b)], Set::empty(), Some(c)),
            (Ok(t), None) => t == s,
            (Err(_), _) => true,
        },
{
    match (s.connect_current(b), s.current_block) {
        (Ok(t), Some(c)) => {
            assert(t.program.arcs =~= s.program.arcs + seq![(c, b)]);
            assert(t.program.nodes =~= s.program.nodes.union(Set::empty()));
        },
        _ => {},
    }
}

/// What `open_range_loop` adds.
pub proof fn lemma_open_range_loop(
    s: OptimizerView,
    depth: u8,
    next_local: nat,
    i: Variable,
    start: Variable,
    end: Variable,
    inclusive: bool,
)
    requires
        tidy(s),
    ensures
        match (s.open_range_loop(depth, next_local, i, start, end, inclusive), s.current_block) {
            (Ok(t), Some(c)) => opened(
                s,
                t,
                seq![
                    (c, nth_block(s, 0)),
                    (nth_block(s, 0), nth_block(s, 1)),
                    (nth_block(s, 0), nth_block(s, 3)),
                ],
                set![nth_block(s, 0), nth_block(s, 1), nth_block(s, 2), nth_block(s, 3)],
                Some(nth_block(s, 1)),
            ),
            (Ok(_), None) => false,
            (Err(_), _) => true,
        },
{
    reveal_with_fuel(nth_block, 5);
    match (s.open_range_loop(depth, next_local, i, start, end, inclusive), s.current_block) {
        (Ok(t), Some(c)) => {
            let head = nth_block(s, 0);
            assert(t.program.arcs =~= s.program.arcs + seq![
                (c, head),
                (head, nth_block(s, 1)),
                (head, nth_block(s, 3)),
            ]);
            assert(t.program.nodes =~= s.program.nodes.union(
                set![head, nth_block(s, 1), nth_block(s, 2), nth_block(s, 3)],
            ));
        },
        _ => {},
    }
}

/// What `close_range_loop` adds.
pub proof fn lemma_close_range_loop(
    s: OptimizerView,
    i: Variable,
    step: Variable,
    head: u32,
    continue_target: u32,
    merge: u32,
)
    requires
        tidy(s),
        s.program.nodes.contains(continue_target),
        s.program.nodes.contains(merge),
    ensures
        match (s.close_range_loop(i, step, head, continue_target, merge), s.current_block) {
            (Ok(t), Some(c)) => opened(
                s,
                t,
                seq![(c, continue_target), (continue_target, head)],
                Set::empty(),
                Some(merge),
            ),
            (Ok(t), None) => opened(
                s,
                t,
                seq![(continue_target, head)],
                Set::empty(),
                Some(merge),
            ),
            (Err(_), _) => true,
        },
{
    match (s.close_range_loop(i, step, head, continue_target, merge), s.current_block) {
        (Ok(t), Some(c)) => {
            assert(t.program.arcs =~= s.program.arcs + seq![
                (c, continue_target),
                (continue_target, head),
            ]);
            assert(t.program.nodes =~= s.program.nodes.union(Set::empty()));
        },
        (Ok(t), None) => {
            assert(t.program.arcs =~= s.program.arcs + seq![(continue_target, head)]);
            assert(t.program.nodes =~= s.program.nodes.union(Set::empty()));
        },
        _ => {},
    }
}

/// What `close_branch` adds.
pub proof fn lemma_close_branch(s: OptimizerView, merge: u32, next: u32)
    requires
        tidy(s),
        s.program.nodes.contains(next),
    ensures
        match (s.close_branch(merge, next), s.current_block) {
            (Ok(t), Some(c)) => opened(s, t, seq![(c, merge)], Set::empty(), Some(next)),
            (Ok(t), None) => opened(s, t, Seq::empty(), Set::empty(), Some(next)),
            (Err(_), _) => true,
        },
{
    match (s.close_branch(merge, next), s.current_block) {
        (Ok(t), Some(c)) => {
            assert(t.program.arcs =~= s.program.arcs + seq![(c, merge)]);
            assert(t.program.nodes =~= s.program.nodes.union(Set::empty()));
        },
        (Ok(t), None) => {
            assert(t.program.arcs =~= s.program.arcs + Seq::empty());
            assert(t.program.nodes =~= s.program.nodes.union(Set::empty()));
        },
        _ => {},
    }
}

/// What `return` adds.
pub proof fn lemma_parse_return(s: OptimizerView)
    requires
        tidy(s),
    ensures
        match (s.parse_return(), s.current_block) {
            (Ok(t), Some(c)) => opened(s, t, seq![(c, s.ret)], Set::empty(), None),
            (Ok(_), None) => false,
            (Err(_), _) => true,
        },
{
    match (s.parse_return(), s.current_block) {
        (Ok(t), Some(c)) => {
            assert(t.program.arcs =~= s.program.arcs + seq![(c, s.ret)]);
            assert(t.program.nodes =~= s.program.nodes.union(Set::empty()));
        },
        _ => {},
    }
}

/// An arc of a part of the arcs leads from its source to its target.
pub proof fn lemma_arc_leads(part: Seq<(u32, u32)>, arcs: Seq<(u32, u32)>, a: u32, b: u32)
    requires
        part.contains((a, b)),
        has_arcs(part, arcs),
    ensures
        leads(arcs, a, b),
{
    reveal(has_arcs);
    lemma_reach_itself(arcs, a);
    lemma_reach_step(arcs, a, a, b);
}

/// Whether the parser went from `s` to `t` so that each new block lies on a
/// way from where it stood to where it stands, or to the return block.
pub open spec fn passed(s: OptimizerView, t: OptimizerView) -> bool {
    &&& spans(s, t, way_out(s), way_out(t))
    &&& tidy(t)
}

/// Whether the parser went from `s` to `t` so that each new block lies on a
/// way from `cur` to `merge`, or to the return block.
pub open spec fn cased(s: OptimizerView, t: OptimizerView, cur: u32, merge: u32) -> bool {
    &&& grows(s, t)
    &&& fresh_on_way(s, t, t.program.arcs, cur, merge, t.ret)
    &&& tidy(t)
}

/// Where the blocks between `s` and `t` lie on a way from `from` to `out`
/// and those between `t` and `u` on a way from `inner` to `inner_out`, and
/// ways lead from `from` to `inner` and from `inner_out` to `out`, the blocks
/// between `s` and `u` lie on a way from `from` to `out`.
pub proof fn lemma_wrapped(
    s: OptimizerView,
    t: OptimizerView,
    u: OptimizerView,
    arcs: Seq<(u32, u32)>,
    from: u32,
    inner: u32,
    inner_out: u32,
    out: u32,
    ret: u32,
)
    requires
        fresh_on_way(s, t, arcs, from, out, ret),
        fresh_on_way(t, u, u.program.arcs, inner, inner_out, ret),
        has_arcs(u.program.arcs, arcs),
        leads(arcs, from, inner),
        leads(arcs, inner_out, out) || inner_out == ret,
    ensures
        fresh_on_way(s, u, arcs, from, out, ret),
{
    lemma_body_on_way(t, u, arcs, inner, inner_out, from, out, ret);
}

/// One operation that lets control run through makes a sequence that does.
pub proof fn lemma_one_passes(op: OperationView)
    requires
        op_passes(op),
    ensures
        ops_pass(seq![op]),
{
    reveal_with_fuel(ops_pass, 2);
    assert(seq![op].drop_last() =~= Seq::<OperationView>::empty());
}

/// Three operations that let control run through make a sequence that does.
pub proof fn lemma_three_pass(a: OperationView, b: OperationView, c: OperationView)
    requires
        op_passes(a),
        op_passes(b),
        op_passes(c),
    ensures
        ops_pass(seq![a, b, c]),
{
    lemma_one_passes(a);
    assert(seq![a, b].drop_last() =~= seq![a]);
    assert(seq![a, b, c].drop_last() =~= seq![a, b]);
    assert(ops_pass(seq![a, b]));
}

/// A `return` alone makes a scope that ends in a `return`.
pub proof fn lemma_return_alone(depth: u8)
    ensures
        scope_returns(crate::procedure::single(depth, OperationView::Branch(BranchView::Return))),
{
    let scope = crate::procedure::single(depth, OperationView::Branch(BranchView::Return));
    assert(scope.operations.drop_last() =~= Seq::<OperationView>::empty());
}

/// Plain operations let control run through.
pub proof fn lemma_plain_pass(ops: Seq<OperationView>)
    requires
        forall|i: int| 0 <= i < ops.len() ==> #[trigger] ops[i] is Plain,
    ensures
        ops_pass(ops),
    decreases ops.len(),
{
    if ops.len() > 0 {
        let front = ops.drop_last();
        assert forall|i: int| 0 <= i < front.len() implies #[trigger] front[i] is Plain by {
            assert(front[i] == ops[i]);
        }
        lemma_plain_pass(front);
        assert(ops[ops.len() - 1] is Plain);
        assert(op_passes(ops.last()));
    }
}

/// The operations of an offset through a layout let control run through.
pub proof fn lemma_offset_passes(
    depth: u8,
    first: nat,
    tensor: Variable,
    layout: Variable,
    index: Variable,
    position: Variable,
    dim_start: Variable,
    dim_end: Variable,
)
    ensures
        ops_pass(offset_ops(depth, first, tensor, layout, index, position, dim_start, dim_end)),
{
    let body = offset_body(depth, first, tensor, layout, index, position);
    lemma_plain_pass(body.operations);
    assert(scope_passes(body));
    let ops = offset_ops(depth, first, tensor, layout, index, position, dim_start, dim_end);
    assert(branch_passes(ops[1]->Branch_0));
    lemma_three_pass(ops[0], ops[1], ops[2]);
    assert(ops =~= seq![ops[0], ops[1], ops[2]]);
}

/// The operations of the expansion of a procedure let control run through.
pub proof fn lemma_expansion_passes(p: Procedure, depth: u8, next_local: nat)
    ensures
        match expand_spec(p, depth, next_local) {
            Ok(scope) => scope_passes(scope),
            Err(_) => true,
        },
{
    match expand_spec(p, depth, next_local) {
        Ok(scope) => {
            let ops = scope.operations;
            if p is IndexOffsetGlobalWithLayout {
                lemma_offset_passes(
                    depth,
                    next_local,
                    p->tensor,
                    p->IndexOffsetGlobalWithLayout_layout,
                    p->index,
                    p->IndexOffsetGlobalWithLayout_position,
                    p->dim_start,
                    p->dim_end,
                );
            } else if p is ReadGlobalWithLayout {
                let index = crate::procedure::temporary(depth, next_local, Elem::UInt);
                let front = offset_ops(
                    depth,
                    next_local + 1,
                    p->ReadGlobalWithLayout_global,
                    p->ReadGlobalWithLayout_layout,
                    index,
                    Variable::Position(Position::AbsolutePos),
                    Variable::ConstantScalar(ConstantValue::UInt(0)),
                    Variable::Position(Position::Rank),
                );
                lemma_offset_passes(
                    depth,
                    next_local + 1,
                    p->ReadGlobalWithLayout_global,
                    p->ReadGlobalWithLayout_layout,
                    index,
                    Variable::Position(Position::AbsolutePos),
                    Variable::ConstantScalar(ConstantValue::UInt(0)),
                    Variable::Position(Position::Rank),
                );
                assert(ops.drop_last() =~= front);
                assert(ops.last() is Plain);
            } else if ops.len() == 1 {
                match ops[0] {
                    OperationView::Branch(BranchView::IfElse { scope_if, scope_else, .. }) => {
                        lemma_one_passes(scope_if.operations[0]);
                        lemma_one_passes(scope_else.operations[0]);
                        assert(scope_if.operations =~= seq![scope_if.operations[0]]);
                        assert(scope_else.operations =~= seq![scope_else.operations[0]]);
                        assert(scope_passes(scope_if));
                        assert(scope_passes(scope_else));
                        assert(branch_passes(ops[0]->Branch_0));
                    },
                    _ => {},
                }
                lemma_one_passes(ops[0]);
                assert(ops =~= seq![ops[0]]);
            } else {
                match ops[2] {
                    OperationView::Branch(BranchView::IfElse { scope_if, scope_else, .. }) => {
                        lemma_one_passes(scope_if.operations[0]);
                        lemma_one_passes(scope_else.operations[0]);
                        assert(scope_if.operations =~= seq![scope_if.operations[0]]);
                        assert(scope_else.operations =~= seq![scope_else.operations[0]]);
                        assert(scope_passes(scope_if));
                        assert(scope_passes(scope_else));
                        assert(branch_passes(ops[2]->Branch_0));
                    },
                    OperationView::Branch(BranchView::If { scope, .. }) => {
                        if scope.operations[0] is Plain {
                            lemma_one_passes(scope.operations[0]);
                            assert(scope.operations =~= seq![scope.operations[0]]);
                            assert(scope_passes(scope));
                        } else {
                            lemma_return_alone(depth);
                        }
                        assert(branch_passes(ops[2]->Branch_0));
                    },
                    _ => {},
                }
                lemma_three_pass(ops[0], ops[1], ops[2]);
                assert(ops =~= seq![ops[0], ops[1], ops[2]]);
            }
        },
        Err(_) => {},
    }
}

/// Whether a step of the parser that ended in `r` kept the blocks on their
/// way, and left the parser in a block.
pub open spec fn passed_on(s: OptimizerView, r: Result<(OptimizerView, nat), OptError>) -> bool {
    match r {
        Ok((t, _)) => passed(s, t) && t.current_block is Some,
        Err(_) => true,
    }
}

/// Operations that let control run through keep the blocks on their way.
pub proof fn lemma_operations_pass(
    s: OptimizerView,
    depth: u8,
    ops: Seq<OperationView>,
    next_local: nat,
)
    requires
        tidy(s),
        s.current_block is Some,
        ops_pass(ops),
    ensures
        passed_on(s, parse_operations_spec(s, depth, ops, next_local)),
    decreases operations_weight(ops), 0nat,
{
    if ops.len() == 0 {
        lemma_spans_itself(s, way_out(s));
    } else {
        lemma_operations_pass(s, depth, ops.drop_last(), next_local);
        match parse_operations_spec(s, depth, ops.drop_last(), next_local) {
            Ok((s1, n1)) => {
                lemma_operation_passes(s1, depth, ops.last(), n1);
                match parse_operation_spec(s1, depth, ops.last(), n1) {
                    Ok((t, _)) => {
                        lemma_spans_on(s, s1, t, way_out(s), way_out(s1), way_out(t));
                    },
                    Err(_) => {},
                }
            },
            Err(_) => {},
        }
    }
}

/// An operation that lets control run through keeps the blocks on their
/// way.
pub proof fn lemma_operation_passes(
    s: OptimizerView,
    depth: u8,
    op: OperationView,
    next_local: nat,
)
    requires
        tidy(s),
        s.current_block is Some,
        op_passes(op),
    ensures
        passed_on(s, parse_operation_spec(s, depth, op, next_local)),
    decreases op.weight(), 0nat,
{
    match op {
        OperationView::Plain(i) => {
            lemma_plain_passes(s, i);
        },
        OperationView::Procedure(p) => {
            lemma_expansion_weight(p, depth, next_local);
            lemma_expansion_passes(p, depth, next_local);
            match expand_spec(p, depth, next_local) {
                Ok(scope) => {
                    lemma_declare_all_shape(s, scope.locals);
                    lemma_operations_pass(
                        s.declare_all(scope.locals),
                        depth,
                        scope.operations,
                        next_local + scope.locals.len(),
                    );
                },
                Err(_) => {},
            }
        },
        OperationView::Branch(b) => {
            lemma_branch_passes(s, depth, b, next_local);
        },
    }
}

/// A plain operation keeps the blocks on their way.
pub proof fn lemma_plain_passes(s: OptimizerView, op: InstructionView)
    requires
        tidy(s),
        s.current_block is Some,
    ensures
        match s.parse_plain(op) {
            Ok(t) => passed(s, t) && t.current_block is Some,
            Err(_) => true,
        },
{
    lemma_plain_opens_nothing(s, op);
    match s.parse_plain(op) {
        Ok(t) => {
            lemma_opened_grows(s, t, Seq::empty(), Set::empty(), s.current_block);
            lemma_reach_itself(t.program.arcs, way_out(s));
        },
        Err(_) => {},
    }
}

/// A scope that lets control run through keeps the blocks on their way.
pub proof fn lemma_scope_passes(s: OptimizerView, scope: ScopeView)
    requires
        tidy(s),
        s.current_block is Some,
        scope_passes(scope),
    ensures
        match parse_scope_spec(s, scope) {
            Ok(t) => passed(s, t) && t.current_block is Some,
            Err(_) => true,
        },
    decreases scope.weight(), 0nat,
{
    lemma_declare_all_shape(s, scope.locals);
    let s0 = s.declare_all(scope.locals);
    lemma_operations_pass(s0, scope.depth, scope.operations, first_temporary(scope));
}

/// A scope that ends in a `return` keeps the blocks on their way.
pub proof fn lemma_scope_returns(s: OptimizerView, scope: ScopeView)
    requires
        tidy(s),
        s.current_block is Some,
        scope_returns(scope),
    ensures
        match parse_scope_spec(s, scope) {
            Ok(t) => passed(s, t),
            Err(_) => true,
        },
    decreases scope.weight(), 0nat,
{
    lemma_declare_all_shape(s, scope.locals);
    let s0 = s.declare_all(scope.locals);
    let ops = scope.operations;
    lemma_operations_pass(s0, scope.depth, ops.drop_last(), first_temporary(scope));
    match parse_operations_spec(s0, scope.depth, ops.drop_last(), first_temporary(scope)) {
        Ok((s1, n1)) => {
            assert(parse_operations_spec(s0, scope.depth, ops, first_temporary(scope))
                == parse_operation_spec(s1, scope.depth, ops.last(), n1));
            assert(parse_operation_spec(s1, scope.depth, ops.last(), n1) == parse_branch_spec(
                s1,
                scope.depth,
                BranchView::Return,
                n1,
            ));
            lemma_parse_return(s1);
            match s1.parse_return() {
                Ok(t) => {
                    let c1 = s1.current_block.unwrap();
                    let added = seq![(c1, s1.ret)];
                    lemma_opened_grows(s1, t, added, Set::empty(), None);
                    assert(added[0] == (c1, s1.ret));
                    lemma_has_own_arcs(t.program.arcs);
                    lemma_arc_leads(t.program.arcs, t.program.arcs, c1, s1.ret);
                    assert(spans(s1, t, c1, s1.ret));
                    lemma_spans_on(s0, s1, t, way_out(s0), c1, s1.ret);
                },
                Err(_) => {},
            }
        },
        Err(_) => {},
    }
}

/// A branch that lets control run through keeps the blocks on their way.
pub proof fn lemma_branch_passes(s: OptimizerView, depth: u8, b: BranchView, next_local: nat)
    requires
        tidy(s),
        s.current_block is Some,
        branch_passes(b),
    ensures
        passed_on(s, parse_branch_spec(s, depth, b, next_local)),
    decreases b.weight(), 1nat,
{
    match b {
        BranchView::If { .. } => {
            lemma_if_passes(s, depth, b, next_local);
        },
        BranchView::IfElse { .. } => {
            lemma_if_else_passes(s, depth, b, next_local);
        },
        BranchView::Select { cond, then, or_else, out } => {
            lemma_plain_passes(
                s,
                InstructionView {
                    kind: crate::instruction::OpKind::Select,
                    out: Some(out),
                    args: seq![cond, then, or_else],
                },
            );
        },
        BranchView::Switch { .. } => {
            lemma_switch_passes(s, depth, b, next_local);
        },
        BranchView::RangeLoop { .. } => {
            lemma_range_loop_passes(s, depth, b, next_local);
        },
        _ => {},
    }
}

/// An `if` whose body lets control run through, or ends in a `return`,
/// keeps the blocks on their way.
pub proof fn lemma_if_passes(s: OptimizerView, depth: u8, b: BranchView, next_local: nat)
    requires
        tidy(s),
        s.current_block is Some,
        b is If,
        branch_passes(b),
    ensures
        passed_on(s, parse_branch_spec(s, depth, b, next_local)),
    decreases b.weight(), 0nat,
{
    let c = s.current_block.unwrap();
    let then = nth_block(s, 0);
    let merge = nth_block(s, 1);
    let ret = s.ret;
    match b {
        BranchView::If { cond, scope } => {
            lemma_open_if(s, cond);
            match s.open_if(cond) {
                Ok(s1) => {
                    let opening = seq![(c, then), (c, merge)];
                    lemma_opened_grows(s, s1, opening, set![then, merge], Some(then));
                    assert(opening[0] == (c, then) && opening[1] == (c, merge));
                    assert(s1.program.nodes.contains(merge));
                    if scope_passes(scope) {
                        lemma_scope_passes(s1, scope);
                    } else {
                        lemma_scope_returns(s1, scope);
                    }
                    match parse_scope_spec(s1, scope) {
                        Ok(s2) => {
                            lemma_close_branch(s2, merge, merge);
                            match s2.close_branch(merge, merge) {
                                Ok(s3) => {
                                    match s2.current_block {
                                        Some(c2) => {
                                            let closing = seq![(c2, merge)];
                                            lemma_opened_grows(
                                                s2,
                                                s3,
                                                closing,
                                                Set::empty(),
                                                Some(merge),
                                            );
                                            assert(closing[0] == (c2, merge));
                                        },
                                        None => {
                                            lemma_opened_grows(
                                                s2,
                                                s3,
                                                Seq::empty(),
                                                Set::empty(),
                                                Some(merge),
                                            );
                                        },
                                    }
                                    lemma_if_joined(s, s1, s2, s3, c, then, merge);
                                },
                                Err(_) => {},
                            }
                        },
                        Err(_) => {},
                    }
                },
                Err(_) => {},
            }
        },
        _ => {},
    }
}

/// A body between a block and a block where the ways meet, with an arc
/// from the one to the other: the blocks lie on a way from the one to the
/// other, or to the return block.
pub proof fn lemma_if_joined(
    s: OptimizerView,
    s1: OptimizerView,
    s2: OptimizerView,
    s3: OptimizerView,
    c: u32,
    then: u32,
    merge: u32,
)
    requires
        grows(s, s1),
        s1.program.arcs.contains((c, then)),
        s1.program.arcs.contains((c, merge)),
        forall|n: u32| #[trigger]
            s1.program.nodes.contains(n) ==> s.program.nodes.contains(n) || n == then || n
                == merge,
        spans(s1, s2, then, way_out(s2)),
        grows(s2, s3),
        s3.program.nodes == s2.program.nodes,
        s2.current_block is Some ==> s3.program.arcs.contains((way_out(s2), merge)),
    ensures
        spans(s, s3, c, merge),
{
    let arcs = s3.program.arcs;
    let ret = s.ret;
    let c2 = way_out(s2);
    lemma_has_own_arcs(arcs);
    lemma_has_arcs_on(s1.program.arcs, s2.program.arcs, arcs);
    lemma_has_arcs_on(s.program.arcs, s1.program.arcs, arcs);
    lemma_arc_leads(s1.program.arcs, arcs, c, then);
    lemma_arc_leads(s1.program.arcs, arcs, c, merge);
    lemma_reach_itself(arcs, merge);
    lemma_reach_more(s2.program.arcs, arcs, then, c2);
    if s2.current_block is Some {
        lemma_arc_leads(arcs, arcs, c2, merge);
        lemma_reach_on(arcs, then, c2, merge);
    }
    assert(fresh_on_way(s, s1, arcs, c, merge, ret));
    lemma_wrapped(s, s1, s2, arcs, c, then, c2, merge, ret);
    assert(fresh_on_way(s, s3, arcs, c, merge, ret));
}

/// An `if` with `else` whose bodies let control run through keeps the
/// blocks on their way.
#[verifier::rlimit(60)]
pub proof fn lemma_if_else_passes(s: OptimizerView, depth: u8, b: BranchView, next_local: nat)
    requires
        tidy(s),
        s.current_block is Some,
        b is IfElse,
        branch_passes(b),
    ensures
        passed_on(s, parse_branch_spec(s, depth, b, next_local)),
    decreases b.weight(), 0nat,
{
    let c = s.current_block.unwrap();
    let then = nth_block(s, 0);
    let or_else = nth_block(s, 1);
    let merge = nth_block(s, 2);
    let ret = s.ret;
    match b {
        BranchView::IfElse { cond, scope_if, scope_else } => {
            lemma_open_if_else(s, cond);
            match s.open_if_else(cond) {
                Ok(s1) => {
                    let opening = seq![(c, then), (c, or_else)];
                    lemma_opened_grows(s, s1, opening, set![then, or_else, merge], Some(then));
                    assert(opening[0] == (c, then) && opening[1] == (c, or_else));
                    assert(s1.program.nodes.contains(or_else) && s1.program.nodes.contains(merge));
                    lemma_scope_passes(s1, scope_if);
                    match parse_scope_spec(s1, scope_if) {
                        Ok(s2) => {
                            let c2 = s2.current_block.unwrap();
                            lemma_close_branch(s2, merge, or_else);
                            match s2.close_branch(merge, or_else) {
                                Ok(s3) => {
                                    let first = seq![(c2, merge)];
                                    lemma_opened_grows(
                                        s2,
                                        s3,
                                        first,
                                        Set::empty(),
                                        Some(or_else),
                                    );
                                    assert(first[0] == (c2, merge));
                                    assert(s3.program.nodes.contains(merge));
                                    lemma_scope_passes(s3, scope_else);
                                    match parse_scope_spec(s3, scope_else) {
                                        Ok(s4) => {
                                            let c4 = s4.current_block.unwrap();
                                            lemma_close_branch(s4, merge, merge);
                                            match s4.close_branch(merge, merge) {
                                                Ok(s5) => {
                                                    let second = seq![(c4, merge)];
                                                    lemma_opened_grows(
                                                        s4,
                                                        s5,
                                                        second,
                                                        Set::empty(),
                                                        Some(merge),
                                                    );
                                                    assert(second[0] == (c4, merge));
                                                    lemma_if_else_joined(
                                                        s,
                                                        s1,
                                                        s2,
                                                        s3,
                                                        s4,
                                                        s5,
                                                        c,
                                                        then,
                                                        or_else,
                                                        merge,
                                                    );
                                                },
                                                Err(_) => {},
                                            }
                                        },
                                        Err(_) => {},
                                    }
                                },
                                Err(_) => {},
                            }
                        },
                        Err(_) => {},
                    }
                },
                Err(_) => {},
            }
        },
        _ => {},
    }
}

/// Two bodies between a block and a block where their ways meet: the blocks
/// lie on a way from the one to the other.
pub proof fn lemma_if_else_joined(
    s: OptimizerView,
    s1: OptimizerView,
    s2: OptimizerView,
    s3: OptimizerView,
    s4: OptimizerView,
    s5: OptimizerView,
    c: u32,
    then: u32,
    or_else: u32,
    merge: u32,
)
    requires
        grows(s, s1),
        s1.program.arcs.contains((c, then)),
        s1.program.arcs.contains((c, or_else)),
        forall|n: u32| #[trigger]
            s1.program.nodes.contains(n) ==> s.program.nodes.contains(n) || n == then || n
                == or_else || n == merge,
        s2.current_block is Some,
        s4.current_block is Some,
        spans(s1, s2, then, way_out(s2)),
        grows(s2, s3),
        s3.program.nodes == s2.program.nodes,
        s3.program.arcs.contains((way_out(s2), merge)),
        spans(s3, s4, or_else, way_out(s4)),
        grows(s4, s5),
        s5.program.nodes == s4.program.nodes,
        s5.program.arcs.contains((way_out(s4), merge)),
    ensures
        spans(s, s5, c, merge),
{
    let arcs = s5.program.arcs;
    let ret = s.ret;
    let c2 = way_out(s2);
    let c4 = way_out(s4);
    lemma_has_own_arcs(arcs);
    lemma_has_arcs_on(s3.program.arcs, s4.program.arcs, arcs);
    lemma_has_arcs_on(s2.program.arcs, s3.program.arcs, arcs);
    lemma_has_arcs_on(s1.program.arcs, s2.program.arcs, arcs);
    lemma_has_arcs_on(s.program.arcs, s1.program.arcs, arcs);
    lemma_arc_leads(s1.program.arcs, arcs, c, then);
    lemma_arc_leads(s1.program.arcs, arcs, c, or_else);
    lemma_arc_leads(s3.program.arcs, arcs, c2, merge);
    lemma_arc_leads(arcs, arcs, c4, merge);
    lemma_reach_more(s2.program.arcs, arcs, then, c2);
    lemma_reach_more(s4.program.arcs, arcs, or_else, c4);
    lemma_reach_on(arcs, then, c2, merge);
    lemma_reach_on(arcs, or_else, c4, merge);
    lemma_reach_on(arcs, c, then, merge);
    lemma_reach_itself(arcs, merge);
    assert(fresh_on_way(s, s1, arcs, c, merge, ret));
    lemma_wrapped(s, s1, s2, arcs, c, then, c2, merge, ret);
    assert(fresh_on_way(s, s3, arcs, c, merge, ret));
    lemma_wrapped(s, s3, s4, arcs, c, or_else, c4, merge, ret);
    assert(fresh_on_way(s, s5, arcs, c, merge, ret));
}

/// The cases of a switch whose bodies let control run through keep the
/// blocks on a way from the block of the switch to the block where the ways
/// meet.
pub proof fn lemma_cases_pass(
    s: OptimizerView,
    cur: u32,
    merge: u32,
    cases: Seq<(u32, ScopeView)>,
)
    requires
        tidy(s),
        s.program.nodes.contains(cur),
        s.program.nodes.contains(merge),
        cases_pass(cases),
    ensures
        match parse_cases_spec(s, cur, merge, cases) {
            Ok((t, _)) => cased(s, t, cur, merge),
            Err(_) => true,
        },
    decreases cases_weight(cases), 0nat,
{
    if cases.len() == 0 {
        lemma_has_own_arcs(s.program.arcs);
    } else {
        lemma_cases_pass(s, cur, merge, cases.drop_last());
        match parse_cases_spec(s, cur, merge, cases.drop_last()) {
            Ok((s1, _)) => {
                let k = s1.next_block();
                assert(s1.program.nodes.contains(cur) && s1.program.nodes.contains(merge));
                lemma_open_case(s1, cur);
                match s1.open_case(cur) {
                    Ok(s2) => {
                        let opening = seq![(cur, k)];
                        lemma_opened_grows(s1, s2, opening, set![k], Some(k));
                        assert(opening[0] == (cur, k));
                        lemma_scope_passes(s2, cases.last().1);
                        match parse_scope_spec(s2, cases.last().1) {
                            Ok(s3) => {
                                let c3 = s3.current_block.unwrap();
                                lemma_connect_current(s3, merge);
                                match s3.connect_current(merge) {
                                    Ok(s4) => {
                                        let closing = seq![(c3, merge)];
                                        lemma_opened_grows(
                                            s3,
                                            s4,
                                            closing,
                                            Set::empty(),
                                            Some(c3),
                                        );
                                        assert(closing[0] == (c3, merge));
                                        lemma_case_joined(s, s1, s2, s3, s4, cur, k, merge);
                                    },
                                    Err(_) => {},
                                }
                            },
                            Err(_) => {},
                        }
                    },
                    Err(_) => {},
                }
            },
            Err(_) => {},
        }
    }
}

/// One more case behind cases: the blocks lie on a way from the block of
/// the switch to the block where the ways meet.
pub proof fn lemma_case_joined(
    s: OptimizerView,
    s1: OptimizerView,
    s2: OptimizerView,
    s3: OptimizerView,
    s4: OptimizerView,
    cur: u32,
    k: u32,
    merge: u32,
)
    requires
        grows(s, s1),
        fresh_on_way(s, s1, s1.program.arcs, cur, merge, s.ret),
        grows(s1, s2),
        s2.program.arcs.contains((cur, k)),
        forall|n: u32| #[trigger]
            s2.program.nodes.contains(n) ==> s1.program.nodes.contains(n) || n == k,
        s3.current_block is Some,
        spans(s2, s3, k, way_out(s3)),
        grows(s3, s4),
        s4.program.nodes == s3.program.nodes,
        s4.program.arcs.contains((way_out(s3), merge)),
    ensures
        grows(s, s4),
        fresh_on_way(s, s4, s4.program.arcs, cur, merge, s.ret),
{
    let arcs = s4.program.arcs;
    let ret = s.ret;
    let c3 = way_out(s3);
    lemma_has_own_arcs(arcs);
    lemma_has_arcs_on(s2.program.arcs, s3.program.arcs, arcs);
    lemma_has_arcs_on(s1.program.arcs, s2.program.arcs, arcs);
    lemma_has_arcs_on(s.program.arcs, s1.program.arcs, arcs);
    lemma_arc_leads(s2.program.arcs, arcs, cur, k);
    lemma_arc_leads(arcs, arcs, c3, merge);
    lemma_reach_more(s3.program.arcs, arcs, k, c3);
    lemma_reach_on(arcs, k, c3, merge);
    lemma_reach_itself(arcs, cur);
    lemma_reach_itself(arcs, merge);
    assert(fresh_on_way(s, s, arcs, cur, merge, ret));
    lemma_wrapped(s, s, s1, arcs, cur, cur, merge, merge, ret);
    assert(fresh_on_way(s, s2, arcs, cur, merge, ret));
    lemma_wrapped(s, s2, s3, arcs, cur, k, c3, merge, ret);
    assert(fresh_on_way(s, s4, arcs, cur, merge, ret));
}

/// A switch whose bodies let control run through keeps the blocks on
/// their way.
pub proof fn lemma_switch_passes(s: OptimizerView, depth: u8, b: BranchView, next_local: nat)
    requires
        tidy(s),
        s.current_block is Some,
        b is Switch,
        branch_passes(b),
    ensures
        passed_on(s, parse_branch_spec(s, depth, b, next_local)),
    decreases b.weight(), 0nat,
{
    let c = s.current_block.unwrap();
    let default = nth_block(s, 0);
    let merge = nth_block(s, 1);
    match b {
        BranchView::Switch { value, scope_default, cases } => {
            lemma_open_switch(s);
            match s.open_switch() {
                Ok(s1) => {
                    let opening = seq![(c, default)];
                    lemma_opened_grows(s, s1, opening, set![default, merge], Some(default));
                    assert(opening[0] == (c, default));
                    assert(s1.program.nodes.contains(merge) && s1.program.nodes.contains(c));
                    lemma_scope_passes(s1, scope_default);
                    match parse_scope_spec(s1, scope_default) {
                        Ok(s2) => {
                            let c2 = s2.current_block.unwrap();
                            lemma_connect_current(s2, merge);
                            match s2.connect_current(merge) {
                                Ok(s3) => {
                                    let closing = seq![(c2, merge)];
                                    lemma_opened_grows(s2, s3, closing, Set::empty(), Some(c2));
                                    assert(closing[0] == (c2, merge));
                                    assert(s3.program.nodes.contains(merge)
                                        && s3.program.nodes.contains(c));
                                    lemma_cases_pass(s3, c, merge, cases);
                                    match parse_cases_spec(s3, c, merge, cases) {
                                        Ok((s4, branches)) => {
                                            let t = s4.terminate(
                                                c,
                                                ControlFlowView::Switch {
                                                    value,
                                                    default,
                                                    branches,
                                                    merge,
                                                },
                                            ).at(Some(merge));
                                            lemma_switch_joined(
                                                s,
                                                s1,
                                                s2,
                                                s3,
                                                s4,
                                                t,
                                                c,
                                                default,
                                                merge,
                                            );
                                        },
                                        Err(_) => {},
                                    }
                                },
                                Err(_) => {},
                            }
                        },
                        Err(_) => {},
                    }
                },
                Err(_) => {},
            }
        },
        _ => {},
    }
}

/// The default body and the cases between the block of a switch and the
/// block where their ways meet: the blocks lie on a way from the one to the
/// other.
pub proof fn lemma_switch_joined(
    s: OptimizerView,
    s1: OptimizerView,
    s2: OptimizerView,
    s3: OptimizerView,
    s4: OptimizerView,
    t: OptimizerView,
    c: u32,
    default: u32,
    merge: u32,
)
    requires
        grows(s, s1),
        s1.program.arcs.contains((c, default)),
        forall|n: u32| #[trigger]
            s1.program.nodes.contains(n) ==> s.program.nodes.contains(n) || n == default || n
                == merge,
        s2.current_block is Some,
        spans(s1, s2, default, way_out(s2)),
        grows(s2, s3),
        s3.program.nodes == s2.program.nodes,
        s3.program.arcs.contains((way_out(s2), merge)),
        grows(s3, s4),
        fresh_on_way(s3, s4, s4.program.arcs, c, merge, s.ret),
        t.program.nodes == s4.program.nodes,
        t.program.arcs == s4.program.arcs,
        t.ret == s4.ret,
        t.program.root == s4.program.root,
    ensures
        spans(s, t, c, merge),
{
    let arcs = s4.program.arcs;
    let ret = s.ret;
    let c2 = way_out(s2);
    lemma_has_own_arcs(arcs);
    lemma_has_arcs_on(s2.program.arcs, s3.program.arcs, arcs);
    lemma_has_arcs_on(s1.program.arcs, s2.program.arcs, arcs);
    lemma_has_arcs_on(s.program.arcs, s1.program.arcs, arcs);
    lemma_arc_leads(s1.program.arcs, arcs, c, default);
    lemma_arc_leads(s3.program.arcs, arcs, c2, merge);
    lemma_reach_more(s2.program.arcs, arcs, default, c2);
    lemma_reach_on(arcs, default, c2, merge);
    lemma_reach_on(arcs, c, default, merge);
    lemma_reach_itself(arcs, c);
    lemma_reach_itself(arcs, merge);
    assert(fresh_on_way(s, s1, arcs, c, merge, ret));
    lemma_wrapped(s, s1, s2, arcs, c, default, c2, merge, ret);
    assert(fresh_on_way(s, s3, arcs, c, merge, ret));
    lemma_wrapped(s, s3, s4, arcs, c, c, merge, merge, ret);
    assert(fresh_on_way(s, t, arcs, c, merge, ret));
}

/// A loop over a range whose body lets control run through keeps the
/// blocks on their way.
#[verifier::rlimit(60)]
pub proof fn lemma_range_loop_passes(s: OptimizerView, depth: u8, b: BranchView, next_local: nat)
    requires
        tidy(s),
        s.current_block is Some,
        b is RangeLoop,
        branch_passes(b),
    ensures
        passed_on(s, parse_branch_spec(s, depth, b, next_local)),
    decreases b.weight(), 0nat,
{
    let c = s.current_block.unwrap();
    let head = nth_block(s, 0);
    let body = nth_block(s, 1);
    let continue_target = nth_block(s, 2);
    let merge = nth_block(s, 3);
    match b {
        BranchView::RangeLoop { i, start, end, step, inclusive, scope } => {
            let by = match step {
                Some(v) => v,
                None => crate::parse::unit_step(i),
            };
            lemma_open_range_loop(s, depth, next_local, i, start, end, inclusive);
            match s.open_range_loop(depth, next_local, i, start, end, inclusive) {
                Ok(s1) => {
                    let opening = seq![(c, head), (head, body), (head, merge)];
                    lemma_opened_grows(
                        s,
                        s1,
                        opening,
                        set![head, body, continue_target, merge],
                        Some(body),
                    );
                    assert(opening[0] == (c, head) && opening[1] == (head, body) && opening[2]
                        == (head, merge));
                    assert(s1.program.nodes.contains(merge) && s1.program.nodes.contains(
                        continue_target,
                    ));
                    lemma_scope_passes(s1, scope);
                    match parse_scope_spec(s1, scope) {
                        Ok(s2) => {
                            let c2 = s2.current_block.unwrap();
                            lemma_close_range_loop(s2, i, by, head, continue_target, merge);
                            match s2.close_range_loop(i, by, head, continue_target, merge) {
                                Ok(s3) => {
                                    let closing = seq![
                                        (c2, continue_target),
                                        (continue_target, head),
                                    ];
                                    lemma_opened_grows(
                                        s2,
                                        s3,
                                        closing,
                                        Set::empty(),
                                        Some(merge),
                                    );
                                    assert(closing[0] == (c2, continue_target) && closing[1] == (
                                        continue_target,
                                        head,
                                    ));
                                    lemma_range_loop_joined(
                                        s,
                                        s1,
                                        s2,
                                        s3,
                                        c,
                                        head,
                                        body,
                                        continue_target,
                                        merge,
                                    );
                                },
                                Err(_) => {},
                            }
                        },
                        Err(_) => {},
                    }
                },
                Err(_) => {},
            }
        },
        _ => {},
    }
}

/// The body of a loop over a range between its head and the block that ends
/// each round: the blocks lie on a way from the block before the loop to
/// the block behind it.
pub proof fn lemma_range_loop_joined(
    s: OptimizerView,
    s1: OptimizerView,
    s2: OptimizerView,
    s3: OptimizerView,
    c: u32,
    head: u32,
    body: u32,
    continue_target: u32,
    merge: u32,
)
    requires
        grows(s, s1),
        s1.program.arcs.contains((c, head)),
        s1.program.arcs.contains((head, body)),
        s1.program.arcs.contains((head, merge)),
        forall|n: u32| #[trigger]
            s1.program.nodes.contains(n) ==> s.program.nodes.contains(n) || n == head || n
                == body || n == continue_target || n == merge,
        s2.current_block is Some,
        spans(s1, s2, body, way_out(s2)),
        grows(s2, s3),
        s3.program.nodes == s2.program.nodes,
        s3.program.arcs.contains((way_out(s2), continue_target)),
        s3.program.arcs.contains((continue_target, head)),
    ensures
        spans(s, s3, c, merge),
{
    let arcs = s3.program.arcs;
    let ret = s.ret;
    let c2 = way_out(s2);
    lemma_has_own_arcs(arcs);
    lemma_has_arcs_on(s1.program.arcs, s2.program.arcs, arcs);
    lemma_has_arcs_on(s.program.arcs, s1.program.arcs, arcs);
    lemma_arc_leads(s1.program.arcs, arcs, c, head);
    lemma_arc_leads(s1.program.arcs, arcs, head, body);
    lemma_arc_leads(s1.program.arcs, arcs, head, merge);
    lemma_arc_leads(arcs, arcs, c2, continue_target);
    lemma_arc_leads(arcs, arcs, continue_target, head);
    lemma_reach_more(s2.program.arcs, arcs, body, c2);
    lemma_reach_on(arcs, c, head, merge);
    lemma_reach_on(arcs, c, head, body);
    lemma_reach_on(arcs, continue_target, head, merge);
    lemma_reach_on(arcs, c2, continue_target, merge);
    lemma_reach_on(arcs, body, c2, merge);
    lemma_reach_on(arcs, body, c2, continue_target);
    lemma_reach_on(arcs, c, body, continue_target);
    lemma_reach_itself(arcs, merge);
    assert(fresh_on_way(s, s1, arcs, c, merge, ret));
    lemma_wrapped(s, s1, s2, arcs, c, body, c2, merge, ret);
    assert(fresh_on_way(s, s3, arcs, c, merge, ret));
}

/// Where control runs through a scope, or through it up to a `return` at
/// its end, every block of its graph lies on a path from the entry block to
/// the return block.
pub proof fn lemma_blocks_on_a_path(scope: ScopeView, dim: CubeDim, mode: ExecutionMode)
    requires
        scope_passes(scope) || scope_returns(scope),
    ensures
        match parse_graph_spec(Optimizer::initial(dim, mode), scope) {
            Ok(s) => forall|n: u32| #[trigger]
                s.program.nodes.contains(n) ==> reachable(s.program.arcs, s.program.root, n)
                    && reachable(s.program.arcs, n, s.ret),
            Err(_) => true,
        },
{
    reveal_with_fuel(nth_block, 3);
    let s = Optimizer::initial(dim, mode);
    let entry = nth_block(s, 0);
    let ret = nth_block(s, 1);
    match crate::parse::and_new_block(s.new_block()) {
        Ok(s1) => {
            let s2 = OptimizerView {
                program: crate::program::ProgramView { root: entry, ..s1.program },
                current_block: Some(entry),
                loop_break: Seq::empty(),
                ret,
                ..s1
            }.terminate(ret, ControlFlowView::Return);
            assert(tidy(s2));
            if scope_passes(scope) {
                lemma_scope_passes(s2, scope);
            } else {
                lemma_scope_returns(s2, scope);
            }
            match parse_scope_spec(s2, scope) {
                Ok(s3) => {
                    lemma_connect_current(s3, ret);
                    match s3.connect_current(ret) {
                        Ok(s4) => {
                            let arcs = s4.program.arcs;
                            lemma_has_own_arcs(arcs);
                            match s3.current_block {
                                Some(c3) => {
                                    let closing = seq![(c3, ret)];
                                    lemma_opened_grows(s3, s4, closing, Set::empty(), Some(c3));
                                    assert(closing[0] == (c3, ret));
                                    lemma_arc_leads(arcs, arcs, c3, ret);
                                },
                                None => {
                                    lemma_reach_itself(arcs, ret);
                                },
                            }
                            lemma_reach_itself(arcs, entry);
                            lemma_reach_more(s3.program.arcs, arcs, entry, way_out(s3));
                            lemma_reach_on(arcs, entry, way_out(s3), ret);
                            lemma_reach_itself(arcs, ret);
                            assert(fresh_on_way(s2, s2, arcs, entry, ret, ret));
                            lemma_wrapped(s2, s2, s3, arcs, entry, entry, way_out(s3), ret, ret);
                            assert forall|n: u32| #[trigger]
                                s4.program.nodes.contains(n) implies reachable(arcs, entry, n)
                                && reachable(arcs, n, ret) by {
                                reveal(leads);
                                if s2.program.nodes.contains(n) {
                                    assert(n == entry || n == ret);
                                } else {
                                    assert(s3.program.nodes.contains(n));
                                    assert(on_way(arcs, entry, n, ret, ret));
                                }
                            }
                        },
                        Err(_) => {},
                    }
                },
                Err(_) => {},
            }
        },
        Err(_) => {},
    }
}

} // verus!
