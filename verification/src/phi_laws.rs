//! What holds of phi nodes: each has one entry for each predecessor of its
//! block, in the order of the predecessors.

use crate::block::{BlockView, PhiView};
use crate::driver::{ceiling, post_ssa_loop, post_ssa_passes, pre_ssa_loop, OptimizerPass};
use crate::passes::Rule;
use crate::graph::{predecessors_of, successors_of};
use crate::ir::{Item, VarKey};
use crate::phi_frontiers::{idoms_of, new_phi, phi_blocks};
use crate::program::ProgramView;
use crate::version::{
    children_upto, fill_block, fill_phi, fill_successors, rename_block, rename_phis,
    version_children, version_tree, Renaming,
};
use vstd::prelude::*;

verus! {

/// Whether every phi node of `block` has its entries for exactly the blocks
/// `preds`, in their order.
pub open spec fn block_phis_match(block: BlockView, preds: Seq<u32>) -> bool {
    forall|i: int| 0 <= i < block.phi_nodes.len() ==> (#[trigger] block.phi_nodes[i]).keys() == preds
}

/// Whether every phi node of every block of the program has its entries
/// for exactly the predecessors of its block, in their order.
pub open spec fn phis_match(p: ProgramView) -> bool {
    forall|b: u32|
        p.nodes.contains(b) && b < p.blocks.len() ==> block_phis_match(
            #[trigger] p.blocks[b as int],
            p.predecessors(b),
        )
}

/// Whether the phi nodes of `b` are those of `a` but for their outputs and
/// the values of their entries.
pub open spec fn same_keys(a: Seq<PhiView>, b: Seq<PhiView>) -> bool {
    &&& a.len() == b.len()
    &&& forall|i: int| 0 <= i < a.len() ==> (#[trigger] a[i]).keys() == b[i].keys()
}

/// Whether the blocks `b` have the phi nodes of the blocks `a` but for
/// their outputs and the values of their entries.
pub open spec fn blocks_same_keys(a: Seq<BlockView>, b: Seq<BlockView>) -> bool {
    &&& a.len() == b.len()
    &&& forall|n: int| 0 <= n < a.len() ==> same_keys((#[trigger] a[n]).phi_nodes, b[n].phi_nodes)
}

/// Placing the phi nodes for a local keeps the law: a new phi node has one
/// entry for each predecessor of its block.
pub proof fn lemma_place_for_matches(p: ProgramView, k: VarKey, item: Item)
    requires
        phis_match(p),
    ensures
        phis_match(p.place_for(k, item)),
{
    let q = p.place_for(k, item);
    assert forall|b: u32| q.nodes.contains(b) && b < q.blocks.len() implies block_phis_match(
        #[trigger] q.blocks[b as int],
        q.predecessors(b),
    ) by {
        assert(block_phis_match(p.blocks[b as int], p.predecessors(b)));
        let block = q.blocks[b as int];
        assert forall|i: int| 0 <= i < block.phi_nodes.len() implies (
        #[trigger] block.phi_nodes[i]).keys() == q.predecessors(b) by {
            if phi_blocks(p, k).contains(b) {
                if i < p.blocks[b as int].phi_nodes.len() {
                    assert(block.phi_nodes[i] == p.blocks[b as int].phi_nodes[i]);
                } else {
                    assert(block.phi_nodes[i] == new_phi(p, b, k, item));
                    assert(new_phi(p, b, k, item).keys() =~= p.predecessors(b));
                }
            }
        }
    }
}

/// Placing the phi nodes for all variables keeps the law.
pub proof fn lemma_place_all_matches(p: ProgramView, vars: Seq<(VarKey, Item)>)
    requires
        phis_match(p),
    ensures
        phis_match(p.place_all(vars)),
    decreases vars.len(),
{
    if vars.len() > 0 {
        lemma_place_all_matches(p, vars.drop_last());
        lemma_place_for_matches(p.place_all(vars.drop_last()), vars.last().0, vars.last().1);
    }
}

/// Renaming the phi nodes of a block changes their outputs only.
pub proof fn lemma_rename_phis_keys(vars: Seq<(VarKey, Item)>, r: Renaming, phis: Seq<PhiView>)
    ensures
        match rename_phis(vars, r, phis) {
            Ok((_, done)) => same_keys(phis, done),
            Err(_) => true,
        },
    decreases phis.len(),
{
    if phis.len() > 0 {
        lemma_rename_phis_keys(vars, r, phis.drop_last());
        match rename_phis(vars, r, phis) {
            Ok((_, done)) => {
                assert forall|i: int| 0 <= i < phis.len() implies (#[trigger] phis[i]).keys()
                    == done[i].keys() by {
                    if i < phis.len() - 1 {
                        assert(phis.drop_last()[i] == phis[i]);
                    }
                }
            },
            Err(_) => {},
        }
    }
}

/// Filling the entries for a block changes the values of entries only.
pub proof fn lemma_fill_successors_keys(
    vars: Seq<(VarKey, Item)>,
    current: Seq<(VarKey, u16)>,
    blocks: Seq<BlockView>,
    from: u32,
    succs: Seq<u32>,
)
    ensures
        blocks_same_keys(blocks, fill_successors(vars, current, blocks, from, succs)),
    decreases succs.len(),
{
    if succs.len() > 0 {
        lemma_fill_successors_keys(vars, current, blocks, from, succs.drop_last());
        let done = fill_successors(vars, current, blocks, from, succs.drop_last());
        let all = fill_successors(vars, current, blocks, from, succs);
        assert forall|n: int| 0 <= n < blocks.len() implies same_keys(
            (#[trigger] blocks[n]).phi_nodes,
            all[n].phi_nodes,
        ) by {
            assert(same_keys(blocks[n].phi_nodes, done[n].phi_nodes));
            if succs.last() < done.len() && n == succs.last() {
                let filled = fill_block(vars, current, done[n], from);
                assert forall|i: int| 0 <= i < done[n].phi_nodes.len() implies (
                #[trigger] done[n].phi_nodes[i]).keys() == filled.phi_nodes[i].keys() by {
                    assert(fill_phi(vars, current, done[n].phi_nodes[i], from).keys()
                        =~= done[n].phi_nodes[i].keys());
                }
                assert forall|i: int| 0 <= i < blocks[n].phi_nodes.len() implies (
                #[trigger] blocks[n].phi_nodes[i]).keys() == all[n].phi_nodes[i].keys() by {
                    assert(done[n].phi_nodes[i].keys() == filled.phi_nodes[i].keys());
                }
            }
        }
    }
}

/// Renaming a dominator tree changes outputs and the values of entries
/// only.
pub proof fn lemma_version_tree_keys(
    blocks: Seq<BlockView>,
    arcs: Seq<(u32, u32)>,
    idoms: Seq<Option<u32>>,
    vars: Seq<(VarKey, Item)>,
    r: Renaming,
    b: u32,
    fuel: nat,
)
    ensures
        match version_tree(blocks, arcs, idoms, vars, r, b, fuel) {
            Ok((done, _)) => blocks_same_keys(blocks, done),
            Err(_) => true,
        },
    decreases fuel, 0nat, 0nat,
{
    if fuel == 0 || b >= blocks.len() {
    } else {
        match rename_block(vars, r, blocks[b as int]) {
            Ok((r1, block)) => {
                lemma_rename_phis_keys(vars, r, blocks[b as int].phi_nodes);
                let renamed = blocks.update(b as int, block);
                let filled = fill_successors(vars, r1.current, renamed, b, successors_of(arcs, b));
                lemma_fill_successors_keys(vars, r1.current, renamed, b, successors_of(arcs, b));
                lemma_version_children_keys(
                    filled,
                    arcs,
                    idoms,
                    vars,
                    r1,
                    children_upto(idoms, b, idoms.len()),
                    (fuel - 1) as nat,
                );
                match version_tree(blocks, arcs, idoms, vars, r, b, fuel) {
                    Ok((done, _)) => {
                        assert forall|n: int| 0 <= n < blocks.len() implies same_keys(
                            (#[trigger] blocks[n]).phi_nodes,
                            done[n].phi_nodes,
                        ) by {
                            assert(same_keys(renamed[n].phi_nodes, filled[n].phi_nodes));
                            assert(same_keys(filled[n].phi_nodes, done[n].phi_nodes));
                            assert forall|i: int|
                                0 <= i < blocks[n].phi_nodes.len() implies (
                            #[trigger] blocks[n].phi_nodes[i]).keys() == done[n].phi_nodes[i].keys() by {
                                assert(renamed[n].phi_nodes[i].keys() == filled[n].phi_nodes[i].keys());
                                assert(filled[n].phi_nodes[i].keys() == done[n].phi_nodes[i].keys());
                            }
                        }
                    },
                    Err(_) => {},
                }
            },
            Err(_) => {},
        }
    }
}

/// Renaming the dominator trees below some children changes outputs and
/// the values of entries only.
pub proof fn lemma_version_children_keys(
    blocks: Seq<BlockView>,
    arcs: Seq<(u32, u32)>,
    idoms: Seq<Option<u32>>,
    vars: Seq<(VarKey, Item)>,
    r: Renaming,
    children: Seq<u32>,
    fuel: nat,
)
    ensures
        match version_children(blocks, arcs, idoms, vars, r, children, fuel) {
            Ok((done, _)) => blocks_same_keys(blocks, done),
            Err(_) => true,
        },
    decreases fuel, 1nat, children.len(),
{
    if children.len() > 0 {
        lemma_version_children_keys(blocks, arcs, idoms, vars, r, children.drop_last(), fuel);
        match version_children(blocks, arcs, idoms, vars, r, children.drop_last(), fuel) {
            Ok((b1, c1)) => {
                lemma_version_tree_keys(
                    b1,
                    arcs,
                    idoms,
                    vars,
                    Renaming { counters: c1, current: r.current },
                    children.last(),
                    fuel,
                );
                match version_children(blocks, arcs, idoms, vars, r, children, fuel) {
                    Ok((done, _)) => {
                        assert forall|n: int| 0 <= n < blocks.len() implies same_keys(
                            (#[trigger] blocks[n]).phi_nodes,
                            done[n].phi_nodes,
                        ) by {
                            assert(same_keys(blocks[n].phi_nodes, b1[n].phi_nodes));
                            assert(same_keys(b1[n].phi_nodes, done[n].phi_nodes));
                            assert forall|i: int|
                                0 <= i < blocks[n].phi_nodes.len() implies (
                            #[trigger] blocks[n].phi_nodes[i]).keys() == done[n].phi_nodes[i].keys() by {
                                assert(b1[n].phi_nodes[i].keys() == done[n].phi_nodes[i].keys());
                            }
                        }
                    },
                    Err(_) => {},
                }
            },
            Err(_) => {},
        }
    }
}

/// A program whose blocks keep their phi nodes but for outputs and values,
/// and which keeps its blocks and edges, keeps the law.
pub proof fn lemma_same_keys_match(p: ProgramView, q: ProgramView)
    requires
        phis_match(p),
        q.nodes == p.nodes,
        q.arcs == p.arcs,
        blocks_same_keys(p.blocks, q.blocks),
    ensures
        phis_match(q),
{
    assert forall|b: u32| q.nodes.contains(b) && b < q.blocks.len() implies block_phis_match(
        #[trigger] q.blocks[b as int],
        q.predecessors(b),
    ) by {
        assert(block_phis_match(p.blocks[b as int], p.predecessors(b)));
        assert(same_keys(p.blocks[b as int].phi_nodes, q.blocks[b as int].phi_nodes));
        assert forall|i: int| 0 <= i < q.blocks[b as int].phi_nodes.len() implies (
        #[trigger] q.blocks[b as int].phi_nodes[i]).keys() == q.predecessors(b) by {
            assert(p.blocks[b as int].phi_nodes[i].keys() == q.blocks[b as int].phi_nodes[i].keys());
        }
    }
}

/// The transformation into static single-assignment form establishes the
/// law for the phi nodes that it places, and keeps it for those that were
/// there.
pub proof fn lemma_ssa_phis_match(p: ProgramView)
    requires
        phis_match(p),
    ensures
        match p.ssa_transform() {
            Ok(q) => phis_match(q),
            Err(_) => true,
        },
{
    let stage1 = p.with_frontiers();
    assert(phis_match(stage1)) by {
        assert forall|b: u32| stage1.nodes.contains(b) && b < stage1.blocks.len() implies block_phis_match(
            #[trigger] stage1.blocks[b as int],
            stage1.predecessors(b),
        ) by {
            assert(block_phis_match(p.blocks[b as int], p.predecessors(b)));
        }
    }
    lemma_place_all_matches(stage1, stage1.variables);
    crate::phi_frontiers::lemma_place_all_frame(stage1, stage1.variables);
    let stage2 = stage1.with_phis();
    lemma_version_tree_keys(
        stage2.blocks,
        stage2.arcs,
        idoms_of(stage2),
        stage2.variables,
        Renaming { counters: Seq::empty(), current: Seq::empty() },
        stage2.root,
        stage2.blocks.len(),
    );
    match stage2.version_program() {
        Ok(stage3) => {
            lemma_same_keys_match(stage2, stage3);
            let stage4 = stage3.cleared();
            assert(blocks_same_keys(stage3.blocks, stage4.blocks));
            lemma_same_keys_match(stage3, stage4);
        },
        Err(_) => {},
    }
}

/// The place of the first `x` in `s`, or -1.
pub open spec fn first_index(s: Seq<u32>, x: u32) -> int
    decreases s.len(),
{
    if s.len() == 0 {
        -1
    } else {
        let p = first_index(s.drop_last(), x);
        if p >= 0 {
            p
        } else if s.last() == x {
            s.len() - 1
        } else {
            -1
        }
    }
}

/// `s` without every `x`.
pub open spec fn without(s: Seq<u32>, x: u32) -> Seq<u32>
    decreases s.len(),
{
    if s.len() == 0 {
        Seq::empty()
    } else if s.last() == x {
        without(s.drop_last(), x)
    } else {
        without(s.drop_last(), x).push(s.last())
    }
}

/// What `first_index` finds is the first place of `x`.
pub proof fn lemma_first_index(s: Seq<u32>, x: u32)
    ensures
        -1 <= first_index(s, x) < s.len(),
        first_index(s, x) >= 0 ==> s[first_index(s, x)] == x,
        forall|j: int| 0 <= j < s.len() && s[j] == x ==> 0 <= first_index(s, x) <= j,
    decreases s.len(),
{
    if s.len() > 0 {
        lemma_first_index(s.drop_last(), x);
        assert forall|j: int| 0 <= j < s.len() && s[j] == x implies 0 <= first_index(s, x)
            <= j by {
            if j < s.len() - 1 {
                assert(s.drop_last()[j] == x);
            }
        }
    }
}

/// The first place of `x` behind a new first item.
pub proof fn lemma_first_index_prepend(s: Seq<u32>, head: u32, x: u32)
    ensures
        first_index(seq![head] + s, x) == if head == x {
            0
        } else if first_index(s, x) >= 0 {
            first_index(s, x) + 1
        } else {
            -1
        },
{
    let t = seq![head] + s;
    lemma_first_index(t, x);
    lemma_first_index(s, x);
    if head == x {
        assert(t[0] == x);
    } else {
        let p = first_index(s, x);
        if p >= 0 {
            assert(t[p + 1] == x);
            let q = first_index(t, x);
            if q < p + 1 {
                assert(q >= 1);
                assert(s[q - 1] == t[q]);
            }
        } else {
            let q = first_index(t, x);
            if q >= 0 {
                assert(q >= 1);
                assert(s[q - 1] == x);
            }
        }
    }
}

/// `without` behind a new first item.
pub proof fn lemma_without_prepend(s: Seq<u32>, head: u32, x: u32)
    ensures
        without(seq![head] + s, x) == if head == x {
            without(s, x)
        } else {
            seq![head] + without(s, x)
        },
    decreases s.len(),
{
    let t = seq![head] + s;
    if s.len() == 0 {
        assert(t.drop_last() =~= Seq::<u32>::empty());
        assert(without(t.drop_last(), x) =~= Seq::<u32>::empty());
        if head != x {
            assert(without(t, x) =~= seq![head] + without(s, x));
        }
    } else {
        lemma_without_prepend(s.drop_last(), head, x);
        assert(t.drop_last() =~= seq![head] + s.drop_last());
        if head == x {
        } else if s.last() == x {
        } else {
            assert((seq![head] + without(s.drop_last(), x)).push(s.last()) =~= seq![head]
                + without(s, x));
        }
    }
}

/// The predecessors of `b` when the newest arc from `a` to `b` is gone.
pub proof fn lemma_predecessors_remove(arcs: Seq<(u32, u32)>, a: u32, b: u32, c: u32)
    requires
        crate::graph::newest_arc(arcs, a, b) >= 0,
    ensures
        c != b ==> predecessors_of(arcs.remove(crate::graph::newest_arc(arcs, a, b)), c)
            == predecessors_of(arcs, c),
        first_index(predecessors_of(arcs, b), a) >= 0,
        predecessors_of(arcs.remove(crate::graph::newest_arc(arcs, a, b)), b) == predecessors_of(
            arcs,
            b,
        ).remove(first_index(predecessors_of(arcs, b), a)),
    decreases arcs.len(),
{
    crate::graph::lemma_newest_arc(arcs, a, b);
    let i = crate::graph::newest_arc(arcs, a, b);
    let rest = arcs.drop_last();
    if arcs.last() == (a, b) {
        assert(arcs.remove(i) =~= rest);
        lemma_first_index_prepend(predecessors_of(rest, b), a, a);
        assert((seq![a] + predecessors_of(rest, b)).remove(0) =~= predecessors_of(rest, b));
    } else {
        lemma_predecessors_remove(rest, a, b, c);
        crate::graph::lemma_newest_arc(rest, a, b);
        let gone = arcs.remove(i);
        assert(gone.drop_last() =~= rest.remove(i));
        assert(gone.last() == arcs.last());
        if arcs.last().1 == b {
            let head = arcs.last().0;
            lemma_first_index_prepend(predecessors_of(rest, b), head, a);
            lemma_first_index(predecessors_of(rest, b), a);
            let k = first_index(predecessors_of(rest, b), a);
            assert((seq![head] + predecessors_of(rest, b)).remove(k + 1) =~= seq![head]
                + predecessors_of(rest, b).remove(k));
        }
    }
}

/// The predecessors of a block when another block is gone.
pub proof fn lemma_predecessors_without(arcs: Seq<(u32, u32)>, d: u32, b: u32)
    requires
        b != d,
    ensures
        predecessors_of(crate::graph::arcs_without_node(arcs, d), b) == without(
            predecessors_of(arcs, b),
            d,
        ),
    decreases arcs.len(),
{
    if arcs.len() > 0 {
        let rest = arcs.drop_last();
        lemma_predecessors_without(rest, d, b);
        let last = arcs.last();
        let kept = crate::graph::arcs_without_node(rest, d);
        if last.0 == d || last.1 == d {
            if last.1 == b {
                lemma_without_prepend(predecessors_of(rest, b), last.0, d);
            }
        } else {
            assert(kept.push(last).drop_last() =~= kept);
            if last.1 == b {
                lemma_without_prepend(predecessors_of(rest, b), last.0, d);
            }
        }
    } else {
        assert(predecessors_of(crate::graph::arcs_without_node(arcs, d), b) =~= without(
            predecessors_of(arcs, b),
            d,
        ));
    }
}

/// The blocks of entries without the first entry for `from`.
pub proof fn lemma_less_one_keys(phi: PhiView, from: u32)
    ensures
        crate::const_branches::first_entry(phi.entries, from) == first_index(phi.keys(), from),
        (PhiView {
            out: phi.out,
            entries: crate::const_branches::entries_less_one(phi.entries, from),
        }).keys() == if first_index(phi.keys(), from) >= 0 {
            phi.keys().remove(first_index(phi.keys(), from))
        } else {
            phi.keys()
        },
{
    lemma_first_entry_keys(phi.entries, from);
    lemma_first_index(phi.keys(), from);
    let p = first_index(phi.keys(), from);
    let less = PhiView {
        out: phi.out,
        entries: crate::const_branches::entries_less_one(phi.entries, from),
    };
    if p >= 0 {
        assert(less.keys() =~= phi.keys().remove(p));
    } else {
        assert(less.keys() =~= phi.keys());
    }
}

/// The first entry for a block stands where the block stands first among
/// the blocks of the entries.
pub proof fn lemma_first_entry_keys(entries: Seq<(u32, crate::ir::Variable)>, from: u32)
    ensures
        crate::const_branches::first_entry(entries, from) == first_index(
            (PhiView { out: crate::ir::Variable::Position(crate::ir::Position::UnitPos), entries }).keys(),
            from,
        ),
    decreases entries.len(),
{
    let out = crate::ir::Variable::Position(crate::ir::Position::UnitPos);
    let keys = (PhiView { out, entries }).keys();
    if entries.len() > 0 {
        lemma_first_entry_keys(entries.drop_last(), from);
        assert((PhiView { out, entries: entries.drop_last() }).keys() =~= keys.drop_last());
    }
}

/// The blocks of entries without the entries for `from`.
pub proof fn lemma_without_keys(entries: Seq<(u32, crate::ir::Variable)>, from: u32)
    ensures
        (PhiView {
            out: crate::ir::Variable::Position(crate::ir::Position::UnitPos),
            entries: crate::dead_blocks::entries_without(entries, from),
        }).keys() == without(
            (PhiView { out: crate::ir::Variable::Position(crate::ir::Position::UnitPos), entries }).keys(),
            from,
        ),
    decreases entries.len(),
{
    let out = crate::ir::Variable::Position(crate::ir::Position::UnitPos);
    let keys = (PhiView { out, entries }).keys();
    let kept = crate::dead_blocks::entries_without(entries, from);
    if entries.len() > 0 {
        lemma_without_keys(entries.drop_last(), from);
        assert((PhiView { out, entries: entries.drop_last() }).keys() =~= keys.drop_last());
        let before = crate::dead_blocks::entries_without(entries.drop_last(), from);
        if entries.last().0 != from {
            assert((PhiView { out, entries: kept }).keys() =~= (PhiView {
                out,
                entries: before,
            }).keys().push(entries.last().0));
        }
    } else {
        assert((PhiView { out, entries: kept }).keys() =~= without(keys, from));
    }
}

/// Removing an edge keeps the law: the phi nodes of its target lose the
/// entry for its source.
pub proof fn lemma_remove_edge_matches(p: ProgramView, a: u32, b: u32)
    requires
        phis_match(p),
    ensures
        phis_match(p.remove_edge(a, b)),
{
    let q = p.remove_edge(a, b);
    let i = crate::graph::newest_arc(p.arcs, a, b);
    if 0 <= i < p.arcs.len() && b < p.blocks.len() {
        assert forall|c: u32| q.nodes.contains(c) && c < q.blocks.len() implies block_phis_match(
            #[trigger] q.blocks[c as int],
            q.predecessors(c),
        ) by {
            lemma_predecessors_remove(p.arcs, a, b, c);
            assert(block_phis_match(p.blocks[c as int], p.predecessors(c)));
            if c == b {
                let block = q.blocks[c as int];
                assert forall|n: int| 0 <= n < block.phi_nodes.len() implies (
                #[trigger] block.phi_nodes[n]).keys() == q.predecessors(c) by {
                    lemma_less_one_keys(p.blocks[c as int].phi_nodes[n], a);
                }
            }
        }
    }
}

/// Deciding the constant branches of the blocks below `m` keeps the law.
pub proof fn lemma_decide_upto_matches(p: ProgramView, m: nat)
    requires
        phis_match(p),
    ensures
        phis_match(p.decide_upto(m)),
    decreases m,
{
    if m > 0 {
        lemma_decide_upto_matches(p, (m - 1) as nat);
        let before = p.decide_upto((m - 1) as nat);
        let b = (m - 1) as u32;
        if before.has_const_branch(b) {
            let set = before.set_control_flow(
                b,
                crate::block::ControlFlowView::Fallthrough,
            );
            assert(blocks_same_keys(before.blocks, set.blocks));
            lemma_same_keys_match(before, set);
            match crate::const_branches::decided(before.blocks[b as int].control_flow) {
                Some((_, dropped)) => {
                    lemma_remove_edge_matches(set, b, dropped);
                },
                None => {},
            }
        }
    }
}

/// Removing a block keeps the law: no phi node keeps an entry for it.
pub proof fn lemma_remove_block_matches(p: ProgramView, d: u32)
    requires
        phis_match(p),
    ensures
        phis_match(p.remove_block(d)),
{
    let q = p.remove_block(d);
    assert forall|c: u32| q.nodes.contains(c) && c < q.blocks.len() implies block_phis_match(
        #[trigger] q.blocks[c as int],
        q.predecessors(c),
    ) by {
        lemma_predecessors_without(p.arcs, d, c);
        assert(block_phis_match(p.blocks[c as int], p.predecessors(c)));
        let block = q.blocks[c as int];
        assert forall|n: int| 0 <= n < block.phi_nodes.len() implies (
        #[trigger] block.phi_nodes[n]).keys() == q.predecessors(c) by {
            let old_phi = p.blocks[c as int].phi_nodes[n];
            lemma_without_keys(old_phi.entries, d);
            assert(block.phi_nodes[n].keys() =~= (PhiView {
                out: crate::ir::Variable::Position(crate::ir::Position::UnitPos),
                entries: crate::dead_blocks::entries_without(old_phi.entries, d),
            }).keys());
            assert(old_phi.keys() =~= (PhiView {
                out: crate::ir::Variable::Position(crate::ir::Position::UnitPos),
                entries: old_phi.entries,
            }).keys());
        }
    }
}

/// Removing the dead blocks below `m` keeps the law.
pub proof fn lemma_without_dead_matches(p: ProgramView, ret: u32, live: Set<u32>, m: nat)
    requires
        phis_match(p),
    ensures
        phis_match(p.without_dead_upto(ret, live, m)),
    decreases m,
{
    if m > 0 {
        lemma_without_dead_matches(p, ret, live, (m - 1) as nat);
        lemma_remove_block_matches(p.without_dead_upto(ret, live, (m - 1) as nat), (m - 1) as u32);
    }
}

/// The phi nodes that stay phi nodes were phi nodes before.
pub proof fn lemma_kept_phis(phis: Seq<PhiView>, preds: Seq<u32>)
    requires
        forall|i: int| 0 <= i < phis.len() ==> (#[trigger] phis[i]).keys() == preds,
    ensures
        forall|i: int|
            0 <= i < crate::inline::kept_phis(phis).len() ==> (#[trigger] crate::inline::kept_phis(
                phis,
            )[i]).keys() == preds,
    decreases phis.len(),
{
    if phis.len() > 0 {
        assert forall|i: int| 0 <= i < phis.drop_last().len() implies (
        #[trigger] phis.drop_last()[i]).keys() == preds by {
            assert(phis.drop_last()[i] == phis[i]);
        }
        lemma_kept_phis(phis.drop_last(), preds);
        assert(phis.last() == phis[phis.len() - 1]);
        let kept = crate::inline::kept_phis(phis);
        let before = crate::inline::kept_phis(phis.drop_last());
        assert forall|i: int| 0 <= i < kept.len() implies (#[trigger] kept[i]).keys() == preds by {
            if i < before.len() {
                assert(kept[i] == before[i]);
            } else {
                assert(kept[i] == phis.last());
            }
        }
    }
}

/// Making copies of phi nodes with one entry keeps the law.
pub proof fn lemma_demote_matches(p: ProgramView)
    requires
        phis_match(p),
    ensures
        phis_match(p.demote_phis()),
{
    let q = p.demote_phis();
    assert forall|c: u32| q.nodes.contains(c) && c < q.blocks.len() implies block_phis_match(
        #[trigger] q.blocks[c as int],
        q.predecessors(c),
    ) by {
        assert(block_phis_match(p.blocks[c as int], p.predecessors(c)));
        lemma_kept_phis(p.blocks[c as int].phi_nodes, p.predecessors(c));
    }
}

/// Whether `q` has the blocks and edges of `p`, and in each block its phi
/// nodes.
pub open spec fn same_phis(p: ProgramView, q: ProgramView) -> bool {
    &&& q.nodes == p.nodes
    &&& q.arcs == p.arcs
    &&& q.blocks.len() == p.blocks.len()
    &&& forall|n: int|
        0 <= n < p.blocks.len() ==> (#[trigger] q.blocks[n]).phi_nodes == p.blocks[n].phi_nodes
}

/// A program with the same phi nodes, blocks and edges keeps the law.
pub proof fn lemma_same_phis_match(p: ProgramView, q: ProgramView)
    requires
        phis_match(p),
        same_phis(p, q),
    ensures
        phis_match(q),
{
    assert forall|c: u32| q.nodes.contains(c) && c < q.blocks.len() implies block_phis_match(
        #[trigger] q.blocks[c as int],
        q.predecessors(c),
    ) by {
        assert(block_phis_match(p.blocks[c as int], p.predecessors(c)));
        assert(q.blocks[c as int].phi_nodes == p.blocks[c as int].phi_nodes);
    }
}

/// Every pass keeps the law.
pub proof fn lemma_pass_matches(
    pass: crate::driver::OptimizerPass,
    p: ProgramView,
    ret: u32,
    dim: crate::program::CubeDim,
)
    requires
        phis_match(p),
    ensures
        phis_match(pass.post_ssa(p, ret, dim).0),
        phis_match(pass.pre_ssa(p).0),
{
    lemma_same_phis_match(p, pass.pre_ssa(p).0);
    match pass {
        OptimizerPass::CompositeMerge => {},
        OptimizerPass::InlineAssignments => {
            lemma_demote_matches(p);
            let stage1 = p.demote_phis();
            lemma_same_phis_match(stage1, stage1.substitute_copies());
            lemma_same_phis_match(stage1.substitute_copies(), stage1.substitute_copies().eliminate_unused(true));
        },
        OptimizerPass::EliminateUnusedVariables => {
            lemma_same_phis_match(p, p.eliminate_unused(false));
        },
        OptimizerPass::ConstOperandSimplify => {
            lemma_same_phis_match(p, p.rewrite(Rule::ConstOperandSimplify, dim));
        },
        OptimizerPass::MergeSameExpressions => {
            lemma_same_phis_match(p, p.rewrite(Rule::MergeSameExpressions, dim));
        },
        OptimizerPass::ConstEval => {
            lemma_same_phis_match(p, p.rewrite(Rule::ConstEval, dim));
        },
        OptimizerPass::RemoveIndexScalar => {
            lemma_same_phis_match(p, p.rewrite(Rule::RemoveIndexScalar, dim));
        },
        OptimizerPass::EliminateConstBranches => {
            lemma_decide_upto_matches(p, p.blocks.len());
        },
        OptimizerPass::EliminateDeadBlocks => {
            lemma_without_dead_matches(
                p,
                ret,
                crate::dead_blocks::reachable_blocks(p),
                p.blocks.len(),
            );
        },
        OptimizerPass::CopyTransform => {
            lemma_same_phis_match(p, p.rewrite(Rule::CopyTransform, dim));
        },
        OptimizerPass::IntegerRangeAnalysis => {
            lemma_same_phis_match(p, p.analyze_ranges(dim));
        },
        OptimizerPass::FindConstSliceLen => {
            lemma_same_phis_match(p, p.find_const_slice_len());
        },
        OptimizerPass::InBoundsToUnchecked => {
            lemma_same_phis_match(p, p.rewrite(Rule::InBoundsToUnchecked, dim));
        },
        OptimizerPass::CopyPropagateArray => {
            lemma_same_phis_match(p, p.copy_propagate_array());
        },
    }
}

/// A round of passes keeps the law.
pub proof fn lemma_round_matches(
    p: ProgramView,
    ret: u32,
    dim: crate::program::CubeDim,
    passes: Seq<crate::driver::OptimizerPass>,
)
    requires
        phis_match(p),
    ensures
        phis_match(crate::driver::post_ssa_round(p, ret, dim, passes).0),
    decreases passes.len(),
{
    if passes.len() > 0 {
        lemma_round_matches(p, ret, dim, passes.drop_last());
        lemma_pass_matches(
            passes.last(),
            crate::driver::post_ssa_round(p, ret, dim, passes.drop_last()).0,
            ret,
            dim,
        );
    }
}

/// The loops of passes keep the law.
pub proof fn lemma_loops_match(
    p: ProgramView,
    ret: u32,
    dim: crate::program::CubeDim,
    passes: Seq<crate::driver::OptimizerPass>,
    fuel: nat,
)
    requires
        phis_match(p),
    ensures
        phis_match(crate::driver::post_ssa_loop(p, ret, dim, passes, fuel).0),
        phis_match(crate::driver::pre_ssa_loop(p, fuel).0),
    decreases fuel,
{
    if fuel > 0 {
        lemma_round_matches(p, ret, dim, passes);
        lemma_loops_match(
            crate::driver::post_ssa_round(p, ret, dim, passes).0,
            ret,
            dim,
            passes,
            (fuel - 1) as nat,
        );
        lemma_pass_matches(crate::driver::OptimizerPass::CompositeMerge, p, ret, dim);
        lemma_loops_match(
            crate::driver::OptimizerPass::CompositeMerge.pre_ssa(p).0,
            ret,
            dim,
            passes,
            (fuel - 1) as nat,
        );
    }
}

/// The whole optimization keeps the law: in the program that it hands out,
/// every phi node has one entry for each predecessor of its block.
pub proof fn lemma_optimize_matches(
    p: ProgramView,
    ret: u32,
    dim: crate::program::CubeDim,
    mode: crate::program::ExecutionMode,
)
    requires
        phis_match(p),
    ensures
        match crate::driver::optimize(p, ret, dim, mode) {
            Ok(q) => phis_match(q),
            Err(_) => true,
        },
{
    let stage1 = p.with_liveness();
    lemma_same_phis_match(p, stage1);
    lemma_loops_match(stage1, ret, dim, post_ssa_passes(mode), ceiling(stage1));
    let stage2 = pre_ssa_loop(stage1, ceiling(stage1)).0;
    let p2x = stage2.exempt_index_assign_locals();
    lemma_same_phis_match(stage2, p2x);
    lemma_ssa_phis_match(p2x);
    match p2x.ssa_transform() {
        Ok(stage3) => {
            lemma_loops_match(stage3, ret, dim, post_ssa_passes(mode), ceiling(stage3));
            let stage4 = post_ssa_loop(stage3, ret, dim, post_ssa_passes(mode), ceiling(stage3)).0;
            lemma_pass_matches(OptimizerPass::CopyPropagateArray, stage4, ret, dim);
            let stage5 = OptimizerPass::CopyPropagateArray.post_ssa(stage4, ret, dim).0;
            let p5l = stage5.with_liveness();
            lemma_same_phis_match(stage5, p5l);
            lemma_ssa_phis_match(p5l);
            match p5l.ssa_transform() {
                Ok(stage6) => {
                    lemma_loops_match(stage6, ret, dim, post_ssa_passes(mode), ceiling(stage6));
                },
                Err(_) => {},
            }
        },
        Err(_) => {},
    }
}

} // verus!
