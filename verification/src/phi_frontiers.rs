//! Dominance frontiers, and the placement of phi nodes on them.

use crate::block::{phi_views, BasicBlock, BlockView, PhiInstruction, PhiView};
use crate::closure::{adjacency, close, flagged, reached};
use crate::graph::{immediate_dominator, predecessors_of, NodeId};
use crate::ir::{Item, VarKey, Variable};
use crate::program::{Program, ProgramView};
use crate::varmap::{add_key, add_node, has_key};
use vstd::prelude::*;

verus! {

/// The immediate dominator of each block.
pub open spec fn idoms_of(p: ProgramView) -> Seq<Option<u32>> {
    Seq::new(p.blocks.len(), |n: int| immediate_dominator(p.arcs, p.root, n as u32))
}

/// The blocks that a walk up the dominator tree passes: from `from` on, as
/// long as the block is not `stop`, for at most `fuel` blocks.
pub open spec fn walk_up(idom: Seq<Option<u32>>, from: u32, stop: Option<u32>, fuel: nat) -> Set<
    u32,
>
    decreases fuel,
{
    if fuel == 0 || stop == Some(from) || from >= idom.len() {
        Set::empty()
    } else {
        match idom[from as int] {
            Some(up) => walk_up(idom, up, stop, (fuel - 1) as nat).insert(from),
            None => set![from],
        }
    }
}

/// The blocks that the walks from all of `preds` pass.
pub open spec fn walked(idom: Seq<Option<u32>>, preds: Seq<u32>, stop: Option<u32>) -> Set<u32>
    decreases preds.len(),
{
    if preds.len() == 0 {
        Set::empty()
    } else {
        walked(idom, preds.drop_last(), stop).union(
            walk_up(idom, preds.last(), stop, idom.len()),
        )
    }
}

/// Whether `b` is in the dominance frontier of `a`: `b` has two
/// predecessors or more, and the walk from one of them up the dominator
/// tree, until the immediate dominator of `b` is met, passes `a`.
pub open spec fn in_frontier(p: ProgramView, a: u32, b: u32) -> bool {
    &&& b < p.blocks.len()
    &&& p.predecessors(b).len() >= 2
    &&& walked(idoms_of(p), p.predecessors(b), idoms_of(p)[b as int]).contains(a)
}

/// The dominance frontier of `a`.
pub open spec fn frontier(p: ProgramView, a: u32) -> Set<u32> {
    Set::new(|b: u32| in_frontier(p, a, b))
}

/// Block `a` with the part of its frontier noted that lies below `m`, and
/// with `b` if `a` is in `extra`.
pub open spec fn partial_frontier(p: ProgramView, a: int, m: int, extra: Set<u32>, b: u32) -> BlockView {
    BlockView {
        dom_frontiers: Set::new(
            |x: u32| (x < m && in_frontier(p, a as u32, x)) || (x == b && extra.contains(a as u32)),
        ),
        ..p.blocks[a]
    }
}

impl ProgramView {
    /// The program with the dominance frontier noted at each block.
    pub open spec fn with_frontiers(self) -> ProgramView {
        ProgramView {
            blocks: Seq::new(
                self.blocks.len(),
                |a: int| BlockView { dom_frontiers: frontier(self, a as u32), ..self.blocks[a] },
            ),
            ..self
        }
    }
}

/// The blocks that a walk up the dominator tree passes, from `from` until
/// `stop` is met.
pub fn walk(idoms: &Vec<Option<u32>>, from: u32, stop: Option<u32>) -> (passed: Vec<u32>)
    ensures
        passed@.to_set() == walk_up(idoms@, from, stop, idoms@.len() as nat),
        forall|i: int| 0 <= i < passed@.len() ==> #[trigger] passed@[i] < idoms@.len(),
{
    let n = idoms.len();
    let mut passed: Vec<u32> = Vec::new();
    let mut runner = from;
    let mut fuel = n;
    assert(passed@.to_set().union(walk_up(idoms@, runner, stop, fuel as nat)) =~= walk_up(
        idoms@,
        from,
        stop,
        n as nat,
    ));
    loop
        invariant
            n == idoms@.len(),
            fuel <= n,
            passed@.to_set().union(walk_up(idoms@, runner, stop, fuel as nat)) == walk_up(
                idoms@,
                from,
                stop,
                n as nat,
            ),
            forall|i: int| 0 <= i < passed@.len() ==> #[trigger] passed@[i] < n,
        ensures
            passed@.to_set() == walk_up(idoms@, from, stop, n as nat),
            forall|i: int| 0 <= i < passed@.len() ==> #[trigger] passed@[i] < n,
        decreases fuel,
    {
        let at_stop = match stop {
            Some(s) => s == runner,
            None => false,
        };
        if fuel == 0 || at_stop || runner as usize >= n {
            assert(walk_up(idoms@, runner, stop, fuel as nat) =~= Set::<u32>::empty());
            assert(passed@.to_set().union(Set::<u32>::empty()) =~= passed@.to_set());
            break;
        }
        let ghost before = passed@;
        let ghost rest = walk_up(idoms@, runner, stop, fuel as nat);
        passed.push(runner);
        proof {
            before.lemma_push_to_set_commute(runner);
        }
        match idoms[runner as usize] {
            Some(up) => {
                proof {
                    assert(rest == walk_up(idoms@, up, stop, (fuel - 1) as nat).insert(runner));
                    assert(passed@.to_set().union(
                        walk_up(idoms@, up, stop, (fuel - 1) as nat),
                    ) =~= before.to_set().union(rest));
                }
                runner = up;
                fuel = fuel - 1;
            },
            None => {
                proof {
                    assert(rest == set![runner]);
                    assert(passed@.to_set().union(
                        walk_up(idoms@, runner, stop, 0),
                    ) =~= before.to_set().union(rest));
                }
                fuel = 0;
            },
        }
    }
    passed
}

/// The blocks that the walks from all of `preds` pass.
pub fn walk_all(idoms: &Vec<Option<u32>>, preds: &Vec<u32>, stop: Option<u32>) -> (passed: Vec<
    u32,
>)
    ensures
        passed@.to_set() == walked(idoms@, preds@, stop),
        forall|i: int| 0 <= i < passed@.len() ==> #[trigger] passed@[i] < idoms@.len(),
{
    let mut passed: Vec<u32> = Vec::new();
    let mut j: usize = 0;
    assert(passed@.to_set() =~= walked(idoms@, preds@.take(0), stop));
    while j < preds.len()
        invariant
            j <= preds.len(),
            passed@.to_set() == walked(idoms@, preds@.take(j as int), stop),
            forall|i: int| 0 <= i < passed@.len() ==> #[trigger] passed@[i] < idoms@.len(),
        decreases preds.len() - j,
    {
        let one = walk(idoms, preds[j], stop);
        let ghost start = passed@.to_set();
        let mut t: usize = 0;
        assert(passed@.to_set() =~= start.union(one@.take(0).to_set()));
        while t < one.len()
            invariant
                t <= one.len(),
                passed@.to_set() == start.union(one@.take(t as int).to_set()),
                forall|i: int| 0 <= i < passed@.len() ==> #[trigger] passed@[i] < idoms@.len(),
                forall|i: int| 0 <= i < one@.len() ==> #[trigger] one@[i] < idoms@.len(),
            decreases one.len() - t,
        {
            proof {
                one@.take(t as int).lemma_push_to_set_commute(one@[t as int]);
                assert(one@.take(t + 1) =~= one@.take(t as int).push(one@[t as int]));
            }
            let ghost before = passed@;
            let added = add_node(&mut passed, one[t]);
            proof {
                assert(passed@.to_set() =~= start.union(one@.take(t + 1).to_set()));
                assert forall|i: int| 0 <= i < passed@.len() implies #[trigger] passed@[i]
                    < idoms@.len() by {
                    if i < before.len() {
                        assert(passed@[i] == before[i]);
                    }
                }
            }
            t += 1;
        }
        proof {
            assert(one@.take(t as int) =~= one@);
            assert(preds@.take(j + 1).drop_last() =~= preds@.take(j as int));
            assert(preds@.take(j + 1).last() == preds@[j as int]);
        }
        j += 1;
    }
    assert(preds@.take(j as int) =~= preds@);
    passed
}

impl Program {
    /// Notes at each block its dominance frontier.
    pub fn fill_dom_frontiers(&mut self)
        requires
            old(self).wf(),
            old(self)@.nodes.contains(old(self)@.root),
        ensures
            final(self).wf(),
            final(self)@ == old(self)@.with_frontiers(),
    {
        let ghost p0 = self@;
        proof {
            self.lemma_view_wf();
        }
        let idoms = self.graph.immediate_dominators(self.root);
        assert(idoms@ =~= idoms_of(p0));
        let n = self.blocks.len();
        let mut a: usize = 0;
        while a < n
            invariant
                a <= n,
                n == self.blocks@.len(),
                n == p0.blocks.len(),
                self.graph == old(self).graph,
                self.variables == old(self).variables,
                self.slices == old(self).slices,
                self.root == old(self).root,
                self.int_ranges == old(self).int_ranges,
                forall|j: int|
                    0 <= j < a ==> (#[trigger] self.blocks@[j])@ == partial_frontier(
                        p0,
                        j,
                        0,
                        Set::empty(),
                        0,
                    ),
                forall|j: int| a <= j < n ==> (#[trigger] self.blocks@[j])@ == p0.blocks[j],
            decreases n - a,
        {
            let block = &mut self.blocks[a];
            block.dom_frontiers = Vec::new();
            proof {
                assert(self.blocks@[a as int]@.dom_frontiers =~= partial_frontier(
                    p0,
                    a as int,
                    0,
                    Set::empty(),
                    0,
                ).dom_frontiers);
            }
            a += 1;
        }
        let mut b: usize = 0;
        while b < n
            invariant
                b <= n,
                n == self.blocks@.len(),
                n == p0.blocks.len(),
                n <= u32::MAX,
                p0 == old(self)@,
                idoms@ == idoms_of(p0),
                self.graph == old(self).graph,
                self.variables == old(self).variables,
                self.slices == old(self).slices,
                self.root == old(self).root,
                self.int_ranges == old(self).int_ranges,
                forall|j: int|
                    0 <= j < n ==> (#[trigger] self.blocks@[j])@ == partial_frontier(
                        p0,
                        j,
                        b as int,
                        Set::empty(),
                        0,
                    ),
            decreases n - b,
        {
            let preds = self.predecessors(b as u32);
            if preds.len() >= 2 {
                let touched = walk_all(&idoms, &preds, idoms[b]);
                let mut t: usize = 0;
                proof {
                    assert(touched@.take(0).to_set() =~= Set::<u32>::empty());
                    assert forall|j: int| 0 <= j < n implies (#[trigger] self.blocks@[j])@
                        == partial_frontier(p0, j, b as int, touched@.take(0).to_set(), b as u32) by {
                        assert(partial_frontier(p0, j, b as int, Set::empty(), 0).dom_frontiers
                            =~= partial_frontier(
                            p0,
                            j,
                            b as int,
                            touched@.take(0).to_set(),
                            b as u32,
                        ).dom_frontiers);
                    }
                }
                while t < touched.len()
                    invariant
                        t <= touched.len(),
                        b < n,
                        n == self.blocks@.len(),
                        n == p0.blocks.len(),
                        n <= u32::MAX,
                        self.graph == old(self).graph,
                        self.variables == old(self).variables,
                        self.slices == old(self).slices,
                        self.root == old(self).root,
                        self.int_ranges == old(self).int_ranges,
                        forall|i: int| 0 <= i < touched@.len() ==> #[trigger] touched@[i] < n,
                        forall|j: int|
                            0 <= j < n ==> (#[trigger] self.blocks@[j])@ == partial_frontier(
                                p0,
                                j,
                                b as int,
                                touched@.take(t as int).to_set(),
                                b as u32,
                            ),
                    decreases touched.len() - t,
                {
                    let target = touched[t] as usize;
                    proof {
                        touched@.take(t as int).lemma_push_to_set_commute(touched@[t as int]);
                        assert(touched@.take(t + 1) =~= touched@.take(t as int).push(
                            touched@[t as int],
                        ));
                    }
                    let block = &mut self.blocks[target];
                    add_node(&mut block.dom_frontiers, b as u32);
                    proof {
                        assert forall|j: int| 0 <= j < n implies (#[trigger] self.blocks@[j])@
                            == partial_frontier(
                            p0,
                            j,
                            b as int,
                            touched@.take(t + 1).to_set(),
                            b as u32,
                        ) by {
                            assert(self.blocks@[j]@.dom_frontiers =~= partial_frontier(
                                p0,
                                j,
                                b as int,
                                touched@.take(t + 1).to_set(),
                                b as u32,
                            ).dom_frontiers);
                        }
                    }
                    t += 1;
                }
                proof {
                    assert(touched@.take(t as int) =~= touched@);
                }
                proof {
                    assert forall|j: int| 0 <= j < n implies (#[trigger] self.blocks@[j])@
                        == partial_frontier(p0, j, b + 1, Set::empty(), 0) by {
                        assert(self.blocks@[j]@.dom_frontiers =~= partial_frontier(
                            p0,
                            j,
                            b + 1,
                            Set::empty(),
                            0,
                        ).dom_frontiers);
                    }
                }
            } else {
                proof {
                    assert forall|j: int| 0 <= j < n implies (#[trigger] self.blocks@[j])@
                        == partial_frontier(p0, j, b + 1, Set::empty(), 0) by {
                        assert(self.blocks@[j]@.dom_frontiers =~= partial_frontier(
                            p0,
                            j,
                            b + 1,
                            Set::empty(),
                            0,
                        ).dom_frontiers);
                    }
                }
            }
            b += 1;
        }
        proof {
            assert forall|j: int| 0 <= j < n implies (#[trigger] self@.blocks[j])
                == p0.with_frontiers().blocks[j] by {
                assert(self.blocks@[j]@ == partial_frontier(p0, j, n as int, Set::empty(), 0));
                assert(self.blocks@[j]@.dom_frontiers =~= frontier(p0, j as u32));
            }
            assert(self@.blocks =~= p0.with_frontiers().blocks);
        }
    }
}

/// For each block its dominance frontier as it is noted there.
pub open spec fn frontier_sets(p: ProgramView) -> Seq<Set<u32>> {
    Seq::new(p.blocks.len(), |a: int| p.blocks[a].dom_frontiers)
}

/// The blocks that assign the local `k`.
pub open spec fn def_blocks(p: ProgramView, k: VarKey) -> Set<u32> {
    Set::new(|b: u32| b < p.blocks.len() && p.blocks[b as int].writes.contains(k))
}

/// The blocks at whose entry the local `k` is live.
pub open spec fn live_at(p: ProgramView, k: VarKey) -> Set<u32> {
    Set::new(|b: u32| b < p.blocks.len() && p.blocks[b as int].live_vars.contains(k))
}

/// The blocks that need a phi node for the local `k`: the least set that
/// holds every block where `k` is live and that lies in the dominance
/// frontier of a block that assigns `k` or of a block of the set.
pub open spec fn phi_blocks(p: ProgramView, k: VarKey) -> Set<u32> {
    reached(frontier_sets(p), def_blocks(p, k), live_at(p, k))
}

/// The local with name `k` and type `item`.
pub open spec fn local(k: VarKey, item: Item) -> Variable {
    Variable::Local { id: k.0, depth: k.1, item }
}

/// A new phi node for the local `k` in block `f`: it writes the local and
/// takes it from each predecessor of the block.
pub open spec fn new_phi(p: ProgramView, f: u32, k: VarKey, item: Item) -> PhiView {
    PhiView {
        out: local(k, item),
        entries: Seq::new(
            p.predecessors(f).len(),
            |i: int| (p.predecessors(f)[i], local(k, item)),
        ),
    }
}

/// Block `f` with a new phi node for the local `k` behind its phi nodes;
/// the block now assigns `k`.
pub open spec fn phi_block(p: ProgramView, f: int, k: VarKey, item: Item) -> BlockView {
    BlockView {
        phi_nodes: p.blocks[f].phi_nodes.push(new_phi(p, f as u32, k, item)),
        writes: p.blocks[f].writes.insert(k),
        ..p.blocks[f]
    }
}

impl ProgramView {
    /// The program with a phi node for the local `k` in block `f`.
    pub open spec fn insert_phi(self, f: u32, k: VarKey, item: Item) -> ProgramView {
        self.with_block(f, phi_block(self, f as int, k, item))
    }

    /// The program with the phi nodes for the local `k`: one in each block
    /// that needs one.
    pub open spec fn place_for(self, k: VarKey, item: Item) -> ProgramView {
        ProgramView {
            blocks: Seq::new(
                self.blocks.len(),
                |f: int|
                    if phi_blocks(self, k).contains(f as u32) {
                        phi_block(self, f, k, item)
                    } else {
                        self.blocks[f]
                    },
            ),
            ..self
        }
    }

    /// The program with the phi nodes for the locals `vars`, placed in
    /// their order.
    pub open spec fn place_all(self, vars: Seq<(VarKey, Item)>) -> ProgramView
        decreases vars.len(),
    {
        if vars.len() == 0 {
            self
        } else {
            self.place_all(vars.drop_last()).place_for(vars.last().0, vars.last().1)
        }
    }

    /// The program with the phi nodes for all its variables.
    pub open spec fn with_phis(self) -> ProgramView {
        self.place_all(self.variables)
    }
}

/// Placing phi nodes changes the blocks only; their number stays.
pub proof fn lemma_place_all_frame(p: ProgramView, vars: Seq<(VarKey, Item)>)
    ensures
        p.place_all(vars).blocks.len() == p.blocks.len(),
        p.place_all(vars) == (ProgramView { blocks: p.place_all(vars).blocks, ..p }),
        frontier_sets(p.place_all(vars)) == frontier_sets(p),
    decreases vars.len(),
{
    if vars.len() > 0 {
        lemma_place_all_frame(p, vars.drop_last());
        assert(frontier_sets(p.place_all(vars)) =~= frontier_sets(p));
    } else {
        assert(frontier_sets(p.place_all(vars)) =~= frontier_sets(p));
    }
}

impl Program {
    /// Puts a phi node for the local `k` behind the phi nodes of block `f`.
    pub fn insert_phi(&mut self, f: NodeId, k: VarKey, item: Item)
        requires
            old(self).wf(),
            f < old(self)@.blocks.len(),
        ensures
            final(self).wf(),
            final(self)@ == old(self)@.insert_phi(f, k, item),
    {
        let var = Variable::Local { id: k.0, depth: k.1, item };
        let preds = self.predecessors(f);
        let mut entries: Vec<(NodeId, Variable)> = Vec::new();
        let mut i: usize = 0;
        while i < preds.len()
            invariant
                i <= preds.len(),
                entries@.len() == i,
                forall|j: int| 0 <= j < i ==> #[trigger] entries@[j] == (preds@[j], var),
            decreases preds.len() - i,
        {
            entries.push((preds[i], var));
            i += 1;
        }
        let phi = PhiInstruction { out: var, entries };
        proof {
            assert(phi@.entries =~= new_phi(old(self)@, f, k, item).entries);
        }
        let ghost view = phi@;
        let block = &mut self.blocks[f as usize];
        block.phi_nodes.push(phi);
        add_key(&mut block.writes, k);
        proof {
            let before = old(self).blocks@[f as int];
            let after = self.blocks@[f as int];
            assert(phi_views(after.phi_nodes@) =~= phi_views(before.phi_nodes@).push(view));
            assert(self@.blocks =~= old(self)@.insert_phi(f, k, item).blocks);
        }
    }

    /// For each block a copy of its dominance frontier.
    pub fn frontier_lists(&self) -> (lists: Vec<Vec<u32>>)
        ensures
            adjacency(lists@) == frontier_sets(self@),
            lists@.len() == self@.blocks.len(),
    {
        let n = self.blocks.len();
        let mut lists: Vec<Vec<u32>> = Vec::new();
        let mut a: usize = 0;
        while a < n
            invariant
                a <= n,
                n == self.blocks@.len(),
                lists@.len() == a,
                forall|i: int|
                    0 <= i < a ==> (#[trigger] lists@[i])@ == self.blocks@[i].dom_frontiers@,
            decreases n - a,
        {
            let from = &self.blocks[a].dom_frontiers;
            let mut list: Vec<u32> = Vec::new();
            let mut j: usize = 0;
            while j < from.len()
                invariant
                    j <= from.len(),
                    list@ == from@.take(j as int),
                decreases from.len() - j,
            {
                list.push(from[j]);
                proof {
                    assert(from@.take(j + 1) =~= from@.take(j as int).push(from@[j as int]));
                }
                j += 1;
            }
            proof {
                assert(from@.take(j as int) =~= from@);
            }
            lists.push(list);
            a += 1;
        }
        assert(adjacency(lists@) =~= frontier_sets(self@));
        lists
    }

    /// The blocks that need a phi node for the local `k`.
    pub fn find_phi_blocks(&self, fronts: &Vec<Vec<u32>>, k: VarKey) -> (marks: Vec<bool>)
        requires
            adjacency(fronts@) == frontier_sets(self@),
            fronts@.len() == self@.blocks.len(),
            self@.blocks.len() <= u32::MAX,
        ensures
            marks@.len() == self@.blocks.len(),
            flagged(marks@) == phi_blocks(self@, k),
    {
        let n = self.blocks.len();
        let mut seeds: Vec<u32> = Vec::new();
        let mut allowed: Vec<bool> = Vec::new();
        let mut b: usize = 0;
        while b < n
            invariant
                b <= n,
                n == self.blocks@.len(),
                n <= u32::MAX,
                allowed@.len() == b,
                forall|u: u32|
                    seeds@.to_set().contains(u) <==> u < b && def_blocks(self@, k).contains(u),
                forall|i: int|
                    0 <= i < b ==> (#[trigger] allowed@[i] <==> live_at(self@, k).contains(
                        i as u32,
                    )),
            decreases n - b,
        {
            let ghost before = seeds@;
            if has_key(&self.blocks[b].writes, k) {
                seeds.push(b as u32);
                proof {
                    before.lemma_push_to_set_commute(b as u32);
                }
            }
            allowed.push(has_key(&self.blocks[b].live_vars, k));
            b += 1;
        }
        proof {
            assert(seeds@.to_set() =~= def_blocks(self@, k));
            assert(flagged(allowed@) =~= live_at(self@, k));
        }
        close(fronts, &seeds, &allowed)
    }

    /// Puts a phi node for the local `k` into each block that needs one.
    pub fn place_phi_for(&mut self, fronts: &Vec<Vec<u32>>, k: VarKey, item: Item)
        requires
            old(self).wf(),
            adjacency(fronts@) == frontier_sets(old(self)@),
            fronts@.len() == old(self)@.blocks.len(),
        ensures
            final(self).wf(),
            final(self)@ == old(self)@.place_for(k, item),
    {
        let ghost p0 = self@;
        proof {
            self.lemma_view_wf();
        }
        let marks = self.find_phi_blocks(fronts, k);
        let n = self.blocks.len();
        let mut f: usize = 0;
        while f < n
            invariant
                f <= n,
                n == self.blocks@.len(),
                n == p0.blocks.len(),
                n <= u32::MAX,
                marks@.len() == n,
                self.wf(),
                p0 == old(self)@,
                flagged(marks@) == phi_blocks(p0, k),
                self@ == (ProgramView { blocks: self@.blocks, ..p0 }),
                forall|j: int|
                    0 <= j < f ==> (#[trigger] self@.blocks[j]) == p0.place_for(k, item).blocks[j],
                forall|j: int| f <= j < n ==> (#[trigger] self@.blocks[j]) == p0.blocks[j],
            decreases n - f,
        {
            proof {
                assert(marks@[f as int] <==> flagged(marks@).contains(f as u32));
            }
            if marks[f] {
                let ghost before = self@;
                self.insert_phi(f as u32, k, item);
                proof {
                    assert(self@.blocks.len() == self.blocks@.len());
                    assert(before.blocks.len() == n);
                    assert(new_phi(before, f as u32, k, item) == new_phi(p0, f as u32, k, item));
                    assert(self@.blocks[f as int] == phi_block(p0, f as int, k, item));
                    assert forall|j: int| 0 <= j < f + 1 implies (#[trigger] self@.blocks[j])
                        == p0.place_for(k, item).blocks[j] by {
                        if j < f {
                            assert(self@.blocks[j] == before.blocks[j]);
                        }
                    }
                    assert forall|j: int| f + 1 <= j < n implies (#[trigger] self@.blocks[j])
                        == p0.blocks[j] by {
                        assert(self@.blocks[j] == before.blocks[j]);
                    }
                }
            }
            f += 1;
        }
        proof {
            assert(self@.blocks =~= p0.place_for(k, item).blocks);
        }
    }

    /// Puts the phi nodes for all variables of the program into the blocks
    /// that need them.
    pub fn place_phi_nodes(&mut self)
        requires
            old(self).wf(),
        ensures
            final(self).wf(),
            final(self)@ == old(self)@.with_phis(),
    {
        let ghost p0 = self@;
        let fronts = self.frontier_lists();
        let count = self.variables.len();
        let mut i: usize = 0;
        while i < count
            invariant
                i <= count,
                count == self.variables@.len(),
                self.variables@ == p0.variables,
                self.wf(),
                p0 == old(self)@,
                adjacency(fronts@) == frontier_sets(p0),
                fronts@.len() == p0.blocks.len(),
                self@ == p0.place_all(p0.variables.take(i as int)),
            decreases count - i,
        {
            let (k, item) = self.variables[i];
            proof {
                lemma_place_all_frame(p0, p0.variables.take(i as int));
                assert(p0.variables.take(i + 1).drop_last() =~= p0.variables.take(i as int));
                assert(p0.variables.take(i + 1).last() == p0.variables[i as int]);
            }
            self.place_phi_for(&fronts, k, item);
            i += 1;
        }
        proof {
            assert(p0.variables.take(i as int) =~= p0.variables);
        }
    }
}

} // verus!
