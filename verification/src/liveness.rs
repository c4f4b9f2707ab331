//! Liveness: which locals may still be read when control enters a block.

use crate::block::{BasicBlock, BlockView, ControlFlow};
use crate::closure::{adjacency, close, closed_under, flagged, reached};
use crate::graph::predecessors_of;
use crate::instruction::{instruction_views, Instruction, InstructionView};
use crate::ir::{VarKey, Variable};
use crate::program::{Program, ProgramView};
use crate::varmap::{add_key, has_key};
use vstd::prelude::*;

verus! {

/// The name of `v` as a set: one name if `v` is a local that gets versions,
/// else none.
pub open spec fn local_set(v: Variable) -> Set<VarKey> {
    match v.local_key() {
        Some(k) => set![k],
        None => Set::empty(),
    }
}

/// The locals among `args`.
pub open spec fn locals_of(args: Seq<Variable>) -> Set<VarKey>
    decreases args.len(),
{
    if args.len() == 0 {
        Set::empty()
    } else {
        locals_of(args.drop_last()).union(local_set(args.last()))
    }
}

/// The locals that `ops` assign.
pub open spec fn kill_of(ops: Seq<InstructionView>) -> Set<VarKey>
    decreases ops.len(),
{
    if ops.len() == 0 {
        Set::empty()
    } else {
        kill_of(ops.drop_last()).union(
            match ops.last().written_local() {
                Some(k) => set![k],
                None => Set::empty(),
            },
        )
    }
}

/// The locals that `ops` read before they assign them.
pub open spec fn gen_of(ops: Seq<InstructionView>) -> Set<VarKey>
    decreases ops.len(),
{
    if ops.len() == 0 {
        Set::empty()
    } else {
        gen_of(ops.drop_last()).union(
            locals_of(ops.last().args).difference(kill_of(ops.drop_last())),
        )
    }
}

/// The locals that a block assigns.
pub open spec fn block_kill(b: BlockView) -> Set<VarKey> {
    kill_of(b.ops)
}

/// The locals that a block reads before it assigns them, in its
/// instructions or in its terminator.
pub open spec fn block_gen(b: BlockView) -> Set<VarKey> {
    gen_of(b.ops).union(
        match b.control_flow.condition() {
            Some(v) => local_set(v).difference(kill_of(b.ops)),
            None => Set::empty(),
        },
    )
}

/// For each block its predecessors.
pub open spec fn pred_edges(p: ProgramView) -> Seq<Set<u32>> {
    Seq::new(p.blocks.len(), |b: int| predecessors_of(p.arcs, b as u32).to_set())
}

/// The blocks that read `k` before they assign it.
pub open spec fn users(p: ProgramView, k: VarKey) -> Set<u32> {
    Set::new(|b: u32| b < p.blocks.len() && block_gen(p.blocks[b as int]).contains(k))
}

/// The blocks that do not assign `k`.
pub open spec fn passing(p: ProgramView, k: VarKey) -> Set<u32> {
    Set::new(|b: u32| b < p.blocks.len() && !block_kill(p.blocks[b as int]).contains(k))
}

/// The locals that are live at the entry of block `b`: `k` is live there if
/// `b` reads `k` before it assigns it, or if a path leads from `b` to a
/// block that does, through blocks that do not assign `k`.
pub open spec fn live_in(p: ProgramView, b: u32) -> Set<VarKey> {
    Set::new(
        |k: VarKey|
            users(p, k).contains(b) || reached(pred_edges(p), users(p, k), passing(p, k)).contains(
                b,
            ),
    )
}

impl ProgramView {
    /// The program with the live locals noted at each block.
    pub open spec fn with_liveness(self) -> ProgramView {
        ProgramView {
            blocks: Seq::new(
                self.blocks.len(),
                |b: int| BlockView { live_vars: live_in(self, b as u32), ..self.blocks[b] },
            ),
            ..self
        }
    }
}

/// Puts the locals among `args` that are not in `skip` into `into`.
pub fn add_locals(args: &Vec<Variable>, skip: &Vec<VarKey>, into: &mut Vec<VarKey>)
    ensures
        final(into)@.to_set() == old(into)@.to_set().union(
            locals_of(args@).difference(skip@.to_set()),
        ),
{
    let mut j: usize = 0;
    assert(locals_of(args@.take(0)) =~= Set::<VarKey>::empty());
    assert(into@.to_set() =~= old(into)@.to_set().union(
        locals_of(args@.take(0)).difference(skip@.to_set()),
    ));
    while j < args.len()
        invariant
            j <= args.len(),
            into@.to_set() == old(into)@.to_set().union(
                locals_of(args@.take(j as int)).difference(skip@.to_set()),
            ),
        decreases args.len() - j,
    {
        let ghost before = into@.to_set();
        proof {
            assert(args@.take(j + 1).drop_last() =~= args@.take(j as int));
            assert(args@.take(j + 1).last() == args@[j as int]);
        }
        match args[j].as_local() {
            Some(k) => {
                if !has_key(skip, k) {
                    add_key(into, k);
                }
            },
            None => {},
        }
        proof {
            assert(into@.to_set() =~= old(into)@.to_set().union(
                locals_of(args@.take(j + 1)).difference(skip@.to_set()),
            ));
        }
        j += 1;
    }
    assert(args@.take(j as int) =~= args@);
}

/// The locals that a block reads before it assigns them, and the locals
/// that it assigns.
pub fn scan_block(block: &BasicBlock) -> (sets: (Vec<VarKey>, Vec<VarKey>))
    ensures
        sets.0@.to_set() == block_gen(block@),
        sets.1@.to_set() == block_kill(block@),
{
    let mut gen: Vec<VarKey> = Vec::new();
    let mut kill: Vec<VarKey> = Vec::new();
    let ghost views = instruction_views(block.ops@);
    let mut i: usize = 0;
    assert(gen@.to_set() =~= gen_of(views.take(0)));
    assert(kill@.to_set() =~= kill_of(views.take(0)));
    while i < block.ops.len()
        invariant
            i <= block.ops.len(),
            views == instruction_views(block.ops@),
            gen@.to_set() == gen_of(views.take(i as int)),
            kill@.to_set() == kill_of(views.take(i as int)),
        decreases block.ops.len() - i,
    {
        proof {
            assert(views.take(i + 1).drop_last() =~= views.take(i as int));
            assert(views.take(i + 1).last() == block.ops@[i as int]@);
        }
        let op = &block.ops[i];
        add_locals(&op.args, &kill, &mut gen);
        match op.out {
            Some(v) => match v.as_local() {
                Some(k) => {
                    add_key(&mut kill, k);
                },
                None => {},
            },
            None => {},
        }
        proof {
            assert(kill@.to_set() =~= kill_of(views.take(i + 1)));
        }
        i += 1;
    }
    assert(views.take(i as int) =~= views);
    let cond = match &block.control_flow {
        ControlFlow::IfElse { cond, .. } => Some(*cond),
        ControlFlow::Switch { value, .. } => Some(*value),
        ControlFlow::Break { cond, .. } => Some(*cond),
        _ => None,
    };
    assert(cond == block@.control_flow.condition());
    match cond {
        Some(v) => match v.as_local() {
            Some(k) => {
                if !has_key(&kill, k) {
                    add_key(&mut gen, k);
                }
            },
            None => {},
        },
        None => {},
    }
    assert(gen@.to_set() =~= block_gen(block@));
    (gen, kill)
}

/// A block with those of its live locals noted that are in `done`.
pub open spec fn partial_block(p: ProgramView, b: int, done: Set<VarKey>) -> BlockView {
    BlockView { live_vars: live_in(p, b as u32).intersect(done), ..p.blocks[b] }
}

/// A local that is live somewhere is read somewhere before it is assigned.
pub proof fn lemma_live_has_user(p: ProgramView, b: u32, k: VarKey)
    requires
        live_in(p, b).contains(k),
    ensures
        exists|u: u32| users(p, k).contains(u),
{
    if !users(p, k).contains(b) {
        let empty = Set::<u32>::empty();
        if forall|u: u32| !users(p, k).contains(u) {
            assert(closed_under(pred_edges(p), users(p, k), passing(p, k), empty));
            assert(empty.contains(b));
        }
    }
}

impl Program {
    /// For each block its predecessors.
    pub fn predecessor_lists(&self) -> (lists: Vec<Vec<u32>>)
        requires
            self.wf(),
        ensures
            adjacency(lists@) == pred_edges(self@),
            lists@.len() == self@.blocks.len(),
    {
        let n = self.blocks.len();
        let mut lists: Vec<Vec<u32>> = Vec::new();
        let mut b: usize = 0;
        while b < n
            invariant
                b <= n,
                n == self.blocks@.len(),
                n <= u32::MAX,
                lists@.len() == b,
                forall|i: int|
                    0 <= i < b ==> (#[trigger] lists@[i])@ == predecessors_of(
                        self@.arcs,
                        i as u32,
                    ),
            decreases n - b,
        {
            lists.push(self.predecessors(b as u32));
            b += 1;
        }
        assert(adjacency(lists@) =~= pred_edges(self@));
        lists
    }

    /// For each block the locals that it reads before it assigns them, and
    /// the locals that it assigns.
    pub fn scan_blocks(&self) -> (sets: (Vec<Vec<VarKey>>, Vec<Vec<VarKey>>))
        ensures
            sets.0@.len() == self@.blocks.len(),
            sets.1@.len() == self@.blocks.len(),
            forall|b: int|
                0 <= b < self@.blocks.len() ==> (#[trigger] sets.0@[b])@.to_set() == block_gen(
                    self@.blocks[b],
                ),
            forall|b: int|
                0 <= b < self@.blocks.len() ==> (#[trigger] sets.1@[b])@.to_set() == block_kill(
                    self@.blocks[b],
                ),
    {
        let n = self.blocks.len();
        let mut gens: Vec<Vec<VarKey>> = Vec::new();
        let mut kills: Vec<Vec<VarKey>> = Vec::new();
        let mut b: usize = 0;
        while b < n
            invariant
                b <= n,
                n == self.blocks@.len(),
                gens@.len() == b,
                kills@.len() == b,
                forall|i: int|
                    0 <= i < b ==> (#[trigger] gens@[i])@.to_set() == block_gen(self@.blocks[i]),
                forall|i: int|
                    0 <= i < b ==> (#[trigger] kills@[i])@.to_set() == block_kill(
                        self@.blocks[i],
                    ),
            decreases n - b,
        {
            let (gen, kill) = scan_block(&self.blocks[b]);
            gens.push(gen);
            kills.push(kill);
            b += 1;
        }
        (gens, kills)
    }
}

/// All names that stand in one of the lists.
pub open spec fn union_of(lists: Seq<Vec<VarKey>>) -> Set<VarKey>
    decreases lists.len(),
{
    if lists.len() == 0 {
        Set::empty()
    } else {
        union_of(lists.drop_last()).union(lists.last()@.to_set())
    }
}

/// A name that stands in one of the lists is in their union.
pub proof fn lemma_union_member(lists: Seq<Vec<VarKey>>, b: int, k: VarKey)
    requires
        0 <= b < lists.len(),
        lists[b]@.to_set().contains(k),
    ensures
        union_of(lists).contains(k),
    decreases lists.len(),
{
    if b < lists.len() - 1 {
        lemma_union_member(lists.drop_last(), b, k);
    }
}

/// All names that stand in one of the lists, each once.
pub fn gather_keys(lists: &Vec<Vec<VarKey>>) -> (keys: Vec<VarKey>)
    ensures
        keys@.to_set() == union_of(lists@),
{
    let mut keys: Vec<VarKey> = Vec::new();
    let mut b: usize = 0;
    assert(keys@.to_set() =~= union_of(lists@.take(0)));
    while b < lists.len()
        invariant
            b <= lists.len(),
            keys@.to_set() == union_of(lists@.take(b as int)),
        decreases lists.len() - b,
    {
        let list = &lists[b];
        let ghost start = keys@.to_set();
        let mut j: usize = 0;
        assert(keys@.to_set() =~= start.union(list@.take(0).to_set()));
        while j < list.len()
            invariant
                j <= list.len(),
                keys@.to_set() == start.union(list@.take(j as int).to_set()),
            decreases list.len() - j,
        {
            proof {
                list@.take(j as int).lemma_push_to_set_commute(list@[j as int]);
                assert(list@.take(j + 1) =~= list@.take(j as int).push(list@[j as int]));
            }
            add_key(&mut keys, list[j]);
            proof {
                assert(keys@.to_set() =~= start.union(list@.take(j + 1).to_set()));
            }
            j += 1;
        }
        proof {
            assert(list@.take(j as int) =~= list@);
            assert(lists@.take(b + 1).drop_last() =~= lists@.take(b as int));
            assert(lists@.take(b + 1).last() == lists@[b as int]);
        }
        b += 1;
    }
    assert(lists@.take(b as int) =~= lists@);
    keys
}

/// The blocks at whose entry `k` is live.
fn live_blocks(
    p: Ghost<ProgramView>,
    preds: &Vec<Vec<u32>>,
    gens: &Vec<Vec<VarKey>>,
    kills: &Vec<Vec<VarKey>>,
    k: VarKey,
) -> (marks: Vec<bool>)
    requires
        adjacency(preds@) == pred_edges(p@),
        preds@.len() == p@.blocks.len(),
        gens@.len() == p@.blocks.len(),
        kills@.len() == p@.blocks.len(),
        p@.blocks.len() <= u32::MAX,
        forall|b: int|
            0 <= b < p@.blocks.len() ==> (#[trigger] gens@[b])@.to_set() == block_gen(
                p@.blocks[b],
            ),
        forall|b: int|
            0 <= b < p@.blocks.len() ==> (#[trigger] kills@[b])@.to_set() == block_kill(
                p@.blocks[b],
            ),
    ensures
        marks@.len() == p@.blocks.len(),
        forall|b: int|
            0 <= b < p@.blocks.len() ==> (#[trigger] marks@[b] <==> live_in(p@, b as u32).contains(
                k,
            )),
{
    let n = preds.len();
    let mut seeds: Vec<u32> = Vec::new();
    let mut allowed: Vec<bool> = Vec::new();
    let mut b: usize = 0;
    while b < n
        invariant
            b <= n,
            n == p@.blocks.len(),
            n <= u32::MAX,
            gens@.len() == n,
            kills@.len() == n,
            allowed@.len() == b,
            forall|i: int|
                0 <= i < n ==> (#[trigger] gens@[i])@.to_set() == block_gen(p@.blocks[i]),
            forall|i: int|
                0 <= i < n ==> (#[trigger] kills@[i])@.to_set() == block_kill(p@.blocks[i]),
            forall|u: u32| seeds@.to_set().contains(u) <==> u < b && users(p@, k).contains(u),
            forall|i: int| 0 <= i < b ==> (#[trigger] allowed@[i] <==> passing(p@, k).contains(i as u32)),
        decreases n - b,
    {
        let ghost before = seeds@;
        if has_key(&gens[b], k) {
            seeds.push(b as u32);
            proof {
                before.lemma_push_to_set_commute(b as u32);
            }
        }
        allowed.push(!has_key(&kills[b], k));
        proof {
            assert(gens@[b as int]@.to_set() == block_gen(p@.blocks[b as int]));
            assert(kills@[b as int]@.to_set() == block_kill(p@.blocks[b as int]));
        }
        b += 1;
    }
    proof {
        assert(seeds@.to_set() =~= users(p@, k));
        assert(flagged(allowed@) =~= passing(p@, k));
    }
    let mut marks = close(preds, &seeds, &allowed);
    let ghost reach = flagged(marks@);
    let mut b: usize = 0;
    while b < n
        invariant
            b <= n,
            n == p@.blocks.len(),
            n <= u32::MAX,
            marks@.len() == n,
            gens@.len() == n,
            reach == reached(pred_edges(p@), users(p@, k), passing(p@, k)),
            forall|i: int|
                0 <= i < n ==> (#[trigger] gens@[i])@.to_set() == block_gen(p@.blocks[i]),
            forall|i: int|
                0 <= i < b ==> (#[trigger] marks@[i] <==> live_in(p@, i as u32).contains(k)),
            forall|i: int| b <= i < n ==> (#[trigger] marks@[i] <==> reach.contains(i as u32)),
        decreases n - b,
    {
        proof {
            assert(gens@[b as int]@.to_set() == block_gen(p@.blocks[b as int]));
        }
        if has_key(&gens[b], k) {
            marks.set(b, true);
        }
        b += 1;
    }
    marks
}

impl Program {
    /// Notes at each block the locals that are live at its entry.
    pub fn analyze_liveness(&mut self)
        requires
            old(self).wf(),
        ensures
            final(self).wf(),
            final(self)@ == old(self)@.with_liveness(),
    {
        let ghost p0 = self@;
        proof {
            self.lemma_view_wf();
        }
        let preds = self.predecessor_lists();
        let (gens, kills) = self.scan_blocks();
        let keys = gather_keys(&gens);
        let n = self.blocks.len();
        let mut b: usize = 0;
        while b < n
            invariant
                b <= n,
                n == self.blocks@.len(),
                n == p0.blocks.len(),
                self.graph == old(self).graph,
                self.variables == old(self).variables,
                self.slices == old(self).slices,
                self.root == old(self).root,
                self.int_ranges == old(self).int_ranges,
                forall|j: int|
                    0 <= j < b ==> (#[trigger] self.blocks@[j])@ == partial_block(
                        p0,
                        j,
                        Set::empty(),
                    ),
                forall|j: int| b <= j < n ==> (#[trigger] self.blocks@[j])@ == p0.blocks[j],
            decreases n - b,
        {
            let block = &mut self.blocks[b];
            block.live_vars = Vec::new();
            proof {
                assert(self.blocks@[b as int]@.live_vars =~= live_in(p0, b as u32).intersect(
                    Set::empty(),
                ));
            }
            b += 1;
        }
        let mut i: usize = 0;
        assert(keys@.take(0).to_set() =~= Set::<VarKey>::empty());
        while i < keys.len()
            invariant
                i <= keys.len(),
                n == self.blocks@.len(),
                n == p0.blocks.len(),
                n <= u32::MAX,
                p0 == old(self)@,
                self.graph == old(self).graph,
                self.variables == old(self).variables,
                self.slices == old(self).slices,
                self.root == old(self).root,
                self.int_ranges == old(self).int_ranges,
                adjacency(preds@) == pred_edges(p0),
                preds@.len() == n,
                gens@.len() == n,
                kills@.len() == n,
                forall|j: int|
                    0 <= j < n ==> (#[trigger] gens@[j])@.to_set() == block_gen(p0.blocks[j]),
                forall|j: int|
                    0 <= j < n ==> (#[trigger] kills@[j])@.to_set() == block_kill(p0.blocks[j]),
                forall|j: int|
                    0 <= j < n ==> (#[trigger] self.blocks@[j])@ == partial_block(
                        p0,
                        j,
                        keys@.take(i as int).to_set(),
                    ),
            decreases keys.len() - i,
        {
            let k = keys[i];
            let ghost done = keys@.take(i as int).to_set();
            let marks = live_blocks(Ghost(p0), &preds, &gens, &kills, k);
            proof {
                keys@.take(i as int).lemma_push_to_set_commute(k);
                assert(keys@.take(i + 1) =~= keys@.take(i as int).push(k));
            }
            let mut b: usize = 0;
            while b < n
                invariant
                    b <= n,
                    n == self.blocks@.len(),
                    n == p0.blocks.len(),
                    marks@.len() == n,
                    self.graph == old(self).graph,
                    self.variables == old(self).variables,
                    self.slices == old(self).slices,
                    self.root == old(self).root,
                    self.int_ranges == old(self).int_ranges,
                    forall|j: int|
                        0 <= j < n ==> (#[trigger] marks@[j] <==> live_in(p0, j as u32).contains(
                            k,
                        )),
                    forall|j: int|
                        0 <= j < b ==> (#[trigger] self.blocks@[j])@ == partial_block(
                            p0,
                            j,
                            done.insert(k),
                        ),
                    forall|j: int|
                        b <= j < n ==> (#[trigger] self.blocks@[j])@ == partial_block(p0, j, done),
                decreases n - b,
            {
                let ghost before = self.blocks@[b as int].live_vars@;
                if marks[b] {
                    let block = &mut self.blocks[b];
                    block.live_vars.push(k);
                    proof {
                        before.lemma_push_to_set_commute(k);
                    }
                }
                proof {
                    assert(marks@[b as int] <==> live_in(p0, b as u32).contains(k));
                    assert(self.blocks@[b as int]@.live_vars =~= live_in(p0, b as u32).intersect(
                        done.insert(k),
                    ));
                }
                b += 1;
            }
            i += 1;
        }
        proof {
            assert(keys@.take(i as int) =~= keys@);
            assert forall|j: int| 0 <= j < n implies (#[trigger] self@.blocks[j])
                == p0.with_liveness().blocks[j] by {
                assert(self.blocks@[j]@ == partial_block(p0, j, keys@.to_set()));
                assert forall|k: VarKey| live_in(p0, j as u32).contains(k) implies keys@.to_set().contains(
                    k,
                ) by {
                    lemma_live_has_user(p0, j as u32, k);
                    let u = choose|u: u32| users(p0, k).contains(u);
                    assert(gens@[u as int]@.to_set() == block_gen(p0.blocks[u as int]));
                    lemma_union_member(gens@, u as int, k);
                }
                assert(live_in(p0, j as u32).intersect(keys@.to_set()) =~= live_in(p0, j as u32));
            }
            assert(self@.blocks =~= p0.with_liveness().blocks);
        }
    }
}

} // verus!
