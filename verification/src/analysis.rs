//! The passes that find out facts, and the propagation of array copies.

use crate::block::{block_views, phi_views, BasicBlock, BlockView};
use crate::counter::AtomicCounter;
use crate::inline::{copy_position, source, source_of};
use crate::instruction::{instruction_views, Instruction, InstructionView, OpKind};
use crate::ir::{ConstantValue, VarId, VarKey, Variable};
use crate::passes::lemma_advance_sum;
use crate::program::{CubeDim, Program, ProgramView, Range, Slice};
use crate::range::{
    analyze_instruction, analyze_ops, analyze_phi_node, analyze_phis, analyze_upto,
};
use vstd::prelude::*;

verus! {

/// `v` as an index: the value of an integer constant that is not negative.
pub open spec fn const_index(v: Variable) -> Option<int> {
    match v {
        Variable::ConstantScalar(ConstantValue::UInt(c)) => Some(c as int),
        Variable::ConstantScalar(ConstantValue::Int(c, _)) => if c >= 0 {
            Some(c as int)
        } else {
            None
        },
        _ => None,
    }
}

/// The number of items of a slice whose ends are both constants.
pub open spec fn slice_length(s: Slice) -> Option<u32> {
    match (const_index(s.start), const_index(s.end)) {
        (Some(a), Some(b)) => if a <= b && b - a <= u32::MAX {
            Some((b - a) as u32)
        } else {
            None
        },
        _ => None,
    }
}

/// A slice with its number of items noted, where both its ends are
/// constants.
pub open spec fn with_length(s: Slice) -> Slice {
    match slice_length(s) {
        Some(len) => Slice { const_len: Some(len), ..s },
        None => s,
    }
}

/// The number of slices below `m` whose note changes.
pub open spec fn lengths_found(slices: Seq<(VarKey, Slice)>, m: nat) -> nat
    decreases m,
{
    if m == 0 {
        0
    } else {
        lengths_found(slices, (m - 1) as nat) + if m <= slices.len() && with_length(
            slices[m - 1].1,
        ) != slices[m - 1].1 {
            1nat
        } else {
            0nat
        }
    }
}

/// Whether `op` copies a whole input array into a local array.
pub open spec fn is_array_copy(op: InstructionView) -> bool {
    &&& op.kind == OpKind::Copy
    &&& op.args.len() == 4
    &&& op.args[0] is GlobalInputArray
    &&& op.args[1] == Variable::ConstantScalar(ConstantValue::UInt(0))
    &&& op.args[3] == Variable::ConstantScalar(ConstantValue::UInt(0))
    &&& match op.out {
        Some(Variable::LocalArray { length, .. }) => op.args[2] == Variable::ConstantScalar(
            ConstantValue::UInt(length as u64),
        ),
        _ => false,
    }
}

/// The number of instructions among `ops` that write `v`.
pub open spec fn writers_in(ops: Seq<InstructionView>, v: Variable) -> nat
    decreases ops.len(),
{
    if ops.len() == 0 {
        0
    } else {
        writers_in(ops.drop_last(), v) + if ops.last().out == Some(v) {
            1nat
        } else {
            0nat
        }
    }
}

/// The number of instructions in the blocks below `m` that write `v`.
pub open spec fn writers_upto(blocks: Seq<BlockView>, nodes: Set<u32>, v: Variable, m: nat) -> nat
    decreases m,
{
    if m == 0 {
        0
    } else {
        writers_upto(blocks, nodes, v, (m - 1) as nat) + if m <= blocks.len() && nodes.contains(
            (m - 1) as u32,
        ) {
            writers_in(blocks[m - 1].ops, v)
        } else {
            0
        }
    }
}

/// A load from the source in the place of a copied array.
pub open spec fn redirect(copies: Seq<(Variable, Variable)>, op: InstructionView) -> InstructionView {
    if (op.kind == OpKind::Index || op.kind == OpKind::UncheckedIndex) && op.args.len() == 2 {
        InstructionView { args: seq![source(copies, op.args[0]), op.args[1]], ..op }
    } else {
        op
    }
}

/// The number of loads below `m` that read a copied array.
pub open spec fn redirected_upto(copies: Seq<(Variable, Variable)>, ops: Seq<InstructionView>, m: nat) -> nat
    decreases m,
{
    if m == 0 {
        0
    } else {
        redirected_upto(copies, ops, (m - 1) as nat) + if m <= ops.len() && redirect(
            copies,
            ops[m - 1],
        ) != ops[m - 1] {
            1nat
        } else {
            0nat
        }
    }
}

/// The number of loads in the blocks below `m` that read a copied array.
pub open spec fn blocks_redirected(
    copies: Seq<(Variable, Variable)>,
    blocks: Seq<BlockView>,
    nodes: Set<u32>,
    m: nat,
) -> nat
    decreases m,
{
    if m == 0 {
        0
    } else {
        blocks_redirected(copies, blocks, nodes, (m - 1) as nat) + if m <= blocks.len()
            && nodes.contains((m - 1) as u32) {
            redirected_upto(copies, blocks[m - 1].ops, blocks[m - 1].ops.len())
        } else {
            0
        }
    }
}

impl ProgramView {
    /// The ranges that the analysis finds: every block in the order of the
    /// indices, its phi nodes and then its instructions in their order,
    /// from nothing known.
    pub open spec fn analyzed_ranges(self, dim: CubeDim) -> Seq<(VarId, Range)> {
        analyze_upto(Seq::empty(), dim, self.blocks, self.nodes, self.blocks.len())
    }

    /// The program with the ranges that the analysis finds.
    pub open spec fn analyze_ranges(self, dim: CubeDim) -> ProgramView {
        ProgramView { int_ranges: self.analyzed_ranges(dim), ..self }
    }

    /// The program with the number of items noted at each slice whose ends
    /// are both constants.
    pub open spec fn find_const_slice_len(self) -> ProgramView {
        ProgramView {
            slices: Seq::new(
                self.slices.len(),
                |i: int| (self.slices[i].0, with_length(self.slices[i].1)),
            ),
            ..self
        }
    }

    /// The number of instructions that write `v`.
    pub open spec fn writers(self, v: Variable) -> nat {
        writers_upto(self.blocks, self.nodes, v, self.blocks.len())
    }

    /// The copied arrays among `ops`, each with its source: a local array
    /// that nothing writes but one copy of a whole input array.
    pub open spec fn array_copies_of(self, ops: Seq<InstructionView>) -> Seq<(Variable, Variable)>
        decreases ops.len(),
    {
        if ops.len() == 0 {
            Seq::empty()
        } else if is_array_copy(ops.last()) && self.writers(ops.last().out->0) == 1 {
            self.array_copies_of(ops.drop_last()).push((ops.last().out->0, ops.last().args[0]))
        } else {
            self.array_copies_of(ops.drop_last())
        }
    }

    /// The copied arrays in the blocks below `m`.
    pub open spec fn array_copies_upto(self, m: nat) -> Seq<(Variable, Variable)>
        decreases m,
    {
        if m == 0 {
            Seq::empty()
        } else if m <= self.blocks.len() && self.nodes.contains((m - 1) as u32) {
            self.array_copies_upto((m - 1) as nat) + self.array_copies_of(self.blocks[m - 1].ops)
        } else {
            self.array_copies_upto((m - 1) as nat)
        }
    }

    /// The copied arrays of the program.
    pub open spec fn array_copies(self) -> Seq<(Variable, Variable)> {
        self.array_copies_upto(self.blocks.len())
    }

    /// Block `b` with its loads from copied arrays taken from the
    /// sources.
    pub open spec fn redirect_block(self, b: int) -> BlockView {
        if self.nodes.contains(b as u32) {
            BlockView {
                ops: Seq::new(
                    self.blocks[b].ops.len(),
                    |i: int| redirect(self.array_copies(), self.blocks[b].ops[i]),
                ),
                ..self.blocks[b]
            }
        } else {
            self.blocks[b]
        }
    }

    /// The program with every load from a copied array taken from the
    /// source.
    pub open spec fn copy_propagate_array(self) -> ProgramView {
        ProgramView {
            blocks: Seq::new(self.blocks.len(), |b: int| self.redirect_block(b)),
            ..self
        }
    }

    /// The number of loads from copied arrays.
    pub open spec fn array_loads(self) -> nat {
        blocks_redirected(self.array_copies(), self.blocks, self.nodes, self.blocks.len())
    }
}

/// Whether two tables of ranges are the same.
pub fn same_ranges(a: &Vec<(VarId, Range)>, b: &Vec<(VarId, Range)>) -> (same: bool)
    ensures
        same == (a@ == b@),
{
    if a.len() != b.len() {
        return false;
    }
    let mut i: usize = 0;
    while i < a.len()
        invariant
            i <= a.len(),
            a@.len() == b@.len(),
            forall|t: int| 0 <= t < i ==> a@[t] == b@[t],
        decreases a.len() - i,
    {
        let x = a[i];
        let y = b[i];
        if !(x.0.0 == y.0.0 && x.0.1 == y.0.1 && x.0.2 == y.0.2 && x.1 == y.1) {
            return false;
        }
        i += 1;
    }
    assert(a@ =~= b@);
    true
}

/// `v` as an index.
pub fn index_of_const(v: &Variable) -> (index: Option<u64>)
    ensures
        match const_index(*v) {
            Some(i) => index == Some(i as u64),
            None => index is None,
        },
{
    match v {
        Variable::ConstantScalar(ConstantValue::UInt(c)) => Some(*c),
        Variable::ConstantScalar(ConstantValue::Int(c, _)) => {
            if *c >= 0 {
                Some(*c as u64)
            } else {
                None
            }
        },
        _ => None,
    }
}

/// A slice with its number of items noted.
pub fn length_noted(s: &Slice) -> (made: Slice)
    ensures
        made == with_length(*s),
{
    match (index_of_const(&s.start), index_of_const(&s.end)) {
        (Some(a), Some(b)) => {
            if a <= b && b - a <= 0xffff_ffff {
                Slice {
                    start: s.start,
                    end: s.end,
                    end_op: s.end_op,
                    const_len: Some((b - a) as u32),
                }
            } else {
                *s
            }
        },
        _ => *s,
    }
}

/// Whether `op` copies a whole input array into a local array.
pub fn array_copy(op: &Instruction) -> (yes: bool)
    ensures
        yes == is_array_copy(op@),
{
    let copies = match op.kind {
        OpKind::Copy => true,
        _ => false,
    };
    if !copies || op.args.len() != 4 {
        return false;
    }
    let from_input = match op.args[0] {
        Variable::GlobalInputArray { .. } => true,
        _ => false,
    };
    let zero = Variable::ConstantScalar(ConstantValue::UInt(0));
    match op.out {
        Some(Variable::LocalArray { length, .. }) => from_input && op.args[1] == zero
            && op.args[3] == zero && op.args[2] == Variable::ConstantScalar(
            ConstantValue::UInt(length as u64),
        ),
        _ => false,
    }
}

impl Program {
    /// Finds the ranges of versioned integers, from nothing known, and
    /// counts one change if they are not the ranges known before.
    pub fn analyze_ranges(&mut self, dim: CubeDim, counter: &mut AtomicCounter)
        requires
            old(self).wf(),
        ensures
            final(self).wf(),
            final(self)@ == old(self)@.analyze_ranges(dim),
            final(counter)@ == AtomicCounter::advance(
                old(counter)@,
                if old(self)@.analyzed_ranges(dim) != old(self)@.int_ranges {
                    1nat
                } else {
                    0nat
                },
            ),
    {
        proof {
            self.lemma_view_wf();
        }
        let n = self.blocks.len();
        let mut ranges: Vec<(VarId, Range)> = Vec::new();
        let mut b: usize = 0;
        while b < n
            invariant
                b <= n,
                n == self.blocks@.len(),
                n <= u32::MAX,
                ranges@ == analyze_upto(Seq::empty(), dim, self@.blocks, self@.nodes, b as nat),
            decreases n - b,
        {
            if self.graph.contains_node(b as u32) {
                let phis = &self.blocks[b].phi_nodes;
                let ghost before = ranges@;
                let ghost nodes = phi_views(phis@);
                let mut k: usize = 0;
                while k < phis.len()
                    invariant
                        k <= phis.len(),
                        nodes == phi_views(phis@),
                        ranges@ == analyze_phis(before, dim, nodes.take(k as int)),
                    decreases phis.len() - k,
                {
                    proof {
                        assert(nodes.take(k + 1).drop_last() =~= nodes.take(k as int));
                        assert(nodes.take(k + 1).last() == phis@[k as int]@);
                    }
                    analyze_phi_node(&mut ranges, dim, &phis[k]);
                    k += 1;
                }
                proof {
                    assert(nodes.take(k as int) =~= nodes);
                }
                let ops = &self.blocks[b].ops;
                let ghost start = ranges@;
                let ghost views = instruction_views(ops@);
                let mut i: usize = 0;
                while i < ops.len()
                    invariant
                        i <= ops.len(),
                        views == instruction_views(ops@),
                        ranges@ == analyze_ops(start, dim, views.take(i as int)),
                    decreases ops.len() - i,
                {
                    proof {
                        assert(views.take(i + 1).drop_last() =~= views.take(i as int));
                        assert(views.take(i + 1).last() == ops@[i as int]@);
                    }
                    analyze_instruction(&mut ranges, dim, &ops[i]);
                    i += 1;
                }
                proof {
                    assert(views.take(i as int) =~= views);
                }
            }
            b += 1;
        }
        proof {
            lemma_advance_sum(old(counter)@, 0, 1);
        }
        if !same_ranges(&ranges, &self.int_ranges) {
            counter.inc();
        }
        self.int_ranges = ranges;
    }

    /// Notes the number of items at each slice whose ends are both
    /// constants, and counts the slices whose note changes.
    pub fn find_const_slice_len(&mut self, counter: &mut AtomicCounter)
        requires
            old(self).wf(),
        ensures
            final(self).wf(),
            final(self)@ == old(self)@.find_const_slice_len(),
            final(counter)@ == AtomicCounter::advance(
                old(counter)@,
                lengths_found(old(self)@.slices, old(self)@.slices.len()),
            ),
    {
        let n = self.slices.len();
        let mut i: usize = 0;
        while i < n
            invariant
                i <= n,
                n == self.slices@.len(),
                n == old(self).slices@.len(),
                self.graph == old(self).graph,
                self.blocks == old(self).blocks,
                self.variables == old(self).variables,
                self.root == old(self).root,
                self.int_ranges == old(self).int_ranges,
                forall|j: int|
                    0 <= j < i ==> #[trigger] self.slices@[j] == (
                        old(self).slices@[j].0,
                        with_length(old(self).slices@[j].1),
                    ),
                forall|j: int| i <= j < n ==> #[trigger] self.slices@[j] == old(self).slices@[j],
                counter@ == AtomicCounter::advance(
                    old(counter)@,
                    lengths_found(old(self)@.slices, i as nat),
                ),
            decreases n - i,
        {
            let (key, slice) = self.slices[i];
            let made = length_noted(&slice);
            proof {
                lemma_advance_sum(old(counter)@, lengths_found(old(self)@.slices, i as nat), 1);
            }
            if made != slice {
                counter.inc();
            }
            self.slices[i] = (key, made);
            i += 1;
        }
        proof {
            assert(self@.slices =~= old(self)@.find_const_slice_len().slices);
        }
    }

    /// The number of instructions that write `v`.
    pub fn count_writers(&self, v: &Variable) -> (count: usize)
        requires
            self.wf(),
        ensures
            count as nat == self@.writers(*v) || (count == usize::MAX && self@.writers(*v)
                >= usize::MAX),
    {
        proof {
            self.lemma_view_wf();
        }
        let n = self.blocks.len();
        let mut count: usize = 0;
        let mut b: usize = 0;
        while b < n
            invariant
                b <= n,
                n == self.blocks@.len(),
                n <= u32::MAX,
                count as nat == writers_upto(self@.blocks, self@.nodes, *v, b as nat) || (count
                    == usize::MAX && writers_upto(self@.blocks, self@.nodes, *v, b as nat)
                    >= usize::MAX),
            decreases n - b,
        {
            if self.graph.contains_node(b as u32) {
                let ops = &self.blocks[b].ops;
                let ghost views = instruction_views(ops@);
                let ghost start = writers_upto(self@.blocks, self@.nodes, *v, b as nat);
                let mut i: usize = 0;
                while i < ops.len()
                    invariant
                        i <= ops.len(),
                        views == instruction_views(ops@),
                        count as nat == start + writers_in(views.take(i as int), *v) || (count
                            == usize::MAX && start + writers_in(views.take(i as int), *v)
                            >= usize::MAX),
                    decreases ops.len() - i,
                {
                    proof {
                        assert(views.take(i + 1).drop_last() =~= views.take(i as int));
                        assert(views.take(i + 1).last() == ops@[i as int]@);
                    }
                    let writes = match ops[i].out {
                        Some(out) => out == *v,
                        None => false,
                    };
                    if writes && count < usize::MAX {
                        count += 1;
                    }
                    i += 1;
                }
                proof {
                    assert(views.take(i as int) =~= views);
                }
            }
            b += 1;
        }
        count
    }

    /// The copied arrays of the program, each with its source.
    pub fn collect_array_copies(&self) -> (copies: Vec<(Variable, Variable)>)
        requires
            self.wf(),
        ensures
            copies@ == self@.array_copies(),
    {
        proof {
            self.lemma_view_wf();
        }
        let n = self.blocks.len();
        let mut copies: Vec<(Variable, Variable)> = Vec::new();
        let mut b: usize = 0;
        while b < n
            invariant
                b <= n,
                n == self.blocks@.len(),
                n <= u32::MAX,
                self.wf(),
                copies@ == self@.array_copies_upto(b as nat),
            decreases n - b,
        {
            if self.graph.contains_node(b as u32) {
                let ghost start = copies@;
                let ops = &self.blocks[b].ops;
                let ghost views = instruction_views(ops@);
                let mut i: usize = 0;
                assert(copies@ =~= start + self@.array_copies_of(views.take(0)));
                while i < ops.len()
                    invariant
                        i <= ops.len(),
                        self.wf(),
                        views == instruction_views(ops@),
                        copies@ == start + self@.array_copies_of(views.take(i as int)),
                    decreases ops.len() - i,
                {
                    proof {
                        assert(views.take(i + 1).drop_last() =~= views.take(i as int));
                        assert(views.take(i + 1).last() == ops@[i as int]@);
                    }
                    if array_copy(&ops[i]) {
                        match ops[i].out {
                            Some(out) => {
                                if self.count_writers(&out) == 1 {
                                    copies.push((out, ops[i].args[0]));
                                }
                            },
                            None => {},
                        }
                    }
                    proof {
                        assert(copies@ =~= start + self@.array_copies_of(views.take(i + 1)));
                    }
                    i += 1;
                }
                proof {
                    assert(views.take(i as int) =~= views);
                }
            }
            b += 1;
        }
        copies
    }

    /// Takes every load from a copied array from its source, and counts
    /// the loads that change.
    pub fn copy_propagate_array(&mut self, counter: &mut AtomicCounter)
        requires
            old(self).wf(),
        ensures
            final(self).wf(),
            final(self)@ == old(self)@.copy_propagate_array(),
            final(counter)@ == AtomicCounter::advance(old(counter)@, old(self)@.array_loads()),
    {
        let ghost p0 = self@;
        proof {
            self.lemma_view_wf();
        }
        let copies = self.collect_array_copies();
        let n = self.blocks.len();
        let mut b: usize = 0;
        while b < n
            invariant
                b <= n,
                n == self.blocks@.len(),
                n == p0.blocks.len(),
                n <= u32::MAX,
                p0 == old(self)@,
                copies@ == p0.array_copies(),
                self.graph == old(self).graph,
                self.variables == old(self).variables,
                self.slices == old(self).slices,
                self.root == old(self).root,
                self.int_ranges == old(self).int_ranges,
                forall|j: int| 0 <= j < b ==> (#[trigger] self.blocks@[j])@ == p0.redirect_block(j),
                forall|j: int| b <= j < n ==> (#[trigger] self.blocks@[j])@ == p0.blocks[j],
                counter@ == AtomicCounter::advance(
                    old(counter)@,
                    blocks_redirected(copies@, p0.blocks, p0.nodes, b as nat),
                ),
            decreases n - b,
        {
            if self.graph.contains_node(b as u32) {
                let ghost views = p0.blocks[b as int].ops;
                let ghost c0 = counter@;
                let ops = &self.blocks[b].ops;
                let mut made: Vec<Instruction> = Vec::new();
                let mut i: usize = 0;
                while i < ops.len()
                    invariant
                        i <= ops.len(),
                        views == instruction_views(ops@),
                        made@.len() == i,
                        forall|t: int|
                            0 <= t < i ==> (#[trigger] made@[t])@ == redirect(copies@, views[t]),
                        counter@ == AtomicCounter::advance(
                            c0,
                            redirected_upto(copies@, views, i as nat),
                        ),
                    decreases ops.len() - i,
                {
                    let op = &ops[i];
                    let loads = match op.kind {
                        OpKind::Index => true,
                        OpKind::UncheckedIndex => true,
                        _ => false,
                    };
                    if loads && op.args.len() == 2 {
                        let from = source_of(&copies, op.args[0]);
                        let mut args: Vec<Variable> = Vec::new();
                        args.push(from);
                        args.push(op.args[1]);
                        proof {
                            assert(args@ =~= seq![from, op.args@[1]]);
                            assert(op.args@ =~= seq![op.args@[0], op.args@[1]]);
                            if from == op.args@[0] {
                                assert(args@ =~= op.args@);
                            } else {
                                assert(args@[0] != op.args@[0]);
                            }
                        }
                        if from != op.args[0] {
                            counter.inc();
                        }
                        made.push(Instruction { kind: op.kind, out: op.out, args });
                    } else {
                        made.push(op.duplicate());
                    }
                    i += 1;
                }
                proof {
                    lemma_advance_sum(
                        old(counter)@,
                        blocks_redirected(copies@, p0.blocks, p0.nodes, b as nat),
                        redirected_upto(copies@, views, views.len()),
                    );
                }
                let block = &mut self.blocks[b];
                block.ops = made;
                proof {
                    assert(self.blocks@[b as int]@.ops =~= p0.redirect_block(b as int).ops);
                }
            }
            b += 1;
        }
        proof {
            assert(self@.blocks =~= p0.copy_propagate_array().blocks);
        }
    }
}

} // verus!
