//! The compiler of branches and terminators to SPIR-V: what it hands to
//! the builder, in which order, and which blocks follow.

use crate::block::{ControlFlow, ControlFlowView};
use crate::graph::NodeId;
use crate::ir::Variable;
use crate::optimizer::Optimizer;
use crate::program::ProgramView;
use crate::scope::Branch;
use crate::spirv_builder::{
    builder_at_end, builder_code, flat,
    builder_begin_block, builder_begin_function, builder_branch, builder_branch_conditional,
    builder_constant_bit32, builder_i_add, builder_id, builder_in_block, builder_in_function,
    builder_logical_and, builder_loop_merge, builder_new, builder_next_id, builder_phi,
    builder_ret, builder_select, builder_selection_merge, builder_switch, builder_type_bool,
    builder_type_function, builder_type_int, builder_type_void, builder_u_less_than, Word,
};
use rspirv::dr::Builder;
use vstd::prelude::*;

verus! {

/// Why the compiler gave up.
#[derive(Clone, Copy, Debug, PartialEq, Eq, Structural)]
pub enum EmitError {
    /// The builder is not where the instruction belongs: in a block of a
    /// function for an instruction, in a function outside a block for a
    /// new block, outside a function for a new function.
    Misplaced,
    /// All ids are used.
    OutOfIds,
    /// A block that falls through has not just one successor, or a bounds
    /// check stands in no block of the program.
    Shape,
}

/// The kind of an instruction that was handed to the builder.
#[derive(Clone, Copy, Debug, PartialEq, Eq, Structural)]
pub enum Emit {
    Label,
    Branch,
    BranchConditional,
    Switch,
    Return,
    SelectionMerge,
    LoopMerge,
    Phi,
    Select,
    ULessThan,
    IAdd,
    LogicalAnd,
    Constant,
}

impl Emit {
    /// The number of the opcode of an instruction of this kind.
    pub open spec fn opcode(self) -> u32 {
        match self {
            Emit::Label => 248,
            Emit::Branch => 249,
            Emit::BranchConditional => 250,
            Emit::Switch => 251,
            Emit::Return => 253,
            Emit::SelectionMerge => 247,
            Emit::LoopMerge => 246,
            Emit::Phi => 245,
            Emit::Select => 169,
            Emit::ULessThan => 176,
            Emit::IAdd => 128,
            Emit::LogicalAnd => 167,
            Emit::Constant => 43,
        }
    }
}

/// An instruction that was handed to the builder: its kind and its ids and
/// numbers, in the order of the instruction.
#[derive(Debug)]
pub struct Emitted {
    pub kind: Emit,
    pub words: Vec<u32>,
}

/// The bits of the selection control that keeps a selection from being
/// flattened.
pub const DONT_FLATTEN: u32 = 2;

/// The instructions as values.
pub open spec fn emitted_views(log: Seq<Emitted>) -> Seq<(Emit, Seq<u32>)> {
    Seq::new(log.len(), |i: int| (log[i].kind, log[i].words@))
}

/// The place of the first entry with key `k`, or -1.
pub open spec fn assoc_position<K, V>(s: Seq<(K, V)>, k: K) -> int
    decreases s.len(),
{
    if s.len() == 0 {
        -1
    } else {
        let p = assoc_position(s.drop_last(), k);
        if p >= 0 {
            p
        } else if s.last().0 == k {
            s.len() - 1
        } else {
            -1
        }
    }
}

/// An entry that is found in the first `n` entries is found at the same
/// place in all of them, and what is found lies inside.
pub proof fn lemma_assoc_position<K, V>(s: Seq<(K, V)>, n: int, k: K)
    requires
        0 <= n <= s.len(),
    ensures
        -1 <= assoc_position(s, k) < s.len(),
        assoc_position(s.take(n), k) >= 0 ==> assoc_position(s, k) == assoc_position(
            s.take(n),
            k,
        ),
    decreases s.len(),
{
    if s.len() > 0 {
        if n < s.len() {
            assert(s.drop_last().take(n) =~= s.take(n));
            lemma_assoc_position(s.drop_last(), n, k);
        } else {
            assert(s.take(n) =~= s);
            lemma_assoc_position(s.drop_last(), s.len() - 1, k);
        }
    } else {
        assert(s.take(n) =~= s);
    }
}

/// The compiler as a value.
pub struct SpirvView {
    pub next_id: nat,
    pub id_bound: nat,
    pub in_function: bool,
    pub in_block: bool,
    pub current_block: Option<u32>,
    pub labels: Seq<(u32, u32)>,
    pub end_labels: Seq<(u32, u32)>,
    pub values: Seq<(Variable, u32)>,
    pub emitted: Seq<(Emit, Seq<u32>)>,
    /// What the builder holds of the function under construction: the
    /// labels and instructions of its blocks in their order, each with the
    /// number of its opcode and its words.
    pub code: Seq<(u32, Seq<u32>)>,
    pub bool_type: u32,
    pub int_type: u32,
}

/// What a step of the compiler gives: the compiler after it and a result,
/// or why it gave up.
pub type Step<T> = Result<(SpirvView, T), EmitError>;

impl SpirvView {
    /// The compiler after it took a new id: the next id, unless all ids may
    /// be used.
    pub open spec fn fresh(self) -> Step<u32> {
        if self.id_bound >= u32::MAX {
            Err(EmitError::OutOfIds)
        } else {
            Ok(
                (
                    SpirvView { next_id: self.next_id + 1, id_bound: self.id_bound + 1, ..self },
                    self.next_id as u32,
                ),
            )
        }
    }

    /// The compiler after it looked up the label of a block: the label that
    /// the block has, or a new id that is its label from then on.
    pub open spec fn label(self, block: u32) -> Step<u32> {
        let p = assoc_position(self.labels, block);
        if 0 <= p < self.labels.len() {
            Ok((self, self.labels[p].1))
        } else {
            match self.fresh() {
                Ok((v, id)) => Ok((SpirvView { labels: v.labels.push((block, id)), ..v }, id)),
                Err(e) => Err(e),
            }
        }
    }

    /// The compiler after it looked up the id of a variable: the id that
    /// the variable has, or a new id that is its id from then on.
    pub open spec fn value(self, var: Variable) -> Step<u32> {
        let p = assoc_position(self.values, var);
        if 0 <= p < self.values.len() {
            Ok((self, self.values[p].1))
        } else {
            match self.fresh() {
                Ok((v, id)) => Ok((SpirvView { values: v.values.push((var, id)), ..v }, id)),
                Err(e) => Err(e),
            }
        }
    }

    /// The compiler after an instruction went into the block under
    /// construction: the builder holds it at the end of that block.
    pub open spec fn put(self, kind: Emit, words: Seq<u32>) -> Step<()> {
        if self.in_function && self.in_block {
            Ok(
                (
                    SpirvView {
                        emitted: self.emitted.push((kind, words)),
                        code: self.code.push((kind.opcode(), words)),
                        ..self
                    },
                    (),
                ),
            )
        } else {
            Err(EmitError::Misplaced)
        }
    }

    /// The compiler after a terminator ended the block under construction:
    /// the builder holds it at the end of that block.
    pub open spec fn end(self, kind: Emit, words: Seq<u32>) -> Step<()> {
        if self.in_function && self.in_block {
            Ok(
                (
                    SpirvView {
                        emitted: self.emitted.push((kind, words)),
                        code: self.code.push((kind.opcode(), words)),
                        in_block: false,
                        ..self
                    },
                    (),
                ),
            )
        } else {
            Err(EmitError::Misplaced)
        }
    }

    /// The compiler after it began a block with the given label: the
    /// builder holds the label behind the blocks that were there.
    pub open spec fn open(self, label: u32) -> Step<()> {
        if self.in_function && !self.in_block {
            Ok(
                (
                    SpirvView {
                        emitted: self.emitted.push((Emit::Label, seq![label])),
                        code: self.code.push((Emit::Label.opcode(), seq![label])),
                        in_block: true,
                        ..self
                    },
                    (),
                ),
            )
        } else {
            Err(EmitError::Misplaced)
        }
    }
}

/// The compiler of branches and terminators.
pub struct SpirvCompiler {
    builder: Builder,
    id_bound: u32,
    /// The block of the program that is under construction.
    pub current_block: Option<NodeId>,
    /// The label of each block that has one.
    pub labels: Vec<(NodeId, Word)>,
    /// For each block that was split by a bounds check, the label of the
    /// block in which it ends.
    pub end_labels: Vec<(NodeId, Word)>,
    /// The id of each variable that has one.
    pub values: Vec<(Variable, Word)>,
    /// What was handed to the builder, in order: labels, instructions of
    /// blocks and constants.
    pub emitted: Vec<Emitted>,
    /// The id of the type of truth values.
    pub bool_type: Word,
    /// The id of the type of unsigned integers of 32 bits.
    pub int_type: Word,
}

impl View for SpirvCompiler {
    type V = SpirvView;

    closed spec fn view(&self) -> SpirvView {
        SpirvView {
            next_id: builder_next_id(self.builder),
            id_bound: self.id_bound as nat,
            in_function: builder_in_function(self.builder),
            in_block: builder_in_block(self.builder),
            current_block: self.current_block,
            labels: self.labels@,
            end_labels: self.end_labels@,
            values: self.values@,
            emitted: emitted_views(self.emitted@),
            code: builder_code(self.builder),
            bool_type: self.bool_type,
            int_type: self.int_type,
        }
    }
}

/// What a step of the compiler promises: on success the compiler and the
/// result that were expected; on failure the error that was expected.
pub open spec fn stepped<T>(after: &SpirvCompiler, expected: Step<T>, got: Result<T, EmitError>) -> bool {
    match expected {
        Ok((v, t)) => got == Ok::<T, EmitError>(t) && after@ == v && after.wf(),
        Err(e) => got == Err::<T, EmitError>(e),
    }
}

impl SpirvCompiler {
    /// The compiler is consistent: the builder has used no more ids than
    /// the compiler counted, builds at the end of its function, and has a
    /// block under construction only in a function.
    pub closed spec fn wf(&self) -> bool {
        &&& builder_next_id(self.builder) <= self.id_bound
        &&& builder_at_end(self.builder)
        &&& builder_in_block(self.builder) ==> builder_in_function(self.builder)
    }

    /// What the views of consistent compilers share.
    pub proof fn lemma_wf(&self)
        requires
            self.wf(),
        ensures
            self@.next_id <= self@.id_bound <= u32::MAX,
    {
    }

    /// A compiler outside any function, with the types of truth values and
    /// of unsigned integers declared.
    pub fn new() -> (made: Self)
        ensures
            made.wf(),
            !made@.in_function,
            !made@.in_block,
            made@.current_block is None,
            made@.labels == Seq::<(u32, u32)>::empty(),
            made@.end_labels == Seq::<(u32, u32)>::empty(),
            made@.values == Seq::<(Variable, u32)>::empty(),
            made@.emitted == Seq::<(Emit, Seq<u32>)>::empty(),
            made@.code == Seq::<(u32, Seq<u32>)>::empty(),
            made@.id_bound == 3,
    {
        let mut builder = builder_new();
        let bool_type = builder_type_bool(&mut builder);
        let int_type = builder_type_int(&mut builder, 32, 0);
        let made = SpirvCompiler {
            builder,
            id_bound: 3,
            current_block: None,
            labels: Vec::new(),
            end_labels: Vec::new(),
            values: Vec::new(),
            emitted: Vec::new(),
            bool_type,
            int_type,
        };
        assert(made@.emitted =~= Seq::<(Emit, Seq<u32>)>::empty());
        made
    }

    /// The builder that the compiler holds.
    pub closed spec fn held(&self) -> Builder {
        self.builder
    }

    /// Hands the builder back, with the module that it holds: the builder
    /// of the compiler, which holds the instructions that the compiler's
    /// view shows, hands out next the id that the compiler would have taken
    /// next, and is in the function and the block in which the compiler
    /// was.
    pub fn finish(self) -> (builder: Builder)
        ensures
            builder == self.held(),
            builder_code(builder) == self@.code,
            builder_next_id(builder) == self@.next_id,
            builder_in_function(builder) == self@.in_function,
            builder_in_block(builder) == self@.in_block,
    {
        self.builder
    }

    /// Takes a new id.
    pub fn fresh_id(&mut self) -> (made: Result<Word, EmitError>)
        requires
            old(self).wf(),
        ensures
            stepped(final(self), old(self)@.fresh(), made),
    {
        if self.id_bound == u32::MAX {
            return Err(EmitError::OutOfIds);
        }
        let id = builder_id(&mut self.builder);
        self.id_bound = self.id_bound + 1;
        Ok(id)
    }

    /// Begins the function of the kernel: without parameters and without a
    /// result. It fails if a function is under construction, or if fewer
    /// than three ids may be left.
    pub fn begin_kernel(&mut self) -> (done: Result<(), EmitError>)
        requires
            old(self).wf(),
        ensures
            done is Ok ==> final(self).wf() && final(self)@.in_function && final(self)@.in_block
                == old(self)@.in_block && final(self)@.emitted == old(self)@.emitted
                && final(self)@.labels == old(self)@.labels && final(self)@.values
                == old(self)@.values && final(self)@.code == Seq::<(u32, Seq<u32>)>::empty(),
            done is Err ==> final(self)@.code == old(self)@.code,
            done is Ok <==> !old(self)@.in_function && old(self)@.id_bound + 3 <= u32::MAX,
            done is Err ==> done == Err::<(), EmitError>(
                if old(self)@.id_bound + 3 > u32::MAX {
                    EmitError::OutOfIds
                } else {
                    EmitError::Misplaced
                },
            ),
    {
        if self.id_bound > u32::MAX - 3 {
            return Err(EmitError::OutOfIds);
        }
        let void = builder_type_void(&mut self.builder);
        let function_type = builder_type_function(&mut self.builder, void);
        let id = builder_id(&mut self.builder);
        self.id_bound = self.id_bound + 3;
        match builder_begin_function(&mut self.builder, void, id, function_type) {
            Ok(_) => Ok(()),
            Err(_) => Err(EmitError::Misplaced),
        }
    }

    /// Notes an instruction that was handed to the builder.
    fn record(&mut self, kind: Emit, words: Vec<u32>)
        ensures
            final(self)@ == (SpirvView {
                emitted: old(self)@.emitted.push((kind, words@)),
                ..old(self)@
            }),
            final(self).wf() == old(self).wf(),
    {
        let ghost before = emitted_views(self.emitted@);
        self.emitted.push(Emitted { kind, words });
        proof {
            assert(emitted_views(self.emitted@) =~= before.push((kind, words@)));
        }
    }

    /// The label of a block: the label that the block has, or a new one.
    pub fn label(&mut self, block: NodeId) -> (made: Result<Word, EmitError>)
        requires
            old(self).wf(),
        ensures
            stepped(final(self), old(self)@.label(block), made),
    {
        let mut i: usize = 0;
        while i < self.labels.len()
            invariant
                i <= self.labels.len(),
                *self == *old(self),
                self.wf(),
                assoc_position(self.labels@.take(i as int), block) == -1,
            decreases self.labels.len() - i,
        {
            proof {
                assert(self.labels@.take(i + 1).drop_last() =~= self.labels@.take(i as int));
                lemma_assoc_position(self.labels@, i + 1, block);
            }
            if self.labels[i].0 == block {
                proof {
                    assert(self.labels@.take(i + 1).last() == self.labels@[i as int]);
                    assert(assoc_position(self.labels@.take(i + 1), block) == i);
                }
                return Ok(self.labels[i].1);
            }
            i += 1;
        }
        proof {
            assert(self.labels@.take(i as int) =~= self.labels@);
        }
        match self.fresh_id() {
            Ok(id) => {
                self.labels.push((block, id));
                Ok(id)
            },
            Err(e) => Err(e),
        }
    }

    /// The id of a variable: the id that the variable has, or a new one.
    pub fn read(&mut self, var: &Variable) -> (made: Result<Word, EmitError>)
        requires
            old(self).wf(),
        ensures
            stepped(final(self), old(self)@.value(*var), made),
    {
        let mut i: usize = 0;
        while i < self.values.len()
            invariant
                i <= self.values.len(),
                *self == *old(self),
                self.wf(),
                assoc_position(self.values@.take(i as int), *var) == -1,
            decreases self.values.len() - i,
        {
            proof {
                assert(self.values@.take(i + 1).drop_last() =~= self.values@.take(i as int));
                lemma_assoc_position(self.values@, i + 1, *var);
            }
            if self.values[i].0 == *var {
                proof {
                    assert(self.values@.take(i + 1).last() == self.values@[i as int]);
                    assert(assoc_position(self.values@.take(i + 1), *var) == i);
                }
                return Ok(self.values[i].1);
            }
            i += 1;
        }
        proof {
            assert(self.values@.take(i as int) =~= self.values@);
        }
        match self.fresh_id() {
            Ok(id) => {
                self.values.push((*var, id));
                Ok(id)
            },
            Err(e) => Err(e),
        }
    }

    /// Begins a block with the given label.
    pub fn begin_block(&mut self, label: Word) -> (done: Result<(), EmitError>)
        requires
            old(self).wf(),
        ensures
            stepped(final(self), old(self)@.open(label), done),
    {
        match builder_begin_block(&mut self.builder, label) {
            Ok(_) => {
                let mut words: Vec<u32> = Vec::new();
                words.push(label);
                assert(words@ =~= seq![label]);
                self.record(Emit::Label, words);
                Ok(())
            },
            Err(_) => Err(EmitError::Misplaced),
        }
    }
}

/// The words of the targets of a switch: for each branch its value and the
/// label of its block.
pub open spec fn switch_targets(v: SpirvView, branches: Seq<(u32, u32)>) -> Step<Seq<u32>>
    decreases branches.len(),
{
    if branches.len() == 0 {
        Ok((v, Seq::empty()))
    } else {
        match switch_targets(v, branches.drop_last()) {
            Ok((v1, words)) => match v1.label(branches.last().1) {
                Ok((v2, l)) => Ok((v2, words.push(branches.last().0).push(l))),
                Err(e) => Err(e),
            },
            Err(e) => Err(e),
        }
    }
}

/// The blocks of the branches of a switch.
pub open spec fn branch_blocks(branches: Seq<(u32, u32)>) -> Seq<u32> {
    Seq::new(branches.len(), |i: int| branches[i].1)
}

impl SpirvView {
    /// The labels of three blocks, looked up one after the other.
    pub open spec fn labels3(self, a: u32, b: u32, c: u32) -> Step<(u32, u32, u32)> {
        match self.label(a) {
            Ok((v1, la)) => match v1.label(b) {
                Ok((v2, lb)) => match v2.label(c) {
                    Ok((v3, lc)) => Ok((v3, (la, lb, lc))),
                    Err(e) => Err(e),
                },
                Err(e) => Err(e),
            },
            Err(e) => Err(e),
        }
    }

    /// The compiler after a selection: a select instruction of the type
    /// `ty` into the id of `out`.
    pub open spec fn compile_select(
        self,
        ty: u32,
        cond: Variable,
        then: Variable,
        or_else: Variable,
        out: Variable,
    ) -> Step<()> {
        match self.value(cond) {
            Ok((v1, c)) => match v1.value(then) {
                Ok((v2, a)) => match v2.value(or_else) {
                    Ok((v3, b)) => match v3.value(out) {
                        Ok((v4, o)) => v4.put(Emit::Select, seq![ty, o, c, a, b]),
                        Err(e) => Err(e),
                    },
                    Err(e) => Err(e),
                },
                Err(e) => Err(e),
            },
            Err(e) => Err(e),
        }
    }

    /// The compiler after the terminator of a block that goes on or leaves
    /// a loop, and the blocks that follow: the body and the block behind
    /// the loop.
    pub open spec fn compile_break(self, cond: Variable, body: u32, or_break: u32) -> Step<Seq<u32>> {
        match self.label(body) {
            Ok((v1, lb)) => match v1.label(or_break) {
                Ok((v2, lo)) => match v2.value(cond) {
                    Ok((v3, c)) => match v3.end(Emit::BranchConditional, seq![c, lb, lo]) {
                        Ok((v4, _)) => Ok((v4, seq![body, or_break])),
                        Err(e) => Err(e),
                    },
                    Err(e) => Err(e),
                },
                Err(e) => Err(e),
            },
            Err(e) => Err(e),
        }
    }

    /// The compiler after the terminator of a block that branches on a
    /// condition, and the blocks that follow: both branches and the block
    /// where they meet.
    pub open spec fn compile_if_else(self, cond: Variable, then: u32, or_else: u32, merge: u32) -> Step<
        Seq<u32>,
    > {
        match self.labels3(then, or_else, merge) {
            Ok((v1, (lt, le, lm))) => match v1.value(cond) {
                Ok((v2, c)) => match v2.put(Emit::SelectionMerge, seq![lm, 0]) {
                    Ok((v3, _)) => match v3.end(Emit::BranchConditional, seq![c, lt, le]) {
                        Ok((v4, _)) => Ok((v4, seq![then, or_else, merge])),
                        Err(e) => Err(e),
                    },
                    Err(e) => Err(e),
                },
                Err(e) => Err(e),
            },
            Err(e) => Err(e),
        }
    }

    /// The compiler after the terminator of a block that switches on a
    /// value, and the blocks that follow: the default, each branch, and the
    /// block where they meet.
    pub open spec fn compile_switch(
        self,
        value: Variable,
        default: u32,
        branches: Seq<(u32, u32)>,
        merge: u32,
    ) -> Step<Seq<u32>> {
        match self.value(value) {
            Ok((v1, x)) => match v1.label(default) {
                Ok((v2, ld)) => match switch_targets(v2, branches) {
                    Ok((v3, words)) => match v3.label(merge) {
                        Ok((v4, lm)) => match v4.put(Emit::SelectionMerge, seq![lm, 0]) {
                            Ok((v5, _)) => match v5.end(Emit::Switch, seq![x, ld] + words) {
                                Ok((v6, _)) => Ok(
                                    (v6, seq![default] + branch_blocks(branches) + seq![merge]),
                                ),
                                Err(e) => Err(e),
                            },
                            Err(e) => Err(e),
                        },
                        Err(e) => Err(e),
                    },
                    Err(e) => Err(e),
                },
                Err(e) => Err(e),
            },
            Err(e) => Err(e),
        }
    }

    /// The compiler after the terminator of a block that enters a loop,
    /// and the blocks that follow: the body, the block that ends a round,
    /// and the block behind the loop.
    pub open spec fn compile_loop(self, body: u32, continue_target: u32, merge: u32) -> Step<Seq<u32>> {
        match self.labels3(body, continue_target, merge) {
            Ok((v1, (lb, lc, lm))) => match v1.put(Emit::LoopMerge, seq![lm, lc, 0]) {
                Ok((v2, _)) => match v2.end(Emit::Branch, seq![lb]) {
                    Ok((v3, _)) => Ok((v3, seq![body, continue_target, merge])),
                    Err(e) => Err(e),
                },
                Err(e) => Err(e),
            },
            Err(e) => Err(e),
        }
    }

    /// The compiler after the terminator of a block, and the blocks that
    /// follow, in the order in which they are to be compiled. A block that
    /// falls through branches to its one successor.
    pub open spec fn compile_control_flow(self, control_flow: ControlFlowView, successors: Seq<u32>) -> Step<
        Seq<u32>,
    > {
        match control_flow {
            ControlFlowView::Break { cond, body, or_break } => self.compile_break(
                cond,
                body,
                or_break,
            ),
            ControlFlowView::IfElse { cond, then, or_else, merge } => self.compile_if_else(
                cond,
                then,
                or_else,
                merge,
            ),
            ControlFlowView::Switch { value, default, branches, merge } => self.compile_switch(
                value,
                default,
                branches,
                merge,
            ),
            ControlFlowView::Loop { body, continue_target, merge } => self.compile_loop(
                body,
                continue_target,
                merge,
            ),
            ControlFlowView::Return => match self.end(Emit::Return, Seq::empty()) {
                Ok((v, _)) => Ok((SpirvView { current_block: None, ..v }, Seq::empty())),
                Err(e) => Err(e),
            },
            ControlFlowView::Fallthrough => if successors.len() != 1 {
                Err(EmitError::Shape)
            } else {
                match self.label(successors[0]) {
                    Ok((v1, l)) => match v1.end(Emit::Branch, seq![l]) {
                        Ok((v2, _)) => Ok((v2, seq![successors[0]])),
                        Err(e) => Err(e),
                    },
                    Err(e) => Err(e),
                }
            },
        }
    }
}

/// What a step promises whose result is a list.
pub open spec fn stepped_list(after: &SpirvCompiler, expected: Step<Seq<u32>>, got: Result<
    Vec<u32>,
    EmitError,
>) -> bool {
    match expected {
        Ok((v, t)) => match got {
            Ok(list) => list@ == t && after@ == v && after.wf(),
            Err(_) => false,
        },
        Err(e) => match got {
            Ok(_) => false,
            Err(e2) => e2 == e,
        },
    }
}

/// Targets of a switch that cannot be labelled after some of them cannot be
/// labelled after all of them.
pub proof fn lemma_switch_targets_failure(v: SpirvView, branches: Seq<(u32, u32)>, k: int)
    requires
        0 <= k <= branches.len(),
        switch_targets(v, branches.take(k)) is Err,
    ensures
        switch_targets(v, branches) is Err,
        switch_targets(v, branches)->Err_0 == switch_targets(v, branches.take(k))->Err_0,
    decreases branches.len() - k,
{
    if k < branches.len() {
        assert(branches.drop_last().take(k) =~= branches.take(k));
        lemma_switch_targets_failure(v, branches.drop_last(), k);
    } else {
        assert(branches.take(k) =~= branches);
    }
}

impl SpirvCompiler {
    /// Notes an instruction that the builder has taken into the block
    /// under construction, or not; `prior` is the compiler before the
    /// builder was asked.
    fn put<T>(
        &mut self,
        taken: Result<T, rspirv::dr::Error>,
        kind: Emit,
        words: Vec<u32>,
        Ghost(prior): Ghost<SpirvView>,
    ) -> (done: Result<(), EmitError>)
        requires
            old(self).wf(),
            taken is Ok <==> prior.in_function && prior.in_block,
            taken is Ok ==> old(self)@ == (SpirvView {
                code: prior.code.push((kind.opcode(), words@)),
                ..prior
            }),
        ensures
            stepped(final(self), prior.put(kind, words@), done),
    {
        match taken {
            Ok(_) => {
                self.record(kind, words);
                Ok(())
            },
            Err(_) => Err(EmitError::Misplaced),
        }
    }

    /// The labels of three blocks.
    fn labels3(&mut self, a: NodeId, b: NodeId, c: NodeId) -> (made: Result<
        (Word, Word, Word),
        EmitError,
    >)
        requires
            old(self).wf(),
        ensures
            stepped(final(self), old(self)@.labels3(a, b, c), made),
    {
        let la = match self.label(a) {
            Ok(l) => l,
            Err(e) => return Err(e),
        };
        let lb = match self.label(b) {
            Ok(l) => l,
            Err(e) => return Err(e),
        };
        let lc = match self.label(c) {
            Ok(l) => l,
            Err(e) => return Err(e),
        };
        Ok((la, lb, lc))
    }

    /// The type of the values of a variable: the type of truth values for a
    /// truth value, else the type of unsigned integers.
    pub fn type_of(&self, var: &Variable) -> (ty: Word)
        ensures
            ty == if var.item_spec() matches Some(item) && item.elem == crate::ir::Elem::Bool {
                self@.bool_type
            } else {
                self@.int_type
            },
    {
        match var.item() {
            Some(item) => match item.elem {
                crate::ir::Elem::Bool => self.bool_type,
                _ => self.int_type,
            },
            None => self.int_type,
        }
    }

    /// Compiles a selection: `out = if cond { then } else { or_else }`.
    pub fn compile_select(
        &mut self,
        cond: Variable,
        then: Variable,
        or_else: Variable,
        out: Variable,
    ) -> (done: Result<(), EmitError>)
        requires
            old(self).wf(),
        ensures
            stepped(
                final(self),
                old(self)@.compile_select(
                    if then.item_spec() matches Some(item) && item.elem == crate::ir::Elem::Bool {
                        old(self)@.bool_type
                    } else {
                        old(self)@.int_type
                    },
                    cond,
                    then,
                    or_else,
                    out,
                ),
                done,
            ),
    {
        let ty = self.type_of(&then);
        let c = match self.read(&cond) {
            Ok(id) => id,
            Err(e) => return Err(e),
        };
        let a = match self.read(&then) {
            Ok(id) => id,
            Err(e) => return Err(e),
        };
        let b = match self.read(&or_else) {
            Ok(id) => id,
            Err(e) => return Err(e),
        };
        let o = match self.read(&out) {
            Ok(id) => id,
            Err(e) => return Err(e),
        };
        let ghost prior = self@;
        let taken = builder_select(&mut self.builder, ty, o, c, a, b);
        let mut words: Vec<u32> = Vec::new();
        words.push(ty);
        words.push(o);
        words.push(c);
        words.push(a);
        words.push(b);
        assert(words@ =~= seq![ty, o, c, a, b]);
        self.put(taken, Emit::Select, words, Ghost(prior))
    }

    /// Compiles a branch that is no change of control: a selection. Any
    /// other branch is the terminator's business.
    pub fn compile_branch(&mut self, branch: &Branch) -> (done: Result<(), EmitError>)
        requires
            old(self).wf(),
        ensures
            match *branch {
                Branch::Select { cond, then, or_else, out } => stepped(
                    final(self),
                    old(self)@.compile_select(
                        if then.item_spec() matches Some(item) && item.elem
                            == crate::ir::Elem::Bool {
                            old(self)@.bool_type
                        } else {
                            old(self)@.int_type
                        },
                        cond,
                        then,
                        or_else,
                        out,
                    ),
                    done,
                ),
                _ => done is Ok && final(self)@ == old(self)@ && final(self).wf(),
            },
    {
        match branch {
            Branch::Select { cond, then, or_else, out } => self.compile_select(
                *cond,
                *then,
                *or_else,
                *out,
            ),
            _ => Ok(()),
        }
    }

    /// Notes a terminator with which the builder has ended the block under
    /// construction, or not; `prior` is the compiler before the builder
    /// was asked.
    fn end(
        &mut self,
        taken: Result<(), rspirv::dr::Error>,
        kind: Emit,
        words: Vec<u32>,
        Ghost(prior): Ghost<SpirvView>,
    ) -> (done: Result<(), EmitError>)
        requires
            old(self).wf(),
            taken is Ok <==> prior.in_function && prior.in_block,
            taken is Ok ==> old(self)@ == (SpirvView {
                code: prior.code.push((kind.opcode(), words@)),
                in_block: false,
                ..prior
            }),
        ensures
            stepped(final(self), prior.end(kind, words@), done),
    {
        match taken {
            Ok(_) => {
                self.record(kind, words);
                Ok(())
            },
            Err(_) => Err(EmitError::Misplaced),
        }
    }

    /// Compiles the terminator of a block that goes on or leaves a loop.
    pub fn compile_break(&mut self, cond: Variable, body: NodeId, or_break: NodeId) -> (done:
        Result<Vec<NodeId>, EmitError>)
        requires
            old(self).wf(),
        ensures
            stepped_list(final(self), old(self)@.compile_break(cond, body, or_break), done),
    {
        let lb = match self.label(body) {
            Ok(l) => l,
            Err(e) => return Err(e),
        };
        let lo = match self.label(or_break) {
            Ok(l) => l,
            Err(e) => return Err(e),
        };
        let c = match self.read(&cond) {
            Ok(id) => id,
            Err(e) => return Err(e),
        };
        let ghost prior = self@;
        let taken = builder_branch_conditional(&mut self.builder, c, lb, lo, Vec::new());
        let mut words: Vec<u32> = Vec::new();
        words.push(c);
        words.push(lb);
        words.push(lo);
        assert(words@ =~= seq![c, lb, lo]);
        match self.end(taken, Emit::BranchConditional, words, Ghost(prior)) {
            Ok(()) => {},
            Err(e) => return Err(e),
        }
        let mut next: Vec<NodeId> = Vec::new();
        next.push(body);
        next.push(or_break);
        assert(next@ =~= seq![body, or_break]);
        Ok(next)
    }

    /// Compiles the terminator of a block that branches on a condition.
    pub fn compile_if_else(
        &mut self,
        cond: Variable,
        then: NodeId,
        or_else: NodeId,
        merge: NodeId,
    ) -> (done: Result<Vec<NodeId>, EmitError>)
        requires
            old(self).wf(),
        ensures
            stepped_list(final(self), old(self)@.compile_if_else(cond, then, or_else, merge), done),
    {
        let (lt, le, lm) = match self.labels3(then, or_else, merge) {
            Ok(labels) => labels,
            Err(e) => return Err(e),
        };
        let c = match self.read(&cond) {
            Ok(id) => id,
            Err(e) => return Err(e),
        };
        let ghost prior = self@;
        let taken = builder_selection_merge(&mut self.builder, lm, 0);
        let mut words: Vec<u32> = Vec::new();
        words.push(lm);
        words.push(0);
        assert(words@ =~= seq![lm, 0u32]);
        match self.put(taken, Emit::SelectionMerge, words, Ghost(prior)) {
            Ok(()) => {},
            Err(e) => return Err(e),
        }
        let ghost prior = self@;
        let taken = builder_branch_conditional(&mut self.builder, c, lt, le, Vec::new());
        let mut words: Vec<u32> = Vec::new();
        words.push(c);
        words.push(lt);
        words.push(le);
        assert(words@ =~= seq![c, lt, le]);
        match self.end(taken, Emit::BranchConditional, words, Ghost(prior)) {
            Ok(()) => {},
            Err(e) => return Err(e),
        }
        let mut next: Vec<NodeId> = Vec::new();
        next.push(then);
        next.push(or_else);
        next.push(merge);
        assert(next@ =~= seq![then, or_else, merge]);
        Ok(next)
    }

    /// Compiles the terminator of a block that enters a loop.
    pub fn compile_loop(&mut self, body: NodeId, continue_target: NodeId, merge: NodeId) -> (done:
        Result<Vec<NodeId>, EmitError>)
        requires
            old(self).wf(),
        ensures
            stepped_list(
                final(self),
                old(self)@.compile_loop(body, continue_target, merge),
                done,
            ),
    {
        let (lb, lc, lm) = match self.labels3(body, continue_target, merge) {
            Ok(labels) => labels,
            Err(e) => return Err(e),
        };
        let ghost prior = self@;
        let taken = builder_loop_merge(&mut self.builder, lm, lc);
        let mut words: Vec<u32> = Vec::new();
        words.push(lm);
        words.push(lc);
        words.push(0);
        assert(words@ =~= seq![lm, lc, 0u32]);
        match self.put(taken, Emit::LoopMerge, words, Ghost(prior)) {
            Ok(()) => {},
            Err(e) => return Err(e),
        }
        let ghost prior = self@;
        let taken = builder_branch(&mut self.builder, lb);
        let mut words: Vec<u32> = Vec::new();
        words.push(lb);
        assert(words@ =~= seq![lb]);
        match self.end(taken, Emit::Branch, words, Ghost(prior)) {
            Ok(()) => {},
            Err(e) => return Err(e),
        }
        let mut next: Vec<NodeId> = Vec::new();
        next.push(body);
        next.push(continue_target);
        next.push(merge);
        assert(next@ =~= seq![body, continue_target, merge]);
        Ok(next)
    }
}

/// The end labels with the label beside the block: in the place of the
/// old one if there was one, else at the end.
pub open spec fn with_end_label(labels: Seq<(u32, u32)>, block: u32, label: u32) -> Seq<(u32, u32)> {
    let p = assoc_position(labels, block);
    if 0 <= p < labels.len() {
        labels.update(p, (block, label))
    } else {
        labels.push((block, label))
    }
}

impl SpirvView {
    /// The compiler after the head of a bounds check: the test of the
    /// index against the length, the branch on it, and the beginning of
    /// the block for an index inside. The result is the label of that
    /// block, the label of the block for an index outside, and the label
    /// of the block behind the check; `with_fallback` says whether an
    /// index outside has a block of its own.
    pub open spec fn open_bound(self, cond: u32, with_fallback: bool) -> Step<(u32, u32, u32)> {
        if self.current_block is None {
            Err(EmitError::Shape)
        } else {
            match self.fresh() {
                Ok((v1, inside)) => match (if with_fallback {
                    v1.fresh()
                } else {
                    Ok((v1, 0u32))
                }) {
                    Ok((v2, fallback)) => match v2.fresh() {
                        Ok((v3, next)) => {
                            let outside = if with_fallback {
                                fallback
                            } else {
                                next
                            };
                            match v3.put(Emit::SelectionMerge, seq![next, DONT_FLATTEN]) {
                                Ok((v4, _)) => match v4.end(
                                    Emit::BranchConditional,
                                    seq![cond, inside, outside, 1, 0],
                                ) {
                                    Ok((v5, _)) => match v5.open(inside) {
                                        Ok((v6, _)) => Ok((v6, (inside, outside, next))),
                                        Err(e) => Err(e),
                                    },
                                    Err(e) => Err(e),
                                },
                                Err(e) => Err(e),
                            }
                        },
                        Err(e) => Err(e),
                    },
                    Err(e) => Err(e),
                },
                Err(e) => Err(e),
            }
        }
    }

    /// The compiler after a comparison of two unsigned integers: the id of
    /// the truth value.
    pub open spec fn less_than(self, a: u32, b: u32) -> Step<u32> {
        match self.fresh() {
            Ok((v1, id)) => match v1.put(Emit::ULessThan, seq![self.bool_type, id, a, b]) {
                Ok((v2, _)) => Ok((v2, id)),
                Err(e) => Err(e),
            },
            Err(e) => Err(e),
        }
    }

    /// The compiler after the head of a checked read.
    pub open spec fn compile_read_bound(self, len: u32, index: u32) -> Step<(u32, u32, u32)> {
        match self.less_than(index, len) {
            Ok((v1, cond)) => v1.open_bound(cond, true),
            Err(e) => Err(e),
        }
    }

    /// The compiler after the head of a checked write.
    pub open spec fn compile_write_bound(self, len: u32, index: u32) -> Step<(u32, u32, u32)> {
        match self.less_than(index, len) {
            Ok((v1, cond)) => v1.open_bound(cond, false),
            Err(e) => Err(e),
        }
    }

    /// The compiler after the end of a checked write: the block for an
    /// index inside branches to the block behind the check, which begins
    /// and is where the current block of the program ends.
    pub open spec fn close_write_bound(self, next: u32) -> Step<()> {
        match self.current_block {
            None => Err(EmitError::Shape),
            Some(block) => match self.end(Emit::Branch, seq![next]) {
                Ok((v1, _)) => match v1.open(next) {
                    Ok((v2, _)) => Ok(
                        (
                            SpirvView {
                                end_labels: with_end_label(v2.end_labels, block, next),
                                ..v2
                            },
                            (),
                        ),
                    ),
                    Err(e) => Err(e),
                },
                Err(e) => Err(e),
            },
        }
    }

    /// The compiler after the end of a checked read of the type `ty`: the
    /// block for an index inside branches to the block behind the check;
    /// the block for an index outside makes the constant zero and branches
    /// there too; behind the check a phi node takes the value that was
    /// read or the zero. The result is the id of the phi node.
    pub open spec fn close_read_bound(
        self,
        ty: u32,
        value: u32,
        inside: u32,
        fallback: u32,
        next: u32,
    ) -> Step<u32> {
        match self.current_block {
            None => Err(EmitError::Shape),
            Some(block) => match self.end(Emit::Branch, seq![next]) {
                Ok((v1, _)) => match v1.open(fallback) {
                    Ok((v2, _)) => match v2.fresh() {
                        Ok((v3, zero)) => {
                            let v4 = SpirvView {
                                emitted: v3.emitted.push((Emit::Constant, seq![ty, zero, 0])),
                                ..v3
                            };
                            match v4.end(Emit::Branch, seq![next]) {
                                Ok((v5, _)) => match v5.open(next) {
                                    Ok((v6, _)) => match v6.fresh() {
                                        Ok((v7, id)) => match v7.put(
                                            Emit::Phi,
                                            seq![ty, id, value, inside, zero, fallback],
                                        ) {
                                            Ok((v8, _)) => Ok(
                                                (
                                                    SpirvView {
                                                        end_labels: with_end_label(
                                                            v8.end_labels,
                                                            block,
                                                            next,
                                                        ),
                                                        ..v8
                                                    },
                                                    id,
                                                ),
                                            ),
                                            Err(e) => Err(e),
                                        },
                                        Err(e) => Err(e),
                                    },
                                    Err(e) => Err(e),
                                },
                                Err(e) => Err(e),
                            }
                        },
                        Err(e) => Err(e),
                    },
                    Err(e) => Err(e),
                },
                Err(e) => Err(e),
            },
        }
    }

    /// The compiler after the sum of two integers: the id of the sum.
    pub open spec fn sum(self, a: u32, b: u32) -> Step<u32> {
        match self.fresh() {
            Ok((v1, id)) => match v1.put(Emit::IAdd, seq![self.int_type, id, a, b]) {
                Ok((v2, _)) => Ok((v2, id)),
                Err(e) => Err(e),
            },
            Err(e) => Err(e),
        }
    }

    /// An index moved by a length, if there is one.
    pub open spec fn moved(self, index: u32, len: Option<u32>) -> Step<u32> {
        match len {
            Some(l) => self.sum(index, l),
            None => Ok((self, index)),
        }
    }

    /// The compiler after the head of a checked copy: both indices, moved
    /// by the number of items if one is given, are tested against the
    /// lengths, and the copy stands in a block for indices inside.
    pub open spec fn compile_copy_bound(
        self,
        in_len: u32,
        out_len: u32,
        in_index: u32,
        out_index: u32,
        len: Option<u32>,
    ) -> Step<(u32, u32, u32)> {
        match self.moved(in_index, len) {
            Ok((v1, i)) => match v1.moved(out_index, len) {
                Ok((v2, o)) => match v2.less_than(i, in_len) {
                    Ok((v3, ci)) => match v3.less_than(o, out_len) {
                        Ok((v4, co)) => match v4.fresh() {
                            Ok((v5, c)) => match v5.put(
                                Emit::LogicalAnd,
                                seq![self.bool_type, c, ci, co],
                            ) {
                                Ok((v6, _)) => v6.open_bound(c, false),
                                Err(e) => Err(e),
                            },
                            Err(e) => Err(e),
                        },
                        Err(e) => Err(e),
                    },
                    Err(e) => Err(e),
                },
                Err(e) => Err(e),
            },
            Err(e) => Err(e),
        }
    }
}

impl SpirvCompiler {
    /// Compiles the terminator of a block that switches on a value.
    pub fn compile_switch(
        &mut self,
        value: Variable,
        default: NodeId,
        branches: &Vec<(u32, NodeId)>,
        merge: NodeId,
    ) -> (done: Result<Vec<NodeId>, EmitError>)
        requires
            old(self).wf(),
        ensures
            stepped_list(
                final(self),
                old(self)@.compile_switch(value, default, branches@, merge),
                done,
            ),
    {
        let x = match self.read(&value) {
            Ok(id) => id,
            Err(e) => return Err(e),
        };
        let ld = match self.label(default) {
            Ok(l) => l,
            Err(e) => return Err(e),
        };
        let ghost v2 = self@;
        let mut targets: Vec<(u32, Word)> = Vec::new();
        let mut words: Vec<u32> = Vec::new();
        words.push(x);
        words.push(ld);
        let mut next: Vec<NodeId> = Vec::new();
        next.push(default);
        let mut i: usize = 0;
        assert(words@ =~= seq![x, ld] + Seq::<u32>::empty());
        assert(next@ =~= seq![default] + branch_blocks(branches@.take(0)));
        while i < branches.len()
            invariant
                i <= branches.len(),
                self.wf(),
                old(self)@.value(value) matches Ok((v1, xx)) && xx == x && v1.label(default)
                    == Ok::<(SpirvView, u32), EmitError>((v2, ld)),
                switch_targets(v2, branches@.take(i as int)) matches Ok((v, w)) && v == self@
                    && words@ == seq![x, ld] + w && w == flat(targets@),
                next@ == seq![default] + branch_blocks(branches@.take(i as int)),
            decreases branches.len() - i,
        {
            proof {
                assert(branches@.take(i + 1).drop_last() =~= branches@.take(i as int));
                assert(branches@.take(i + 1).last() == branches@[i as int]);
            }
            let ghost before = switch_targets(v2, branches@.take(i as int))->Ok_0.1;
            let l = match self.label(branches[i].1) {
                Ok(l) => l,
                Err(e) => {
                    proof {
                        assert(switch_targets(v2, branches@.take(i + 1)) is Err);
                        lemma_switch_targets_failure(v2, branches@, i + 1);
                    }
                    return Err(e);
                },
            };
            let ghost listed = targets@;
            targets.push((branches[i].0, l));
            proof {
                assert(targets@.drop_last() =~= listed);
            }
            words.push(branches[i].0);
            words.push(l);
            next.push(branches[i].1);
            proof {
                assert(words@ =~= seq![x, ld] + before.push(branches@[i as int].0).push(l));
                assert(next@ =~= seq![default] + branch_blocks(branches@.take(i + 1)));
            }
            i += 1;
        }
        proof {
            assert(branches@.take(i as int) =~= branches@);
        }
        let lm = match self.label(merge) {
            Ok(l) => l,
            Err(e) => return Err(e),
        };
        let ghost prior = self@;
        let taken = builder_selection_merge(&mut self.builder, lm, 0);
        let mut merge_words: Vec<u32> = Vec::new();
        merge_words.push(lm);
        merge_words.push(0);
        assert(merge_words@ =~= seq![lm, 0u32]);
        match self.put(taken, Emit::SelectionMerge, merge_words, Ghost(prior)) {
            Ok(()) => {},
            Err(e) => return Err(e),
        }
        let ghost prior = self@;
        let taken = builder_switch(&mut self.builder, x, ld, targets);
        match self.end(taken, Emit::Switch, words, Ghost(prior)) {
            Ok(()) => {},
            Err(e) => return Err(e),
        }
        next.push(merge);
        proof {
            assert(next@ =~= seq![default] + branch_blocks(branches@) + seq![merge]);
        }
        Ok(next)
    }

    /// Compiles the terminator of the block under construction, and says
    /// which blocks follow, in the order in which they are to be compiled.
    /// For a block that falls through, `successors` are its successors:
    /// where they are not just one, the compiler gives up and nothing
    /// changes, neither in the compiler nor in the builder.
    pub fn compile_control_flow(
        &mut self,
        control_flow: &ControlFlow,
        successors: &Vec<NodeId>,
    ) -> (done: Result<Vec<NodeId>, EmitError>)
        requires
            old(self).wf(),
        ensures
            stepped_list(
                final(self),
                old(self)@.compile_control_flow(control_flow@, successors@),
                done,
            ),
            control_flow@ is Fallthrough && successors@.len() != 1 ==> done == Err::<
                Vec<NodeId>,
                EmitError,
            >(EmitError::Shape) && final(self)@ == old(self)@ && final(self).wf(),
    {
        match control_flow {
            ControlFlow::Break { cond, body, or_break } => self.compile_break(
                *cond,
                *body,
                *or_break,
            ),
            ControlFlow::IfElse { cond, then, or_else, merge } => self.compile_if_else(
                *cond,
                *then,
                *or_else,
                *merge,
            ),
            ControlFlow::Switch { value, default, branches, merge } => self.compile_switch(
                *value,
                *default,
                branches,
                *merge,
            ),
            ControlFlow::Loop { body, continue_target, merge } => self.compile_loop(
                *body,
                *continue_target,
                *merge,
            ),
            ControlFlow::Return => {
                let ghost prior = self@;
                let taken = builder_ret(&mut self.builder);
                match self.end(taken, Emit::Return, Vec::new(), Ghost(prior)) {
                    Ok(()) => {},
                    Err(e) => return Err(e),
                }
                self.current_block = None;
                Ok(Vec::new())
            },
            ControlFlow::Fallthrough => {
                if successors.len() != 1 {
                    return Err(EmitError::Shape);
                }
                let child = successors[0];
                let l = match self.label(child) {
                    Ok(l) => l,
                    Err(e) => return Err(e),
                };
                let ghost prior = self@;
                let taken = builder_branch(&mut self.builder, l);
                let mut words: Vec<u32> = Vec::new();
                words.push(l);
                assert(words@ =~= seq![l]);
                match self.end(taken, Emit::Branch, words, Ghost(prior)) {
                    Ok(()) => {},
                    Err(e) => return Err(e),
                }
                let mut next: Vec<NodeId> = Vec::new();
                next.push(child);
                assert(next@ =~= seq![child]);
                Ok(next)
            },
        }
    }

    /// Compares two unsigned integers.
    fn less_than(&mut self, a: Word, b: Word) -> (made: Result<Word, EmitError>)
        requires
            old(self).wf(),
        ensures
            stepped(final(self), old(self)@.less_than(a, b), made),
    {
        let id = match self.fresh_id() {
            Ok(id) => id,
            Err(e) => return Err(e),
        };
        let ty = self.bool_type;
        let ghost prior = self@;
        let taken = builder_u_less_than(&mut self.builder, ty, id, a, b);
        let mut words: Vec<u32> = Vec::new();
        words.push(ty);
        words.push(id);
        words.push(a);
        words.push(b);
        assert(words@ =~= seq![ty, id, a, b]);
        match self.put(taken, Emit::ULessThan, words, Ghost(prior)) {
            Ok(()) => Ok(id),
            Err(e) => Err(e),
        }
    }

    /// Adds a length to an index, if there is one.
    fn moved(&mut self, index: Word, len: Option<Word>) -> (made: Result<Word, EmitError>)
        requires
            old(self).wf(),
        ensures
            stepped(final(self), old(self)@.moved(index, len), made),
    {
        match len {
            Some(l) => {
                let id = match self.fresh_id() {
                    Ok(id) => id,
                    Err(e) => return Err(e),
                };
                let ty = self.int_type;
                let ghost prior = self@;
                let taken = builder_i_add(&mut self.builder, ty, id, index, l);
                let mut words: Vec<u32> = Vec::new();
                words.push(ty);
                words.push(id);
                words.push(index);
                words.push(l);
                assert(words@ =~= seq![ty, id, index, l]);
                match self.put(taken, Emit::IAdd, words, Ghost(prior)) {
                    Ok(()) => Ok(id),
                    Err(e) => Err(e),
                }
            },
            None => Ok(index),
        }
    }

    /// Emits the branch on a bounds check and begins the block for an index
    /// inside.
    fn open_bound(&mut self, cond: Word, with_fallback: bool) -> (made: Result<
        (Word, Word, Word),
        EmitError,
    >)
        requires
            old(self).wf(),
        ensures
            stepped(final(self), old(self)@.open_bound(cond, with_fallback), made),
    {
        if self.current_block.is_none() {
            return Err(EmitError::Shape);
        }
        let inside = match self.fresh_id() {
            Ok(id) => id,
            Err(e) => return Err(e),
        };
        let fallback = if with_fallback {
            match self.fresh_id() {
                Ok(id) => id,
                Err(e) => return Err(e),
            }
        } else {
            0
        };
        let next = match self.fresh_id() {
            Ok(id) => id,
            Err(e) => return Err(e),
        };
        let outside = if with_fallback {
            fallback
        } else {
            next
        };
        let ghost prior = self@;
        let taken = builder_selection_merge(&mut self.builder, next, DONT_FLATTEN);
        let mut words: Vec<u32> = Vec::new();
        words.push(next);
        words.push(DONT_FLATTEN);
        assert(words@ =~= seq![next, DONT_FLATTEN]);
        match self.put(taken, Emit::SelectionMerge, words, Ghost(prior)) {
            Ok(()) => {},
            Err(e) => return Err(e),
        }
        let mut weights: Vec<u32> = Vec::new();
        weights.push(1);
        weights.push(0);
        assert(weights@ =~= seq![1u32, 0u32]);
        let ghost prior = self@;
        let taken = builder_branch_conditional(&mut self.builder, cond, inside, outside, weights);
        let mut words: Vec<u32> = Vec::new();
        words.push(cond);
        words.push(inside);
        words.push(outside);
        words.push(1);
        words.push(0);
        assert(words@ =~= seq![cond, inside, outside] + seq![1u32, 0u32]);
        assert(words@ =~= seq![cond, inside, outside, 1u32, 0u32]);
        match self.end(taken, Emit::BranchConditional, words, Ghost(prior)) {
            Ok(()) => {},
            Err(e) => return Err(e),
        }
        match self.begin_block(inside) {
            Ok(()) => {},
            Err(e) => return Err(e),
        }
        Ok((inside, outside, next))
    }

    /// Compiles the head of a checked read at `index` of an array of
    /// length `len`: what reads the array follows, and then
    /// `close_read_bound`. The result is the label of the block for an
    /// index inside, of the block for an index outside, and of the block
    /// behind the check.
    pub fn compile_read_bound(&mut self, len: Word, index: Word) -> (made: Result<
        (Word, Word, Word),
        EmitError,
    >)
        requires
            old(self).wf(),
        ensures
            stepped(final(self), old(self)@.compile_read_bound(len, index), made),
    {
        let cond = match self.less_than(index, len) {
            Ok(id) => id,
            Err(e) => return Err(e),
        };
        self.open_bound(cond, true)
    }

    /// Compiles the head of a checked write at `index` of an array of
    /// length `len`: what writes the array follows, and then
    /// `close_write_bound`.
    pub fn compile_write_bound(&mut self, len: Word, index: Word) -> (made: Result<
        (Word, Word, Word),
        EmitError,
    >)
        requires
            old(self).wf(),
        ensures
            stepped(final(self), old(self)@.compile_write_bound(len, index), made),
    {
        let cond = match self.less_than(index, len) {
            Ok(id) => id,
            Err(e) => return Err(e),
        };
        self.open_bound(cond, false)
    }

    /// Compiles the head of a checked copy: what copies follows, and then
    /// `close_write_bound`.
    pub fn compile_copy_bound(
        &mut self,
        in_len: Word,
        out_len: Word,
        in_index: Word,
        out_index: Word,
        len: Option<Word>,
    ) -> (made: Result<(Word, Word, Word), EmitError>)
        requires
            old(self).wf(),
        ensures
            stepped(
                final(self),
                old(self)@.compile_copy_bound(in_len, out_len, in_index, out_index, len),
                made,
            ),
    {
        let ghost bool_type = self@.bool_type;
        let i = match self.moved(in_index, len) {
            Ok(id) => id,
            Err(e) => return Err(e),
        };
        let o = match self.moved(out_index, len) {
            Ok(id) => id,
            Err(e) => return Err(e),
        };
        let ci = match self.less_than(i, in_len) {
            Ok(id) => id,
            Err(e) => return Err(e),
        };
        let co = match self.less_than(o, out_len) {
            Ok(id) => id,
            Err(e) => return Err(e),
        };
        let c = match self.fresh_id() {
            Ok(id) => id,
            Err(e) => return Err(e),
        };
        let ty = self.bool_type;
        let ghost prior = self@;
        let taken = builder_logical_and(&mut self.builder, ty, c, ci, co);
        let mut words: Vec<u32> = Vec::new();
        words.push(ty);
        words.push(c);
        words.push(ci);
        words.push(co);
        assert(words@ =~= seq![ty, c, ci, co]);
        match self.put(taken, Emit::LogicalAnd, words, Ghost(prior)) {
            Ok(()) => {},
            Err(e) => return Err(e),
        }
        self.open_bound(c, false)
    }

    /// Notes the label in which a block of the program ends.
    fn set_end_label(&mut self, block: NodeId, label: Word)
        ensures
            final(self)@ == (SpirvView {
                end_labels: with_end_label(old(self)@.end_labels, block, label),
                ..old(self)@
            }),
            final(self).wf() == old(self).wf(),
    {
        let mut i: usize = 0;
        while i < self.end_labels.len()
            invariant
                i <= self.end_labels.len(),
                *self == *old(self),
                assoc_position(self.end_labels@.take(i as int), block) == -1,
            decreases self.end_labels.len() - i,
        {
            proof {
                assert(self.end_labels@.take(i + 1).drop_last() =~= self.end_labels@.take(
                    i as int,
                ));
                lemma_assoc_position(self.end_labels@, i + 1, block);
            }
            if self.end_labels[i].0 == block {
                proof {
                    assert(self.end_labels@.take(i + 1).last() == self.end_labels@[i as int]);
                    assert(assoc_position(self.end_labels@.take(i + 1), block) == i);
                }
                self.end_labels[i] = (block, label);
                return;
            }
            i += 1;
        }
        proof {
            assert(self.end_labels@.take(i as int) =~= self.end_labels@);
        }
        self.end_labels.push((block, label));
    }

    /// Compiles the end of a checked write or copy.
    pub fn close_write_bound(&mut self, next: Word) -> (done: Result<(), EmitError>)
        requires
            old(self).wf(),
        ensures
            stepped(final(self), old(self)@.close_write_bound(next), done),
    {
        let block = match self.current_block {
            Some(block) => block,
            None => return Err(EmitError::Shape),
        };
        let ghost prior = self@;
        let taken = builder_branch(&mut self.builder, next);
        let mut words: Vec<u32> = Vec::new();
        words.push(next);
        assert(words@ =~= seq![next]);
        match self.end(taken, Emit::Branch, words, Ghost(prior)) {
            Ok(()) => {},
            Err(e) => return Err(e),
        }
        match self.begin_block(next) {
            Ok(()) => {},
            Err(e) => return Err(e),
        }
        self.set_end_label(block, next);
        Ok(())
    }

    /// Compiles the end of a checked read whose value has the id `value`
    /// and the type `ty`, and returns the id that holds the value, or zero
    /// for an index outside.
    pub fn close_read_bound(
        &mut self,
        ty: Word,
        value: Word,
        inside: Word,
        fallback: Word,
        next: Word,
    ) -> (made: Result<Word, EmitError>)
        requires
            old(self).wf(),
        ensures
            stepped(
                final(self),
                old(self)@.close_read_bound(ty, value, inside, fallback, next),
                made,
            ),
    {
        let block = match self.current_block {
            Some(block) => block,
            None => return Err(EmitError::Shape),
        };
        let ghost prior = self@;
        let taken = builder_branch(&mut self.builder, next);
        let mut words: Vec<u32> = Vec::new();
        words.push(next);
        assert(words@ =~= seq![next]);
        match self.end(taken, Emit::Branch, words, Ghost(prior)) {
            Ok(()) => {},
            Err(e) => return Err(e),
        }
        match self.begin_block(fallback) {
            Ok(()) => {},
            Err(e) => return Err(e),
        }
        if self.id_bound == u32::MAX {
            return Err(EmitError::OutOfIds);
        }
        let zero = builder_constant_bit32(&mut self.builder, ty, 0);
        self.id_bound = self.id_bound + 1;
        let mut words: Vec<u32> = Vec::new();
        words.push(ty);
        words.push(zero);
        words.push(0);
        assert(words@ =~= seq![ty, zero, 0u32]);
        self.record(Emit::Constant, words);
        let ghost prior = self@;
        let taken = builder_branch(&mut self.builder, next);
        let mut words: Vec<u32> = Vec::new();
        words.push(next);
        assert(words@ =~= seq![next]);
        match self.end(taken, Emit::Branch, words, Ghost(prior)) {
            Ok(()) => {},
            Err(e) => return Err(e),
        }
        match self.begin_block(next) {
            Ok(()) => {},
            Err(e) => return Err(e),
        }
        let id = match self.fresh_id() {
            Ok(id) => id,
            Err(e) => return Err(e),
        };
        let mut incoming: Vec<(Word, Word)> = Vec::new();
        incoming.push((value, inside));
        incoming.push((zero, fallback));
        proof {
            reveal_with_fuel(flat, 3);
            assert(incoming@.drop_last() =~= seq![(value, inside)]);
            assert(incoming@.drop_last().drop_last() =~= Seq::<(u32, u32)>::empty());
            assert(flat(incoming@) =~= seq![value, inside, zero, fallback]);
        }
        let ghost prior = self@;
        let taken = builder_phi(&mut self.builder, ty, id, incoming);
        let mut words: Vec<u32> = Vec::new();
        words.push(ty);
        words.push(id);
        words.push(value);
        words.push(inside);
        words.push(zero);
        words.push(fallback);
        assert(words@ =~= seq![ty, id] + flat(incoming@));
        assert(words@ =~= seq![ty, id, value, inside, zero, fallback]);
        match self.put(taken, Emit::Phi, words, Ghost(prior)) {
            Ok(()) => {},
            Err(e) => return Err(e),
        }
        self.set_end_label(block, next);
        Ok(id)
    }
}

/// The compiler after a block of the program and the blocks that follow
/// it, and the blocks that were compiled by then: a block that was
/// compiled before, or that the program does not have, is passed over; any
/// other gets its label, begins, ends with its terminator, and the blocks
/// that the terminator names follow in their order. Blocks are followed to
/// a depth of `fuel` at most.
pub open spec fn compile_block_spec(
    v: SpirvView,
    p: ProgramView,
    done: Set<u32>,
    block: u32,
    fuel: nat,
) -> Step<Set<u32>>
    decreases fuel, 0nat, 0nat,
{
    if fuel == 0 || done.contains(block) || block >= p.blocks.len() {
        Ok((v, done))
    } else {
        match v.label(block) {
            Ok((v1, l)) => match v1.open(l) {
                Ok((v2, _)) => match (SpirvView {
                    current_block: Some(block),
                    ..v2
                }).compile_control_flow(p.blocks[block as int].control_flow, p.successors(block)) {
                    Ok((v3, next)) => compile_blocks_spec(
                        v3,
                        p,
                        done.insert(block),
                        next,
                        (fuel - 1) as nat,
                    ),
                    Err(e) => Err(e),
                },
                Err(e) => Err(e),
            },
            Err(e) => Err(e),
        }
    }
}

/// The compiler after some blocks of the program, in their order.
pub open spec fn compile_blocks_spec(
    v: SpirvView,
    p: ProgramView,
    done: Set<u32>,
    blocks: Seq<u32>,
    fuel: nat,
) -> Step<Set<u32>>
    decreases fuel, 1nat, blocks.len(),
{
    if blocks.len() == 0 {
        Ok((v, done))
    } else {
        match compile_blocks_spec(v, p, done, blocks.drop_last(), fuel) {
            Ok((v1, d1)) => compile_block_spec(v1, p, d1, blocks.last(), fuel),
            Err(e) => Err(e),
        }
    }
}

/// Blocks that cannot be compiled after some of them cannot be compiled
/// after all of them.
pub proof fn lemma_compile_blocks_failure(
    v: SpirvView,
    p: ProgramView,
    done: Set<u32>,
    blocks: Seq<u32>,
    fuel: nat,
    k: int,
)
    requires
        0 <= k <= blocks.len(),
        compile_blocks_spec(v, p, done, blocks.take(k), fuel) is Err,
    ensures
        compile_blocks_spec(v, p, done, blocks, fuel) is Err,
        compile_blocks_spec(v, p, done, blocks, fuel)->Err_0 == compile_blocks_spec(
            v,
            p,
            done,
            blocks.take(k),
            fuel,
        )->Err_0,
    decreases blocks.len() - k,
{
    if k < blocks.len() {
        assert(blocks.drop_last().take(k) =~= blocks.take(k));
        lemma_compile_blocks_failure(v, p, done, blocks.drop_last(), fuel, k);
    } else {
        assert(blocks.take(k) =~= blocks);
    }
}

impl SpirvCompiler {
    /// Compiles a block of the program and the blocks that follow it:
    /// labels, terminators and what belongs to them. `done` says which
    /// blocks were compiled before.
    pub fn compile_block(&mut self, opt: &Optimizer, done: &mut Vec<bool>, block: NodeId, fuel: usize) -> (compiled:
        Result<(), EmitError>)
        requires
            old(self).wf(),
            old(done)@.len() == opt@.program.blocks.len(),
        ensures
            match compile_block_spec(
                old(self)@,
                opt@.program,
                crate::closure::flagged(old(done)@),
                block,
                fuel as nat,
            ) {
                Ok((v, d)) => compiled is Ok && final(self)@ == v && final(self).wf()
                    && crate::closure::flagged(final(done)@) == d && final(done)@.len() == old(done)@.len(),
                Err(e) => compiled == Err::<(), EmitError>(e),
            },
        decreases fuel, 0nat, 0nat,
    {
        if fuel == 0 || block as usize >= done.len() || done[block as usize] {
            return Ok(());
        }
        let ghost d0 = crate::closure::flagged(done@);
        let l = match self.label(block) {
            Ok(l) => l,
            Err(e) => return Err(e),
        };
        match self.begin_block(l) {
            Ok(()) => {},
            Err(e) => return Err(e),
        }
        self.current_block = Some(block);
        let successors = opt.sucessors(block);
        let next = match self.compile_control_flow(&opt.block(block).control_flow, &successors) {
            Ok(next) => next,
            Err(e) => return Err(e),
        };
        done.set(block as usize, true);
        proof {
            assert(crate::closure::flagged(done@) =~= d0.insert(block));
        }
        self.compile_blocks(opt, done, &next, fuel - 1)
    }

    /// Compiles some blocks of the program, in their order.
    pub fn compile_blocks(&mut self, opt: &Optimizer, done: &mut Vec<bool>, blocks: &Vec<NodeId>, fuel: usize) -> (compiled:
        Result<(), EmitError>)
        requires
            old(self).wf(),
            old(done)@.len() == opt@.program.blocks.len(),
        ensures
            match compile_blocks_spec(
                old(self)@,
                opt@.program,
                crate::closure::flagged(old(done)@),
                blocks@,
                fuel as nat,
            ) {
                Ok((v, d)) => compiled is Ok && final(self)@ == v && final(self).wf()
                    && crate::closure::flagged(final(done)@) == d && final(done)@.len() == old(done)@.len(),
                Err(e) => compiled == Err::<(), EmitError>(e),
            },
        decreases fuel, 1nat, blocks@.len(),
    {
        let ghost v0 = self@;
        let ghost d0 = crate::closure::flagged(done@);
        let mut i: usize = 0;
        while i < blocks.len()
            invariant
                i <= blocks.len(),
                self.wf(),
                done@.len() == opt@.program.blocks.len(),
                done@.len() == old(done)@.len(),
                v0 == old(self)@,
                d0 == crate::closure::flagged(old(done)@),
                compile_blocks_spec(v0, opt@.program, d0, blocks@.take(i as int), fuel as nat)
                    == Ok::<(SpirvView, Set<u32>), EmitError>(
                    (self@, crate::closure::flagged(done@)),
                ),
            decreases blocks.len() - i,
        {
            proof {
                assert(blocks@.take(i + 1).drop_last() =~= blocks@.take(i as int));
                assert(blocks@.take(i + 1).last() == blocks@[i as int]);
            }
            match self.compile_block(opt, done, blocks[i], fuel) {
                Ok(()) => {},
                Err(e) => {
                    proof {
                        assert(compile_blocks_spec(
                            v0,
                            opt@.program,
                            d0,
                            blocks@.take(i + 1),
                            fuel as nat,
                        ) is Err);
                        lemma_compile_blocks_failure(
                            v0,
                            opt@.program,
                            d0,
                            blocks@,
                            fuel as nat,
                            i + 1,
                        );
                    }
                    return Err(e);
                },
            }
            i += 1;
        }
        proof {
            assert(blocks@.take(i as int) =~= blocks@);
        }
        Ok(())
    }
}

} // verus!
