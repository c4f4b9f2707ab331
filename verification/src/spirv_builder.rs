//! The builder of SPIR-V modules: the `Builder` of the rspirv crate, with
//! what is claimed of the calls that the compiler makes.

use rspirv::dr::Builder;
use rspirv::dr::Error;
use vstd::prelude::*;

verus! {

/// An id in a SPIR-V module.
pub type Word = u32;

#[verifier::external_type_specification]
#[verifier::external_body]
pub struct ExBuilder(Builder);

#[verifier::external_type_specification]
#[verifier::external_body]
pub struct ExBuildError(Error);

/// The id that the builder hands out next.
pub uninterp spec fn builder_next_id(b: Builder) -> nat;

/// Whether the builder has a function under construction.
pub uninterp spec fn builder_in_function(b: Builder) -> bool;

/// Whether the builder has a block under construction.
pub uninterp spec fn builder_in_block(b: Builder) -> bool;

/// The instructions of the blocks of the function under construction,
/// block after block, each block with its label first and then its
/// instructions in their order; empty where no function is under
/// construction. Each instruction stands with the number of its opcode
/// and its words: the result type and the result id where it has them, and
/// then its operands, each an id, a number or the bits of a mask.
pub uninterp spec fn builder_code(b: Builder) -> Seq<(u32, Seq<u32>)>;

/// Whether the block under construction, if there is one, is the last
/// block of the function under construction: what is put at its end is
/// then put at the end of the function.
pub uninterp spec fn builder_at_end(b: Builder) -> bool;

/// The ids of pairs in a row: of each pair the first and then the second.
pub open spec fn flat(pairs: Seq<(u32, u32)>) -> Seq<u32>
    decreases pairs.len(),
{
    if pairs.len() == 0 {
        Seq::empty()
    } else {
        flat(pairs.drop_last()).push(pairs.last().0).push(pairs.last().1)
    }
}

/// Whether `after` holds the instructions of `before`, and behind them the
/// one with the given opcode and words if `done` says that it was taken.
pub open spec fn appended<T>(
    before: Builder,
    after: Builder,
    done: Result<T, Error>,
    opcode: u32,
    words: Seq<u32>,
) -> bool {
    builder_code(after) == if done is Ok {
        builder_code(before).push((opcode, words))
    } else {
        builder_code(before)
    }
}

/// Whether `after` is in the same place as `before`: in the same function
/// and block, or in none.
pub open spec fn same_place(before: Builder, after: Builder) -> bool {
    builder_in_function(after) == builder_in_function(before) && builder_in_block(after)
        == builder_in_block(before)
}

/// Whether `after` is `before` after an instruction was put into the block
/// that is under construction, if there was one with its function, and
/// `done` says whether there was.
pub open spec fn put_into_block<T>(before: Builder, after: Builder, done: Result<T, Error>) -> bool {
    &&& done is Ok <==> builder_in_function(before) && builder_in_block(before)
    &&& same_place(before, after)
    &&& builder_next_id(after) == builder_next_id(before)
    &&& builder_at_end(after)
}

/// Whether `after` is `before` after a terminator ended the block that is
/// under construction, if there was one with its function, and `done` says
/// whether there was.
pub open spec fn ended_block(before: Builder, after: Builder, done: Result<(), Error>) -> bool {
    &&& done is Ok <==> builder_in_function(before) && builder_in_block(before)
    &&& builder_in_function(after) == builder_in_function(before)
    &&& builder_in_block(after) == (builder_in_block(before) && done is Err)
    &&& builder_next_id(after) == builder_next_id(before)
    &&& builder_at_end(after)
}

/// Whether `after` is `before` after a type was declared: the place and
/// the instructions of the blocks are the same, and at most one id was
/// used.
pub open spec fn declared(before: Builder, after: Builder) -> bool {
    &&& same_place(before, after)
    &&& builder_next_id(before) <= builder_next_id(after) <= builder_next_id(before) + 1
    &&& builder_code(after) == builder_code(before)
    &&& builder_at_end(after) == builder_at_end(before)
}

/// `Builder::new`: a builder without a function under construction and
/// without instructions, whose first id is 1.
#[verifier::external_body]
pub(crate) fn builder_new() -> (b: Builder)
    ensures
        builder_next_id(b) == 1,
        !builder_in_function(b),
        !builder_in_block(b),
        builder_code(b) == Seq::<(u32, Seq<u32>)>::empty(),
        builder_at_end(b),
{
    Builder::new()
}

/// `Builder::id`: the next id, which is then used.
#[verifier::external_body]
pub(crate) fn builder_id(b: &mut Builder) -> (id: Word)
    requires
        builder_next_id(*old(b)) < u32::MAX,
    ensures
        id == builder_next_id(*old(b)),
        builder_next_id(*final(b)) == builder_next_id(*old(b)) + 1,
        same_place(*old(b), *final(b)),
        builder_code(*final(b)) == builder_code(*old(b)),
        builder_at_end(*final(b)) == builder_at_end(*old(b)),
{
    b.id()
}

/// `Builder::type_void`: the id of the type; at most one id is used.
#[verifier::external_body]
pub(crate) fn builder_type_void(b: &mut Builder) -> (id: Word)
    requires
        builder_next_id(*old(b)) < u32::MAX,
    ensures
        declared(*old(b), *final(b)),
{
    b.type_void()
}

/// `Builder::type_bool`: the id of the type; at most one id is used.
#[verifier::external_body]
pub(crate) fn builder_type_bool(b: &mut Builder) -> (id: Word)
    requires
        builder_next_id(*old(b)) < u32::MAX,
    ensures
        declared(*old(b), *final(b)),
{
    b.type_bool()
}

/// `Builder::type_int`: the id of the type; at most one id is used.
#[verifier::external_body]
pub(crate) fn builder_type_int(b: &mut Builder, width: u32, signedness: u32) -> (id: Word)
    requires
        builder_next_id(*old(b)) < u32::MAX,
    ensures
        declared(*old(b), *final(b)),
{
    b.type_int(width, signedness)
}

/// `Builder::type_function` for a function without parameters: the id of
/// the type; at most one id is used.
#[verifier::external_body]
pub(crate) fn builder_type_function(b: &mut Builder, return_type: Word) -> (id: Word)
    requires
        builder_next_id(*old(b)) < u32::MAX,
    ensures
        declared(*old(b), *final(b)),
{
    b.type_function(return_type, Vec::new())
}

/// `Builder::constant_bit32`: the id of the constant, which is the next id.
/// The constant stands among the values of the module, in no block.
#[verifier::external_body]
pub(crate) fn builder_constant_bit32(b: &mut Builder, result_type: Word, value: u32) -> (id: Word)
    requires
        builder_next_id(*old(b)) < u32::MAX,
    ensures
        id == builder_next_id(*old(b)),
        builder_next_id(*final(b)) == builder_next_id(*old(b)) + 1,
        same_place(*old(b), *final(b)),
        builder_code(*final(b)) == builder_code(*old(b)),
        builder_at_end(*final(b)) == builder_at_end(*old(b)),
{
    b.constant_bit32(result_type, value)
}

/// `Builder::begin_function` with the given id and no function control: it
/// succeeds exactly if no function is under construction, and then one is,
/// which has no block yet.
#[verifier::external_body]
pub(crate) fn builder_begin_function(
    b: &mut Builder,
    return_type: Word,
    id: Word,
    function_type: Word,
) -> (done: Result<Word, Error>)
    ensures
        done is Ok <==> !builder_in_function(*old(b)),
        done is Ok ==> done->Ok_0 == id,
        builder_in_function(*final(b)),
        builder_in_block(*final(b)) == builder_in_block(*old(b)),
        builder_next_id(*final(b)) == builder_next_id(*old(b)),
        builder_code(*final(b)) == if done is Ok {
            Seq::<(u32, Seq<u32>)>::empty()
        } else {
            builder_code(*old(b))
        },
        !builder_in_block(*old(b)) && builder_at_end(*old(b)) ==> builder_at_end(*final(b)),
{
    b.begin_function(return_type, Some(id), rspirv::spirv::FunctionControl::NONE, function_type)
}

/// `Builder::begin_block` with the given label: it succeeds exactly if a
/// function is under construction and no block is, and then one is, which
/// stands behind the blocks of the function and holds its label.
#[verifier::external_body]
pub(crate) fn builder_begin_block(b: &mut Builder, label: Word) -> (done: Result<Word, Error>)
    ensures
        done is Ok <==> builder_in_function(*old(b)) && !builder_in_block(*old(b)),
        done is Ok ==> done->Ok_0 == label,
        builder_in_function(*final(b)) == builder_in_function(*old(b)),
        builder_in_block(*final(b)) == (builder_in_block(*old(b)) || done is Ok),
        builder_next_id(*final(b)) == builder_next_id(*old(b)),
        appended(*old(b), *final(b), done, 248, seq![label]),
        builder_at_end(*final(b)) == (done is Ok || builder_at_end(*old(b))),
{
    b.begin_block(Some(label))
}

/// `Builder::branch`: puts `OpBranch` with its target at the end of the
/// block under construction and ends the block.
#[verifier::external_body]
pub(crate) fn builder_branch(b: &mut Builder, target: Word) -> (done: Result<(), Error>)
    requires
        builder_at_end(*old(b)),
    ensures
        ended_block(*old(b), *final(b), done),
        appended(*old(b), *final(b), done, 249, seq![target]),
{
    b.branch(target)
}

/// `Builder::branch_conditional`: puts `OpBranchConditional` with the
/// condition, the label taken if it holds, the label taken if not, and the
/// weights at the end of the block under construction and ends the block.
#[verifier::external_body]
pub(crate) fn builder_branch_conditional(
    b: &mut Builder,
    condition: Word,
    true_label: Word,
    false_label: Word,
    weights: Vec<u32>,
) -> (done: Result<(), Error>)
    requires
        builder_at_end(*old(b)),
    ensures
        ended_block(*old(b), *final(b), done),
        appended(
            *old(b),
            *final(b),
            done,
            250,
            seq![condition, true_label, false_label] + weights@,
        ),
{
    b.branch_conditional(condition, true_label, false_label, weights)
}

/// `Builder::switch`, each target given by its value and its label: puts
/// `OpSwitch` with the selector, the default label and the targets at the
/// end of the block under construction and ends the block.
#[verifier::external_body]
pub(crate) fn builder_switch(
    b: &mut Builder,
    selector: Word,
    default: Word,
    targets: Vec<(u32, Word)>,
) -> (done: Result<(), Error>)
    requires
        builder_at_end(*old(b)),
    ensures
        ended_block(*old(b), *final(b), done),
        appended(*old(b), *final(b), done, 251, seq![selector, default] + flat(targets@)),
{
    b.switch(
        selector,
        default,
        targets.into_iter().map(|t| (rspirv::dr::Operand::LiteralBit32(t.0), t.1)),
    )
}

/// `Builder::ret`: puts `OpReturn` at the end of the block under
/// construction and ends the block.
#[verifier::external_body]
pub(crate) fn builder_ret(b: &mut Builder) -> (done: Result<(), Error>)
    requires
        builder_at_end(*old(b)),
    ensures
        ended_block(*old(b), *final(b), done),
        appended(*old(b), *final(b), done, 253, Seq::empty()),
{
    b.ret()
}

/// `Builder::selection_merge`, the selection control given by its bits,
/// of which there are two: puts `OpSelectionMerge` with the merge label and
/// the control at the end of the block under construction.
#[verifier::external_body]
pub(crate) fn builder_selection_merge(b: &mut Builder, merge: Word, control: u32) -> (done:
    Result<(), Error>)
    requires
        control <= 3,
        builder_at_end(*old(b)),
    ensures
        put_into_block(*old(b), *final(b), done),
        appended(*old(b), *final(b), done, 247, seq![merge, control]),
{
    b.selection_merge(merge, rspirv::spirv::SelectionControl::from_bits_truncate(control))
}

/// `Builder::loop_merge` without loop control: puts `OpLoopMerge` with the
/// merge label, the label that ends each round and the empty control at
/// the end of the block under construction.
#[verifier::external_body]
pub(crate) fn builder_loop_merge(b: &mut Builder, merge: Word, continue_target: Word) -> (done:
    Result<(), Error>)
    requires
        builder_at_end(*old(b)),
    ensures
        put_into_block(*old(b), *final(b), done),
        appended(*old(b), *final(b), done, 246, seq![merge, continue_target, 0u32]),
{
    b.loop_merge(merge, continue_target, rspirv::spirv::LoopControl::NONE, Vec::new())
}

/// `Builder::phi` with the given result id: puts the instruction, with the
/// result type, the id and the operands in their order, at the end of the
/// block under construction and hands the id back.
#[verifier::external_body]
pub(crate) fn builder_phi(
    b: &mut Builder,
    result_type: Word,
    id: Word,
    incoming: Vec<(Word, Word)>,
) -> (done: Result<Word, Error>)
    requires
        builder_at_end(*old(b)),
    ensures
        put_into_block(*old(b), *final(b), done),
        done is Ok ==> done->Ok_0 == id,
        appended(*old(b), *final(b), done, 245, seq![result_type, id] + flat(incoming@)),
{
    b.phi(result_type, Some(id), incoming)
}

/// `Builder::select` with the given result id: puts the instruction,
/// with the result type, the id and the operands in their order, at the
/// end of the block under construction and hands the id back.
#[verifier::external_body]
pub(crate) fn builder_select(
    b: &mut Builder,
    result_type: Word,
    id: Word,
    condition: Word,
    object_1: Word,
    object_2: Word,
) -> (done: Result<Word, Error>)
    requires
        builder_at_end(*old(b)),
    ensures
        put_into_block(*old(b), *final(b), done),
        done is Ok ==> done->Ok_0 == id,
        appended(
            *old(b),
            *final(b),
            done,
            169,
            seq![result_type, id, condition, object_1, object_2],
        ),
{
    b.select(result_type, Some(id), condition, object_1, object_2)
}

/// `Builder::u_less_than` with the given result id: puts the instruction,
/// with the result type, the id and the operands in their order, at the
/// end of the block under construction and hands the id back.
#[verifier::external_body]
pub(crate) fn builder_u_less_than(
    b: &mut Builder,
    result_type: Word,
    id: Word,
    operand_1: Word,
    operand_2: Word,
) -> (done: Result<Word, Error>)
    requires
        builder_at_end(*old(b)),
    ensures
        put_into_block(*old(b), *final(b), done),
        done is Ok ==> done->Ok_0 == id,
        appended(*old(b), *final(b), done, 176, seq![result_type, id, operand_1, operand_2]),
{
    b.u_less_than(result_type, Some(id), operand_1, operand_2)
}

/// `Builder::i_add` with the given result id: puts the instruction,
/// with the result type, the id and the operands in their order, at the
/// end of the block under construction and hands the id back.
#[verifier::external_body]
pub(crate) fn builder_i_add(
    b: &mut Builder,
    result_type: Word,
    id: Word,
    operand_1: Word,
    operand_2: Word,
) -> (done: Result<Word, Error>)
    requires
        builder_at_end(*old(b)),
    ensures
        put_into_block(*old(b), *final(b), done),
        done is Ok ==> done->Ok_0 == id,
        appended(*old(b), *final(b), done, 128, seq![result_type, id, operand_1, operand_2]),
{
    b.i_add(result_type, Some(id), operand_1, operand_2)
}

/// `Builder::logical_and` with the given result id: puts the instruction,
/// with the result type, the id and the operands in their order, at the
/// end of the block under construction and hands the id back.
#[verifier::external_body]
pub(crate) fn builder_logical_and(
    b: &mut Builder,
    result_type: Word,
    id: Word,
    operand_1: Word,
    operand_2: Word,
) -> (done: Result<Word, Error>)
    requires
        builder_at_end(*old(b)),
    ensures
        put_into_block(*old(b), *final(b), done),
        done is Ok ==> done->Ok_0 == id,
        appended(*old(b), *final(b), done, 167, seq![result_type, id, operand_1, operand_2]),
{
    b.logical_and(result_type, Some(id), operand_1, operand_2)
}

} // verus!
