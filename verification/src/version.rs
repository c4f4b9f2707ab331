//! Versioning: every assignment of a local gets a name of its own, and
//! every read names the assignment that reaches it.

use crate::block::{
    block_views, phi_views, BasicBlock, BlockView, ControlFlow, ControlFlowView, PhiInstruction,
    PhiView,
};
use crate::error::OptError;
use crate::graph::{successors_of, FlowGraph, NodeId};
use crate::instruction::{instruction_views, Instruction, InstructionView};
use crate::ir::{Item, VarKey, Variable};
use crate::varmap::{find_key, key_position, lemma_key_position, lookup, with_entry};
use vstd::prelude::*;

verus! {

/// What the renaming keeps: for each local the number of its next version
/// and the version that is current where the renaming stands.
pub struct Renaming {
    pub counters: Seq<(VarKey, u32)>,
    pub current: Seq<(VarKey, u16)>,
}

/// The name of `v` if `v` is a local that gets versions: one that is not
/// atomic and is among `vars`.
pub open spec fn versioned_key(vars: Seq<(VarKey, Item)>, v: Variable) -> Option<VarKey> {
    match v.local_key() {
        Some(k) => if key_position(vars, k) >= 0 {
            Some(k)
        } else {
            None
        },
        None => None,
    }
}

/// The version of `k` that is current: 0 before any assignment.
pub open spec fn current_version(current: Seq<(VarKey, u16)>, k: VarKey) -> u16 {
    match lookup(current, k) {
        Some(v) => v,
        None => 0,
    }
}

/// The number of the next version of `k`: 1 before any assignment.
pub open spec fn next_version(counters: Seq<(VarKey, u32)>, k: VarKey) -> u32 {
    match lookup(counters, k) {
        Some(v) => v,
        None => 1,
    }
}

/// `v` with the given version, if it is a local.
pub open spec fn with_version(v: Variable, version: u16) -> Variable {
    match v {
        Variable::Local { id, depth, item } => Variable::Versioned { id, depth, item, version },
        _ => v,
    }
}

/// A read of `v`: a local that gets versions is read in its current
/// version; anything else as it is.
pub open spec fn rename_read(
    vars: Seq<(VarKey, Item)>,
    current: Seq<(VarKey, u16)>,
    v: Variable,
) -> Variable {
    match versioned_key(vars, v) {
        Some(k) => with_version(v, current_version(current, k)),
        None => v,
    }
}

/// The reads of all of `args`.
pub open spec fn rename_reads(
    vars: Seq<(VarKey, Item)>,
    current: Seq<(VarKey, u16)>,
    args: Seq<Variable>,
) -> Seq<Variable> {
    Seq::new(args.len(), |i: int| rename_read(vars, current, args[i]))
}

/// An assignment to `out`: a local that gets versions takes its next
/// version, which is current from then on; anything else stays as it is.
/// The versions of a local end with `u16::MAX`.
pub open spec fn rename_write(vars: Seq<(VarKey, Item)>, r: Renaming, out: Variable) -> Result<
    (Renaming, Variable),
    OptError,
> {
    match versioned_key(vars, out) {
        Some(k) => {
            let version = next_version(r.counters, k);
            if version > u16::MAX {
                Err(OptError::TooManyVersions)
            } else {
                Ok(
                    (
                        Renaming {
                            counters: with_entry(r.counters, k, (version + 1) as u32),
                            current: with_entry(r.current, k, version as u16),
                        },
                        with_version(out, version as u16),
                    ),
                )
            }
        },
        None => Ok((r, out)),
    }
}

/// One instruction renamed: its reads first, then its assignment.
pub open spec fn rename_op(vars: Seq<(VarKey, Item)>, r: Renaming, op: InstructionView) -> Result<
    (Renaming, InstructionView),
    OptError,
> {
    let args = rename_reads(vars, r.current, op.args);
    match op.out {
        Some(out) => match rename_write(vars, r, out) {
            Ok((r1, out1)) => Ok((r1, InstructionView { kind: op.kind, out: Some(out1), args })),
            Err(e) => Err(e),
        },
        None => Ok((r, InstructionView { kind: op.kind, out: None, args })),
    }
}

/// A sequence of instructions renamed in their order.
pub open spec fn rename_ops(vars: Seq<(VarKey, Item)>, r: Renaming, ops: Seq<InstructionView>) -> Result<
    (Renaming, Seq<InstructionView>),
    OptError,
>
    decreases ops.len(),
{
    if ops.len() == 0 {
        Ok((r, Seq::empty()))
    } else {
        match rename_ops(vars, r, ops.drop_last()) {
            Ok((r1, done)) => match rename_op(vars, r1, ops.last()) {
                Ok((r2, op)) => Ok((r2, done.push(op))),
                Err(e) => Err(e),
            },
            Err(e) => Err(e),
        }
    }
}

/// The phi nodes of a block renamed in their order: each is an assignment
/// to its output.
pub open spec fn rename_phis(vars: Seq<(VarKey, Item)>, r: Renaming, phis: Seq<PhiView>) -> Result<
    (Renaming, Seq<PhiView>),
    OptError,
>
    decreases phis.len(),
{
    if phis.len() == 0 {
        Ok((r, Seq::empty()))
    } else {
        match rename_phis(vars, r, phis.drop_last()) {
            Ok((r1, done)) => match rename_write(vars, r1, phis.last().out) {
                Ok((r2, out)) => Ok((r2, done.push(PhiView { out, entries: phis.last().entries }))),
                Err(e) => Err(e),
            },
            Err(e) => Err(e),
        }
    }
}

/// A terminator with its read renamed.
pub open spec fn rename_terminator(
    vars: Seq<(VarKey, Item)>,
    current: Seq<(VarKey, u16)>,
    control_flow: ControlFlowView,
) -> ControlFlowView {
    match control_flow {
        ControlFlowView::IfElse { cond, then, or_else, merge } => ControlFlowView::IfElse {
            cond: rename_read(vars, current, cond),
            then,
            or_else,
            merge,
        },
        ControlFlowView::Switch { value, default, branches, merge } => ControlFlowView::Switch {
            value: rename_read(vars, current, value),
            default,
            branches,
            merge,
        },
        ControlFlowView::Break { cond, body, or_break } => ControlFlowView::Break {
            cond: rename_read(vars, current, cond),
            body,
            or_break,
        },
        other => other,
    }
}

/// A block renamed: its phi nodes, its instructions, its terminator.
pub open spec fn rename_block(vars: Seq<(VarKey, Item)>, r: Renaming, block: BlockView) -> Result<
    (Renaming, BlockView),
    OptError,
> {
    match rename_phis(vars, r, block.phi_nodes) {
        Ok((r1, phi_nodes)) => match rename_ops(vars, r1, block.ops) {
            Ok((r2, ops)) => Ok(
                (
                    r2,
                    BlockView {
                        phi_nodes,
                        ops,
                        control_flow: rename_terminator(vars, r2.current, block.control_flow),
                        ..block
                    },
                ),
            ),
            Err(e) => Err(e),
        },
        Err(e) => Err(e),
    }
}

/// The version of `k` that is current: 0 before any assignment.
pub fn version_of(current: &Vec<(VarKey, u16)>, k: VarKey) -> (version: u16)
    ensures
        version == current_version(current@, k),
{
    match find_key(current, k) {
        Some(p) => {
            proof {
                lemma_key_position(current@, k);
            }
            current[p].1
        },
        None => 0,
    }
}

/// The name of `v` if `v` is a local that gets versions.
pub fn key_of(vars: &Vec<(VarKey, Item)>, v: &Variable) -> (key: Option<VarKey>)
    ensures
        key == versioned_key(vars@, *v),
{
    match v.as_local() {
        Some(k) => match find_key(vars, k) {
            Some(_) => Some(k),
            None => None,
        },
        None => None,
    }
}

/// `v` with the given version, if it is a local.
pub fn versioned(v: &Variable, version: u16) -> (made: Variable)
    ensures
        made == with_version(*v, version),
{
    match v {
        Variable::Local { id, depth, item } => Variable::Versioned {
            id: *id,
            depth: *depth,
            item: *item,
            version,
        },
        _ => *v,
    }
}

/// Renames a read of `v`.
pub fn read_renamed(vars: &Vec<(VarKey, Item)>, current: &Vec<(VarKey, u16)>, v: &Variable) -> (made:
    Variable)
    ensures
        made == rename_read(vars@, current@, *v),
{
    match key_of(vars, v) {
        Some(k) => versioned(v, version_of(current, k)),
        None => *v,
    }
}

/// Renames the reads of all of `args`.
pub fn reads_renamed(
    vars: &Vec<(VarKey, Item)>,
    current: &Vec<(VarKey, u16)>,
    args: &Vec<Variable>,
) -> (made: Vec<Variable>)
    ensures
        made@ == rename_reads(vars@, current@, args@),
{
    let mut made: Vec<Variable> = Vec::new();
    let mut i: usize = 0;
    while i < args.len()
        invariant
            i <= args.len(),
            made@.len() == i,
            forall|j: int|
                0 <= j < i ==> #[trigger] made@[j] == rename_read(vars@, current@, args@[j]),
        decreases args.len() - i,
    {
        made.push(read_renamed(vars, current, &args[i]));
        i += 1;
    }
    assert(made@ =~= rename_reads(vars@, current@, args@));
    made
}

/// Puts `v` beside `k`.
pub fn set_entry<V>(map: &mut Vec<(VarKey, V)>, k: VarKey, v: V)
    ensures
        final(map)@ == with_entry(old(map)@, k, v),
{
    match find_key(map, k) {
        Some(p) => {
            proof {
                lemma_key_position(map@, k);
            }
            map[p] = (k, v);
        },
        None => {
            map.push((k, v));
        },
    }
}

/// Renames an assignment to `out`.
pub fn write_renamed(
    vars: &Vec<(VarKey, Item)>,
    counters: &mut Vec<(VarKey, u32)>,
    current: &mut Vec<(VarKey, u16)>,
    out: &Variable,
) -> (made: Result<Variable, OptError>)
    ensures
        match rename_write(
            vars@,
            Renaming { counters: old(counters)@, current: old(current)@ },
            *out,
        ) {
            Ok((r, v)) => made == Ok::<Variable, OptError>(v) && final(counters)@ == r.counters
                && final(current)@ == r.current,
            Err(e) => made == Err::<Variable, OptError>(e),
        },
{
    match key_of(vars, out) {
        Some(k) => {
            let version: u32 = match find_key(counters, k) {
                Some(p) => {
                    proof {
                        lemma_key_position(counters@, k);
                    }
                    counters[p].1
                },
                None => 1,
            };
            if version > 65535 {
                return Err(OptError::TooManyVersions);
            }
            set_entry(counters, k, version + 1);
            set_entry(current, k, version as u16);
            Ok(versioned(out, version as u16))
        },
        None => Ok(*out),
    }
}

/// Instructions that cannot be renamed after some of them cannot be
/// renamed after all of them.
pub proof fn lemma_rename_ops_failure(
    vars: Seq<(VarKey, Item)>,
    r: Renaming,
    ops: Seq<InstructionView>,
    k: int,
)
    requires
        0 <= k <= ops.len(),
        rename_ops(vars, r, ops.take(k)) is Err,
    ensures
        rename_ops(vars, r, ops) is Err,
        rename_ops(vars, r, ops)->Err_0 == rename_ops(vars, r, ops.take(k))->Err_0,
    decreases ops.len() - k,
{
    if k < ops.len() {
        assert(ops.drop_last().take(k) =~= ops.take(k));
        lemma_rename_ops_failure(vars, r, ops.drop_last(), k);
    } else {
        assert(ops.take(k) =~= ops);
    }
}

/// Phi nodes that cannot be renamed after some of them cannot be renamed
/// after all of them.
pub proof fn lemma_rename_phis_failure(
    vars: Seq<(VarKey, Item)>,
    r: Renaming,
    phis: Seq<PhiView>,
    k: int,
)
    requires
        0 <= k <= phis.len(),
        rename_phis(vars, r, phis.take(k)) is Err,
    ensures
        rename_phis(vars, r, phis) is Err,
        rename_phis(vars, r, phis)->Err_0 == rename_phis(vars, r, phis.take(k))->Err_0,
    decreases phis.len() - k,
{
    if k < phis.len() {
        assert(phis.drop_last().take(k) =~= phis.take(k));
        lemma_rename_phis_failure(vars, r, phis.drop_last(), k);
    } else {
        assert(phis.take(k) =~= phis);
    }
}

/// Renames a sequence of instructions in their order.
pub fn ops_renamed(
    vars: &Vec<(VarKey, Item)>,
    counters: &mut Vec<(VarKey, u32)>,
    current: &mut Vec<(VarKey, u16)>,
    ops: &Vec<Instruction>,
) -> (made: Result<Vec<Instruction>, OptError>)
    ensures
        match rename_ops(
            vars@,
            Renaming { counters: old(counters)@, current: old(current)@ },
            instruction_views(ops@),
        ) {
            Ok((r, done)) => match made {
                Ok(v) => instruction_views(v@) == done && final(counters)@ == r.counters && final(current)@ == r.current,
                Err(_) => false,
            },
            Err(e) => match made {
                Ok(_) => false,
                Err(e2) => e2 == e,
            },
        },
{
    let ghost r0 = Renaming { counters: counters@, current: current@ };
    let ghost views = instruction_views(ops@);
    let mut made: Vec<Instruction> = Vec::new();
    let mut i: usize = 0;
    assert(instruction_views(made@) =~= Seq::<InstructionView>::empty());
    while i < ops.len()
        invariant
            i <= ops.len(),
            views == instruction_views(ops@),
            r0 == (Renaming { counters: old(counters)@, current: old(current)@ }),
            rename_ops(vars@, r0, views.take(i as int)) == Ok::<
                (Renaming, Seq<InstructionView>),
                OptError,
            >((Renaming { counters: counters@, current: current@ }, instruction_views(made@))),
        decreases ops.len() - i,
    {
        proof {
            assert(views.take(i + 1).drop_last() =~= views.take(i as int));
            assert(views.take(i + 1).last() == ops@[i as int]@);
        }
        let op = &ops[i];
        let args = reads_renamed(vars, current, &op.args);
        let ghost r1 = Renaming { counters: counters@, current: current@ };
        let out = match op.out {
            Some(out) => match write_renamed(vars, counters, current, &out) {
                Ok(v) => Some(v),
                Err(e) => {
                    proof {
                        assert(rename_write(vars@, r1, out) is Err);
                        assert(rename_op(vars@, r1, ops@[i as int]@) is Err);
                        assert(rename_ops(vars@, r0, views.take(i + 1)) is Err);
                        lemma_rename_ops_failure(vars@, r0, views, i + 1);
                    }
                    return Err(e);
                },
            },
            None => None,
        };
        let ghost before = instruction_views(made@);
        let renamed = Instruction { kind: op.kind, out, args };
        let ghost view = renamed@;
        made.push(renamed);
        proof {
            assert(instruction_views(made@) =~= before.push(view));
        }
        i += 1;
    }
    proof {
        assert(views.take(i as int) =~= views);
    }
    Ok(made)
}

/// A copy of the entries of a phi node.
pub fn copy_entries(entries: &Vec<(NodeId, Variable)>) -> (copy: Vec<(NodeId, Variable)>)
    ensures
        copy@ == entries@,
{
    let mut copy: Vec<(NodeId, Variable)> = Vec::new();
    let mut i: usize = 0;
    while i < entries.len()
        invariant
            i <= entries.len(),
            copy@ == entries@.take(i as int),
        decreases entries.len() - i,
    {
        copy.push(entries[i]);
        proof {
            assert(entries@.take(i + 1) =~= entries@.take(i as int).push(entries@[i as int]));
        }
        i += 1;
    }
    assert(entries@.take(i as int) =~= entries@);
    copy
}

/// Renames the phi nodes of a block in their order.
pub fn phis_renamed(
    vars: &Vec<(VarKey, Item)>,
    counters: &mut Vec<(VarKey, u32)>,
    current: &mut Vec<(VarKey, u16)>,
    phis: &Vec<PhiInstruction>,
) -> (made: Result<Vec<PhiInstruction>, OptError>)
    ensures
        match rename_phis(
            vars@,
            Renaming { counters: old(counters)@, current: old(current)@ },
            phi_views(phis@),
        ) {
            Ok((r, done)) => match made {
                Ok(v) => phi_views(v@) == done && final(counters)@ == r.counters && final(current)@ == r.current,
                Err(_) => false,
            },
            Err(e) => match made {
                Ok(_) => false,
                Err(e2) => e2 == e,
            },
        },
{
    let ghost r0 = Renaming { counters: counters@, current: current@ };
    let ghost views = phi_views(phis@);
    let mut made: Vec<PhiInstruction> = Vec::new();
    let mut i: usize = 0;
    assert(phi_views(made@) =~= Seq::<PhiView>::empty());
    while i < phis.len()
        invariant
            i <= phis.len(),
            views == phi_views(phis@),
            r0 == (Renaming { counters: old(counters)@, current: old(current)@ }),
            rename_phis(vars@, r0, views.take(i as int)) == Ok::<
                (Renaming, Seq<PhiView>),
                OptError,
            >((Renaming { counters: counters@, current: current@ }, phi_views(made@))),
        decreases phis.len() - i,
    {
        proof {
            assert(views.take(i + 1).drop_last() =~= views.take(i as int));
            assert(views.take(i + 1).last() == phis@[i as int]@);
        }
        let phi = &phis[i];
        let ghost r1 = Renaming { counters: counters@, current: current@ };
        let out = match write_renamed(vars, counters, current, &phi.out) {
            Ok(v) => v,
            Err(e) => {
                proof {
                    assert(rename_write(vars@, r1, phi.out) is Err);
                    assert(rename_phis(vars@, r0, views.take(i + 1)) is Err);
                    lemma_rename_phis_failure(vars@, r0, views, i + 1);
                }
                return Err(e);
            },
        };
        let ghost before = phi_views(made@);
        let renamed = PhiInstruction { out, entries: copy_entries(&phi.entries) };
        let ghost view = renamed@;
        made.push(renamed);
        proof {
            assert(phi_views(made@) =~= before.push(view));
        }
        i += 1;
    }
    proof {
        assert(views.take(i as int) =~= views);
    }
    Ok(made)
}

/// Renames the read of a terminator.
pub fn terminator_renamed(
    vars: &Vec<(VarKey, Item)>,
    current: &Vec<(VarKey, u16)>,
    control_flow: &ControlFlow,
) -> (made: ControlFlow)
    ensures
        made@ == rename_terminator(vars@, current@, control_flow@),
{
    match control_flow {
        ControlFlow::Fallthrough => ControlFlow::Fallthrough,
        ControlFlow::IfElse { cond, then, or_else, merge } => ControlFlow::IfElse {
            cond: read_renamed(vars, current, cond),
            then: *then,
            or_else: *or_else,
            merge: *merge,
        },
        ControlFlow::Switch { value, default, branches, merge } => {
            let mut copy: Vec<(u32, NodeId)> = Vec::new();
            let mut i: usize = 0;
            while i < branches.len()
                invariant
                    i <= branches.len(),
                    copy@ == branches@.take(i as int),
                decreases branches.len() - i,
            {
                copy.push(branches[i]);
                proof {
                    assert(branches@.take(i + 1) =~= branches@.take(i as int).push(
                        branches@[i as int],
                    ));
                }
                i += 1;
            }
            assert(branches@.take(i as int) =~= branches@);
            ControlFlow::Switch {
                value: read_renamed(vars, current, value),
                default: *default,
                branches: copy,
                merge: *merge,
            }
        },
        ControlFlow::Loop { body, continue_target, merge } => ControlFlow::Loop {
            body: *body,
            continue_target: *continue_target,
            merge: *merge,
        },
        ControlFlow::Break { cond, body, or_break } => ControlFlow::Break {
            cond: read_renamed(vars, current, cond),
            body: *body,
            or_break: *or_break,
        },
        ControlFlow::Return => ControlFlow::Return,
    }
}

/// Renames a block in place: its phi nodes, its instructions, its
/// terminator.
pub fn block_renamed(
    vars: &Vec<(VarKey, Item)>,
    counters: &mut Vec<(VarKey, u32)>,
    current: &mut Vec<(VarKey, u16)>,
    block: &mut BasicBlock,
) -> (done: Result<(), OptError>)
    ensures
        match rename_block(
            vars@,
            Renaming { counters: old(counters)@, current: old(current)@ },
            old(block)@,
        ) {
            Ok((r, view)) => done is Ok && final(block)@ == view && final(counters)@ == r.counters
                && final(current)@ == r.current,
            Err(e) => done == Err::<(), OptError>(e),
        },
{
    let phi_nodes = match phis_renamed(vars, counters, current, &block.phi_nodes) {
        Ok(v) => v,
        Err(e) => return Err(e),
    };
    let ops = match ops_renamed(vars, counters, current, &block.ops) {
        Ok(v) => v,
        Err(e) => return Err(e),
    };
    let control_flow = terminator_renamed(vars, current, &block.control_flow);
    block.phi_nodes = phi_nodes;
    block.ops = ops;
    block.control_flow = control_flow;
    Ok(())
}

/// The name of the local that a phi node stands for, whether its output
/// has a version yet or not.
pub open spec fn phi_key(out: Variable) -> Option<VarKey> {
    match out {
        Variable::Local { id, depth, .. } => Some((id, depth)),
        Variable::Versioned { id, depth, .. } => Some((id, depth)),
        _ => None,
    }
}

/// The value that a phi node takes from the block where `version` is the
/// current version of its local.
pub open spec fn phi_value(out: Variable, version: u16) -> Variable {
    match out {
        Variable::Local { id, depth, item } => Variable::Versioned { id, depth, item, version },
        Variable::Versioned { id, depth, item, .. } => Variable::Versioned {
            id,
            depth,
            item,
            version,
        },
        _ => out,
    }
}

/// A phi node with its entries for the block `from` filled: if it stands
/// for a local that gets versions, it takes from `from` the version that is
/// current at the end of `from`.
pub open spec fn fill_phi(
    vars: Seq<(VarKey, Item)>,
    current: Seq<(VarKey, u16)>,
    phi: PhiView,
    from: u32,
) -> PhiView {
    match phi_key(phi.out) {
        Some(k) => if key_position(vars, k) >= 0 {
            PhiView {
                out: phi.out,
                entries: Seq::new(
                    phi.entries.len(),
                    |i: int|
                        if phi.entries[i].0 == from {
                            (from, phi_value(phi.out, current_version(current, k)))
                        } else {
                            phi.entries[i]
                        },
                ),
            }
        } else {
            phi
        },
        None => phi,
    }
}

/// A block with the entries for the block `from` filled in all its phi
/// nodes.
pub open spec fn fill_block(
    vars: Seq<(VarKey, Item)>,
    current: Seq<(VarKey, u16)>,
    block: BlockView,
    from: u32,
) -> BlockView {
    BlockView {
        phi_nodes: Seq::new(
            block.phi_nodes.len(),
            |i: int| fill_phi(vars, current, block.phi_nodes[i], from),
        ),
        ..block
    }
}

/// The blocks with the entries for the block `from` filled in each of
/// `succs`.
pub open spec fn fill_successors(
    vars: Seq<(VarKey, Item)>,
    current: Seq<(VarKey, u16)>,
    blocks: Seq<BlockView>,
    from: u32,
    succs: Seq<u32>,
) -> Seq<BlockView>
    decreases succs.len(),
{
    if succs.len() == 0 {
        blocks
    } else {
        let done = fill_successors(vars, current, blocks, from, succs.drop_last());
        if succs.last() < done.len() {
            done.update(
                succs.last() as int,
                fill_block(vars, current, done[succs.last() as int], from),
            )
        } else {
            done
        }
    }
}

/// The blocks below `m` whose immediate dominator is `b`, by rising index.
pub open spec fn children_upto(idoms: Seq<Option<u32>>, b: u32, m: nat) -> Seq<u32>
    decreases m,
{
    if m == 0 {
        Seq::empty()
    } else if m <= idoms.len() && idoms[m - 1] == Some(b) {
        children_upto(idoms, b, (m - 1) as nat).push((m - 1) as u32)
    } else {
        children_upto(idoms, b, (m - 1) as nat)
    }
}

/// The blocks after the renaming of the dominator tree below `b`, and the
/// counters after it: `b` is renamed, the entries of the phi nodes of its
/// successors are filled, and its children in the dominator tree follow,
/// each from the versions that are current at the end of `b`. The tree is
/// followed to a depth of `fuel` at most.
pub open spec fn version_tree(
    blocks: Seq<BlockView>,
    arcs: Seq<(u32, u32)>,
    idoms: Seq<Option<u32>>,
    vars: Seq<(VarKey, Item)>,
    r: Renaming,
    b: u32,
    fuel: nat,
) -> Result<(Seq<BlockView>, Seq<(VarKey, u32)>), OptError>
    decreases fuel, 0nat, 0nat,
{
    if fuel == 0 || b >= blocks.len() {
        Ok((blocks, r.counters))
    } else {
        match rename_block(vars, r, blocks[b as int]) {
            Ok((r1, block)) => version_children(
                fill_successors(
                    vars,
                    r1.current,
                    blocks.update(b as int, block),
                    b,
                    successors_of(arcs, b),
                ),
                arcs,
                idoms,
                vars,
                r1,
                children_upto(idoms, b, idoms.len()),
                (fuel - 1) as nat,
            ),
            Err(e) => Err(e),
        }
    }
}

/// The blocks and the counters after the renaming of the dominator trees
/// below each of `children`, in their order.
pub open spec fn version_children(
    blocks: Seq<BlockView>,
    arcs: Seq<(u32, u32)>,
    idoms: Seq<Option<u32>>,
    vars: Seq<(VarKey, Item)>,
    r: Renaming,
    children: Seq<u32>,
    fuel: nat,
) -> Result<(Seq<BlockView>, Seq<(VarKey, u32)>), OptError>
    decreases fuel, 1nat, children.len(),
{
    if children.len() == 0 {
        Ok((blocks, r.counters))
    } else {
        match version_children(blocks, arcs, idoms, vars, r, children.drop_last(), fuel) {
            Ok((b1, c1)) => version_tree(
                b1,
                arcs,
                idoms,
                vars,
                Renaming { counters: c1, current: r.current },
                children.last(),
                fuel,
            ),
            Err(e) => Err(e),
        }
    }
}

/// Children that cannot be renamed after some of them cannot be renamed
/// after all of them.
pub proof fn lemma_children_failure(
    blocks: Seq<BlockView>,
    arcs: Seq<(u32, u32)>,
    idoms: Seq<Option<u32>>,
    vars: Seq<(VarKey, Item)>,
    r: Renaming,
    children: Seq<u32>,
    fuel: nat,
    k: int,
)
    requires
        0 <= k <= children.len(),
        version_children(blocks, arcs, idoms, vars, r, children.take(k), fuel) is Err,
    ensures
        version_children(blocks, arcs, idoms, vars, r, children, fuel) is Err,
        version_children(blocks, arcs, idoms, vars, r, children, fuel)->Err_0 == version_children(
            blocks,
            arcs,
            idoms,
            vars,
            r,
            children.take(k),
            fuel,
        )->Err_0,
    decreases children.len() - k,
{
    if k < children.len() {
        assert(children.drop_last().take(k) =~= children.take(k));
        lemma_children_failure(blocks, arcs, idoms, vars, r, children.drop_last(), fuel, k);
    } else {
        assert(children.take(k) =~= children);
    }
}

/// Fills the entries for the block `from` in the phi nodes of `block`.
pub fn fill_entries(
    vars: &Vec<(VarKey, Item)>,
    current: &Vec<(VarKey, u16)>,
    block: &mut BasicBlock,
    from: NodeId,
)
    ensures
        final(block)@ == fill_block(vars@, current@, old(block)@, from),
{
    let n = block.phi_nodes.len();
    let mut i: usize = 0;
    while i < n
        invariant
            i <= n,
            n == block.phi_nodes@.len(),
            n == old(block).phi_nodes@.len(),
            block.ops == old(block).ops,
            block.control_flow == old(block).control_flow,
            block.writes == old(block).writes,
            block.live_vars == old(block).live_vars,
            block.dom_frontiers == old(block).dom_frontiers,
            forall|j: int|
                0 <= j < i ==> (#[trigger] block.phi_nodes@[j])@ == fill_phi(
                    vars@,
                    current@,
                    old(block).phi_nodes@[j]@,
                    from,
                ),
            forall|j: int| i <= j < n ==> #[trigger] block.phi_nodes@[j] == old(block).phi_nodes@[j],
        decreases n - i,
    {
        let out = block.phi_nodes[i].out;
        let key = match out {
            Variable::Local { id, depth, .. } => Some((id, depth)),
            Variable::Versioned { id, depth, .. } => Some((id, depth)),
            _ => None,
        };
        let value = match key {
            Some(k) => match find_key(vars, k) {
                Some(_) => {
                    let version = version_of(current, k);
                    Some(
                        match out {
                            Variable::Local { id, depth, item } => Variable::Versioned {
                                id,
                                depth,
                                item,
                                version,
                            },
                            Variable::Versioned { id, depth, item, .. } => Variable::Versioned {
                                id,
                                depth,
                                item,
                                version,
                            },
                            _ => out,
                        },
                    )
                },
                None => None,
            },
            None => None,
        };
        match value {
            Some(v) => {
                let ghost before = block.phi_nodes@[i as int].entries@;
                let phi = &mut block.phi_nodes[i];
                let m = phi.entries.len();
                let mut j: usize = 0;
                while j < m
                    invariant
                        j <= m,
                        m == phi.entries@.len(),
                        m == before.len(),
                        phi.out == out,
                        forall|t: int|
                            0 <= t < j ==> #[trigger] phi.entries@[t] == if before[t].0 == from {
                                (from, v)
                            } else {
                                before[t]
                            },
                        forall|t: int| j <= t < m ==> #[trigger] phi.entries@[t] == before[t],
                    decreases m - j,
                {
                    if phi.entries[j].0 == from {
                        phi.entries.set(j, (from, v));
                    }
                    j += 1;
                }
                proof {
                    assert(block.phi_nodes@[i as int]@.entries =~= fill_phi(
                        vars@,
                        current@,
                        old(block).phi_nodes@[i as int]@,
                        from,
                    ).entries);
                }
            },
            None => {},
        }
        i += 1;
    }
    proof {
        assert(block@.phi_nodes =~= fill_block(vars@, current@, old(block)@, from).phi_nodes);
    }
}

/// Fills the entries for the block `from` in each of `succs`.
pub fn fill_all(
    vars: &Vec<(VarKey, Item)>,
    current: &Vec<(VarKey, u16)>,
    blocks: &mut Vec<BasicBlock>,
    from: NodeId,
    succs: &Vec<NodeId>,
)
    ensures
        block_views(final(blocks)@) == fill_successors(
            vars@,
            current@,
            block_views(old(blocks)@),
            from,
            succs@,
        ),
        final(blocks)@.len() == old(blocks)@.len(),
{
    let mut i: usize = 0;
    while i < succs.len()
        invariant
            i <= succs.len(),
            blocks@.len() == old(blocks)@.len(),
            block_views(blocks@) == fill_successors(
                vars@,
                current@,
                block_views(old(blocks)@),
                from,
                succs@.take(i as int),
            ),
        decreases succs.len() - i,
    {
        proof {
            assert(succs@.take(i + 1).drop_last() =~= succs@.take(i as int));
            assert(succs@.take(i + 1).last() == succs@[i as int]);
        }
        let s = succs[i] as usize;
        if s < blocks.len() {
            let ghost before = block_views(blocks@);
            let block = &mut blocks[s];
            fill_entries(vars, current, block, from);
            proof {
                assert(block_views(blocks@) =~= before.update(
                    s as int,
                    fill_block(vars@, current@, before[s as int], from),
                ));
            }
        }
        i += 1;
    }
    proof {
        assert(succs@.take(i as int) =~= succs@);
    }
}

/// The blocks whose immediate dominator is `b`, by rising index.
pub fn children_of(idoms: &Vec<Option<u32>>, b: NodeId) -> (children: Vec<NodeId>)
    requires
        idoms@.len() <= u32::MAX,
    ensures
        children@ == children_upto(idoms@, b, idoms@.len() as nat),
{
    let mut children: Vec<NodeId> = Vec::new();
    let mut m: usize = 0;
    while m < idoms.len()
        invariant
            m <= idoms.len(),
            idoms@.len() <= u32::MAX,
            children@ == children_upto(idoms@, b, m as nat),
        decreases idoms.len() - m,
    {
        let is_child = match idoms[m] {
            Some(up) => up == b,
            None => false,
        };
        if is_child {
            children.push(m as u32);
        }
        m += 1;
    }
    children
}

/// A copy of the current versions.
pub fn copy_current(current: &Vec<(VarKey, u16)>) -> (copy: Vec<(VarKey, u16)>)
    ensures
        copy@ == current@,
{
    let mut copy: Vec<(VarKey, u16)> = Vec::new();
    let mut i: usize = 0;
    while i < current.len()
        invariant
            i <= current.len(),
            copy@ == current@.take(i as int),
        decreases current.len() - i,
    {
        copy.push(current[i]);
        proof {
            assert(current@.take(i + 1) =~= current@.take(i as int).push(current@[i as int]));
        }
        i += 1;
    }
    assert(current@.take(i as int) =~= current@);
    copy
}

/// Renames the dominator tree below `b`.
pub fn tree_renamed(
    blocks: &mut Vec<BasicBlock>,
    graph: &FlowGraph,
    idoms: &Vec<Option<u32>>,
    vars: &Vec<(VarKey, Item)>,
    counters: &mut Vec<(VarKey, u32)>,
    current: Vec<(VarKey, u16)>,
    b: NodeId,
    fuel: usize,
) -> (done: Result<(), OptError>)
    requires
        idoms@.len() <= u32::MAX,
    ensures
        match version_tree(
            block_views(old(blocks)@),
            graph.arcs(),
            idoms@,
            vars@,
            Renaming { counters: old(counters)@, current: current@ },
            b,
            fuel as nat,
        ) {
            Ok((views, c)) => done is Ok && block_views(final(blocks)@) == views && final(counters)@ == c && final(blocks)@.len() == old(blocks)@.len(),
            Err(e) => done == Err::<(), OptError>(e),
        },
    decreases fuel, 0nat, 0nat,
{
    if fuel == 0 || b as usize >= blocks.len() {
        return Ok(());
    }
    let mut versions = copy_current(&current);
    let ghost r0 = Renaming { counters: counters@, current: current@ };
    let ghost views0 = block_views(blocks@);
    {
        let block = &mut blocks[b as usize];
        match block_renamed(vars, counters, &mut versions, block) {
            Ok(()) => {},
            Err(e) => return Err(e),
        }
    }
    proof {
        assert(block_views(blocks@) =~= views0.update(b as int, blocks@[b as int]@));
    }
    let succs = graph.successors(b);
    fill_all(vars, &versions, blocks, b, &succs);
    let children = children_of(idoms, b);
    let ghost r1 = Renaming { counters: counters@, current: versions@ };
    let ghost views1 = block_views(blocks@);
    let ghost whole = version_tree(views0, graph.arcs(), idoms@, vars@, r0, b, fuel as nat);
    proof {
        assert(whole == version_children(
            views1,
            graph.arcs(),
            idoms@,
            vars@,
            r1,
            children@,
            (fuel - 1) as nat,
        ));
    }
    let mut i: usize = 0;
    while i < children.len()
        invariant
            i <= children.len(),
            idoms@.len() <= u32::MAX,
            fuel > 0,
            blocks@.len() == old(blocks)@.len(),
            r1.current == versions@,
            views0 == block_views(old(blocks)@),
            r0 == (Renaming { counters: old(counters)@, current: current@ }),
            whole == version_tree(views0, graph.arcs(), idoms@, vars@, r0, b, fuel as nat),
            whole == version_children(
                views1,
                graph.arcs(),
                idoms@,
                vars@,
                r1,
                children@,
                (fuel - 1) as nat,
            ),
            version_children(
                views1,
                graph.arcs(),
                idoms@,
                vars@,
                r1,
                children@.take(i as int),
                (fuel - 1) as nat,
            ) == Ok::<(Seq<BlockView>, Seq<(VarKey, u32)>), OptError>(
                (block_views(blocks@), counters@),
            ),
        decreases children.len() - i,
    {
        proof {
            assert(children@.take(i + 1).drop_last() =~= children@.take(i as int));
            assert(children@.take(i + 1).last() == children@[i as int]);
        }
        match tree_renamed(
            blocks,
            graph,
            idoms,
            vars,
            counters,
            copy_current(&versions),
            children[i],
            fuel - 1,
        ) {
            Ok(()) => {},
            Err(e) => {
                proof {
                    assert(version_children(
                        views1,
                        graph.arcs(),
                        idoms@,
                        vars@,
                        r1,
                        children@.take(i + 1),
                        (fuel - 1) as nat,
                    ) is Err);
                    lemma_children_failure(
                        views1,
                        graph.arcs(),
                        idoms@,
                        vars@,
                        r1,
                        children@,
                        (fuel - 1) as nat,
                        i + 1,
                    );
                }
                return Err(e);
            },
        }
        i += 1;
    }
    proof {
        assert(children@.take(i as int) =~= children@);
    }
    Ok(())
}

} // verus!
