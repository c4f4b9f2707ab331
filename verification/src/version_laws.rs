//! What holds of versions: no two assignments write the same version of a
//! variable.

use crate::block::{BlockView, PhiView};
use crate::graph::successors_of;
use crate::instruction::InstructionView;
use crate::ir::{Item, VarId, VarKey, Variable};
use crate::varmap::{key_position, lemma_key_position, lookup, with_entry};
use crate::version::{
    children_upto, fill_block, fill_successors, next_version, rename_block, rename_op, rename_ops,
    rename_phis, rename_write, version_children, version_tree, versioned_key, with_version,
    Renaming,
};
use vstd::prelude::*;

verus! {

/// The version that a variable is, if it is one.
pub open spec fn id_of(out: Option<Variable>) -> Option<VarId> {
    match out {
        Some(v) => v.versioned_id(),
        None => None,
    }
}

/// The version that is written at a place of a block: by the phi node at
/// place `i` if `phi` holds, else by the instruction at place `i`.
pub open spec fn written(block: BlockView, phi: bool, i: int) -> Option<VarId> {
    if phi {
        if 0 <= i < block.phi_nodes.len() {
            block.phi_nodes[i].out.versioned_id()
        } else {
            None
        }
    } else {
        if 0 <= i < block.ops.len() {
            id_of(block.ops[i].out)
        } else {
            None
        }
    }
}

/// Whether `id` is a version that was given between the counters `c0` and
/// the counters `c1`.
pub open spec fn given_between(c0: Seq<(VarKey, u32)>, c1: Seq<(VarKey, u32)>, id: VarId) -> bool {
    next_version(c0, (id.0, id.1)) <= id.2 < next_version(c1, (id.0, id.1))
}

/// Whether no counter of `c1` is behind its counter of `c0`.
pub open spec fn not_behind(c0: Seq<(VarKey, u32)>, c1: Seq<(VarKey, u32)>) -> bool {
    forall|k: VarKey| #[trigger] next_version(c0, k) <= next_version(c1, k)
}

/// Whether `after` is `before` with new versions at some places that wrote
/// none: a version that was written is still written; a version that is
/// new was given between the counters `c0` and `c1`; and no new version is
/// written at two places.
pub open spec fn versions_added(
    before: Seq<BlockView>,
    after: Seq<BlockView>,
    c0: Seq<(VarKey, u32)>,
    c1: Seq<(VarKey, u32)>,
) -> bool {
    &&& after.len() == before.len()
    &&& not_behind(c0, c1)
    &&& forall|b: int, phi: bool, i: int|
        0 <= b < before.len() && written(before[b], phi, i) is Some ==> #[trigger] written(
            after[b],
            phi,
            i,
        ) == written(before[b], phi, i)
    &&& forall|b: int, phi: bool, i: int|
        0 <= b < before.len() && written(before[b], phi, i) is None && (#[trigger] written(
            after[b],
            phi,
            i,
        )) is Some ==> given_between(c0, c1, written(after[b], phi, i)->0)
    &&& forall|b1: int, phi1: bool, i1: int, b2: int, phi2: bool, i2: int|
        0 <= b1 < before.len() && 0 <= b2 < before.len() && (b1 != b2 || phi1 != phi2 || i1 != i2)
            && written(before[b1], phi1, i1) is None && written(before[b2], phi2, i2) is None && (
        #[trigger] written(after[b1], phi1, i1)) is Some && (#[trigger] written(
            after[b2],
            phi2,
            i2,
        )) is Some ==> written(after[b1], phi1, i1) != written(after[b2], phi2, i2)
}

/// The next version of a key after an entry was put beside a key.
pub proof fn lemma_next_version_with_entry(c: Seq<(VarKey, u32)>, k: VarKey, v: u32, other: VarKey)
    ensures
        next_version(with_entry(c, k, v), other) == if other == k {
            v
        } else {
            next_version(c, other)
        },
{
    lemma_key_position(c, k);
    lemma_key_position(c, other);
    let c1 = with_entry(c, k, v);
    lemma_key_position(c1, other);
    let p = key_position(c, k);
    if p >= 0 {
        assert(c1 == c.update(p, (k, v)));
        assert(c1[p].0 == k);
        if other == k {
            let q = key_position(c1, other);
            if q != p {
                assert(q < p);
                assert(c[q].0 == k);
            }
        } else {
            let q0 = key_position(c, other);
            let q1 = key_position(c1, other);
            if q0 >= 0 {
                assert(c1[q0].0 == other);
                if q1 != q0 {
                    assert(c[q1].0 == other);
                }
            } else {
                if q1 >= 0 {
                    assert(c[q1].0 == other);
                }
            }
        }
    } else {
        assert(c1 == c.push((k, v)));
        if other == k {
            let q = key_position(c1, other);
            assert(c1[c.len() as int].0 == k);
            if q != c.len() {
                assert(c[q].0 == k);
            }
        } else {
            let q0 = key_position(c, other);
            let q1 = key_position(c1, other);
            if q0 >= 0 {
                assert(c1[q0].0 == other);
                if q1 != q0 {
                    assert(q1 < q0);
                    assert(c[q1].0 == other);
                }
            } else {
                if q1 >= 0 {
                    if q1 < c.len() {
                        assert(c[q1].0 == other);
                    }
                }
            }
        }
    }
}

/// What an assignment is renamed to: a variable that was a version stays
/// the version; a variable that becomes a version becomes one that was
/// given by this assignment; and the counters do not fall behind.
pub proof fn lemma_rename_write(vars: Seq<(VarKey, Item)>, r: Renaming, out: Variable)
    ensures
        match rename_write(vars, r, out) {
            Ok((r1, out1)) => {
                &&& not_behind(r.counters, r1.counters)
                &&& out.versioned_id() is Some ==> out1 == out
                &&& out.versioned_id() is None && out1.versioned_id() is Some ==> {
                    let id = out1.versioned_id()->0;
                    &&& id.2 == next_version(r.counters, (id.0, id.1))
                    &&& next_version(r1.counters, (id.0, id.1)) == id.2 + 1
                }
            },
            Err(_) => true,
        },
{
    match rename_write(vars, r, out) {
        Ok((r1, out1)) => {
            match versioned_key(vars, out) {
                Some(k) => {
                    let version = next_version(r.counters, k);
                    assert forall|other: VarKey| #[trigger] next_version(r.counters, other)
                        <= next_version(r1.counters, other) by {
                        lemma_next_version_with_entry(r.counters, k, (version + 1) as u32, other);
                    }
                    lemma_next_version_with_entry(r.counters, k, (version + 1) as u32, k);
                },
                None => {},
            }
        },
        Err(_) => {},
    }
}

/// Whether `after` is `before` with new versions for some outputs: what
/// was a version stays; what is new was given between the counters; and
/// no new version is written twice.
pub open spec fn outputs_added(
    before: Seq<Option<Variable>>,
    after: Seq<Option<Variable>>,
    c0: Seq<(VarKey, u32)>,
    c1: Seq<(VarKey, u32)>,
) -> bool {
    &&& after.len() == before.len()
    &&& not_behind(c0, c1)
    &&& forall|i: int|
        0 <= i < before.len() && id_of(before[i]) is Some ==> id_of(#[trigger] after[i]) == id_of(
            before[i],
        )
    &&& forall|i: int|
        0 <= i < before.len() && id_of(before[i]) is None && id_of(#[trigger] after[i]) is Some
            ==> given_between(c0, c1, id_of(after[i])->0)
    &&& forall|i: int, j: int|
        0 <= i < j < before.len() && id_of(before[i]) is None && id_of(before[j]) is None
            && id_of(#[trigger] after[i]) is Some && id_of(#[trigger] after[j]) is Some ==> id_of(
            after[i],
        ) != id_of(after[j])
}

/// The outputs of instructions.
pub open spec fn op_outputs(ops: Seq<InstructionView>) -> Seq<Option<Variable>> {
    Seq::new(ops.len(), |i: int| ops[i].out)
}

/// The outputs of phi nodes.
pub open spec fn phi_outputs(phis: Seq<PhiView>) -> Seq<Option<Variable>> {
    Seq::new(phis.len(), |i: int| Some(phis[i].out))
}

/// One more output behind outputs that were renamed.
pub proof fn lemma_outputs_push(
    before: Seq<Option<Variable>>,
    after: Seq<Option<Variable>>,
    c0: Seq<(VarKey, u32)>,
    c1: Seq<(VarKey, u32)>,
    c2: Seq<(VarKey, u32)>,
    out: Option<Variable>,
    out1: Option<Variable>,
)
    requires
        outputs_added(before, after, c0, c1),
        not_behind(c1, c2),
        id_of(out) is Some ==> out1 == out,
        id_of(out) is None && id_of(out1) is Some ==> {
            let id = id_of(out1)->0;
            id.2 == next_version(c1, (id.0, id.1)) && next_version(c2, (id.0, id.1)) == id.2 + 1
        },
    ensures
        outputs_added(before.push(out), after.push(out1), c0, c2),
{
    let b2 = before.push(out);
    let a2 = after.push(out1);
    assert forall|k: VarKey| #[trigger] next_version(c0, k) <= next_version(c2, k) by {
        assert(next_version(c0, k) <= next_version(c1, k));
        assert(next_version(c1, k) <= next_version(c2, k));
    }
    assert forall|i: int| 0 <= i < b2.len() && id_of(b2[i]) is Some implies id_of(
        #[trigger] a2[i],
    ) == id_of(b2[i]) by {
        if i < before.len() {
            assert(a2[i] == after[i]);
        }
    }
    assert forall|i: int|
        0 <= i < b2.len() && id_of(b2[i]) is None && id_of(
            #[trigger] a2[i],
        ) is Some implies given_between(c0, c2, id_of(a2[i])->0) by {
        let id = id_of(a2[i])->0;
        assert(next_version(c0, (id.0, id.1)) <= next_version(c1, (id.0, id.1)));
        assert(next_version(c1, (id.0, id.1)) <= next_version(c2, (id.0, id.1)));
        if i < before.len() {
            assert(a2[i] == after[i]);
            assert(given_between(c0, c1, id));
        }
    }
    assert forall|i: int, j: int|
        0 <= i < j < b2.len() && id_of(b2[i]) is None && id_of(b2[j]) is None && id_of(
            #[trigger] a2[i],
        ) is Some && id_of(#[trigger] a2[j]) is Some implies id_of(a2[i]) != id_of(a2[j]) by {
        assert(a2[i] == after[i]);
        if j < before.len() {
            assert(a2[j] == after[j]);
        } else {
            let idi = id_of(a2[i])->0;
            assert(given_between(c0, c1, idi));
        }
    }
}

/// Renaming instructions adds versions to their outputs.
pub proof fn lemma_rename_ops_outputs(vars: Seq<(VarKey, Item)>, r: Renaming, ops: Seq<InstructionView>)
    ensures
        match rename_ops(vars, r, ops) {
            Ok((r1, done)) => outputs_added(op_outputs(ops), op_outputs(done), r.counters, r1.counters),
            Err(_) => true,
        },
    decreases ops.len(),
{
    if ops.len() == 0 {
        match rename_ops(vars, r, ops) {
            Ok((r1, done)) => {
                assert(op_outputs(done) =~= Seq::<Option<Variable>>::empty());
            },
            Err(_) => {},
        }
    } else {
        lemma_rename_ops_outputs(vars, r, ops.drop_last());
        match rename_ops(vars, r, ops.drop_last()) {
            Ok((r1, done)) => {
                match rename_op(vars, r1, ops.last()) {
                    Ok((r2, op)) => {
                        match ops.last().out {
                            Some(out) => {
                                lemma_rename_write(vars, r1, out);
                            },
                            None => {},
                        }
                        lemma_outputs_push(
                            op_outputs(ops.drop_last()),
                            op_outputs(done),
                            r.counters,
                            r1.counters,
                            r2.counters,
                            ops.last().out,
                            op.out,
                        );
                        assert(op_outputs(ops) =~= op_outputs(ops.drop_last()).push(ops.last().out));
                        assert(op_outputs(done.push(op)) =~= op_outputs(done).push(op.out));
                    },
                    Err(_) => {},
                }
            },
            Err(_) => {},
        }
    }
}

/// Renaming phi nodes adds versions to their outputs.
pub proof fn lemma_rename_phis_outputs(vars: Seq<(VarKey, Item)>, r: Renaming, phis: Seq<PhiView>)
    ensures
        match rename_phis(vars, r, phis) {
            Ok((r1, done)) => outputs_added(
                phi_outputs(phis),
                phi_outputs(done),
                r.counters,
                r1.counters,
            ),
            Err(_) => true,
        },
    decreases phis.len(),
{
    if phis.len() == 0 {
        match rename_phis(vars, r, phis) {
            Ok((r1, done)) => {
                assert(phi_outputs(done) =~= Seq::<Option<Variable>>::empty());
            },
            Err(_) => {},
        }
    } else {
        lemma_rename_phis_outputs(vars, r, phis.drop_last());
        match rename_phis(vars, r, phis.drop_last()) {
            Ok((r1, done)) => {
                match rename_write(vars, r1, phis.last().out) {
                    Ok((r2, out)) => {
                        lemma_rename_write(vars, r1, phis.last().out);
                        lemma_outputs_push(
                            phi_outputs(phis.drop_last()),
                            phi_outputs(done),
                            r.counters,
                            r1.counters,
                            r2.counters,
                            Some(phis.last().out),
                            Some(out),
                        );
                        assert(phi_outputs(phis) =~= phi_outputs(phis.drop_last()).push(
                            Some(phis.last().out),
                        ));
                        let phi = PhiView { out, entries: phis.last().entries };
                        assert(phi_outputs(done.push(phi)) =~= phi_outputs(done).push(Some(out)));
                    },
                    Err(_) => {},
                }
            },
            Err(_) => {},
        }
    }
}

/// Nothing added: blocks are blocks with new versions at no place.
pub proof fn lemma_versions_added_same(blocks: Seq<BlockView>, after: Seq<BlockView>, c: Seq<(VarKey, u32)>)
    requires
        after.len() == blocks.len(),
        forall|b: int, phi: bool, i: int|
            0 <= b < blocks.len() ==> #[trigger] written(after[b], phi, i) == written(
                blocks[b],
                phi,
                i,
            ),
    ensures
        versions_added(blocks, after, c, c),
{
}

/// Versions added after versions were added are versions added.
pub proof fn lemma_versions_added_twice(
    b0: Seq<BlockView>,
    b1: Seq<BlockView>,
    b2: Seq<BlockView>,
    c0: Seq<(VarKey, u32)>,
    c1: Seq<(VarKey, u32)>,
    c2: Seq<(VarKey, u32)>,
)
    requires
        versions_added(b0, b1, c0, c1),
        versions_added(b1, b2, c1, c2),
    ensures
        versions_added(b0, b2, c0, c2),
{
    assert forall|k: VarKey| #[trigger] next_version(c0, k) <= next_version(c2, k) by {
        assert(next_version(c0, k) <= next_version(c1, k));
        assert(next_version(c1, k) <= next_version(c2, k));
    }
    assert forall|b: int, phi: bool, i: int|
        0 <= b < b0.len() && written(b0[b], phi, i) is Some implies #[trigger] written(
        b2[b],
        phi,
        i,
    ) == written(b0[b], phi, i) by {
        assert(written(b1[b], phi, i) == written(b0[b], phi, i));
        assert(written(b2[b], phi, i) == written(b1[b], phi, i));
    }
    assert forall|b: int, phi: bool, i: int|
        0 <= b < b0.len() && written(b0[b], phi, i) is None && (#[trigger] written(
            b2[b],
            phi,
            i,
        )) is Some implies given_between(c0, c2, written(b2[b], phi, i)->0) by {
        let id = written(b2[b], phi, i)->0;
        assert(next_version(c0, (id.0, id.1)) <= next_version(c1, (id.0, id.1)));
        assert(next_version(c1, (id.0, id.1)) <= next_version(c2, (id.0, id.1)));
        if written(b1[b], phi, i) is Some {
            assert(written(b2[b], phi, i) == written(b1[b], phi, i));
            assert(given_between(c0, c1, id));
        } else {
            assert(given_between(c1, c2, id));
        }
    }
    assert forall|x1: int, phi1: bool, i1: int, x2: int, phi2: bool, i2: int|
        0 <= x1 < b0.len() && 0 <= x2 < b0.len() && (x1 != x2 || phi1 != phi2 || i1 != i2)
            && written(b0[x1], phi1, i1) is None && written(b0[x2], phi2, i2) is None && (
        #[trigger] written(b2[x1], phi1, i1)) is Some && (#[trigger] written(
            b2[x2],
            phi2,
            i2,
        )) is Some implies written(b2[x1], phi1, i1) != written(b2[x2], phi2, i2) by {
        let w1 = written(b1[x1], phi1, i1);
        let w2 = written(b1[x2], phi2, i2);
        let id1 = written(b2[x1], phi1, i1)->0;
        let id2 = written(b2[x2], phi2, i2)->0;
        if w1 is Some {
            assert(written(b2[x1], phi1, i1) == w1);
            assert(given_between(c0, c1, id1));
        } else {
            assert(given_between(c1, c2, id1));
        }
        if w2 is Some {
            assert(written(b2[x2], phi2, i2) == w2);
            assert(given_between(c0, c1, id2));
        } else {
            assert(given_between(c1, c2, id2));
        }
    }
}

/// Renaming a block adds versions in that block, and in no other.
pub proof fn lemma_rename_block_added(
    vars: Seq<(VarKey, Item)>,
    r: Renaming,
    blocks: Seq<BlockView>,
    b: int,
)
    requires
        0 <= b < blocks.len(),
    ensures
        match rename_block(vars, r, blocks[b]) {
            Ok((r2, block)) => versions_added(
                blocks,
                blocks.update(b, block),
                r.counters,
                r2.counters,
            ),
            Err(_) => true,
        },
{
    let before = blocks[b];
    match rename_block(vars, r, before) {
        Ok((r2, block)) => {
            lemma_rename_phis_outputs(vars, r, before.phi_nodes);
            let (r1, phis) = rename_phis(vars, r, before.phi_nodes)->Ok_0;
            lemma_rename_ops_outputs(vars, r1, before.ops);
            let after = blocks.update(b, block);
            let c0 = r.counters;
            let c1 = r1.counters;
            let c2 = r2.counters;
            let p0 = phi_outputs(before.phi_nodes);
            let stage1 = phi_outputs(block.phi_nodes);
            let o0 = op_outputs(before.ops);
            let o1 = op_outputs(block.ops);
            assert(outputs_added(p0, stage1, c0, c1));
            assert(outputs_added(o0, o1, c1, c2));
            assert forall|k: VarKey| #[trigger] next_version(c0, k) <= next_version(c2, k) by {
                assert(next_version(c0, k) <= next_version(c1, k));
                assert(next_version(c1, k) <= next_version(c2, k));
            }
            assert forall|phi: bool, i: int| #[trigger]
                written(block, phi, i) == if phi {
                    if 0 <= i < stage1.len() {
                        id_of(stage1[i])
                    } else {
                        None
                    }
                } else {
                    if 0 <= i < o1.len() {
                        id_of(o1[i])
                    } else {
                        None
                    }
                } by {}
            assert forall|phi: bool, i: int| #[trigger]
                written(before, phi, i) == if phi {
                    if 0 <= i < p0.len() {
                        id_of(p0[i])
                    } else {
                        None
                    }
                } else {
                    if 0 <= i < o0.len() {
                        id_of(o0[i])
                    } else {
                        None
                    }
                } by {}
            assert forall|x: int, phi: bool, i: int|
                0 <= x < blocks.len() && written(blocks[x], phi, i) is Some implies #[trigger] written(
                after[x],
                phi,
                i,
            ) == written(blocks[x], phi, i) by {
                if x == b {
                    if phi {
                        assert(id_of(stage1[i]) == id_of(p0[i]));
                    } else {
                        assert(id_of(o1[i]) == id_of(o0[i]));
                    }
                }
            }
            assert forall|x: int, phi: bool, i: int|
                0 <= x < blocks.len() && written(blocks[x], phi, i) is None && (#[trigger] written(
                    after[x],
                    phi,
                    i,
                )) is Some implies given_between(c0, c2, written(after[x], phi, i)->0) by {
                assert(x == b);
                let id = written(after[x], phi, i)->0;
                assert(next_version(c0, (id.0, id.1)) <= next_version(c1, (id.0, id.1)));
                assert(next_version(c1, (id.0, id.1)) <= next_version(c2, (id.0, id.1)));
                if phi {
                    assert(id_of(stage1[i]) is Some);
                    assert(given_between(c0, c1, id));
                } else {
                    assert(id_of(o1[i]) is Some);
                    assert(given_between(c1, c2, id));
                }
            }
            assert forall|x1: int, phi1: bool, i1: int, x2: int, phi2: bool, i2: int|
                0 <= x1 < blocks.len() && 0 <= x2 < blocks.len() && (x1 != x2 || phi1 != phi2 || i1
                    != i2) && written(blocks[x1], phi1, i1) is None && written(
                    blocks[x2],
                    phi2,
                    i2,
                ) is None && (#[trigger] written(after[x1], phi1, i1)) is Some && (
                #[trigger] written(after[x2], phi2, i2)) is Some implies written(
                after[x1],
                phi1,
                i1,
            ) != written(after[x2], phi2, i2) by {
                assert(x1 == b && x2 == b);
                let id1 = written(after[x1], phi1, i1)->0;
                let id2 = written(after[x2], phi2, i2)->0;
                if phi1 {
                    assert(id_of(stage1[i1]) is Some);
                    assert(given_between(c0, c1, id1));
                } else {
                    assert(id_of(o1[i1]) is Some);
                    assert(given_between(c1, c2, id1));
                }
                if phi2 {
                    assert(id_of(stage1[i2]) is Some);
                    assert(given_between(c0, c1, id2));
                } else {
                    assert(id_of(o1[i2]) is Some);
                    assert(given_between(c1, c2, id2));
                }
                if phi1 == phi2 {
                    if i1 < i2 {
                        if phi1 {
                            assert(id_of(stage1[i1]) != id_of(stage1[i2]));
                        } else {
                            assert(id_of(o1[i1]) != id_of(o1[i2]));
                        }
                    } else {
                        if phi1 {
                            assert(id_of(stage1[i2]) != id_of(stage1[i1]));
                        } else {
                            assert(id_of(o1[i2]) != id_of(o1[i1]));
                        }
                    }
                }
            }
        },
        Err(_) => {},
    }
}

/// Filling the entries of phi nodes writes no version.
pub proof fn lemma_fill_successors_added(
    vars: Seq<(VarKey, Item)>,
    current: Seq<(VarKey, u16)>,
    blocks: Seq<BlockView>,
    from: u32,
    succs: Seq<u32>,
    c: Seq<(VarKey, u32)>,
)
    ensures
        versions_added(blocks, fill_successors(vars, current, blocks, from, succs), c, c),
    decreases succs.len(),
{
    let all = fill_successors(vars, current, blocks, from, succs);
    if succs.len() > 0 {
        lemma_fill_successors_added(vars, current, blocks, from, succs.drop_last(), c);
        let done = fill_successors(vars, current, blocks, from, succs.drop_last());
        assert forall|b: int, phi: bool, i: int| 0 <= b < done.len() implies #[trigger] written(
            all[b],
            phi,
            i,
        ) == written(done[b], phi, i) by {
            if succs.last() < done.len() && b == succs.last() {
                let filled = fill_block(vars, current, done[b], from);
                if phi && 0 <= i < done[b].phi_nodes.len() {
                    assert(filled.phi_nodes[i].out == done[b].phi_nodes[i].out);
                }
            }
        }
        lemma_versions_added_same(done, all, c);
        lemma_versions_added_twice(blocks, done, all, c, c, c);
    } else {
        lemma_versions_added_same(blocks, all, c);
    }
}

/// Renaming a dominator tree adds versions.
pub proof fn lemma_version_tree_added(
    blocks: Seq<BlockView>,
    arcs: Seq<(u32, u32)>,
    idoms: Seq<Option<u32>>,
    vars: Seq<(VarKey, Item)>,
    r: Renaming,
    b: u32,
    fuel: nat,
)
    ensures
        match version_tree(blocks, arcs, idoms, vars, r, b, fuel) {
            Ok((done, c)) => versions_added(blocks, done, r.counters, c),
            Err(_) => true,
        },
    decreases fuel, 0nat, 0nat,
{
    if fuel == 0 || b >= blocks.len() {
        lemma_versions_added_same(blocks, blocks, r.counters);
    } else {
        match rename_block(vars, r, blocks[b as int]) {
            Ok((r1, block)) => {
                lemma_rename_block_added(vars, r, blocks, b as int);
                let renamed = blocks.update(b as int, block);
                let filled = fill_successors(vars, r1.current, renamed, b, successors_of(arcs, b));
                lemma_fill_successors_added(
                    vars,
                    r1.current,
                    renamed,
                    b,
                    successors_of(arcs, b),
                    r1.counters,
                );
                lemma_versions_added_twice(
                    blocks,
                    renamed,
                    filled,
                    r.counters,
                    r1.counters,
                    r1.counters,
                );
                lemma_version_children_added(
                    filled,
                    arcs,
                    idoms,
                    vars,
                    r1,
                    children_upto(idoms, b, idoms.len()),
                    (fuel - 1) as nat,
                );
                match version_tree(blocks, arcs, idoms, vars, r, b, fuel) {
                    Ok((done, c)) => {
                        lemma_versions_added_twice(
                            blocks,
                            filled,
                            done,
                            r.counters,
                            r1.counters,
                            c,
                        );
                    },
                    Err(_) => {},
                }
            },
            Err(_) => {},
        }
    }
}

/// Renaming the dominator trees below some children adds versions.
pub proof fn lemma_version_children_added(
    blocks: Seq<BlockView>,
    arcs: Seq<(u32, u32)>,
    idoms: Seq<Option<u32>>,
    vars: Seq<(VarKey, Item)>,
    r: Renaming,
    children: Seq<u32>,
    fuel: nat,
)
    ensures
        match version_children(blocks, arcs, idoms, vars, r, children, fuel) {
            Ok((done, c)) => versions_added(blocks, done, r.counters, c),
            Err(_) => true,
        },
    decreases fuel, 1nat, children.len(),
{
    if children.len() == 0 {
        lemma_versions_added_same(blocks, blocks, r.counters);
    } else {
        lemma_version_children_added(blocks, arcs, idoms, vars, r, children.drop_last(), fuel);
        match version_children(blocks, arcs, idoms, vars, r, children.drop_last(), fuel) {
            Ok((b1, c1)) => {
                lemma_version_tree_added(
                    b1,
                    arcs,
                    idoms,
                    vars,
                    Renaming { counters: c1, current: r.current },
                    children.last(),
                    fuel,
                );
                match version_children(blocks, arcs, idoms, vars, r, children, fuel) {
                    Ok((done, c)) => {
                        lemma_versions_added_twice(blocks, b1, done, r.counters, c1, c);
                    },
                    Err(_) => {},
                }
            },
            Err(_) => {},
        }
    }
}

/// Whether no phi node and no instruction of the program writes a version.
pub open spec fn writes_no_version(p: crate::program::ProgramView) -> bool {
    forall|b: int, phi: bool, i: int|
        0 <= b < p.blocks.len() ==> (#[trigger] written(p.blocks[b], phi, i)) is None
}

/// Whether no two places of the program write the same version.
pub open spec fn single_assignment(p: crate::program::ProgramView) -> bool {
    forall|b1: int, phi1: bool, i1: int, b2: int, phi2: bool, i2: int|
        0 <= b1 < p.blocks.len() && 0 <= b2 < p.blocks.len() && (b1 != b2 || phi1 != phi2 || i1
            != i2) && (#[trigger] written(p.blocks[b1], phi1, i1)) is Some && (#[trigger] written(
            p.blocks[b2],
            phi2,
            i2,
        )) is Some ==> written(p.blocks[b1], phi1, i1) != written(p.blocks[b2], phi2, i2)
}

/// After the transformation into static single-assignment form of a
/// program that wrote no version, every version has one place that writes
/// it: no two phi nodes or instructions, in one block or in two, write the
/// same version of a variable.
pub proof fn lemma_single_assignment(p: crate::program::ProgramView)
    requires
        writes_no_version(p),
    ensures
        match p.ssa_transform() {
            Ok(q) => single_assignment(q),
            Err(_) => true,
        },
{
    let stage1 = p.with_frontiers();
    let stage2 = stage1.with_phis();
    assert(writes_no_version(stage1)) by {
        assert forall|b: int, phi: bool, i: int| 0 <= b < stage1.blocks.len() implies (
        #[trigger] written(stage1.blocks[b], phi, i)) is None by {
            assert(written(p.blocks[b], phi, i) is None);
        }
    }
    lemma_place_all_writes_none(stage1, stage1.variables);
    let start = Renaming { counters: Seq::empty(), current: Seq::empty() };
    lemma_version_tree_added(
        stage2.blocks,
        stage2.arcs,
        crate::phi_frontiers::idoms_of(stage2),
        stage2.variables,
        start,
        stage2.root,
        stage2.blocks.len(),
    );
    match stage2.version_program() {
        Ok(stage3) => {
            let q = stage3.cleared();
            assert forall|b1: int, phi1: bool, i1: int, b2: int, phi2: bool, i2: int|
                0 <= b1 < q.blocks.len() && 0 <= b2 < q.blocks.len() && (b1 != b2 || phi1 != phi2
                    || i1 != i2) && (#[trigger] written(q.blocks[b1], phi1, i1)) is Some && (
                #[trigger] written(q.blocks[b2], phi2, i2)) is Some implies written(
                q.blocks[b1],
                phi1,
                i1,
            ) != written(q.blocks[b2], phi2, i2) by {
                assert(written(q.blocks[b1], phi1, i1) == written(stage3.blocks[b1], phi1, i1));
                assert(written(q.blocks[b2], phi2, i2) == written(stage3.blocks[b2], phi2, i2));
                assert(written(stage2.blocks[b1], phi1, i1) is None);
                assert(written(stage2.blocks[b2], phi2, i2) is None);
            }
        },
        Err(_) => {},
    }
}

/// Placing phi nodes writes no version: a new phi node writes a local.
pub proof fn lemma_place_all_writes_none(p: crate::program::ProgramView, vars: Seq<(VarKey, Item)>)
    requires
        writes_no_version(p),
    ensures
        writes_no_version(p.place_all(vars)),
    decreases vars.len(),
{
    if vars.len() > 0 {
        lemma_place_all_writes_none(p, vars.drop_last());
        let before = p.place_all(vars.drop_last());
        let after = p.place_all(vars);
        assert forall|b: int, phi: bool, i: int| 0 <= b < after.blocks.len() implies (
        #[trigger] written(after.blocks[b], phi, i)) is None by {
            assert(written(before.blocks[b], phi, i) is None);
            if phi && 0 <= i < after.blocks[b].phi_nodes.len() {
                if i < before.blocks[b].phi_nodes.len() {
                    assert(after.blocks[b].phi_nodes[i] == before.blocks[b].phi_nodes[i]);
                    assert(written(before.blocks[b], true, i) is None);
                }
            }
            if !phi && 0 <= i < after.blocks[b].ops.len() {
                assert(written(before.blocks[b], false, i) is None);
            }
        }
    }
}

} // verus!
