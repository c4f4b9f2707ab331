//! What is known of the values of integers: ranges, and how they are found.

use crate::ir::{ConstantValue, Elem, IntKind, Item, Position, VarId, VarKey, Variable};
use crate::block::{BlockView, PhiInstruction, PhiView};
use crate::instruction::{Instruction, InstructionView, OpKind};
use crate::program::{CubeDim, Range, Slice};
use crate::varmap::{find_key, lemma_key_position, lookup};
use vstd::prelude::*;

verus! {

/// The position of the first entry for `id`, or -1 if there is none.
pub open spec fn id_position<V>(s: Seq<(VarId, V)>, id: VarId) -> int
    decreases s.len(),
{
    if s.len() == 0 {
        -1
    } else {
        let p = id_position(s.drop_last(), id);
        if p >= 0 {
            p
        } else if s.last().0 == id {
            s.len() - 1
        } else {
            -1
        }
    }
}

/// What `id_position` finds lies inside the sequence.
pub proof fn lemma_id_position<V>(s: Seq<(VarId, V)>, id: VarId)
    ensures
        -1 <= id_position(s, id) < s.len(),
        id_position(s, id) >= 0 ==> s[id_position(s, id)].0 == id,
    decreases s.len(),
{
    if s.len() > 0 {
        lemma_id_position(s.drop_last(), id);
    }
}

/// An entry that is found in the first `n` entries is found at the same
/// place in the whole sequence.
pub proof fn lemma_id_position_prefix<V>(s: Seq<(VarId, V)>, n: int, id: VarId)
    requires
        0 <= n <= s.len(),
        id_position(s.take(n), id) >= 0,
    ensures
        id_position(s, id) == id_position(s.take(n), id),
    decreases s.len() - n,
{
    if n < s.len() {
        assert(s.drop_last().take(n) =~= s.take(n));
        lemma_id_position_prefix(s.drop_last(), n, id);
    } else {
        assert(s.take(n) =~= s);
    }
}

impl Range {
    /// The range without bounds.
    pub open spec fn unbounded() -> Range {
        Range { lower_bound: None, upper_bound: None }
    }

    /// The range that holds `v` alone.
    pub open spec fn exactly(v: i64) -> Range {
        Range { lower_bound: Some(v), upper_bound: Some(v) }
    }

    /// Whether `v` lies in the range.
    pub open spec fn holds(self, v: int) -> bool {
        &&& match self.lower_bound {
            Some(l) => l <= v,
            None => true,
        }
        &&& match self.upper_bound {
            Some(u) => v <= u,
            None => true,
        }
    }
}

/// The range that is recorded for `id`, or the range without bounds.
pub open spec fn range_of(ranges: Seq<(VarId, Range)>, id: VarId) -> Range {
    let p = id_position(ranges, id);
    if p >= 0 {
        ranges[p].1
    } else {
        Range::unbounded()
    }
}

/// The range of a position: below the size of the cube for the position of
/// a unit in its cube, the size itself for a size, else no bound but zero.
pub open spec fn position_range(dim: CubeDim, pos: Position) -> Range {
    match pos {
        Position::UnitPosX => Range { lower_bound: Some(0), upper_bound: Some((dim.x - 1) as i64) },
        Position::UnitPosY => Range { lower_bound: Some(0), upper_bound: Some((dim.y - 1) as i64) },
        Position::UnitPosZ => Range { lower_bound: Some(0), upper_bound: Some((dim.z - 1) as i64) },
        Position::CubeDimX => Range { lower_bound: Some(dim.x as i64), upper_bound: Some(dim.x as i64) },
        Position::CubeDimY => Range { lower_bound: Some(dim.y as i64), upper_bound: Some(dim.y as i64) },
        Position::CubeDimZ => Range { lower_bound: Some(dim.z as i64), upper_bound: Some(dim.z as i64) },
        _ => Range { lower_bound: Some(0), upper_bound: None },
    }
}

/// The range of the type of a scalar: what an unsigned integer or a signed
/// integer of 32 bits can hold; no bound for anything else.
pub open spec fn type_range(item: Item) -> Range {
    if item.vectorization != 1 {
        Range::unbounded()
    } else {
        match item.elem {
            Elem::UInt => Range { lower_bound: Some(0), upper_bound: Some(0xffff_ffff) },
            Elem::Int(IntKind::I32) => Range {
                lower_bound: Some((-0x8000_0000) as i64),
                upper_bound: Some(0x7fff_ffff),
            },
            _ => Range::unbounded(),
        }
    }
}

/// The range of the values of `v`, as far as it is known.
pub open spec fn variable_range(ranges: Seq<(VarId, Range)>, dim: CubeDim, v: Variable) -> Range {
    match v {
        Variable::ConstantScalar(ConstantValue::UInt(c)) => if c <= i64::MAX {
            Range::exactly(c as i64)
        } else {
            Range::unbounded()
        },
        Variable::ConstantScalar(ConstantValue::Int(c, _)) => Range::exactly(c),
        Variable::Versioned { id, depth, version, item } => if id_position(
            ranges,
            (id, depth, version),
        ) >= 0 {
            range_of(ranges, (id, depth, version))
        } else {
            type_range(item)
        },
        Variable::Position(pos) => position_range(dim, pos),
        _ => Range::unbounded(),
    }
}

/// The number of items of `array`, where it is known.
pub open spec fn known_length(slices: Seq<(VarKey, Slice)>, array: Variable) -> Option<u32> {
    match array {
        Variable::LocalArray { length, .. } => Some(length),
        Variable::Slice { id, depth, .. } => match lookup(slices, (id, depth)) {
            Some(s) => s.const_len,
            None => None,
        },
        _ => None,
    }
}

/// Whether every value of `index` is known to lie inside `array`: the
/// length of the array is known, the index is known not to be negative,
/// and its upper bound, from its range or from a guard, lies below the
/// length.
pub open spec fn provably_inside(
    ranges: Seq<(VarId, Range)>,
    slices: Seq<(VarKey, Slice)>,
    dim: CubeDim,
    array: Variable,
    index: Variable,
    guard: Option<i64>,
) -> bool {
    let r = variable_range(ranges, dim, index);
    match (known_length(slices, array), r.lower_bound, tighter_upper(r.upper_bound, guard)) {
        (Some(len), Some(l), Some(u)) => 0 <= l && u < len,
        _ => false,
    }
}

/// The place of the first entry for `id`.
pub fn find_id<V>(map: &Vec<(VarId, V)>, id: VarId) -> (found: Option<usize>)
    ensures
        match found {
            Some(p) => p == id_position(map@, id),
            None => id_position(map@, id) == -1,
        },
{
    let mut i: usize = 0;
    while i < map.len()
        invariant
            i <= map.len(),
            id_position(map@.take(i as int), id) == -1,
        decreases map.len() - i,
    {
        let key = map[i].0;
        proof {
            assert(map@.take(i + 1).drop_last() =~= map@.take(i as int));
        }
        if key.0 == id.0 && key.1 == id.1 && key.2 == id.2 {
            proof {
                lemma_id_position_prefix(map@, i + 1, id);
            }
            return Some(i);
        }
        i += 1;
    }
    assert(map@.take(i as int) =~= map@);
    None
}

/// The range of the type of a scalar.
pub fn range_of_type(item: &Item) -> (r: Range)
    ensures
        r == type_range(*item),
{
    if item.vectorization != 1 {
        Range { lower_bound: None, upper_bound: None }
    } else {
        match item.elem {
            Elem::UInt => Range { lower_bound: Some(0), upper_bound: Some(0xffff_ffff) },
            Elem::Int(IntKind::I32) => Range {
                lower_bound: Some(-0x8000_0000),
                upper_bound: Some(0x7fff_ffff),
            },
            _ => Range { lower_bound: None, upper_bound: None },
        }
    }
}

/// The range of the values of `v`, as far as it is known.
pub fn range_of_variable(ranges: &Vec<(VarId, Range)>, dim: CubeDim, v: &Variable) -> (r: Range)
    ensures
        r == variable_range(ranges@, dim, *v),
{
    match v {
        Variable::ConstantScalar(ConstantValue::UInt(c)) => {
            if *c <= 0x7fff_ffff_ffff_ffff {
                Range { lower_bound: Some(*c as i64), upper_bound: Some(*c as i64) }
            } else {
                Range { lower_bound: None, upper_bound: None }
            }
        },
        Variable::ConstantScalar(ConstantValue::Int(c, _)) => Range {
            lower_bound: Some(*c),
            upper_bound: Some(*c),
        },
        Variable::Versioned { id, depth, version, item } => match find_id(
            ranges,
            (*id, *depth, *version),
        ) {
            Some(p) => {
                proof {
                    lemma_id_position(ranges@, (*id, *depth, *version));
                }
                ranges[p].1
            },
            None => range_of_type(item),
        },
        Variable::Position(pos) => match pos {
            Position::UnitPosX => Range {
                lower_bound: Some(0),
                upper_bound: Some(dim.x as i64 - 1),
            },
            Position::UnitPosY => Range {
                lower_bound: Some(0),
                upper_bound: Some(dim.y as i64 - 1),
            },
            Position::UnitPosZ => Range {
                lower_bound: Some(0),
                upper_bound: Some(dim.z as i64 - 1),
            },
            Position::CubeDimX => Range {
                lower_bound: Some(dim.x as i64),
                upper_bound: Some(dim.x as i64),
            },
            Position::CubeDimY => Range {
                lower_bound: Some(dim.y as i64),
                upper_bound: Some(dim.y as i64),
            },
            Position::CubeDimZ => Range {
                lower_bound: Some(dim.z as i64),
                upper_bound: Some(dim.z as i64),
            },
            _ => Range { lower_bound: Some(0), upper_bound: None },
        },
        _ => Range { lower_bound: None, upper_bound: None },
    }
}

/// The number of items of `array`, where it is known.
pub fn length_of(slices: &Vec<(VarKey, Slice)>, array: &Variable) -> (len: Option<u32>)
    ensures
        len == known_length(slices@, *array),
{
    match array {
        Variable::LocalArray { length, .. } => Some(*length),
        Variable::Slice { id, depth, .. } => match find_key(slices, (*id, *depth)) {
            Some(p) => {
                proof {
                    lemma_key_position(slices@, (*id, *depth));
                }
                slices[p].1.const_len
            },
            None => None,
        },
        _ => None,
    }
}

/// Whether every value of `index` is known to lie inside `array`.
pub fn is_inside(
    ranges: &Vec<(VarId, Range)>,
    slices: &Vec<(VarKey, Slice)>,
    dim: CubeDim,
    array: &Variable,
    index: &Variable,
    guard: Option<i64>,
) -> (inside: bool)
    ensures
        inside == provably_inside(ranges@, slices@, dim, *array, *index, guard),
{
    let r = range_of_variable(ranges, dim, index);
    match (length_of(slices, array), r.lower_bound, bounds_tighter_upper(r.upper_bound, guard)) {
        (Some(len), Some(l), Some(u)) => 0 <= l && u < len as i64,
        _ => false,
    }
}

/// `v` as a bound, if an `i64` can hold it.
pub open spec fn bound(v: int) -> Option<i64> {
    if i64::MIN <= v <= i64::MAX {
        Some(v as i64)
    } else {
        None
    }
}

/// The smaller of two lower bounds: none if one of them is none.
pub open spec fn lower_of(a: Option<i64>, b: Option<i64>) -> Option<i64> {
    match (a, b) {
        (Some(x), Some(y)) => Some(if x <= y {
            x
        } else {
            y
        }),
        _ => None,
    }
}

/// The larger of two upper bounds: none if one of them is none.
pub open spec fn upper_of(a: Option<i64>, b: Option<i64>) -> Option<i64> {
    match (a, b) {
        (Some(x), Some(y)) => Some(if x >= y {
            x
        } else {
            y
        }),
        _ => None,
    }
}

/// The larger of two lower bounds: a bound that is missing does not count.
pub open spec fn tighter_lower(a: Option<i64>, b: Option<i64>) -> Option<i64> {
    match (a, b) {
        (Some(x), Some(y)) => Some(if x >= y {
            x
        } else {
            y
        }),
        (Some(x), None) => Some(x),
        (None, y) => y,
    }
}

/// The smaller of two upper bounds: a bound that is missing does not count.
pub open spec fn tighter_upper(a: Option<i64>, b: Option<i64>) -> Option<i64> {
    match (a, b) {
        (Some(x), Some(y)) => Some(if x <= y {
            x
        } else {
            y
        }),
        (Some(x), None) => Some(x),
        (None, y) => y,
    }
}

/// The sum of two bounds: none if one is missing or the sum is too large.
pub open spec fn sum_of(a: Option<i64>, b: Option<i64>) -> Option<i64> {
    match (a, b) {
        (Some(x), Some(y)) => bound(x + y),
        _ => None,
    }
}

/// The difference of two bounds.
pub open spec fn difference_of(a: Option<i64>, b: Option<i64>) -> Option<i64> {
    match (a, b) {
        (Some(x), Some(y)) => bound(x - y),
        _ => None,
    }
}

/// The product of two bounds.
pub open spec fn product_of(a: Option<i64>, b: Option<i64>) -> Option<i64> {
    match (a, b) {
        (Some(x), Some(y)) => bound(x * y),
        _ => None,
    }
}

/// The range of the result of an operator on operands with the given
/// ranges: sums, differences, products of values that are not negative,
/// the smaller and the larger of two, the negative, a copy, a choice and a
/// clamped value; no bound for anything else. A bound that an `i64` cannot
/// hold is no bound.
pub open spec fn transfer(kind: OpKind, r: Seq<Range>) -> Range {
    if r.len() == 1 {
        match kind {
            OpKind::Assign => r[0],
            OpKind::Neg => Range {
                lower_bound: difference_of(Some(0), r[0].upper_bound),
                upper_bound: difference_of(Some(0), r[0].lower_bound),
            },
            _ => Range::unbounded(),
        }
    } else if r.len() == 2 {
        match kind {
            OpKind::Add => Range {
                lower_bound: sum_of(r[0].lower_bound, r[1].lower_bound),
                upper_bound: sum_of(r[0].upper_bound, r[1].upper_bound),
            },
            OpKind::Sub => Range {
                lower_bound: difference_of(r[0].lower_bound, r[1].upper_bound),
                upper_bound: difference_of(r[0].upper_bound, r[1].lower_bound),
            },
            OpKind::Mul => match (r[0].lower_bound, r[1].lower_bound) {
                (Some(a), Some(b)) => if a >= 0 && b >= 0 {
                    Range {
                        lower_bound: product_of(r[0].lower_bound, r[1].lower_bound),
                        upper_bound: product_of(r[0].upper_bound, r[1].upper_bound),
                    }
                } else {
                    Range::unbounded()
                },
                _ => Range::unbounded(),
            },
            OpKind::Min => Range {
                lower_bound: lower_of(r[0].lower_bound, r[1].lower_bound),
                upper_bound: tighter_upper(r[0].upper_bound, r[1].upper_bound),
            },
            OpKind::Max => Range {
                lower_bound: tighter_lower(r[0].lower_bound, r[1].lower_bound),
                upper_bound: upper_of(r[0].upper_bound, r[1].upper_bound),
            },
            _ => Range::unbounded(),
        }
    } else if r.len() == 3 {
        match kind {
            OpKind::Select => Range {
                lower_bound: lower_of(r[1].lower_bound, r[2].lower_bound),
                upper_bound: upper_of(r[1].upper_bound, r[2].upper_bound),
            },
            OpKind::Clamp => Range {
                lower_bound: lower_of(
                    tighter_lower(r[0].lower_bound, r[1].lower_bound),
                    r[2].lower_bound,
                ),
                upper_bound: tighter_upper(
                    upper_of(r[0].upper_bound, r[1].upper_bound),
                    r[2].upper_bound,
                ),
            },
            _ => Range::unbounded(),
        }
    } else {
        Range::unbounded()
    }
}

/// A range for a value of the given type: the range itself if every value
/// in it fits the type, so that nothing wraps; else the range of the type.
pub open spec fn fitted(r: Range, item: Item) -> Range {
    let t = type_range(item);
    match (t.lower_bound, t.upper_bound, r.lower_bound, r.upper_bound) {
        (Some(tl), Some(tu), Some(l), Some(u)) => if tl <= l && u <= tu {
            r
        } else {
            t
        },
        _ => t,
    }
}

/// The ranges of all of `args`.
pub open spec fn ranges_of(ranges: Seq<(VarId, Range)>, dim: CubeDim, args: Seq<Variable>) -> Seq<
    Range,
> {
    Seq::new(args.len(), |i: int| variable_range(ranges, dim, args[i]))
}

/// The ranges with the range of `id`: in the place of the old one if there
/// was one, else at the end.
pub open spec fn with_range(ranges: Seq<(VarId, Range)>, id: VarId, r: Range) -> Seq<
    (VarId, Range),
> {
    let p = id_position(ranges, id);
    if 0 <= p < ranges.len() {
        ranges.update(p, (id, r))
    } else {
        ranges.push((id, r))
    }
}

/// The ranges after an instruction: if it writes a versioned scalar, the
/// range of its result is recorded.
pub open spec fn analyze_op(ranges: Seq<(VarId, Range)>, dim: CubeDim, op: InstructionView) -> Seq<
    (VarId, Range),
> {
    match op.out {
        Some(Variable::Versioned { id, depth, item, version }) => with_range(
            ranges,
            (id, depth, version),
            fitted(transfer(op.kind, ranges_of(ranges, dim, op.args)), item),
        ),
        _ => ranges,
    }
}

/// The ranges after a sequence of instructions.
pub open spec fn analyze_ops(ranges: Seq<(VarId, Range)>, dim: CubeDim, ops: Seq<InstructionView>) -> Seq<
    (VarId, Range),
>
    decreases ops.len(),
{
    if ops.len() == 0 {
        ranges
    } else {
        analyze_op(analyze_ops(ranges, dim, ops.drop_last()), dim, ops.last())
    }
}

/// The union of two ranges: the least range that holds both. A bound that
/// one of them lacks is no bound of the union.
pub open spec fn union_range(a: Range, b: Range) -> Range {
    Range {
        lower_bound: lower_of(a.lower_bound, b.lower_bound),
        upper_bound: upper_of(a.upper_bound, b.upper_bound),
    }
}

/// The union of the ranges of the values that a phi node takes, one for
/// each entry; nothing where it has no entry. A value whose range was not
/// found yet, as the one that comes round a loop, has the whole range of
/// its type, and so has the union then.
pub open spec fn phi_union(ranges: Seq<(VarId, Range)>, dim: CubeDim, entries: Seq<(u32, Variable)>) -> Option<
    Range,
>
    decreases entries.len(),
{
    if entries.len() == 0 {
        None
    } else {
        let r = variable_range(ranges, dim, entries.last().1);
        match phi_union(ranges, dim, entries.drop_last()) {
            Some(before) => Some(union_range(before, r)),
            None => Some(r),
        }
    }
}

/// The ranges after a phi node: if it writes a versioned scalar and has an
/// entry, the union of the ranges of its entries is recorded.
pub open spec fn analyze_phi(ranges: Seq<(VarId, Range)>, dim: CubeDim, phi: PhiView) -> Seq<
    (VarId, Range),
> {
    match (phi.out, phi_union(ranges, dim, phi.entries)) {
        (Variable::Versioned { id, depth, item, version }, Some(r)) => with_range(
            ranges,
            (id, depth, version),
            fitted(r, item),
        ),
        _ => ranges,
    }
}

/// The ranges after a sequence of phi nodes.
pub open spec fn analyze_phis(ranges: Seq<(VarId, Range)>, dim: CubeDim, phis: Seq<PhiView>) -> Seq<
    (VarId, Range),
>
    decreases phis.len(),
{
    if phis.len() == 0 {
        ranges
    } else {
        analyze_phi(analyze_phis(ranges, dim, phis.drop_last()), dim, phis.last())
    }
}

/// The ranges after the blocks below `m`, in the order of their indices:
/// of each block first its phi nodes, then its instructions.
pub open spec fn analyze_upto(
    ranges: Seq<(VarId, Range)>,
    dim: CubeDim,
    blocks: Seq<BlockView>,
    nodes: Set<u32>,
    m: nat,
) -> Seq<(VarId, Range)>
    decreases m,
{
    if m == 0 {
        ranges
    } else if m <= blocks.len() && nodes.contains((m - 1) as u32) {
        analyze_ops(
            analyze_phis(
                analyze_upto(ranges, dim, blocks, nodes, (m - 1) as nat),
                dim,
                blocks[m - 1].phi_nodes,
            ),
            dim,
            blocks[m - 1].ops,
        )
    } else {
        analyze_upto(ranges, dim, blocks, nodes, (m - 1) as nat)
    }
}

/// `v` as a bound.
pub fn bound_of(v: i128) -> (b: Option<i64>)
    ensures
        b == bound(v as int),
{
    if -0x8000_0000_0000_0000 <= v && v <= 0x7fff_ffff_ffff_ffff {
        Some(v as i64)
    } else {
        None
    }
}

/// The sum of two bounds.
pub fn bounds_sum(a: Option<i64>, b: Option<i64>) -> (c: Option<i64>)
    ensures
        c == sum_of(a, b),
{
    match (a, b) {
        (Some(x), Some(y)) => bound_of(x as i128 + y as i128),
        _ => None,
    }
}

/// The difference of two bounds.
pub fn bounds_difference(a: Option<i64>, b: Option<i64>) -> (c: Option<i64>)
    ensures
        c == difference_of(a, b),
{
    match (a, b) {
        (Some(x), Some(y)) => bound_of(x as i128 - y as i128),
        _ => None,
    }
}

/// The product of two bounds.
pub fn bounds_product(a: Option<i64>, b: Option<i64>) -> (c: Option<i64>)
    ensures
        c == product_of(a, b),
{
    match (a, b) {
        (Some(x), Some(y)) => {
            proof {
                crate::semantics::lemma_product_bound(x as int, y as int, 0x8000_0000_0000_0000);
                assert(0x8000_0000_0000_0000int * 0x8000_0000_0000_0000int
                    == 0x4000_0000_0000_0000_0000_0000_0000_0000int);
            }
            bound_of(x as i128 * y as i128)
        },
        _ => None,
    }
}

/// The smaller of two lower bounds.
pub fn bounds_lower(a: Option<i64>, b: Option<i64>) -> (c: Option<i64>)
    ensures
        c == lower_of(a, b),
{
    match (a, b) {
        (Some(x), Some(y)) => Some(if x <= y {
            x
        } else {
            y
        }),
        _ => None,
    }
}

/// The larger of two upper bounds.
pub fn bounds_upper(a: Option<i64>, b: Option<i64>) -> (c: Option<i64>)
    ensures
        c == upper_of(a, b),
{
    match (a, b) {
        (Some(x), Some(y)) => Some(if x >= y {
            x
        } else {
            y
        }),
        _ => None,
    }
}

/// The larger of two lower bounds, where a missing one does not count.
pub fn bounds_tighter_lower(a: Option<i64>, b: Option<i64>) -> (c: Option<i64>)
    ensures
        c == tighter_lower(a, b),
{
    match (a, b) {
        (Some(x), Some(y)) => Some(if x >= y {
            x
        } else {
            y
        }),
        (Some(x), None) => Some(x),
        (None, y) => y,
    }
}

/// The smaller of two upper bounds, where a missing one does not count.
pub fn bounds_tighter_upper(a: Option<i64>, b: Option<i64>) -> (c: Option<i64>)
    ensures
        c == tighter_upper(a, b),
{
    match (a, b) {
        (Some(x), Some(y)) => Some(if x <= y {
            x
        } else {
            y
        }),
        (Some(x), None) => Some(x),
        (None, y) => y,
    }
}

/// The range of the result of an operator.
pub fn transferred(kind: OpKind, r: &Vec<Range>) -> (out: Range)
    ensures
        out == transfer(kind, r@),
{
    let none = Range { lower_bound: None, upper_bound: None };
    if r.len() == 1 {
        match kind {
            OpKind::Assign => r[0],
            OpKind::Neg => Range {
                lower_bound: bounds_difference(Some(0), r[0].upper_bound),
                upper_bound: bounds_difference(Some(0), r[0].lower_bound),
            },
            _ => none,
        }
    } else if r.len() == 2 {
        match kind {
            OpKind::Add => Range {
                lower_bound: bounds_sum(r[0].lower_bound, r[1].lower_bound),
                upper_bound: bounds_sum(r[0].upper_bound, r[1].upper_bound),
            },
            OpKind::Sub => Range {
                lower_bound: bounds_difference(r[0].lower_bound, r[1].upper_bound),
                upper_bound: bounds_difference(r[0].upper_bound, r[1].lower_bound),
            },
            OpKind::Mul => match (r[0].lower_bound, r[1].lower_bound) {
                (Some(a), Some(b)) => {
                    if a >= 0 && b >= 0 {
                        Range {
                            lower_bound: bounds_product(r[0].lower_bound, r[1].lower_bound),
                            upper_bound: bounds_product(r[0].upper_bound, r[1].upper_bound),
                        }
                    } else {
                        none
                    }
                },
                _ => none,
            },
            OpKind::Min => Range {
                lower_bound: bounds_lower(r[0].lower_bound, r[1].lower_bound),
                upper_bound: bounds_tighter_upper(r[0].upper_bound, r[1].upper_bound),
            },
            OpKind::Max => Range {
                lower_bound: bounds_tighter_lower(r[0].lower_bound, r[1].lower_bound),
                upper_bound: bounds_upper(r[0].upper_bound, r[1].upper_bound),
            },
            _ => none,
        }
    } else if r.len() == 3 {
        match kind {
            OpKind::Select => Range {
                lower_bound: bounds_lower(r[1].lower_bound, r[2].lower_bound),
                upper_bound: bounds_upper(r[1].upper_bound, r[2].upper_bound),
            },
            OpKind::Clamp => Range {
                lower_bound: bounds_lower(
                    bounds_tighter_lower(r[0].lower_bound, r[1].lower_bound),
                    r[2].lower_bound,
                ),
                upper_bound: bounds_tighter_upper(
                    bounds_upper(r[0].upper_bound, r[1].upper_bound),
                    r[2].upper_bound,
                ),
            },
            _ => none,
        }
    } else {
        none
    }
}

/// A range for a value of the given type.
pub fn fit(r: Range, item: &Item) -> (out: Range)
    ensures
        out == fitted(r, *item),
{
    let t = range_of_type(item);
    match (t.lower_bound, t.upper_bound, r.lower_bound, r.upper_bound) {
        (Some(tl), Some(tu), Some(l), Some(u)) => {
            if tl <= l && u <= tu {
                r
            } else {
                t
            }
        },
        _ => t,
    }
}

/// Records the range of the result of an instruction.
pub fn analyze_instruction(ranges: &mut Vec<(VarId, Range)>, dim: CubeDim, op: &Instruction)
    ensures
        final(ranges)@ == analyze_op(old(ranges)@, dim, op@),
{
    match op.out {
        Some(Variable::Versioned { id, depth, item, version }) => {
            let mut operands: Vec<Range> = Vec::new();
            let mut i: usize = 0;
            while i < op.args.len()
                invariant
                    i <= op.args.len(),
                    operands@.len() == i,
                    forall|j: int|
                        0 <= j < i ==> #[trigger] operands@[j] == variable_range(
                            ranges@,
                            dim,
                            op.args@[j],
                        ),
                decreases op.args.len() - i,
            {
                operands.push(range_of_variable(ranges, dim, &op.args[i]));
                i += 1;
            }
            assert(operands@ =~= ranges_of(ranges@, dim, op.args@));
            let r = fit(transferred(op.kind, &operands), &item);
            match find_id(ranges, (id, depth, version)) {
                Some(p) => {
                    proof {
                        lemma_id_position(ranges@, (id, depth, version));
                    }
                    ranges[p] = ((id, depth, version), r);
                },
                None => {
                    ranges.push(((id, depth, version), r));
                },
            }
        },
        _ => {},
    }
}

/// Records the union of the ranges of the entries of a phi node.
pub fn analyze_phi_node(ranges: &mut Vec<(VarId, Range)>, dim: CubeDim, phi: &PhiInstruction)
    ensures
        final(ranges)@ == analyze_phi(old(ranges)@, dim, phi@),
{
    match phi.out {
        Variable::Versioned { id, depth, item, version } => {
            let mut union: Option<Range> = None;
            let mut i: usize = 0;
            while i < phi.entries.len()
                invariant
                    i <= phi.entries.len(),
                    union == phi_union(ranges@, dim, phi.entries@.take(i as int)),
                decreases phi.entries.len() - i,
            {
                proof {
                    assert(phi.entries@.take(i + 1).drop_last() =~= phi.entries@.take(i as int));
                    assert(phi.entries@.take(i + 1).last() == phi.entries@[i as int]);
                }
                let r = range_of_variable(ranges, dim, &phi.entries[i].1);
                union = match union {
                    Some(before) => Some(
                        Range {
                            lower_bound: bounds_lower(before.lower_bound, r.lower_bound),
                            upper_bound: bounds_upper(before.upper_bound, r.upper_bound),
                        },
                    ),
                    None => Some(r),
                };
                i += 1;
            }
            proof {
                assert(phi.entries@.take(i as int) =~= phi.entries@);
            }
            match union {
                Some(r) => {
                    let r = fit(r, &item);
                    match find_id(ranges, (id, depth, version)) {
                        Some(p) => {
                            proof {
                                lemma_id_position(ranges@, (id, depth, version));
                            }
                            ranges[p] = ((id, depth, version), r);
                        },
                        None => {
                            ranges.push(((id, depth, version), r));
                        },
                    }
                },
                None => {},
            }
        },
        _ => {},
    }
}

} // verus!
