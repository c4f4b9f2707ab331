use cubecl_opt::range::analyze_phi_node;
use cubecl_opt::rewrite::{const_eval_at, remove_index_scalar_at, simplify_at};
use cubecl_opt::semantics::{fold_binary, fold_ternary, fold_unary};
use cubecl_opt::{
    AtomicCounter, Branch, ConstantValue, ControlFlow, CubeDim, Elem, ExecutionMode, Instruction,
    IntKind, Item, OpKind, Operation, Optimizer, OptimizerPass, PhiInstruction, Procedure, Program,
    Range, Scope, Variable,
};

fn i32c(v: i64) -> ConstantValue {
    ConstantValue::Int(v, IntKind::I32)
}

fn i64c(v: i64) -> ConstantValue {
    ConstantValue::Int(v, IntKind::I64)
}

fn u(v: u64) -> ConstantValue {
    ConstantValue::UInt(v)
}

fn t(v: bool) -> ConstantValue {
    ConstantValue::Bool(v)
}

fn uint_item() -> Item {
    Item { elem: Elem::UInt, vectorization: 1 }
}

fn version(id: u16, version: u16) -> Variable {
    Variable::Versioned { id, depth: 0, item: uint_item(), version }
}

fn local(id: u16) -> Variable {
    Variable::Local { id, depth: 0, item: uint_item() }
}

fn constant(v: u64) -> Variable {
    Variable::ConstantScalar(u(v))
}

fn output() -> Variable {
    Variable::GlobalOutputArray { id: 0, item: uint_item() }
}

fn write_out(v: Variable) -> Operation {
    Operation::Operator(Instruction::binary(OpKind::IndexAssign, constant(0), v, output()))
}

fn dim() -> CubeDim {
    CubeDim { x: 8, y: 2, z: 1 }
}

fn scope(locals: Vec<Variable>, operations: Vec<Operation>) -> Scope {
    Scope { depth: 0, locals, operations }
}

fn body(operations: Vec<Operation>) -> Scope {
    Scope { depth: 1, locals: vec![], operations }
}

fn rendered(opt: &Optimizer) -> String {
    let blocks: Vec<String> =
        opt.node_ids().iter().map(|b| format!("{}: {:?}", b, opt.block(*b))).collect();
    blocks.join("\n")
}

#[test]
fn integers_wrap_at_their_width() {
    assert_eq!(fold_binary(OpKind::Add, i32c(2147483647), i32c(1)), Some(i32c(-2147483648)));
    assert_eq!(fold_binary(OpKind::Sub, i32c(-2147483648), i32c(1)), Some(i32c(2147483647)));
    assert_eq!(fold_binary(OpKind::Mul, i32c(65536), i32c(65536)), Some(i32c(0)));
    assert_eq!(fold_binary(OpKind::Mul, i32c(46341), i32c(46341)), Some(i32c(-2147479015)));
    assert_eq!(fold_binary(OpKind::Add, i64c(i64::MAX), i64c(1)), Some(i64c(i64::MIN)));
    assert_eq!(fold_binary(OpKind::Mul, i64c(i64::MIN), i64c(i64::MIN)), Some(i64c(0)));
    assert_eq!(fold_binary(OpKind::Mul, i64c(i64::MIN), i64c(-1)), Some(i64c(i64::MIN)));
    assert_eq!(fold_binary(OpKind::Sub, u(0), u(1)), Some(u(4294967295)));
    assert_eq!(fold_binary(OpKind::Add, u(4294967295), u(2)), Some(u(1)));
    assert_eq!(fold_binary(OpKind::Mul, u(65537), u(65537)), Some(u(131073)));
    assert_eq!(fold_unary(OpKind::Neg, i32c(-2147483648)), Some(i32c(-2147483648)));
    assert_eq!(fold_unary(OpKind::Neg, i32c(5)), Some(i32c(-5)));
}

#[test]
fn division_rounds_towards_zero_and_spares_zero() {
    assert_eq!(fold_binary(OpKind::Div, i32c(-7), i32c(2)), Some(i32c(-3)));
    assert_eq!(fold_binary(OpKind::Div, i32c(7), i32c(-2)), Some(i32c(-3)));
    assert_eq!(fold_binary(OpKind::Modulo, i32c(-7), i32c(2)), Some(i32c(-1)));
    assert_eq!(fold_binary(OpKind::Modulo, i32c(7), i32c(-2)), Some(i32c(1)));
    assert_eq!(fold_binary(OpKind::Div, i32c(-2147483648), i32c(-1)), Some(i32c(-2147483648)));
    assert_eq!(fold_binary(OpKind::Div, i32c(1), i32c(0)), None);
    assert_eq!(fold_binary(OpKind::Modulo, u(1), u(0)), None);
    assert_eq!(fold_binary(OpKind::Div, u(7), u(2)), Some(u(3)));
}

#[test]
fn comparisons_choices_and_what_does_not_fold() {
    assert_eq!(fold_binary(OpKind::Lower, i32c(-1), i32c(0)), Some(t(true)));
    assert_eq!(fold_binary(OpKind::GreaterEqual, u(3), u(3)), Some(t(true)));
    assert_eq!(fold_binary(OpKind::NotEqual, t(true), t(true)), Some(t(false)));
    assert_eq!(fold_binary(OpKind::And, t(true), t(false)), Some(t(false)));
    assert_eq!(fold_binary(OpKind::Min, i32c(3), i32c(-3)), Some(i32c(-3)));
    assert_eq!(fold_binary(OpKind::Max, u(3), u(9)), Some(u(9)));
    assert_eq!(fold_unary(OpKind::Not, t(false)), Some(t(true)));
    assert_eq!(fold_ternary(OpKind::Select, t(false), u(1), u(2)), Some(u(2)));
    assert_eq!(fold_ternary(OpKind::Clamp, i32c(12), i32c(0), i32c(10)), Some(i32c(10)));
    assert_eq!(fold_ternary(OpKind::Clamp, i32c(-2), i32c(0), i32c(10)), Some(i32c(0)));
    // operands of two types, and floating-point numbers, are left alone
    assert_eq!(fold_binary(OpKind::Add, i32c(1), i64c(1)), None);
    assert_eq!(fold_binary(OpKind::Add, i32c(1), u(1)), None);
    let half = ConstantValue::Float(0x3f00_0000, cubecl_opt::FloatKind::F32);
    assert_eq!(fold_binary(OpKind::Add, half, half), None);
    assert_eq!(fold_binary(OpKind::Index, u(1), u(1)), None);
}

#[test]
fn constant_evaluation_makes_an_assignment() {
    let out = version(0, 1);
    let add = Instruction::binary(OpKind::Add, constant(2), constant(3), out);
    let folded = const_eval_at(&add).unwrap();
    assert_eq!(folded.kind, OpKind::Assign);
    assert_eq!(folded.args, vec![constant(5)]);
    assert_eq!(folded.out, Some(out));
    // an assignment is left as it is, and so is what reads a variable
    assert!(const_eval_at(&folded).is_none());
    assert!(const_eval_at(&Instruction::binary(OpKind::Add, constant(2), version(1, 1), out))
        .is_none());
}

#[test]
fn constant_operands_are_absorbed() {
    let x = version(1, 1);
    let out = version(0, 1);
    let left = |kind, a, b| simplify_at(&Instruction::binary(kind, a, b, out)).map(|op| {
        assert_eq!(op.kind, OpKind::Assign);
        assert_eq!(op.out, Some(out));
        op.args[0]
    });
    assert_eq!(left(OpKind::Add, x, constant(0)), Some(x));
    assert_eq!(left(OpKind::Add, constant(0), x), Some(x));
    assert_eq!(left(OpKind::Sub, x, constant(0)), Some(x));
    assert_eq!(left(OpKind::Sub, constant(0), x), None);
    assert_eq!(left(OpKind::Mul, x, constant(1)), Some(x));
    assert_eq!(left(OpKind::Mul, constant(1), x), Some(x));
    assert_eq!(left(OpKind::Mul, x, constant(0)), Some(constant(0)));
    assert_eq!(left(OpKind::Div, x, constant(1)), Some(x));
    assert_eq!(left(OpKind::Div, constant(1), x), None);
    assert_eq!(left(OpKind::BitwiseAnd, x, constant(0)), Some(constant(0)));
    assert_eq!(left(OpKind::BitwiseOr, constant(0), x), Some(x));
    assert_eq!(left(OpKind::Add, x, constant(2)), None);
    // a constant of another type absorbs nothing
    let signed_zero = Variable::ConstantScalar(i32c(0));
    assert_eq!(left(OpKind::Add, x, signed_zero), None);
    let flag =
        Variable::Versioned { id: 2, depth: 0, item: Item { elem: Elem::Bool, vectorization: 1 }, version: 1 };
    let yes = Variable::ConstantScalar(t(true));
    let no = Variable::ConstantScalar(t(false));
    assert_eq!(left(OpKind::And, flag, yes), Some(flag));
    assert_eq!(left(OpKind::And, flag, no), Some(no));
    assert_eq!(left(OpKind::Or, no, flag), Some(flag));
    assert_eq!(left(OpKind::Or, flag, yes), Some(yes));
    // a vector times zero is no scalar zero
    let lanes = Variable::Versioned {
        id: 3,
        depth: 0,
        item: Item { elem: Elem::UInt, vectorization: 4 },
        version: 1,
    };
    assert_eq!(left(OpKind::Mul, lanes, constant(0)), None);
    assert_eq!(left(OpKind::Mul, lanes, constant(1)), Some(lanes));
}

#[test]
fn a_lane_of_a_constant_vector_is_its_constant() {
    let vector = |version: u16| Variable::Versioned {
        id: 5,
        depth: 0,
        item: Item { elem: Elem::UInt, vectorization: 4 },
        version,
    };
    let out = version(0, 1);
    let lanes = |out: Variable, last: Variable| {
        let mut made = Instruction::binary(OpKind::Composite, constant(10), constant(20), out);
        made.args.push(constant(30));
        made.args.push(last);
        made
    };
    let ops = vec![
        lanes(vector(1), constant(40)),
        lanes(vector(2), version(7, 1)),
        Instruction::binary(OpKind::Index, vector(1), constant(2), out),
        Instruction::binary(OpKind::UncheckedIndex, vector(1), constant(3), out),
        Instruction::binary(OpKind::Index, vector(1), constant(4), out),
        Instruction::binary(OpKind::Index, vector(2), constant(0), out),
        Instruction::binary(OpKind::Index, vector(1), version(7, 1), out),
        Instruction::binary(OpKind::Index, version(1, 1), constant(0), out),
    ];
    let folded = remove_index_scalar_at(&ops, 2).unwrap();
    assert_eq!((folded.kind, folded.args.clone(), folded.out), (OpKind::Assign, vec![constant(30)], Some(out)));
    let folded = remove_index_scalar_at(&ops, 3).unwrap();
    assert_eq!(folded.args, vec![constant(40)]);
    // no such lane; a vector with a lane that is no constant; an index that
    // is no constant; a variable that was never made a vector of constants
    assert!(remove_index_scalar_at(&ops, 4).is_none());
    assert!(remove_index_scalar_at(&ops, 5).is_none());
    assert!(remove_index_scalar_at(&ops, 6).is_none());
    assert!(remove_index_scalar_at(&ops, 7).is_none());
    // the vector is made behind the read
    let late = vec![
        Instruction::binary(OpKind::Index, vector(1), constant(0), out),
        lanes(vector(1), constant(40)),
    ];
    assert!(remove_index_scalar_at(&late, 0).is_none());
}

#[test]
fn a_read_of_a_merged_vector_is_folded() {
    let item = Item { elem: Elem::UInt, vectorization: 2 };
    let v = Variable::Local { id: 0, depth: 0, item };
    let x = local(1);
    let set = |k: u64, value: u64| {
        Operation::Operator(Instruction::binary(OpKind::IndexAssign, constant(k), constant(value), v))
    };
    let root = scope(
        vec![v, x],
        vec![
            set(0, 11),
            set(1, 22),
            Operation::Operator(Instruction::binary(OpKind::Index, v, constant(1), x)),
            write_out(x),
        ],
    );
    let opt = Optimizer::new(root, dim(), ExecutionMode::Unchecked).unwrap();
    let ops = &opt.block(0).ops;
    let last = &ops[ops.len() - 1];
    assert_eq!(last.kind, OpKind::IndexAssign);
    assert_eq!(last.args, vec![constant(0), constant(22)]);
}

#[test]
fn same_expressions_are_computed_once() {
    let (a, b, x, y, z) = (local(0), local(1), local(2), local(3), local(4));
    let input = Variable::GlobalScalar { id: 0, elem: Elem::UInt };
    let root = scope(
        vec![a, b, x, y, z],
        vec![
            Operation::Operator(Instruction::binary(OpKind::Mul, input, input, a)),
            Operation::Operator(Instruction::binary(OpKind::Add, a, input, x)),
            Operation::Operator(Instruction::binary(OpKind::Add, a, input, y)),
            Operation::Operator(Instruction::binary(OpKind::Sub, x, y, z)),
            write_out(z),
        ],
    );
    let opt = Optimizer::new(root, dim(), ExecutionMode::Unchecked).unwrap();
    let ops = &opt.block(0).ops;
    let kinds: Vec<OpKind> = ops.iter().map(|op| op.kind).collect();
    assert_eq!(kinds, vec![OpKind::Mul, OpKind::Add, OpKind::Sub, OpKind::IndexAssign]);
    // both operands of the difference are the one sum that is left
    assert_eq!(ops[2].args, vec![version(2, 1), version(2, 1)]);
}

#[test]
fn unused_results_are_removed_but_not_effects() {
    let (x, y) = (local(0), local(1));
    let input = Variable::GlobalScalar { id: 0, elem: Elem::UInt };
    let root = scope(
        vec![x, y],
        vec![
            Operation::Operator(Instruction::binary(OpKind::Add, input, input, x)),
            Operation::Operator(Instruction::binary(OpKind::Mul, x, x, y)),
            Operation::Synchronization(Instruction {
                kind: OpKind::SyncUnits,
                out: None,
                args: vec![],
            }),
        ],
    );
    let opt = Optimizer::new(root, dim(), ExecutionMode::Unchecked).unwrap();
    let kinds: Vec<OpKind> = opt.block(0).ops.iter().map(|op| op.kind).collect();
    assert_eq!(kinds, vec![OpKind::SyncUnits]);
}

#[test]
fn endless_loop_keeps_the_return_block() {
    let x = local(0);
    let root = scope(
        vec![x],
        vec![
            Operation::Branch(Branch::Loop {
                scope: body(vec![Operation::Operator(Instruction::unary(
                    OpKind::Assign,
                    constant(1),
                    x,
                ))]),
            }),
            write_out(x),
        ],
    );
    let opt = Optimizer::new(root, dim(), ExecutionMode::Unchecked).unwrap();
    // root, ret, body, continue; the block behind the loop cannot be reached
    assert_eq!(opt.node_ids(), vec![0, 1, 2, 3]);
    assert_eq!(opt.ret, 1);
    assert!(matches!(opt.block(1).control_flow, ControlFlow::Return));
    assert!(opt.predecessors(1).is_empty());
    assert!(opt.predecessors(0).is_empty());
}

fn looping() -> Scope {
    let (i, sum, tmp) = (local(0), local(1), local(2));
    let array = Variable::LocalArray { id: 7, depth: 0, item: uint_item(), length: 16 };
    scope(
        vec![i, sum, tmp],
        vec![
            Operation::Operator(Instruction::unary(OpKind::Assign, constant(0), sum)),
            Operation::Branch(Branch::RangeLoop {
                i,
                start: constant(0),
                end: constant(16),
                step: Some(constant(2)),
                inclusive: false,
                scope: body(vec![
                    Operation::Operator(Instruction::binary(OpKind::Index, array, i, tmp)),
                    Operation::Branch(Branch::If {
                        cond: Variable::GlobalScalar { id: 0, elem: Elem::Bool },
                        scope: body(vec![Operation::Operator(Instruction::binary(
                            OpKind::Add,
                            sum,
                            tmp,
                            sum,
                        ))]),
                    }),
                ]),
            }),
            write_out(sum),
        ],
    )
}

#[test]
fn two_runs_give_the_same_program() {
    let first = Optimizer::new(looping(), dim(), ExecutionMode::Checked).unwrap();
    let second = Optimizer::new(looping(), dim(), ExecutionMode::Checked).unwrap();
    assert_eq!(rendered(&first), rendered(&second));
    assert_eq!(first.node_ids(), second.node_ids());
    for b in first.node_ids() {
        assert_eq!(first.sucessors(b), second.sucessors(b));
        assert_eq!(first.predecessors(b), second.predecessors(b));
    }
    assert_eq!(first.program.int_ranges, second.program.int_ranges);
}

#[test]
fn every_version_is_written_once_and_phis_match_predecessors() {
    let opt = Optimizer::new(looping(), dim(), ExecutionMode::Checked).unwrap();
    let mut written: Vec<(u16, u8, u16)> = Vec::new();
    let mut phis = 0;
    for b in opt.node_ids() {
        let block = opt.block(b);
        for phi in &block.phi_nodes {
            phis += 1;
            let keys: Vec<u32> = phi.entries.iter().map(|e| e.0).collect();
            assert_eq!(keys, opt.predecessors(b));
            if let Variable::Versioned { id, depth, version, .. } = phi.out {
                written.push((id, depth, version));
            }
        }
        for op in &block.ops {
            if let Some(Variable::Versioned { id, depth, version, .. }) = op.out {
                written.push((id, depth, version));
            }
        }
    }
    assert!(phis >= 3);
    let mut sorted = written.clone();
    sorted.sort();
    sorted.dedup();
    assert_eq!(sorted.len(), written.len());
}

#[test]
fn the_loop_of_passes_ends_within_its_ceiling() {
    let mut opt = Optimizer::default();
    opt.parse_graph(&looping()).unwrap();
    opt.analyze_liveness();
    assert_eq!(opt.apply_pre_ssa_passes(), 1);
    opt.exempt_index_assign_locals();
    opt.ssa_transform().unwrap();
    let instructions: usize = opt
        .node_ids()
        .iter()
        .map(|b| opt.block(*b).phi_nodes.len() + opt.block(*b).ops.len() + 1)
        .sum();
    assert_eq!(opt.program.round_ceiling(), 16 * instructions);
    let rounds = opt.apply_post_ssa_passes();
    assert!(1 <= rounds && rounds <= 16 * instructions);
    // a round at the fixed point changes nothing
    let before = rendered(&opt);
    assert_eq!(opt.apply_post_ssa_passes(), 1);
    assert_eq!(rendered(&opt), before);
}

#[test]
fn live_locals_of_a_loop() {
    let mut opt = Optimizer::default();
    opt.parse_graph(&looping()).unwrap();
    opt.analyze_liveness();
    let live = |b: u32| {
        let mut keys = opt.block(b).live_vars.clone();
        keys.sort();
        keys
    };
    // blocks: 0 root, 1 ret, 2 head, 3 body, 4 continue, 5 behind the loop, 6 then, 7 behind the if
    assert_eq!(opt.node_ids(), vec![0, 1, 2, 3, 4, 5, 6, 7]);
    assert_eq!(live(0), Vec::<(u16, u8)>::new());
    assert_eq!(live(2), vec![(0, 0), (1, 0)]);
    assert_eq!(live(3), vec![(0, 0), (1, 0)]);
    assert_eq!(live(6), vec![(0, 0), (1, 0), (2, 0)]);
    assert_eq!(live(7), vec![(0, 0), (1, 0)]);
    assert_eq!(live(4), vec![(0, 0), (1, 0)]);
    assert_eq!(live(5), vec![(1, 0)]);
    assert_eq!(live(1), Vec::<(u16, u8)>::new());
}

fn block_program(ops: Vec<Instruction>) -> Program {
    let mut p = Program::new();
    p.add_block().unwrap();
    for op in ops {
        p.push_op(0, op);
    }
    p
}

#[test]
fn ranges_follow_the_instructions() {
    let signed = |id| Variable::Versioned {
        id,
        depth: 0,
        item: Item { elem: Elem::Int(IntKind::I32), vectorization: 1 },
        version: 1,
    };
    let mut p = block_program(vec![
        Instruction::binary(OpKind::Add, constant(3), constant(4), version(0, 1)),
        Instruction::binary(OpKind::Mul, version(0, 1), version(0, 1), version(1, 1)),
        Instruction::binary(OpKind::Sub, constant(0), version(0, 1), version(2, 1)),
        Instruction::binary(OpKind::Sub, constant(0), version(0, 1), signed(3)),
        Instruction::binary(
            OpKind::Min,
            Variable::Position(cubecl_opt::Position::UnitPosX),
            version(9, 1),
            version(4, 1),
        ),
        Instruction::binary(OpKind::Mul, constant(4294967295), constant(2), version(5, 1)),
    ]);
    let mut counter = AtomicCounter::new(0);
    p.analyze_ranges(dim(), &mut counter);
    assert_eq!(counter.get(), 1);
    let range = |l, h| Range { lower_bound: Some(l), upper_bound: Some(h) };
    assert_eq!(
        p.int_ranges,
        vec![
            ((0, 0, 1), range(7, 7)),
            ((1, 0, 1), range(49, 49)),
            // below zero: an unsigned integer wraps, so only its type is known
            ((2, 0, 1), range(0, 4294967295)),
            ((3, 0, 1), range(-7, -7)),
            // the position lies below the size of the cube
            ((4, 0, 1), range(0, 7)),
            ((5, 0, 1), range(0, 4294967295)),
        ]
    );
    p.analyze_ranges(dim(), &mut counter);
    assert_eq!(counter.get(), 1);
}

#[test]
fn loads_from_a_copied_array_come_from_its_source() {
    let input = Variable::GlobalInputArray { id: 0, item: uint_item() };
    let copy = Variable::LocalArray { id: 1, depth: 0, item: uint_item(), length: 8 };
    let other = Variable::LocalArray { id: 2, depth: 0, item: uint_item(), length: 8 };
    let whole = |out| Instruction {
        kind: OpKind::Copy,
        out: Some(out),
        args: vec![input, constant(0), constant(8), constant(0)],
    };
    let mut p = block_program(vec![
        whole(copy),
        whole(other),
        Instruction::binary(OpKind::IndexAssign, constant(1), constant(5), other),
        Instruction::binary(OpKind::Index, copy, constant(3), version(0, 1)),
        Instruction::binary(OpKind::UncheckedIndex, copy, constant(4), version(1, 1)),
        Instruction::binary(OpKind::Index, other, constant(3), version(2, 1)),
    ]);
    let mut counter = AtomicCounter::new(0);
    p.copy_propagate_array(&mut counter);
    assert_eq!(counter.get(), 2);
    assert_eq!(p.blocks[0].ops[3].args, vec![input, constant(3)]);
    assert_eq!(p.blocks[0].ops[4].args, vec![input, constant(4)]);
    // the other array is written again: its loads stay
    assert_eq!(p.blocks[0].ops[5].args, vec![other, constant(3)]);
}

#[test]
fn a_vector_that_is_loaded_and_stored_is_copied() {
    let lanes = Item { elem: Elem::UInt, vectorization: 4 };
    let from = Variable::GlobalInputArray { id: 0, item: lanes };
    let to = Variable::GlobalOutputArray { id: 1, item: lanes };
    let moved = Variable::Versioned { id: 0, depth: 0, item: lanes, version: 1 };
    let mut opt = Optimizer::default();
    opt.program = block_program(vec![
        Instruction::binary(OpKind::Index, from, constant(2), moved),
        Instruction::binary(OpKind::IndexAssign, constant(5), moved, to),
    ]);
    let mut counter = AtomicCounter::new(0);
    OptimizerPass::CopyTransform.apply_post_ssa(&mut opt, &mut counter);
    assert_eq!(counter.get(), 1);
    let copy = &opt.program.blocks[0].ops[1];
    assert_eq!(copy.kind, OpKind::Copy);
    assert_eq!(copy.out, Some(to));
    assert_eq!(copy.args, vec![from, constant(2), constant(1), constant(5)]);
    // the load is left for the removal of what nobody reads
    OptimizerPass::EliminateUnusedVariables.apply_post_ssa(&mut opt, &mut counter);
    assert_eq!(counter.get(), 2);
    assert_eq!(opt.program.blocks[0].ops.len(), 1);
}

#[test]
fn checked_index_expands_into_a_guarded_read() {
    let out = local(0);
    let array = Variable::GlobalInputArray { id: 0, item: uint_item() };
    let index = Variable::GlobalScalar { id: 1, elem: Elem::UInt };
    let root = scope(
        vec![out],
        vec![
            Operation::Procedure(Procedure::CheckedIndex { lhs: array, rhs: index, out }),
            write_out(out),
        ],
    );
    let mut opt = Optimizer::default();
    opt.parse_graph(&root).unwrap();
    // root, ret, then, else, behind the branch
    assert_eq!(opt.node_ids(), vec![0, 1, 2, 3, 4]);
    let kinds = |b: u32| -> Vec<OpKind> { opt.block(b).ops.iter().map(|op| op.kind).collect() };
    assert_eq!(kinds(0), vec![OpKind::Length, OpKind::Lower]);
    assert_eq!(kinds(2), vec![OpKind::UncheckedIndex]);
    assert_eq!(kinds(3), vec![OpKind::Assign]);
    assert_eq!(opt.block(3).ops[0].args, vec![constant(0)]);
    // the temporaries are numbered behind the local of the scope
    let len = Variable::Local { id: 1, depth: 0, item: uint_item() };
    let flag = Variable::Local { id: 2, depth: 0, item: Item { elem: Elem::Bool, vectorization: 1 } };
    assert_eq!(opt.block(0).ops[0].out, Some(len));
    assert_eq!(opt.block(0).ops[1].args, vec![index, len]);
    assert!(matches!(
        opt.block(0).control_flow,
        ControlFlow::IfElse { cond, then: 2, or_else: 3, merge: 4 } if cond == flag
    ));
    assert_eq!(opt.program.variables.len(), 3);
}

#[test]
fn early_return_and_switch() {
    let x = local(0);
    let array = Variable::GlobalInputArray { id: 0, item: uint_item() };
    let value = Variable::GlobalScalar { id: 1, elem: Elem::UInt };
    let set = |v: u64| body(vec![Operation::Operator(Instruction::unary(OpKind::Assign, constant(v), x))]);
    let root = scope(
        vec![x],
        vec![
            Operation::Procedure(Procedure::EarlyReturn { global: array, position: value }),
            Operation::Branch(Branch::Switch {
                value,
                scope_default: set(0),
                cases: vec![(3, set(30)), (9, set(90))],
            }),
            write_out(x),
        ],
    );
    let mut opt = Optimizer::default();
    opt.parse_graph(&root).unwrap();
    // 2 returns early, 3 is behind the test; 4 default, 5 behind the switch, 6 and 7 the cases
    assert_eq!(opt.node_ids(), vec![0, 1, 2, 3, 4, 5, 6, 7]);
    assert_eq!(opt.sucessors(2), vec![1]);
    match &opt.block(3).control_flow {
        ControlFlow::Switch { value: v, default, branches, merge } => {
            assert_eq!(*v, value);
            assert_eq!((*default, *merge), (4, 5));
            assert_eq!(branches, &vec![(3, 6), (9, 7)]);
        }
        other => panic!("{:?}", other),
    }
    assert_eq!(opt.predecessors(5), vec![7, 6, 4]);
    assert_eq!(opt.predecessors(1), vec![5, 2]);
}

#[test]
fn a_phi_node_has_the_union_of_its_entries() {
    let range = |l, h| Range { lower_bound: Some(l), upper_bound: Some(h) };
    let known = vec![((1, 0, 1), range(2, 3)), ((2, 0, 1), range(7, 9))];
    let phi = |entries: Vec<(u32, Variable)>| PhiInstruction { out: version(0, 3), entries };
    let mut ranges = known.clone();
    analyze_phi_node(&mut ranges, dim(), &phi(vec![(2, version(1, 1)), (3, version(2, 1))]));
    assert_eq!(ranges.len(), 3);
    assert_eq!(ranges[2], ((0, 0, 3), range(2, 9)));
    // the same node again: its range takes the place of the old one
    analyze_phi_node(&mut ranges, dim(), &phi(vec![(2, constant(1)), (3, constant(5))]));
    assert_eq!(ranges.len(), 3);
    assert_eq!(ranges[2], ((0, 0, 3), range(1, 5)));
    // a value that comes round a loop has no range yet: all of its type
    let mut ranges = known.clone();
    analyze_phi_node(&mut ranges, dim(), &phi(vec![(0, constant(0)), (4, version(5, 1))]));
    assert_eq!(ranges[2], ((0, 0, 3), range(0, 4294967295)));
    // no entry, or a result that has no version: nothing is recorded
    let mut ranges = known.clone();
    analyze_phi_node(&mut ranges, dim(), &phi(vec![]));
    assert_eq!(ranges, known);
    analyze_phi_node(
        &mut ranges,
        dim(),
        &PhiInstruction { out: local(0), entries: vec![(2, constant(1))] },
    );
    assert_eq!(ranges, known);
}
