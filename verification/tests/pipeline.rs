use cubecl_opt::{
    Branch, ConstantValue, ControlFlow, CubeDim, Elem, ExecutionMode, FloatKind, Instruction,
    IntKind, Item, OpKind, Operation, Optimizer, OptimizerPass, Scope, Variable,
};

fn int_item() -> Item {
    Item { elem: Elem::Int(IntKind::I32), vectorization: 1 }
}

fn local(id: u16) -> Variable {
    Variable::Local { id, depth: 0, item: int_item() }
}

fn sint(v: i64) -> Variable {
    Variable::ConstantScalar(ConstantValue::Int(v, IntKind::I32))
}

fn unsigned(v: u64) -> Variable {
    Variable::ConstantScalar(ConstantValue::UInt(v))
}

fn output() -> Variable {
    Variable::GlobalOutputArray { id: 0, item: int_item() }
}

fn write_out(v: Variable) -> Operation {
    Operation::Operator(Instruction::binary(OpKind::IndexAssign, unsigned(0), v, output()))
}

fn assign(value: Variable, out: Variable) -> Operation {
    Operation::Operator(Instruction::unary(OpKind::Assign, value, out))
}

fn dim() -> CubeDim {
    CubeDim { x: 4, y: 1, z: 1 }
}

fn scope(locals: Vec<Variable>, operations: Vec<Operation>) -> Scope {
    Scope { depth: 0, locals, operations }
}

fn body(operations: Vec<Operation>) -> Scope {
    Scope { depth: 1, locals: vec![], operations }
}

#[test]
fn straight_line_constants_are_folded() {
    let (a, b, c) = (local(0), local(1), local(2));
    let root = scope(
        vec![a, b, c],
        vec![
            assign(sint(2), a),
            assign(sint(3), b),
            Operation::Operator(Instruction::binary(OpKind::Add, a, b, c)),
            write_out(c),
        ],
    );
    let opt = Optimizer::new(root, dim(), ExecutionMode::Unchecked).unwrap();
    assert_eq!(opt.node_ids(), vec![0, 1]);
    let block = opt.block(opt.entry());
    assert!(block.phi_nodes.is_empty());
    assert_eq!(block.ops.len(), 1);
    assert_eq!(block.ops[0].kind, OpKind::IndexAssign);
    assert_eq!(block.ops[0].args, vec![unsigned(0), sint(5)]);
    assert_eq!(block.ops[0].out, Some(output()));
    assert!(opt.block(opt.ret).phi_nodes.is_empty());
    assert!(opt.block(opt.ret).ops.is_empty());
}

#[test]
fn if_else_gives_a_phi_node() {
    let cond = Variable::GlobalScalar { id: 0, elem: Elem::Bool };
    let x = local(0);
    let root = scope(
        vec![x],
        vec![
            Operation::Branch(Branch::IfElse {
                cond,
                scope_if: body(vec![assign(sint(1), x)]),
                scope_else: body(vec![assign(sint(2), x)]),
            }),
            write_out(x),
        ],
    );
    let opt = Optimizer::new(root, dim(), ExecutionMode::Unchecked).unwrap();
    // root, ret, then, else, merge
    assert_eq!(opt.node_ids(), vec![0, 1, 2, 3, 4]);
    assert!(matches!(
        opt.block(0).control_flow,
        ControlFlow::IfElse { then: 2, or_else: 3, merge: 4, .. }
    ));
    let merge = opt.block(4);
    assert_eq!(merge.phi_nodes.len(), 1);
    let phi = &merge.phi_nodes[0];
    let version = |v: u16| Variable::Versioned { id: 0, depth: 0, item: int_item(), version: v };
    assert_eq!(phi.out, version(3));
    assert_eq!(phi.entries, vec![(3, version(2)), (2, version(1))]);
    assert_eq!(opt.predecessors(4), vec![3, 2]);
    assert_eq!(merge.ops.len(), 1);
    assert_eq!(merge.ops[0].args, vec![unsigned(0), version(3)]);
    assert_eq!(opt.block(2).ops.len(), 1);
    assert_eq!(opt.block(2).ops[0].out, Some(version(1)));
    assert_eq!(opt.block(3).ops[0].out, Some(version(2)));
}

#[test]
fn dead_branch_is_removed() {
    let cond = Variable::ConstantScalar(ConstantValue::Bool(true));
    let x = local(0);
    let root = scope(
        vec![x],
        vec![
            Operation::Branch(Branch::IfElse {
                cond,
                scope_if: body(vec![assign(sint(1), x)]),
                scope_else: body(vec![assign(sint(2), x)]),
            }),
            write_out(x),
        ],
    );
    let opt = Optimizer::new(root, dim(), ExecutionMode::Unchecked).unwrap();
    // the else block is gone
    assert_eq!(opt.node_ids(), vec![0, 1, 2, 4]);
    assert!(matches!(opt.block(0).control_flow, ControlFlow::Fallthrough));
    assert_eq!(opt.sucessors(0), vec![2]);
    let merge = opt.block(4);
    assert!(merge.phi_nodes.is_empty());
    assert_eq!(merge.ops.len(), 1);
    assert_eq!(merge.ops[0].kind, OpKind::IndexAssign);
    assert_eq!(merge.ops[0].args, vec![unsigned(0), sint(1)]);
    assert!(opt.block(2).ops.is_empty());
}

fn lanes_and_store() -> (Variable, Scope) {
    let item = Item { elem: Elem::Float(FloatKind::F32), vectorization: 4 };
    let v = Variable::Local { id: 0, depth: 0, item };
    let set = |k: u64, bits: u64| {
        Operation::Operator(Instruction::binary(OpKind::IndexAssign, unsigned(k), lane(bits), v))
    };
    let out = Variable::GlobalOutputArray { id: 0, item };
    let root = scope(
        vec![v],
        vec![
            set(0, 0x3f80_0000),
            set(1, 0x4000_0000),
            set(2, 0x4040_0000),
            set(3, 0x4080_0000),
            Operation::Operator(Instruction::binary(OpKind::IndexAssign, unsigned(0), v, out)),
        ],
    );
    (v, root)
}

fn lane(bits: u64) -> Variable {
    Variable::ConstantScalar(ConstantValue::Float(bits, FloatKind::F32))
}

#[test]
fn lanes_are_merged_into_one_assignment() {
    let (v, root) = lanes_and_store();
    let opt = Optimizer::new(root, dim(), ExecutionMode::Unchecked).unwrap();
    let block = opt.block(opt.entry());
    assert_eq!(block.ops.len(), 2);
    assert_eq!(block.ops[0].kind, OpKind::Composite);
    assert_eq!(
        block.ops[0].args,
        vec![lane(0x3f80_0000), lane(0x4000_0000), lane(0x4040_0000), lane(0x4080_0000)]
    );
    // the merge comes before the locals are taken out: no lane of the
    // vector is assigned any more, so the vector gets its version
    let item = Item { elem: Elem::Float(FloatKind::F32), vectorization: 4 };
    let versioned = Variable::Versioned { id: 0, depth: 0, item, version: 1 };
    assert_ne!(versioned, v);
    assert_eq!(block.ops[0].out, Some(versioned));
    assert_eq!(block.ops[1].args, vec![unsigned(0), versioned]);
}

#[test]
fn a_local_whose_lanes_are_assigned_keeps_its_name() {
    let (v, root) = lanes_and_store();
    let mut opt = Optimizer::default();
    opt.parse_graph(&root).unwrap();
    opt.analyze_liveness();
    assert_eq!(opt.program.variables.len(), 1);
    opt.exempt_index_assign_locals();
    assert!(opt.program.variables.is_empty());
    opt.ssa_transform().unwrap();
    let block = opt.block(opt.entry());
    assert_eq!(block.ops.len(), 5);
    for k in 0..4 {
        assert_eq!(block.ops[k].kind, OpKind::IndexAssign);
        assert_eq!(block.ops[k].out, Some(v));
    }
    assert_eq!(block.ops[4].args, vec![unsigned(0), v]);
}

#[test]
fn the_passes_run_in_their_order() {
    let always = vec![
        OptimizerPass::InlineAssignments,
        OptimizerPass::ConstOperandSimplify,
        OptimizerPass::ConstEval,
        OptimizerPass::MergeSameExpressions,
        OptimizerPass::RemoveIndexScalar,
        OptimizerPass::EliminateConstBranches,
        OptimizerPass::EliminateDeadBlocks,
        OptimizerPass::EliminateUnusedVariables,
        OptimizerPass::CopyTransform,
    ];
    assert_eq!(Optimizer::passes_for(ExecutionMode::Unchecked), always);
    let mut checked = always;
    checked.push(OptimizerPass::IntegerRangeAnalysis);
    checked.push(OptimizerPass::FindConstSliceLen);
    checked.push(OptimizerPass::InBoundsToUnchecked);
    assert_eq!(Optimizer::passes_for(ExecutionMode::Checked), checked);
}

fn uint_item() -> Item {
    Item { elem: Elem::UInt, vectorization: 1 }
}

fn ulocal(id: u16) -> Variable {
    Variable::Local { id, depth: 0, item: uint_item() }
}

fn array(id: u16, length: u32) -> Variable {
    Variable::LocalArray { id, depth: 0, item: uint_item(), length }
}

fn kinds_of(opt: &Optimizer, block: u32) -> Vec<OpKind> {
    opt.block(block).ops.iter().map(|op| op.kind).collect()
}

#[test]
fn bounds_checks_are_removed_where_proved() {
    // for i in 0..CUBE_DIM_X { a[i] = b[i] }
    let (i, t) = (ulocal(0), ulocal(1));
    let (a, b) = (array(10, 4), array(11, 6));
    let make = |mode| {
        let root = scope(
            vec![i, t],
            vec![Operation::Branch(Branch::RangeLoop {
                i,
                start: unsigned(0),
                end: Variable::Position(cubecl_opt::Position::CubeDimX),
                step: None,
                inclusive: false,
                scope: body(vec![
                    Operation::Operator(Instruction::binary(OpKind::Index, b, i, t)),
                    Operation::Operator(Instruction::binary(OpKind::IndexAssign, i, t, a)),
                ]),
            })],
        );
        Optimizer::new(root, dim(), mode).unwrap()
    };
    let checked = make(ExecutionMode::Checked);
    // root, ret, head, body, continue, merge
    assert_eq!(checked.node_ids(), vec![0, 1, 2, 3, 4, 5]);
    assert_eq!(kinds_of(&checked, 3), vec![OpKind::UncheckedIndex, OpKind::UncheckedIndexAssign]);
    // without the analysis the checks stay
    let unchecked = make(ExecutionMode::Unchecked);
    assert_eq!(kinds_of(&unchecked, 3), vec![OpKind::Index, OpKind::IndexAssign]);
    // an array that is too short keeps its check
    let short = scope(
        vec![i, t],
        vec![Operation::Branch(Branch::RangeLoop {
            i,
            start: unsigned(0),
            end: Variable::Position(cubecl_opt::Position::CubeDimX),
            step: None,
            inclusive: false,
            scope: body(vec![
                Operation::Operator(Instruction::binary(OpKind::Index, array(11, 3), i, t)),
                Operation::Operator(Instruction::binary(OpKind::IndexAssign, i, t, a)),
            ]),
        })],
    );
    let opt = Optimizer::new(short, dim(), ExecutionMode::Checked).unwrap();
    assert_eq!(kinds_of(&opt, 3), vec![OpKind::Index, OpKind::UncheckedIndexAssign]);
}

#[test]
fn loop_with_induction_variable() {
    // for i in 0..4 { sum += a[i] }
    let (i, sum, t) = (ulocal(0), ulocal(1), ulocal(2));
    let a = array(10, 8);
    let root = scope(
        vec![i, sum, t],
        vec![
            assign(unsigned(0), sum),
            Operation::Branch(Branch::RangeLoop {
                i,
                start: unsigned(0),
                end: unsigned(4),
                step: None,
                inclusive: false,
                scope: body(vec![
                    Operation::Operator(Instruction::binary(OpKind::Index, a, i, t)),
                    Operation::Operator(Instruction::binary(OpKind::Add, sum, t, sum)),
                ]),
            }),
            Operation::Operator(Instruction::binary(
                OpKind::IndexAssign,
                unsigned(0),
                sum,
                Variable::GlobalOutputArray { id: 0, item: uint_item() },
            )),
        ],
    );
    let opt = Optimizer::new(root, dim(), ExecutionMode::Checked).unwrap();
    assert_eq!(opt.node_ids(), vec![0, 1, 2, 3, 4, 5]);
    let loops = opt
        .node_ids()
        .into_iter()
        .filter(|b| matches!(opt.block(*b).control_flow, ControlFlow::Loop { .. }))
        .count();
    assert_eq!(loops, 1);
    assert!(matches!(
        opt.block(0).control_flow,
        ControlFlow::Loop { body: 2, continue_target: 4, merge: 5 }
    ));
    // the head of the loop has a phi node for the index and one for the sum
    let head = opt.block(2);
    assert_eq!(head.phi_nodes.len(), 2);
    let ids: Vec<u16> = head
        .phi_nodes
        .iter()
        .map(|phi| match phi.out {
            Variable::Versioned { id, .. } => id,
            _ => unreachable!(),
        })
        .collect();
    assert_eq!(ids, vec![0, 1]);
    for phi in &head.phi_nodes {
        let keys: Vec<u32> = phi.entries.iter().map(|e| e.0).collect();
        assert_eq!(keys, opt.predecessors(2));
    }
    assert!(matches!(head.control_flow, ControlFlow::Break { body: 3, or_break: 5, .. }));
    assert!(opt.sucessors(2).contains(&5));
    // 0 <= i < 4 is known in the body: the read needs no check
    assert_eq!(kinds_of(&opt, 3), vec![OpKind::UncheckedIndex, OpKind::Add]);
    // the index comes round the loop: the range of its phi node is all of
    // its type, and the bound of the read comes from the test of the head
    let index = match head.phi_nodes[0].out {
        Variable::Versioned { id, depth, version, .. } => (id, depth, version),
        _ => unreachable!(),
    };
    let recorded: Vec<_> = opt.program.int_ranges.iter().filter(|r| r.0 == index).collect();
    assert_eq!(recorded.len(), 1);
    assert_eq!(recorded[0].1.lower_bound, Some(0));
    assert_eq!(recorded[0].1.upper_bound, Some(4294967295));
}
