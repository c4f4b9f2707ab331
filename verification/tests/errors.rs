use cubecl_opt::{
    AtomicCounter, Branch, ConstantValue, CubeDim, Elem, ExecutionMode, Instruction, IntKind, Item,
    OpKind, Operation, OptError, Optimizer, Position, Procedure, Scope, Variable,
};

fn item() -> Item {
    Item { elem: Elem::Int(IntKind::I32), vectorization: 1 }
}

fn local(id: u16) -> Variable {
    Variable::Local { id, depth: 0, item: item() }
}

fn one() -> Variable {
    Variable::ConstantScalar(ConstantValue::Int(1, IntKind::I32))
}

fn set(v: Variable) -> Operation {
    Operation::Operator(Instruction::unary(OpKind::Assign, one(), v))
}

fn run(locals: Vec<Variable>, operations: Vec<Operation>) -> Result<Optimizer, OptError> {
    Optimizer::new(
        Scope { depth: 0, locals, operations },
        CubeDim { x: 1, y: 1, z: 1 },
        ExecutionMode::Checked,
    )
}

fn failure(locals: Vec<Variable>, operations: Vec<Operation>) -> OptError {
    match run(locals, operations) {
        Ok(_) => panic!("the optimizer should have given up"),
        Err(e) => e,
    }
}

#[test]
fn operation_behind_a_return_has_no_block() {
    let x = local(0);
    assert_eq!(
        failure(vec![x], vec![Operation::Branch(Branch::Return), set(x)]),
        OptError::NoCurrentBlock
    );
    assert_eq!(
        failure(vec![], vec![Operation::Branch(Branch::Return), Operation::Branch(Branch::Return)]),
        OptError::NoCurrentBlock
    );
}

#[test]
fn break_outside_a_loop() {
    assert_eq!(failure(vec![], vec![Operation::Branch(Branch::Break)]), OptError::BreakOutsideLoop);
}

#[test]
fn slice_into_something_else() {
    let x = local(0);
    let array = Variable::GlobalInputArray { id: 0, item: item() };
    let slice = |out| {
        Operation::Operator(Instruction::ternary(OpKind::Slice, array, one(), one(), out))
    };
    // the operation stands in the entry block
    assert_eq!(failure(vec![x], vec![slice(x)]), OptError::SliceOutput(0));
    let mut opt = Optimizer::default();
    let root = Scope { depth: 0, locals: vec![x], operations: vec![set(x), slice(x)] };
    assert_eq!(opt.parse_graph(&root), Err(OptError::SliceOutput(0)));
    // the assignment before it stands, the slice left nothing
    assert!(opt.program.slices.is_empty());
    assert_eq!(opt.block(0).ops.len(), 1);
    let out = Variable::Slice { id: 3, depth: 0, item: item() };
    let opt = run(vec![], vec![slice(out)]).unwrap();
    assert_eq!(opt.program.slices.len(), 1);
    assert_eq!(opt.program.slices[0].0, (3, 0));
    // both ends are the constant one: no item
    assert_eq!(opt.program.slices[0].1.const_len, Some(0));
}

#[test]
fn offset_through_a_layout_expands_into_a_loop() {
    let uint = Item { elem: Elem::UInt, vectorization: 1 };
    let temporary = |id: u16| Variable::Local { id, depth: 0, item: uint };
    let index = temporary(0);
    let tensor = Variable::GlobalInputArray {
        id: 0,
        item: Item { elem: Elem::Int(IntKind::I32), vectorization: 4 },
    };
    let layout = Variable::GlobalOutputArray { id: 1, item: item() };
    let position = Variable::Position(Position::AbsolutePos);
    let zero = Variable::ConstantScalar(ConstantValue::UInt(0));
    let rank = Variable::Position(Position::Rank);
    let scope = Scope {
        depth: 0,
        locals: vec![index],
        operations: vec![Operation::Procedure(Procedure::IndexOffsetGlobalWithLayout {
            tensor,
            layout,
            index,
            position,
            dim_start: zero,
            dim_end: rank,
        })],
    };
    let mut opt = Optimizer::default();
    opt.parse_graph(&scope).unwrap();
    // 2 is the head of the loop, 3 its body, 4 ends each round, 5 stands behind it
    assert_eq!(opt.node_ids(), vec![0, 1, 2, 3, 4, 5]);
    let (dim, stride_layout, place) = (temporary(1), temporary(2), temporary(3));
    let (stride, shape, product) = (temporary(4), temporary(5), temporary(6));
    let lanes = Variable::ConstantScalar(ConstantValue::UInt(4));
    let written = |block: u32| -> Vec<(OpKind, Vec<Variable>, Option<Variable>)> {
        opt.block(block).ops.iter().map(|op| (op.kind, op.args.clone(), op.out)).collect()
    };
    assert_eq!(
        written(0),
        vec![
            (OpKind::Assign, vec![zero], Some(index)),
            (OpKind::Assign, vec![zero], Some(dim)),
        ]
    );
    // the flag of the loop is numbered behind the six temporaries
    let flag = Variable::Local { id: 7, depth: 0, item: Item { elem: Elem::Bool, vectorization: 1 } };
    assert_eq!(written(2), vec![(OpKind::Lower, vec![dim, rank], Some(flag))]);
    assert_eq!(
        written(3),
        vec![
            (OpKind::Stride, vec![layout, dim], Some(stride_layout)),
            (OpKind::Mul, vec![position, lanes], Some(place)),
            (OpKind::Div, vec![place, stride_layout], Some(place)),
            (OpKind::Stride, vec![tensor, dim], Some(stride)),
            (OpKind::Shape, vec![tensor, dim], Some(shape)),
            (OpKind::Modulo, vec![place, shape], Some(product)),
            (OpKind::Mul, vec![product, stride], Some(product)),
            (OpKind::Add, vec![index, product], Some(index)),
        ]
    );
    assert_eq!(written(5), vec![(OpKind::Div, vec![index, lanes], Some(index))]);
    assert_eq!(opt.sucessors(5), vec![1]);
}

#[test]
fn read_through_a_layout_reads_at_the_offset() {
    let out = local(0);
    let global = Variable::GlobalInputArray { id: 0, item: item() };
    let layout = Variable::GlobalOutputArray { id: 1, item: item() };
    let scope = Scope {
        depth: 0,
        locals: vec![out],
        operations: vec![Operation::Procedure(Procedure::ReadGlobalWithLayout {
            global,
            layout,
            out,
        })],
    };
    let mut opt = Optimizer::default();
    opt.parse_graph(&scope).unwrap();
    assert_eq!(opt.node_ids(), vec![0, 1, 2, 3, 4, 5]);
    let uint = Item { elem: Elem::UInt, vectorization: 1 };
    let index = Variable::Local { id: 1, depth: 0, item: uint };
    let dim = Variable::Local { id: 2, depth: 0, item: uint };
    let one_lane = Variable::ConstantScalar(ConstantValue::UInt(1));
    let head = opt.block(2);
    assert_eq!(head.ops[0].args, vec![dim, Variable::Position(Position::Rank)]);
    assert_eq!(
        head.ops[0].out,
        Some(Variable::Local { id: 8, depth: 0, item: Item { elem: Elem::Bool, vectorization: 1 } })
    );
    assert_eq!(opt.block(3).ops.len(), 8);
    assert_eq!(opt.block(3).ops[1].args, vec![Variable::Position(Position::AbsolutePos), one_lane]);
    let behind = opt.block(5);
    assert_eq!(behind.ops.len(), 2);
    assert_eq!(behind.ops[0].kind, OpKind::Div);
    assert_eq!(behind.ops[1].kind, OpKind::Index);
    assert_eq!(behind.ops[1].args, vec![global, index]);
    assert_eq!(behind.ops[1].out, Some(out));
}

#[test]
fn more_temporaries_than_can_be_numbered() {
    let locals: Vec<Variable> = (0..=65535u32).map(|id| local(id as u16)).collect();
    let range_loop = Operation::Branch(Branch::RangeLoop {
        i: local(0),
        start: one(),
        end: one(),
        step: None,
        inclusive: false,
        scope: Scope { depth: 1, locals: vec![], operations: vec![] },
    });
    assert_eq!(failure(locals, vec![range_loop]), OptError::TooManyLocals);
    let locals: Vec<Variable> = (0..65535u32).map(|id| local(id as u16)).collect();
    let global = Variable::GlobalInputArray { id: 0, item: item() };
    let checked = Operation::Procedure(Procedure::CheckedIndex {
        lhs: global,
        rhs: one(),
        out: local(0),
    });
    assert_eq!(failure(locals, vec![checked]), OptError::TooManyLocals);
}

#[test]
fn more_versions_than_can_be_numbered() {
    let x = local(0);
    let operations: Vec<Operation> = (0..65536).map(|_| set(x)).collect();
    assert_eq!(failure(vec![x], operations), OptError::TooManyVersions);
}

#[test]
fn counter_counts_and_wraps() {
    let mut counter = AtomicCounter::new(5);
    assert_eq!(counter.get(), 5);
    assert_eq!(counter.inc(), 5);
    assert_eq!(counter.inc(), 6);
    assert_eq!(counter.get(), 7);
    let mut last = AtomicCounter::new(usize::MAX);
    assert_eq!(last.inc(), usize::MAX);
    assert_eq!(last.get(), 0);
    assert_eq!(AtomicCounter::default().get(), 0);
}
