use cubecl_opt::{
    Branch, ConstantValue, ControlFlow, CubeDim, Elem, ExecutionMode, Instruction, IntKind, Item,
    NodeId, OpKind, Operation, Optimizer, Procedure, Scope, Variable,
};

fn int_local(id: u16) -> Variable {
    Variable::Local { id, depth: 0, item: Item { elem: Elem::Int(IntKind::I32), vectorization: 1 } }
}

fn dim() -> CubeDim {
    CubeDim { x: 4, y: 1, z: 1 }
}

#[test]
fn straight_line_scope_gives_two_blocks() {
    let a = int_local(0);
    let b = int_local(1);
    let c = int_local(2);
    let scope = Scope {
        depth: 0,
        locals: vec![a, b, c],
        operations: vec![
            Operation::Operator(Instruction::binary(OpKind::Add, a, b, c)),
            Operation::Operator(Instruction::binary(
                OpKind::IndexAssign,
                Variable::ConstantScalar(cubecl_opt::ConstantValue::UInt(0)),
                c,
                Variable::GlobalOutputArray {
                    id: 0,
                    item: Item { elem: Elem::Int(IntKind::I32), vectorization: 1 },
                },
            )),
        ],
    };
    let opt = Optimizer::new(scope, dim(), ExecutionMode::Unchecked).unwrap();
    assert_eq!(opt.node_ids(), vec![0, 1]);
    assert_eq!(opt.entry(), 0);
    assert_eq!(opt.ret, 1);
    assert_eq!(opt.sucessors(0), vec![1]);
    assert_eq!(opt.predecessors(1), vec![0]);
    assert!(opt.predecessors(0).is_empty());
    assert!(opt.sucessors(1).is_empty());
    assert_eq!(opt.block(0).ops.len(), 2);
    // a and b are read before anything assigns them: version 0
    let v = |id: u16, version: u16| Variable::Versioned {
        id,
        depth: 0,
        item: Item { elem: Elem::Int(IntKind::I32), vectorization: 1 },
        version,
    };
    assert_eq!(opt.block(0).ops[0].args, vec![v(0, 0), v(1, 0)]);
    assert_eq!(opt.block(0).ops[0].out, Some(v(2, 1)));
    assert!(matches!(opt.block(1).control_flow, ControlFlow::Return));
}

#[test]
fn if_makes_then_and_merge() {
    let c = Variable::Local { id: 0, depth: 0, item: Item { elem: Elem::Bool, vectorization: 1 } };
    let x = int_local(1);
    let one = Variable::ConstantScalar(cubecl_opt::ConstantValue::Int(1, IntKind::I32));
    let body = Scope {
        depth: 1,
        locals: vec![],
        operations: vec![Operation::Operator(Instruction::unary(OpKind::Assign, one, x))],
    };
    let scope = Scope {
        depth: 0,
        locals: vec![c, x],
        operations: vec![Operation::Branch(Branch::If { cond: c, scope: body })],
    };
    let opt = Optimizer::new(scope, dim(), ExecutionMode::Unchecked).unwrap();
    assert_eq!(opt.node_ids(), vec![0, 1, 2, 3]);
    assert_eq!(opt.sucessors(0), vec![3, 2]);
    assert_eq!(opt.sucessors(2), vec![3]);
    assert_eq!(opt.sucessors(3), vec![1]);
    assert_eq!(opt.predecessors(3), vec![2, 0]);
}

fn closure_of(opt: &Optimizer, from: NodeId, forward: bool) -> Vec<NodeId> {
    let mut seen = vec![from];
    let mut next = 0;
    while next < seen.len() {
        let n = seen[next];
        next += 1;
        let neighbours = if forward { opt.sucessors(n) } else { opt.predecessors(n) };
        for m in neighbours {
            if !seen.contains(&m) {
                seen.push(m);
            }
        }
    }
    seen.sort();
    seen
}

#[test]
fn every_block_lies_between_entry_and_return() {
    let flag = Variable::Local { id: 0, depth: 0, item: Item { elem: Elem::Bool, vectorization: 1 } };
    let x = int_local(1);
    let i = int_local(2);
    let constant = |v: i64| Variable::ConstantScalar(ConstantValue::Int(v, IntKind::I32));
    let set = |v: i64| Scope {
        depth: 1,
        locals: vec![],
        operations: vec![Operation::Operator(Instruction::unary(OpKind::Assign, constant(v), x))],
    };
    let array = Variable::GlobalInputArray {
        id: 0,
        item: Item { elem: Elem::Int(IntKind::I32), vectorization: 1 },
    };
    let scope = Scope {
        depth: 0,
        locals: vec![flag, x, i],
        operations: vec![
            Operation::Procedure(Procedure::EarlyReturn {
                global: array,
                position: Variable::GlobalScalar { id: 0, elem: Elem::UInt },
            }),
            Operation::Branch(Branch::If { cond: flag, scope: set(1) }),
            Operation::Branch(Branch::IfElse { cond: flag, scope_if: set(2), scope_else: set(3) }),
            Operation::Branch(Branch::Switch {
                value: x,
                scope_default: set(4),
                cases: vec![(1, set(5)), (2, set(6))],
            }),
            Operation::Branch(Branch::RangeLoop {
                i,
                start: constant(0),
                end: constant(4),
                step: None,
                inclusive: false,
                scope: Scope {
                    depth: 1,
                    locals: vec![],
                    operations: vec![Operation::Branch(Branch::If { cond: flag, scope: set(7) })],
                },
            }),
        ],
    };
    let mut opt = Optimizer::default();
    opt.parse_graph(&scope).unwrap();
    let nodes = opt.node_ids();
    // entry and return; 2 for each `if`, the early return among them; 3 for
    // the `if` with `else`; 4 for the switch; 4 for the loop
    assert_eq!(nodes.len(), 19);
    assert_eq!(closure_of(&opt, opt.entry(), true), nodes);
    assert_eq!(closure_of(&opt, opt.ret, false), nodes);
    assert!(opt.predecessors(opt.entry()).is_empty());
    assert!(opt.sucessors(opt.ret).is_empty());
}

#[test]
fn the_block_behind_an_endless_loop_is_not_reached() {
    let scope = Scope {
        depth: 0,
        locals: vec![],
        operations: vec![Operation::Branch(Branch::Loop {
            scope: Scope { depth: 1, locals: vec![], operations: vec![] },
        })],
    };
    let mut opt = Optimizer::default();
    opt.parse_graph(&scope).unwrap();
    // 2 is the body, 3 ends each round, 4 stands behind the loop
    assert_eq!(opt.node_ids(), vec![0, 1, 2, 3, 4]);
    assert_eq!(closure_of(&opt, opt.entry(), true), vec![0, 2, 3]);
    assert!(opt.predecessors(4).is_empty());
    assert_eq!(opt.sucessors(4), vec![1]);
}
