use cubecl_opt::spirv::{Emit, EmitError, SpirvCompiler};
use cubecl_opt::{
    Branch, ControlFlow, CubeDim, Elem, ExecutionMode, Instruction, IntKind, Item, OpKind,
    Operation, Optimizer, Scope, Variable,
};
use rspirv::binary::Disassemble;

fn cond() -> Variable {
    Variable::GlobalScalar { id: 0, elem: Elem::Bool }
}

fn started() -> SpirvCompiler {
    let mut compiler = SpirvCompiler::new();
    compiler.begin_kernel().unwrap();
    let label = compiler.label(0).unwrap();
    compiler.begin_block(label).unwrap();
    compiler.current_block = Some(0);
    compiler
}

fn kinds(compiler: &SpirvCompiler) -> Vec<Emit> {
    compiler.emitted.iter().map(|e| e.kind).collect()
}

#[test]
fn ids_are_handed_out_in_order() {
    let mut compiler = SpirvCompiler::new();
    // 1 and 2 are the types of truth values and of unsigned integers
    assert_eq!(compiler.fresh_id(), Ok(3));
    assert_eq!(compiler.fresh_id(), Ok(4));
    assert_eq!(compiler.label(7), Ok(5));
    assert_eq!(compiler.label(7), Ok(5));
    assert_eq!(compiler.label(8), Ok(6));
    assert_eq!(compiler.read(&cond()), Ok(7));
    assert_eq!(compiler.read(&cond()), Ok(7));
    assert_eq!(compiler.labels, vec![(7, 5), (8, 6)]);
}

#[test]
fn instruction_outside_a_block_is_misplaced() {
    let mut compiler = SpirvCompiler::new();
    let x = cond();
    assert_eq!(compiler.compile_select(x, x, x, x), Err(EmitError::Misplaced));
    assert_eq!(compiler.begin_block(9), Err(EmitError::Misplaced));
    compiler.begin_kernel().unwrap();
    assert_eq!(compiler.begin_kernel(), Err(EmitError::Misplaced));
    assert_eq!(
        compiler.compile_control_flow(&ControlFlow::Return, &vec![]),
        Err(EmitError::Misplaced)
    );
}

#[test]
fn if_else_emits_merge_and_branch() {
    let mut compiler = started();
    let next = compiler
        .compile_control_flow(
            &ControlFlow::IfElse { cond: cond(), then: 1, or_else: 2, merge: 3 },
            &vec![],
        )
        .unwrap();
    assert_eq!(next, vec![1, 2, 3]);
    assert_eq!(kinds(&compiler), vec![Emit::Label, Emit::SelectionMerge, Emit::BranchConditional]);
    // ids: 1 bool, 2 int, 3 void, 4 function type, 5 function, 6 label of block 0
    assert_eq!(compiler.emitted[0].words, vec![6]);
    assert_eq!(compiler.emitted[1].words, vec![9, 0]);
    assert_eq!(compiler.emitted[2].words, vec![10, 7, 8]);
    let text = compiler.finish().module().disassemble();
    assert!(text.contains("OpSelectionMerge %9 None"));
    assert!(text.contains("OpBranchConditional %10 %7 %8"));
}

#[test]
fn loop_break_switch_and_return() {
    let mut compiler = started();
    let next = compiler
        .compile_control_flow(&ControlFlow::Loop { body: 1, continue_target: 2, merge: 3 }, &vec![])
        .unwrap();
    assert_eq!(next, vec![1, 2, 3]);
    // the merge label, the label that ends each round, no loop control
    assert_eq!(compiler.emitted[1].words, vec![9, 8, 0]);
    assert_eq!(compiler.emitted[2].words, vec![7]);
    compiler.begin_block(7).unwrap();
    let next = compiler
        .compile_control_flow(&ControlFlow::Break { cond: cond(), body: 4, or_break: 3 }, &vec![])
        .unwrap();
    assert_eq!(next, vec![4, 3]);
    // label of block 4 is 10, the condition is 11
    assert_eq!(compiler.emitted[4].words, vec![11, 10, 9]);
    compiler.begin_block(10).unwrap();
    let next = compiler
        .compile_control_flow(
            &ControlFlow::Switch {
                value: Variable::GlobalScalar { id: 1, elem: Elem::UInt },
                default: 5,
                branches: vec![(3, 6), (9, 7)],
                merge: 8,
            },
            &vec![],
        )
        .unwrap();
    assert_eq!(next, vec![5, 6, 7, 8]);
    let switch = compiler.emitted.last().unwrap();
    assert_eq!(switch.kind, Emit::Switch);
    assert_eq!(switch.words, vec![12, 13, 3, 14, 9, 15]);
    compiler.begin_block(13).unwrap();
    assert_eq!(
        compiler.compile_control_flow(&ControlFlow::Fallthrough, &vec![1, 2]),
        Err(EmitError::Shape)
    );
    assert_eq!(compiler.compile_control_flow(&ControlFlow::Return, &vec![]), Ok(vec![]));
    assert_eq!(compiler.current_block, None);
    let text = compiler.finish().module().disassemble();
    assert!(text.contains("OpLoopMerge %9 %8 None"));
    assert!(text.contains("OpSwitch %12 %13 3 %14 9 %15"));
    assert!(text.contains("OpReturn"));
}

#[test]
fn select_takes_the_type_of_its_operand() {
    let mut compiler = started();
    let x = Variable::GlobalScalar { id: 1, elem: Elem::UInt };
    let y = Variable::GlobalScalar { id: 2, elem: Elem::UInt };
    let out = Variable::Local { id: 0, depth: 0, item: Item { elem: Elem::UInt, vectorization: 1 } };
    compiler
        .compile_branch(&Branch::Select { cond: cond(), then: x, or_else: y, out })
        .unwrap();
    let select = compiler.emitted.last().unwrap();
    assert_eq!(select.kind, Emit::Select);
    // type 2 (unsigned integer), result 10, condition 7, operands 8 and 9
    assert_eq!(select.words, vec![2, 10, 7, 8, 9]);
    compiler.compile_branch(&Branch::Return).unwrap();
    assert_eq!(compiler.emitted.len(), 2);
}

#[test]
fn checked_read_makes_three_blocks_and_a_phi() {
    let mut compiler = started();
    let (inside, fallback, next) = compiler.compile_read_bound(100, 101).unwrap();
    // the comparison is 7
    assert_eq!((inside, fallback, next), (8, 9, 10));
    let id = compiler.close_read_bound(2, 200, inside, fallback, next).unwrap();
    assert_eq!(id, 12);
    assert_eq!(compiler.end_labels, vec![(0, 10)]);
    assert_eq!(
        kinds(&compiler),
        vec![
            Emit::Label,
            Emit::ULessThan,
            Emit::SelectionMerge,
            Emit::BranchConditional,
            Emit::Label,
            Emit::Branch,
            Emit::Label,
            Emit::Constant,
            Emit::Branch,
            Emit::Label,
            Emit::Phi,
        ]
    );
    assert_eq!(compiler.emitted[1].words, vec![1, 7, 101, 100]);
    assert_eq!(compiler.emitted[2].words, vec![10, 2]);
    assert_eq!(compiler.emitted[3].words, vec![7, 8, 9, 1, 0]);
    assert_eq!(compiler.emitted[10].words, vec![2, 12, 200, 8, 11, 9]);
    let text = compiler.finish().module().disassemble();
    assert!(text.contains("OpSelectionMerge %10 DontFlatten"));
    assert!(text.contains("OpPhi"));
}

#[test]
fn checked_write_and_copy() {
    let mut compiler = started();
    let (inside, outside, next) = compiler.compile_write_bound(100, 101).unwrap();
    assert_eq!((inside, outside, next), (8, 9, 9));
    compiler.close_write_bound(next).unwrap();
    assert_eq!(compiler.end_labels, vec![(0, 9)]);
    let (inside, outside, next) =
        compiler.compile_copy_bound(100, 101, 102, 103, Some(104)).unwrap();
    // sums 10 and 11, comparisons 12 and 13, conjunction 14
    assert_eq!((inside, outside, next), (15, 16, 16));
    assert_eq!(compiler.emitted[compiler.emitted.len() - 4].kind, Emit::LogicalAnd);
    compiler.close_write_bound(next).unwrap();
    assert_eq!(compiler.end_labels, vec![(0, 16)]);
}

#[test]
fn whole_program_is_compiled_block_by_block() {
    let x = Variable::Local {
        id: 0,
        depth: 0,
        item: Item { elem: Elem::Int(IntKind::I32), vectorization: 1 },
    };
    let one = Variable::ConstantScalar(cubecl_opt::ConstantValue::Int(1, IntKind::I32));
    let scope = Scope {
        depth: 0,
        locals: vec![x],
        operations: vec![Operation::Branch(Branch::If {
            cond: cond(),
            scope: Scope {
                depth: 1,
                locals: vec![],
                operations: vec![Operation::Operator(Instruction::unary(OpKind::Assign, one, x))],
            },
        })],
    };
    let opt = Optimizer::new(scope, CubeDim { x: 1, y: 1, z: 1 }, ExecutionMode::Unchecked).unwrap();
    let mut compiler = SpirvCompiler::new();
    compiler.begin_kernel().unwrap();
    let mut done = vec![false; opt.program.blocks.len()];
    let fuel = done.len();
    compiler.compile_block(&opt, &mut done, opt.entry(), fuel).unwrap();
    assert_eq!(done, vec![true, true, true, true]);
    // root, then, merge, ret
    assert_eq!(
        kinds(&compiler),
        vec![
            Emit::Label,
            Emit::SelectionMerge,
            Emit::BranchConditional,
            Emit::Label,
            Emit::Branch,
            Emit::Label,
            Emit::Branch,
            Emit::Label,
            Emit::Return,
        ]
    );
}

fn words_of(instruction: &rspirv::dr::Instruction) -> (u32, Vec<u32>) {
    let mut words = Vec::new();
    if let Some(ty) = instruction.result_type {
        words.push(ty);
    }
    if let Some(id) = instruction.result_id {
        words.push(id);
    }
    for operand in &instruction.operands {
        words.push(match operand {
            rspirv::dr::Operand::IdRef(id) => *id,
            rspirv::dr::Operand::LiteralBit32(n) => *n,
            rspirv::dr::Operand::SelectionControl(c) => c.bits(),
            rspirv::dr::Operand::LoopControl(c) => c.bits(),
            other => panic!("{:?}", other),
        });
    }
    (instruction.class.opcode as u32, words)
}

fn held_by(builder: &rspirv::dr::Builder) -> Vec<(u32, Vec<u32>)> {
    let mut held = Vec::new();
    for block in &builder.module_ref().functions[0].blocks {
        held.push(words_of(block.label.as_ref().unwrap()));
        for instruction in &block.instructions {
            held.push(words_of(instruction));
        }
    }
    held
}

fn opcode(kind: Emit) -> u32 {
    match kind {
        Emit::Label => 248,
        Emit::Branch => 249,
        Emit::BranchConditional => 250,
        Emit::Switch => 251,
        Emit::Return => 253,
        Emit::SelectionMerge => 247,
        Emit::LoopMerge => 246,
        Emit::Phi => 245,
        Emit::Select => 169,
        Emit::ULessThan => 176,
        Emit::IAdd => 128,
        Emit::LogicalAnd => 167,
        Emit::Constant => 43,
    }
}

fn logged(compiler: &SpirvCompiler) -> Vec<(u32, Vec<u32>)> {
    compiler
        .emitted
        .iter()
        .filter(|e| e.kind != Emit::Constant)
        .map(|e| (opcode(e.kind), e.words.clone()))
        .collect()
}

#[test]
fn the_builder_holds_what_was_compiled() {
    // `started` has begun the block with the label of block 0
    let mut compiler = started();
    compiler.compile_break(cond(), 100, 101).unwrap();
    let body = compiler.label(100).unwrap();
    let or_break = compiler.label(101).unwrap();
    assert_ne!(body, or_break);
    compiler.begin_block(body).unwrap();
    compiler.compile_loop(200, 201, 202).unwrap();
    compiler.begin_block(or_break).unwrap();
    compiler.compile_switch(cond(), 300, &vec![(5, 301), (7, 302)], 303).unwrap();
    let default = compiler.label(300).unwrap();
    compiler.begin_block(default).unwrap();
    let (inside, fallback, next) = compiler.compile_read_bound(40, 41).unwrap();
    compiler.close_read_bound(2, 42, inside, fallback, next).unwrap();
    compiler.compile_control_flow(&ControlFlow::Return, &vec![]).unwrap();
    let log = logged(&compiler);
    let builder = compiler.finish();
    let held = held_by(&builder);
    assert_eq!(held, log);
    // the conditional branch names the body first
    let branch = held.iter().find(|i| i.0 == 250).unwrap();
    assert_eq!(branch.1[1..], [body, or_break]);
    assert!(held.iter().any(|i| i.0 == 246 && i.1.len() == 3 && i.1[2] == 0));
    // the targets of the switch: each value with the label of its block
    let switch = held.iter().find(|i| i.0 == 251).unwrap();
    assert_eq!(switch.1.len(), 6);
    assert_eq!((switch.1[2], switch.1[4]), (5, 7));
}

#[test]
fn a_block_that_falls_through_nowhere_changes_nothing() {
    let mut compiler = started();
    let before = compiler.emitted.len();
    let labels = compiler.labels.clone();
    assert_eq!(
        compiler.compile_control_flow(&ControlFlow::Fallthrough, &vec![]),
        Err(EmitError::Shape)
    );
    assert_eq!(
        compiler.compile_control_flow(&ControlFlow::Fallthrough, &vec![3, 4]),
        Err(EmitError::Shape)
    );
    assert_eq!(compiler.emitted.len(), before);
    assert_eq!(compiler.labels, labels);
    // the builder holds the label of the block that was begun, and no more
    let log = logged(&compiler);
    assert_eq!(log.len(), 1);
    let builder = compiler.finish();
    assert_eq!(held_by(&builder), log);
}
