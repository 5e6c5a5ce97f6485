use ac_compiler::internal_representations::gast::{Name, Operator};
use ac_compiler::ir::{Block, BlockKind, Instruction, IrModule, LoweredFunction, Value};
use ac_compiler::operands::{is_well_formed, ValueKind};

fn graph(blocks: Vec<Vec<Instruction>>) -> LoweredFunction {
    LoweredFunction {
        name: Name::new("f".to_string()),
        params: vec![Name::new("p".to_string())],
        slots: vec![Name::new("s".to_string())],
        blocks: blocks
            .into_iter()
            .map(|instructions| Block { kind: BlockKind::Entry, instructions })
            .collect(),
    }
}

fn ret() -> Instruction {
    Instruction::Return { value: Value::Const(0) }
}

fn jump(target: usize) -> Instruction {
    Instruction::Branch { target }
}

fn fork(then_block: usize, else_block: usize) -> Instruction {
    Instruction::CondBranch { cond: Value::Param(0), then_block, else_block }
}

#[test]
fn a_function_without_blocks_is_not_valid() {
    assert!(!graph(vec![]).verify());
}

#[test]
fn a_block_must_end_in_a_terminator() {
    assert!(graph(vec![vec![ret()]]).verify());
    assert!(!graph(vec![vec![]]).verify());
    assert!(!graph(vec![vec![Instruction::Load { slot: 0 }]]).verify());
    assert!(!graph(vec![vec![jump(1)], vec![Instruction::Load { slot: 0 }]]).verify());
}

#[test]
fn a_block_must_not_hold_two_terminators() {
    assert!(!graph(vec![vec![ret(), ret()]]).verify());
    assert!(!graph(vec![vec![jump(0), Instruction::Load { slot: 0 }, ret()]]).verify());
    assert!(!graph(vec![vec![fork(0, 0), jump(0)]]).verify());
}

#[test]
fn a_branch_must_lead_to_a_block_of_the_function() {
    assert!(!graph(vec![vec![jump(1)]]).verify());
    assert!(!graph(vec![vec![fork(0, 2)], vec![ret()]]).verify());
    assert!(graph(vec![vec![fork(0, 1)], vec![ret()]]).verify());
}

#[test]
fn a_block_that_is_referred_to_must_be_reachable() {
    // Blocks 1 and 2 refer to each other, and nothing leads to them.
    assert!(!graph(vec![vec![ret()], vec![jump(2)], vec![jump(1)]]).verify());
    // An unreachable block that refers to a reachable one does no harm.
    assert!(graph(vec![vec![jump(2)], vec![jump(2)], vec![ret()]]).verify());
    // A block that nothing refers to may be unreachable.
    assert!(graph(vec![vec![ret()], vec![ret()]]).verify());
}

#[test]
fn reachable_blocks_are_those_on_a_path_from_the_entry() {
    let f = graph(vec![
        vec![fork(1, 2)],
        vec![jump(3)],
        vec![jump(3)],
        vec![jump(1)],
        vec![jump(0)],
        vec![ret()],
    ]);
    assert_eq!(f.reachable_blocks(), vec![true, true, true, true, false, false]);
}

#[test]
fn terminators_are_told_from_other_instructions() {
    assert!(ret().is_terminator());
    assert!(jump(0).is_terminator());
    assert!(fork(0, 0).is_terminator());
    assert!(!Instruction::Load { slot: 0 }.is_terminator());
    assert!(!Instruction::Store { slot: 0, value: Value::Const(0) }.is_terminator());
    assert!(!Instruction::IsNonZero { value: Value::Const(0) }.is_terminator());
    assert!(!Instruction::Call { callee: 0, args: vec![] }.is_terminator());
    assert!(Block { kind: BlockKind::Entry, instructions: vec![ret()] }.check_terminated(1));
    assert!(!Block { kind: BlockKind::Entry, instructions: vec![jump(1)] }.check_terminated(1));
}

#[test]
fn instructions_define_scalars_flags_or_nothing() {
    assert_eq!(Instruction::Load { slot: 0 }.defines(), Some(ValueKind::Scalar));
    assert_eq!(Instruction::Call { callee: 0, args: vec![] }.defines(), Some(ValueKind::Scalar));
    assert_eq!(
        Instruction::IsNonZero { value: Value::Const(0) }.defines(),
        Some(ValueKind::Flag)
    );
    assert_eq!(ret().defines(), None);
    assert_eq!(jump(0).defines(), None);
}

fn module_of(f: LoweredFunction) -> IrModule {
    IrModule { functions: vec![f] }
}

#[test]
fn operands_must_be_defined_before_they_are_used() {
    let load = Instruction::Load { slot: 0 };
    let use_of = |block, index| Instruction::Return { value: Value::Temp { block, index } };
    assert!(is_well_formed(&module_of(graph(vec![vec![load, use_of(0, 0)]])), 0));
    assert!(!is_well_formed(&module_of(graph(vec![vec![use_of(0, 0)]])), 0));
    assert!(!is_well_formed(&module_of(graph(vec![vec![use_of(0, 1), ret()]])), 0));
    assert!(!is_well_formed(&module_of(graph(vec![vec![ret(), use_of(0, 0)]])), 0));
    assert!(!is_well_formed(&module_of(graph(vec![vec![jump(1)], vec![use_of(1, 5)]])), 0));
    assert!(!is_well_formed(&module_of(graph(vec![vec![use_of(1, 0)], vec![Instruction::Load { slot: 0 }]])), 0));
}

#[test]
fn operands_must_have_the_kind_that_their_use_asks_for() {
    let test = Instruction::IsNonZero { value: Value::Param(0) };
    let flag = Value::Temp { block: 0, index: 0 };
    let branch = Instruction::CondBranch { cond: flag, then_block: 0, else_block: 0 };
    assert!(is_well_formed(&module_of(graph(vec![vec![test, branch]])), 0));
    let test = Instruction::IsNonZero { value: Value::Param(0) };
    assert!(!is_well_formed(
        &module_of(graph(vec![vec![test, Instruction::Return { value: flag }]])),
        0
    ));
    // A parameter is no flag.
    assert!(!is_well_formed(&module_of(graph(vec![vec![fork(0, 0)]])), 0));
    let add = Instruction::Binary { op: Operator::Add, lhs: Value::Const(1), rhs: Value::Param(0) };
    assert!(is_well_formed(&module_of(graph(vec![vec![add, ret()]])), 0));
    let add = Instruction::Binary { op: Operator::Add, lhs: Value::Const(1), rhs: Value::Param(1) };
    assert!(!is_well_formed(&module_of(graph(vec![vec![add, ret()]])), 0));
}

#[test]
fn slots_blocks_and_callees_must_exist() {
    assert!(!is_well_formed(&module_of(graph(vec![vec![Instruction::Load { slot: 1 }, ret()]])), 0));
    assert!(!is_well_formed(
        &module_of(graph(vec![vec![Instruction::Store { slot: 1, value: Value::Const(0) }]])),
        0
    ));
    assert!(!is_well_formed(&module_of(graph(vec![vec![jump(1)]])), 0));
    let call = |callee, args| Instruction::Call { callee, args };
    assert!(is_well_formed(&module_of(graph(vec![vec![call(0, vec![Value::Const(1)]), ret()]])), 0));
    assert!(!is_well_formed(&module_of(graph(vec![vec![call(1, vec![Value::Const(1)]), ret()]])), 0));
    assert!(!is_well_formed(&module_of(graph(vec![vec![call(0, vec![]), ret()]])), 0));
    assert!(!is_well_formed(&module_of(graph(vec![])), 0));
    assert!(!is_well_formed(&module_of(graph(vec![vec![ret()]])), 1));
}

#[test]
fn functions_are_found_by_name_first_match_first() {
    let named = |text: &str| LoweredFunction {
        name: Name::new(text.to_string()),
        params: vec![],
        slots: vec![],
        blocks: vec![],
    };
    let module = IrModule { functions: vec![named("a"), named("b"), named("a")] };
    assert_eq!(module.get_function(&Name::new("a".to_string())), Some(0));
    assert_eq!(module.get_function(&Name::new("b".to_string())), Some(1));
    assert_eq!(module.get_function(&Name::new("c".to_string())), None);
    assert_eq!(IrModule::new().get_function(&Name::new("a".to_string())), None);
}

#[test]
fn the_operands_of_an_instruction_come_in_their_order() {
    let a = Value::Temp { block: 0, index: 1 };
    let b = Value::Param(2);
    let c = Value::Const(-5);
    assert_eq!(Instruction::Load { slot: 3 }.operands(), Vec::<Value>::new());
    assert_eq!(Instruction::Store { slot: 3, value: a }.operands(), vec![a]);
    assert_eq!(Instruction::Binary { op: Operator::Sub, lhs: a, rhs: b }.operands(), vec![a, b]);
    assert_eq!(Instruction::Binary { op: Operator::Div, lhs: b, rhs: a }.operands(), vec![b, a]);
    assert_eq!(Instruction::IsNonZero { value: c }.operands(), vec![c]);
    assert_eq!(Instruction::Call { callee: 0, args: vec![c, a, b] }.operands(), vec![c, a, b]);
    assert_eq!(Instruction::Call { callee: 0, args: vec![] }.operands(), Vec::<Value>::new());
    assert_eq!(Instruction::Return { value: b }.operands(), vec![b]);
    assert_eq!(Instruction::Branch { target: 1 }.operands(), Vec::<Value>::new());
    assert_eq!(
        Instruction::CondBranch { cond: a, then_block: 1, else_block: 2 }.operands(),
        vec![a]
    );
}
