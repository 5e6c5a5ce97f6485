use ac_compiler::code_generator::Compiler;
use ac_compiler::internal_representations::gast::{Expr, Function, Operator, Stmt};
use ac_compiler::ir::{Block, BlockKind, Instruction, IrModule, LoweredFunction, Value};
use ac_compiler::internal_representations::gast::Name;
use ac_compiler::parser::{parse_program, Parser};
use ac_compiler::semantics::{compute, interpret, Frame, Outcome};

/// Compiles the functions of the text, one after the other, into one module.
fn compiled(code: &str) -> IrModule {
    let program = parse_program(&Parser::new(code.to_string())).unwrap();
    let mut module = IrModule::new();
    for f in program.functions {
        let single = ac_compiler::internal_representations::gast::Program { functions: vec![f] };
        Compiler::compile(&mut module, &single).unwrap();
    }
    module
}

fn run_last(code: &str, args: &[i64]) -> Outcome {
    let module = compiled(code);
    interpret(&module, module.functions.len() - 1, &args.to_vec(), 100_000)
}

#[test]
fn the_function_that_returns_forty_two_returns_forty_two() {
    assert_eq!(run_last("fn main() { return 42; }", &[]), Outcome::Returned(42));
}

#[test]
fn a_literal_is_returned_exactly() {
    for n in [0, 1, 7, i64::MAX] {
        let code = format!("fn f(a, b, c) {{ return {}; }}", n);
        assert_eq!(run_last(&code, &[5, 6, 7]), Outcome::Returned(n));
        // Three stores, the return, and the entry into the function.
        let module = compiled(&code);
        assert_eq!(interpret(&module, 0, &vec![5, 6, 7], 5), Outcome::Returned(n));
        assert_eq!(interpret(&module, 0, &vec![5, 6, 7], 4), Outcome::OutOfFuel);
    }
}

#[test]
fn a_loop_that_counts_to_three_runs_its_body_three_times() {
    let code = "fn f() { let runs = 0; for (let i = 0; i - 3; 0) { runs = runs + 1; i = i + 1; } return runs; }";
    assert_eq!(run_last(code, &[]), Outcome::Returned(3));
}

#[test]
fn the_body_of_a_loop_is_not_entered_when_the_condition_fails_at_once() {
    let code = "fn f(n) { let runs = 0; for (let i = n; i; 0) { runs = runs + 1; i = i - 1; } return runs; }";
    assert_eq!(run_last(code, &[0]), Outcome::Returned(0));
    assert_eq!(run_last(code, &[1]), Outcome::Returned(1));
    assert_eq!(run_last(code, &[10]), Outcome::Returned(10));
}

#[test]
fn the_step_runs_after_the_body_and_before_the_next_test() {
    // The step calls a function that traps on its third call: the loop
    // reaches it only behind a body that has run three times.
    let code = "
        fn check(i) { return 1 / (3 - i); }
        fn f() { let i = 0; for (let t = 0; 1; check(i)) { i = i + 1; } return i; }
    ";
    assert_eq!(run_last(code, &[]), Outcome::Trapped);
    let code = "
        fn check(i) { return 1 / (3 - i); }
        fn f() { let i = 0; for (let t = 0; 2 - i; check(i)) { i = i + 1; } return i; }
    ";
    assert_eq!(run_last(code, &[]), Outcome::Returned(2));
}

#[test]
fn a_conditional_takes_the_branch_of_its_condition() {
    let code = "fn f(c) { let x = 10; if c { x = 20; } else { x = 30; } return x; }";
    assert_eq!(run_last(code, &[1]), Outcome::Returned(20));
    assert_eq!(run_last(code, &[-5]), Outcome::Returned(20));
    assert_eq!(run_last(code, &[0]), Outcome::Returned(30));
    let code = "fn f(c) { let x = 10; if c { x = 20; } return x; }";
    assert_eq!(run_last(code, &[1]), Outcome::Returned(20));
    assert_eq!(run_last(code, &[0]), Outcome::Returned(10));
}

#[test]
fn arithmetic_is_signed_and_sixty_four_bits_wide() {
    let code = "fn f(a, b) { return a + b * a - b / a; }";
    assert_eq!(run_last(code, &[3, 7]), Outcome::Returned(3 + 7 * 3 - 7 / 3));
    assert_eq!(run_last("fn f(a, b) { return a / b; }", &[-7, 2]), Outcome::Returned(-3));
    assert_eq!(run_last("fn f(a, b) { return a / b; }", &[7, -2]), Outcome::Returned(-3));
    assert_eq!(run_last("fn f(a, b) { return a - b - 1; }", &[10, 4]), Outcome::Returned(7));
    assert_eq!(compute(Operator::Add, i64::MAX, 1), Some(i64::MIN));
    assert_eq!(compute(Operator::Sub, i64::MIN, 1), Some(i64::MAX));
    assert_eq!(compute(Operator::Mul, i64::MAX, 2), Some(-2));
    assert_eq!(compute(Operator::Div, 9, 2), Some(4));
    assert_eq!(compute(Operator::Div, 9, 0), None);
    assert_eq!(compute(Operator::Div, i64::MIN, -1), None);
}

#[test]
fn a_division_by_zero_traps() {
    assert_eq!(run_last("fn f(a) { return 1 / a; }", &[0]), Outcome::Trapped);
    assert_eq!(run_last("fn f(a) { return 1 / a; }", &[1]), Outcome::Returned(1));
}

#[test]
fn reading_a_slot_that_was_never_stored_to_traps() {
    let code = "fn f(c) { if c { let x = 1; } return x; }";
    assert_eq!(run_last(code, &[1]), Outcome::Returned(1));
    assert_eq!(run_last(code, &[0]), Outcome::Trapped);
}

#[test]
fn a_loop_without_an_end_runs_out_of_fuel() {
    assert_eq!(
        run_last("fn f() { for (let i = 1; i; 0) { } return 0; }", &[]),
        Outcome::OutOfFuel
    );
    let module = compiled("fn f() { return 1; }");
    assert_eq!(interpret(&module, 0, &vec![], 0), Outcome::OutOfFuel);
    assert_eq!(interpret(&module, 0, &vec![], 1), Outcome::OutOfFuel);
    assert_eq!(interpret(&module, 0, &vec![], 2), Outcome::Returned(1));
}

#[test]
fn functions_call_each_other_and_themselves() {
    let code = "
        fn double(x) { return x + x; }
        fn fact(n) { let r = 1; if n { r = n * fact(n - 1); } return r; }
        fn main(n) { return double(fact(n)) - fact(double(1)); }
    ";
    assert_eq!(run_last(code, &[5]), Outcome::Returned(238));
    let module = compiled(code);
    assert_eq!(interpret(&module, 1, &vec![10], 10_000), Outcome::Returned(3628800));
    assert_eq!(interpret(&module, 1, &vec![10], 50), Outcome::OutOfFuel);
}

#[test]
fn a_call_with_the_wrong_number_of_arguments_traps() {
    let module = compiled("fn f(a) { return a; }");
    assert_eq!(interpret(&module, 0, &vec![], 10), Outcome::Trapped);
    assert_eq!(interpret(&module, 0, &vec![1, 2], 10), Outcome::Trapped);
    assert_eq!(interpret(&module, 1, &vec![1], 10), Outcome::Trapped);
    let code = "
        fn one(a) { return a; }
        fn main() { return one(1, 2); }
    ";
    assert_eq!(run_last(code, &[]), Outcome::Trapped);
}

#[test]
fn what_does_not_exist_traps() {
    let run = |instructions: Vec<Instruction>| {
        let module = IrModule {
            functions: vec![LoweredFunction {
                name: Name::new("f".to_string()),
                params: vec![],
                slots: vec![Name::new("s".to_string())],
                blocks: vec![Block { kind: BlockKind::Entry, instructions }],
            }],
        };
        interpret(&module, 0, &vec![], 100)
    };
    let ret = |value| Instruction::Return { value };
    assert_eq!(run(vec![ret(Value::Const(1))]), Outcome::Returned(1));
    assert_eq!(run(vec![]), Outcome::Trapped);
    assert_eq!(run(vec![Instruction::Load { slot: 0 }]), Outcome::Trapped);
    assert_eq!(run(vec![ret(Value::Param(0))]), Outcome::Trapped);
    assert_eq!(run(vec![ret(Value::Temp { block: 0, index: 0 })]), Outcome::Trapped);
    assert_eq!(run(vec![ret(Value::Temp { block: 1, index: 0 })]), Outcome::Trapped);
    assert_eq!(run(vec![Instruction::Branch { target: 1 }]), Outcome::Trapped);
    assert_eq!(run(vec![Instruction::Store { slot: 1, value: Value::Const(0) }]), Outcome::Trapped);
    assert_eq!(run(vec![Instruction::Call { callee: 1, args: vec![] }]), Outcome::Trapped);
    assert_eq!(
        run(vec![
            Instruction::Store { slot: 0, value: Value::Const(5) },
            Instruction::Load { slot: 0 },
            Instruction::IsNonZero { value: Value::Temp { block: 0, index: 1 } },
            ret(Value::Temp { block: 0, index: 2 }),
        ]),
        Outcome::Returned(1)
    );
}

#[test]
fn a_frame_starts_empty() {
    let module = compiled("fn f(a, b) { let c = a; return c; }");
    let frame = Frame::new(&module.functions[0]);
    assert_eq!(frame.slots, vec![None, None, None]);
    assert_eq!(frame.values, vec![vec![None; 6]]);
    assert_eq!(frame.eval(&vec![4, 5], Value::Param(1)), Some(5));
    assert_eq!(frame.eval(&vec![4, 5], Value::Param(2)), None);
    assert_eq!(frame.eval(&vec![], Value::Const(-9)), Some(-9));
    assert_eq!(frame.eval(&vec![], Value::Temp { block: 0, index: 0 }), None);
    assert_eq!(
        frame.eval_all(&vec![4, 5], &vec![Value::Param(1), Value::Const(2), Value::Param(0)]),
        Some(vec![5, 2, 4])
    );
    assert_eq!(frame.eval_all(&vec![4, 5], &vec![Value::Param(1), Value::Param(2)]), None);
}

/// `name() { let runs = 0; for (let i = 0; i - k; 0) { runs = runs + 1; i = i + 1; } return runs; }`
fn counting_loop(k: i64) -> Function {
    let name = |text: &str| Name::new(text.to_string());
    let successor = |text: &str| Expr::add(Expr::Name(name(text)), Expr::IntLiteral(1));
    Function {
        name: name("count"),
        args: vec![],
        body: vec![
            Stmt::Let(name("runs"), Expr::IntLiteral(0)),
            Stmt::For(
                Box::new(Stmt::Let(name("i"), Expr::IntLiteral(0))),
                Expr::sub(Expr::Name(name("i")), Expr::IntLiteral(k)),
                Expr::IntLiteral(0),
                vec![
                    Stmt::Assign(name("runs"), Box::new(successor("runs"))),
                    Stmt::Assign(name("i"), Box::new(successor("i"))),
                ],
            ),
            Stmt::Return(Expr::Name(name("runs"))),
        ],
    }
}

#[test]
fn a_counting_loop_is_lowered_to_its_four_blocks() {
    let mut compiler = Compiler::new(IrModule::new());
    assert_eq!(compiler.compile_function(&counting_loop(3)), Ok(0));
    let module = compiler.into_module();
    let temp = |block, index| Value::Temp { block, index };
    let add = |lhs| Instruction::Binary { op: Operator::Add, lhs, rhs: Value::Const(1) };
    let expected = LoweredFunction {
        name: Name::new("count".to_string()),
        params: vec![],
        slots: vec![Name::new("runs".to_string()), Name::new("i".to_string())],
        blocks: vec![
            Block {
                kind: BlockKind::Entry,
                instructions: vec![
                    Instruction::Store { slot: 0, value: Value::Const(0) },
                    Instruction::Store { slot: 1, value: Value::Const(0) },
                    Instruction::Branch { target: 1 },
                ],
            },
            Block {
                kind: BlockKind::LoopCondition,
                instructions: vec![
                    Instruction::Load { slot: 1 },
                    Instruction::Binary { op: Operator::Sub, lhs: temp(1, 0), rhs: Value::Const(3) },
                    Instruction::IsNonZero { value: temp(1, 1) },
                    Instruction::CondBranch { cond: temp(1, 2), then_block: 2, else_block: 3 },
                ],
            },
            Block {
                kind: BlockKind::LoopBody,
                instructions: vec![
                    Instruction::Load { slot: 0 },
                    add(temp(2, 0)),
                    Instruction::Store { slot: 0, value: temp(2, 1) },
                    Instruction::Load { slot: 1 },
                    add(temp(2, 3)),
                    Instruction::Store { slot: 1, value: temp(2, 4) },
                    Instruction::Branch { target: 1 },
                ],
            },
            Block {
                kind: BlockKind::AfterLoop,
                instructions: vec![
                    Instruction::Load { slot: 0 },
                    Instruction::Return { value: temp(3, 0) },
                ],
            },
        ],
    };
    assert_eq!(module.functions, vec![expected]);
}

#[test]
fn a_counting_loop_runs_its_body_once_for_each_number_below_its_bound() {
    for k in [0i64, 1, 3, 10] {
        let mut compiler = Compiler::new(IrModule::new());
        assert_eq!(compiler.compile_function(&counting_loop(k)), Ok(0));
        let module = compiler.into_module();
        // Eleven instructions for each turn, and ten around them.
        let enough = (11 * k + 10) as usize;
        assert_eq!(interpret(&module, 0, &vec![], enough), Outcome::Returned(k));
        assert_eq!(interpret(&module, 0, &vec![], enough - 1), Outcome::OutOfFuel);
    }
}
