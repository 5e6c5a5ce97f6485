use ac_compiler::code_generator::Compiler;
use ac_compiler::internal_representations::gast::{Expr, Function, Name, Program, Stmt};
use ac_compiler::ir::{Block, BlockKind, Instruction, IrModule, Value};
use ac_compiler::lowering::CompileError;

fn name(text: &str) -> Name {
    Name::new(text.to_string())
}

fn var(text: &str) -> Expr {
    Expr::Name(name(text))
}

fn function(text: &str, args: &[&str], body: Vec<Stmt>) -> Function {
    Function { name: name(text), args: args.iter().map(|a| name(a)).collect(), body }
}

fn compile_one(f: Function) -> (IrModule, Result<usize, CompileError>) {
    let mut module = IrModule::new();
    let result = Compiler::compile(&mut module, &Program { functions: vec![f] });
    (module, result)
}

fn temp(block: usize, index: usize) -> Value {
    Value::Temp { block, index }
}

#[test]
fn returning_a_literal_gives_one_block_that_returns_it() {
    let (module, index) =
        compile_one(function("main", &[], vec![Stmt::Return(Expr::IntLiteral(42))]));
    assert_eq!(index, Ok(0));
    assert_eq!(module.functions.len(), 1);
    assert_eq!(
        module.functions[0].blocks,
        vec![Block {
            kind: BlockKind::Entry,
            instructions: vec![Instruction::Return { value: Value::Const(42) }],
        }]
    );
    assert!(module.functions[0].verify());
}

#[test]
fn every_literal_is_returned_as_the_constant_with_its_value() {
    for n in [0, 1, -1, 42, i64::MAX, i64::MIN] {
        let (module, index) =
            compile_one(function("f", &["a", "b"], vec![Stmt::Return(Expr::IntLiteral(n))]));
        assert_eq!(index, Ok(0));
        let lowered = &module.functions[0];
        assert_eq!(lowered.params, vec![name("a"), name("b")]);
        assert_eq!(lowered.slots, vec![name("a"), name("b")]);
        assert_eq!(
            lowered.blocks,
            vec![Block {
                kind: BlockKind::Entry,
                instructions: vec![
                    Instruction::Store { slot: 0, value: Value::Param(0) },
                    Instruction::Store { slot: 1, value: Value::Param(1) },
                    Instruction::Return { value: Value::Const(n) },
                ],
            }]
        );
    }
}

#[test]
fn the_left_operand_is_lowered_before_the_right_one() {
    let mut module = IrModule::new();
    let declare = |module: &mut IrModule, text: &str| {
        let f = function(text, &["x"], vec![Stmt::Return(var("x"))]);
        Compiler::compile(module, &Program { functions: vec![f] })
    };
    assert_eq!(declare(&mut module, "left"), Ok(0));
    assert_eq!(declare(&mut module, "right"), Ok(1));
    let body = vec![Stmt::Return(Expr::sub(
        Expr::Call(name("left"), vec![Expr::IntLiteral(1)]),
        Expr::Call(name("right"), vec![Expr::IntLiteral(2)]),
    ))];
    let index = Compiler::compile(&mut module, &Program { functions: vec![function("main", &[], body)] });
    assert_eq!(index, Ok(2));
    assert_eq!(
        module.functions[2].blocks[0].instructions,
        vec![
            Instruction::Call { callee: 0, args: vec![Value::Const(1)] },
            Instruction::Call { callee: 1, args: vec![Value::Const(2)] },
            Instruction::Binary {
                op: ac_compiler::internal_representations::gast::Operator::Sub,
                lhs: temp(0, 0),
                rhs: temp(0, 1),
            },
            Instruction::Return { value: temp(0, 2) },
        ]
    );
}

#[test]
fn arguments_are_lowered_from_left_to_right() {
    let body = vec![Stmt::Return(Expr::Call(
        name("f"),
        vec![var("a"), Expr::add(var("b"), Expr::IntLiteral(1)), var("a")],
    ))];
    let (module, index) = compile_one(function("f", &["a", "b"], body));
    assert_eq!(index, Ok(0));
    assert_eq!(
        module.functions[0].blocks[0].instructions[2..],
        vec![
            Instruction::Load { slot: 0 },
            Instruction::Load { slot: 1 },
            Instruction::Binary {
                op: ac_compiler::internal_representations::gast::Operator::Add,
                lhs: temp(0, 3),
                rhs: Value::Const(1),
            },
            Instruction::Load { slot: 0 },
            Instruction::Call { callee: 0, args: vec![temp(0, 2), temp(0, 4), temp(0, 5)] },
            Instruction::Return { value: temp(0, 6) },
        ]
    );
}

#[test]
fn a_conditional_with_an_empty_else_gives_three_blocks_and_verifies() {
    let body = vec![
        Stmt::Let(name("x"), Expr::IntLiteral(1)),
        Stmt::If(var("c"), vec![Stmt::Assign(name("x"), Box::new(Expr::IntLiteral(2)))], vec![]),
        Stmt::Return(var("x")),
    ];
    let (module, index) = compile_one(function("pick", &["c"], body));
    assert_eq!(index, Ok(0));
    let lowered = &module.functions[0];
    assert_eq!(lowered.slots, vec![name("c"), name("x")]);
    assert_eq!(
        lowered.blocks,
        vec![
            Block {
                kind: BlockKind::Entry,
                instructions: vec![
                    Instruction::Store { slot: 0, value: Value::Param(0) },
                    Instruction::Store { slot: 1, value: Value::Const(1) },
                    Instruction::Load { slot: 0 },
                    Instruction::IsNonZero { value: temp(0, 2) },
                    Instruction::CondBranch { cond: temp(0, 3), then_block: 1, else_block: 2 },
                ],
            },
            Block {
                kind: BlockKind::Then,
                instructions: vec![
                    Instruction::Store { slot: 1, value: Value::Const(2) },
                    Instruction::Branch { target: 3 },
                ],
            },
            Block { kind: BlockKind::Else, instructions: vec![Instruction::Branch { target: 3 }] },
            Block {
                kind: BlockKind::Merge,
                instructions: vec![
                    Instruction::Load { slot: 1 },
                    Instruction::Return { value: temp(3, 0) },
                ],
            },
        ]
    );
    assert!(lowered.verify());
}

#[test]
fn a_conditional_with_two_empty_bodies_still_gives_three_blocks() {
    let body = vec![Stmt::If(Expr::IntLiteral(0), vec![], vec![]), Stmt::Return(Expr::IntLiteral(7))];
    let (module, index) = compile_one(function("f", &[], body));
    assert_eq!(index, Ok(0));
    let blocks = &module.functions[0].blocks;
    assert_eq!(blocks.len(), 4);
    assert_eq!(blocks[1].instructions, vec![Instruction::Branch { target: 3 }]);
    assert_eq!(blocks[2].instructions, vec![Instruction::Branch { target: 3 }]);
    assert_eq!(blocks[3].kind, BlockKind::Merge);
}

#[test]
fn a_return_inside_a_branch_fails_verification_and_leaves_no_function() {
    let body = vec![
        Stmt::If(var("c"), vec![Stmt::Return(Expr::IntLiteral(1))], vec![]),
        Stmt::Return(Expr::IntLiteral(0)),
    ];
    let (module, index) = compile_one(function("f", &["c"], body));
    assert_eq!(index, Err(CompileError::VerificationFailure));
    assert!(module.functions.is_empty());
}

#[test]
fn a_function_without_a_return_fails_verification() {
    let (module, index) =
        compile_one(function("f", &[], vec![Stmt::Expr(Expr::IntLiteral(1))]));
    assert_eq!(index, Err(CompileError::VerificationFailure));
    assert!(module.functions.is_empty());
    let (module, index) = compile_one(function("g", &[], vec![]));
    assert_eq!(index, Err(CompileError::VerificationFailure));
    assert!(module.functions.is_empty());
}

#[test]
fn statements_after_a_return_fail_verification() {
    let body = vec![Stmt::Return(Expr::IntLiteral(1)), Stmt::Return(Expr::IntLiteral(2))];
    let (module, index) = compile_one(function("f", &[], body));
    assert_eq!(index, Err(CompileError::VerificationFailure));
    assert!(module.functions.is_empty());
}

#[test]
fn a_loop_tests_its_condition_in_a_block_of_its_own() {
    // for (let i = 0; i - 3; 0) { i = i + 1; } return i;
    let body = vec![
        Stmt::For(
            Box::new(Stmt::Let(name("i"), Expr::IntLiteral(0))),
            Expr::sub(var("i"), Expr::IntLiteral(3)),
            Expr::IntLiteral(0),
            vec![Stmt::Assign(name("i"), Box::new(Expr::add(var("i"), Expr::IntLiteral(1))))],
        ),
        Stmt::Return(var("i")),
    ];
    let (module, index) = compile_one(function("count", &[], body));
    assert_eq!(index, Ok(0));
    let lowered = &module.functions[0];
    let sub = ac_compiler::internal_representations::gast::Operator::Sub;
    let add = ac_compiler::internal_representations::gast::Operator::Add;
    assert_eq!(
        lowered.blocks,
        vec![
            Block {
                kind: BlockKind::Entry,
                instructions: vec![
                    Instruction::Store { slot: 0, value: Value::Const(0) },
                    Instruction::Branch { target: 1 },
                ],
            },
            Block {
                kind: BlockKind::LoopCondition,
                instructions: vec![
                    Instruction::Load { slot: 0 },
                    Instruction::Binary { op: sub, lhs: temp(1, 0), rhs: Value::Const(3) },
                    Instruction::IsNonZero { value: temp(1, 1) },
                    Instruction::CondBranch { cond: temp(1, 2), then_block: 2, else_block: 3 },
                ],
            },
            Block {
                kind: BlockKind::LoopBody,
                instructions: vec![
                    Instruction::Load { slot: 0 },
                    Instruction::Binary { op: add, lhs: temp(2, 0), rhs: Value::Const(1) },
                    Instruction::Store { slot: 0, value: temp(2, 1) },
                    Instruction::Branch { target: 1 },
                ],
            },
            Block {
                kind: BlockKind::AfterLoop,
                instructions: vec![
                    Instruction::Load { slot: 0 },
                    Instruction::Return { value: temp(3, 0) },
                ],
            },
        ]
    );
    assert!(lowered.verify());
}

#[test]
fn the_step_of_a_loop_is_lowered_behind_its_body() {
    let body = vec![
        Stmt::For(
            Box::new(Stmt::Let(name("i"), Expr::IntLiteral(0))),
            var("i"),
            Expr::Call(name("tick"), vec![var("i")]),
            vec![Stmt::Expr(Expr::Call(name("tick"), vec![Expr::IntLiteral(9)]))],
        ),
        Stmt::Return(Expr::IntLiteral(0)),
    ];
    let (module, index) = compile_one(function("tick", &["n"], body));
    assert_eq!(index, Ok(0));
    assert_eq!(
        module.functions[0].blocks[2].instructions,
        vec![
            Instruction::Call { callee: 0, args: vec![Value::Const(9)] },
            Instruction::Load { slot: 1 },
            Instruction::Call { callee: 0, args: vec![temp(2, 1)] },
            Instruction::Branch { target: 1 },
        ]
    );
}

#[test]
fn loops_and_conditionals_nest() {
    let body = vec![
        Stmt::For(
            Box::new(Stmt::Let(name("i"), Expr::IntLiteral(0))),
            var("i"),
            Expr::IntLiteral(0),
            vec![Stmt::If(var("i"), vec![], vec![])],
        ),
        Stmt::Return(Expr::IntLiteral(0)),
    ];
    let (module, index) = compile_one(function("f", &[], body));
    assert_eq!(index, Ok(0));
    let kinds: Vec<BlockKind> = module.functions[0].blocks.iter().map(|b| b.kind).collect();
    assert_eq!(
        kinds,
        vec![
            BlockKind::Entry,
            BlockKind::LoopCondition,
            BlockKind::LoopBody,
            BlockKind::AfterLoop,
            BlockKind::Then,
            BlockKind::Else,
            BlockKind::Merge,
        ]
    );
    // The body ends in the merge block of the conditional, which branches back.
    assert_eq!(module.functions[0].blocks[6].instructions, vec![Instruction::Branch { target: 1 }]);
}

#[test]
fn an_unbound_name_fails_with_unresolved_symbol() {
    let (module, index) = compile_one(function("f", &[], vec![Stmt::Return(var("undeclared"))]));
    assert_eq!(index, Err(CompileError::UnresolvedSymbol));
    assert!(module.functions.is_empty());
}

#[test]
fn assigning_an_unbound_name_fails_with_unresolved_symbol() {
    let body = vec![
        Stmt::Assign(name("x"), Box::new(Expr::IntLiteral(1))),
        Stmt::Return(Expr::IntLiteral(0)),
    ];
    let (module, index) = compile_one(function("f", &[], body));
    assert_eq!(index, Err(CompileError::UnresolvedSymbol));
    assert!(module.functions.is_empty());
}

#[test]
fn a_name_is_not_visible_before_its_let() {
    let body = vec![Stmt::Let(name("x"), var("x")), Stmt::Return(var("x"))];
    let (_, index) = compile_one(function("f", &[], body));
    assert_eq!(index, Err(CompileError::UnresolvedSymbol));
}

#[test]
fn an_unknown_function_fails_with_unknown_function() {
    let body = vec![Stmt::Return(Expr::Call(name("missing"), vec![var("undeclared")]))];
    let (module, index) = compile_one(function("f", &[], body));
    assert_eq!(index, Err(CompileError::UnknownFunction));
    assert!(module.functions.is_empty());
}

#[test]
fn a_string_literal_fails_with_unsupported_construct() {
    let body = vec![Stmt::Return(Expr::StringLiteral("text".to_string()))];
    let (module, index) = compile_one(function("f", &[], body));
    assert_eq!(index, Err(CompileError::UnsupportedConstruct));
    assert!(module.functions.is_empty());
}

#[test]
fn the_first_failure_is_the_one_reported() {
    let body = vec![
        Stmt::Expr(Expr::add(var("nowhere"), Expr::StringLiteral("s".to_string()))),
        Stmt::Return(Expr::Call(name("missing"), vec![])),
    ];
    let (_, index) = compile_one(function("f", &[], body));
    assert_eq!(index, Err(CompileError::UnresolvedSymbol));
}

#[test]
fn a_failed_function_leaves_the_earlier_functions_alone() {
    let mut module = IrModule::new();
    let good = function("good", &[], vec![Stmt::Return(Expr::IntLiteral(1))]);
    assert_eq!(Compiler::compile(&mut module, &Program { functions: vec![good] }), Ok(0));
    let before = format!("{:?}", module);
    let bad = function("bad", &[], vec![Stmt::Return(var("nowhere"))]);
    assert_eq!(
        Compiler::compile(&mut module, &Program { functions: vec![bad] }),
        Err(CompileError::UnresolvedSymbol)
    );
    assert_eq!(format!("{:?}", module), before);
}

#[test]
fn a_function_can_call_itself() {
    let body = vec![Stmt::Return(Expr::Call(name("again"), vec![var("n")]))];
    let (module, index) = compile_one(function("again", &["n"], body));
    assert_eq!(index, Ok(0));
    assert_eq!(
        module.functions[0].blocks[0].instructions[2],
        Instruction::Call { callee: 0, args: vec![temp(0, 1)] }
    );
}

#[test]
fn a_second_let_of_a_name_gets_a_slot_of_its_own() {
    let body = vec![
        Stmt::Let(name("x"), Expr::IntLiteral(1)),
        Stmt::Let(name("x"), var("x")),
        Stmt::Return(var("x")),
    ];
    let (module, index) = compile_one(function("f", &[], body));
    assert_eq!(index, Ok(0));
    assert_eq!(module.functions[0].slots, vec![name("x"), name("x")]);
    assert_eq!(
        module.functions[0].blocks[0].instructions,
        vec![
            Instruction::Store { slot: 0, value: Value::Const(1) },
            Instruction::Load { slot: 0 },
            Instruction::Store { slot: 1, value: temp(0, 1) },
            Instruction::Load { slot: 1 },
            Instruction::Return { value: temp(0, 3) },
        ]
    );
}

#[test]
fn lowering_twice_gives_the_same_blocks() {
    let build = || {
        function(
            "f",
            &["a"],
            vec![
                Stmt::If(var("a"), vec![Stmt::Expr(var("a"))], vec![]),
                Stmt::For(
                    Box::new(Stmt::Let(name("i"), var("a"))),
                    var("i"),
                    Expr::IntLiteral(0),
                    vec![],
                ),
                Stmt::Return(var("a")),
            ],
        )
    };
    let (first, a) = compile_one(build());
    let (second, b) = compile_one(build());
    assert_eq!(a, Ok(0));
    assert_eq!(b, Ok(0));
    assert_eq!(first, second);
    // Twice into one module: the second copy has the blocks of the first.
    let mut module = first;
    assert_eq!(Compiler::compile(&mut module, &Program { functions: vec![build()] }), Ok(1));
    assert_eq!(module.functions[0].blocks, module.functions[1].blocks);
    assert_eq!(module.functions[0].blocks.len(), 7);
}

#[test]
fn a_lowered_function_has_its_operands_in_order() {
    let code = "fn f(a, b) { let x = a * b; for (let i = x; i; 0) { if i - a { x = f(i, x); } i = i - 1; } return x + f(a, b); }";
    let program = ac_compiler::parser::parse_program(&ac_compiler::parser::Parser::new(code.to_string())).unwrap();
    let mut module = IrModule::new();
    assert_eq!(Compiler::compile(&mut module, &program), Ok(0));
    assert!(ac_compiler::operands::is_well_formed(&module, 0));
    assert!(module.functions[0].verify());
}

#[test]
fn compile_takes_the_first_function_of_the_program() {
    let program = Program {
        functions: vec![
            function("first", &[], vec![Stmt::Return(Expr::IntLiteral(1))]),
            function("second", &[], vec![Stmt::Return(Expr::IntLiteral(2))]),
        ],
    };
    let mut module = IrModule::new();
    assert_eq!(Compiler::compile(&mut module, &program), Ok(0));
    assert_eq!(module.functions.len(), 1);
    assert_eq!(module.functions[0].name, name("first"));
}

#[test]
fn a_statement_can_be_lowered_against_a_context_of_its_own() {
    let mut compiler = Compiler::new(IrModule::new());
    assert_eq!(compiler.get_function(&name("f")), None);
    let f = function("f", &["a"], vec![]);
    assert_eq!(compiler.make_prototype(&f), Some(0));
    assert_eq!(compiler.fn_value(), 0);
    assert_eq!(compiler.get_function(&name("f")), Some(0));
    assert_eq!(compiler.append_basic_block(BlockKind::Entry), 0);
    assert_eq!(compiler.current_cursor(), 0);
    assert_eq!(compiler.lookup(&name("a")), None);
    assert_eq!(compiler.bind(&name("a")), 0);
    assert_eq!(compiler.bind(&name("b")), 1);
    assert_eq!(compiler.bind(&name("a")), 2);
    assert_eq!(compiler.lookup(&name("a")), Some(2));
    assert_eq!(compiler.lookup(&name("b")), Some(1));
    assert_eq!(compiler.create_entry_block_alloca(&name("t")), 3);
    assert_eq!(compiler.lookup(&name("t")), None);
    assert_eq!(
        compiler.compile_expr(&Expr::mul(var("a"), Expr::div(var("b"), Expr::IntLiteral(2)))),
        Ok(temp(0, 3))
    );
    assert_eq!(compiler.compile_stmt(&Stmt::Return(var("b"))), Ok(()));
    assert_eq!(compiler.append_basic_block(BlockKind::Merge), 1);
    compiler.set_cursor(1);
    assert_eq!(compiler.current_cursor(), 1);
    assert_eq!(compiler.emit(Instruction::Branch { target: 0 }), temp(1, 0));
    let built = compiler.function();
    assert_eq!(built.slots.len(), 4);
    assert_eq!(built.blocks[0].instructions.len(), 6);
    assert_eq!(built.blocks[1].instructions, vec![Instruction::Branch { target: 0 }]);
    // The function is not in the module before it is finished.
    assert!(compiler.module().functions.is_empty());
    compiler.reset();
    assert_eq!(compiler.get_function(&name("f")), None);
    assert!(compiler.into_module().functions.is_empty());
}

#[test]
fn a_failed_expression_keeps_what_it_emitted_before() {
    let mut compiler = Compiler::new(IrModule::new());
    compiler.make_prototype(&function("f", &[], vec![]));
    compiler.append_basic_block(BlockKind::Entry);
    compiler.bind(&name("a"));
    assert_eq!(
        compiler.compile_expr(&Expr::add(var("a"), var("nowhere"))),
        Err(CompileError::UnresolvedSymbol)
    );
    assert_eq!(compiler.function().blocks[0].instructions, vec![Instruction::Load { slot: 0 }]);
}
