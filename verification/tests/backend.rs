use ac_compiler::backend::{
    is_declared_for, label, plan, test_name, Backend, BuilderCall, EmitError, Emission,
};
use ac_compiler::code_generator::Compiler;
use ac_compiler::internal_representations::gast::{Expr, Function, Name, Operator, Program, Stmt};
use ac_compiler::ir::{Block, BlockKind, Instruction, IrModule, LoweredFunction, Value};
use ac_compiler::lowering::CompileError;
use ac_compiler::parser::{parse_program, Parser};
use inkwell::context::Context;
use inkwell::passes::PassManager;

fn source(code: &str) -> Program {
    parse_program(&Parser::new(code.to_string())).unwrap()
}

/// The LLVM text of the module after the first function of the program went
/// through the backend, and what the backend said.
fn through_llvm(program: &Program, optimize: bool) -> (String, Result<bool, EmitError>) {
    let context = Context::create();
    let module = context.create_module("main");
    let builder = context.create_builder();
    let fpm = PassManager::create(&module);
    if optimize {
        fpm.add_promote_memory_to_register_pass();
        fpm.add_instruction_combining_pass();
        fpm.add_cfg_simplification_pass();
    }
    fpm.initialize();
    let backend = Backend { context: &context, builder: &builder, fpm: &fpm, module: &module };
    let outcome = match backend.compile(program) {
        Ok(Emission::Verified(function)) => {
            assert!(function.verify(false));
            Ok(true)
        },
        Ok(Emission::Rejected(_)) => Ok(false),
        Err(err) => Err(err),
    };
    (module.print_to_string().to_string(), outcome)
}

#[test]
fn llvm_accepts_the_function_that_returns_forty_two() {
    let (text, outcome) = through_llvm(&source("fn main() { return 42; }"), false);
    assert_eq!(outcome, Ok(true));
    assert!(text.contains("define i64 @main()"), "{}", text);
    assert!(text.contains("ret i64 42"), "{}", text);
}

#[test]
fn llvm_accepts_parameters_and_arithmetic() {
    let (text, outcome) =
        through_llvm(&source("fn f(a, b) { return (a + b) * a - b / a; }"), false);
    assert_eq!(outcome, Ok(true));
    assert!(text.contains("define i64 @f(i64 %a, i64 %b)"), "{}", text);
    assert!(text.contains("alloca i64"), "{}", text);
    assert!(text.contains("sdiv i64"), "{}", text);
    assert!(text.contains("mul i64"), "{}", text);
}

#[test]
fn llvm_accepts_a_conditional_with_an_empty_else() {
    let code = "fn pick(c) { let x = 1; if c { x = 2; } return x; }";
    let (text, outcome) = through_llvm(&source(code), false);
    assert_eq!(outcome, Ok(true));
    assert!(text.contains("then:"), "{}", text);
    assert!(text.contains("else:"), "{}", text);
    assert!(text.contains("ifcont:"), "{}", text);
    assert!(text.contains("%ifcond = icmp ne i64"), "{}", text);
    assert!(!text.contains("loopcond"), "{}", text);
}

#[test]
fn llvm_accepts_a_loop_and_a_call_of_the_function_itself() {
    let code = "fn sum(n) { let t = 0; for (let i = 0; n - i; 0) { t = t + sum(i); i = i + 1; } return t; }";
    let (text, outcome) = through_llvm(&source(code), false);
    assert_eq!(outcome, Ok(true));
    assert!(text.contains("loop:"), "{}", text);
    assert!(text.contains("loopbody:"), "{}", text);
    assert!(text.contains("afterloop:"), "{}", text);
    assert!(text.contains("call i64 @sum(i64"), "{}", text);
    assert!(text.contains("%loopcond = icmp ne i64"), "{}", text);
    assert!(!text.contains("ifcond"), "{}", text);
}

#[test]
fn the_passes_run_on_a_function_that_llvm_accepts() {
    let code = "fn f(a) { let x = a; let y = x + 0; return y; }";
    let (plain, _) = through_llvm(&source(code), false);
    let (optimized, outcome) = through_llvm(&source(code), true);
    assert_eq!(outcome, Ok(true));
    assert!(plain.contains("alloca"), "{}", plain);
    assert!(!optimized.contains("alloca"), "{}", optimized);
    assert!(optimized.contains("ret i64 %a"), "{}", optimized);
}

#[test]
fn a_function_that_cannot_be_lowered_never_reaches_llvm() {
    let (text, outcome) = through_llvm(&source("fn f() { return nowhere; }"), false);
    assert_eq!(outcome, Err(EmitError::Lowering(CompileError::UnresolvedSymbol)));
    assert!(!text.contains("@f"), "{}", text);
    let (text, outcome) = through_llvm(&source("fn f() { return g(); }"), false);
    assert_eq!(outcome, Err(EmitError::Lowering(CompileError::UnknownFunction)));
    assert!(!text.contains("@f"), "{}", text);
    let (text, outcome) = through_llvm(&source("fn f(c) { if c { return 1; } return 0; }"), false);
    assert_eq!(outcome, Err(EmitError::Lowering(CompileError::VerificationFailure)));
    assert!(!text.contains("@f"), "{}", text);
}

#[test]
fn a_call_with_the_wrong_number_of_arguments_never_reaches_llvm() {
    let (text, outcome) = through_llvm(&source("fn f(a) { return f(1, 2); }"), false);
    assert_eq!(outcome, Err(EmitError::Malformed));
    assert!(!text.contains("@f"), "{}", text);
    let (_, outcome) = through_llvm(&source("fn f(a) { return f(a); }"), false);
    assert_eq!(outcome, Ok(true));
}

#[test]
fn a_function_that_is_not_in_order_never_reaches_llvm() {
    let context = Context::create();
    let module = context.create_module("main");
    let builder = context.create_builder();
    let fpm = PassManager::create(&module);
    fpm.initialize();
    let backend = Backend { context: &context, builder: &builder, fpm: &fpm, module: &module };
    let ir = IrModule {
        functions: vec![LoweredFunction {
            name: Name::new("broken".to_string()),
            params: vec![],
            slots: vec![],
            blocks: vec![Block {
                kind: BlockKind::Entry,
                instructions: vec![Instruction::Return { value: Value::Temp { block: 0, index: 3 } }],
            }],
        }],
    };
    let declared = backend.declare_all(&ir);
    assert_eq!(declared.len(), 1);
    assert!(is_declared_for(&ir, &declared));
    let before = module.print_to_string().to_string();
    assert!(matches!(backend.compile_function(&ir, 0, &declared), Err(EmitError::Malformed)));
    assert!(matches!(backend.compile_function(&ir, 1, &declared), Err(EmitError::Malformed)));
    assert_eq!(module.print_to_string().to_string(), before);
    assert!(before.contains("declare i64 @broken()"), "{}", before);
}

#[test]
fn llvm_rejects_a_function_whose_block_has_no_terminator() {
    let context = Context::create();
    let module = context.create_module("main");
    let builder = context.create_builder();
    let fpm = PassManager::create(&module);
    fpm.initialize();
    let backend = Backend { context: &context, builder: &builder, fpm: &fpm, module: &module };
    let ir = IrModule {
        functions: vec![LoweredFunction {
            name: Name::new("open".to_string()),
            params: vec![Name::new("p".to_string())],
            slots: vec![Name::new("s".to_string())],
            blocks: vec![Block {
                kind: BlockKind::Entry,
                instructions: vec![Instruction::Store { slot: 0, value: Value::Param(0) }],
            }],
        }],
    };
    let declared = backend.declare_all(&ir);
    assert!(is_declared_for(&ir, &declared));
    assert_eq!(declared[0].count_params(), 1);
    match backend.compile_function(&ir, 0, &declared) {
        Ok(Emission::Rejected(function)) => assert_eq!(function, declared[0].handle()),
        other => panic!("{:?}", other),
    }
}

#[test]
fn functions_of_one_module_can_call_each_other() {
    let mut ir = IrModule::new();
    let one = source("fn one() { return 1; }");
    let two = source("fn two(x) { return x + one(); }");
    assert_eq!(Compiler::compile(&mut ir, &one), Ok(0));
    assert_eq!(Compiler::compile(&mut ir, &two), Ok(1));
    let context = Context::create();
    let module = context.create_module("main");
    let builder = context.create_builder();
    let fpm = PassManager::create(&module);
    fpm.initialize();
    let backend = Backend { context: &context, builder: &builder, fpm: &fpm, module: &module };
    let declared = backend.declare_all(&ir);
    assert_eq!(declared.len(), 2);
    assert!(is_declared_for(&ir, &declared));
    assert!(matches!(backend.compile_function(&ir, 0, &declared), Ok(Emission::Verified(_))));
    assert!(matches!(backend.compile_function(&ir, 1, &declared), Ok(Emission::Verified(_))));
    let text = module.print_to_string().to_string();
    assert!(text.contains("call i64 @one()"), "{}", text);
    assert!(module.verify().is_ok());
}

#[test]
fn blocks_are_named_by_their_kind() {
    assert_eq!(label(BlockKind::Entry), "entry");
    assert_eq!(label(BlockKind::Then), "then");
    assert_eq!(label(BlockKind::Else), "else");
    assert_eq!(label(BlockKind::Merge), "ifcont");
    assert_eq!(label(BlockKind::LoopCondition), "loop");
    assert_eq!(label(BlockKind::LoopBody), "loopbody");
    assert_eq!(label(BlockKind::AfterLoop), "afterloop");
}

#[test]
fn a_program_built_by_hand_goes_through_too() {
    let program = Program {
        functions: vec![Function {
            name: Name::new("main".to_string()),
            args: vec![],
            body: vec![Stmt::Return(Expr::sub(Expr::IntLiteral(50), Expr::IntLiteral(8)))],
        }],
    };
    let (text, outcome) = through_llvm(&program, false);
    assert_eq!(outcome, Ok(true));
    // LLVM folds the constants while the function is built.
    assert!(text.contains("ret i64 42"), "{}", text);
}

#[test]
fn the_left_operand_stays_left_in_llvm() {
    let (text, outcome) = through_llvm(&source("fn f(a, b) { return a - b; }"), false);
    assert_eq!(outcome, Ok(true));
    let line = text.lines().find(|line| line.contains("sub i64")).expect("a subtraction");
    let left = line.find("%a").expect("the left operand");
    let right = line.find("%b").expect("the right operand");
    assert!(left < right, "{}", line);
    let (text, _) = through_llvm(&source("fn f(a, b) { return b / a; }"), false);
    let line = text.lines().find(|line| line.contains("sdiv i64")).expect("a division");
    assert!(line.find("%b").unwrap() < line.find("%a").unwrap(), "{}", line);
}

#[test]
fn every_block_that_branches_ends_in_llvm_too() {
    let code = "fn pick(c) { let x = 1; if c { x = 2; } return x; }";
    let (text, outcome) = through_llvm(&source(code), false);
    assert_eq!(outcome, Ok(true));
    assert!(text.contains("br i1 %ifcond, label %then, label %else"), "{}", text);
    assert_eq!(text.matches("br label %ifcont").count(), 2, "{}", text);
}

#[test]
fn an_instruction_stands_for_one_call_on_the_builder() {
    let context = Context::create();
    let ty = context.i64_type();
    let seven = ty.const_int(7, true);
    let nine = ty.const_int(9, true);
    let binary = |op| Instruction::Binary { op, lhs: Value::Const(7), rhs: Value::Const(9) };
    match plan(&binary(Operator::Sub), BlockKind::Entry, vec![seven, nine]) {
        BuilderCall::Sub { lhs, rhs } => assert_eq!((lhs, rhs), (seven, nine)),
        other => panic!("{:?}", other),
    }
    match plan(&binary(Operator::Add), BlockKind::Entry, vec![seven, nine]) {
        BuilderCall::Add { lhs, rhs } => assert_eq!((lhs, rhs), (seven, nine)),
        other => panic!("{:?}", other),
    }
    match plan(&binary(Operator::Mul), BlockKind::Entry, vec![nine, seven]) {
        BuilderCall::Mul { lhs, rhs } => assert_eq!((lhs, rhs), (nine, seven)),
        other => panic!("{:?}", other),
    }
    match plan(&binary(Operator::Div), BlockKind::Entry, vec![seven, nine]) {
        BuilderCall::SignedDiv { lhs, rhs } => assert_eq!((lhs, rhs), (seven, nine)),
        other => panic!("{:?}", other),
    }
    match plan(&Instruction::Load { slot: 4 }, BlockKind::Then, vec![]) {
        BuilderCall::Load { slot } => assert_eq!(slot, 4),
        other => panic!("{:?}", other),
    }
    match plan(&Instruction::Store { slot: 2, value: Value::Const(9) }, BlockKind::Then, vec![nine]) {
        BuilderCall::Store { slot, value } => assert_eq!((slot, value), (2, nine)),
        other => panic!("{:?}", other),
    }
    match plan(&Instruction::Return { value: Value::Const(7) }, BlockKind::Merge, vec![seven]) {
        BuilderCall::Return { value } => assert_eq!(value, seven),
        other => panic!("{:?}", other),
    }
    match plan(&Instruction::Branch { target: 5 }, BlockKind::Else, vec![]) {
        BuilderCall::Branch { target } => assert_eq!(target, 5),
        other => panic!("{:?}", other),
    }
    let branch = Instruction::CondBranch {
        cond: Value::Temp { block: 0, index: 0 },
        then_block: 1,
        else_block: 2,
    };
    match plan(&branch, BlockKind::Entry, vec![seven]) {
        BuilderCall::CondBranch { cond, then_block, else_block } => {
            assert_eq!((cond, then_block, else_block), (seven, 1, 2))
        },
        other => panic!("{:?}", other),
    }
    let call = Instruction::Call { callee: 3, args: vec![Value::Const(9), Value::Const(7)] };
    match plan(&call, BlockKind::LoopBody, vec![nine, seven]) {
        BuilderCall::Call { callee, args } => {
            assert_eq!(callee, 3);
            assert_eq!(args, vec![nine, seven]);
        },
        other => panic!("{:?}", other),
    }
}

#[test]
fn a_test_is_named_for_the_block_it_stands_in() {
    let context = Context::create();
    let seven = context.i64_type().const_int(7, true);
    let test = Instruction::IsNonZero { value: Value::Const(7) };
    match plan(&test, BlockKind::LoopCondition, vec![seven]) {
        BuilderCall::DiffersFromZero { value, in_loop } => assert_eq!((value, in_loop), (seven, true)),
        other => panic!("{:?}", other),
    }
    for kind in [BlockKind::Entry, BlockKind::Then, BlockKind::Else, BlockKind::Merge,
        BlockKind::LoopBody, BlockKind::AfterLoop] {
        match plan(&test, kind, vec![seven]) {
            BuilderCall::DiffersFromZero { value, in_loop } => {
                assert_eq!((value, in_loop), (seven, false))
            },
            other => panic!("{:?}", other),
        }
    }
    assert_eq!(test_name(true), "loopcond");
    assert_eq!(test_name(false), "ifcond");
}

#[test]
fn handles_are_declared_for_the_functions_at_their_indices() {
    let mut ir = IrModule::new();
    assert_eq!(Compiler::compile(&mut ir, &source("fn one() { return 1; }")), Ok(0));
    assert_eq!(Compiler::compile(&mut ir, &source("fn two(x, y) { return x + y; }")), Ok(1));
    let context = Context::create();
    let module = context.create_module("main");
    let builder = context.create_builder();
    let fpm = PassManager::create(&module);
    fpm.initialize();
    let backend = Backend { context: &context, builder: &builder, fpm: &fpm, module: &module };
    let declared = backend.declare_all(&ir);
    assert_eq!(declared[0].count_params(), 0);
    assert_eq!(declared[1].count_params(), 2);
    assert_eq!(declared[1].handle().count_params(), 2);
    assert!(is_declared_for(&ir, &declared));

    let mut other = IrModule::new();
    assert_eq!(Compiler::compile(&mut other, &source("fn one(a) { return a; }")), Ok(0));
    assert!(!is_declared_for(&other, &declared));
    assert_eq!(Compiler::compile(&mut other, &source("fn two(x, y) { return x; }")), Ok(1));
    assert!(!is_declared_for(&other, &declared));
    let single = backend.make_prototype(&other.functions[0]);
    assert_eq!(single.count_params(), 1);
    assert_eq!(single.handle().count_params(), 1);
}
