//! The way to the native code generator: a lowered function is replayed into
//! an LLVM module, instruction by instruction, verified by LLVM and handed to
//! the optimization passes.
//!
//! What LLVM holds cannot be stated here. What is proved: a function that is
//! not in order never reaches LLVM; one that is in order is replayed without
//! a step that could fail on the library's side; each instruction becomes the
//! call on the builder that `plan` gives for it, on the values of its
//! operands in their order; and a function that needs no value that only
//! LLVM can hand back is replayed in full.

use vstd::prelude::*;
use inkwell::basic_block::BasicBlock;
use inkwell::builder::Builder;
use inkwell::context::Context;
use inkwell::passes::PassManager;
use inkwell::types::{BasicMetadataTypeEnum, FunctionType, IntType};
use inkwell::values::{BasicMetadataValueEnum, BasicValueEnum, FunctionValue, IntValue, PointerValue};
use inkwell::IntPredicate;
use crate::code_generator::Compiler;
use crate::internal_representations::gast::{Operator, Program};
use crate::ir::{BlockKind, Instruction, LoweredFunction, Value};
use crate::lowering::{CompileError, CompilerView, lower_function};
use crate::operands::{
    ValueKind,
    arities_match,
    block_ok,
    handle_free,
    instruction_ok,
    is_well_formed,
    lemma_operands_ok,
    lemma_well_formed,
    operand_ok,
    operands_of,
    wanted_kind,
    well_formed,
};

verus! {

/// `inkwell::context::Context`: the owner of everything LLVM builds.
#[verifier::external_type_specification]
#[verifier::external_body]
pub struct ExContext(Context);

/// `inkwell::builder::Builder`: appends instructions where it is positioned.
#[verifier::external_type_specification]
#[verifier::external_body]
pub struct ExBuilder<'ctx>(Builder<'ctx>);

/// `inkwell::module::Module`: the LLVM module.
#[verifier::external_type_specification]
#[verifier::external_body]
pub struct ExModule<'ctx>(inkwell::module::Module<'ctx>);

/// `inkwell::passes::PassManager`: the optimization passes.
#[verifier::external_type_specification]
#[verifier::external_body]
#[verifier::reject_recursive_types(T)]
pub struct ExPassManager<T>(PassManager<T>);

/// `inkwell::basic_block::BasicBlock`: a block of an LLVM function.
#[verifier::external_type_specification]
#[verifier::external_body]
pub struct ExBasicBlock<'ctx>(BasicBlock<'ctx>);

/// `inkwell::values::FunctionValue`: a function of an LLVM module.
#[verifier::external_type_specification]
#[verifier::external_body]
pub struct ExFunctionValue<'ctx>(FunctionValue<'ctx>);

/// `inkwell::values::IntValue`: an integer value.
#[verifier::external_type_specification]
#[verifier::external_body]
pub struct ExIntValue<'ctx>(IntValue<'ctx>);

/// `inkwell::values::PointerValue`: the address of a stack slot.
#[verifier::external_type_specification]
#[verifier::external_body]
pub struct ExPointerValue<'ctx>(PointerValue<'ctx>);

/// `inkwell::values::BasicMetadataValueEnum`: an argument of a call.
#[verifier::external_type_specification]
#[verifier::external_body]
pub struct ExBasicMetadataValueEnum<'ctx>(BasicMetadataValueEnum<'ctx>);

/// `inkwell::types::IntType`: an integer type.
#[verifier::external_type_specification]
#[verifier::external_body]
pub struct ExIntType<'ctx>(IntType<'ctx>);

/// `inkwell::types::FunctionType`: the type of a function.
#[verifier::external_type_specification]
#[verifier::external_body]
pub struct ExFunctionType<'ctx>(FunctionType<'ctx>);

/// `inkwell::types::BasicMetadataTypeEnum`: the type of a parameter.
#[verifier::external_type_specification]
#[verifier::external_body]
pub struct ExBasicMetadataTypeEnum<'ctx>(BasicMetadataTypeEnum<'ctx>);

/// A function of an LLVM module that this library has declared: each of its
/// parameters and its result is a 64-bit integer. Only `Backend::make_prototype`
/// makes one.
#[derive(Debug)]
pub struct DeclaredFunction<'ctx> {
    value: FunctionValue<'ctx>,
    arity: usize,
}

impl<'ctx> View for DeclaredFunction<'ctx> {
    type V = FunctionValue<'ctx>;

    closed spec fn view(&self) -> FunctionValue<'ctx> {
        self.value
    }
}

impl<'ctx> DeclaredFunction<'ctx> {
    /// The number of parameters that the function was declared with.
    pub closed spec fn arity(&self) -> usize {
        self.arity
    }

    /// The number of parameters that the function was declared with.
    pub fn count_params(&self) -> (r: usize)
        ensures
            r == self.arity(),
    {
        self.arity
    }

    /// The handle of the function in LLVM.
    pub fn handle(&self) -> (r: FunctionValue<'ctx>)
        ensures
            r == self@,
    {
        self.value
    }
}

/// A stack slot that this library has allocated: it holds a 64-bit integer.
/// Only `Backend::emit_function` makes one.
struct Slot<'ctx> {
    pointer: PointerValue<'ctx>,
}

/// `Context::i64_type`: the 64-bit integer type. Nothing is claimed of it.
#[verifier::external_body]
fn i64_type<'ctx>(context: &'ctx Context) -> IntType<'ctx> {
    context.i64_type()
}

/// The conversion of `IntType` into `BasicMetadataTypeEnum`. Nothing is
/// claimed of it.
#[verifier::external_body]
fn parameter_type<'ctx>(ty: IntType<'ctx>) -> BasicMetadataTypeEnum<'ctx> {
    ty.into()
}

/// `IntType::fn_type`, without variable arguments: the type of a function
/// with the parameter types that returns `ty`. Nothing is claimed of it.
#[verifier::external_body]
fn function_type<'ctx>(ty: IntType<'ctx>, params: &Vec<BasicMetadataTypeEnum<'ctx>>) -> FunctionType<
    'ctx,
> {
    ty.fn_type(params, false)
}

/// `IntType::const_int`, sign-extended: the constant with the value. Nothing
/// is claimed of it.
#[verifier::external_body]
fn const_int<'ctx>(ty: IntType<'ctx>, value: i64) -> IntValue<'ctx> {
    ty.const_int(value as u64, true)
}

/// `Module::add_function`, with the default linkage. Nothing is claimed of
/// the function.
#[verifier::external_body]
fn add_function<'ctx>(
    module: &inkwell::module::Module<'ctx>,
    name: &str,
    ty: FunctionType<'ctx>,
) -> FunctionValue<'ctx> {
    module.add_function(name, ty, None)
}

/// `FunctionValue::get_nth_param`: the parameter at the index, or `None`
/// where the function has no such parameter. The outside function panics on
/// a parameter whose type is not a basic one, so the wrapper takes only a
/// function that this library declared, whose parameters are 64-bit
/// integers. The index must be below the largest 32-bit number, since the
/// outside function adds one to it.
#[verifier::external_body]
fn nth_param<'ctx>(function: &DeclaredFunction<'ctx>, index: u32) -> Option<IntValue<'ctx>>
    requires
        index < u32::MAX,
{
    match function.value.get_nth_param(index) {
        Some(BasicValueEnum::IntValue(value)) => Some(value),
        _ => None,
    }
}

/// `IntValue::set_name`.
#[verifier::external_body]
fn set_name<'ctx>(value: IntValue<'ctx>, name: &str) {
    value.set_name(name)
}

/// `Context::append_basic_block`. Nothing is claimed of the block.
#[verifier::external_body]
fn append_basic_block<'ctx>(
    context: &'ctx Context,
    function: FunctionValue<'ctx>,
    name: &str,
) -> BasicBlock<'ctx> {
    context.append_basic_block(function, name)
}

/// `Builder::position_at_end`.
#[verifier::external_body]
fn position_at_end<'ctx>(builder: &Builder<'ctx>, block: BasicBlock<'ctx>) {
    builder.position_at_end(block)
}

/// `Builder::build_alloca`. Nothing is claimed of the address.
#[verifier::external_body]
fn build_alloca<'ctx>(builder: &Builder<'ctx>, ty: IntType<'ctx>, name: &str) -> PointerValue<'ctx> {
    builder.build_alloca(ty, name)
}

/// `Builder::build_load`: the loaded value. The outside function panics on
/// a pointer to what is no basic type, so the wrapper takes only a slot that
/// this library allocated, which holds a 64-bit integer.
#[verifier::external_body]
fn build_load<'ctx>(builder: &Builder<'ctx>, slot: &Slot<'ctx>, name: &str) -> Option<
    IntValue<'ctx>,
> {
    match builder.build_load(slot.pointer, name) {
        BasicValueEnum::IntValue(value) => Some(value),
        _ => None,
    }
}

/// `Builder::build_store`.
#[verifier::external_body]
fn build_store<'ctx>(builder: &Builder<'ctx>, slot: &Slot<'ctx>, value: IntValue<'ctx>) {
    builder.build_store(slot.pointer, value);
}

/// `Builder::build_int_add`. Nothing is claimed of the sum.
#[verifier::external_body]
fn build_int_add<'ctx>(builder: &Builder<'ctx>, lhs: IntValue<'ctx>, rhs: IntValue<'ctx>) -> IntValue<
    'ctx,
> {
    builder.build_int_add(lhs, rhs, "addtmp")
}

/// `Builder::build_int_sub`. Nothing is claimed of the difference.
#[verifier::external_body]
fn build_int_sub<'ctx>(builder: &Builder<'ctx>, lhs: IntValue<'ctx>, rhs: IntValue<'ctx>) -> IntValue<
    'ctx,
> {
    builder.build_int_sub(lhs, rhs, "subtmp")
}

/// `Builder::build_int_mul`. Nothing is claimed of the product.
#[verifier::external_body]
fn build_int_mul<'ctx>(builder: &Builder<'ctx>, lhs: IntValue<'ctx>, rhs: IntValue<'ctx>) -> IntValue<
    'ctx,
> {
    builder.build_int_mul(lhs, rhs, "multmp")
}

/// `Builder::build_int_signed_div`. Nothing is claimed of the quotient.
#[verifier::external_body]
fn build_int_signed_div<'ctx>(
    builder: &Builder<'ctx>,
    lhs: IntValue<'ctx>,
    rhs: IntValue<'ctx>,
) -> IntValue<'ctx> {
    builder.build_int_signed_div(lhs, rhs, "divtmp")
}

/// `Builder::build_int_compare` with the predicate "not equal" and the name
/// for the outcome. Nothing is claimed of the outcome.
#[verifier::external_body]
fn build_int_differs<'ctx>(
    builder: &Builder<'ctx>,
    lhs: IntValue<'ctx>,
    rhs: IntValue<'ctx>,
    name: &str,
) -> IntValue<'ctx> {
    builder.build_int_compare(IntPredicate::NE, lhs, rhs, name)
}

/// The conversion of `IntValue` into `BasicMetadataValueEnum`. Nothing is
/// claimed of it.
#[verifier::external_body]
fn argument<'ctx>(value: IntValue<'ctx>) -> BasicMetadataValueEnum<'ctx> {
    value.into()
}

/// `Builder::build_call`, then `CallSiteValue::try_as_basic_value`: the
/// value of the call. The second outside function panics on a result whose
/// type is neither void nor a basic one, so the wrapper takes as callee only
/// a function that this library declared, whose result is a 64-bit integer.
/// LLVM expects one argument for each parameter of the callee, so the
/// wrapper takes as many as the function was declared with.
#[verifier::external_body]
fn build_call<'ctx>(
    builder: &Builder<'ctx>,
    callee: &DeclaredFunction<'ctx>,
    args: &Vec<BasicMetadataValueEnum<'ctx>>,
) -> Option<IntValue<'ctx>>
    requires
        args.len() == callee.arity(),
{
    match builder.build_call(callee.value, args, "tmp").try_as_basic_value().left() {
        Some(BasicValueEnum::IntValue(value)) => Some(value),
        _ => None,
    }
}

/// `Builder::build_return` of a value.
#[verifier::external_body]
fn build_return<'ctx>(builder: &Builder<'ctx>, value: IntValue<'ctx>) {
    builder.build_return(Some(&value));
}

/// `Builder::build_unconditional_branch`.
#[verifier::external_body]
fn build_unconditional_branch<'ctx>(builder: &Builder<'ctx>, target: BasicBlock<'ctx>) {
    builder.build_unconditional_branch(target);
}

/// `Builder::build_conditional_branch`.
#[verifier::external_body]
fn build_conditional_branch<'ctx>(
    builder: &Builder<'ctx>,
    cond: IntValue<'ctx>,
    then_block: BasicBlock<'ctx>,
    else_block: BasicBlock<'ctx>,
) {
    builder.build_conditional_branch(cond, then_block, else_block);
}

/// `FunctionValue::verify`, printing what it finds: whether LLVM accepts the
/// function. Nothing is claimed of the answer.
#[verifier::external_body]
fn verify<'ctx>(function: FunctionValue<'ctx>) -> bool {
    function.verify(true)
}

/// `PassManager::run_on`: runs the passes on the function and says whether
/// one of them changed it. Nothing is claimed of the answer.
#[verifier::external_body]
fn run_passes<'ctx>(passes: &PassManager<FunctionValue<'ctx>>, function: FunctionValue<'ctx>) -> bool {
    passes.run_on(&function)
}

/// The name that a block of the kind gets in LLVM.
pub fn label(kind: BlockKind) -> (r: &'static str)
    ensures
        r@ == label_of(kind),
{
    match kind {
        BlockKind::Entry => "entry",
        BlockKind::Then => "then",
        BlockKind::Else => "else",
        BlockKind::Merge => "ifcont",
        BlockKind::LoopCondition => "loop",
        BlockKind::LoopBody => "loopbody",
        BlockKind::AfterLoop => "afterloop",
    }
}

/// The name that a block of the kind gets in LLVM.
pub open spec fn label_of(kind: BlockKind) -> Seq<char> {
    match kind {
        BlockKind::Entry => "entry"@,
        BlockKind::Then => "then"@,
        BlockKind::Else => "else"@,
        BlockKind::Merge => "ifcont"@,
        BlockKind::LoopCondition => "loop"@,
        BlockKind::LoopBody => "loopbody"@,
        BlockKind::AfterLoop => "afterloop"@,
    }
}

/// Why a function did not become an LLVM function.
#[derive(Debug, Clone, Copy, PartialEq, Eq, Structural)]
pub enum EmitError {
    /// The function cannot be lowered; the reason is inside.
    Lowering(CompileError),
    /// The function is not in order, and nothing of it was handed to LLVM.
    Malformed,
    /// LLVM handed back no integer where a value was due.
    Refused,
}

/// What came of a function that was replayed into LLVM.
#[derive(Debug)]
pub enum Emission<'ctx> {
    /// LLVM accepted the function, and the passes have run on it.
    Verified(FunctionValue<'ctx>),
    /// LLVM rejected the function. It is still in the LLVM module: whoever
    /// holds the module removes it.
    Rejected(FunctionValue<'ctx>),
}

/// What to make of LLVM's answer: a function that LLVM accepts is verified,
/// any other is rejected.
pub fn judge<'ctx>(function: FunctionValue<'ctx>, accepted: bool) -> (r: Emission<'ctx>)
    ensures
        accepted ==> r == Emission::Verified(function),
        !accepted ==> r == Emission::Rejected(function),
{
    if accepted {
        Emission::Verified(function)
    } else {
        Emission::Rejected(function)
    }
}

/// The values of one block: for each instruction that was replayed, the
/// value that it defines, if it defines one.
pub open spec fn row_filled<'ctx>(
    f: crate::ir::LoweredFunctionView,
    block: int,
    row: Seq<Option<IntValue<'ctx>>>,
) -> bool {
    &&& row.len() <= f.blocks[block].instructions.len()
    &&& forall|i: int|
        0 <= i < row.len() ==> (#[trigger] row[i] is Some
            <==> f.blocks[block].instructions[i].defines() is Some)
}

/// The values of the first blocks: every block is replayed in full.
pub open spec fn table_filled<'ctx>(
    f: crate::ir::LoweredFunctionView,
    table: Seq<Vec<Option<IntValue<'ctx>>>>,
) -> bool {
    &&& table.len() <= f.blocks.len()
    &&& forall|b: int|
        0 <= b < table.len() ==> (#[trigger] table[b])@.len() == f.blocks[b].instructions.len()
            && row_filled(f, b, table[b]@)
}

/// The value that is held for the instruction at `index` of block `block`:
/// in the row of the block that is being replayed, or in the row of an
/// earlier block.
pub open spec fn held<'ctx>(
    table: Seq<Vec<Option<IntValue<'ctx>>>>,
    row: Seq<Option<IntValue<'ctx>>>,
    block: usize,
    index: usize,
) -> Option<IntValue<'ctx>> {
    if block == table.len() {
        row[index as int]
    } else {
        table[block as int]@[index as int]
    }
}

/// Each handle was declared for the function at its index: there is one for
/// each function of the module, with as many parameters as the function has.
pub open spec fn declared_for<'ctx>(
    module: Seq<crate::ir::LoweredFunctionView>,
    declared: Seq<DeclaredFunction<'ctx>>,
) -> bool {
    &&& declared.len() == module.len()
    &&& forall|i: int|
        0 <= i < module.len() ==> (#[trigger] declared[i]).arity() == module[i].params.len()
}

/// Whether each handle was declared for the function at its index.
pub fn is_declared_for<'ctx>(
    module: &crate::ir::IrModule,
    declared: &Vec<DeclaredFunction<'ctx>>,
) -> (r: bool)
    ensures
        r == declared_for(module@, declared@),
{
    if declared.len() != module.functions.len() {
        return false;
    }
    let mut i: usize = 0;
    while i < declared.len()
        invariant
            i <= declared.len(),
            declared.len() == module.functions.len(),
            forall|j: int| 0 <= j < i ==> (#[trigger] declared[j]).arity() == module@[j].params.len(),
        decreases declared.len() - i,
    {
        assert(module@[i as int] == module.functions[i as int]@);
        if declared[i].count_params() != module.functions[i].params.len() {
            return false;
        }
        i += 1;
    }
    true
}

/// One call on the builder: what an instruction becomes in LLVM.
#[derive(Debug)]
pub enum BuilderCall<'ctx> {
    /// `build_load` from the slot.
    Load { slot: usize },
    /// `build_store` of the value to the slot.
    Store { slot: usize, value: IntValue<'ctx> },
    /// `build_int_add`.
    Add { lhs: IntValue<'ctx>, rhs: IntValue<'ctx> },
    /// `build_int_sub`.
    Sub { lhs: IntValue<'ctx>, rhs: IntValue<'ctx> },
    /// `build_int_mul`.
    Mul { lhs: IntValue<'ctx>, rhs: IntValue<'ctx> },
    /// `build_int_signed_div`.
    SignedDiv { lhs: IntValue<'ctx>, rhs: IntValue<'ctx> },
    /// `build_int_compare`, "not equal", of the value and the constant zero;
    /// the outcome is named for a loop or for a conditional.
    DiffersFromZero { value: IntValue<'ctx>, in_loop: bool },
    /// `build_call` of the declared function at the index.
    Call { callee: usize, args: Vec<IntValue<'ctx>> },
    /// `build_return` of the value.
    Return { value: IntValue<'ctx> },
    /// `build_unconditional_branch` to the block.
    Branch { target: usize },
    /// `build_conditional_branch` on the flag.
    CondBranch { cond: IntValue<'ctx>, then_block: usize, else_block: usize },
}

/// Whether the call is the one that the instruction stands for, where the
/// instruction stands in a block of the kind and `values` are the values of
/// its operands in their order. Operands keep their places: the left one
/// stays left.
pub open spec fn stands_for<'ctx>(
    call: BuilderCall<'ctx>,
    instruction: crate::ir::InstructionView,
    kind: BlockKind,
    values: Seq<IntValue<'ctx>>,
) -> bool {
    match instruction {
        crate::ir::InstructionView::Load { slot } => call == (BuilderCall::Load { slot }),
        crate::ir::InstructionView::Store { slot, value } => call == (BuilderCall::Store {
            slot,
            value: values[0],
        }),
        crate::ir::InstructionView::Binary { op, lhs, rhs } => match op {
            Operator::Add => call == (BuilderCall::Add { lhs: values[0], rhs: values[1] }),
            Operator::Sub => call == (BuilderCall::Sub { lhs: values[0], rhs: values[1] }),
            Operator::Mul => call == (BuilderCall::Mul { lhs: values[0], rhs: values[1] }),
            Operator::Div => call == (BuilderCall::SignedDiv { lhs: values[0], rhs: values[1] }),
        },
        crate::ir::InstructionView::IsNonZero { value } => call == (BuilderCall::DiffersFromZero {
            value: values[0],
            in_loop: kind == BlockKind::LoopCondition,
        }),
        crate::ir::InstructionView::Call { callee, args } => call matches BuilderCall::Call {
            callee: called,
            args: passed,
        } && called == callee && passed@ == values,
        crate::ir::InstructionView::Return { value } => call == (BuilderCall::Return {
            value: values[0],
        }),
        crate::ir::InstructionView::Branch { target } => call == (BuilderCall::Branch {
            target,
        }),
        crate::ir::InstructionView::CondBranch { cond, then_block, else_block } => call == (
        BuilderCall::CondBranch { cond: values[0], then_block, else_block }),
    }
}

/// The call that the instruction stands for.
pub fn plan<'ctx>(instruction: &Instruction, kind: BlockKind, values: Vec<IntValue<'ctx>>) -> (r:
    BuilderCall<'ctx>)
    requires
        values.len() == operands_of(instruction@).len(),
    ensures
        stands_for(r, instruction@, kind, values@),
{
    match instruction {
        Instruction::Load { slot } => BuilderCall::Load { slot: *slot },
        Instruction::Store { slot, .. } => BuilderCall::Store { slot: *slot, value: values[0] },
        Instruction::Binary { op, .. } => match op {
            Operator::Add => BuilderCall::Add { lhs: values[0], rhs: values[1] },
            Operator::Sub => BuilderCall::Sub { lhs: values[0], rhs: values[1] },
            Operator::Mul => BuilderCall::Mul { lhs: values[0], rhs: values[1] },
            Operator::Div => BuilderCall::SignedDiv { lhs: values[0], rhs: values[1] },
        },
        Instruction::IsNonZero { .. } => BuilderCall::DiffersFromZero {
            value: values[0],
            in_loop: kind == BlockKind::LoopCondition,
        },
        Instruction::Call { callee, .. } => BuilderCall::Call { callee: *callee, args: values },
        Instruction::Return { .. } => BuilderCall::Return { value: values[0] },
        Instruction::Branch { target } => BuilderCall::Branch { target: *target },
        Instruction::CondBranch { then_block, else_block, .. } => BuilderCall::CondBranch {
            cond: values[0],
            then_block: *then_block,
            else_block: *else_block,
        },
    }
}

/// Whether the call names only what there is: a slot among the slots, a
/// block among the blocks, a declared function among those declared, with as
/// many arguments as it was declared with.
pub open spec fn performable<'ctx>(
    call: BuilderCall<'ctx>,
    slots: int,
    blocks: int,
    declared: Seq<DeclaredFunction<'ctx>>,
) -> bool {
    match call {
        BuilderCall::Load { slot } => slot < slots,
        BuilderCall::Store { slot, value } => slot < slots,
        BuilderCall::Call { callee, args } => callee < declared.len() && args@.len()
            == declared[callee as int].arity(),
        BuilderCall::Branch { target } => target < blocks,
        BuilderCall::CondBranch { cond, then_block, else_block } => then_block < blocks
            && else_block < blocks,
        _ => true,
    }
}

/// Whether the call gives a value: a load, an operation, a test or a call
/// of a function.
pub open spec fn gives_value<'ctx>(call: BuilderCall<'ctx>) -> bool {
    call is Load || call is Add || call is Sub || call is Mul || call is SignedDiv
        || call is DiffersFromZero || call is Call
}

/// The name that the outcome of a test gets in LLVM.
pub fn test_name(in_loop: bool) -> (r: &'static str)
    ensures
        r@ == (if in_loop {
            "loopcond"@
        } else {
            "ifcond"@
        }),
{
    if in_loop {
        "loopcond"
    } else {
        "ifcond"
    }
}

/// The handles of LLVM that a function is replayed with.
pub struct Backend<'a, 'ctx> {
    pub context: &'ctx Context,
    pub builder: &'a Builder<'ctx>,
    pub fpm: &'a PassManager<FunctionValue<'ctx>>,
    pub module: &'a inkwell::module::Module<'ctx>,
}

impl<'a, 'ctx> Backend<'a, 'ctx> {
    /// Declares the function in the LLVM module, with as many scalar
    /// parameters as it has, named like them, and a scalar result.
    pub fn make_prototype(&self, function: &LoweredFunction) -> (r: DeclaredFunction<'ctx>)
        requires
            function.params.len() < u32::MAX,
        ensures
            r.arity() == function.params.len(),
    {
        let ty = i64_type(self.context);
        let mut params: Vec<BasicMetadataTypeEnum<'ctx>> = Vec::new();
        let mut i: usize = 0;
        while i < function.params.len()
            invariant
                i <= function.params.len(),
                params.len() == i,
            decreases function.params.len() - i,
        {
            params.push(parameter_type(ty));
            i += 1;
        }
        let declared = DeclaredFunction {
            value: add_function(
                self.module,
                function.name.name.as_str(),
                function_type(ty, &params),
            ),
            arity: params.len(),
        };
        let mut i: usize = 0;
        while i < function.params.len()
            invariant
                i <= function.params.len(),
                function.params.len() < u32::MAX,
            decreases function.params.len() - i,
        {
            match nth_param(&declared, i as u32) {
                Some(param) => set_name(param, function.params[i].name.as_str()),
                None => {},
            }
            i += 1;
        }
        declared
    }

    /// Declares every function of the module in the LLVM module, in order:
    /// each handle is declared for the function at its index. A function
    /// with too many parameters for a 32-bit count stops the declaring: then
    /// fewer handles than functions come back.
    pub fn declare_all(&self, module: &crate::ir::IrModule) -> (r: Vec<DeclaredFunction<'ctx>>)
        ensures
            r.len() <= module.functions.len(),
            forall|i: int| 0 <= i < r.len() ==> (#[trigger] r[i]).arity() == module@[i].params.len(),
            (forall|i: int|
                0 <= i < module.functions.len() ==> (#[trigger] module.functions[i]).params.len()
                    < u32::MAX) ==> declared_for(module@, r@),
    {
        let mut declared: Vec<DeclaredFunction<'ctx>> = Vec::new();
        let mut i: usize = 0;
        while i < module.functions.len()
            invariant
                i <= module.functions.len(),
                declared.len() == i,
                forall|j: int|
                    0 <= j < i ==> (#[trigger] declared[j]).arity() == module@[j].params.len(),
            decreases module.functions.len() - i,
        {
            if module.functions[i].params.len() >= u32::MAX as usize {
                return declared;
            }
            assert(module@[i as int] == module.functions[i as int]@);
            declared.push(self.make_prototype(&module.functions[i]));
            i += 1;
        }
        declared
    }

    /// The LLVM value of an operand. A constant is made anew and a
    /// parameter is asked of the function, which may hand back none. The
    /// result of an instruction is the value that is held for the
    /// instruction. An operand that is in order has one there.
    fn operand(
        &self,
        function: &DeclaredFunction<'ctx>,
        f: &LoweredFunction,
        table: &Vec<Vec<Option<IntValue<'ctx>>>>,
        row: &Vec<Option<IntValue<'ctx>>>,
        value: Value,
        kind: Ghost<ValueKind>,
    ) -> (r: Option<IntValue<'ctx>>)
        requires
            table.len() < f.blocks.len(),
            table_filled(f@, table@),
            row_filled(f@, table.len() as int, row@),
            f.params.len() < u32::MAX,
            operand_ok(f@, table.len() as int, row.len() as int, value, kind@),
        ensures
            value is Const ==> r is Some,
            value matches Value::Temp { block, index } ==> r is Some && r == held(
                table@,
                row@,
                block,
                index,
            ),
    {
        match value {
            Value::Const(n) => Some(const_int(i64_type(self.context), n)),
            Value::Param(p) => nth_param(function, p as u32),
            Value::Temp { block, index } => {
                if block == table.len() {
                    row[index]
                } else {
                    assert(table@[block as int]@.len() == f@.blocks[block as int].instructions.len());
                    table[block][index]
                }
            },
        }
    }

    /// The LLVM values of the operands of an instruction, in their order.
    /// Fails only where the function hands back no value for a parameter.
    fn operand_values(
        &self,
        function: &DeclaredFunction<'ctx>,
        f: &LoweredFunction,
        table: &Vec<Vec<Option<IntValue<'ctx>>>>,
        row: &Vec<Option<IntValue<'ctx>>>,
        instruction: &Instruction,
    ) -> (r: Result<Vec<IntValue<'ctx>>, EmitError>)
        requires
            table.len() < f.blocks.len(),
            table_filled(f@, table@),
            row_filled(f@, table.len() as int, row@),
            f.params.len() < u32::MAX,
            forall|k: int|
                0 <= k < operands_of(instruction@).len() ==> operand_ok(
                    f@,
                    table.len() as int,
                    row.len() as int,
                    #[trigger] operands_of(instruction@)[k],
                    wanted_kind(instruction@),
                ),
        ensures
            r matches Err(err) ==> err == EmitError::Refused,
            r matches Ok(values) ==> values@.len() == operands_of(instruction@).len() && forall|
                k: int,
            |
                0 <= k < values@.len() ==> (operands_of(instruction@)[k] matches Value::Temp {
                    block,
                    index,
                } ==> Some(#[trigger] values@[k]) == held(table@, row@, block, index)),
            (forall|k: int|
                0 <= k < operands_of(instruction@).len() ==> !(#[trigger] operands_of(
                    instruction@,
                )[k] is Param)) ==> r is Ok,
    {
        let wanted = instruction.operands();
        let mut values: Vec<IntValue<'ctx>> = Vec::new();
        let mut k: usize = 0;
        while k < wanted.len()
            invariant
                k <= wanted.len(),
                values.len() == k,
                wanted@ == operands_of(instruction@),
                table.len() < f.blocks.len(),
                table_filled(f@, table@),
                row_filled(f@, table.len() as int, row@),
                f.params.len() < u32::MAX,
                forall|j: int|
                    0 <= j < wanted@.len() ==> operand_ok(
                        f@,
                        table.len() as int,
                        row.len() as int,
                        #[trigger] wanted@[j],
                        wanted_kind(instruction@),
                    ),
                forall|j: int|
                    0 <= j < k ==> (wanted@[j] matches Value::Temp { block, index } ==> Some(
                        #[trigger] values@[j],
                    ) == held(table@, row@, block, index)),
            decreases wanted.len() - k,
        {
            assert(operand_ok(
                f@,
                table.len() as int,
                row.len() as int,
                wanted@[k as int],
                wanted_kind(instruction@),
            ));
            match self.operand(function, f, table, row, wanted[k], Ghost(wanted_kind(instruction@))) {
                Some(value) => {
                    values.push(value);
                },
                None => {
                    assert(wanted@[k as int] is Param);
                    return Err(EmitError::Refused);
                },
            }
            k += 1;
        }
        Ok(values)
    }

    /// Makes the call on the builder, which stands where the instruction
    /// belongs, and gives the value that the call defines. A load and a call
    /// of a function fail where LLVM hands back no integer; nothing else
    /// fails.
    fn perform(
        &self,
        call: &BuilderCall<'ctx>,
        f: &LoweredFunction,
        declared: &Vec<DeclaredFunction<'ctx>>,
        blocks: &Vec<BasicBlock<'ctx>>,
        slots: &Vec<Slot<'ctx>>,
    ) -> (r: Result<Option<IntValue<'ctx>>, EmitError>)
        requires
            performable(*call, slots.len() as int, blocks.len() as int, declared@),
            slots.len() == f.slots.len(),
        ensures
            r matches Err(err) ==> err == EmitError::Refused && (*call is Load || *call is Call),
            r matches Ok(value) ==> (value is Some <==> gives_value(*call)),
    {
        let builder = self.builder;
        match call {
            BuilderCall::Load { slot } => {
                match build_load(builder, &slots[*slot], f.slots[*slot].name.as_str()) {
                    Some(value) => Ok(Some(value)),
                    None => Err(EmitError::Refused),
                }
            },
            BuilderCall::Store { slot, value } => {
                build_store(builder, &slots[*slot], *value);
                Ok(None)
            },
            BuilderCall::Add { lhs, rhs } => Ok(Some(build_int_add(builder, *lhs, *rhs))),
            BuilderCall::Sub { lhs, rhs } => Ok(Some(build_int_sub(builder, *lhs, *rhs))),
            BuilderCall::Mul { lhs, rhs } => Ok(Some(build_int_mul(builder, *lhs, *rhs))),
            BuilderCall::SignedDiv { lhs, rhs } => Ok(
                Some(build_int_signed_div(builder, *lhs, *rhs)),
            ),
            BuilderCall::DiffersFromZero { value, in_loop } => {
                let zero = const_int(i64_type(self.context), 0);
                Ok(Some(build_int_differs(builder, *value, zero, test_name(*in_loop))))
            },
            BuilderCall::Call { callee, args } => {
                let mut passed: Vec<BasicMetadataValueEnum<'ctx>> = Vec::new();
                let mut k: usize = 0;
                while k < args.len()
                    invariant
                        k <= args.len(),
                        passed.len() == k,
                    decreases args.len() - k,
                {
                    passed.push(argument(args[k]));
                    k += 1;
                }
                match build_call(builder, &declared[*callee], &passed) {
                    Some(value) => Ok(Some(value)),
                    None => Err(EmitError::Refused),
                }
            },
            BuilderCall::Return { value } => {
                build_return(builder, *value);
                Ok(None)
            },
            BuilderCall::Branch { target } => {
                build_unconditional_branch(builder, blocks[*target]);
                Ok(None)
            },
            BuilderCall::CondBranch { cond, then_block, else_block } => {
                build_conditional_branch(builder, *cond, blocks[*then_block], blocks[*else_block]);
                Ok(None)
            },
        }
    }

    /// Replays the body of a declared function into LLVM: its blocks, its
    /// stack slots at the head of the entry block, and every instruction as
    /// the call that it stands for. Fails only where LLVM hands back no
    /// value where one is due; a function that needs no such value is
    /// replayed in full.
    pub fn emit_function(
        &self,
        module: &crate::ir::IrModule,
        index: usize,
        declared: &Vec<DeclaredFunction<'ctx>>,
    ) -> (r: Result<FunctionValue<'ctx>, EmitError>)
        requires
            well_formed(module@, index as int),
            declared_for(module@, declared@),
        ensures
            r matches Err(err) ==> err == EmitError::Refused,
            r matches Ok(function) ==> function == declared[index as int]@,
            handle_free(module@[index as int]) ==> r is Ok,
    {
        let f = &module.functions[index];
        assert(module@[index as int] == f@);
        let function = &declared[index];
        let ty = i64_type(self.context);
        let mut blocks: Vec<BasicBlock<'ctx>> = Vec::new();
        let mut b: usize = 0;
        while b < f.blocks.len()
            invariant
                b <= f.blocks.len(),
                blocks.len() == b,
            decreases f.blocks.len() - b,
        {
            blocks.push(
                append_basic_block(self.context, function.handle(), label(f.blocks[b].kind)),
            );
            b += 1;
        }
        position_at_end(self.builder, blocks[0]);
        let mut slots: Vec<Slot<'ctx>> = Vec::new();
        let mut s: usize = 0;
        while s < f.slots.len()
            invariant
                s <= f.slots.len(),
                slots.len() == s,
            decreases f.slots.len() - s,
        {
            slots.push(Slot { pointer: build_alloca(self.builder, ty, f.slots[s].name.as_str()) });
            s += 1;
        }
        let mut table: Vec<Vec<Option<IntValue<'ctx>>>> = Vec::new();
        let mut b: usize = 0;
        while b < f.blocks.len()
            invariant
                b <= f.blocks.len(),
                table.len() == b,
                table_filled(f@, table@),
                blocks.len() == f.blocks.len(),
                slots.len() == f.slots.len(),
                declared_for(module@, declared@),
                module@[index as int] == f@,
                well_formed(module@, index as int),
                function == declared[index as int],
            decreases f.blocks.len() - b,
        {
            position_at_end(self.builder, blocks[b]);
            match self.emit_block(module, f, function, declared, &blocks, &slots, &table) {
                Ok(row) => {
                    table.push(row);
                },
                Err(err) => {
                    return Err(err);
                },
            }
            b += 1;
        }
        Ok(function.handle())
    }

    /// Replays the instructions of the next block, where the builder stands:
    /// each as the call that it stands for, on the values of its operands.
    fn emit_block(
        &self,
        module: &crate::ir::IrModule,
        f: &LoweredFunction,
        function: &DeclaredFunction<'ctx>,
        declared: &Vec<DeclaredFunction<'ctx>>,
        blocks: &Vec<BasicBlock<'ctx>>,
        slots: &Vec<Slot<'ctx>>,
        table: &Vec<Vec<Option<IntValue<'ctx>>>>,
    ) -> (r: Result<Vec<Option<IntValue<'ctx>>>, EmitError>)
        requires
            table.len() < f.blocks.len(),
            table_filled(f@, table@),
            blocks.len() == f.blocks.len(),
            slots.len() == f.slots.len(),
            declared_for(module@, declared@),
            f.params.len() < u32::MAX,
            block_ok(
                module@,
                f@,
                table.len() as int,
                f@.blocks[table.len() as int].instructions.len() as int,
            ),
        ensures
            r matches Err(err) ==> err == EmitError::Refused,
            r matches Ok(row) ==> row@.len() == f@.blocks[table.len() as int].instructions.len()
                && row_filled(f@, table.len() as int, row@),
            handle_free(f@) ==> r is Ok,
    {
        let b = table.len();
        let instructions = &f.blocks[b].instructions;
        let kind = f.blocks[b].kind;
        let mut row: Vec<Option<IntValue<'ctx>>> = Vec::new();
        let mut i: usize = 0;
        while i < instructions.len()
            invariant
                i <= instructions.len(),
                row.len() == i,
                b == table.len(),
                b < f.blocks.len(),
                instructions == f.blocks[b as int].instructions,
                row_filled(f@, b as int, row@),
                table_filled(f@, table@),
                blocks.len() == f.blocks.len(),
                slots.len() == f.slots.len(),
                declared_for(module@, declared@),
                f.params.len() < u32::MAX,
                block_ok(module@, f@, b as int, instructions.len() as int),
            decreases instructions.len() - i,
        {
            let instruction = &instructions[i];
            proof {
                assert(f@.blocks[b as int].instructions[i as int] == instruction@);
                assert(instruction_ok(module@, f@, b as int, i as int));
                lemma_operands_ok(module@, f@, b as int, i as int);
            }
            let values = match self.operand_values(function, f, table, &row, instruction) {
                Ok(values) => values,
                Err(err) => {
                    return Err(err);
                },
            };
            let call = plan(instruction, kind, values);
            let produced = match self.perform(&call, f, declared, blocks, slots) {
                Ok(produced) => produced,
                Err(err) => {
                    return Err(err);
                },
            };
            row.push(produced);
            i += 1;
        }
        Ok(row)
    }

    /// Replays the function at `index` of the module into LLVM, has LLVM
    /// verify it and, where LLVM accepts it, runs the passes on it.
    ///
    /// A function that is not in order is refused before anything of it
    /// reaches LLVM. A function that is in order and needs no value that
    /// only LLVM can give is replayed in full; whether LLVM accepts it is
    /// LLVM's to say.
    pub fn compile_function(
        &self,
        module: &crate::ir::IrModule,
        index: usize,
        declared: &Vec<DeclaredFunction<'ctx>>,
    ) -> (r: Result<Emission<'ctx>, EmitError>)
        requires
            declared_for(module@, declared@),
        ensures
            !well_formed(module@, index as int) ==> r == Err::<Emission<'ctx>, EmitError>(
                EmitError::Malformed,
            ),
            well_formed(module@, index as int) ==> match r {
                Ok(Emission::Verified(function)) => function == declared[index as int]@,
                Ok(Emission::Rejected(function)) => function == declared[index as int]@,
                Err(err) => err == EmitError::Refused,
            },
            well_formed(module@, index as int) && handle_free(module@[index as int]) ==> r is Ok,
    {
        if !is_well_formed(module, index) {
            return Err(EmitError::Malformed);
        }
        match self.emit_function(module, index, declared) {
            Ok(function) => {
                let accepted = verify(function);
                if accepted {
                    run_passes(self.fpm, function);
                }
                Ok(judge(function, accepted))
            },
            Err(err) => Err(err),
        }
    }

    /// Compiles the first function of the program: lowers it, and replays
    /// the lowered function into LLVM.
    ///
    /// A program whose first function cannot be lowered, or fails structural
    /// verification, leaves LLVM untouched. So does one in which a call does
    /// not pass as many arguments as its callee has parameters, or whose
    /// function has more parameters than a 32-bit count can number: it is
    /// refused as malformed. No other function that was lowered is, and one
    /// that needs no value that only LLVM can give is replayed in full.
    pub fn compile(&self, program: &Program) -> (r: Result<Emission<'ctx>, EmitError>)
        requires
            program.functions.len() > 0,
        ensures
            match lower_function(CompilerView::idle(Seq::empty()), program.functions[0]@) {
                (_, Err(err)) => r == Err::<Emission<'ctx>, EmitError>(EmitError::Lowering(err)),
                (lowered, Ok(index)) => {
                    &&& !(r matches Err(EmitError::Lowering(_)))
                    &&& (r == Err::<Emission<'ctx>, EmitError>(EmitError::Malformed)) <==> !(
                    arities_match(lowered.module, index as int)
                        && lowered.module[index as int].params.len() < u32::MAX)
                    &&& arities_match(lowered.module, index as int)
                        && lowered.module[index as int].params.len() < u32::MAX && handle_free(
                        lowered.module[index as int],
                    ) ==> r is Ok
                },
            },
    {
        let mut module = crate::ir::IrModule::new();
        match Compiler::compile(&mut module, program) {
            Err(err) => Err(EmitError::Lowering(err)),
            Ok(index) => {
                proof {
                    lemma_well_formed(module@, index as int);
                    assert(module@[index as int] == module.functions[index as int]@);
                }
                if !is_well_formed(&module, index) {
                    return Err(EmitError::Malformed);
                }
                let declared = self.declare_all(&module);
                if declared.len() != module.functions.len() {
                    return Err(EmitError::Malformed);
                }
                self.compile_function(&module, index, &declared)
            },
        }
    }
}

} // verus!
