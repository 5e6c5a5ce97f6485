//! What a code generator may rely on in a function of the module: every
//! operand is defined before it is used and has the kind that its use asks
//! for, and every slot, parameter, block and callee that is named exists.

use vstd::prelude::*;
use crate::ir::{
    Instruction,
    InstructionView,
    LoweredFunction,
    LoweredFunctionView,
    IrModule,
    Value,
};

verus! {

/// What a value is: a 64-bit scalar, or the outcome of a test.
#[derive(Debug, Clone, Copy, PartialEq, Eq, Structural)]
pub enum ValueKind {
    Scalar,
    Flag,
}

impl InstructionView {
    /// The kind of the value that the instruction defines, if it defines one.
    pub open spec fn defines(self) -> Option<ValueKind> {
        match self {
            InstructionView::Load { .. } => Some(ValueKind::Scalar),
            InstructionView::Binary { .. } => Some(ValueKind::Scalar),
            InstructionView::Call { .. } => Some(ValueKind::Scalar),
            InstructionView::IsNonZero { .. } => Some(ValueKind::Flag),
            _ => None,
        }
    }
}

impl Instruction {
    /// The kind of the value that the instruction defines, if it defines one.
    pub fn defines(&self) -> (r: Option<ValueKind>)
        ensures
            r == self@.defines(),
    {
        match self {
            Instruction::Load { .. } => Some(ValueKind::Scalar),
            Instruction::Binary { .. } => Some(ValueKind::Scalar),
            Instruction::Call { .. } => Some(ValueKind::Scalar),
            Instruction::IsNonZero { .. } => Some(ValueKind::Flag),
            _ => None,
        }
    }
}

/// Whether the value can be used as an operand of kind `kind` by the
/// instruction at `index` of block `block`: a constant or a parameter that
/// exists is a scalar; the result of an instruction has the kind that the
/// instruction defines, and the instruction stands in an earlier block or
/// earlier in the same block.
pub open spec fn operand_ok(
    f: LoweredFunctionView,
    block: int,
    index: int,
    value: Value,
    kind: ValueKind,
) -> bool {
    match value {
        Value::Const(_) => kind == ValueKind::Scalar,
        Value::Param(p) => kind == ValueKind::Scalar && p < f.params.len(),
        Value::Temp { block: b, index: i } => {
            &&& b < block || (b == block && i < index)
            &&& b < f.blocks.len()
            &&& i < f.blocks[b as int].instructions.len()
            &&& f.blocks[b as int].instructions[i as int].defines() == Some(kind)
        },
    }
}

/// Whether the instruction at `index` of block `block` names only what
/// exists and uses only operands that it can use.
pub open spec fn operands_ok(
    module: Seq<LoweredFunctionView>,
    f: LoweredFunctionView,
    block: int,
    index: int,
) -> bool {
    match f.blocks[block].instructions[index] {
        InstructionView::Load { slot } => slot < f.slots.len(),
        InstructionView::Store { slot, value } => slot < f.slots.len() && operand_ok(
            f,
            block,
            index,
            value,
            ValueKind::Scalar,
        ),
        InstructionView::Binary { op, lhs, rhs } => operand_ok(
            f,
            block,
            index,
            lhs,
            ValueKind::Scalar,
        ) && operand_ok(f, block, index, rhs, ValueKind::Scalar),
        InstructionView::IsNonZero { value } => operand_ok(
            f,
            block,
            index,
            value,
            ValueKind::Scalar,
        ),
        InstructionView::Call { callee, args } => {
            &&& callee < module.len()
            &&& forall|k: int|
                0 <= k < args.len() ==> operand_ok(f, block, index, #[trigger] args[k], ValueKind::Scalar)
        },
        InstructionView::Return { value } => operand_ok(f, block, index, value, ValueKind::Scalar),
        InstructionView::Branch { target } => target < f.blocks.len(),
        InstructionView::CondBranch { cond, then_block, else_block } => {
            &&& operand_ok(f, block, index, cond, ValueKind::Flag)
            &&& then_block < f.blocks.len()
            &&& else_block < f.blocks.len()
        },
    }
}

/// Whether the instruction at `index` of block `block`, where it is a call
/// of a function of the module, passes as many arguments as the callee has
/// parameters.
pub open spec fn arity_ok(
    module: Seq<LoweredFunctionView>,
    f: LoweredFunctionView,
    block: int,
    index: int,
) -> bool {
    match f.blocks[block].instructions[index] {
        InstructionView::Call { callee, args } => callee < module.len() ==> module[callee as int].params.len()
            == args.len(),
        _ => true,
    }
}

/// Whether the instruction at `index` of block `block` is in order: its
/// operands are, and its arguments are as many as the callee's parameters.
pub open spec fn instruction_ok(
    module: Seq<LoweredFunctionView>,
    f: LoweredFunctionView,
    block: int,
    index: int,
) -> bool {
    operands_ok(module, f, block, index) && arity_ok(module, f, block, index)
}

/// Whether every instruction of the function at `index` of the module has
/// its operands in order.
pub open spec fn operands_in_order(module: Seq<LoweredFunctionView>, index: int) -> bool {
    &&& 0 <= index < module.len()
    &&& forall|b: int, i: int|
        0 <= b < module[index].blocks.len() && 0 <= i < module[index].blocks[b].instructions.len()
            ==> #[trigger] operands_ok(module, module[index], b, i)
}

/// Whether every call in the function at `index` of the module passes as
/// many arguments as its callee has parameters.
pub open spec fn arities_match(module: Seq<LoweredFunctionView>, index: int) -> bool {
    forall|b: int, i: int|
        0 <= b < module[index].blocks.len() && 0 <= i < module[index].blocks[b].instructions.len()
            ==> #[trigger] arity_ok(module, module[index], b, i)
}

/// A function is in order exactly when it has an entry block, its
/// parameters can be numbered, its operands are in order and its calls pass
/// as many arguments as their callees have parameters.
pub proof fn lemma_well_formed(module: Seq<LoweredFunctionView>, index: int)
    ensures
        well_formed(module, index) <==> {
            &&& operands_in_order(module, index)
            &&& arities_match(module, index)
            &&& module[index].blocks.len() > 0
            &&& module[index].params.len() < u32::MAX
        },
{
    let f = module[index];
    if well_formed(module, index) {
        assert forall|b: int, i: int|
            0 <= b < f.blocks.len() && 0 <= i < f.blocks[b].instructions.len()
            implies #[trigger] operands_ok(module, f, b, i) by {
            assert(block_ok(module, f, b, f.blocks[b].instructions.len() as int));
            assert(instruction_ok(module, f, b, i));
        }
        assert forall|b: int, i: int|
            0 <= b < f.blocks.len() && 0 <= i < f.blocks[b].instructions.len()
            implies #[trigger] arity_ok(module, f, b, i) by {
            assert(block_ok(module, f, b, f.blocks[b].instructions.len() as int));
            assert(instruction_ok(module, f, b, i));
        }
    }
    if operands_in_order(module, index) && arities_match(module, index) && f.blocks.len() > 0
        && f.params.len() < u32::MAX {
        assert forall|b: int| 0 <= b < f.blocks.len() implies #[trigger] block_ok(
            module,
            f,
            b,
            f.blocks[b].instructions.len() as int,
        ) by {
            assert forall|i: int| 0 <= i < f.blocks[b].instructions.len() implies #[trigger] instruction_ok(
                module,
                f,
                b,
                i,
            ) by {
                assert(operands_ok(module, f, b, i));
                assert(arity_ok(module, f, b, i));
            }
        }
    }
}

/// Whether the first `count` instructions of the block are in order.
pub open spec fn block_ok(
    module: Seq<LoweredFunctionView>,
    f: LoweredFunctionView,
    block: int,
    count: int,
) -> bool {
    forall|i: int| 0 <= i < count ==> #[trigger] instruction_ok(module, f, block, i)
}

/// Whether the function at `index` of the module is in order: it has an
/// entry block, no more parameters than a 32-bit count can number, and every
/// instruction of every block is in order.
pub open spec fn well_formed(module: Seq<LoweredFunctionView>, index: int) -> bool {
    &&& 0 <= index < module.len()
    &&& module[index].blocks.len() > 0
    &&& module[index].params.len() < u32::MAX
    &&& forall|b: int|
        0 <= b < module[index].blocks.len() ==> #[trigger] block_ok(
            module,
            module[index],
            b,
            module[index].blocks[b].instructions.len() as int,
        )
}

/// Whether the value can be used as an operand of kind `kind` at the place.
fn check_operand(f: &LoweredFunction, block: usize, index: usize, value: Value, kind: ValueKind) -> (r:
    bool)
    requires
        block < f.blocks.len(),
    ensures
        r == operand_ok(f@, block as int, index as int, value, kind),
{
    match value {
        Value::Const(_) => kind == ValueKind::Scalar,
        Value::Param(p) => kind == ValueKind::Scalar && p < f.params.len(),
        Value::Temp { block: b, index: i } => {
            if !(b < block || (b == block && i < index)) {
                return false;
            }
            if i >= f.blocks[b].instructions.len() {
                return false;
            }
            assert(f@.blocks[b as int].instructions[i as int] == f.blocks[b as int].instructions[i as int]@);
            match f.blocks[b].instructions[i].defines() {
                Some(found) => found == kind,
                None => false,
            }
        },
    }
}

/// Whether the instruction at the place is in order.
fn check_instruction(module: &IrModule, f: &LoweredFunction, block: usize, index: usize) -> (r: bool)
    requires
        block < f.blocks.len(),
        index < f.blocks[block as int].instructions.len(),
    ensures
        r == instruction_ok(module@, f@, block as int, index as int),
{
    let instruction = &f.blocks[block].instructions[index];
    assert(f@.blocks[block as int].instructions[index as int] == instruction@);
    match instruction {
        Instruction::Load { slot } => *slot < f.slots.len(),
        Instruction::Store { slot, value } => *slot < f.slots.len() && check_operand(
            f,
            block,
            index,
            *value,
            ValueKind::Scalar,
        ),
        Instruction::Binary { op, lhs, rhs } => check_operand(
            f,
            block,
            index,
            *lhs,
            ValueKind::Scalar,
        ) && check_operand(f, block, index, *rhs, ValueKind::Scalar),
        Instruction::IsNonZero { value } => check_operand(f, block, index, *value, ValueKind::Scalar),
        Instruction::Call { callee, args } => {
            if *callee >= module.functions.len() {
                return false;
            }
            assert(module@[*callee as int] == module.functions[*callee as int]@);
            if module.functions[*callee].params.len() != args.len() {
                return false;
            }
            let mut k: usize = 0;
            while k < args.len()
                invariant
                    k <= args.len(),
                    block < f.blocks.len(),
                    f@.blocks[block as int].instructions[index as int] == (InstructionView::Call {
                        callee: *callee,
                        args: args@,
                    }),
                    *callee < module@.len(),
                    module@[*callee as int].params.len() == args.len(),
                    forall|j: int|
                        0 <= j < k ==> operand_ok(
                            f@,
                            block as int,
                            index as int,
                            #[trigger] args@[j],
                            ValueKind::Scalar,
                        ),
                decreases args.len() - k,
            {
                if !check_operand(f, block, index, args[k], ValueKind::Scalar) {
                    return false;
                }
                k += 1;
            }
            true
        },
        Instruction::Return { value } => check_operand(f, block, index, *value, ValueKind::Scalar),
        Instruction::Branch { target } => *target < f.blocks.len(),
        Instruction::CondBranch { cond, then_block, else_block } => check_operand(
            f,
            block,
            index,
            *cond,
            ValueKind::Flag,
        ) && *then_block < f.blocks.len() && *else_block < f.blocks.len(),
    }
}

/// Whether the function at `index` of the module is in order.
pub fn is_well_formed(module: &IrModule, index: usize) -> (r: bool)
    ensures
        r == well_formed(module@, index as int),
{
    if index >= module.functions.len() {
        return false;
    }
    let f = &module.functions[index];
    assert(module@[index as int] == f@);
    if f.blocks.len() == 0 || f.params.len() >= u32::MAX as usize {
        return false;
    }
    let mut b: usize = 0;
    while b < f.blocks.len()
        invariant
            b <= f.blocks.len(),
            module@[index as int] == f@,
            forall|k: int|
                0 <= k < b ==> #[trigger] block_ok(
                    module@,
                    f@,
                    k,
                    f@.blocks[k].instructions.len() as int,
                ),
        decreases f.blocks.len() - b,
    {
        let mut i: usize = 0;
        while i < f.blocks[b].instructions.len()
            invariant
                b < f.blocks.len(),
                i <= f.blocks[b as int].instructions.len(),
                module@[index as int] == f@,
                block_ok(module@, f@, b as int, i as int),
            decreases f.blocks[b as int].instructions.len() - i,
        {
            if !check_instruction(module, f, b, i) {
                assert(!block_ok(module@, f@, b as int, f@.blocks[b as int].instructions.len() as int));
                return false;
            }
            i += 1;
        }
        b += 1;
    }
    true
}

/// The operands of the instruction, in the order in which it uses them.
pub open spec fn operands_of(instruction: InstructionView) -> Seq<Value> {
    match instruction {
        InstructionView::Load { slot } => seq![],
        InstructionView::Store { slot, value } => seq![value],
        InstructionView::Binary { op, lhs, rhs } => seq![lhs, rhs],
        InstructionView::IsNonZero { value } => seq![value],
        InstructionView::Call { callee, args } => args,
        InstructionView::Return { value } => seq![value],
        InstructionView::Branch { target } => seq![],
        InstructionView::CondBranch { cond, then_block, else_block } => seq![cond],
    }
}

/// The kind that the instruction asks of its operands: a flag for the
/// condition of a branch, a scalar everywhere else.
pub open spec fn wanted_kind(instruction: InstructionView) -> ValueKind {
    if instruction is CondBranch {
        ValueKind::Flag
    } else {
        ValueKind::Scalar
    }
}

/// An instruction whose operands are in order has each operand in order, of
/// the kind that it asks for.
pub proof fn lemma_operands_ok(
    module: Seq<LoweredFunctionView>,
    f: LoweredFunctionView,
    block: int,
    index: int,
)
    requires
        operands_ok(module, f, block, index),
    ensures
        forall|k: int|
            0 <= k < operands_of(f.blocks[block].instructions[index]).len() ==> operand_ok(
                f,
                block,
                index,
                #[trigger] operands_of(f.blocks[block].instructions[index])[k],
                wanted_kind(f.blocks[block].instructions[index]),
            ),
{
}

/// Whether the instruction can be replayed without a value that only the
/// code generator can give: it is no load and no call, and no operand of it
/// is a parameter.
pub open spec fn needs_no_handle(instruction: InstructionView) -> bool {
    &&& !(instruction is Load)
    &&& !(instruction is Call)
    &&& forall|k: int|
        0 <= k < operands_of(instruction).len() ==> !(#[trigger] operands_of(instruction)[k]
            is Param)
}

/// Whether every instruction of the function can be replayed without a
/// value that only the code generator can give.
pub open spec fn handle_free(f: LoweredFunctionView) -> bool {
    forall|b: int, i: int|
        0 <= b < f.blocks.len() && 0 <= i < f.blocks[b].instructions.len() ==> needs_no_handle(
            #[trigger] f.blocks[b].instructions[i],
        )
}

impl Instruction {
    /// The operands of the instruction, in the order in which it uses them.
    pub fn operands(&self) -> (r: Vec<Value>)
        ensures
            r@ == operands_of(self@),
    {
        let mut r: Vec<Value> = Vec::new();
        match self {
            Instruction::Load { .. } => {},
            Instruction::Store { value, .. } => {
                r.push(*value);
            },
            Instruction::Binary { lhs, rhs, .. } => {
                r.push(*lhs);
                r.push(*rhs);
            },
            Instruction::IsNonZero { value } => {
                r.push(*value);
            },
            Instruction::Call { args, .. } => {
                let mut k: usize = 0;
                while k < args.len()
                    invariant
                        k <= args.len(),
                        r@ == args@.take(k as int),
                    decreases args.len() - k,
                {
                    r.push(args[k]);
                    assert(r@ =~= args@.take(k + 1));
                    k += 1;
                }
                assert(args@.take(k as int) =~= args@);
            },
            Instruction::Return { value } => {
                r.push(*value);
            },
            Instruction::Branch { .. } => {},
            Instruction::CondBranch { cond, .. } => {
                r.push(*cond);
            },
        }
        assert(r@ =~= operands_of(self@));
        r
    }
}

} // verus!
