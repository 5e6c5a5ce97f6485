//! Lowering emits only instructions whose operands are in order: a value is
//! used behind the instruction that defines it and as what it is, and every
//! slot, block and callee that an instruction names exists. This module
//! states that of a build context and proves that each step keeps it.

use vstd::prelude::*;
use crate::ir::{BlockKind, InstructionView, Value};
use crate::lowering::CompilerView;
use crate::operands::{ValueKind, operand_ok, operands_ok};

verus! {

impl CompilerView {
    /// Every instruction of the function that is being built has its
    /// operands in order, every bound name is bound to a slot of the
    /// function, and the blocks and slots are no more than can be numbered.
    #[verifier::opaque]
    pub open spec fn sound(self) -> bool {
        &&& self.positioned()
        &&& self.block_count() <= usize::MAX
        &&& self.current().slots.len() <= usize::MAX
        &&& forall|name: Seq<char>|
            self.variables.contains_key(name) ==> #[trigger] self.variables[name]
                < self.current().slots.len()
        &&& forall|b: int, i: int|
            0 <= b < self.block_count() && 0 <= i < self.current().blocks[b].instructions.len()
                ==> #[trigger] operands_ok(self.module, self.current(), b, i)
    }

    /// The value can be an operand, of the kind, of the next instruction
    /// that is emitted at the cursor.
    #[verifier::opaque]
    pub open spec fn usable(self, value: Value, kind: ValueKind) -> bool {
        operand_ok(
            self.current(),
            self.cursor as int,
            self.block().instructions.len() as int,
            value,
            kind,
        )
    }

    /// The instruction would have its operands in order if it were emitted
    /// at the cursor.
    pub open spec fn accepts(self, instruction: InstructionView) -> bool {
        match instruction {
            InstructionView::Load { slot } => slot < self.current().slots.len(),
            InstructionView::Store { slot, value } => slot < self.current().slots.len()
                && self.usable(value, ValueKind::Scalar),
            InstructionView::Binary { op, lhs, rhs } => self.usable(lhs, ValueKind::Scalar)
                && self.usable(rhs, ValueKind::Scalar),
            InstructionView::IsNonZero { value } => self.usable(value, ValueKind::Scalar),
            InstructionView::Call { callee, args } => callee < self.module.len() && forall|k: int|
                0 <= k < args.len() ==> self.usable(#[trigger] args[k], ValueKind::Scalar),
            InstructionView::Return { value } => self.usable(value, ValueKind::Scalar),
            InstructionView::Branch { target } => target < self.block_count(),
            InstructionView::CondBranch { cond, then_block, else_block } => self.usable(
                cond,
                ValueKind::Flag,
            ) && then_block < self.block_count() && else_block < self.block_count(),
        }
    }
}

/// A constant can always be used as a scalar.
pub proof fn lemma_const_usable(c: CompilerView, n: i64)
    ensures
        c.usable(Value::Const(n), ValueKind::Scalar),
{
    reveal(CompilerView::usable);
}

/// A parameter of the function can be used as a scalar.
pub proof fn lemma_param_usable(c: CompilerView, p: usize)
    requires
        p < c.current().params.len(),
    ensures
        c.usable(Value::Param(p), ValueKind::Scalar),
{
    reveal(CompilerView::usable);
}

/// A slot that a name is bound to is a slot of the function.
pub proof fn lemma_bound_slot(c: CompilerView, name: Seq<char>)
    requires
        c.sound(),
        c.variables.contains_key(name),
    ensures
        c.variables[name] < c.current().slots.len(),
{
    reveal(CompilerView::sound);
}

/// Emitting an instruction that the context accepts keeps the context
/// sound. The value that the instruction defines can be used behind it, and
/// so can every value that could be used before it.
pub proof fn lemma_emit_sound(c: CompilerView, instruction: InstructionView)
    requires
        c.sound(),
        c.accepts(instruction),
        c.block().instructions.len() < usize::MAX,
    ensures
        c.emit(instruction).sound(),
        instruction.defines() matches Some(kind) ==> c.emit(instruction).usable(c.next_value(), kind),
        forall|v: Value, kind: ValueKind|
            c.usable(v, kind) ==> #[trigger] c.emit(instruction).usable(v, kind),
{
    reveal(CompilerView::sound);
    reveal(CompilerView::usable);
    reveal(CompilerView::emit);
    reveal(CompilerView::with_current);
    let after = c.emit(instruction);
    let cursor = c.cursor as int;
    let len = c.block().instructions.len() as int;
    assert forall|b: int, i: int|
        0 <= b < after.block_count() && 0 <= i < after.current().blocks[b].instructions.len()
        implies #[trigger] operands_ok(after.module, after.current(), b, i) by {
        if b == cursor && i == len {
            assert(after.current().blocks[b].instructions[i] == instruction);
            lemma_operand_kept(c, after, b, i);
            match instruction {
                InstructionView::Call { callee, args } => {
                    assert forall|k: int| 0 <= k < args.len() implies operand_ok(
                        after.current(),
                        b,
                        i,
                        #[trigger] args[k],
                        ValueKind::Scalar,
                    ) by {
                        assert(c.usable(args[k], ValueKind::Scalar));
                    }
                },
                _ => {},
            }
        } else {
            assert(after.current().blocks[b].instructions[i] == c.current().blocks[b].instructions[i]);
            assert(operands_ok(c.module, c.current(), b, i));
            lemma_operand_kept(c, after, b, i);
            match c.current().blocks[b].instructions[i] {
                InstructionView::Call { callee, args } => {
                    assert forall|k: int| 0 <= k < args.len() implies operand_ok(
                        after.current(),
                        b,
                        i,
                        #[trigger] args[k],
                        ValueKind::Scalar,
                    ) by {
                        assert(operand_ok(c.current(), b, i, args[k], ValueKind::Scalar));
                    }
                },
                _ => {},
            }
        }
    }
    assert forall|v: Value, kind: ValueKind| c.usable(v, kind) implies #[trigger] after.usable(
        v,
        kind,
    ) by {
        lemma_operand_kept(c, after, cursor, len);
    }
}

/// An operand that is in order at a place stays in order there, and at
/// every later place of the same block, when the function only grows.
proof fn lemma_operand_kept(before: CompilerView, after: CompilerView, block: int, index: int)
    requires
        before.function is Some,
        after.current().params == before.current().params,
        after.current().blocks.len() >= before.current().blocks.len(),
        forall|b: int|
            0 <= b < before.current().blocks.len() ==> (
            #[trigger] before.current().blocks[b]).instructions.is_prefix_of(
                after.current().blocks[b].instructions,
            ),
    ensures
        forall|v: Value, kind: ValueKind, later: int|
            index <= later && #[trigger] operand_ok(before.current(), block, index, v, kind)
                ==> #[trigger] operand_ok(after.current(), block, later, v, kind),
{
    assert forall|v: Value, kind: ValueKind, later: int|
        index <= later && #[trigger] operand_ok(
            before.current(),
            block,
            index,
            v,
            kind,
        ) implies #[trigger] operand_ok(after.current(), block, later, v, kind) by {
        match v {
            Value::Temp { block: b, index: i } => {
                assert(before.current().blocks[b as int].instructions.is_prefix_of(
                    after.current().blocks[b as int].instructions,
                ));
                assert(after.current().blocks[b as int].instructions[i as int]
                    == before.current().blocks[b as int].instructions[i as int]);
            },
            _ => {},
        }
    }
}

/// What a context that only grew keeps: soundness of all that was there.
proof fn lemma_grown_sound(before: CompilerView, after: CompilerView)
    requires
        before.sound(),
        after.positioned(),
        after.function == before.function,
        after.module.len() == before.module.len(),
        after.block_count() <= usize::MAX,
        after.current().slots.len() <= usize::MAX,
        after.current().params == before.current().params,
        before.current().slots.len() <= after.current().slots.len(),
        after.current().blocks.len() >= before.current().blocks.len(),
        forall|b: int|
            0 <= b < before.current().blocks.len() ==> (
            #[trigger] after.current().blocks[b]).instructions
                == before.current().blocks[b].instructions,
        forall|b: int|
            before.current().blocks.len() <= b < after.current().blocks.len() ==> (
            #[trigger] after.current().blocks[b]).instructions.len() == 0,
        forall|name: Seq<char>|
            after.variables.contains_key(name) ==> #[trigger] after.variables[name]
                < after.current().slots.len(),
    ensures
        after.sound(),
{
    reveal(CompilerView::sound);
    assert forall|b: int, i: int|
        0 <= b < after.block_count() && 0 <= i < after.current().blocks[b].instructions.len()
        implies #[trigger] operands_ok(after.module, after.current(), b, i) by {
        assert(after.current().blocks[b].instructions[i] == before.current().blocks[b].instructions[i]);
        assert(operands_ok(before.module, before.current(), b, i));
        lemma_operand_kept(before, after, b, i);
        match before.current().blocks[b].instructions[i] {
            InstructionView::Call { callee, args } => {
                assert forall|k: int| 0 <= k < args.len() implies operand_ok(
                    after.current(),
                    b,
                    i,
                    #[trigger] args[k],
                    ValueKind::Scalar,
                ) by {
                    assert(operand_ok(before.current(), b, i, args[k], ValueKind::Scalar));
                }
            },
            _ => {},
        }
    }
}

/// Appending a block keeps the context sound, and what could be used at
/// the cursor can still be used there.
pub proof fn lemma_append_sound(c: CompilerView, kind: BlockKind)
    requires
        c.sound(),
        c.block_count() < usize::MAX,
    ensures
        c.append_block(kind).sound(),
        forall|v: Value, k: ValueKind| c.usable(v, k) ==> #[trigger] c.append_block(kind).usable(v, k),
{
    let after = c.append_block(kind);
    assert(after.positioned() && after.current().blocks.len() == c.current().blocks.len() + 1
        && after.cursor == c.cursor && after.function == c.function && after.module.len()
        == c.module.len() && after.variables == c.variables && after.current().slots
        == c.current().slots && after.current().params == c.current().params && (forall|b: int|
        0 <= b < c.current().blocks.len() ==> (#[trigger] after.current().blocks[b])
            == c.current().blocks[b]) && after.current().blocks[c.current().blocks.len() as int].instructions.len()
        == 0) by {
        reveal(CompilerView::sound);
        reveal(CompilerView::append_block);
        reveal(CompilerView::with_current);
    }
    assert(forall|name: Seq<char>|
        after.variables.contains_key(name) ==> #[trigger] after.variables[name]
            < after.current().slots.len()) by {
        reveal(CompilerView::sound);
    }
    assert(c.current().slots.len() <= usize::MAX) by {
        reveal(CompilerView::sound);
    }
    lemma_grown_sound(c, after);
    assert forall|v: Value, k: ValueKind| c.usable(v, k) implies #[trigger] after.usable(v, k) by {
        reveal(CompilerView::usable);
        lemma_operand_kept(c, after, c.cursor as int, c.block().instructions.len() as int);
    }
}

/// Binding a name to a new slot keeps the context sound, and what could be
/// used at the cursor can still be used there.
pub proof fn lemma_bind_sound(c: CompilerView, name: Seq<char>)
    requires
        c.sound(),
        c.current().slots.len() < usize::MAX,
    ensures
        c.bind(name).sound(),
        c.bind(name).variables[name] < c.bind(name).current().slots.len(),
        forall|v: Value, k: ValueKind| c.usable(v, k) ==> #[trigger] c.bind(name).usable(v, k),
{
    let after = c.bind(name);
    assert(after.positioned() && after.current().blocks == c.current().blocks && after.cursor
        == c.cursor && after.function == c.function && after.module.len() == c.module.len()
        && after.variables == c.variables.insert(name, c.current().slots.len() as usize)
        && after.current().slots == c.current().slots.push(name) && after.current().params
        == c.current().params && c.block_count() <= usize::MAX) by {
        reveal(CompilerView::sound);
        reveal(CompilerView::bind);
        reveal(CompilerView::alloca);
        reveal(CompilerView::with_current);
    }
    assert(forall|other: Seq<char>|
        after.variables.contains_key(other) ==> #[trigger] after.variables[other]
            < after.current().slots.len()) by {
        reveal(CompilerView::sound);
    }
    lemma_grown_sound(c, after);
    assert forall|v: Value, k: ValueKind| c.usable(v, k) implies #[trigger] after.usable(v, k) by {
        reveal(CompilerView::usable);
        lemma_operand_kept(c, after, c.cursor as int, c.block().instructions.len() as int);
    }
}

/// Moving the cursor to a block of the function keeps the context sound.
pub proof fn lemma_move_sound(c: CompilerView, block: usize)
    requires
        c.sound(),
        block < c.block_count(),
    ensures
        c.set_cursor(block).sound(),
{
    reveal(CompilerView::sound);
    reveal(CompilerView::set_cursor);
}

/// Allocating a slot keeps the context sound, and what could be used at
/// the cursor can still be used there.
pub proof fn lemma_alloca_sound(c: CompilerView, name: Seq<char>)
    requires
        c.sound(),
        c.current().slots.len() < usize::MAX,
    ensures
        c.alloca(name).sound(),
        forall|v: Value, k: ValueKind| c.usable(v, k) ==> #[trigger] c.alloca(name).usable(v, k),
{
    let after = c.alloca(name);
    assert(after.positioned() && after.current().blocks == c.current().blocks && after.cursor
        == c.cursor && after.function == c.function && after.module.len() == c.module.len()
        && after.variables == c.variables && after.current().slots == c.current().slots.push(name)
        && after.current().params == c.current().params && c.block_count() <= usize::MAX) by {
        reveal(CompilerView::sound);
        reveal(CompilerView::alloca);
        reveal(CompilerView::with_current);
    }
    assert(forall|other: Seq<char>|
        after.variables.contains_key(other) ==> #[trigger] after.variables[other]
            < after.current().slots.len()) by {
        reveal(CompilerView::sound);
    }
    lemma_grown_sound(c, after);
    assert forall|v: Value, k: ValueKind| c.usable(v, k) implies #[trigger] after.usable(v, k) by {
        reveal(CompilerView::usable);
        lemma_operand_kept(c, after, c.cursor as int, c.block().instructions.len() as int);
    }
}

/// The first block of a function that has no block, no slot and no bound
/// name yet makes the context sound.
pub proof fn lemma_entry_sound(c: CompilerView, kind: BlockKind)
    requires
        c.building(),
        c.block_count() == 0,
        c.cursor == 0,
        c.current().slots.len() == 0,
        c.variables == Map::<Seq<char>, usize>::empty(),
    ensures
        c.append_block(kind).sound(),
{
    reveal(CompilerView::sound);
    reveal(CompilerView::append_block);
    reveal(CompilerView::with_current);
}

/// In a sound context every instruction of the function that is being
/// built has its operands in order.
pub proof fn lemma_sound_operands(c: CompilerView)
    requires
        c.sound(),
    ensures
        c.building(),
        forall|b: int, i: int|
            0 <= b < c.block_count() && 0 <= i < c.current().blocks[b].instructions.len()
                ==> #[trigger] operands_ok(c.module, c.current(), b, i),
{
    reveal(CompilerView::sound);
}

} // verus!
