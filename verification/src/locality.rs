//! Lowering is local: it appends to the block at the cursor and to blocks of
//! its own, and the branches it emits lead only to blocks of its own. This
//! module states that as a relation between the context before and the
//! context after, and proves it of every lowering step.

use vstd::prelude::*;
use crate::internal_representations::gast::{ExprView, StmtView};
use crate::ir::{BlockView, BlockKind, InstructionView, Value, find_function};
use crate::lowering::{
    CompilerView,
    jump,
    lower_args,
    lower_expr,
    lower_stmt,
    lower_stmts,
    open_conditional,
    open_loop,
    test_loop,
};

verus! {

impl CompilerView {
    /// What holds of a context `self` that lowering has reached from the
    /// positioned context `before`: the same function is being built, the
    /// rest of the module is as it was, no block or slot was removed, and of
    /// the blocks that `before` had only the one at its cursor can have
    /// changed, by instructions appended to it. The cursor is where it was or
    /// at a block that `before` did not have. Every branch among the
    /// instructions that `before` did not have leads to a block that `before`
    /// did not have.
    pub open spec fn continues(self, before: CompilerView) -> bool {
        &&& before.positioned()
        &&& self.positioned()
        &&& self.function == before.function
        &&& self.module.len() == before.module.len()
        &&& self.finished() == before.finished()
        &&& self.current().name == before.current().name
        &&& self.current().params == before.current().params
        &&& before.current().slots.is_prefix_of(self.current().slots)
        &&& self.block_count() >= before.block_count()
        &&& (self.cursor == before.cursor || self.cursor >= before.block_count())
        &&& forall|b: int|
            0 <= b < before.block_count() && b != before.cursor ==> self.current().blocks[b]
                == before.current().blocks[b]
        &&& self.current().blocks[before.cursor as int].kind == before.block().kind
        &&& before.block().instructions.is_prefix_of(
            self.current().blocks[before.cursor as int].instructions,
        )
        &&& forall|b: int, i: int, t: int|
            #![trigger self.current().blocks[b].instructions[i].branches_to(t)]
            0 <= b < self.block_count() && 0 <= i < self.current().blocks[b].instructions.len() && (b
                >= before.block_count() || (b == before.cursor && i
                >= before.block().instructions.len()))
                && self.current().blocks[b].instructions[i].branches_to(t) ==> before.block_count()
                <= t < self.block_count()
    }

    /// `continues`, with the cursor, the blocks' number, the slots and the
    /// symbol table unchanged.
    pub open spec fn continues_in_place(self, before: CompilerView) -> bool {
        &&& self.continues(before)
        &&& self.cursor == before.cursor
        &&& self.block_count() == before.block_count()
        &&& self.variables == before.variables
        &&& self.current().slots == before.current().slots
    }
}

/// What continues a continuation continues what that one continued.
pub proof fn lemma_continues_trans(a: CompilerView, b: CompilerView, c: CompilerView)
    requires
        b.continues(a),
        c.continues(b),
    ensures
        c.continues(a),
{
    assert forall|k: int| 0 <= k < a.block_count() && k != a.cursor implies c.current().blocks[k]
        == a.current().blocks[k] by {
        assert(b.current().blocks[k] == a.current().blocks[k]);
    }
    if b.cursor != a.cursor {
        assert(c.current().blocks[a.cursor as int] == b.current().blocks[a.cursor as int]);
    }
    assert forall|k: int, i: int, t: int|
        #![trigger c.current().blocks[k].instructions[i].branches_to(t)]
        0 <= k < c.block_count() && 0 <= i < c.current().blocks[k].instructions.len() && (k
            >= a.block_count() || (k == a.cursor && i >= a.block().instructions.len()))
            && c.current().blocks[k].instructions[i].branches_to(t) implies a.block_count() <= t
        < c.block_count() by {
        if k >= b.block_count() || (k == b.cursor && i >= b.block().instructions.len()) {
            // The instruction is new since `b`.
        } else {
            // The instruction was there in `b`, and was new there since `a`.
            if k != b.cursor {
                assert(c.current().blocks[k] == b.current().blocks[k]);
            }
            assert(c.current().blocks[k].instructions[i] == b.current().blocks[k].instructions[i]);
            assert(b.current().blocks[k].instructions[i].branches_to(t));
        }
    }
}

/// The same, for continuations in place.
pub proof fn lemma_in_place_trans(a: CompilerView, b: CompilerView, c: CompilerView)
    requires
        b.continues_in_place(a),
        c.continues_in_place(b),
    ensures
        c.continues_in_place(a),
{
    lemma_continues_trans(a, b, c);
}

/// An instruction that is no branch, emitted at the cursor.
pub proof fn lemma_emit_continues(c: CompilerView, instruction: InstructionView)
    requires
        c.positioned(),
        !(instruction is Branch),
        !(instruction is CondBranch),
    ensures
        c.emit(instruction).continues_in_place(c),
        c.emit(instruction).block() == (BlockView {
            instructions: c.block().instructions.push(instruction),
            ..c.block()
        }),
{
    reveal(CompilerView::emit);
    reveal(CompilerView::with_current);
    let after = c.emit(instruction);
    assert(after.module.drop_last() =~= c.module.drop_last());
}

/// A branch to blocks that were appended since `base`, emitted at the cursor.
pub proof fn lemma_emit_branch_continues(
    base: CompilerView,
    c: CompilerView,
    instruction: InstructionView,
)
    requires
        c.continues(base),
        forall|t: int| instruction.branches_to(t) ==> base.block_count() <= t < c.block_count(),
    ensures
        c.emit(instruction).continues(base),
        c.emit(instruction).cursor == c.cursor,
        c.emit(instruction).block_count() == c.block_count(),
        c.emit(instruction).variables == c.variables,
        c.emit(instruction).block() == (BlockView {
            instructions: c.block().instructions.push(instruction),
            ..c.block()
        }),
        forall|b: int|
            0 <= b < c.block_count() && b != c.cursor ==> c.emit(instruction).current().blocks[b]
                == c.current().blocks[b],
{
    reveal(CompilerView::emit);
    reveal(CompilerView::with_current);
    let after = c.emit(instruction);
    assert(after.module.drop_last() =~= c.module.drop_last());
    assert forall|k: int, i: int, t: int|
        #![trigger after.current().blocks[k].instructions[i].branches_to(t)]
        0 <= k < after.block_count() && 0 <= i < after.current().blocks[k].instructions.len() && (k
            >= base.block_count() || (k == base.cursor && i >= base.block().instructions.len()))
            && after.current().blocks[k].instructions[i].branches_to(t) implies base.block_count()
        <= t < after.block_count() by {
        if k == c.cursor && i == c.block().instructions.len() {
            assert(after.current().blocks[k].instructions[i] == instruction);
        } else {
            assert(after.current().blocks[k].instructions[i] == c.current().blocks[k].instructions[i]);
            assert(c.current().blocks[k].instructions[i].branches_to(t));
        }
    }
}

/// A block appended to the function.
pub proof fn lemma_append_continues(c: CompilerView, kind: BlockKind)
    requires
        c.positioned(),
    ensures
        c.append_block(kind).continues(c),
        c.append_block(kind).block_count() == c.block_count() + 1,
        c.append_block(kind).cursor == c.cursor,
        c.append_block(kind).variables == c.variables,
        c.append_block(kind).block() == c.block(),
        c.append_block(kind).current().blocks.last() == (BlockView {
            kind,
            instructions: Seq::empty(),
        }),
{
    reveal(CompilerView::append_block);
    reveal(CompilerView::with_current);
    let after = c.append_block(kind);
    assert(after.module.drop_last() =~= c.module.drop_last());
}

/// A name bound to a new slot.
pub proof fn lemma_bind_continues(c: CompilerView, name: Seq<char>)
    requires
        c.positioned(),
    ensures
        c.bind(name).continues(c),
        c.bind(name).block_count() == c.block_count(),
        c.bind(name).cursor == c.cursor,
        c.bind(name).current().blocks == c.current().blocks,
        c.bind(name).variables == c.variables.insert(name, c.current().slots.len() as usize),
        c.bind(name).current().slots == c.current().slots.push(name),
{
    reveal(CompilerView::bind);
    reveal(CompilerView::alloca);
    reveal(CompilerView::with_current);
    let after = c.bind(name);
    assert(after.module.drop_last() =~= c.module.drop_last());
}

/// Moving the cursor to a block that was appended since `base` keeps
/// `continues` from `base`.
pub proof fn lemma_move_continues(base: CompilerView, c: CompilerView, block: usize)
    requires
        c.continues(base),
        base.block_count() <= block < c.block_count(),
    ensures
        c.set_cursor(block).continues(base),
        c.set_cursor(block).cursor == block,
        c.set_cursor(block).variables == c.variables,
        c.set_cursor(block).module == c.module,
        c.set_cursor(block).function == c.function,
{
    reveal(CompilerView::set_cursor);
}

/// What `jump` does: the block at the cursor gets the branch as its last
/// instruction, no other block changes, and the cursor is at `next`.
pub proof fn lemma_jump_continues(base: CompilerView, c: CompilerView, target: usize, next: usize)
    requires
        c.continues(base),
        base.block_count() <= target < c.block_count(),
        base.block_count() <= next < c.block_count(),
    ensures
        jump(c, target, next).continues(base),
        jump(c, target, next).cursor == next,
        jump(c, target, next).block_count() == c.block_count(),
        jump(c, target, next).variables == c.variables,
        jump(c, target, next).current().blocks[c.cursor as int] == (BlockView {
            instructions: c.block().instructions.push(InstructionView::Branch { target }),
            ..c.block()
        }),
        forall|b: int|
            0 <= b < c.block_count() && b != c.cursor ==> jump(c, target, next).current().blocks[b]
                == c.current().blocks[b],
{
    let branch = InstructionView::Branch { target };
    lemma_emit_branch_continues(base, c, branch);
    lemma_move_continues(base, c.emit(branch), next);
}

/// What `open_conditional` does.
pub proof fn lemma_open_conditional(c: CompilerView, value: Value)
    requires
        c.positioned(),
        c.block_count() + 3 <= usize::MAX,
    ensures
        ({
            let after = open_conditional(c, value);
            let n = c.block_count() as int;
            &&& after.continues(c)
            &&& after.block_count() == n + 3
            &&& after.cursor == n
            &&& after.variables == c.variables
            &&& after.current().blocks[n] == (BlockView {
                kind: BlockKind::Then,
                instructions: Seq::empty(),
            })
            &&& after.current().blocks[n + 1] == (BlockView {
                kind: BlockKind::Else,
                instructions: Seq::empty(),
            })
            &&& after.current().blocks[n + 2] == (BlockView {
                kind: BlockKind::Merge,
                instructions: Seq::empty(),
            })
            &&& after.current().blocks[c.cursor as int].instructions == c.block().instructions.push(
                InstructionView::IsNonZero { value },
            ).push(
                InstructionView::CondBranch {
                    cond: c.next_value(),
                    then_block: n as usize,
                    else_block: (n + 1) as usize,
                },
            )
        }),
{
    let n = c.block_count() as usize;
    let test = InstructionView::IsNonZero { value };
    let a1 = c.emit(test);
    lemma_emit_continues(c, test);
    let a2 = a1.append_block(BlockKind::Then);
    lemma_append_continues(a1, BlockKind::Then);
    lemma_continues_trans(c, a1, a2);
    let a3 = a2.append_block(BlockKind::Else);
    lemma_append_continues(a2, BlockKind::Else);
    lemma_continues_trans(c, a2, a3);
    let a4 = a3.append_block(BlockKind::Merge);
    lemma_append_continues(a3, BlockKind::Merge);
    lemma_continues_trans(c, a3, a4);
    let branch = InstructionView::CondBranch {
        cond: c.next_value(),
        then_block: n,
        else_block: (n + 1) as usize,
    };
    let a5 = a4.emit(branch);
    lemma_emit_branch_continues(c, a4, branch);
    lemma_move_continues(c, a5, n);
    assert(a3.current().blocks[n as int] == a2.current().blocks[n as int]);
    assert(a4.current().blocks[n as int] == a3.current().blocks[n as int]);
    assert(a4.current().blocks[n + 1] == a3.current().blocks[n + 1]);
}

/// What `open_loop` does.
pub proof fn lemma_open_loop(c: CompilerView)
    requires
        c.positioned(),
        c.block_count() + 3 <= usize::MAX,
    ensures
        ({
            let after = open_loop(c);
            let n = c.block_count() as int;
            &&& after.continues(c)
            &&& after.block_count() == n + 3
            &&& after.cursor == n
            &&& after.variables == c.variables
            &&& after.current().blocks[n] == (BlockView {
                kind: BlockKind::LoopCondition,
                instructions: Seq::empty(),
            })
            &&& after.current().blocks[n + 1] == (BlockView {
                kind: BlockKind::LoopBody,
                instructions: Seq::empty(),
            })
            &&& after.current().blocks[n + 2] == (BlockView {
                kind: BlockKind::AfterLoop,
                instructions: Seq::empty(),
            })
            &&& after.current().blocks[c.cursor as int].instructions == c.block().instructions.push(
                InstructionView::Branch { target: n as usize },
            )
        }),
{
    let n = c.block_count() as usize;
    let a1 = c.append_block(BlockKind::LoopCondition);
    lemma_append_continues(c, BlockKind::LoopCondition);
    let a2 = a1.append_block(BlockKind::LoopBody);
    lemma_append_continues(a1, BlockKind::LoopBody);
    lemma_continues_trans(c, a1, a2);
    let a3 = a2.append_block(BlockKind::AfterLoop);
    lemma_append_continues(a2, BlockKind::AfterLoop);
    lemma_continues_trans(c, a2, a3);
    lemma_jump_continues(c, a3, n, n);
    assert(a2.current().blocks[n as int] == a1.current().blocks[n as int]);
    assert(a3.current().blocks[n as int] == a2.current().blocks[n as int]);
    assert(a3.current().blocks[n + 1] == a2.current().blocks[n + 1]);
}

/// What `test_loop` does in the condition block of a loop that was opened
/// since `base`.
pub proof fn lemma_test_loop(base: CompilerView, c: CompilerView, value: Value)
    requires
        c.continues(base),
        base.block_count() <= c.cursor,
        c.cursor + 2 < c.block_count(),
        c.block_count() <= usize::MAX,
    ensures
        ({
            let after = test_loop(c, value);
            &&& after.continues(base)
            &&& after.block_count() == c.block_count()
            &&& after.cursor == c.cursor + 1
            &&& after.variables == c.variables
            &&& after.current().blocks[c.cursor as int] == (BlockView {
                instructions: c.block().instructions.push(
                    InstructionView::IsNonZero { value },
                ).push(
                    InstructionView::CondBranch {
                        cond: c.next_value(),
                        then_block: (c.cursor + 1) as usize,
                        else_block: (c.cursor + 2) as usize,
                    },
                ),
                ..c.block()
            })
            &&& forall|b: int|
                0 <= b < c.block_count() && b != c.cursor ==> after.current().blocks[b]
                    == c.current().blocks[b]
        }),
{
    let test = InstructionView::IsNonZero { value };
    let a1 = c.emit(test);
    lemma_emit_branch_continues(base, c, test);
    let branch = InstructionView::CondBranch {
        cond: c.next_value(),
        then_block: (c.cursor + 1) as usize,
        else_block: (c.cursor + 2) as usize,
    };
    let a2 = a1.emit(branch);
    lemma_emit_branch_continues(base, a1, branch);
    lemma_move_continues(base, a2, (c.cursor + 1) as usize);
}

/// Lowering an expression appends to the block at the cursor and changes
/// nothing else, whether it succeeds or not.
pub proof fn lemma_lower_expr_continues(c: CompilerView, e: ExprView)
    requires
        c.positioned(),
    ensures
        lower_expr(c, e).0.continues_in_place(c),
    decreases e,
{
    match e {
        ExprView::IntLiteral(_) => {},
        ExprView::StringLiteral(_) => {},
        ExprView::Name(name) => {
            if c.variables.contains_key(name) {
                lemma_emit_continues(c, InstructionView::Load { slot: c.variables[name] });
            }
        },
        ExprView::Binary(op, left, right) => {
            let (c1, r1) = lower_expr(c, *left);
            lemma_lower_expr_continues(c, *left);
            if let Ok(lhs) = r1 {
                let (c2, r2) = lower_expr(c1, *right);
                lemma_lower_expr_continues(c1, *right);
                lemma_in_place_trans(c, c1, c2);
                if let Ok(rhs) = r2 {
                    lemma_emit_continues(c2, InstructionView::Binary { op, lhs, rhs });
                    lemma_in_place_trans(c, c2, c2.emit(InstructionView::Binary { op, lhs, rhs }));
                }
            }
        },
        ExprView::Call(name, args) => {
            if let Some(callee) = find_function(c.module, name) {
                let (c1, r1) = lower_args(c, args);
                lemma_lower_args_continues(c, args);
                if let Ok(values) = r1 {
                    let call = InstructionView::Call { callee, args: values };
                    lemma_emit_continues(c1, call);
                    lemma_in_place_trans(c, c1, c1.emit(call));
                }
            }
        },
    }
}

/// Lowering arguments appends to the block at the cursor and changes nothing
/// else; on success there is one value for each argument.
pub proof fn lemma_lower_args_continues(c: CompilerView, args: Seq<ExprView>)
    requires
        c.positioned(),
    ensures
        lower_args(c, args).0.continues_in_place(c),
        lower_args(c, args).1 matches Ok(values) ==> values.len() == args.len(),
    decreases args,
{
    if args.len() > 0 {
        let (c1, r1) = lower_args(c, args.drop_last());
        lemma_lower_args_continues(c, args.drop_last());
        if r1 is Ok {
            lemma_lower_expr_continues(c1, args.last());
            lemma_in_place_trans(c, c1, lower_expr(c1, args.last()).0);
        }
    }
}

/// How many blocks lowering the statement appends when it succeeds: three
/// for each conditional and each loop in it.
pub open spec fn stmt_blocks(s: StmtView) -> nat
    decreases s,
{
    match s {
        StmtView::If(_, then_body, else_body) => 3 + stmts_blocks(then_body) + stmts_blocks(
            else_body,
        ),
        StmtView::For(init, _, _, body) => stmt_blocks(*init) + 3 + stmts_blocks(body),
        _ => 0,
    }
}

/// How many blocks lowering the statements appends when it succeeds.
pub open spec fn stmts_blocks(stmts: Seq<StmtView>) -> nat
    decreases stmts,
{
    if stmts.len() == 0 {
        0
    } else {
        stmts_blocks(stmts.drop_last()) + stmt_blocks(stmts.last())
    }
}

/// Lowering a statement is local, and on success it appends exactly
/// `stmt_blocks` blocks.
pub proof fn lemma_lower_stmt_continues(c: CompilerView, s: StmtView)
    requires
        c.positioned(),
        lower_stmt(c, s).0.block_count() <= usize::MAX,
    ensures
        lower_stmt(c, s).0.continues(c),
        lower_stmt(c, s).1 is Ok ==> lower_stmt(c, s).0.block_count() == c.block_count()
            + stmt_blocks(s),
    decreases s,
{
    match s {
        StmtView::Expr(e) => {
            lemma_lower_expr_continues(c, e);
        },
        StmtView::Let(name, e) => {
            let (c1, r1) = lower_expr(c, e);
            lemma_lower_expr_continues(c, e);
            if let Ok(value) = r1 {
                let c2 = c1.bind(name);
                lemma_bind_continues(c1, name);
                lemma_continues_trans(c, c1, c2);
                let store = InstructionView::Store { slot: c2.variables[name], value };
                lemma_emit_continues(c2, store);
                lemma_continues_trans(c, c2, c2.emit(store));
            }
        },
        StmtView::Return(e) => {
            let (c1, r1) = lower_expr(c, e);
            lemma_lower_expr_continues(c, e);
            if let Ok(value) = r1 {
                lemma_emit_continues(c1, InstructionView::Return { value });
                lemma_continues_trans(c, c1, c1.emit(InstructionView::Return { value }));
            }
        },
        StmtView::Assign(name, e) => {
            let (c1, r1) = lower_expr(c, e);
            lemma_lower_expr_continues(c, e);
            if let Ok(value) = r1 {
                if c1.variables.contains_key(name) {
                    let store = InstructionView::Store { slot: c1.variables[name], value };
                    lemma_emit_continues(c1, store);
                    lemma_continues_trans(c, c1, c1.emit(store));
                }
            }
        },
        StmtView::If(cond, then_body, else_body) => {
            let (c1, r1) = lower_expr(c, cond);
            lemma_lower_expr_continues(c, cond);
            if let Ok(value) = r1 {
                let else_block = (c1.block_count() + 1) as usize;
                let merge_block = (c1.block_count() + 2) as usize;
                let opened = open_conditional(c1, value);
                lemma_conditional_counts(c1, value, s, then_body, else_body);
                lemma_open_conditional(c1, value);
                lemma_continues_trans(c, c1, opened);
                let (c2, r2) = lower_stmts(opened, then_body);
                lemma_lower_stmts_continues(opened, then_body);
                lemma_continues_trans(c, opened, c2);
                if r2 is Ok {
                    let turned = jump(c2, merge_block, else_block);
                    lemma_jump_continues(c, c2, merge_block, else_block);
                    let (c3, r3) = lower_stmts(turned, else_body);
                    lemma_lower_stmts_continues(turned, else_body);
                    lemma_continues_trans(c, turned, c3);
                    if r3 is Ok {
                        lemma_jump_continues(c, c3, merge_block, merge_block);
                    }
                }
            }
        },
        StmtView::For(init, cond, step, body) => {
            let (c1, r1) = lower_stmt(c, *init);
            lemma_lower_stmt_count(c, *init);
            if r1 is Ok {
                lemma_loop_counts(c1, s, cond, step, body);
            }
            lemma_lower_stmt_continues(c, *init);
            if r1 is Ok {
                let cond_block = c1.block_count() as usize;
                let after_block = (c1.block_count() + 2) as usize;
                let opened = open_loop(c1);
                lemma_open_loop(c1);
                lemma_continues_trans(c, c1, opened);
                let (c2, r2) = lower_expr(opened, cond);
                lemma_lower_expr_continues(opened, cond);
                lemma_continues_trans(c, opened, c2);
                if let Ok(value) = r2 {
                    let tested = test_loop(c2, value);
                    lemma_test_loop(c, c2, value);
                    let (c3, r3) = lower_stmts(tested, body);
                    lemma_lower_stmts_continues(tested, body);
                    lemma_continues_trans(c, tested, c3);
                    if r3 is Ok {
                        let (c4, r4) = lower_expr(c3, step);
                        lemma_lower_expr_continues(c3, step);
                        lemma_continues_trans(c, c3, c4);
                        if r4 is Ok {
                            lemma_jump_continues(c, c4, cond_block, after_block);
                        }
                    }
                }
            }
        },
    }
}

/// Lowering statements is local, and on success it appends exactly
/// `stmts_blocks` blocks.
pub proof fn lemma_lower_stmts_continues(c: CompilerView, stmts: Seq<StmtView>)
    requires
        c.positioned(),
        lower_stmts(c, stmts).0.block_count() <= usize::MAX,
    ensures
        lower_stmts(c, stmts).0.continues(c),
        lower_stmts(c, stmts).1 is Ok ==> lower_stmts(c, stmts).0.block_count() == c.block_count()
            + stmts_blocks(stmts),
    decreases stmts,
{
    if stmts.len() > 0 {
        let (c1, r1) = lower_stmts(c, stmts.drop_last());
        lemma_lower_stmts_count(c, stmts.drop_last());
        if r1 is Ok {
            lemma_lower_stmt_count(c1, stmts.last());
        }
        lemma_lower_stmts_continues(c, stmts.drop_last());
        if r1 is Ok {
            lemma_lower_stmt_continues(c1, stmts.last());
            lemma_continues_trans(c, c1, lower_stmt(c1, stmts.last()).0);
        }
    }
}

/// A branch to a block that `base` had was in `base` already: lowering adds
/// no way into a block that was there before.
pub proof fn lemma_branch_was_there(base: CompilerView, c: CompilerView, b: int, i: int, t: int)
    requires
        c.continues(base),
        t < base.block_count(),
        0 <= b < c.block_count(),
        0 <= i < c.current().blocks[b].instructions.len(),
        c.current().blocks[b].instructions[i].branches_to(t),
    ensures
        b < base.block_count(),
        i < base.current().blocks[b].instructions.len(),
        base.current().blocks[b].instructions[i] == c.current().blocks[b].instructions[i],
{
    if b != base.cursor {
        assert(c.current().blocks[b] == base.current().blocks[b]);
    }
}

impl CompilerView {
    /// Every branch of the function that is being built leads to one of its
    /// blocks.
    pub open spec fn targets_known(self) -> bool {
        forall|b: int, i: int, t: int|
            #![trigger self.current().blocks[b].instructions[i].branches_to(t)]
            0 <= b < self.block_count() && 0 <= i < self.current().blocks[b].instructions.len()
                && self.current().blocks[b].instructions[i].branches_to(t) ==> 0 <= t
                < self.block_count()
    }
}

/// Lowering keeps `targets_known`.
pub proof fn lemma_targets_known(base: CompilerView, c: CompilerView)
    requires
        c.continues(base),
        base.targets_known(),
    ensures
        c.targets_known(),
{
    assert forall|b: int, i: int, t: int|
        #![trigger c.current().blocks[b].instructions[i].branches_to(t)]
        0 <= b < c.block_count() && 0 <= i < c.current().blocks[b].instructions.len()
            && c.current().blocks[b].instructions[i].branches_to(t) implies 0 <= t
        < c.block_count() by {
        if b >= base.block_count() || (b == base.cursor && i >= base.block().instructions.len()) {
        } else {
            if b != base.cursor {
                assert(c.current().blocks[b] == base.current().blocks[b]);
            }
            assert(base.current().blocks[b].instructions[i].branches_to(t));
        }
    }
}

/// An instruction emitted at the cursor leaves the cursor and the number of
/// blocks as they were, whatever the instruction is.
pub proof fn lemma_emit_count(c: CompilerView, instruction: InstructionView)
    requires
        c.positioned(),
    ensures
        c.emit(instruction).positioned(),
        c.emit(instruction).cursor == c.cursor,
        c.emit(instruction).block_count() == c.block_count(),
{
    reveal(CompilerView::emit);
    reveal(CompilerView::with_current);
}

/// The cursor moved to a block that there is.
pub proof fn lemma_move_count(c: CompilerView, block: usize)
    requires
        c.positioned(),
        block < c.block_count(),
    ensures
        c.set_cursor(block).positioned(),
        c.set_cursor(block).cursor == block,
        c.set_cursor(block).block_count() == c.block_count(),
{
    reveal(CompilerView::set_cursor);
}

/// A branch emitted at the cursor, and the cursor moved to a block that
/// there is.
proof fn lemma_jump_count(c: CompilerView, target: usize, next: usize)
    requires
        c.positioned(),
        next < c.block_count(),
    ensures
        jump(c, target, next).positioned(),
        jump(c, target, next).cursor == next,
        jump(c, target, next).block_count() == c.block_count(),
{
    let branch = InstructionView::Branch { target };
    lemma_emit_count(c, branch);
    lemma_move_count(c.emit(branch), next);
}

/// The blocks that lowering a conditional goes through, once its condition
/// is lowered: none is removed on the way, and the cursor stays at a block.
pub proof fn lemma_conditional_counts(
    c: CompilerView,
    value: Value,
    s: StmtView,
    then_body: Seq<StmtView>,
    else_body: Seq<StmtView>,
)
    requires
        c.positioned(),
        s matches StmtView::If(_, first, second) && first == then_body && second == else_body,
    ensures
        ({
            let n = c.block_count();
            let opened = open_conditional(c, value);
            let (c2, r2) = lower_stmts(opened, then_body);
            let turned = jump(c2, (n + 2) as usize, (n + 1) as usize);
            let (c3, r3) = lower_stmts(turned, else_body);
            let closed = jump(c3, (n + 2) as usize, (n + 2) as usize);
            &&& opened.positioned()
            &&& opened.block_count() == n + 3
            &&& c2.positioned()
            &&& c2.block_count() >= n + 3
            &&& r2 is Ok ==> c2.block_count() == n + 3 + stmts_blocks(then_body)
            &&& turned.positioned()
            &&& turned.block_count() == c2.block_count()
            &&& c3.positioned()
            &&& c3.block_count() >= c2.block_count()
            &&& r3 is Ok ==> c3.block_count() == c2.block_count() + stmts_blocks(else_body)
            &&& closed.positioned()
            &&& closed.block_count() == c3.block_count()
        }),
    decreases s, 0nat,
{
    let n = c.block_count();
    let then_block = n as usize;
    let else_block = (n + 1) as usize;
    let merge_block = (n + 2) as usize;
    let test = InstructionView::IsNonZero { value };
    lemma_emit_count(c, test);
    lemma_append_continues(c.emit(test), BlockKind::Then);
    let a1 = c.emit(test).append_block(BlockKind::Then);
    lemma_append_continues(a1, BlockKind::Else);
    let a2 = a1.append_block(BlockKind::Else);
    lemma_append_continues(a2, BlockKind::Merge);
    let a3 = a2.append_block(BlockKind::Merge);
    let branch = InstructionView::CondBranch { cond: c.next_value(), then_block, else_block };
    lemma_emit_count(a3, branch);
    lemma_move_count(a3.emit(branch), then_block);
    let opened = open_conditional(c, value);
    assert(opened == a3.emit(branch).set_cursor(then_block));
    lemma_lower_stmts_count(opened, then_body);
    let (c2, r2) = lower_stmts(opened, then_body);
    lemma_jump_count(c2, merge_block, else_block);
    let turned = jump(c2, merge_block, else_block);
    lemma_lower_stmts_count(turned, else_body);
    let (c3, r3) = lower_stmts(turned, else_body);
    lemma_jump_count(c3, merge_block, merge_block);
}

/// The blocks that lowering a loop goes through, once its first statement
/// is lowered: none is removed on the way, and the cursor stays at a block.
pub proof fn lemma_loop_counts(
    c: CompilerView,
    s: StmtView,
    cond: ExprView,
    step: ExprView,
    body: Seq<StmtView>,
)
    requires
        c.positioned(),
        s matches StmtView::For(_, _, _, inner) && inner == body,
    ensures
        ({
            let n = c.block_count();
            let opened = open_loop(c);
            let (c2, r2) = lower_expr(opened, cond);
            let tested = test_loop(c2, r2->Ok_0);
            let (c3, r3) = lower_stmts(tested, body);
            let (c4, r4) = lower_expr(c3, step);
            let closed = jump(c4, n as usize, (n + 2) as usize);
            &&& opened.positioned()
            &&& opened.block_count() == n + 3
            &&& c2.positioned()
            &&& c2.block_count() == n + 3
            &&& tested.positioned()
            &&& tested.block_count() == n + 3
            &&& c3.positioned()
            &&& c3.block_count() >= n + 3
            &&& r3 is Ok ==> c3.block_count() == n + 3 + stmts_blocks(body)
            &&& c4.positioned()
            &&& c4.block_count() == c3.block_count()
            &&& closed.positioned()
            &&& closed.block_count() == c3.block_count()
        }),
    decreases s, 0nat,
{
    let n = c.block_count();
    let cond_block = n as usize;
    let after_block = (n + 2) as usize;
    lemma_append_continues(c, BlockKind::LoopCondition);
    let a1 = c.append_block(BlockKind::LoopCondition);
    lemma_append_continues(a1, BlockKind::LoopBody);
    let a2 = a1.append_block(BlockKind::LoopBody);
    lemma_append_continues(a2, BlockKind::AfterLoop);
    let a3 = a2.append_block(BlockKind::AfterLoop);
    lemma_jump_count(a3, cond_block, cond_block);
    let opened = open_loop(c);
    assert(opened == jump(a3, cond_block, cond_block));
    lemma_lower_expr_continues(opened, cond);
    let (c2, r2) = lower_expr(opened, cond);
    let value = r2->Ok_0;
    let body_block = (c2.cursor + 1) as usize;
    let test = InstructionView::IsNonZero { value };
    lemma_emit_count(c2, test);
    let branch = InstructionView::CondBranch {
        cond: c2.next_value(),
        then_block: body_block,
        else_block: (c2.cursor + 2) as usize,
    };
    lemma_emit_count(c2.emit(test), branch);
    lemma_move_count(c2.emit(test).emit(branch), body_block);
    let tested = test_loop(c2, value);
    assert(tested == c2.emit(test).emit(branch).set_cursor(body_block));
    lemma_lower_stmts_count(tested, body);
    let (c3, r3) = lower_stmts(tested, body);
    lemma_lower_expr_continues(c3, step);
    let (c4, r4) = lower_expr(c3, step);
    lemma_jump_count(c4, cond_block, after_block);
}

/// Lowering a statement removes no block and leaves the cursor at a block,
/// however many blocks there are; on success it appends exactly
/// `stmt_blocks` blocks.
pub proof fn lemma_lower_stmt_count(c: CompilerView, s: StmtView)
    requires
        c.positioned(),
    ensures
        lower_stmt(c, s).0.positioned(),
        lower_stmt(c, s).0.block_count() >= c.block_count(),
        lower_stmt(c, s).1 is Ok ==> lower_stmt(c, s).0.block_count() == c.block_count()
            + stmt_blocks(s),
    decreases s, 1nat,
{
    match s {
        StmtView::Expr(e) => {
            lemma_lower_expr_continues(c, e);
        },
        StmtView::Let(name, e) => {
            lemma_lower_expr_continues(c, e);
            let (c1, r1) = lower_expr(c, e);
            if let Ok(value) = r1 {
                lemma_bind_continues(c1, name);
                let c2 = c1.bind(name);
                lemma_emit_count(c2, InstructionView::Store { slot: c2.variables[name], value });
            }
        },
        StmtView::Return(e) => {
            lemma_lower_expr_continues(c, e);
            let (c1, r1) = lower_expr(c, e);
            if let Ok(value) = r1 {
                lemma_emit_count(c1, InstructionView::Return { value });
            }
        },
        StmtView::Assign(name, e) => {
            lemma_lower_expr_continues(c, e);
            let (c1, r1) = lower_expr(c, e);
            if let Ok(value) = r1 {
                lemma_emit_count(c1, InstructionView::Store { slot: c1.variables[name], value });
            }
        },
        StmtView::If(cond, then_body, else_body) => {
            lemma_lower_expr_continues(c, cond);
            let (c1, r1) = lower_expr(c, cond);
            if let Ok(value) = r1 {
                lemma_conditional_counts(c1, value, s, then_body, else_body);
            }
        },
        StmtView::For(init, cond, step, body) => {
            lemma_lower_stmt_count(c, *init);
            let (c1, r1) = lower_stmt(c, *init);
            if r1 is Ok {
                lemma_loop_counts(c1, s, cond, step, body);
            }
        },
    }
}

/// Lowering statements removes no block and leaves the cursor at a block,
/// however many blocks there are; on success it appends exactly
/// `stmts_blocks` blocks.
pub proof fn lemma_lower_stmts_count(c: CompilerView, stmts: Seq<StmtView>)
    requires
        c.positioned(),
    ensures
        lower_stmts(c, stmts).0.positioned(),
        lower_stmts(c, stmts).0.block_count() >= c.block_count(),
        lower_stmts(c, stmts).1 is Ok ==> lower_stmts(c, stmts).0.block_count() == c.block_count()
            + stmts_blocks(stmts),
    decreases stmts, 2nat,
{
    if stmts.len() > 0 {
        lemma_lower_stmts_count(c, stmts.drop_last());
        let (c1, r1) = lower_stmts(c, stmts.drop_last());
        if r1 is Ok {
            lemma_lower_stmt_count(c1, stmts.last());
        }
    }
}

/// An instruction whose branches lead to blocks that there are, emitted at
/// the cursor, keeps `targets_known`.
pub proof fn lemma_emit_targets(c: CompilerView, instruction: InstructionView)
    requires
        c.positioned(),
        c.targets_known(),
        forall|t: int| instruction.branches_to(t) ==> 0 <= t < c.block_count(),
    ensures
        c.emit(instruction).targets_known(),
{
    reveal(CompilerView::emit);
    reveal(CompilerView::with_current);
    let after = c.emit(instruction);
    assert forall|b: int, i: int, t: int|
        #![trigger after.current().blocks[b].instructions[i].branches_to(t)]
        0 <= b < after.block_count() && 0 <= i < after.current().blocks[b].instructions.len()
            && after.current().blocks[b].instructions[i].branches_to(t) implies 0 <= t
        < after.block_count() by {
        if b == c.cursor && i == c.block().instructions.len() {
            assert(instruction.branches_to(t));
        } else {
            assert(c.current().blocks[b].instructions[i].branches_to(t));
        }
    }
}

/// A block appended keeps `targets_known`.
pub proof fn lemma_append_targets(c: CompilerView, kind: BlockKind)
    requires
        c.building(),
        c.targets_known(),
    ensures
        c.append_block(kind).targets_known(),
{
    reveal(CompilerView::append_block);
    reveal(CompilerView::with_current);
    let after = c.append_block(kind);
    assert forall|b: int, i: int, t: int|
        #![trigger after.current().blocks[b].instructions[i].branches_to(t)]
        0 <= b < after.block_count() && 0 <= i < after.current().blocks[b].instructions.len()
            && after.current().blocks[b].instructions[i].branches_to(t) implies 0 <= t
        < after.block_count() by {
        assert(b < c.block_count());
        assert(c.current().blocks[b].instructions[i].branches_to(t));
    }
}

/// A stack slot allocated, bound to a name or not, and the cursor moved keep
/// `targets_known`.
pub proof fn lemma_slot_targets(c: CompilerView, name: Seq<char>, block: usize)
    requires
        c.building(),
        c.targets_known(),
    ensures
        c.alloca(name).targets_known(),
        c.bind(name).targets_known(),
        c.set_cursor(block).targets_known(),
{
    reveal(CompilerView::alloca);
    reveal(CompilerView::bind);
    reveal(CompilerView::set_cursor);
    reveal(CompilerView::with_current);
    assert(c.alloca(name).current().blocks == c.current().blocks);
    assert(c.bind(name).current().blocks == c.current().blocks);
    assert(c.set_cursor(block).current().blocks == c.current().blocks);
}

} // verus!
