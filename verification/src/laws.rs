//! What holds of every lowering: the order of evaluation, the shape of the
//! blocks that a conditional and a loop produce, which failures are reported,
//! and that a failed function leaves no trace in the module.

use vstd::prelude::*;
use crate::internal_representations::gast::{ExprView, FunctionView, Operator, StmtView};
use crate::ir::{
    BlockView,
    BlockKind,
    InstructionView,
    LoweredFunctionView,
    Value,
    find_function,
    first_named,
    lemma_first_named,
};
use crate::locality::{
    lemma_bind_continues,
    lemma_branch_was_there,
    lemma_continues_trans,
    lemma_emit_continues,
    lemma_jump_continues,
    lemma_lower_args_continues,
    lemma_lower_expr_continues,
    lemma_lower_stmt_continues,
    lemma_conditional_counts,
    lemma_loop_counts,
    lemma_lower_stmt_count,
    lemma_lower_stmts_count,
    lemma_lower_stmts_continues,
    lemma_open_conditional,
    lemma_open_loop,
    lemma_test_loop,
    stmt_blocks,
    stmts_blocks,
};
use crate::semantics::{FrameView, Outcome, execute, run};
use crate::lowering::{
    CompileError,
    CompilerView,
    begin_function,
    bind_params,
    jump,
    lemma_lower_stmts_stops,
    lower_args,
    lower_expr,
    lower_function,
    lower_stmt,
    lower_stmts,
    open_conditional,
    open_loop,
    test_loop,
};

verus! {

/// The instructions that the block at the cursor of `after` holds beyond
/// those that the block at the cursor of `before` held.
pub open spec fn emitted(before: CompilerView, after: CompilerView) -> Seq<InstructionView> {
    after.block().instructions.subrange(
        before.block().instructions.len() as int,
        after.block().instructions.len() as int,
    )
}

/// Evaluation goes from left to right: lowering a binary expression emits
/// all that the left operand emits, then all that the right operand emits,
/// then the operation on the two values. So whatever the left operand does,
/// a call in it too, is done before anything the right operand does.
pub proof fn law_binary_left_to_right(
    c: CompilerView,
    op: Operator,
    left: ExprView,
    right: ExprView,
)
    requires
        c.positioned(),
        lower_expr(c, ExprView::Binary(op, Box::new(left), Box::new(right))).1 is Ok,
    ensures
        ({
            let (c1, r1) = lower_expr(c, left);
            let (c2, r2) = lower_expr(c1, right);
            let (c3, r3) = lower_expr(c, ExprView::Binary(op, Box::new(left), Box::new(right)));
            &&& r1 is Ok
            &&& r2 is Ok
            &&& emitted(c, c3) == emitted(c, c1) + emitted(c1, c2) + seq![
                InstructionView::Binary { op, lhs: r1->Ok_0, rhs: r2->Ok_0 },
            ]
            &&& r3 == Ok::<Value, CompileError>(c2.next_value())
        }),
{
    let (c1, r1) = lower_expr(c, left);
    lemma_lower_expr_continues(c, left);
    let (c2, r2) = lower_expr(c1, right);
    lemma_lower_expr_continues(c1, right);
    let operation = InstructionView::Binary { op, lhs: r1->Ok_0, rhs: r2->Ok_0 };
    lemma_emit_continues(c2, operation);
    let c3 = c2.emit(operation);
    assert(emitted(c, c3) =~= emitted(c, c1) + emitted(c1, c2) + seq![operation]);
}

/// The arguments of a call are evaluated from left to right, and all of
/// them before the call: lowering a call emits all that the arguments but
/// the last emit, then all that the last argument emits, then the call with
/// the arguments' values in their order.
pub proof fn law_arguments_left_to_right(c: CompilerView, name: Seq<char>, args: Seq<ExprView>)
    requires
        c.positioned(),
        args.len() > 0,
        lower_expr(c, ExprView::Call(name, args)).1 is Ok,
    ensures
        ({
            let (c1, r1) = lower_args(c, args.drop_last());
            let (c2, r2) = lower_expr(c1, args.last());
            let (c3, r3) = lower_expr(c, ExprView::Call(name, args));
            &&& find_function(c.module, name) is Some
            &&& r1 is Ok
            &&& r2 is Ok
            &&& emitted(c, c3) == emitted(c, c1) + emitted(c1, c2) + seq![
                InstructionView::Call {
                    callee: find_function(c.module, name)->Some_0,
                    args: (r1->Ok_0).push(r2->Ok_0),
                },
            ]
        }),
{
    let (c1, r1) = lower_args(c, args.drop_last());
    lemma_lower_args_continues(c, args.drop_last());
    let (c2, r2) = lower_expr(c1, args.last());
    lemma_lower_expr_continues(c1, args.last());
    let call = InstructionView::Call {
        callee: find_function(c.module, name)->Some_0,
        args: (r1->Ok_0).push(r2->Ok_0),
    };
    assert(lower_args(c, args) == (c2, Ok::<Seq<Value>, CompileError>((r1->Ok_0).push(r2->Ok_0))));
    lemma_emit_continues(c2, call);
    let c3 = c2.emit(call);
    assert(emitted(c, c3) =~= emitted(c, c1) + emitted(c1, c2) + seq![call]);
}

/// A conditional always produces exactly three blocks of its own, a `Then`,
/// an `Else` and a `Merge` block, whether its bodies are empty or not. The
/// block before it ends in the conditional branch to the first two. The
/// block in which the `then` body ends and the block in which the `else`
/// body ends both end in an unconditional branch to the merge block, which is
/// empty and holds the cursor afterwards. An empty body gives a block that
/// holds that branch and nothing else.
pub proof fn law_conditional_shape(
    c: CompilerView,
    cond: ExprView,
    then_body: Seq<StmtView>,
    else_body: Seq<StmtView>,
)
    requires
        c.positioned(),
        lower_stmt(c, StmtView::If(cond, then_body, else_body)).0.block_count() <= usize::MAX,
        lower_stmt(c, StmtView::If(cond, then_body, else_body)).1 is Ok,
    ensures
        ({
            let n = c.block_count() as int;
            let merge = InstructionView::Branch { target: (n + 2) as usize };
            let (c1, r1) = lower_expr(c, cond);
            let (c2, r2) = lower_stmts(open_conditional(c1, r1->Ok_0), then_body);
            let (c3, r3) = lower_stmts(jump(c2, (n + 2) as usize, (n + 1) as usize), else_body);
            let after = lower_stmt(c, StmtView::If(cond, then_body, else_body)).0;
            let blocks = after.current().blocks;
            &&& after.block_count() == n + 3 + stmts_blocks(then_body) + stmts_blocks(else_body)
            &&& blocks[n].kind == BlockKind::Then
            &&& blocks[n + 1].kind == BlockKind::Else
            &&& blocks[n + 2].kind == BlockKind::Merge
            &&& blocks[c.cursor as int].instructions == c1.block().instructions.push(
                InstructionView::IsNonZero { value: r1->Ok_0 },
            ).push(
                InstructionView::CondBranch {
                    cond: c1.next_value(),
                    then_block: n as usize,
                    else_block: (n + 1) as usize,
                },
            )
            &&& blocks[c2.cursor as int].instructions == c2.block().instructions.push(merge)
            &&& blocks[c3.cursor as int].instructions == c3.block().instructions.push(merge)
            &&& after.cursor == n + 2
            &&& blocks[n + 2].instructions.len() == 0
            &&& then_body.len() == 0 ==> blocks[n].instructions == seq![merge]
            &&& else_body.len() == 0 ==> blocks[n + 1].instructions == seq![merge]
        }),
{
    lemma_lower_stmt_count(c, StmtView::If(cond, then_body, else_body));
    let n = c.block_count() as int;
    let else_block = (n + 1) as usize;
    let merge_block = (n + 2) as usize;
    let merge = InstructionView::Branch { target: merge_block };
    let (c1, r1) = lower_expr(c, cond);
    lemma_lower_expr_continues(c, cond);
    lemma_conditional_counts(
        c1,
        r1->Ok_0,
        StmtView::If(cond, then_body, else_body),
        then_body,
        else_body,
    );
    let opened = open_conditional(c1, r1->Ok_0);
    lemma_open_conditional(c1, r1->Ok_0);
    lemma_continues_trans(c, c1, opened);
    let (c2, r2) = lower_stmts(opened, then_body);
    lemma_lower_stmts_continues(opened, then_body);
    lemma_continues_trans(c, opened, c2);
    let turned = jump(c2, merge_block, else_block);
    lemma_jump_continues(c, c2, merge_block, else_block);
    let (c3, r3) = lower_stmts(turned, else_body);
    lemma_lower_stmts_continues(turned, else_body);
    lemma_continues_trans(c, turned, c3);
    let after = jump(c3, merge_block, merge_block);
    lemma_jump_continues(c, c3, merge_block, merge_block);
    let blocks = after.current().blocks;

    // The block before the conditional is not touched after the branch.
    assert(c2.current().blocks[c.cursor as int] == opened.current().blocks[c.cursor as int]);
    assert(turned.current().blocks[c.cursor as int] == c2.current().blocks[c.cursor as int]);
    assert(c3.current().blocks[c.cursor as int] == turned.current().blocks[c.cursor as int]);
    assert(blocks[c.cursor as int] == c3.current().blocks[c.cursor as int]);

    // Nor is the merge block.
    assert(c2.current().blocks[n + 2] == opened.current().blocks[n + 2]);
    assert(turned.current().blocks[n + 2] == c2.current().blocks[n + 2]);
    assert(c3.current().blocks[n + 2] == turned.current().blocks[n + 2]);
    assert(blocks[n + 2] == c3.current().blocks[n + 2]);

    // The `else` block is empty until its body is lowered.
    assert(c2.current().blocks[n + 1] == opened.current().blocks[n + 1]);
    assert(turned.current().blocks[n + 1] == c2.current().blocks[n + 1]);

    // The block in which the `then` body ended keeps the branch.
    assert(c3.current().blocks[c2.cursor as int] == turned.current().blocks[c2.cursor as int]);
    assert(blocks[c2.cursor as int] == c3.current().blocks[c2.cursor as int]);

    // The `then` block keeps its kind.
    if c2.cursor != n {
        assert(turned.current().blocks[n] == c2.current().blocks[n]);
    }
    assert(c3.current().blocks[n] == turned.current().blocks[n]);
    assert(blocks[n] == c3.current().blocks[n]);
    if c3.cursor != n + 1 {
        assert(blocks[n + 1] == c3.current().blocks[n + 1]);
    }
    if then_body.len() == 0 {
        assert(blocks[n].instructions =~= seq![merge]);
    }
    if else_body.len() == 0 {
        assert(blocks[n + 1].instructions =~= seq![merge]);
    }
}

/// A loop produces exactly three blocks of its own behind those of its first
/// statement: a `LoopCondition`, a `LoopBody` and an `AfterLoop` block.
///
/// The block before the loop ends in a branch to the condition block, so the
/// condition is evaluated before the first iteration. The condition block
/// holds the condition's code, the test against zero and the conditional
/// branch to the body block and the block after the loop, its one
/// terminator. The block in which the body ends holds the step's code behind
/// the body's and then the branch back to the condition block, so the step
/// runs after every execution of the body and before the next test. Where
/// the context's branches all lead to its own blocks, the conditional branch
/// of the condition block is the only instruction that leads to the body
/// block: the body is entered only where the condition held.
pub proof fn law_loop_shape(
    c: CompilerView,
    init: StmtView,
    cond: ExprView,
    step: ExprView,
    body: Seq<StmtView>,
)
    requires
        c.positioned(),
        lower_stmt(c, StmtView::For(Box::new(init), cond, step, body)).0.block_count()
            <= usize::MAX,
        lower_stmt(c, StmtView::For(Box::new(init), cond, step, body)).1 is Ok,
    ensures
        ({
            let (c1, r1) = lower_stmt(c, init);
            let n = c1.block_count() as int;
            let back = InstructionView::Branch { target: n as usize };
            let (c2, r2) = lower_expr(open_loop(c1), cond);
            let (c3, r3) = lower_stmts(test_loop(c2, r2->Ok_0), body);
            let (c4, r4) = lower_expr(c3, step);
            let after = lower_stmt(c, StmtView::For(Box::new(init), cond, step, body)).0;
            let blocks = after.current().blocks;
            &&& n == c.block_count() + stmt_blocks(init)
            &&& after.block_count() == n + 3 + stmts_blocks(body)
            &&& blocks[n].kind == BlockKind::LoopCondition
            &&& blocks[n + 1].kind == BlockKind::LoopBody
            &&& blocks[n + 2].kind == BlockKind::AfterLoop
            &&& blocks[c1.cursor as int].instructions == c1.block().instructions.push(back)
            &&& blocks[n].instructions == c2.block().instructions.push(
                InstructionView::IsNonZero { value: r2->Ok_0 },
            ).push(
                InstructionView::CondBranch {
                    cond: c2.next_value(),
                    then_block: (n + 1) as usize,
                    else_block: (n + 2) as usize,
                },
            )
            &&& c3.block().instructions.is_prefix_of(c4.block().instructions)
            &&& blocks[c3.cursor as int].instructions == c4.block().instructions.push(back)
            &&& after.cursor == n + 2
            &&& blocks[n + 2].instructions.len() == 0
            &&& c.targets_known() ==> forall|b: int, i: int|
                0 <= b < blocks.len() && 0 <= i < blocks[b].instructions.len()
                    && #[trigger] blocks[b].instructions[i].branches_to(n + 1) ==> b == n && i
                    == blocks[n].instructions.len() - 1
        }),
{
    lemma_lower_stmt_count(c, StmtView::For(Box::new(init), cond, step, body));
    let (c1, r1) = lower_stmt(c, init);
    lemma_lower_stmt_count(c, init);
    lemma_loop_counts(c1, StmtView::For(Box::new(init), cond, step, body), cond, step, body);
    lemma_lower_stmt_continues(c, init);
    let n = c1.block_count() as int;
    let cond_block = n as usize;
    let after_block = (n + 2) as usize;
    let back = InstructionView::Branch { target: cond_block };
    let opened = open_loop(c1);
    lemma_open_loop(c1);
    lemma_continues_trans(c, c1, opened);
    let (c2, r2) = lower_expr(opened, cond);
    lemma_lower_expr_continues(opened, cond);
    lemma_continues_trans(c, opened, c2);
    let tested = test_loop(c2, r2->Ok_0);
    lemma_test_loop(c, c2, r2->Ok_0);
    let (c3, r3) = lower_stmts(tested, body);
    lemma_lower_stmts_continues(tested, body);
    lemma_continues_trans(c, tested, c3);
    let (c4, r4) = lower_expr(c3, step);
    lemma_lower_expr_continues(c3, step);
    lemma_continues_trans(c, c3, c4);
    lemma_continues_trans(tested, c3, c4);
    let after = jump(c4, cond_block, after_block);
    lemma_jump_continues(c, c4, cond_block, after_block);
    let blocks = after.current().blocks;

    // The block before the loop is not touched after the branch into the loop.
    assert(c2.current().blocks[c1.cursor as int] == opened.current().blocks[c1.cursor as int]);
    assert(tested.current().blocks[c1.cursor as int] == c2.current().blocks[c1.cursor as int]);
    assert(c4.current().blocks[c1.cursor as int] == tested.current().blocks[c1.cursor as int]);
    assert(blocks[c1.cursor as int] == c4.current().blocks[c1.cursor as int]);

    // The condition block is not touched after its terminator.
    assert(c4.current().blocks[n] == tested.current().blocks[n]);
    assert(blocks[n] == c4.current().blocks[n]);

    // The block after the loop stays empty.
    assert(c2.current().blocks[n + 2] == opened.current().blocks[n + 2]);
    assert(tested.current().blocks[n + 2] == c2.current().blocks[n + 2]);
    assert(c4.current().blocks[n + 2] == tested.current().blocks[n + 2]);
    assert(blocks[n + 2] == c4.current().blocks[n + 2]);

    // The body block keeps its kind.
    assert(c2.current().blocks[n + 1] == opened.current().blocks[n + 1]);
    assert(tested.current().blocks[n + 1] == c2.current().blocks[n + 1]);
    if c4.cursor != n + 1 {
        assert(blocks[n + 1] == c4.current().blocks[n + 1]);
    }
    if c.targets_known() {
        assert forall|b: int, i: int|
            0 <= b < blocks.len() && 0 <= i < blocks[b].instructions.len()
                && #[trigger] blocks[b].instructions[i].branches_to(n + 1) implies b == n && i
            == blocks[n].instructions.len() - 1 by {
            // The last branch leads to the condition block, so this one was
            // there before it.
            if b != c4.cursor {
                assert(blocks[b] == c4.current().blocks[b]);
            }
            assert(c4.current().blocks[b].instructions[i] == blocks[b].instructions[i]);
            // It was there when the body block was entered.
            lemma_branch_was_there(tested, c4, b, i, n + 1);
            if b == n {
                if i < c2.block().instructions.len() {
                    // It would belong to the condition's code.
                    lemma_branch_was_there(opened, c2, b, i, n + 1);
                }
            } else {
                // It would have been there before the loop was opened.
                assert(tested.current().blocks[b] == c2.current().blocks[b]);
                lemma_branch_was_there(opened, c2, b, i, n + 1);
                if b == c1.cursor && i == c1.block().instructions.len() {
                } else {
                    if b != c1.cursor {
                        assert(opened.current().blocks[b] == c1.current().blocks[b]);
                    }
                    assert(c1.current().blocks[b].instructions[i].branches_to(n + 1));
                    crate::locality::lemma_targets_known(c, c1);
                }
            }
        }
    }
}

/// The condition block of a loop is entered from two places and no other:
/// from the block before the loop, and from the block in which the body
/// ends, behind the step. So the condition is tested before every
/// iteration, the first included, and nothing else leads to it.
pub proof fn law_loop_entries(
    c: CompilerView,
    init: StmtView,
    cond: ExprView,
    step: ExprView,
    body: Seq<StmtView>,
)
    requires
        c.positioned(),
        c.targets_known(),
        lower_stmt(c, StmtView::For(Box::new(init), cond, step, body)).0.block_count()
            <= usize::MAX,
        lower_stmt(c, StmtView::For(Box::new(init), cond, step, body)).1 is Ok,
    ensures
        ({
            let (c1, r1) = lower_stmt(c, init);
            let n = c1.block_count() as int;
            let (c2, r2) = lower_expr(open_loop(c1), cond);
            let (c3, r3) = lower_stmts(test_loop(c2, r2->Ok_0), body);
            let (c4, r4) = lower_expr(c3, step);
            let after = lower_stmt(c, StmtView::For(Box::new(init), cond, step, body)).0;
            let blocks = after.current().blocks;
            forall|b: int, i: int|
                0 <= b < blocks.len() && 0 <= i < blocks[b].instructions.len()
                    && #[trigger] blocks[b].instructions[i].branches_to(n) ==> (b == c1.cursor
                    && i == c1.block().instructions.len()) || (b == c3.cursor && i
                    == c4.block().instructions.len())
        }),
{
    lemma_lower_stmt_count(c, StmtView::For(Box::new(init), cond, step, body));
    let (c1, r1) = lower_stmt(c, init);
    lemma_lower_stmt_count(c, init);
    lemma_loop_counts(c1, StmtView::For(Box::new(init), cond, step, body), cond, step, body);
    lemma_lower_stmt_continues(c, init);
    crate::locality::lemma_targets_known(c, c1);
    let n = c1.block_count() as int;
    let cond_block = n as usize;
    let after_block = (n + 2) as usize;
    let opened = open_loop(c1);
    lemma_open_loop(c1);
    let (c2, r2) = lower_expr(opened, cond);
    lemma_lower_expr_continues(opened, cond);
    lemma_continues_trans(c1, opened, c2);
    let tested = test_loop(c2, r2->Ok_0);
    lemma_test_loop(c1, c2, r2->Ok_0);
    let (c3, r3) = lower_stmts(tested, body);
    lemma_lower_stmts_continues(tested, body);
    let (c4, r4) = lower_expr(c3, step);
    lemma_lower_expr_continues(c3, step);
    lemma_continues_trans(tested, c3, c4);
    lemma_continues_trans(c1, tested, c4);
    let after = jump(c4, cond_block, after_block);
    lemma_jump_continues(c1, c4, cond_block, after_block);
    let blocks = after.current().blocks;
    assert forall|b: int, i: int|
        0 <= b < blocks.len() && 0 <= i < blocks[b].instructions.len()
            && #[trigger] blocks[b].instructions[i].branches_to(n) implies (b == c1.cursor && i
        == c1.block().instructions.len()) || (b == c3.cursor && i
        == c4.block().instructions.len()) by {
        if b == c4.cursor && i == c4.block().instructions.len() {
            // The branch back from the end of the body.
        } else {
            if b != c4.cursor {
                assert(blocks[b] == c4.current().blocks[b]);
            }
            assert(c4.current().blocks[b].instructions[i] == blocks[b].instructions[i]);
            // It was there when the body block was entered.
            lemma_branch_was_there(tested, c4, b, i, n);
            if b == n {
                if i < c2.block().instructions.len() {
                    // It would belong to the condition's code, in a block
                    // that was empty when the loop was opened.
                    lemma_branch_was_there(opened, c2, b, i, n);
                }
            } else {
                assert(tested.current().blocks[b] == c2.current().blocks[b]);
                lemma_branch_was_there(opened, c2, b, i, n);
                if b == c1.cursor && i == c1.block().instructions.len() {
                    // The branch from the block before the loop.
                } else {
                    // It would have been there before the loop was opened,
                    // and led to a block that was not there yet.
                    if b != c1.cursor {
                        assert(opened.current().blocks[b] == c1.current().blocks[b]);
                    }
                    assert(c1.current().blocks[b].instructions[i].branches_to(n));
                }
            }
        }
    }
}

/// What the entry block holds when the body is lowered: for each parameter,
/// from left to right, the store of its incoming value to its slot.
pub open spec fn param_stores(params: Seq<Seq<char>>) -> Seq<InstructionView> {
    Seq::new(
        params.len(),
        |i: int| InstructionView::Store { slot: i as usize, value: Value::Param(i as usize) },
    )
}

/// The slot of each parameter name: its position among the parameters, the
/// last one where the name stands more than once.
pub open spec fn slot_map(params: Seq<Seq<char>>) -> Map<Seq<char>, usize>
    decreases params.len(),
{
    if params.len() == 0 {
        Map::empty()
    } else {
        slot_map(params.drop_last()).insert(params.last(), (params.len() - 1) as usize)
    }
}

/// The context in which a body is lowered: the function is the last of the
/// module, it has one slot for each parameter and an entry block that holds
/// the parameters' stores, and exactly the parameters' names are bound.
pub proof fn lemma_begin_function(module: Seq<LoweredFunctionView>, f: FunctionView)
    requires
        module.len() <= usize::MAX,
        f.args.len() <= usize::MAX,
    ensures
        ({
            let c = begin_function(module, f);
            &&& c.positioned()
            &&& c.targets_known()
            &&& c.cursor == 0
            &&& c.function == Some(module.len() as usize)
            &&& c.module == module.push(c.current())
            &&& c.finished() == module
            &&& c.current() == (LoweredFunctionView {
                name: f.name,
                params: f.args,
                slots: f.args,
                blocks: seq![
                    BlockView { kind: BlockKind::Entry, instructions: param_stores(f.args) },
                ],
            })
            &&& forall|name: Seq<char>| c.variables.contains_key(name) <==> f.args.contains(name)
            &&& c.variables == slot_map(f.args)
        }),
{
    reveal(CompilerView::declare);
    reveal(CompilerView::append_block);
    reveal(CompilerView::with_current);
    let declared = CompilerView::idle(module).declare(f);
    let start = declared.append_block(BlockKind::Entry);
    assert(start.current().blocks =~= seq![
        BlockView { kind: BlockKind::Entry, instructions: Seq::empty() },
    ]);
    assert(start.module =~= module.push(start.current()));
    assert(start.module.drop_last() =~= module);
    lemma_bind_params(start, f.args, f.args.len() as int);
    assert(f.args.take(f.args.len() as int) =~= f.args);
    let c = begin_function(module, f);
    assert(c.current().slots =~= f.args);
    assert(c.block().instructions =~= param_stores(f.args));
    assert(c.current().blocks =~= seq![
        BlockView { kind: BlockKind::Entry, instructions: param_stores(f.args) },
    ]);
    assert(c.module =~= module.push(c.current()));
    assert(c.module.drop_last() =~= module);
    assert forall|name: Seq<char>| c.variables.contains_key(name) <==> f.args.contains(name) by {
        if f.args.contains(name) {
            let i = choose|i: int| 0 <= i < f.args.len() && f.args[i] == name;
            assert(f.args.take(f.args.len() as int)[i] == name);
        }
    }
}

/// What binding the first `n` parameters does to a context that has one
/// empty block and no slots yet.
proof fn lemma_bind_params(start: CompilerView, params: Seq<Seq<char>>, n: int)
    requires
        start.positioned(),
        start.cursor == 0,
        start.block_count() == 1,
        start.block().instructions.len() == 0,
        start.current().slots.len() == 0,
        start.variables == Map::<Seq<char>, usize>::empty(),
        0 <= n <= params.len() <= usize::MAX,
    ensures
        ({
            let c = bind_params(start, params.take(n));
            &&& c.continues(start)
            &&& c.targets_known()
            &&& c.cursor == 0
            &&& c.block_count() == 1
            &&& c.current().slots == params.take(n)
            &&& c.block().instructions == param_stores(params.take(n))
            &&& c.block().kind == start.block().kind
            &&& forall|name: Seq<char>|
                c.variables.contains_key(name) <==> exists|i: int|
                    0 <= i < n && #[trigger] params.take(n)[i] == name
            &&& c.variables == slot_map(params.take(n))
        }),
    decreases n,
{
    let taken = params.take(n);
    if n == 0 {
        assert(start.current().slots =~= taken);
        assert(start.block().instructions =~= param_stores(taken));
    } else {
        assert(taken.drop_last() =~= params.take(n - 1));
        lemma_bind_params(start, params, n - 1);
        let before = bind_params(start, params.take(n - 1));
        let name = taken.last();
        let bound = before.bind(name);
        lemma_bind_continues(before, name);
        lemma_continues_trans(start, before, bound);
        let store = InstructionView::Store {
            slot: bound.variables[name],
            value: Value::Param((n - 1) as usize),
        };
        lemma_emit_continues(bound, store);
        let c = bound.emit(store);
        lemma_continues_trans(start, bound, c);
        assert(c == bind_params(start, taken));
        assert(c.current().slots =~= taken);
        assert(c.block().instructions =~= param_stores(taken));
        assert(c.current().blocks[0] == c.block());
        assert forall|b: int, i: int, t: int|
            #![trigger c.current().blocks[b].instructions[i].branches_to(t)]
            0 <= b < c.block_count() && 0 <= i < c.current().blocks[b].instructions.len()
                && c.current().blocks[b].instructions[i].branches_to(t) implies 0 <= t
            < c.block_count() by {
            assert(c.current().blocks[b].instructions[i] == param_stores(taken)[i]);
        }
        assert forall|x: Seq<char>|
            c.variables.contains_key(x) <==> exists|i: int|
                0 <= i < n && #[trigger] taken[i] == x by {
            if c.variables.contains_key(x) {
                if x == name {
                    assert(taken[n - 1] == x);
                } else {
                    let i = choose|i: int| 0 <= i < n - 1 && #[trigger] params.take(n - 1)[i] == x;
                    assert(taken[i] == x);
                }
            }
            if exists|i: int| 0 <= i < n && #[trigger] taken[i] == x {
                let i = choose|i: int| 0 <= i < n && #[trigger] taken[i] == x;
                if i < n - 1 {
                    assert(params.take(n - 1)[i] == x);
                }
            }
        }
    }
}

/// A function that fails to lower or to verify is absent from the module:
/// the module is what it was, and the context is idle.
pub proof fn law_failure_leaves_no_function(c: CompilerView, f: FunctionView)
    requires
        lower_function(c, f).1 is Err,
    ensures
        lower_function(c, f).0 == CompilerView::idle(c.finished()),
{
}

/// A function that lowers and verifies joins the module as its last
/// function, the functions before it are what they were, and the function is
/// structurally valid.
pub proof fn law_success_adds_one_function(c: CompilerView, f: FunctionView)
    requires
        c.finished().len() <= usize::MAX,
        f.args.len() <= usize::MAX,
        lower_function(c, f).0.module.last().blocks.len() <= usize::MAX,
        lower_function(c, f).1 is Ok,
    ensures
        ({
            let (after, r) = lower_function(c, f);
            &&& r == Ok::<usize, CompileError>(c.finished().len() as usize)
            &&& after.function is None
            &&& after.module.len() == c.finished().len() + 1
            &&& after.module.drop_last() == c.finished()
            &&& after.module.last().structurally_valid()
            &&& after.module.last().name == f.name
            &&& after.module.last().params == f.args
            &&& after.module.last().blocks.len() == 1 + stmts_blocks(f.body)
        }),
{
    let module = c.finished();
    let start = begin_function(module, f);
    lemma_begin_function(module, f);
    lemma_lower_stmts_count(start, f.body);
    let (c1, r1) = lower_stmts(start, f.body);
    assert(c1.current() == c1.module.last());
    lemma_lower_stmts_continues(start, f.body);
    assert(c1.module.drop_last() == module);
}

/// Returning an integer literal: the function lowers to its entry block
/// alone, which holds the parameters' stores and the return of the constant
/// with exactly the literal's value, and it passes structural verification.
pub proof fn law_return_literal(c: CompilerView, f: FunctionView, n: i64)
    requires
        c.finished().len() <= usize::MAX,
        f.args.len() <= usize::MAX,
        f.body == seq![StmtView::Return(ExprView::IntLiteral(n))],
    ensures
        lower_function(c, f) == (
            CompilerView::idle(
                c.finished().push(
                    LoweredFunctionView {
                        name: f.name,
                        params: f.args,
                        slots: f.args,
                        blocks: seq![
                            BlockView {
                                kind: BlockKind::Entry,
                                instructions: param_stores(f.args).push(
                                    InstructionView::Return { value: Value::Const(n) },
                                ),
                            },
                        ],
                    },
                ),
            ),
            Ok::<usize, CompileError>(c.finished().len() as usize),
        ),
{
    let module = c.finished();
    let start = begin_function(module, f);
    lemma_begin_function(module, f);
    let ret = InstructionView::Return { value: Value::Const(n) };
    assert(f.body.drop_last() =~= Seq::<StmtView>::empty());
    assert(f.body.last() == StmtView::Return(ExprView::IntLiteral(n)));
    assert(lower_stmts(start, f.body.drop_last()) == (start, Ok::<(), CompileError>(())));
    assert(lower_expr(start, ExprView::IntLiteral(n)) == (
        start,
        Ok::<Value, CompileError>(Value::Const(n)),
    ));
    assert(lower_stmt(start, f.body.last()) == (start.emit(ret), Ok::<(), CompileError>(())));
    let (c1, r1) = lower_stmts(start, f.body);
    assert(c1 == start.emit(ret));
    lemma_emit_continues(start, ret);
    let lowered = c1.current();
    let block = BlockView {
        kind: BlockKind::Entry,
        instructions: param_stores(f.args).push(ret),
    };
    assert(lowered.blocks =~= seq![block]);
    assert(lowered.slots == f.args);
    assert(block.well_terminated()) by {
        assert(block.instructions.last() == ret);
    }
    assert(forall|t: int| !block.leads_to(t)) by {
        assert(block.instructions.last() == ret);
    }
    assert(lowered.structurally_valid());
    assert(c1.module =~= module.push(lowered));
}

/// Reading a name that no parameter binds, in the first statement, fails
/// with `UnresolvedSymbol`, and the module is left as it was.
pub proof fn law_unbound_name_fails(c: CompilerView, f: FunctionView, name: Seq<char>)
    requires
        c.finished().len() <= usize::MAX,
        f.args.len() <= usize::MAX,
        f.body.len() > 0,
        f.body[0] == StmtView::Return(ExprView::Name(name)),
        !f.args.contains(name),
    ensures
        lower_function(c, f) == (
            CompilerView::idle(c.finished()),
            Err::<usize, CompileError>(CompileError::UnresolvedSymbol),
        ),
{
    let start = begin_function(c.finished(), f);
    lemma_begin_function(c.finished(), f);
    assert(f.body.take(1).drop_last() =~= Seq::<StmtView>::empty());
    assert(f.body.take(1).last() == f.body[0]);
    assert(lower_stmts(start, f.body.take(1).drop_last()).1 is Ok);
    assert(lower_stmts(start, f.body.take(1)) == lower_stmt(start, f.body[0]));
    lemma_lower_stmts_stops(start, f.body, 1);
}

/// Calling a name that no function of the module has, the function itself
/// included, fails with `UnknownFunction`, and the module is left as it was.
pub proof fn law_unknown_function_fails(
    c: CompilerView,
    f: FunctionView,
    callee: Seq<char>,
    args: Seq<ExprView>,
)
    requires
        c.finished().len() <= usize::MAX,
        f.args.len() <= usize::MAX,
        f.body.len() > 0,
        f.body[0] == StmtView::Return(ExprView::Call(callee, args)),
        f.name != callee,
        forall|i: int| 0 <= i < c.finished().len() ==> c.finished()[i].name != callee,
    ensures
        lower_function(c, f) == (
            CompilerView::idle(c.finished()),
            Err::<usize, CompileError>(CompileError::UnknownFunction),
        ),
{
    let module = c.finished();
    let start = begin_function(module, f);
    lemma_begin_function(module, f);
    lemma_first_named(start.module, callee, 0);
    assert(first_named(start.module, callee, 0) == start.module.len()) by {
        let i = first_named(start.module, callee, 0);
        if i < start.module.len() {
            if i < module.len() {
                assert(start.module[i] == module[i]);
            }
        }
    }
    assert(f.body.take(1).drop_last() =~= Seq::<StmtView>::empty());
    assert(f.body.take(1).last() == f.body[0]);
    assert(lower_stmts(start, f.body.take(1).drop_last()).1 is Ok);
    assert(lower_stmts(start, f.body.take(1)) == lower_stmt(start, f.body[0]));
    lemma_lower_stmts_stops(start, f.body, 1);
}

/// Lowering is a function of the finished module and the syntax tree alone:
/// two contexts over the same finished functions lower the same function to
/// the same blocks, whatever either of them was building before.
pub proof fn law_lowering_is_repeatable(c1: CompilerView, c2: CompilerView, f: FunctionView)
    requires
        c1.finished() == c2.finished(),
    ensures
        lower_function(c1, f) == lower_function(c2, f),
{
}

/// A run that stands before the store of parameter `k` in an entry block
/// that holds the parameters' stores and then the return of a constant
/// returns the constant, given fuel for the instructions that are left.
proof fn lemma_stores_then_return(
    module: Seq<LoweredFunctionView>,
    index: int,
    frame: FrameView,
    args: Seq<i64>,
    n: i64,
    k: int,
    fuel: nat,
)
    requires
        0 <= index < module.len(),
        module[index].blocks.len() == 1,
        module[index].blocks[0].instructions == param_stores(module[index].params).push(
            InstructionView::Return { value: Value::Const(n) },
        ),
        module[index].params.len() <= usize::MAX,
        frame.slots.len() == module[index].params.len(),
        args.len() == module[index].params.len(),
        0 <= k <= module[index].params.len(),
        fuel > module[index].params.len() - k,
    ensures
        execute(module, index, frame, args, 0, k, fuel) == Outcome::Returned(n),
    decreases module[index].params.len() - k,
{
    let instructions = module[index].blocks[0].instructions;
    if k < module[index].params.len() {
        assert(instructions[k] == InstructionView::Store {
            slot: k as usize,
            value: Value::Param(k as usize),
        });
        lemma_stores_then_return(
            module,
            index,
            frame.store(k, args[k]),
            args,
            n,
            k + 1,
            (fuel - 1) as nat,
        );
    } else {
        assert(instructions[k] == InstructionView::Return { value: Value::Const(n) });
    }
}

/// For every integer literal, the function that returns it returns exactly
/// its value when it is run, whatever its arguments are, given fuel for the
/// parameters' stores and the return.
pub proof fn law_return_literal_runs(
    c: CompilerView,
    f: FunctionView,
    n: i64,
    args: Seq<i64>,
    fuel: nat,
)
    requires
        c.finished().len() <= usize::MAX,
        f.args.len() <= usize::MAX,
        f.body == seq![StmtView::Return(ExprView::IntLiteral(n))],
        args.len() == f.args.len(),
        fuel >= f.args.len() + 2,
    ensures
        lower_function(c, f).1 == Ok::<usize, CompileError>(c.finished().len() as usize),
        run(lower_function(c, f).0.module, c.finished().len() as int, args, fuel)
            == Outcome::Returned(n),
{
    law_return_literal(c, f, n);
    let module = lower_function(c, f).0.module;
    let index = c.finished().len() as int;
    lemma_stores_then_return(
        module,
        index,
        FrameView::fresh(module[index]),
        args,
        n,
        0,
        (fuel - 1) as nat,
    );
}

} // verus!
