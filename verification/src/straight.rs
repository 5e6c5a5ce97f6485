//! A function whose only `return` is its last statement passes structural
//! verification whenever it can be lowered. This module proves it, by
//! following through the lowering what is finished, what is still open and
//! what can be reached.

use vstd::prelude::*;
use crate::internal_representations::gast::{ExprView, FunctionView, StmtView};
use crate::ir::{
    BlockKind,
    BlockView,
    InstructionView,
    Value,
    find_function,
    is_path,
    lemma_entry_reachable,
    lemma_reachable_step,
    reachable,
};
use crate::laws::lemma_begin_function;
use crate::locality::{
    lemma_continues_trans,
    lemma_lower_expr_continues,
    lemma_lower_stmts_continues,
    lemma_lower_stmts_count,
    stmt_blocks,
    stmts_blocks,
};
use crate::lowering::{
    CompileError,
    CompilerView,
    jump,
    lower_args,
    lower_expr,
    lower_function,
    lower_stmt,
    lower_stmts,
    begin_function,
    open_conditional,
    open_loop,
    test_loop,
};

verus! {

/// Whether no `return` stands in the statement, however deep.
pub open spec fn straight(s: StmtView) -> bool
    decreases s,
{
    match s {
        StmtView::Return(_) => false,
        StmtView::If(_, then_body, else_body) => all_straight(then_body) && all_straight(else_body),
        StmtView::For(init, _, _, body) => straight(*init) && all_straight(body),
        _ => true,
    }
}

/// Whether no `return` stands in the statements, however deep.
pub open spec fn all_straight(stmts: Seq<StmtView>) -> bool
    decreases stmts,
{
    stmts.len() == 0 || (all_straight(stmts.drop_last()) && straight(stmts.last()))
}

impl BlockView {
    /// The block holds no terminator yet.
    pub open spec fn open(self) -> bool {
        forall|i: int|
            0 <= i < self.instructions.len() ==> !(#[trigger] self.instructions[i]).is_terminator()
    }
}

impl CompilerView {
    /// The state of a function in the middle of lowering: the block at the
    /// cursor is open; the blocks in `pending` are empty and wait for their
    /// turn; every other block is finished, with its one terminator at its
    /// end. Every branch leads to a block of the function, and every block
    /// that is not pending can be reached from the entry block.
    pub open spec fn tidy(self, pending: Set<int>) -> bool {
        &&& self.positioned()
        &&& self.block_count() <= usize::MAX
        &&& self.targets_known()
        &&& !pending.contains(self.cursor as int)
        &&& forall|b: int| pending.contains(b) ==> 0 <= b < self.block_count()
        &&& self.block().open()
        &&& forall|b: int|
            0 <= b < self.block_count() && pending.contains(b) ==> (
            #[trigger] self.current().blocks[b]).instructions.len() == 0
        &&& forall|b: int|
            0 <= b < self.block_count() && !pending.contains(b) && b != self.cursor ==> (
            #[trigger] self.current().blocks[b]).well_terminated()
        &&& forall|b: int|
            0 <= b < self.block_count() && !pending.contains(b) ==> #[trigger] reachable(
                self.current().blocks,
                b,
            )
    }
}

/// What can be reached stays within reach when blocks are appended and one
/// block that led nowhere changes.
pub proof fn lemma_reach_kept(before: Seq<BlockView>, after: Seq<BlockView>, changed: int, block: int)
    requires
        before.len() <= after.len(),
        forall|b: int| 0 <= b < before.len() && b != changed ==> after[b] == before[b],
        forall|t: int| !before[changed].leads_to(t),
        reachable(before, block),
    ensures
        reachable(after, block),
{
    let path = choose|path: Seq<int>| is_path(before, path) && path.last() == block;
    assert forall|i: int| 0 <= i < path.len() - 1 implies after[#[trigger] path[i]].leads_to(
        path[i + 1],
    ) by {
        assert(before[path[i]].leads_to(path[i + 1]));
    }
    assert(is_path(after, path) && path.last() == block);
}

/// An open block leads nowhere.
pub proof fn lemma_open_leads_nowhere(block: BlockView)
    requires
        block.open(),
    ensures
        forall|t: int| !block.leads_to(t),
{
    if block.instructions.len() > 0 {
        assert(!block.instructions[block.instructions.len() - 1].is_terminator());
    }
}

/// An instruction that is no terminator, emitted at the cursor, keeps the
/// function tidy.
pub proof fn lemma_emit_tidy(c: CompilerView, pending: Set<int>, instruction: InstructionView)
    requires
        c.tidy(pending),
        !instruction.is_terminator(),
    ensures
        c.emit(instruction).tidy(pending),
        c.emit(instruction).cursor == c.cursor,
        c.emit(instruction).block_count() == c.block_count(),
        c.emit(instruction).variables == c.variables,
{
    reveal(CompilerView::emit);
    reveal(CompilerView::with_current);
    let after = c.emit(instruction);
    let blocks = c.current().blocks;
    let grown = after.current().blocks;
    lemma_open_leads_nowhere(c.block());
    assert forall|b: int| 0 <= b < after.block_count() && !pending.contains(b) implies #[trigger] reachable(
        grown,
        b,
    ) by {
        assert(reachable(blocks, b));
        lemma_reach_kept(blocks, grown, c.cursor as int, b);
    }
    assert forall|b: int, i: int, t: int|
        #![trigger after.current().blocks[b].instructions[i].branches_to(t)]
        0 <= b < after.block_count() && 0 <= i < after.current().blocks[b].instructions.len()
            && after.current().blocks[b].instructions[i].branches_to(t) implies 0 <= t
        < after.block_count() by {
        if b == c.cursor && i == c.block().instructions.len() {
        } else {
            assert(grown[b].instructions[i] == blocks[b].instructions[i]);
            assert(blocks[b].instructions[i].branches_to(t));
        }
    }
    assert forall|b: int|
        0 <= b < after.block_count() && !pending.contains(b) && b != after.cursor implies (
    #[trigger] grown[b]).well_terminated() by {
        assert(grown[b] == blocks[b]);
    }
    assert forall|b: int| 0 <= b < after.block_count() && pending.contains(b) implies (
    #[trigger] grown[b]).instructions.len() == 0 by {
        assert(grown[b] == blocks[b]);
    }
}

/// Lowering an expression keeps the function tidy, whether it succeeds or
/// not: an expression emits no terminator.
pub proof fn lemma_lower_expr_tidy(c: CompilerView, pending: Set<int>, e: ExprView)
    requires
        c.tidy(pending),
    ensures
        lower_expr(c, e).0.tidy(pending),
        lower_expr(c, e).0.cursor == c.cursor,
        lower_expr(c, e).0.block_count() == c.block_count(),
        lower_expr(c, e).0.variables == c.variables,
    decreases e,
{
    match e {
        ExprView::IntLiteral(_) => {},
        ExprView::StringLiteral(_) => {},
        ExprView::Name(name) => {
            if c.variables.contains_key(name) {
                lemma_emit_tidy(c, pending, InstructionView::Load { slot: c.variables[name] });
            }
        },
        ExprView::Binary(op, left, right) => {
            let (c1, r1) = lower_expr(c, *left);
            lemma_lower_expr_tidy(c, pending, *left);
            if let Ok(lhs) = r1 {
                let (c2, r2) = lower_expr(c1, *right);
                lemma_lower_expr_tidy(c1, pending, *right);
                if let Ok(rhs) = r2 {
                    lemma_emit_tidy(c2, pending, InstructionView::Binary { op, lhs, rhs });
                }
            }
        },
        ExprView::Call(name, args) => {
            if let Some(callee) = find_function(c.module, name) {
                let (c1, r1) = lower_args(c, args);
                lemma_lower_args_tidy(c, pending, args);
                if let Ok(values) = r1 {
                    lemma_emit_tidy(c1, pending, InstructionView::Call { callee, args: values });
                }
            }
        },
    }
}

/// Lowering arguments keeps the function tidy.
pub proof fn lemma_lower_args_tidy(c: CompilerView, pending: Set<int>, args: Seq<ExprView>)
    requires
        c.tidy(pending),
    ensures
        lower_args(c, args).0.tidy(pending),
        lower_args(c, args).0.cursor == c.cursor,
        lower_args(c, args).0.block_count() == c.block_count(),
        lower_args(c, args).0.variables == c.variables,
    decreases args,
{
    if args.len() > 0 {
        let (c1, r1) = lower_args(c, args.drop_last());
        lemma_lower_args_tidy(c, pending, args.drop_last());
        if r1 is Ok {
            lemma_lower_expr_tidy(c1, pending, args.last());
        }
    }
}

/// Appending a block keeps the function tidy; the new block is pending.
pub proof fn lemma_append_tidy(c: CompilerView, pending: Set<int>, kind: BlockKind)
    requires
        c.tidy(pending),
        c.block_count() < usize::MAX,
    ensures
        c.append_block(kind).tidy(pending.insert(c.block_count() as int)),
        c.append_block(kind).cursor == c.cursor,
        c.append_block(kind).block_count() == c.block_count() + 1,
        c.append_block(kind).variables == c.variables,
        forall|b: int|
            0 <= b < c.block_count() ==> (#[trigger] c.append_block(kind).current().blocks[b])
                == c.current().blocks[b],
{
    reveal(CompilerView::append_block);
    reveal(CompilerView::with_current);
    let after = c.append_block(kind);
    let blocks = c.current().blocks;
    let grown = after.current().blocks;
    let waiting = pending.insert(c.block_count() as int);
    lemma_open_leads_nowhere(c.block());
    assert forall|b: int| 0 <= b < after.block_count() && !waiting.contains(b) implies #[trigger] reachable(
        grown,
        b,
    ) by {
        assert(reachable(blocks, b));
        lemma_reach_kept(blocks, grown, c.cursor as int, b);
    }
    assert forall|b: int, i: int, t: int|
        #![trigger after.current().blocks[b].instructions[i].branches_to(t)]
        0 <= b < after.block_count() && 0 <= i < after.current().blocks[b].instructions.len()
            && after.current().blocks[b].instructions[i].branches_to(t) implies 0 <= t
        < after.block_count() by {
        assert(grown[b].instructions[i] == blocks[b].instructions[i]);
        assert(blocks[b].instructions[i].branches_to(t));
    }
    assert forall|b: int|
        0 <= b < after.block_count() && !waiting.contains(b) && b != after.cursor implies (
    #[trigger] grown[b]).well_terminated() by {
        assert(grown[b] == blocks[b]);
    }
    assert forall|b: int| 0 <= b < after.block_count() && waiting.contains(b) implies (
    #[trigger] grown[b]).instructions.len() == 0 by {
        if b < c.block_count() {
            assert(grown[b] == blocks[b]);
        }
    }
}

/// Ending the block at the cursor with a branch and moving the cursor to a
/// pending block keeps the function tidy, where the branch leads to blocks
/// of the function and the pending block is led to: by the branch itself,
/// or by the finished block `via`.
pub proof fn lemma_branch_tidy(
    c: CompilerView,
    pending: Set<int>,
    branch: InstructionView,
    next: usize,
    via: int,
)
    requires
        c.tidy(pending),
        branch is Branch || branch is CondBranch,
        forall|t: int| branch.branches_to(t) ==> 0 <= t < c.block_count(),
        pending.contains(next as int),
        (via == c.cursor && branch.branches_to(next as int)) || (0 <= via < c.block_count()
            && !pending.contains(via) && via != c.cursor && c.current().blocks[via].leads_to(
            next as int,
        )),
    ensures
        c.emit(branch).set_cursor(next).tidy(pending.remove(next as int)),
        c.emit(branch).set_cursor(next).cursor == next,
        c.emit(branch).set_cursor(next).block_count() == c.block_count(),
        c.emit(branch).set_cursor(next).variables == c.variables,
        c.emit(branch).set_cursor(next).current().blocks[c.cursor as int].instructions
            == c.block().instructions.push(branch),
        forall|b: int|
            0 <= b < c.block_count() && b != c.cursor ==> (#[trigger] c.emit(branch).set_cursor(
                next,
            ).current().blocks[b]) == c.current().blocks[b],
{
    reveal(CompilerView::emit);
    reveal(CompilerView::with_current);
    reveal(CompilerView::set_cursor);
    let after = c.emit(branch).set_cursor(next);
    let blocks = c.current().blocks;
    let grown = after.current().blocks;
    let waiting = pending.remove(next as int);
    let k = c.cursor as int;
    lemma_open_leads_nowhere(c.block());
    assert(grown[k].instructions.last() == branch);
    assert(grown[k].well_terminated());
    assert forall|b: int| 0 <= b < after.block_count() && !waiting.contains(b) implies #[trigger] reachable(
        grown,
        b,
    ) by {
        if b == next {
            assert(reachable(blocks, via));
            lemma_reach_kept(blocks, grown, k, via);
            if via != k {
                assert(grown[via] == blocks[via]);
            }
            assert(grown[via].leads_to(next as int));
            lemma_reachable_step(grown, via, next as int);
        } else {
            assert(reachable(blocks, b));
            lemma_reach_kept(blocks, grown, k, b);
        }
    }
    assert forall|b: int, i: int, t: int|
        #![trigger after.current().blocks[b].instructions[i].branches_to(t)]
        0 <= b < after.block_count() && 0 <= i < after.current().blocks[b].instructions.len()
            && after.current().blocks[b].instructions[i].branches_to(t) implies 0 <= t
        < after.block_count() by {
        if b == k && i == c.block().instructions.len() {
        } else {
            assert(grown[b].instructions[i] == blocks[b].instructions[i]);
            assert(blocks[b].instructions[i].branches_to(t));
        }
    }
    assert forall|b: int|
        0 <= b < after.block_count() && !waiting.contains(b) && b != after.cursor implies (
    #[trigger] grown[b]).well_terminated() by {
        if b != k {
            assert(grown[b] == blocks[b]);
        }
    }
    assert forall|b: int| 0 <= b < after.block_count() && waiting.contains(b) implies (
    #[trigger] grown[b]).instructions.len() == 0 by {
        assert(grown[b] == blocks[b]);
    }
    assert(grown[next as int] == blocks[next as int]);
    assert(after.block().open());
}

/// Binding a name keeps the function tidy: it touches no block.
pub proof fn lemma_bind_tidy(c: CompilerView, pending: Set<int>, name: Seq<char>)
    requires
        c.tidy(pending),
    ensures
        c.bind(name).tidy(pending),
        c.bind(name).cursor == c.cursor,
        c.bind(name).block_count() == c.block_count(),
{
    reveal(CompilerView::bind);
    reveal(CompilerView::alloca);
    reveal(CompilerView::with_current);
    let after = c.bind(name);
    assert(after.current().blocks == c.current().blocks);
}

/// What `open_conditional` leaves: the `Then` block at the cursor, the
/// `Else` and the `Merge` block pending, and the block before the
/// conditional finished, leading to the `Else` block too.
proof fn lemma_open_conditional_tidy(c: CompilerView, pending: Set<int>, value: Value)
    requires
        c.tidy(pending),
        c.block_count() + 3 <= usize::MAX,
    ensures
        ({
            let after = open_conditional(c, value);
            let n = c.block_count() as int;
            &&& after.tidy(pending.insert(n + 1).insert(n + 2))
            &&& after.cursor == n
            &&& after.block_count() == n + 3
            &&& after.current().blocks[c.cursor as int].leads_to(n + 1)
        }),
{
    let n = c.block_count() as int;
    let test = InstructionView::IsNonZero { value };
    let a1 = c.emit(test);
    lemma_emit_tidy(c, pending, test);
    let a2 = a1.append_block(BlockKind::Then);
    lemma_append_tidy(a1, pending, BlockKind::Then);
    let p2 = pending.insert(n);
    let a3 = a2.append_block(BlockKind::Else);
    lemma_append_tidy(a2, p2, BlockKind::Else);
    let p3 = p2.insert(n + 1);
    let a4 = a3.append_block(BlockKind::Merge);
    lemma_append_tidy(a3, p3, BlockKind::Merge);
    let p4 = p3.insert(n + 2);
    let branch = InstructionView::CondBranch {
        cond: c.next_value(),
        then_block: n as usize,
        else_block: (n + 1) as usize,
    };
    lemma_branch_tidy(a4, p4, branch, n as usize, c.cursor as int);
    assert(p4.remove(n) =~= pending.insert(n + 1).insert(n + 2));
    let after = open_conditional(c, value);
    assert(after.current().blocks[c.cursor as int].instructions.last() == branch);
}

/// What `open_loop` leaves: the condition block at the cursor, the body
/// block and the block after the loop pending.
proof fn lemma_open_loop_tidy(c: CompilerView, pending: Set<int>)
    requires
        c.tidy(pending),
        c.block_count() + 3 <= usize::MAX,
    ensures
        ({
            let after = open_loop(c);
            let n = c.block_count() as int;
            &&& after.tidy(pending.insert(n + 1).insert(n + 2))
            &&& after.cursor == n
            &&& after.block_count() == n + 3
        }),
{
    let n = c.block_count() as int;
    let a1 = c.append_block(BlockKind::LoopCondition);
    lemma_append_tidy(c, pending, BlockKind::LoopCondition);
    let p1 = pending.insert(n);
    let a2 = a1.append_block(BlockKind::LoopBody);
    lemma_append_tidy(a1, p1, BlockKind::LoopBody);
    let p2 = p1.insert(n + 1);
    let a3 = a2.append_block(BlockKind::AfterLoop);
    lemma_append_tidy(a2, p2, BlockKind::AfterLoop);
    let p3 = p2.insert(n + 2);
    lemma_branch_tidy(
        a3,
        p3,
        InstructionView::Branch { target: n as usize },
        n as usize,
        c.cursor as int,
    );
    assert(p3.remove(n) =~= pending.insert(n + 1).insert(n + 2));
}

/// What `test_loop` leaves: the body block at the cursor, and the condition
/// block finished, leading to the block after the loop too.
proof fn lemma_test_loop_tidy(c: CompilerView, pending: Set<int>, value: Value)
    requires
        c.tidy(pending),
        pending.contains(c.cursor + 1),
        c.cursor + 2 < c.block_count(),
    ensures
        ({
            let after = test_loop(c, value);
            &&& after.tidy(pending.remove(c.cursor + 1))
            &&& after.cursor == c.cursor + 1
            &&& after.block_count() == c.block_count()
            &&& after.current().blocks[c.cursor as int].leads_to(c.cursor + 2)
        }),
{
    let test = InstructionView::IsNonZero { value };
    let a1 = c.emit(test);
    lemma_emit_tidy(c, pending, test);
    let branch = InstructionView::CondBranch {
        cond: c.next_value(),
        then_block: (c.cursor + 1) as usize,
        else_block: (c.cursor + 2) as usize,
    };
    lemma_branch_tidy(a1, pending, branch, (c.cursor + 1) as usize, c.cursor as int);
    let after = test_loop(c, value);
    assert(after.current().blocks[c.cursor as int].instructions.last() == branch);
}

/// Lowering a statement without a `return` keeps the function tidy.
pub proof fn lemma_lower_stmt_tidy(c: CompilerView, pending: Set<int>, s: StmtView)
    requires
        c.tidy(pending),
        straight(s),
        c.block_count() + stmt_blocks(s) <= usize::MAX,
        lower_stmt(c, s).1 is Ok,
    ensures
        lower_stmt(c, s).0.tidy(pending),
        lower_stmt(c, s).0.block_count() == c.block_count() + stmt_blocks(s),
    decreases s,
{
    match s {
        StmtView::Expr(e) => {
            lemma_lower_expr_tidy(c, pending, e);
        },
        StmtView::Let(name, e) => {
            let (c1, r1) = lower_expr(c, e);
            lemma_lower_expr_tidy(c, pending, e);
            let c2 = c1.bind(name);
            lemma_bind_tidy(c1, pending, name);
            lemma_emit_tidy(
                c2,
                pending,
                InstructionView::Store { slot: c2.variables[name], value: r1->Ok_0 },
            );
        },
        StmtView::Return(e) => {},
        StmtView::Assign(name, e) => {
            let (c1, r1) = lower_expr(c, e);
            lemma_lower_expr_tidy(c, pending, e);
            lemma_emit_tidy(
                c1,
                pending,
                InstructionView::Store { slot: c1.variables[name], value: r1->Ok_0 },
            );
        },
        StmtView::If(cond, then_body, else_body) => {
            let (c1, r1) = lower_expr(c, cond);
            lemma_lower_expr_tidy(c, pending, cond);
            let n = c.block_count() as int;
            let k = c.cursor as int;
            let else_block = (n + 1) as usize;
            let merge_block = (n + 2) as usize;
            let opened = open_conditional(c1, r1->Ok_0);
            lemma_open_conditional_tidy(c1, pending, r1->Ok_0);
            let p1 = pending.insert(n + 1).insert(n + 2);
            let (c2, r2) = lower_stmts(opened, then_body);
            lemma_lower_stmts_tidy(opened, p1, then_body);
            lemma_lower_stmts_continues(opened, then_body);
            assert(c2.current().blocks[k] == opened.current().blocks[k]);
            let merge = InstructionView::Branch { target: merge_block };
            let turned = jump(c2, merge_block, else_block);
            lemma_branch_tidy(c2, p1, merge, else_block, k);
            let p2 = pending.insert(n + 2);
            assert(p1.remove(n + 1) =~= p2);
            let (c3, r3) = lower_stmts(turned, else_body);
            lemma_lower_stmts_tidy(turned, p2, else_body);
            lemma_branch_tidy(c3, p2, merge, merge_block, c3.cursor as int);
            assert(p2.remove(n + 2) =~= pending);
        },
        StmtView::For(init, cond, step, body) => {
            let (c1, r1) = lower_stmt(c, *init);
            lemma_lower_stmt_tidy(c, pending, *init);
            let n = c1.block_count() as int;
            let cond_block = n as usize;
            let after_block = (n + 2) as usize;
            let opened = open_loop(c1);
            lemma_open_loop_tidy(c1, pending);
            let p1 = pending.insert(n + 1).insert(n + 2);
            let (c2, r2) = lower_expr(opened, cond);
            lemma_lower_expr_tidy(opened, p1, cond);
            let tested = test_loop(c2, r2->Ok_0);
            lemma_test_loop_tidy(c2, p1, r2->Ok_0);
            let p2 = pending.insert(n + 2);
            assert(p1.remove(n + 1) =~= p2);
            let (c3, r3) = lower_stmts(tested, body);
            lemma_lower_stmts_tidy(tested, p2, body);
            lemma_lower_stmts_continues(tested, body);
            let (c4, r4) = lower_expr(c3, step);
            lemma_lower_expr_tidy(c3, p2, step);
            lemma_lower_expr_continues(c3, step);
            lemma_continues_trans(tested, c3, c4);
            assert(c4.current().blocks[n] == tested.current().blocks[n]);
            lemma_branch_tidy(
                c4,
                p2,
                InstructionView::Branch { target: cond_block },
                after_block,
                n,
            );
            assert(p2.remove(n + 2) =~= pending);
        },
    }
}

/// Lowering statements without a `return` keeps the function tidy.
pub proof fn lemma_lower_stmts_tidy(c: CompilerView, pending: Set<int>, stmts: Seq<StmtView>)
    requires
        c.tidy(pending),
        all_straight(stmts),
        c.block_count() + stmts_blocks(stmts) <= usize::MAX,
        lower_stmts(c, stmts).1 is Ok,
    ensures
        lower_stmts(c, stmts).0.tidy(pending),
        lower_stmts(c, stmts).0.block_count() == c.block_count() + stmts_blocks(stmts),
    decreases stmts,
{
    if stmts.len() > 0 {
        lemma_lower_stmts_tidy(c, pending, stmts.drop_last());
        lemma_lower_stmt_tidy(lower_stmts(c, stmts.drop_last()).0, pending, stmts.last());
    }
}

/// A function whose statements hold no `return` but the last, which is one,
/// passes structural verification: if its body can be lowered, the function
/// is compiled.
pub proof fn law_single_return_verifies(c: CompilerView, f: FunctionView)
    requires
        c.finished().len() <= usize::MAX,
        f.args.len() <= usize::MAX,
        lower_stmts(begin_function(c.finished(), f), f.body).0.block_count() <= usize::MAX,
        f.body.len() > 0,
        f.body.last() is Return,
        all_straight(f.body.drop_last()),
        lower_stmts(begin_function(c.finished(), f), f.body).1 is Ok,
    ensures
        lower_function(c, f).1 == Ok::<usize, CompileError>(c.finished().len() as usize),
{
    let start = begin_function(c.finished(), f);
    lemma_begin_function(c.finished(), f);
    lemma_lower_stmts_count(start, f.body);
    let none = Set::<int>::empty();
    assert(start.tidy(none)) by {
        lemma_entry_reachable(start.current().blocks);
        assert(start.block() == start.current().blocks[0]);
    }
    let (c1, r1) = lower_stmts(start, f.body.drop_last());
    lemma_lower_stmts_tidy(start, none, f.body.drop_last());
    let e = f.body.last()->Return_0;
    let (c2, r2) = lower_expr(c1, e);
    lemma_lower_expr_tidy(c1, none, e);
    let ret = InstructionView::Return { value: r2->Ok_0 };
    let c3 = c2.emit(ret);
    assert(f.body.last() == StmtView::Return(e));
    assert(lower_stmts(start, f.body) == lower_stmt(c1, f.body.last()));
    assert(r2 is Ok);
    assert(c3 == lower_stmts(start, f.body).0);
    let blocks = c2.current().blocks;
    let done = c3.current().blocks;
    let k = c2.cursor as int;
    assert(c3.building() && done.len() == blocks.len() && done[k].instructions
        == blocks[k].instructions.push(ret) && (forall|b: int|
        0 <= b < blocks.len() && b != k ==> (#[trigger] done[b]) == blocks[b])) by {
        reveal(CompilerView::emit);
        reveal(CompilerView::with_current);
    }
    lemma_open_leads_nowhere(c2.block());
    assert(done[k].instructions.last() == ret);
    assert(done[k].well_terminated());
    assert forall|b: int| 0 <= b < done.len() implies (#[trigger] done[b]).well_terminated() by {
        if b != k {
            assert(blocks[b].well_terminated());
        }
    }
    assert forall|b: int, t: int| 0 <= b < done.len() && (#[trigger] done[b].leads_to(t)) implies 0
        <= t < done.len() && reachable(done, t) by {
        assert(b != k);
        assert(blocks[b].instructions.last().branches_to(t));
        assert(reachable(blocks, t));
        lemma_reach_kept(blocks, done, k, t);
    }
    assert(c3.current().structurally_valid());
}

} // verus!
