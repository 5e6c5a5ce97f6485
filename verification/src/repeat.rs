//! Lowering does not depend on where in the module the function stands: two
//! contexts that resolve every name alike and have built the same blocks so
//! far go on alike. So a function that is lowered twice gives the same
//! blocks twice.

use vstd::prelude::*;
use crate::internal_representations::gast::{ExprView, FunctionView, StmtView};
use crate::ir::{
    BlockKind,
    InstructionView,
    LoweredFunctionView,
    find_function,
    first_named,
    lemma_first_named,
    lemma_first_named_push,
};
use crate::laws::lemma_begin_function;
use crate::locality::{lemma_lower_stmts_continues, lemma_lower_stmts_count};
use crate::lowering::{
    CompileError,
    CompilerView,
    begin_function,
    bind_params,
    jump,
    lower_args,
    lower_expr,
    lower_function,
    lower_stmt,
    lower_stmts,
    open_conditional,
    open_loop,
    test_loop,
};

verus! {

impl CompilerView {
    /// The two contexts resolve every function name alike and have built the
    /// same function so far, with the same names bound and the cursor at the
    /// same block.
    pub open spec fn alike(self, other: CompilerView) -> bool {
        &&& self.positioned()
        &&& other.positioned()
        &&& self.current() == other.current()
        &&& self.variables == other.variables
        &&& self.cursor == other.cursor
        &&& forall|name: Seq<char>|
            find_function(self.module, name) == #[trigger] find_function(other.module, name)
    }
}

/// Two modules with the same names in the same places resolve every name
/// alike.
proof fn lemma_same_names(
    a: Seq<LoweredFunctionView>,
    b: Seq<LoweredFunctionView>,
    name: Seq<char>,
    start: int,
)
    requires
        a.len() == b.len(),
        forall|i: int| 0 <= i < a.len() ==> (#[trigger] a[i]).name == b[i].name,
        0 <= start,
    ensures
        first_named(a, name, start) == first_named(b, name, start),
    decreases a.len() - start,
{
    if start < a.len() {
        assert(a[start].name == b[start].name);
        if a[start].name != name {
            lemma_same_names(a, b, name, start + 1);
        }
    }
}

/// A context in which only the function that is being built changed, and
/// not its name, resolves every name as before.
proof fn lemma_resolves_as_before(before: CompilerView, after: CompilerView)
    requires
        before.positioned(),
        after.function == before.function,
        after.module.len() == before.module.len(),
        after.current().name == before.current().name,
        after.module.drop_last() == before.module.drop_last(),
    ensures
        forall|name: Seq<char>|
            #[trigger] find_function(after.module, name) == find_function(before.module, name),
{
    assert forall|name: Seq<char>| #[trigger]
        find_function(after.module, name) == find_function(before.module, name) by {
        assert forall|i: int| 0 <= i < after.module.len() implies (#[trigger] after.module[i]).name
            == before.module[i].name by {
            if i < after.module.len() - 1 {
                assert(after.module[i] == after.module.drop_last()[i]);
                assert(before.module[i] == before.module.drop_last()[i]);
            }
        }
        lemma_same_names(after.module, before.module, name, 0);
    }
}

proof fn lemma_emit_alike(c: CompilerView, d: CompilerView, instruction: InstructionView)
    requires
        c.alike(d),
    ensures
        c.emit(instruction).alike(d.emit(instruction)),
        c.next_value() == d.next_value(),
        c.emit(instruction).block_count() == c.block_count(),
        c.emit(instruction).cursor == c.cursor,
{
    reveal(CompilerView::emit);
    reveal(CompilerView::with_current);
    let c2 = c.emit(instruction);
    let d2 = d.emit(instruction);
    assert(c2.module.drop_last() =~= c.module.drop_last());
    assert(d2.module.drop_last() =~= d.module.drop_last());
    lemma_resolves_as_before(c, c2);
    lemma_resolves_as_before(d, d2);
}

proof fn lemma_append_alike(c: CompilerView, d: CompilerView, kind: BlockKind)
    requires
        c.alike(d),
    ensures
        c.append_block(kind).alike(d.append_block(kind)),
        c.append_block(kind).block_count() == c.block_count() + 1,
        c.append_block(kind).cursor == c.cursor,
{
    reveal(CompilerView::append_block);
    reveal(CompilerView::with_current);
    let c2 = c.append_block(kind);
    let d2 = d.append_block(kind);
    assert(c2.module.drop_last() =~= c.module.drop_last());
    assert(d2.module.drop_last() =~= d.module.drop_last());
    lemma_resolves_as_before(c, c2);
    lemma_resolves_as_before(d, d2);
}

proof fn lemma_bind_alike(c: CompilerView, d: CompilerView, name: Seq<char>)
    requires
        c.alike(d),
    ensures
        c.bind(name).alike(d.bind(name)),
{
    reveal(CompilerView::bind);
    reveal(CompilerView::alloca);
    reveal(CompilerView::with_current);
    let c2 = c.bind(name);
    let d2 = d.bind(name);
    assert(c2.module.drop_last() =~= c.module.drop_last());
    assert(d2.module.drop_last() =~= d.module.drop_last());
    lemma_resolves_as_before(c, c2);
    lemma_resolves_as_before(d, d2);
}

proof fn lemma_move_alike(c: CompilerView, d: CompilerView, block: usize)
    requires
        c.alike(d),
        block < c.block_count(),
    ensures
        c.set_cursor(block).alike(d.set_cursor(block)),
        c.set_cursor(block).block_count() == c.block_count(),
        c.set_cursor(block).cursor == block,
{
    reveal(CompilerView::set_cursor);
}

proof fn lemma_jump_alike(c: CompilerView, d: CompilerView, target: usize, next: usize)
    requires
        c.alike(d),
        next < c.block_count(),
    ensures
        jump(c, target, next).alike(jump(d, target, next)),
        jump(c, target, next).block_count() == c.block_count(),
        jump(c, target, next).cursor == next,
{
    let branch = InstructionView::Branch { target };
    lemma_emit_alike(c, d, branch);
    lemma_move_alike(c.emit(branch), d.emit(branch), next);
}

/// Contexts that are alike lower an expression alike.
pub proof fn lemma_lower_expr_alike(c: CompilerView, d: CompilerView, e: ExprView)
    requires
        c.alike(d),
    ensures
        lower_expr(c, e).1 == lower_expr(d, e).1,
        lower_expr(c, e).0.alike(lower_expr(d, e).0),
        lower_expr(c, e).0.block_count() == c.block_count(),
        lower_expr(c, e).0.cursor == c.cursor,
    decreases e,
{
    match e {
        ExprView::IntLiteral(_) => {},
        ExprView::StringLiteral(_) => {},
        ExprView::Name(name) => {
            if c.variables.contains_key(name) {
                lemma_emit_alike(c, d, InstructionView::Load { slot: c.variables[name] });
            }
        },
        ExprView::Binary(op, left, right) => {
            let (c1, r1) = lower_expr(c, *left);
            let (d1, _) = lower_expr(d, *left);
            lemma_lower_expr_alike(c, d, *left);
            if let Ok(lhs) = r1 {
                let (c2, r2) = lower_expr(c1, *right);
                let (d2, _) = lower_expr(d1, *right);
                lemma_lower_expr_alike(c1, d1, *right);
                if let Ok(rhs) = r2 {
                    lemma_emit_alike(c2, d2, InstructionView::Binary { op, lhs, rhs });
                }
            }
        },
        ExprView::Call(name, args) => {
            assert(find_function(c.module, name) == find_function(d.module, name));
            if let Some(callee) = find_function(c.module, name) {
                let (c1, r1) = lower_args(c, args);
                let (d1, _) = lower_args(d, args);
                lemma_lower_args_alike(c, d, args);
                if let Ok(values) = r1 {
                    lemma_emit_alike(c1, d1, InstructionView::Call { callee, args: values });
                }
            }
        },
    }
}

/// Contexts that are alike lower arguments alike.
pub proof fn lemma_lower_args_alike(c: CompilerView, d: CompilerView, args: Seq<ExprView>)
    requires
        c.alike(d),
    ensures
        lower_args(c, args).1 == lower_args(d, args).1,
        lower_args(c, args).0.alike(lower_args(d, args).0),
        lower_args(c, args).0.block_count() == c.block_count(),
        lower_args(c, args).0.cursor == c.cursor,
    decreases args,
{
    if args.len() > 0 {
        let (c1, r1) = lower_args(c, args.drop_last());
        let (d1, _) = lower_args(d, args.drop_last());
        lemma_lower_args_alike(c, d, args.drop_last());
        if r1 is Ok {
            lemma_lower_expr_alike(c1, d1, args.last());
        }
    }
}

/// Contexts that are alike lower a statement alike.
pub proof fn lemma_lower_stmt_alike(c: CompilerView, d: CompilerView, s: StmtView)
    requires
        c.alike(d),
    ensures
        lower_stmt(c, s).1 == lower_stmt(d, s).1,
        lower_stmt(c, s).0.alike(lower_stmt(d, s).0),
        lower_stmt(c, s).0.block_count() >= c.block_count(),
    decreases s,
{
    match s {
        StmtView::Expr(e) => {
            lemma_lower_expr_alike(c, d, e);
        },
        StmtView::Let(name, e) => {
            let (c1, r1) = lower_expr(c, e);
            let (d1, _) = lower_expr(d, e);
            lemma_lower_expr_alike(c, d, e);
            if let Ok(value) = r1 {
                lemma_bind_alike(c1, d1, name);
                let c2 = c1.bind(name);
                lemma_emit_alike(
                    c2,
                    d1.bind(name),
                    InstructionView::Store { slot: c2.variables[name], value },
                );
                assert(c2.block_count() == c1.block_count()) by {
                    reveal(CompilerView::bind);
                    reveal(CompilerView::alloca);
                    reveal(CompilerView::with_current);
                }
            }
        },
        StmtView::Return(e) => {
            let (c1, r1) = lower_expr(c, e);
            lemma_lower_expr_alike(c, d, e);
            if let Ok(value) = r1 {
                lemma_emit_alike(c1, lower_expr(d, e).0, InstructionView::Return { value });
            }
        },
        StmtView::Assign(name, e) => {
            let (c1, r1) = lower_expr(c, e);
            lemma_lower_expr_alike(c, d, e);
            if let Ok(value) = r1 {
                if c1.variables.contains_key(name) {
                    lemma_emit_alike(
                        c1,
                        lower_expr(d, e).0,
                        InstructionView::Store { slot: c1.variables[name], value },
                    );
                }
            }
        },
        StmtView::If(cond, then_body, else_body) => {
            let (c1, r1) = lower_expr(c, cond);
            let (d1, _) = lower_expr(d, cond);
            lemma_lower_expr_alike(c, d, cond);
            if let Ok(value) = r1 {
                let else_block = (c1.block_count() + 1) as usize;
                let merge_block = (c1.block_count() + 2) as usize;
                lemma_open_conditional_alike(c1, d1, value);
                let (c2, r2) = lower_stmts(open_conditional(c1, value), then_body);
                let (d2, _) = lower_stmts(open_conditional(d1, value), then_body);
                lemma_lower_stmts_alike(
                    open_conditional(c1, value),
                    open_conditional(d1, value),
                    then_body,
                );
                if r2 is Ok {
                    lemma_jump_alike(c2, d2, merge_block, else_block);
                    let (c3, r3) = lower_stmts(jump(c2, merge_block, else_block), else_body);
                    let (d3, _) = lower_stmts(jump(d2, merge_block, else_block), else_body);
                    lemma_lower_stmts_alike(
                        jump(c2, merge_block, else_block),
                        jump(d2, merge_block, else_block),
                        else_body,
                    );
                    if r3 is Ok {
                        lemma_jump_alike(c3, d3, merge_block, merge_block);
                    }
                }
            }
        },
        StmtView::For(init, cond, step, body) => {
            let (c1, r1) = lower_stmt(c, *init);
            let (d1, _) = lower_stmt(d, *init);
            lemma_lower_stmt_alike(c, d, *init);
            if r1 is Ok {
                let cond_block = c1.block_count() as usize;
                let after_block = (c1.block_count() + 2) as usize;
                lemma_open_loop_alike(c1, d1);
                let (c2, r2) = lower_expr(open_loop(c1), cond);
                let (d2, _) = lower_expr(open_loop(d1), cond);
                lemma_lower_expr_alike(open_loop(c1), open_loop(d1), cond);
                if let Ok(value) = r2 {
                    lemma_test_loop_alike(c2, d2, value);
                    let (c3, r3) = lower_stmts(test_loop(c2, value), body);
                    let (d3, _) = lower_stmts(test_loop(d2, value), body);
                    lemma_lower_stmts_alike(test_loop(c2, value), test_loop(d2, value), body);
                    if r3 is Ok {
                        let (c4, r4) = lower_expr(c3, step);
                        let (d4, _) = lower_expr(d3, step);
                        lemma_lower_expr_alike(c3, d3, step);
                        if r4 is Ok {
                            lemma_jump_alike(c4, d4, cond_block, after_block);
                        }
                    }
                }
            }
        },
    }
}

/// Contexts that are alike lower statements alike.
pub proof fn lemma_lower_stmts_alike(c: CompilerView, d: CompilerView, stmts: Seq<StmtView>)
    requires
        c.alike(d),
    ensures
        lower_stmts(c, stmts).1 == lower_stmts(d, stmts).1,
        lower_stmts(c, stmts).0.alike(lower_stmts(d, stmts).0),
        lower_stmts(c, stmts).0.block_count() >= c.block_count(),
    decreases stmts,
{
    if stmts.len() > 0 {
        let (c1, r1) = lower_stmts(c, stmts.drop_last());
        let (d1, _) = lower_stmts(d, stmts.drop_last());
        lemma_lower_stmts_alike(c, d, stmts.drop_last());
        if r1 is Ok {
            lemma_lower_stmt_alike(c1, d1, stmts.last());
        }
    }
}

proof fn lemma_open_conditional_alike(c: CompilerView, d: CompilerView, value: crate::ir::Value)
    requires
        c.alike(d),
    ensures
        open_conditional(c, value).alike(open_conditional(d, value)),
        open_conditional(c, value).block_count() == c.block_count() + 3,
{
    let then_block = c.block_count() as usize;
    let else_block = (c.block_count() + 1) as usize;
    let test = InstructionView::IsNonZero { value };
    lemma_emit_alike(c, d, test);
    let (c1, d1) = (c.emit(test), d.emit(test));
    lemma_append_alike(c1, d1, BlockKind::Then);
    let (c2, d2) = (c1.append_block(BlockKind::Then), d1.append_block(BlockKind::Then));
    lemma_append_alike(c2, d2, BlockKind::Else);
    let (c3, d3) = (c2.append_block(BlockKind::Else), d2.append_block(BlockKind::Else));
    lemma_append_alike(c3, d3, BlockKind::Merge);
    let (c4, d4) = (c3.append_block(BlockKind::Merge), d3.append_block(BlockKind::Merge));
    let branch = InstructionView::CondBranch { cond: c.next_value(), then_block, else_block };
    lemma_emit_alike(c4, d4, branch);
    lemma_move_alike(c4.emit(branch), d4.emit(branch), then_block);
}

proof fn lemma_open_loop_alike(c: CompilerView, d: CompilerView)
    requires
        c.alike(d),
    ensures
        open_loop(c).alike(open_loop(d)),
        open_loop(c).block_count() == c.block_count() + 3,
        open_loop(c).cursor + 2 < open_loop(c).block_count(),
{
    let cond_block = c.block_count() as usize;
    lemma_append_alike(c, d, BlockKind::LoopCondition);
    let (c1, d1) = (
        c.append_block(BlockKind::LoopCondition),
        d.append_block(BlockKind::LoopCondition),
    );
    lemma_append_alike(c1, d1, BlockKind::LoopBody);
    let (c2, d2) = (c1.append_block(BlockKind::LoopBody), d1.append_block(BlockKind::LoopBody));
    lemma_append_alike(c2, d2, BlockKind::AfterLoop);
    let (c3, d3) = (c2.append_block(BlockKind::AfterLoop), d2.append_block(BlockKind::AfterLoop));
    lemma_jump_alike(c3, d3, cond_block, cond_block);
}

proof fn lemma_test_loop_alike(c: CompilerView, d: CompilerView, value: crate::ir::Value)
    requires
        c.alike(d),
        c.cursor + 2 < c.block_count(),
    ensures
        test_loop(c, value).alike(test_loop(d, value)),
        test_loop(c, value).block_count() == c.block_count(),
{
    let test = InstructionView::IsNonZero { value };
    lemma_emit_alike(c, d, test);
    let (c1, d1) = (c.emit(test), d.emit(test));
    let branch = InstructionView::CondBranch {
        cond: c.next_value(),
        then_block: (c.cursor + 1) as usize,
        else_block: (c.cursor + 2) as usize,
    };
    lemma_emit_alike(c1, d1, branch);
    reveal(CompilerView::set_cursor);
}

/// Contexts that are alike bind parameters alike.
proof fn lemma_bind_params_alike(c: CompilerView, d: CompilerView, params: Seq<Seq<char>>)
    requires
        c.alike(d),
    ensures
        bind_params(c, params).alike(bind_params(d, params)),
    decreases params.len(),
{
    if params.len() > 0 {
        lemma_bind_params_alike(c, d, params.drop_last());
        let c1 = bind_params(c, params.drop_last());
        let d1 = bind_params(d, params.drop_last());
        lemma_bind_alike(c1, d1, params.last());
        let c2 = c1.bind(params.last());
        lemma_emit_alike(
            c2,
            d1.bind(params.last()),
            InstructionView::Store {
                slot: c2.variables[params.last()],
                value: crate::ir::Value::Param((params.len() - 1) as usize),
            },
        );
    }
}

/// Lowering the same function a second time, into the module that holds
/// its first lowering, succeeds again and gives a function with the same
/// name, parameters, slots and blocks, behind the first.
pub proof fn law_lowering_twice(c: CompilerView, f: FunctionView)
    requires
        lower_function(c, f).1 is Ok,
        c.finished().len() <= usize::MAX,
        f.args.len() <= usize::MAX,
        lower_function(c, f).0.module.len() <= usize::MAX,
        lower_function(c, f).0.module.last().blocks.len() <= usize::MAX,
    ensures
        ({
            let (first, _) = lower_function(c, f);
            let (second, again) = lower_function(first, f);
            &&& again == Ok::<usize, CompileError>((c.finished().len() + 1) as usize)
            &&& second.module.len() == first.module.len() + 1
            &&& second.module.drop_last() == first.module
            &&& second.module.last() == first.module.last()
        }),
{
    let module = c.finished();
    let start = begin_function(module, f);
    lemma_begin_function(module, f);
    lemma_lower_stmts_count(start, f.body);
    let (built, _) = lower_stmts(start, f.body);
    assert(built.current() == built.module.last());
    lemma_lower_stmts_continues(start, f.body);
    let first = CompilerView::idle(built.module);
    assert(first.finished() == built.module);
    let lowered = built.current();
    assert(built.module =~= module.push(lowered));
    let restart = begin_function(built.module, f);
    lemma_begin_function(built.module, f);

    // The two contexts in which the parameters are bound are alike.
    let base = CompilerView::idle(module).declare(f).append_block(BlockKind::Entry);
    let rebase = CompilerView::idle(built.module).declare(f).append_block(BlockKind::Entry);
    assert(base.alike(rebase)) by {
        reveal(CompilerView::declare);
        reveal(CompilerView::append_block);
        reveal(CompilerView::with_current);
        assert(base.current() == rebase.current());
        assert forall|name: Seq<char>|
            find_function(base.module, name) == #[trigger] find_function(rebase.module, name) by {
            let proto = base.current();
            assert(base.module =~= module.push(proto));
            assert(rebase.module =~= module.push(lowered).push(proto));
            lemma_first_named_push(module, proto, name, 0);
            lemma_first_named_push(module, lowered, name, 0);
            lemma_first_named_push(module.push(lowered), proto, name, 0);
            lemma_first_named(module, name, 0);
        }
    }
    lemma_bind_params_alike(base, rebase, f.args);
    lemma_lower_stmts_alike(start, restart, f.body);
    let (rebuilt, _) = lower_stmts(restart, f.body);
    lemma_lower_stmts_continues(restart, f.body);
    assert(rebuilt.module =~= built.module.push(rebuilt.current()));
    assert(rebuilt.module.drop_last() =~= built.module);
}

} // verus!
