//! What lowering does, as mathematics: the build context as a value, the
//! steps that change it, and the lowering of expressions and statements as
//! functions from a context to the next context and a result.

use vstd::prelude::*;
use crate::internal_representations::gast::{ExprView, FunctionView, StmtView};
use crate::ir::{
    BlockView,
    BlockKind,
    InstructionView,
    LoweredFunctionView,
    Value,
    find_function,
};

verus! {

/// Why a function could not be lowered.
#[derive(Debug, Clone, Copy, PartialEq, Eq, Structural)]
pub enum CompileError {
    /// A name was read or assigned that no parameter or `let` has bound.
    UnresolvedSymbol,
    /// A call names a function that the module does not know.
    UnknownFunction,
    /// The construct has no lowering: a string literal.
    UnsupportedConstruct,
    /// The assembled function failed structural verification.
    VerificationFailure,
}

/// The build context as a mathematical value.
pub struct CompilerView {
    /// The functions of the module.
    pub module: Seq<LoweredFunctionView>,
    /// The stack slot of each bound name.
    pub variables: Map<Seq<char>, usize>,
    /// The index of the function that is being built, if one is.
    pub function: Option<usize>,
    /// The block of that function that instructions are appended to.
    pub cursor: usize,
}

impl CompilerView {
    /// A context that builds no function.
    pub open spec fn idle(module: Seq<LoweredFunctionView>) -> CompilerView {
        CompilerView { module, variables: Map::empty(), function: None, cursor: 0 }
    }

    /// The context builds the last function of the module.
    pub open spec fn building(self) -> bool {
        self.function matches Some(f) && f + 1 == self.module.len()
    }

    /// The context builds a function, and the cursor is at one of its blocks.
    pub open spec fn positioned(self) -> bool {
        self.building() && self.cursor < self.current().blocks.len()
    }

    /// The function that is being built.
    pub open spec fn current(self) -> LoweredFunctionView
        recommends
            self.function is Some,
    {
        self.module[self.function.unwrap() as int]
    }

    /// The block at the cursor.
    pub open spec fn block(self) -> BlockView
        recommends
            self.positioned(),
    {
        self.current().blocks[self.cursor as int]
    }

    /// How many blocks the function that is being built has.
    pub open spec fn block_count(self) -> nat
        recommends
            self.function is Some,
    {
        self.current().blocks.len()
    }

    /// The context with the function that is being built replaced.
    #[verifier::opaque]
    pub open spec fn with_current(self, function: LoweredFunctionView) -> CompilerView
        recommends
            self.function is Some,
    {
        CompilerView { module: self.module.update(self.function.unwrap() as int, function), ..self }
    }

    /// The value that the next instruction emitted at the cursor will define.
    pub open spec fn next_value(self) -> Value
        recommends
            self.positioned(),
    {
        Value::Temp { block: self.cursor, index: self.block().instructions.len() as usize }
    }

    /// Appends the instruction to the block at the cursor.
    #[verifier::opaque]
    pub open spec fn emit(self, instruction: InstructionView) -> CompilerView
        recommends
            self.positioned(),
    {
        let block = BlockView {
            instructions: self.block().instructions.push(instruction),
            ..self.block()
        };
        self.with_current(
            LoweredFunctionView {
                blocks: self.current().blocks.update(self.cursor as int, block),
                ..self.current()
            },
        )
    }

    /// Appends an empty block to the function. Its index is the block count
    /// before.
    #[verifier::opaque]
    pub open spec fn append_block(self, kind: BlockKind) -> CompilerView
        recommends
            self.function is Some,
    {
        self.with_current(
            LoweredFunctionView {
                blocks: self.current().blocks.push(
                    BlockView { kind, instructions: Seq::empty() },
                ),
                ..self.current()
            },
        )
    }

    /// Moves the cursor.
    #[verifier::opaque]
    pub open spec fn set_cursor(self, block: usize) -> CompilerView {
        CompilerView { cursor: block, ..self }
    }

    /// Allocates a stack slot for the name. Its index is the slot count before.
    #[verifier::opaque]
    pub open spec fn alloca(self, name: Seq<char>) -> CompilerView
        recommends
            self.function is Some,
    {
        self.with_current(
            LoweredFunctionView { slots: self.current().slots.push(name), ..self.current() },
        )
    }

    /// Allocates a stack slot for the name and binds the name to it.
    #[verifier::opaque]
    pub open spec fn bind(self, name: Seq<char>) -> CompilerView
        recommends
            self.function is Some,
    {
        CompilerView {
            variables: self.variables.insert(name, self.current().slots.len() as usize),
            ..self.alloca(name)
        }
    }

    /// The functions of the module that are finished: all but the one that
    /// is being built.
    pub open spec fn finished(self) -> Seq<LoweredFunctionView> {
        if self.function is Some && self.module.len() > 0 {
            self.module.drop_last()
        } else {
            self.module
        }
    }

    /// Declares the function in the module, without blocks or slots, and
    /// starts to build it with an empty symbol table.
    pub open spec fn declare(self, function: FunctionView) -> CompilerView {
        CompilerView {
            module: self.module.push(
                LoweredFunctionView {
                    name: function.name,
                    params: function.args,
                    slots: Seq::empty(),
                    blocks: Seq::empty(),
                },
            ),
            variables: Map::empty(),
            function: Some(self.module.len() as usize),
            cursor: 0,
        }
    }
}

/// The context after lowering an expression, and the value of the
/// expression or the reason why lowering stopped.
///
/// A literal is a constant and emits nothing. A name loads its slot. A
/// binary expression lowers the left operand, then the right one, then emits
/// the operation. A call resolves the callee first, lowers the arguments from
/// left to right, then emits the call. The first failure stops the lowering;
/// what was emitted before it stays in the context.
pub open spec fn lower_expr(c: CompilerView, e: ExprView) -> (CompilerView, Result<
    Value,
    CompileError,
>)
    decreases e,
{
    match e {
        ExprView::IntLiteral(n) => (c, Ok(Value::Const(n))),
        ExprView::StringLiteral(_) => (c, Err(CompileError::UnsupportedConstruct)),
        ExprView::Name(name) => if c.variables.contains_key(name) {
            (c.emit(InstructionView::Load { slot: c.variables[name] }), Ok(c.next_value()))
        } else {
            (c, Err(CompileError::UnresolvedSymbol))
        },
        ExprView::Binary(op, left, right) => {
            let (c1, r1) = lower_expr(c, *left);
            match r1 {
                Err(err) => (c1, Err(err)),
                Ok(lhs) => {
                    let (c2, r2) = lower_expr(c1, *right);
                    match r2 {
                        Err(err) => (c2, Err(err)),
                        Ok(rhs) => (
                            c2.emit(InstructionView::Binary { op, lhs, rhs }),
                            Ok(c2.next_value()),
                        ),
                    }
                },
            }
        },
        ExprView::Call(name, args) => match find_function(c.module, name) {
            None => (c, Err(CompileError::UnknownFunction)),
            Some(callee) => {
                let (c1, r1) = lower_args(c, args);
                match r1 {
                    Err(err) => (c1, Err(err)),
                    Ok(values) => (
                        c1.emit(InstructionView::Call { callee, args: values }),
                        Ok(c1.next_value()),
                    ),
                }
            },
        },
    }
}

/// The context after lowering the expressions from left to right, and their
/// values in the same order.
pub open spec fn lower_args(c: CompilerView, args: Seq<ExprView>) -> (CompilerView, Result<
    Seq<Value>,
    CompileError,
>)
    decreases args,
{
    if args.len() == 0 {
        (c, Ok(Seq::empty()))
    } else {
        let (c1, r1) = lower_args(c, args.drop_last());
        match r1 {
            Err(err) => (c1, Err(err)),
            Ok(values) => {
                let (c2, r2) = lower_expr(c1, args.last());
                match r2 {
                    Err(err) => (c2, Err(err)),
                    Ok(value) => (c2, Ok(values.push(value))),
                }
            },
        }
    }
}

/// The context in which the `then` body of a conditional is lowered. The
/// block at the cursor has tested `value` against zero and branches to a new
/// `Then` block where it differs and to a new `Else` block where not; a new
/// `Merge` block follows them; the cursor is in the `Then` block.
pub open spec fn open_conditional(c: CompilerView, value: Value) -> CompilerView {
    let then_block = c.block_count() as usize;
    let else_block = (c.block_count() + 1) as usize;
    c.emit(InstructionView::IsNonZero { value }).append_block(BlockKind::Then).append_block(
        BlockKind::Else,
    ).append_block(BlockKind::Merge).emit(
        InstructionView::CondBranch { cond: c.next_value(), then_block, else_block },
    ).set_cursor(then_block)
}

/// Ends the block at the cursor with a branch to `target` and moves the
/// cursor to `next`.
pub open spec fn jump(c: CompilerView, target: usize, next: usize) -> CompilerView {
    c.emit(InstructionView::Branch { target }).set_cursor(next)
}

/// The context in which the condition of a loop is lowered. A new
/// `LoopCondition`, a new `LoopBody` and a new `AfterLoop` block follow the
/// blocks that were there; the block at the cursor branches to the condition
/// block, and the cursor is there.
pub open spec fn open_loop(c: CompilerView) -> CompilerView {
    let cond_block = c.block_count() as usize;
    jump(
        c.append_block(BlockKind::LoopCondition).append_block(BlockKind::LoopBody).append_block(
            BlockKind::AfterLoop,
        ),
        cond_block,
        cond_block,
    )
}

/// The context in which the body of a loop is lowered. The condition block,
/// at the cursor, has tested `value` against zero and branches to the block
/// behind it, the body block, where it differs, and to the block after the
/// loop where not; the cursor is in the body block.
pub open spec fn test_loop(c: CompilerView, value: Value) -> CompilerView {
    let body_block = (c.cursor + 1) as usize;
    let after_block = (c.cursor + 2) as usize;
    c.emit(InstructionView::IsNonZero { value }).emit(
        InstructionView::CondBranch {
            cond: c.next_value(),
            then_block: body_block,
            else_block: after_block,
        },
    ).set_cursor(body_block)
}

/// The context after lowering a statement, or the reason why lowering
/// stopped.
///
/// A conditional tests its condition against zero in the block at the
/// cursor, appends a `Then`, an `Else` and a `Merge` block, branches to the
/// first two, lowers each body into its block and ends it with a branch to
/// the merge block, where the cursor is left. A loop lowers its first
/// statement at the cursor, appends a `LoopCondition`, a `LoopBody` and an
/// `AfterLoop` block, branches to the condition block, tests the condition
/// there, lowers the body and then the step into the body block, branches
/// back to the condition block, and leaves the cursor in the block after the
/// loop.
pub open spec fn lower_stmt(c: CompilerView, s: StmtView) -> (CompilerView, Result<
    (),
    CompileError,
>)
    decreases s,
{
    match s {
        StmtView::Expr(e) => {
            let (c1, r1) = lower_expr(c, e);
            match r1 {
                Err(err) => (c1, Err(err)),
                Ok(_) => (c1, Ok(())),
            }
        },
        StmtView::Let(name, e) => {
            let (c1, r1) = lower_expr(c, e);
            match r1 {
                Err(err) => (c1, Err(err)),
                Ok(value) => {
                    let c2 = c1.bind(name);
                    (c2.emit(InstructionView::Store { slot: c2.variables[name], value }), Ok(()))
                },
            }
        },
        StmtView::Return(e) => {
            let (c1, r1) = lower_expr(c, e);
            match r1 {
                Err(err) => (c1, Err(err)),
                Ok(value) => (c1.emit(InstructionView::Return { value }), Ok(())),
            }
        },
        StmtView::Assign(name, e) => {
            let (c1, r1) = lower_expr(c, e);
            match r1 {
                Err(err) => (c1, Err(err)),
                Ok(value) => if c1.variables.contains_key(name) {
                    (c1.emit(InstructionView::Store { slot: c1.variables[name], value }), Ok(()))
                } else {
                    (c1, Err(CompileError::UnresolvedSymbol))
                },
            }
        },
        StmtView::If(cond, then_body, else_body) => {
            let (c1, r1) = lower_expr(c, cond);
            match r1 {
                Err(err) => (c1, Err(err)),
                Ok(value) => {
                    let else_block = (c1.block_count() + 1) as usize;
                    let merge_block = (c1.block_count() + 2) as usize;
                    let (c2, r2) = lower_stmts(open_conditional(c1, value), then_body);
                    match r2 {
                        Err(err) => (c2, Err(err)),
                        Ok(_) => {
                            let (c3, r3) = lower_stmts(
                                jump(c2, merge_block, else_block),
                                else_body,
                            );
                            match r3 {
                                Err(err) => (c3, Err(err)),
                                Ok(_) => (jump(c3, merge_block, merge_block), Ok(())),
                            }
                        },
                    }
                },
            }
        },
        StmtView::For(init, cond, step, body) => {
            let (c1, r1) = lower_stmt(c, *init);
            match r1 {
                Err(err) => (c1, Err(err)),
                Ok(_) => {
                    let cond_block = c1.block_count() as usize;
                    let after_block = (c1.block_count() + 2) as usize;
                    let (c2, r2) = lower_expr(open_loop(c1), cond);
                    match r2 {
                        Err(err) => (c2, Err(err)),
                        Ok(value) => {
                            let (c3, r3) = lower_stmts(test_loop(c2, value), body);
                            match r3 {
                                Err(err) => (c3, Err(err)),
                                Ok(_) => {
                                    let (c4, r4) = lower_expr(c3, step);
                                    match r4 {
                                        Err(err) => (c4, Err(err)),
                                        Ok(_) => (jump(c4, cond_block, after_block), Ok(())),
                                    }
                                },
                            }
                        },
                    }
                },
            }
        },
    }
}

/// The context after lowering the statements in order, or the reason why
/// lowering stopped at the first statement that failed.
pub open spec fn lower_stmts(c: CompilerView, stmts: Seq<StmtView>) -> (CompilerView, Result<
    (),
    CompileError,
>)
    decreases stmts,
{
    if stmts.len() == 0 {
        (c, Ok(()))
    } else {
        let (c1, r1) = lower_stmts(c, stmts.drop_last());
        match r1 {
            Err(err) => (c1, Err(err)),
            Ok(_) => lower_stmt(c1, stmts.last()),
        }
    }
}

/// Once lowering has failed on the first `n` expressions, the rest is not
/// lowered: the whole sequence gives what its first `n` expressions give.
pub proof fn lemma_lower_args_stops(c: CompilerView, args: Seq<ExprView>, n: int)
    requires
        0 <= n <= args.len(),
        lower_args(c, args.take(n)).1 is Err,
    ensures
        lower_args(c, args) == lower_args(c, args.take(n)),
    decreases args.len(),
{
    if n == args.len() {
        assert(args.take(n) =~= args);
    } else {
        assert(args.drop_last().take(n) =~= args.take(n));
        lemma_lower_args_stops(c, args.drop_last(), n);
    }
}

/// Once lowering has failed on the first `n` statements, the rest is not
/// lowered: the whole sequence gives what its first `n` statements give.
pub proof fn lemma_lower_stmts_stops(c: CompilerView, stmts: Seq<StmtView>, n: int)
    requires
        0 <= n <= stmts.len(),
        lower_stmts(c, stmts.take(n)).1 is Err,
    ensures
        lower_stmts(c, stmts) == lower_stmts(c, stmts.take(n)),
    decreases stmts.len(),
{
    if n == stmts.len() {
        assert(stmts.take(n) =~= stmts);
    } else {
        assert(stmts.drop_last().take(n) =~= stmts.take(n));
        lemma_lower_stmts_stops(c, stmts.drop_last(), n);
    }
}

/// The context after each parameter, from left to right, got a stack slot,
/// had its incoming value stored there and its name bound to the slot.
pub open spec fn bind_params(c: CompilerView, params: Seq<Seq<char>>) -> CompilerView
    decreases params.len(),
{
    if params.len() == 0 {
        c
    } else {
        let c1 = bind_params(c, params.drop_last()).bind(params.last());
        c1.emit(
            InstructionView::Store {
                slot: c1.variables[params.last()],
                value: Value::Param((params.len() - 1) as usize),
            },
        )
    }
}

/// The context in which the body of a function is lowered: the function is
/// declared, has its entry block with the cursor in it, and its parameters
/// are in their slots.
pub open spec fn begin_function(module: Seq<LoweredFunctionView>, f: FunctionView) -> CompilerView {
    bind_params(CompilerView::idle(module).declare(f).append_block(BlockKind::Entry), f.args)
}

/// What compiling a function gives. Any function that was being built is
/// dropped first. The function is lowered; if that fails, or if the lowered
/// body fails structural verification, the module is left as it was and the
/// reason is given. Otherwise the function has joined the module, and its
/// index is given. Either way the context is idle afterwards.
pub open spec fn lower_function(c: CompilerView, f: FunctionView) -> (CompilerView, Result<
    usize,
    CompileError,
>) {
    let module = c.finished();
    let (c1, r1) = lower_stmts(begin_function(module, f), f.body);
    match r1 {
        Err(err) => (CompilerView::idle(module), Err(err)),
        Ok(_) => if c1.current().structurally_valid() {
            (CompilerView::idle(c1.module), Ok(module.len() as usize))
        } else {
            (CompilerView::idle(module), Err(CompileError::VerificationFailure))
        },
    }
}

} // verus!
