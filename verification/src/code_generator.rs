//! Lowering of the syntax tree into the control-flow representation.
//!
//! `Compiler` is the build context: the module, the symbol table of the
//! function that is being built, and the cursor, the block that new
//! instructions are appended to. What each lowering step does to the context
//! is given by a spec function on the context's view; the executable steps are
//! proved to compute exactly that.

use vstd::prelude::*;
use vstd::hash_map::StringHashMap;
use crate::internal_representations::gast::{
    Expr,
    ExprView,
    Function,
    Name,
    Program,
    Stmt,
    StmtView,
    exprs_view,
    names_view,
    stmts_view,
};
use crate::ir::{
    Block,
    BlockView,
    BlockKind,
    Instruction,
    LoweredFunction,
    IrModule,
    Value,
    find_function,
    lemma_first_named_push,
};
use crate::operands::{ValueKind, operands_in_order};
use crate::validity::{
    lemma_alloca_sound,
    lemma_append_sound,
    lemma_bind_sound,
    lemma_bound_slot,
    lemma_const_usable,
    lemma_emit_sound,
    lemma_entry_sound,
    lemma_move_sound,
    lemma_param_usable,
    lemma_sound_operands,
};
use crate::ir::lemma_first_named;
use crate::locality::{lemma_append_targets, lemma_emit_targets, lemma_slot_targets};
use crate::lowering::{
    CompileError,
    CompilerView,
    begin_function,
    bind_params,
    lower_function,
    lemma_lower_args_stops,
    lemma_lower_stmts_stops,
    lower_args,
    lower_expr,
    lower_stmt,
    lower_stmts,
};

verus! {

/// The build context of one function lowering.
///
/// The symbol table is a hash map from names to stack slots: a name that is
/// bound again points to its new slot.
///
/// The function that is being built is kept beside the finished functions
/// and joins them when it has passed structural verification, so the module
/// never holds a function that is half built. In the view it already is the
/// last function of the module, which is how a call in its body finds it.
pub struct Compiler {
    module: IrModule,
    variables: StringHashMap<usize>,
    building: bool,
    current: LoweredFunction,
    cursor: usize,
}

impl View for Compiler {
    type V = CompilerView;

    closed spec fn view(&self) -> CompilerView {
        CompilerView {
            module: if self.building {
                self.module@.push(self.current@)
            } else {
                self.module@
            },
            variables: self.variables@,
            function: if self.building {
                Some(self.module.functions.len())
            } else {
                None
            },
            cursor: self.cursor,
        }
    }
}

/// A function without a name, parameters, slots or blocks.
fn empty_function() -> (r: LoweredFunction)
    ensures
        r.blocks@.len() == 0,
        r.slots@.len() == 0,
        r@ == (crate::ir::LoweredFunctionView {
            name: Seq::empty(),
            params: Seq::empty(),
            slots: Seq::empty(),
            blocks: Seq::empty(),
        }),
{
    let r = LoweredFunction {
        name: Name::new(String::new()),
        params: Vec::new(),
        slots: Vec::new(),
        blocks: Vec::new(),
    };
    assert(r@.params =~= Seq::<Seq<char>>::empty());
    assert(r@.slots =~= Seq::<Seq<char>>::empty());
    assert(r@.blocks =~= Seq::<crate::ir::BlockView>::empty());
    r
}

impl Compiler {
    /// A context over the module that builds no function yet.
    pub fn new(module: IrModule) -> (r: Self)
        ensures
            r@ == CompilerView::idle(module@),
    {
        Compiler {
            module,
            variables: StringHashMap::new(),
            building: false,
            current: empty_function(),
            cursor: 0,
        }
    }

    /// What the context holds can be counted in a machine word: the finished
    /// functions and, while a function is being built, its blocks and its
    /// slots.
    pub proof fn lemma_counts(&self)
        ensures
            self@.finished().len() <= usize::MAX,
            self@.function is Some ==> self@.block_count() <= usize::MAX
                && self@.current().slots.len() <= usize::MAX,
    {
        assert(self.module@.len() == self.module.functions.len());
        assert(self.current@.blocks.len() == self.current.blocks.len());
        assert(self.current@.slots.len() == self.current.slots.len());
        if self.building {
            assert(self.module@.push(self.current@).drop_last() =~= self.module@);
        }
    }

    /// The finished functions of the module.
    pub fn module(&self) -> (r: &IrModule)
        ensures
            self@.function is None ==> r@ == self@.module,
            self@.function is Some ==> r@ == self@.module.drop_last(),
    {
        proof {
            if self.building {
                assert(self.module@.push(self.current@).drop_last() =~= self.module@);
            }
        }
        &self.module
    }

    /// Gives the finished functions of the module back.
    pub fn into_module(self) -> (r: IrModule)
        ensures
            self@.function is None ==> r@ == self@.module,
            self@.function is Some ==> r@ == self@.module.drop_last(),
    {
        proof {
            if self.building {
                assert(self.module@.push(self.current@).drop_last() =~= self.module@);
            }
        }
        self.module
    }

    /// Resolves a function name against the module. The function that is
    /// being built is found too, behind every finished one.
    pub fn get_function(&self, name: &Name) -> (r: Option<usize>)
        ensures
            r == find_function(self@.module, name@),
    {
        proof {
            if self.building {
                lemma_first_named_push(self.module@, self.current@, name@, 0);
            }
        }
        match self.module.get_function(name) {
            Some(index) => Some(index),
            None => {
                if self.building && self.current.name.name == name.name {
                    Some(self.module.functions.len())
                } else {
                    None
                }
            },
        }
    }

    /// The function that is being built.
    pub fn fn_value(&self) -> (r: usize)
        requires
            self@.function is Some,
        ensures
            Some(r) == self@.function,
    {
        self.module.functions.len()
    }

    /// The block that instructions are appended to.
    pub fn current_cursor(&self) -> (r: usize)
        ensures
            r == self@.cursor,
    {
        self.cursor
    }

    /// Moves the cursor to a block of the function that is being built.
    pub fn set_cursor(&mut self, block: usize)
        requires
            old(self)@.building(),
            block < old(self)@.block_count(),
        ensures
            final(self)@ == old(self)@.set_cursor(block),
            final(self)@.positioned(),
            final(self)@.cursor == block,
            old(self)@.sound() ==> final(self)@.sound(),
            old(self)@.targets_known() ==> final(self)@.targets_known(),
            final(self)@.block_count() == old(self)@.block_count(),
            final(self)@.finished() == old(self)@.finished(),
    {
        reveal(CompilerView::set_cursor);
        self.cursor = block;
        proof {
            if old(self)@.sound() {
                lemma_move_sound(old(self)@, block);
            }
            if old(self)@.targets_known() {
                lemma_slot_targets(old(self)@, Seq::empty(), block);
            }
        }
    }

    /// Looks the name up in the symbol table.
    pub fn lookup(&self, name: &Name) -> (r: Option<usize>)
        ensures
            r == (if self@.variables.contains_key(name@) {
                Some(self@.variables[name@])
            } else {
                None
            }),
    {
        match self.variables.get(name.name.as_str()) {
            Some(slot) => Some(*slot),
            None => None,
        }
    }

    /// Appends an empty block to the function that is being built and gives
    /// its index.
    pub fn append_basic_block(&mut self, kind: BlockKind) -> (r: usize)
        requires
            old(self)@.building(),
        ensures
            final(self)@ == old(self)@.append_block(kind),
            r == old(self)@.block_count(),
            final(self)@.current().params == old(self)@.current().params,
            old(self)@.sound() ==> final(self)@.sound(),
            old(self)@.targets_known() ==> final(self)@.targets_known(),
            old(self)@.sound() ==> forall|v: Value, k: ValueKind|
                old(self)@.usable(v, k) ==> #[trigger] final(self)@.usable(v, k),
            old(self)@.block_count() == 0 && old(self)@.cursor == 0 && old(
                self,
            )@.current().slots.len() == 0 && old(self)@.variables == Map::<
                Seq<char>,
                usize,
            >::empty() ==> final(self)@.sound(),
            final(self)@.building(),
            final(self)@.cursor == old(self)@.cursor,
            final(self)@.block_count() == old(self)@.block_count() + 1,
            final(self)@.finished() == old(self)@.finished(),
            old(self)@.positioned() ==> final(self)@.positioned(),
    {
        let index = self.current.blocks.len();
        self.current.blocks.push(Block { kind, instructions: Vec::new() });
        proof {
            reveal(CompilerView::append_block);
            reveal(CompilerView::with_current);
            assert(self.current.blocks[index as int]@.instructions =~= Seq::empty());
            assert(self.current@.blocks =~= old(self).current@.blocks.push(
                BlockView { kind, instructions: Seq::empty() },
            ));
            assert(self@.module =~= old(self)@.append_block(kind).module);
            if old(self)@.sound() {
                assert(self.current.blocks.len() == index + 1);
                lemma_append_sound(old(self)@, kind);
            }
            if old(self)@.targets_known() {
                lemma_append_targets(old(self)@, kind);
            }
            if old(self)@.block_count() == 0 && old(self)@.cursor == 0 && old(
                self,
            )@.current().slots.len() == 0 && old(self)@.variables == Map::<
                Seq<char>,
                usize,
            >::empty() {
                lemma_entry_sound(old(self)@, kind);
            }
        }
        index
    }

    /// Appends the instruction to the block at the cursor and gives the value
    /// that it defines.
    pub fn emit(&mut self, instruction: Instruction) -> (r: Value)
        requires
            old(self)@.positioned(),
        ensures
            final(self)@ == old(self)@.emit(instruction@),
            final(self)@.positioned(),
            final(self)@.current().params == old(self)@.current().params,
            old(self)@.targets_known() && (forall|t: int|
                instruction@.branches_to(t) ==> 0 <= t < old(self)@.block_count())
                ==> final(self)@.targets_known(),
            old(self)@.sound() && old(self)@.accepts(instruction@) ==> final(self)@.sound(),
            old(self)@.sound() && old(self)@.accepts(instruction@) ==> forall|v: Value, k: ValueKind|
                old(self)@.usable(v, k) ==> #[trigger] final(self)@.usable(v, k),
            old(self)@.sound() && old(self)@.accepts(instruction@) ==> (
            instruction@.defines() matches Some(kind) ==> final(self)@.usable(r, kind)),
            final(self)@.cursor == old(self)@.cursor,
            final(self)@.block_count() == old(self)@.block_count(),
            final(self)@.finished() == old(self)@.finished(),
            r == old(self)@.next_value(),
    {
        let c = self.cursor;
        let index = self.current.blocks[c].instructions.len();
        self.current.blocks[c].instructions.push(instruction);
        proof {
            reveal(CompilerView::emit);
            reveal(CompilerView::with_current);
            assert(self.current.blocks[c as int]@.instructions =~= old(
                self,
            ).current.blocks[c as int]@.instructions.push(instruction@));
            assert(self.current@.blocks =~= old(self)@.emit(instruction@).current().blocks);
            assert(self@.module =~= old(self)@.emit(instruction@).module);
            if old(self)@.sound() && old(self)@.accepts(instruction@) {
                assert(self.current.blocks[c as int].instructions.len() == index + 1);
                assert(old(self)@.block().instructions.len() == index);
                lemma_emit_sound(old(self)@, instruction@);
            }
            if old(self)@.targets_known() && (forall|t: int|
                instruction@.branches_to(t) ==> 0 <= t < old(self)@.block_count()) {
                lemma_emit_targets(old(self)@, instruction@);
            }
        }
        Value::Temp { block: c, index }
    }

    /// Allocates a stack slot for the name in the function that is being
    /// built and gives its index. Every slot exists from function entry on,
    /// whichever block is being built when it is allocated.
    pub fn create_entry_block_alloca(&mut self, name: &Name) -> (r: usize)
        requires
            old(self)@.building(),
        ensures
            final(self)@ == old(self)@.alloca(name@),
            r == old(self)@.current().slots.len(),
            old(self)@.targets_known() ==> final(self)@.targets_known(),
            final(self)@.current().params == old(self)@.current().params,
            r < usize::MAX,
            old(self)@.sound() ==> final(self)@.sound(),
            old(self)@.sound() ==> forall|v: Value, k: ValueKind|
                old(self)@.usable(v, k) ==> #[trigger] final(self)@.usable(v, k),

            final(self)@.building(),
            final(self)@.block_count() == old(self)@.block_count(),
            final(self)@.finished() == old(self)@.finished(),
            old(self)@.positioned() ==> final(self)@.positioned(),
    {
        let index = self.current.slots.len();
        self.current.slots.push(name.clone());
        proof {
            assert(self.current.slots.len() == index + 1);
            reveal(CompilerView::alloca);
            reveal(CompilerView::with_current);
            assert(self.current@.slots =~= old(self).current@.slots.push(name@));
            assert(self@.module =~= old(self)@.alloca(name@).module);
            if old(self)@.sound() {
                assert(self.current.slots.len() == index + 1);
                lemma_alloca_sound(old(self)@, name@);
            }
            if old(self)@.targets_known() {
                lemma_slot_targets(old(self)@, name@, 0);
            }
        }
        index
    }

    /// Allocates a stack slot for the name, binds the name to it and gives
    /// the slot. An earlier binding of the name is replaced.
    pub fn bind(&mut self, name: &Name) -> (r: usize)
        requires
            old(self)@.building(),
        ensures
            final(self)@ == old(self)@.bind(name@),
            r == old(self)@.current().slots.len(),
            final(self)@.current().params == old(self)@.current().params,
            r == final(self)@.variables[name@],
            old(self)@.sound() ==> r < final(self)@.current().slots.len(),
            old(self)@.sound() ==> final(self)@.sound(),
            old(self)@.targets_known() ==> final(self)@.targets_known(),
            old(self)@.sound() ==> forall|v: Value, k: ValueKind|
                old(self)@.usable(v, k) ==> #[trigger] final(self)@.usable(v, k),

            final(self)@.building(),
            final(self)@.block_count() == old(self)@.block_count(),
            final(self)@.finished() == old(self)@.finished(),
            old(self)@.positioned() ==> final(self)@.positioned(),
    {
        let slot = self.create_entry_block_alloca(name);
        self.variables.insert(name.name.clone(), slot);
        proof {
            reveal(CompilerView::bind);
            reveal(CompilerView::alloca);
            reveal(CompilerView::with_current);
            if old(self)@.sound() {
                lemma_bind_sound(old(self)@, name@);
            }
            if old(self)@.targets_known() {
                lemma_slot_targets(old(self)@, name@, 0);
            }
        }
        slot
    }

    /// Lowers an expression into the block at the cursor and gives its value.
    ///
    /// Fails with `UnresolvedSymbol` on a name that is not bound, with
    /// `UnknownFunction` on a call of a name that the module does not know,
    /// and with `UnsupportedConstruct` on a string literal.
    pub fn compile_expr(&mut self, expr: &Expr) -> (r: Result<Value, CompileError>)
        requires
            old(self)@.positioned(),
        ensures
            (final(self)@, r) == lower_expr(old(self)@, expr@),
            final(self)@.positioned(),
            final(self)@.cursor == old(self)@.cursor,
            final(self)@.block_count() == old(self)@.block_count(),
            final(self)@.finished() == old(self)@.finished(),
            old(self)@.sound() ==> final(self)@.sound(),
            old(self)@.targets_known() ==> final(self)@.targets_known(),
            old(self)@.sound() ==> forall|v: Value, k: ValueKind|
                old(self)@.usable(v, k) ==> #[trigger] final(self)@.usable(v, k),
            old(self)@.sound() ==> (r matches Ok(value) ==> final(self)@.usable(
                value,
                ValueKind::Scalar,
            )),
        decreases expr,
    {
        match expr {
            Expr::IntLiteral(n) => {
                proof {
                    lemma_const_usable(self@, *n);
                }
                Ok(Value::Const(*n))
            },
            Expr::StringLiteral(_) => Err(CompileError::UnsupportedConstruct),
            Expr::Name(name) => match self.lookup(name) {
                Some(slot) => {
                    proof {
                        if self@.sound() {
                            lemma_bound_slot(self@, name@);
                        }
                    }
                    Ok(self.emit(Instruction::Load { slot }))
                },
                None => Err(CompileError::UnresolvedSymbol),
            },
            Expr::Binary(op, left, right) => {
                let lhs = match self.compile_expr(&**left) {
                    Ok(value) => value,
                    Err(err) => {
                        return Err(err);
                    },
                };
                let rhs = match self.compile_expr(&**right) {
                    Ok(value) => value,
                    Err(err) => {
                        return Err(err);
                    },
                };
                Ok(self.emit(Instruction::Binary { op: *op, lhs, rhs }))
            },
            Expr::Call(name, args) => {
                proof {
                    Expr::lemma_view_call(*name, *args);
                }
                let callee = match self.get_function(name) {
                    Some(callee) => callee,
                    None => {
                        return Err(CompileError::UnknownFunction);
                    },
                };
                proof {
                    lemma_first_named(self@.module, name@, 0);
                }
                let ghost all = exprs_view(args@);
                let mut values: Vec<Value> = Vec::new();
                let mut i: usize = 0;
                assert(all.take(0) =~= Seq::<ExprView>::empty());
                while i < args.len()
                    invariant
                        i <= args.len(),
                        all == exprs_view(args@),
                        expr@ == ExprView::Call(name@, all),
                        find_function(old(self)@.module, name@) == Some(callee),
                        (self@, Ok::<Seq<Value>, CompileError>(values@)) == lower_args(
                            old(self)@,
                            all.take(i as int),
                        ),
                        self@.positioned(),
                        self@.cursor == old(self)@.cursor,
                        self@.block_count() == old(self)@.block_count(),
                        self@.finished() == old(self)@.finished(),
                        callee < old(self)@.module.len(),
                        old(self)@.positioned(),
                        old(self)@.sound() ==> self@.sound(),
                        old(self)@.targets_known() ==> self@.targets_known(),
                        old(self)@.sound() ==> forall|v: Value, k: ValueKind|
                            old(self)@.usable(v, k) ==> #[trigger] self@.usable(v, k),
                        old(self)@.sound() ==> forall|j: int|
                            0 <= j < values@.len() ==> self@.usable(
                                #[trigger] values@[j],
                                ValueKind::Scalar,
                            ),
                        forall|j: int| 0 <= j < args.len() ==> decreases_to!(expr => args[j]),
                    decreases args.len() - i,
                {
                    proof {
                        assert(all.take(i + 1).drop_last() =~= all.take(i as int));
                        assert(all.take(i + 1).last() == args[i as int]@);
                    }
                    match self.compile_expr(&args[i]) {
                        Ok(value) => {
                            values.push(value);
                        },
                        Err(err) => {
                            proof {
                                lemma_lower_args_stops(old(self)@, all, i + 1);
                            }
                            return Err(err);
                        },
                    }
                    i += 1;
                }
                assert(all.take(i as int) =~= all);
                Ok(self.emit(Instruction::Call { callee, args: values }))
            },
        }
    }

    /// Lowers a statement at the cursor.
    ///
    /// A `Return` ends the block at the cursor, and what is lowered after it
    /// at the same cursor is appended behind the terminator: structural
    /// verification then refuses the function.
    pub fn compile_stmt(&mut self, stmt: &Stmt) -> (r: Result<(), CompileError>)
        requires
            old(self)@.positioned(),
        ensures
            (final(self)@, r) == lower_stmt(old(self)@, stmt@),
            final(self)@.positioned(),
            final(self)@.block_count() >= old(self)@.block_count(),
            final(self)@.finished() == old(self)@.finished(),
            old(self)@.sound() ==> final(self)@.sound(),
            old(self)@.targets_known() ==> final(self)@.targets_known(),
        decreases stmt, 1nat,
    {
        match stmt {
            Stmt::Expr(expr) => match self.compile_expr(expr) {
                Ok(_) => Ok(()),
                Err(err) => Err(err),
            },
            Stmt::Let(name, expr) => {
                let value = match self.compile_expr(expr) {
                    Ok(value) => value,
                    Err(err) => {
                        return Err(err);
                    },
                };
                let slot = self.bind(name);
                self.emit(Instruction::Store { slot, value });
                Ok(())
            },
            Stmt::Return(expr) => {
                let value = match self.compile_expr(expr) {
                    Ok(value) => value,
                    Err(err) => {
                        return Err(err);
                    },
                };
                self.emit(Instruction::Return { value });
                Ok(())
            },
            Stmt::Assign(name, expr) => {
                let value = match self.compile_expr(&**expr) {
                    Ok(value) => value,
                    Err(err) => {
                        return Err(err);
                    },
                };
                match self.lookup(name) {
                    Some(slot) => {
                        proof {
                            if self@.sound() {
                                lemma_bound_slot(self@, name@);
                            }
                        }
                        self.emit(Instruction::Store { slot, value });
                        Ok(())
                    },
                    None => Err(CompileError::UnresolvedSymbol),
                }
            },
            Stmt::If(..) => self.compile_if(stmt),
            Stmt::For(..) => self.compile_for(stmt),
        }
    }

    /// Lowers a conditional at the cursor.
    fn compile_if(&mut self, stmt: &Stmt) -> (r: Result<(), CompileError>)
        requires
            old(self)@.positioned(),
            stmt is If,
        ensures
            (final(self)@, r) == lower_stmt(old(self)@, stmt@),
            final(self)@.positioned(),
            final(self)@.block_count() >= old(self)@.block_count(),
            final(self)@.finished() == old(self)@.finished(),
            old(self)@.sound() ==> final(self)@.sound(),
            old(self)@.targets_known() ==> final(self)@.targets_known(),
        decreases stmt, 0nat,
    {
        match stmt {
            Stmt::If(cond, then_body, else_body) => {
                proof {
                    Stmt::lemma_view_if(*cond, *then_body, *else_body);
                }
                let value = match self.compile_expr(cond) {
                    Ok(value) => value,
                    Err(err) => {
                        return Err(err);
                    },
                };
                let test = self.emit(Instruction::IsNonZero { value });
                let then_block = self.append_basic_block(BlockKind::Then);
                let else_block = self.append_basic_block(BlockKind::Else);
                let merge_block = self.append_basic_block(BlockKind::Merge);
                self.emit(Instruction::CondBranch { cond: test, then_block, else_block });
                self.set_cursor(then_block);
                match self.compile_block(then_body) {
                    Ok(_) => {},
                    Err(err) => {
                        return Err(err);
                    },
                }
                self.emit(Instruction::Branch { target: merge_block });
                self.set_cursor(else_block);
                match self.compile_block(else_body) {
                    Ok(_) => {},
                    Err(err) => {
                        return Err(err);
                    },
                }
                self.emit(Instruction::Branch { target: merge_block });
                self.set_cursor(merge_block);
                Ok(())
            },
            _ => Ok(()),
        }
    }

    /// Lowers a loop at the cursor.
    fn compile_for(&mut self, stmt: &Stmt) -> (r: Result<(), CompileError>)
        requires
            old(self)@.positioned(),
            stmt is For,
        ensures
            (final(self)@, r) == lower_stmt(old(self)@, stmt@),
            final(self)@.positioned(),
            final(self)@.block_count() >= old(self)@.block_count(),
            final(self)@.finished() == old(self)@.finished(),
            old(self)@.sound() ==> final(self)@.sound(),
            old(self)@.targets_known() ==> final(self)@.targets_known(),
        decreases stmt, 0nat,
    {
        match stmt {
            Stmt::For(init, cond, step, body) => {
                proof {
                    Stmt::lemma_view_for(*init, *cond, *step, *body);
                }
                match self.compile_stmt(&**init) {
                    Ok(_) => {},
                    Err(err) => {
                        return Err(err);
                    },
                }
                let cond_block = self.append_basic_block(BlockKind::LoopCondition);
                let body_block = self.append_basic_block(BlockKind::LoopBody);
                let after_block = self.append_basic_block(BlockKind::AfterLoop);
                self.emit(Instruction::Branch { target: cond_block });
                self.set_cursor(cond_block);
                let value = match self.compile_expr(cond) {
                    Ok(value) => value,
                    Err(err) => {
                        return Err(err);
                    },
                };
                let test = self.emit(Instruction::IsNonZero { value });
                self.emit(
                    Instruction::CondBranch {
                        cond: test,
                        then_block: body_block,
                        else_block: after_block,
                    },
                );
                self.set_cursor(body_block);
                match self.compile_block(body) {
                    Ok(_) => {},
                    Err(err) => {
                        return Err(err);
                    },
                }
                match self.compile_expr(step) {
                    Ok(_) => {},
                    Err(err) => {
                        return Err(err);
                    },
                }
                self.emit(Instruction::Branch { target: cond_block });
                self.set_cursor(after_block);
                Ok(())
            },
            _ => Ok(()),
        }
    }

    /// Lowers the statements in order and stops at the first that fails.
    pub fn compile_block(&mut self, stmts: &Vec<Stmt>) -> (r: Result<(), CompileError>)
        requires
            old(self)@.positioned(),
        ensures
            (final(self)@, r) == lower_stmts(old(self)@, stmts_view(stmts@)),
            final(self)@.positioned(),
            final(self)@.block_count() >= old(self)@.block_count(),
            final(self)@.finished() == old(self)@.finished(),
            old(self)@.sound() ==> final(self)@.sound(),
            old(self)@.targets_known() ==> final(self)@.targets_known(),
        decreases stmts, 0nat,
    {
        let ghost all = stmts_view(stmts@);
        let mut i: usize = 0;
        assert(all.take(0) =~= Seq::<StmtView>::empty());
        while i < stmts.len()
            invariant
                i <= stmts.len(),
                all == stmts_view(stmts@),
                (self@, Ok::<(), CompileError>(())) == lower_stmts(old(self)@, all.take(i as int)),
                self@.positioned(),
                self@.block_count() >= old(self)@.block_count(),
                self@.finished() == old(self)@.finished(),
                old(self)@.sound() ==> self@.sound(),
                old(self)@.targets_known() ==> self@.targets_known(),
            decreases stmts.len() - i,
        {
            proof {
                assert(all.take(i + 1).drop_last() =~= all.take(i as int));
                assert(all.take(i + 1).last() == stmts[i as int]@);
            }
            match self.compile_stmt(&stmts[i]) {
                Ok(_) => {},
                Err(err) => {
                    proof {
                        lemma_lower_stmts_stops(old(self)@, all, i + 1);
                    }
                    return Err(err);
                },
            }
            i += 1;
        }
        assert(all.take(i as int) =~= all);
        Ok(())
    }

    /// The function that is being built, as far as it is built.
    pub fn function(&self) -> (r: &LoweredFunction)
        requires
            self@.building(),
        ensures
            r@ == self@.current(),
    {
        &self.current
    }

    /// Drops the function that is being built, if one is, and empties the
    /// symbol table.
    pub fn reset(&mut self)
        ensures
            final(self)@ == CompilerView::idle(old(self)@.finished()),
    {
        proof {
            if self.building {
                assert(self.module@.push(self.current@).drop_last() =~= self.module@);
            }
        }
        self.building = false;
        self.variables = StringHashMap::new();
        self.current = empty_function();
        self.cursor = 0;
    }

    /// Declares the function in the module, with as many parameters as it
    /// has, and starts to build it. Any function that was being built is
    /// dropped. Gives the index of the declared function.
    pub fn make_prototype(&mut self, function: &Function) -> (r: Option<usize>)
        ensures
            final(self)@ == CompilerView::idle(old(self)@.finished()).declare(function@),
            r == Some(old(self)@.finished().len() as usize),
            final(self)@.building(),
            final(self)@.finished() == old(self)@.finished(),
            final(self)@.block_count() == 0,
            final(self)@.targets_known(),
            final(self)@.cursor == 0,
            final(self)@.current().slots.len() == 0,
            final(self)@.current().params == function@.args,
            final(self)@.variables == Map::<Seq<char>, usize>::empty(),
    {
        self.reset();
        let mut params: Vec<Name> = Vec::new();
        let mut i: usize = 0;
        while i < function.args.len()
            invariant
                i <= function.args.len(),
                params.len() == i,
                forall|j: int| 0 <= j < i ==> params[j]@ == function.args[j]@,
            decreases function.args.len() - i,
        {
            params.push(function.args[i].clone());
            i += 1;
        }
        self.current = LoweredFunction {
            name: function.name.clone(),
            params,
            slots: Vec::new(),
            blocks: Vec::new(),
        };
        self.building = true;
        proof {
            reveal(CompilerView::declare);
            assert(self.current@.params =~= function@.args);
            assert(self.current@.slots =~= Seq::empty());
            assert(self.current@.blocks =~= Seq::empty());
            assert(self.module@.push(self.current@).drop_last() =~= self.module@);
        }
        Some(self.module.functions.len())
    }

    /// Compiles a function: declares it, builds its entry block, gives each
    /// parameter a stack slot that holds its incoming value, lowers the body
    /// and verifies the structure of the result.
    ///
    /// On success the function has joined the module and its index is given.
    /// On any failure the module is as it was before: a function is lowered
    /// and verified in full or is absent.
    pub fn compile_function(&mut self, function: &Function) -> (r: Result<usize, CompileError>)
        ensures
            (final(self)@, r) == lower_function(old(self)@, function@),
            lower_stmts(
                begin_function(old(self)@.finished(), function@),
                function@.body,
            ).0.block_count() <= usize::MAX,
            r matches Ok(index) ==> operands_in_order(final(self)@.module, index as int),
            r matches Ok(index) ==> final(self)@.module[index as int].structurally_valid(),
            r matches Ok(index) ==> index == old(self)@.finished().len() && final(self)@.module.len()
                == index + 1 && final(self)@.module.drop_last() == old(self)@.finished(),
            r is Err ==> final(self)@.module == old(self)@.finished(),
    {
        let index = self.module.functions.len();
        self.make_prototype(function);
        self.variables.reserve(function.args.len());
        self.append_basic_block(BlockKind::Entry);
        let ghost start = self@;
        let ghost params = function@.args;
        let mut i: usize = 0;
        assert(params.take(0) =~= Seq::<Seq<char>>::empty());
        while i < function.args.len()
            invariant
                i <= function.args.len(),
                params == names_view(function.args@),
                self@ == bind_params(start, params.take(i as int)),
                self@.positioned(),
                self@.sound(),
                self@.current().params == params,
                self@.finished() == start.finished(),
            decreases function.args.len() - i,
        {
            proof {
                assert(params.take(i + 1).drop_last() =~= params.take(i as int));
                assert(params.take(i + 1).last() == function.args[i as int]@);
            }
            let slot = self.bind(&function.args[i]);
            proof {
                lemma_param_usable(self@, i);
            }
            self.emit(Instruction::Store { slot, value: Value::Param(i) });
            i += 1;
        }
        assert(params.take(i as int) =~= params);
        let lowered = self.compile_block(&function.body);
        proof {
            lemma_sound_operands(self@);
            assert(self.module@.push(self.current@).drop_last() =~= self.module@);
            self.lemma_counts();
            assert(self@ == lower_stmts(
                begin_function(old(self)@.finished(), function@),
                function@.body,
            ).0);
        }
        match lowered {
            Err(err) => {
                self.reset();
                Err(err)
            },
            Ok(_) => {
                if self.current.verify() {
                    let ghost module = self@.module;
                    let mut done = empty_function();
                    std::mem::swap(&mut done, &mut self.current);
                    self.module.functions.push(done);
                    self.building = false;
                    self.variables = StringHashMap::new();
                    self.cursor = 0;
                    proof {
                        assert(self.module@ =~= module);
                    }
                    Ok(index)
                } else {
                    self.reset();
                    Err(CompileError::VerificationFailure)
                }
            },
        }
    }

    /// Compiles the first function of the program into the module.
    pub fn compile(module: &mut IrModule, program: &Program) -> (r: Result<usize, CompileError>)
        requires
            program.functions.len() > 0,
        ensures
            (CompilerView::idle(final(module)@), r) == lower_function(
                CompilerView::idle(old(module)@),
                program.functions[0]@,
            ),
            r matches Ok(index) ==> operands_in_order(final(module)@, index as int),
            r matches Ok(index) ==> final(module)@[index as int].structurally_valid(),
            r matches Ok(index) ==> index == old(module)@.len() && final(module)@.len() == index + 1
                && final(module)@.drop_last() == old(module)@,
            r is Err ==> final(module)@ == old(module)@,
    {
        let mut taken = IrModule::new();
        std::mem::swap(&mut taken, module);
        let mut compiler = Compiler::new(taken);
        let r = compiler.compile_function(&program.functions[0]);
        *module = compiler.into_module();
        r
    }
}

} // verus!
