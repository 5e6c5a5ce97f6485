//! Lowering keeps the meaning of expressions: the instructions that an
//! expression without calls is lowered to compute the value of the
//! expression, and trap where it has none. So a function that returns such
//! an expression of its parameters returns its value.

use vstd::prelude::*;
use crate::internal_representations::gast::{ExprView, FunctionView, StmtView};
use crate::ir::{BlockKind, BlockView, InstructionView, LoweredFunctionView, Value};
use crate::laws::{
    emitted,
    law_binary_left_to_right,
    lemma_begin_function,
    param_stores,
    slot_map,
};
use crate::locality::{lemma_emit_continues, lemma_lower_expr_continues};
use crate::lowering::{CompileError, CompilerView, begin_function, lower_expr, lower_function};
use crate::semantics::{FrameView, Outcome, arith, execute, flag, run};

verus! {

/// Whether the expression holds no call and no string.
pub open spec fn plain(e: ExprView) -> bool
    decreases e,
{
    match e {
        ExprView::IntLiteral(_) => true,
        ExprView::Name(_) => true,
        ExprView::Binary(_, left, right) => plain(*left) && plain(*right),
        _ => false,
    }
}

/// The value of a plain expression where each name has the value that
/// `env` gives it, or `None` where a division has no result.
pub open spec fn value_of(e: ExprView, env: Map<Seq<char>, i64>) -> Option<i64>
    decreases e,
{
    match e {
        ExprView::IntLiteral(n) => Some(n),
        ExprView::Name(name) => if env.contains_key(name) {
            Some(env[name])
        } else {
            None
        },
        ExprView::Binary(op, left, right) => match (value_of(*left, env), value_of(*right, env)) {
            (Some(a), Some(b)) => arith(op, a, b),
            _ => None,
        },
        _ => None,
    }
}

/// What an instruction that neither calls nor ends a block does to the
/// storage, where it stands at `index` of block `block`; `None` where it
/// traps.
pub open spec fn step(
    frame: FrameView,
    args: Seq<i64>,
    instruction: InstructionView,
    block: int,
    index: int,
) -> Option<FrameView> {
    match instruction {
        InstructionView::Load { slot } => if slot < frame.slots.len() {
            match frame.slots[slot as int] {
                Some(v) => Some(frame.define(block, index, v)),
                None => None,
            }
        } else {
            None
        },
        InstructionView::Store { slot, value } => match frame.eval(args, value) {
            Some(v) if slot < frame.slots.len() => Some(frame.store(slot as int, v)),
            _ => None,
        },
        InstructionView::Binary { op, lhs, rhs } => match (
            frame.eval(args, lhs),
            frame.eval(args, rhs),
        ) {
            (Some(a), Some(b)) => match arith(op, a, b) {
                Some(v) => Some(frame.define(block, index, v)),
                None => None,
            },
            _ => None,
        },
        InstructionView::IsNonZero { value } => match frame.eval(args, value) {
            Some(v) => Some(frame.define(block, index, flag(v))),
            None => None,
        },
        _ => None,
    }
}

/// Whether the instruction neither calls nor ends a block.
pub open spec fn simple(instruction: InstructionView) -> bool {
    instruction is Load || instruction is Store || instruction is Binary
        || instruction is IsNonZero
}

/// What the instructions do to the storage, one after the other, where the
/// first stands at `index` of block `block`; `None` where one traps.
pub open spec fn steps(
    frame: FrameView,
    args: Seq<i64>,
    code: Seq<InstructionView>,
    block: int,
    index: int,
) -> Option<FrameView>
    decreases code.len(),
{
    if code.len() == 0 {
        Some(frame)
    } else {
        match step(frame, args, code[0], block, index) {
            Some(next) => steps(next, args, code.drop_first(), block, index + 1),
            None => None,
        }
    }
}

/// Instructions one after the other are the first ones, then the others.
pub proof fn lemma_steps_append(
    frame: FrameView,
    args: Seq<i64>,
    first: Seq<InstructionView>,
    second: Seq<InstructionView>,
    block: int,
    index: int,
)
    ensures
        steps(frame, args, first + second, block, index) == match steps(
            frame,
            args,
            first,
            block,
            index,
        ) {
            Some(between) => steps(between, args, second, block, index + first.len()),
            None => None,
        },
    decreases first.len(),
{
    if first.len() == 0 {
        assert(first + second =~= second);
    } else {
        assert((first + second)[0] == first[0]);
        assert((first + second).drop_first() =~= first.drop_first() + second);
        match step(frame, args, first[0], block, index) {
            Some(next) => {
                lemma_steps_append(next, args, first.drop_first(), second, block, index + 1);
            },
            None => {},
        }
    }
}

/// A run that stands before simple instructions goes on behind them with
/// what they did to the storage, and traps where one of them traps.
pub proof fn lemma_execute_steps(
    module: Seq<LoweredFunctionView>,
    f: int,
    frame: FrameView,
    args: Seq<i64>,
    block: int,
    index: int,
    count: int,
    fuel: nat,
)
    requires
        0 <= block < module[f].blocks.len(),
        0 <= index,
        0 <= count,
        index + count <= module[f].blocks[block].instructions.len(),
        forall|i: int| index <= i < index + count ==> simple(
            #[trigger] module[f].blocks[block].instructions[i],
        ),
        fuel >= count,
    ensures
        ({
            let code = module[f].blocks[block].instructions.subrange(index, index + count);
            match steps(frame, args, code, block, index) {
                Some(after) => execute(module, f, frame, args, block, index, fuel) == execute(
                    module,
                    f,
                    after,
                    args,
                    block,
                    index + count,
                    (fuel - count) as nat,
                ),
                None => fuel > count ==> execute(module, f, frame, args, block, index, fuel)
                    == Outcome::Trapped,
            }
        }),
    decreases count,
{
    let instructions = module[f].blocks[block].instructions;
    let code = instructions.subrange(index, index + count);
    if count > 0 {
        assert(code[0] == instructions[index]);
        assert(simple(instructions[index]));
        assert(code.drop_first() =~= instructions.subrange(index + 1, index + count));
        match step(frame, args, code[0], block, index) {
            Some(next) => {
                lemma_execute_steps(
                    module,
                    f,
                    next,
                    args,
                    block,
                    index + 1,
                    count - 1,
                    (fuel - 1) as nat,
                );
            },
            None => {},
        }
    }
}

/// The slots hold the values of the names: every bound name has a value in
/// `env`, and its slot holds that value.
pub open spec fn holds(
    frame: FrameView,
    variables: Map<Seq<char>, usize>,
    env: Map<Seq<char>, i64>,
) -> bool {
    &&& forall|name: Seq<char>| env.contains_key(name) <==> variables.contains_key(name)
    &&& forall|name: Seq<char>|
        variables.contains_key(name) ==> (#[trigger] variables[name]) < frame.slots.len()
            && frame.slots[variables[name] as int] == Some(env[name])
}

/// The storage `after` is the storage `before` but for the values that the
/// instructions of block `block` from index `from` on define.
pub open spec fn defines_from(after: FrameView, before: FrameView, block: int, from: int) -> bool {
    &&& after.slots == before.slots
    &&& after.values.len() == before.values.len()
    &&& forall|b: int|
        0 <= b < before.values.len() ==> (#[trigger] after.values[b]).len()
            == before.values[b].len()
    &&& forall|b: int, i: int|
        0 <= b < before.values.len() && 0 <= i < before.values[b].len() && (b != block || i
            < from) ==> (#[trigger] after.values[b][i]) == before.values[b][i]
}

/// The instructions that a plain expression is lowered to compute its
/// value: run on a storage whose slots hold the values of the names, they
/// leave the value of the expression in the value that lowering gave, and
/// change nothing but the values that they define. Where the expression has
/// no value, they trap.
pub proof fn lemma_lower_expr_meaning(
    c: CompilerView,
    e: ExprView,
    frame: FrameView,
    args: Seq<i64>,
    env: Map<Seq<char>, i64>,
)
    requires
        c.positioned(),
        plain(e),
        lower_expr(c, e).1 is Ok,
        lower_expr(c, e).0.block().instructions.len() <= usize::MAX,
        holds(frame, c.variables, env),
        c.cursor < frame.values.len(),
        frame.values[c.cursor as int].len() >= lower_expr(c, e).0.block().instructions.len(),
    ensures
        ({
            let (c1, r) = lower_expr(c, e);
            let v = r->Ok_0;
            let from = c.block().instructions.len() as int;
            let code = emitted(c, c1);
            &&& code.len() == c1.block().instructions.len() - from
            &&& forall|i: int| 0 <= i < code.len() ==> simple(#[trigger] code[i])
            &&& v is Const || (v matches Value::Temp { block, index } && block == c.cursor && from
                <= index < from + code.len())
            &&& match value_of(e, env) {
                Some(n) => steps(frame, args, code, c.cursor as int, from) matches Some(after)
                    && after.eval(args, v) == Some(n) && defines_from(
                    after,
                    frame,
                    c.cursor as int,
                    from,
                ),
                None => steps(frame, args, code, c.cursor as int, from) is None,
            }
        }),
    decreases e,
{
    let b = c.cursor as int;
    let from = c.block().instructions.len() as int;
    let (c1, r) = lower_expr(c, e);
    lemma_lower_expr_continues(c, e);
    match e {
        ExprView::IntLiteral(n) => {
            assert(emitted(c, c1) =~= Seq::empty());
        },
        ExprView::Name(name) => {
            let load = InstructionView::Load { slot: c.variables[name] };
            lemma_emit_continues(c, load);
            let code = emitted(c, c1);
            assert(code =~= seq![load]);
            assert(code.drop_first() =~= Seq::empty());
            let after = frame.define(b, from, env[name]);
            assert(step(frame, args, load, b, from) == Some(after));
            assert(steps(after, args, code.drop_first(), b, from + 1) == Some(after));
        },
        ExprView::Binary(op, left, right) => {
            law_binary_left_to_right(c, op, *left, *right);
            let (cl, rl) = lower_expr(c, *left);
            let (cr, rr) = lower_expr(cl, *right);
            lemma_lower_expr_continues(c, *left);
            lemma_lower_expr_continues(cl, *right);
            let operation = InstructionView::Binary { op, lhs: rl->Ok_0, rhs: rr->Ok_0 };
            lemma_emit_continues(cr, operation);
            let first = emitted(c, cl);
            let second = emitted(cl, cr);
            let code = emitted(c, c1);
            let middle = cl.block().instructions.len() as int;
            let last = cr.block().instructions.len() as int;
            lemma_lower_expr_meaning(c, *left, frame, args, env);
            lemma_steps_append(frame, args, first, second + seq![operation], b, from);
            assert(first + second + seq![operation] =~= first + (second + seq![operation]));
            assert forall|i: int| 0 <= i < code.len() implies simple(#[trigger] code[i]) by {
                if i < first.len() {
                    assert(code[i] == first[i]);
                } else if i < first.len() + second.len() {
                    assert(code[i] == second[i - first.len()]);
                    lemma_lower_expr_shape(cl, *right);
                }
            }
            match steps(frame, args, first, b, from) {
                Some(f1) => {
                    lemma_lower_expr_meaning(cl, *right, f1, args, env);
                    lemma_steps_append(f1, args, second, seq![operation], b, middle);
                    match steps(f1, args, second, b, middle) {
                        Some(f2) => {
                            let x = value_of(*left, env)->Some_0;
                            let y = value_of(*right, env)->Some_0;
                            assert(f2.eval(args, rl->Ok_0) == Some(x));
                            assert(seq![operation].drop_first() =~= Seq::<InstructionView>::empty());
                            match arith(op, x, y) {
                                Some(n) => {
                                    let f3 = f2.define(b, last, n);
                                    assert(step(f2, args, operation, b, last) == Some(f3));
                                    assert(steps(f3, args, seq![operation].drop_first(), b, last + 1)
                                        == Some(f3));
                                },
                                None => {
                                    assert(step(f2, args, operation, b, last) is None);
                                },
                            }
                        },
                        None => {},
                    }
                },
                None => {},
            }
        },
        _ => {},
    }
}

/// The instructions that a plain expression is lowered to are simple.
proof fn lemma_lower_expr_shape(c: CompilerView, e: ExprView)
    requires
        c.positioned(),
        plain(e),
        lower_expr(c, e).1 is Ok,
    ensures
        forall|i: int|
            0 <= i < emitted(c, lower_expr(c, e).0).len() ==> simple(
                #[trigger] emitted(c, lower_expr(c, e).0)[i],
            ),
    decreases e,
{
    let (c1, r) = lower_expr(c, e);
    lemma_lower_expr_continues(c, e);
    match e {
        ExprView::IntLiteral(n) => {
            assert(emitted(c, c1) =~= Seq::empty());
        },
        ExprView::Name(name) => {
            let load = InstructionView::Load { slot: c.variables[name] };
            lemma_emit_continues(c, load);
            assert(emitted(c, c1) =~= seq![load]);
        },
        ExprView::Binary(op, left, right) => {
            law_binary_left_to_right(c, op, *left, *right);
            let (cl, rl) = lower_expr(c, *left);
            let (cr, rr) = lower_expr(cl, *right);
            lemma_lower_expr_continues(c, *left);
            lemma_lower_expr_shape(c, *left);
            lemma_lower_expr_shape(cl, *right);
            let first = emitted(c, cl);
            let second = emitted(cl, cr);
            let code = emitted(c, c1);
            assert forall|i: int| 0 <= i < code.len() implies simple(#[trigger] code[i]) by {
                if i < first.len() {
                    assert(code[i] == first[i]);
                } else if i < first.len() + second.len() {
                    assert(code[i] == second[i - first.len()]);
                }
            }
        },
        _ => {},
    }
}

/// The value of each parameter name: the argument at its position, the
/// last one where the name stands more than once.
pub open spec fn param_env(params: Seq<Seq<char>>, args: Seq<i64>) -> Map<Seq<char>, i64>
    decreases params.len(),
{
    if params.len() == 0 {
        Map::empty()
    } else {
        param_env(params.drop_last(), args).insert(params.last(), args[params.len() - 1])
    }
}

/// A parameter name has the value of the argument at its slot.
proof fn lemma_param_env(params: Seq<Seq<char>>, args: Seq<i64>)
    requires
        params.len() <= usize::MAX,
    ensures
        forall|name: Seq<char>|
            param_env(params, args).contains_key(name) <==> slot_map(params).contains_key(name),
        forall|name: Seq<char>|
            slot_map(params).contains_key(name) ==> (#[trigger] slot_map(params)[name])
                < params.len() && param_env(params, args)[name] == args[slot_map(
                params,
            )[name] as int],
    decreases params.len(),
{
    if params.len() > 0 {
        let shorter = params.drop_last();
        lemma_param_env(shorter, args);
        let last = params.last();
        assert forall|name: Seq<char>|
            param_env(params, args).contains_key(name) <==> slot_map(params).contains_key(
                name,
            ) by {
            if name != last {
                assert(param_env(params, args).contains_key(name) == param_env(
                    shorter,
                    args,
                ).contains_key(name));
                assert(slot_map(params).contains_key(name) == slot_map(shorter).contains_key(name));
            }
        }
        assert forall|name: Seq<char>| slot_map(params).contains_key(name) implies (
        #[trigger] slot_map(params)[name]) < params.len() && param_env(params, args)[name]
            == args[slot_map(params)[name] as int] by {
            if name != last {
                assert(slot_map(shorter).contains_key(name));
                assert(slot_map(params)[name] == slot_map(shorter)[name]);
                assert(param_env(params, args)[name] == param_env(shorter, args)[name]);
            }
        }
    }
}

/// The storage with the first `count` arguments stored to the first slots.
pub open spec fn stored(frame: FrameView, args: Seq<i64>, count: int) -> FrameView {
    FrameView {
        slots: Seq::new(
            frame.slots.len(),
            |i: int|
                if i < count {
                    Some(args[i])
                } else {
                    frame.slots[i]
                },
        ),
        ..frame
    }
}

/// The parameters' stores store the arguments to the slots.
proof fn lemma_stores_meaning(frame: FrameView, args: Seq<i64>, params: Seq<Seq<char>>, count: int)
    requires
        0 <= count <= params.len() <= usize::MAX,
        args.len() == params.len(),
        frame.slots.len() == params.len(),
    ensures
        steps(frame, args, param_stores(params).take(count), 0, 0) == Some(
            stored(frame, args, count),
        ),
    decreases count,
{
    let stores = param_stores(params);
    if count == 0 {
        assert(stores.take(0) =~= Seq::empty());
        assert(stored(frame, args, 0).slots =~= frame.slots);
    } else {
        lemma_stores_meaning(frame, args, params, count - 1);
        let before = stored(frame, args, count - 1);
        let store = stores[count - 1];
        assert(stores.take(count) =~= stores.take(count - 1) + seq![store]);
        lemma_steps_append(frame, args, stores.take(count - 1), seq![store], 0, 0);
        assert(seq![store].drop_first() =~= Seq::<InstructionView>::empty());
        let after = before.store(count - 1, args[count - 1]);
        assert(step(before, args, store, 0, count - 1) == Some(after));
        assert(steps(after, args, seq![store].drop_first(), 0, count) == Some(after));
        assert(after.slots =~= stored(frame, args, count).slots);
    }
}

/// A function that returns a plain expression of its parameters returns the
/// value of the expression when it is run on arguments, and traps where the
/// expression has no value, given fuel for its instructions.
pub proof fn law_return_expression_runs(
    c: CompilerView,
    f: FunctionView,
    e: ExprView,
    args: Seq<i64>,
    fuel: nat,
)
    requires
        c.finished().len() <= usize::MAX,
        f.args.len() <= usize::MAX,
        f.body == seq![StmtView::Return(e)],
        plain(e),
        lower_function(c, f).1 is Ok,
        args.len() == f.args.len(),
        lower_function(c, f).0.module.last().blocks[0].instructions.len() <= usize::MAX,
        fuel > lower_function(c, f).0.module.last().blocks[0].instructions.len() + 1,
    ensures
        run(lower_function(c, f).0.module, c.finished().len() as int, args, fuel) == match value_of(
            e,
            param_env(f.args, args),
        ) {
            Some(n) => Outcome::Returned(n),
            None => Outcome::Trapped,
        },
{
    let module = c.finished();
    let index = module.len() as int;
    let start = begin_function(module, f);
    lemma_begin_function(module, f);
    let env = param_env(f.args, args);
    lemma_param_env(f.args, args);

    // What was lowered: the stores, the code of the expression, the return.
    assert(f.body.drop_last() =~= Seq::<StmtView>::empty());
    assert(f.body.last() == StmtView::Return(e));
    assert(crate::lowering::lower_stmts(start, f.body.drop_last()) == (start, Ok::<(), CompileError>(())));
    assert(crate::lowering::lower_stmts(start, f.body) == crate::lowering::lower_stmt(start, f.body.last()));
    let (c1, r1) = lower_expr(start, e);
    lemma_lower_expr_continues(start, e);
    let v = r1->Ok_0;
    let ret = InstructionView::Return { value: v };
    let c2 = c1.emit(ret);
    lemma_emit_continues(c1, ret);
    let lowered = c2.current();
    let built = lower_function(c, f).0.module;
    assert(built == c2.module);
    assert(built.last() == lowered);
    assert(built[index] == lowered);
    let instructions = lowered.blocks[0].instructions;
    let stores = param_stores(f.args);
    let code = emitted(start, c1);
    let count = stores.len() + code.len();
    assert(instructions =~= stores + code + seq![ret]);

    // The storage after the stores holds the arguments.
    let fresh = FrameView::fresh(lowered);
    lemma_stores_meaning(fresh, args, f.args, f.args.len() as int);
    assert(stores.take(f.args.len() as int) =~= stores);
    let filled = stored(fresh, args, f.args.len() as int);
    assert(holds(filled, start.variables, env));

    // The code of the expression computes its value.
    lemma_lower_expr_meaning(start, e, filled, args, env);
    lemma_steps_append(fresh, args, stores, code, 0, 0);
    assert(instructions.subrange(0, count as int) =~= stores + code);
    assert forall|i: int| 0 <= i < count implies simple(#[trigger] instructions[i]) by {
        if i < stores.len() {
            assert(instructions[i] == stores[i]);
        } else {
            assert(instructions[i] == code[i - stores.len()]);
        }
    }
    lemma_execute_steps(built, index, fresh, args, 0, 0, count as int, (fuel - 1) as nat);
    assert(instructions[count as int] == ret);
}

} // verus!
