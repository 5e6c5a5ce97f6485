//! A loop that counts: the function
//!
//! ```text
//! fn name() { let runs = 0; for (let i = 0; i - k; 0) { runs = runs + 1; i = i + 1; } return runs; }
//! ```
//!
//! is lowered to four blocks, and the lowered function, when it is run, goes
//! through the body block `k` times and returns `k`: the condition is
//! tested before every turn, the first too, and the body is not entered
//! once it fails.

use vstd::prelude::*;
use crate::internal_representations::gast::{ExprView, FunctionView, Operator, StmtView};
use crate::ir::{BlockKind, BlockView, InstructionView, LoweredFunctionView, Value};
use crate::laws::lemma_begin_function;
use crate::lowering::{
    CompileError,
    CompilerView,
    begin_function,
    jump,
    lower_expr,
    lower_function,
    lower_stmt,
    lower_stmts,
    open_loop,
    test_loop,
};
use crate::semantics::{FrameView, Outcome, execute, run};
use crate::straight::{all_straight, law_single_return_verifies, straight};

verus! {

/// The blocks that the counting loop with the bound `k` is lowered to: the
/// entry block, the condition block, the body block and the block after the
/// loop. Slot 0 is the number of turns, slot 1 the counter.
pub open spec fn counting_blocks(k: i64) -> Seq<BlockView> {
    seq![
        BlockView {
            kind: BlockKind::Entry,
            instructions: seq![
                InstructionView::Store { slot: 0, value: Value::Const(0) },
                InstructionView::Store { slot: 1, value: Value::Const(0) },
                InstructionView::Branch { target: 1 },
            ],
        },
        BlockView {
            kind: BlockKind::LoopCondition,
            instructions: seq![
                InstructionView::Load { slot: 1 },
                InstructionView::Binary {
                    op: Operator::Sub,
                    lhs: Value::Temp { block: 1, index: 0 },
                    rhs: Value::Const(k),
                },
                InstructionView::IsNonZero { value: Value::Temp { block: 1, index: 1 } },
                InstructionView::CondBranch {
                    cond: Value::Temp { block: 1, index: 2 },
                    then_block: 2,
                    else_block: 3,
                },
            ],
        },
        BlockView {
            kind: BlockKind::LoopBody,
            instructions: seq![
                InstructionView::Load { slot: 0 },
                InstructionView::Binary {
                    op: Operator::Add,
                    lhs: Value::Temp { block: 2, index: 0 },
                    rhs: Value::Const(1),
                },
                InstructionView::Store { slot: 0, value: Value::Temp { block: 2, index: 1 } },
                InstructionView::Load { slot: 1 },
                InstructionView::Binary {
                    op: Operator::Add,
                    lhs: Value::Temp { block: 2, index: 3 },
                    rhs: Value::Const(1),
                },
                InstructionView::Store { slot: 1, value: Value::Temp { block: 2, index: 4 } },
                InstructionView::Branch { target: 1 },
            ],
        },
        BlockView {
            kind: BlockKind::AfterLoop,
            instructions: seq![
                InstructionView::Load { slot: 0 },
                InstructionView::Return { value: Value::Temp { block: 3, index: 0 } },
            ],
        },
    ]
}

/// The storage has a place for each slot and each instruction of the
/// counting loop.
pub open spec fn fits_counting(frame: FrameView) -> bool {
    &&& frame.slots.len() == 2
    &&& frame.values.len() == 4
    &&& frame.values[0].len() == 3
    &&& frame.values[1].len() == 4
    &&& frame.values[2].len() == 7
    &&& frame.values[3].len() == 2
}

/// A run that stands at the head of the condition block after `turns` turns
/// of the body, with both slots at `turns`, goes through the body block for
/// each turn that is left, and then returns the bound: eleven instructions
/// for each turn and six at the end. With less fuel it runs out of fuel.
pub proof fn lemma_counting_turns(
    module: Seq<LoweredFunctionView>,
    f: int,
    frame: FrameView,
    k: i64,
    turns: i64,
    fuel: nat,
)
    requires
        0 <= f < module.len(),
        module[f].blocks == counting_blocks(k),
        fits_counting(frame),
        frame.slots[0] == Some(turns),
        frame.slots[1] == Some(turns),
        0 <= turns <= k,
    ensures
        execute(module, f, frame, Seq::empty(), 1, 0, fuel) == (if fuel >= 11 * (k - turns) + 6 {
            Outcome::Returned(k)
        } else {
            Outcome::OutOfFuel
        }),
    decreases k - turns,
{
    let args = Seq::<i64>::empty();
    let blocks = module[f].blocks;
    let cond = blocks[1].instructions;
    let body = blocks[2].instructions;
    let after = blocks[3].instructions;
    let left = (turns - k) as i64;
    let test: i64 = if left != 0 {
        1
    } else {
        0
    };
    let f1 = frame.define(1, 0, turns);
    let f2 = f1.define(1, 1, left);
    let f3 = f2.define(1, 2, test);
    let e0 = execute(module, f, frame, args, 1, 0, fuel);
    let e1 = execute(module, f, f1, args, 1, 1, (fuel - 1) as nat);
    let e2 = execute(module, f, f2, args, 1, 2, (fuel - 2) as nat);
    let e3 = execute(module, f, f3, args, 1, 3, (fuel - 3) as nat);
    assert(cond[0] == InstructionView::Load { slot: 1 });
    assert(fuel == 0 ==> e0 == Outcome::OutOfFuel);
    assert(fuel > 0 ==> e0 == e1);
    assert(cond[1] == InstructionView::Binary {
        op: Operator::Sub,
        lhs: Value::Temp { block: 1, index: 0 },
        rhs: Value::Const(k),
    });
    assert(f1.eval(args, Value::Temp { block: 1, index: 0 }) == Some(turns));
    assert(fuel == 1 ==> e1 == Outcome::OutOfFuel);
    assert(fuel > 1 ==> e1 == e2);
    assert(cond[2] == InstructionView::IsNonZero { value: Value::Temp { block: 1, index: 1 } });
    assert(f2.eval(args, Value::Temp { block: 1, index: 1 }) == Some(left));
    assert(fuel == 2 ==> e2 == Outcome::OutOfFuel);
    assert(fuel > 2 ==> e2 == e3);
    assert(cond[3] == InstructionView::CondBranch {
        cond: Value::Temp { block: 1, index: 2 },
        then_block: 2,
        else_block: 3,
    });
    assert(f3.eval(args, Value::Temp { block: 1, index: 2 }) == Some(test));
    assert(f3.slots == frame.slots);
    assert(fuel == 3 ==> e3 == Outcome::OutOfFuel);
    if turns == k {
        let f4 = f3.define(3, 0, turns);
        let e4 = execute(module, f, f3, args, 3, 0, (fuel - 4) as nat);
        let e5 = execute(module, f, f4, args, 3, 1, (fuel - 5) as nat);
        assert(fuel > 3 ==> e3 == e4);
        assert(after[0] == InstructionView::Load { slot: 0 });
        assert(fuel == 4 ==> e4 == Outcome::OutOfFuel);
        assert(fuel > 4 ==> e4 == e5);
        assert(after[1] == InstructionView::Return { value: Value::Temp { block: 3, index: 0 } });
        assert(f4.eval(args, Value::Temp { block: 3, index: 0 }) == Some(turns));
        assert(fuel == 5 ==> e5 == Outcome::OutOfFuel);
        assert(fuel > 5 ==> e5 == Outcome::Returned(turns));
    } else {
        let next = (turns + 1) as i64;
        let g1 = f3.define(2, 0, turns);
        let g2 = g1.define(2, 1, next);
        let g3 = g2.store(0, next);
        let g4 = g3.define(2, 3, turns);
        let g5 = g4.define(2, 4, next);
        let g6 = g5.store(1, next);
        let e4 = execute(module, f, f3, args, 2, 0, (fuel - 4) as nat);
        let e5 = execute(module, f, g1, args, 2, 1, (fuel - 5) as nat);
        let e6 = execute(module, f, g2, args, 2, 2, (fuel - 6) as nat);
        let e7 = execute(module, f, g3, args, 2, 3, (fuel - 7) as nat);
        let e8 = execute(module, f, g4, args, 2, 4, (fuel - 8) as nat);
        let e9 = execute(module, f, g5, args, 2, 5, (fuel - 9) as nat);
        let e10 = execute(module, f, g6, args, 2, 6, (fuel - 10) as nat);
        let e11 = execute(module, f, g6, args, 1, 0, (fuel - 11) as nat);
        assert(fuel > 3 ==> e3 == e4);
        assert(body[0] == InstructionView::Load { slot: 0 });
        assert(fuel == 4 ==> e4 == Outcome::OutOfFuel);
        assert(fuel > 4 ==> e4 == e5);
        assert(body[1] == InstructionView::Binary {
            op: Operator::Add,
            lhs: Value::Temp { block: 2, index: 0 },
            rhs: Value::Const(1),
        });
        assert(g1.eval(args, Value::Temp { block: 2, index: 0 }) == Some(turns));
        assert(fuel == 5 ==> e5 == Outcome::OutOfFuel);
        assert(fuel > 5 ==> e5 == e6);
        assert(body[2] == InstructionView::Store {
            slot: 0,
            value: Value::Temp { block: 2, index: 1 },
        });
        assert(g2.eval(args, Value::Temp { block: 2, index: 1 }) == Some(next));
        assert(fuel == 6 ==> e6 == Outcome::OutOfFuel);
        assert(fuel > 6 ==> e6 == e7);
        assert(body[3] == InstructionView::Load { slot: 1 });
        assert(g3.slots[1] == Some(turns));
        assert(fuel == 7 ==> e7 == Outcome::OutOfFuel);
        assert(fuel > 7 ==> e7 == e8);
        assert(body[4] == InstructionView::Binary {
            op: Operator::Add,
            lhs: Value::Temp { block: 2, index: 3 },
            rhs: Value::Const(1),
        });
        assert(g4.eval(args, Value::Temp { block: 2, index: 3 }) == Some(turns));
        assert(fuel == 8 ==> e8 == Outcome::OutOfFuel);
        assert(fuel > 8 ==> e8 == e9);
        assert(body[5] == InstructionView::Store {
            slot: 1,
            value: Value::Temp { block: 2, index: 4 },
        });
        assert(g5.eval(args, Value::Temp { block: 2, index: 4 }) == Some(next));
        assert(fuel == 9 ==> e9 == Outcome::OutOfFuel);
        assert(fuel > 9 ==> e9 == e10);
        assert(body[6] == InstructionView::Branch { target: 1 });
        assert(fuel == 10 ==> e10 == Outcome::OutOfFuel);
        assert(fuel > 10 ==> e10 == e11);
        assert(g6.slots[0] == Some(next));
        assert(g6.slots[1] == Some(next));
        if fuel > 10 {
            lemma_counting_turns(module, f, g6, k, next, (fuel - 11) as nat);
        }
    }
}

/// A function without parameters whose blocks are those of the counting
/// loop, with two slots, returns the bound when it is run with fuel for the
/// entry into the function and the `11 * k + 9` instructions on its way:
/// it has gone through the body block once for each number below the bound.
/// With less fuel it runs out of fuel.
pub proof fn lemma_counting_runs(module: Seq<LoweredFunctionView>, f: int, k: i64, fuel: nat)
    requires
        0 <= f < module.len(),
        module[f].blocks == counting_blocks(k),
        module[f].params.len() == 0,
        module[f].slots.len() == 2,
        0 <= k,
    ensures
        run(module, f, Seq::empty(), fuel) == (if fuel >= 11 * k + 10 {
            Outcome::Returned(k)
        } else {
            Outcome::OutOfFuel
        }),
{
    let args = Seq::<i64>::empty();
    let entry = module[f].blocks[0].instructions;
    let f0 = FrameView::fresh(module[f]);
    let f1 = f0.store(0, 0);
    let f2 = f1.store(1, 0);
    let e0 = execute(module, f, f0, args, 0, 0, (fuel - 1) as nat);
    let e1 = execute(module, f, f1, args, 0, 1, (fuel - 2) as nat);
    let e2 = execute(module, f, f2, args, 0, 2, (fuel - 3) as nat);
    let e3 = execute(module, f, f2, args, 1, 0, (fuel - 4) as nat);
    assert(fits_counting(f0));
    assert(fuel == 0 ==> run(module, f, args, fuel) == Outcome::OutOfFuel);
    assert(fuel > 0 ==> run(module, f, args, fuel) == e0);
    assert(entry[0] == InstructionView::Store { slot: 0, value: Value::Const(0) });
    assert(fuel == 1 ==> e0 == Outcome::OutOfFuel);
    assert(fuel > 1 ==> e0 == e1);
    assert(entry[1] == InstructionView::Store { slot: 1, value: Value::Const(0) });
    assert(fuel == 2 ==> e1 == Outcome::OutOfFuel);
    assert(fuel > 2 ==> e1 == e2);
    assert(entry[2] == InstructionView::Branch { target: 1 });
    assert(fuel == 3 ==> e2 == Outcome::OutOfFuel);
    assert(fuel > 3 ==> e2 == e3);
    if fuel > 3 {
        lemma_counting_turns(module, f, f2, k, 0, (fuel - 4) as nat);
    }
}

/// `x + 1`.
pub open spec fn successor(x: Seq<char>) -> ExprView {
    ExprView::Binary(
        Operator::Add,
        Box::new(ExprView::Name(x)),
        Box::new(ExprView::IntLiteral(1)),
    )
}

/// The function
/// `name() { let runs = 0; for (let i = 0; i - k; 0) { runs = runs + 1; i = i + 1; } return runs; }`.
pub open spec fn counting_loop(name: Seq<char>, runs: Seq<char>, i: Seq<char>, k: i64) -> FunctionView {
    FunctionView {
        name,
        args: Seq::empty(),
        body: seq![
            StmtView::Let(runs, ExprView::IntLiteral(0)),
            StmtView::For(
                Box::new(StmtView::Let(i, ExprView::IntLiteral(0))),
                ExprView::Binary(
                    Operator::Sub,
                    Box::new(ExprView::Name(i)),
                    Box::new(ExprView::IntLiteral(k)),
                ),
                ExprView::IntLiteral(0),
                seq![StmtView::Assign(runs, successor(runs)), StmtView::Assign(i, successor(i))],
            ),
            StmtView::Return(ExprView::Name(runs)),
        ],
    }
}

/// A context that builds, behind the functions of `module`, a function
/// without parameters that has the slots and the blocks.
pub open spec fn building_at(
    module: Seq<LoweredFunctionView>,
    name: Seq<char>,
    slots: Seq<Seq<char>>,
    variables: Map<Seq<char>, usize>,
    blocks: Seq<BlockView>,
    cursor: usize,
) -> CompilerView {
    CompilerView {
        module: module.push(LoweredFunctionView { name, params: Seq::empty(), slots, blocks }),
        variables,
        function: Some(module.len() as usize),
        cursor,
    }
}

/// The blocks with the instruction appended to the block at `cursor`.
pub open spec fn grown(blocks: Seq<BlockView>, cursor: usize, instruction: InstructionView) -> Seq<
    BlockView,
> {
    blocks.update(
        cursor as int,
        BlockView {
            kind: blocks[cursor as int].kind,
            instructions: blocks[cursor as int].instructions.push(instruction),
        },
    )
}

/// What the steps of lowering do to such a context.
proof fn lemma_building_steps(
    module: Seq<LoweredFunctionView>,
    name: Seq<char>,
    slots: Seq<Seq<char>>,
    variables: Map<Seq<char>, usize>,
    blocks: Seq<BlockView>,
    cursor: usize,
)
    requires
        module.len() <= usize::MAX,
    ensures
        ({
            let c = building_at(module, name, slots, variables, blocks, cursor);
            &&& c.building()
            &&& c.block_count() == blocks.len()
            &&& c.current().blocks == blocks
            &&& c.current().slots == slots
            &&& c.variables == variables
            &&& cursor < blocks.len() ==> c.positioned() && c.block() == blocks[cursor as int]
            &&& forall|instruction: InstructionView|
                cursor < blocks.len() ==> #[trigger] c.emit(instruction) == building_at(
                    module,
                    name,
                    slots,
                    variables,
                    grown(blocks, cursor, instruction),
                    cursor,
                )
            &&& forall|kind: BlockKind| #[trigger]
                c.append_block(kind) == building_at(
                    module,
                    name,
                    slots,
                    variables,
                    blocks.push(BlockView { kind, instructions: Seq::empty() }),
                    cursor,
                )
            &&& forall|next: usize| #[trigger]
                c.set_cursor(next) == building_at(module, name, slots, variables, blocks, next)
            &&& forall|x: Seq<char>| #[trigger]
                c.bind(x) == building_at(
                    module,
                    name,
                    slots.push(x),
                    variables.insert(x, slots.len() as usize),
                    blocks,
                    cursor,
                )
        }),
{
    reveal(CompilerView::emit);
    reveal(CompilerView::append_block);
    reveal(CompilerView::set_cursor);
    reveal(CompilerView::bind);
    reveal(CompilerView::alloca);
    reveal(CompilerView::with_current);
    let c = building_at(module, name, slots, variables, blocks, cursor);
    assert forall|instruction: InstructionView| cursor < blocks.len() implies #[trigger] c.emit(
        instruction,
    ) == building_at(module, name, slots, variables, grown(blocks, cursor, instruction), cursor) by {
        assert(c.emit(instruction).module =~= building_at(
            module,
            name,
            slots,
            variables,
            grown(blocks, cursor, instruction),
            cursor,
        ).module);
    }
    assert forall|kind: BlockKind| #[trigger]
        c.append_block(kind) == building_at(
            module,
            name,
            slots,
            variables,
            blocks.push(BlockView { kind, instructions: Seq::empty() }),
            cursor,
        ) by {
        assert(c.append_block(kind).module =~= building_at(
            module,
            name,
            slots,
            variables,
            blocks.push(BlockView { kind, instructions: Seq::empty() }),
            cursor,
        ).module);
    }
    assert forall|x: Seq<char>| #[trigger]
        c.bind(x) == building_at(
            module,
            name,
            slots.push(x),
            variables.insert(x, slots.len() as usize),
            blocks,
            cursor,
        ) by {
        assert(c.bind(x).module =~= building_at(
            module,
            name,
            slots.push(x),
            variables.insert(x, slots.len() as usize),
            blocks,
            cursor,
        ).module);
    }
}

/// Lowering `x = x + 1` where `x` is bound: a load of its slot, the
/// addition, and the store to its slot.
proof fn lemma_lower_increment(
    module: Seq<LoweredFunctionView>,
    name: Seq<char>,
    slots: Seq<Seq<char>>,
    variables: Map<Seq<char>, usize>,
    blocks: Seq<BlockView>,
    cursor: usize,
    x: Seq<char>,
)
    requires
        module.len() <= usize::MAX,
        cursor < blocks.len(),
        variables.contains_key(x),
        blocks[cursor as int].instructions.len() + 2 <= usize::MAX,
    ensures
        ({
            let n = blocks[cursor as int].instructions.len();
            let load = InstructionView::Load { slot: variables[x] };
            let add = InstructionView::Binary {
                op: Operator::Add,
                lhs: Value::Temp { block: cursor, index: n as usize },
                rhs: Value::Const(1),
            };
            let store = InstructionView::Store {
                slot: variables[x],
                value: Value::Temp { block: cursor, index: (n + 1) as usize },
            };
            lower_stmt(
                building_at(module, name, slots, variables, blocks, cursor),
                StmtView::Assign(x, successor(x)),
            ) == (
                building_at(
                    module,
                    name,
                    slots,
                    variables,
                    grown(grown(grown(blocks, cursor, load), cursor, add), cursor, store),
                    cursor,
                ),
                Ok::<(), CompileError>(()),
            )
        }),
{
    let n = blocks[cursor as int].instructions.len();
    let load = InstructionView::Load { slot: variables[x] };
    let add = InstructionView::Binary {
        op: Operator::Add,
        lhs: Value::Temp { block: cursor, index: n as usize },
        rhs: Value::Const(1),
    };
    let store = InstructionView::Store {
        slot: variables[x],
        value: Value::Temp { block: cursor, index: (n + 1) as usize },
    };
    let c = building_at(module, name, slots, variables, blocks, cursor);
    lemma_building_steps(module, name, slots, variables, blocks, cursor);
    let c1 = c.emit(load);
    assert(lower_expr(c, ExprView::Name(x)) == (c1, Ok::<Value, CompileError>(c.next_value())));
    let b1 = grown(blocks, cursor, load);
    lemma_building_steps(module, name, slots, variables, b1, cursor);
    assert(lower_expr(c1, ExprView::IntLiteral(1)) == (
        c1,
        Ok::<Value, CompileError>(Value::Const(1)),
    ));
    let c2 = c1.emit(add);
    assert(lower_expr(c, successor(x)) == (c2, Ok::<Value, CompileError>(c1.next_value())));
    let b2 = grown(b1, cursor, add);
    lemma_building_steps(module, name, slots, variables, b2, cursor);
}

/// The blocks of the counting loop while they are built: of each block the
/// first instructions, as many as the number says. The entry block stands
/// alone until the loop is opened.
pub open spec fn partial(k: i64, opened: bool, e: int, c: int, b: int, a: int) -> Seq<BlockView> {
    let whole = counting_blocks(k);
    let entry = BlockView { kind: BlockKind::Entry, instructions: whole[0].instructions.take(e) };
    if opened {
        seq![
            entry,
            BlockView {
                kind: BlockKind::LoopCondition,
                instructions: whole[1].instructions.take(c),
            },
            BlockView { kind: BlockKind::LoopBody, instructions: whole[2].instructions.take(b) },
            BlockView { kind: BlockKind::AfterLoop, instructions: whole[3].instructions.take(a) },
        ]
    } else {
        seq![entry]
    }
}

/// The next instruction of a block, appended to the block.
proof fn lemma_partial_grows(k: i64, opened: bool, e: int, c: int, b: int, a: int)
    requires
        0 <= e <= 3,
        0 <= c <= 4,
        0 <= b <= 7,
        0 <= a <= 2,
    ensures
        e < 3 ==> grown(partial(k, opened, e, c, b, a), 0, counting_blocks(k)[0].instructions[e])
            == partial(k, opened, e + 1, c, b, a),
        opened && c < 4 ==> grown(
            partial(k, opened, e, c, b, a),
            1,
            counting_blocks(k)[1].instructions[c],
        ) == partial(k, opened, e, c + 1, b, a),
        opened && b < 7 ==> grown(
            partial(k, opened, e, c, b, a),
            2,
            counting_blocks(k)[2].instructions[b],
        ) == partial(k, opened, e, c, b + 1, a),
        opened && a < 2 ==> grown(
            partial(k, opened, e, c, b, a),
            3,
            counting_blocks(k)[3].instructions[a],
        ) == partial(k, opened, e, c, b, a + 1),
        partial(k, opened, e, c, b, a).len() == (if opened {
            4int
        } else {
            1int
        }),
        partial(k, opened, e, c, b, a)[0].instructions.len() == e,
        opened ==> partial(k, opened, e, c, b, a)[1].instructions.len() == c,
        opened ==> partial(k, opened, e, c, b, a)[2].instructions.len() == b,
        opened ==> partial(k, opened, e, c, b, a)[3].instructions.len() == a,
        partial(k, false, e, 0, 0, 0).push(
            BlockView { kind: BlockKind::LoopCondition, instructions: Seq::empty() },
        ).push(BlockView { kind: BlockKind::LoopBody, instructions: Seq::empty() }).push(
            BlockView { kind: BlockKind::AfterLoop, instructions: Seq::empty() },
        ) == partial(k, true, e, 0, 0, 0),
{
    let whole = counting_blocks(k);
    let now = partial(k, opened, e, c, b, a);
    if e < 3 {
        assert(whole[0].instructions.take(e).push(whole[0].instructions[e])
            =~= whole[0].instructions.take(e + 1));
        assert(grown(now, 0, whole[0].instructions[e]) =~= partial(k, opened, e + 1, c, b, a));
    }
    if opened && c < 4 {
        assert(whole[1].instructions.take(c).push(whole[1].instructions[c])
            =~= whole[1].instructions.take(c + 1));
        assert(grown(now, 1, whole[1].instructions[c]) =~= partial(k, opened, e, c + 1, b, a));
    }
    if opened && b < 7 {
        assert(whole[2].instructions.take(b).push(whole[2].instructions[b])
            =~= whole[2].instructions.take(b + 1));
        assert(grown(now, 2, whole[2].instructions[b]) =~= partial(k, opened, e, c, b + 1, a));
    }
    if opened && a < 2 {
        assert(whole[3].instructions.take(a).push(whole[3].instructions[a])
            =~= whole[3].instructions.take(a + 1));
        assert(grown(now, 3, whole[3].instructions[a]) =~= partial(k, opened, e, c, b, a + 1));
    }
    assert(whole[1].instructions.take(0) =~= Seq::<InstructionView>::empty());
    assert(whole[2].instructions.take(0) =~= Seq::<InstructionView>::empty());
    assert(whole[3].instructions.take(0) =~= Seq::<InstructionView>::empty());
    assert(partial(k, false, e, 0, 0, 0).push(
        BlockView { kind: BlockKind::LoopCondition, instructions: Seq::empty() },
    ).push(BlockView { kind: BlockKind::LoopBody, instructions: Seq::empty() }).push(
        BlockView { kind: BlockKind::AfterLoop, instructions: Seq::empty() },
    ) =~= partial(k, true, e, 0, 0, 0));
}

/// The slots of the counting loop: the number of turns, then the counter.
pub open spec fn counting_slots(runs: Seq<char>, i: Seq<char>) -> Map<Seq<char>, usize> {
    Map::<Seq<char>, usize>::empty().insert(runs, 0).insert(i, 1)
}

/// `let runs = 0` and `let i = 0`, lowered into the entry block.
proof fn lemma_counting_lets(
    module: Seq<LoweredFunctionView>,
    name: Seq<char>,
    runs: Seq<char>,
    i: Seq<char>,
    k: i64,
)
    requires
        module.len() <= usize::MAX,
    ensures
        ({
            let none = Seq::<Seq<char>>::empty();
            let nothing = Map::<Seq<char>, usize>::empty();
            let zero = ExprView::IntLiteral(0);
            let start = building_at(module, name, none, nothing, partial(k, false, 0, 0, 0, 0), 0);
            let c1 = building_at(
                module,
                name,
                seq![runs],
                nothing.insert(runs, 0),
                partial(k, false, 1, 0, 0, 0),
                0,
            );
            let c2 = building_at(
                module,
                name,
                seq![runs, i],
                counting_slots(runs, i),
                partial(k, false, 2, 0, 0, 0),
                0,
            );
            &&& lower_stmt(start, StmtView::Let(runs, zero)) == (c1, Ok::<(), CompileError>(()))
            &&& lower_stmt(c1, StmtView::Let(i, zero)) == (c2, Ok::<(), CompileError>(()))
        }),
{
    let none = Seq::<Seq<char>>::empty();
    let nothing = Map::<Seq<char>, usize>::empty();
    let zero = ExprView::IntLiteral(0);
    let b0 = partial(k, false, 0, 0, 0, 0);
    let b1 = partial(k, false, 1, 0, 0, 0);
    let start = building_at(module, name, none, nothing, b0, 0);
    lemma_partial_grows(k, false, 0, 0, 0, 0);
    lemma_partial_grows(k, false, 1, 0, 0, 0);
    lemma_building_steps(module, name, none, nothing, b0, 0);
    let s1 = seq![runs];
    let v1 = nothing.insert(runs, 0);
    assert(none.push(runs) =~= s1);
    lemma_building_steps(module, name, s1, v1, b0, 0);
    let c1 = building_at(module, name, s1, v1, b1, 0);
    assert(lower_expr(start, zero) == (start, Ok::<Value, CompileError>(Value::Const(0))));
    assert(lower_stmt(start, StmtView::Let(runs, zero)) == (c1, Ok::<(), CompileError>(())));
    lemma_building_steps(module, name, s1, v1, b1, 0);
    let s2 = seq![runs, i];
    let v2 = counting_slots(runs, i);
    assert(s1.push(i) =~= s2);
    lemma_building_steps(module, name, s2, v2, b1, 0);
    assert(lower_expr(c1, zero) == (c1, Ok::<Value, CompileError>(Value::Const(0))));
}

/// The loop is opened, and its condition `i - k` is lowered and tested.
proof fn lemma_counting_condition(
    module: Seq<LoweredFunctionView>,
    name: Seq<char>,
    runs: Seq<char>,
    i: Seq<char>,
    k: i64,
)
    requires
        module.len() <= usize::MAX,
    ensures
        ({
            let slots = seq![runs, i];
            let v = counting_slots(runs, i);
            let c2 = building_at(module, name, slots, v, partial(k, false, 2, 0, 0, 0), 0);
            let c3 = building_at(module, name, slots, v, partial(k, true, 3, 0, 0, 0), 1);
            let c5 = building_at(module, name, slots, v, partial(k, true, 3, 2, 0, 0), 1);
            let c6 = building_at(module, name, slots, v, partial(k, true, 3, 4, 0, 0), 2);
            let cond = ExprView::Binary(
                Operator::Sub,
                Box::new(ExprView::Name(i)),
                Box::new(ExprView::IntLiteral(k)),
            );
            &&& c2.block_count() == 1
            &&& open_loop(c2) == c3
            &&& lower_expr(c3, cond) == (
                c5,
                Ok::<Value, CompileError>(Value::Temp { block: 1, index: 1 }),
            )
            &&& test_loop(c5, Value::Temp { block: 1, index: 1 }) == c6
        }),
{
    let slots = seq![runs, i];
    let v = counting_slots(runs, i);
    let c2 = building_at(module, name, slots, v, partial(k, false, 2, 0, 0, 0), 0);
    lemma_partial_grows(k, false, 2, 0, 0, 0);
    lemma_partial_grows(k, true, 2, 0, 0, 0);
    lemma_partial_grows(k, true, 3, 0, 0, 0);
    lemma_partial_grows(k, true, 3, 1, 0, 0);
    lemma_partial_grows(k, true, 3, 2, 0, 0);
    lemma_partial_grows(k, true, 3, 3, 0, 0);
    lemma_partial_grows(k, true, 3, 4, 0, 0);
    let b2 = partial(k, false, 2, 0, 0, 0);
    lemma_building_steps(module, name, slots, v, b2, 0);
    let b3 = b2.push(BlockView { kind: BlockKind::LoopCondition, instructions: Seq::empty() });
    lemma_building_steps(module, name, slots, v, b3, 0);
    let b4 = b3.push(BlockView { kind: BlockKind::LoopBody, instructions: Seq::empty() });
    lemma_building_steps(module, name, slots, v, b4, 0);
    lemma_building_steps(module, name, slots, v, partial(k, true, 2, 0, 0, 0), 0);
    lemma_building_steps(module, name, slots, v, partial(k, true, 3, 0, 0, 0), 0);
    let c3 = building_at(module, name, slots, v, partial(k, true, 3, 0, 0, 0), 1);
    assert(open_loop(c2) == c3);
    lemma_building_steps(module, name, slots, v, partial(k, true, 3, 0, 0, 0), 1);
    let c4 = building_at(module, name, slots, v, partial(k, true, 3, 1, 0, 0), 1);
    assert(lower_expr(c3, ExprView::Name(i)) == (
        c4,
        Ok::<Value, CompileError>(Value::Temp { block: 1, index: 0 }),
    ));
    lemma_building_steps(module, name, slots, v, partial(k, true, 3, 1, 0, 0), 1);
    assert(lower_expr(c4, ExprView::IntLiteral(k)) == (
        c4,
        Ok::<Value, CompileError>(Value::Const(k)),
    ));
    lemma_building_steps(module, name, slots, v, partial(k, true, 3, 2, 0, 0), 1);
    lemma_building_steps(module, name, slots, v, partial(k, true, 3, 3, 0, 0), 1);
    lemma_building_steps(module, name, slots, v, partial(k, true, 3, 4, 0, 0), 1);
}

/// The body `runs = runs + 1; i = i + 1` is lowered into the body block,
/// and the body block branches back to the condition block.
proof fn lemma_counting_body(
    module: Seq<LoweredFunctionView>,
    name: Seq<char>,
    runs: Seq<char>,
    i: Seq<char>,
    k: i64,
)
    requires
        module.len() <= usize::MAX,
        runs != i,
    ensures
        ({
            let slots = seq![runs, i];
            let v = counting_slots(runs, i);
            let c6 = building_at(module, name, slots, v, partial(k, true, 3, 4, 0, 0), 2);
            let c8 = building_at(module, name, slots, v, partial(k, true, 3, 4, 6, 0), 2);
            let c9 = building_at(module, name, slots, v, partial(k, true, 3, 4, 7, 0), 3);
            let body = seq![StmtView::Assign(runs, successor(runs)), StmtView::Assign(i, successor(i))];
            &&& lower_stmts(c6, body) == (c8, Ok::<(), CompileError>(()))
            &&& lower_expr(c8, ExprView::IntLiteral(0)) == (
                c8,
                Ok::<Value, CompileError>(Value::Const(0)),
            )
            &&& jump(c8, 1, 3) == c9
        }),
{
    let slots = seq![runs, i];
    let v = counting_slots(runs, i);
    let c6 = building_at(module, name, slots, v, partial(k, true, 3, 4, 0, 0), 2);
    let c7 = building_at(module, name, slots, v, partial(k, true, 3, 4, 3, 0), 2);
    let c8 = building_at(module, name, slots, v, partial(k, true, 3, 4, 6, 0), 2);
    let body = seq![StmtView::Assign(runs, successor(runs)), StmtView::Assign(i, successor(i))];
    lemma_partial_grows(k, true, 3, 4, 0, 0);
    lemma_partial_grows(k, true, 3, 4, 1, 0);
    lemma_partial_grows(k, true, 3, 4, 2, 0);
    lemma_partial_grows(k, true, 3, 4, 3, 0);
    lemma_partial_grows(k, true, 3, 4, 4, 0);
    lemma_partial_grows(k, true, 3, 4, 5, 0);
    lemma_partial_grows(k, true, 3, 4, 6, 0);
    lemma_partial_grows(k, true, 3, 4, 7, 0);
    lemma_lower_increment(module, name, slots, v, partial(k, true, 3, 4, 0, 0), 2, runs);
    assert(lower_stmt(c6, body[0]) == (c7, Ok::<(), CompileError>(())));
    lemma_lower_increment(module, name, slots, v, partial(k, true, 3, 4, 3, 0), 2, i);
    assert(lower_stmt(c7, body[1]) == (c8, Ok::<(), CompileError>(())));
    assert(body.drop_last() =~= seq![body[0]]);
    assert(body.drop_last().drop_last() =~= Seq::<StmtView>::empty());
    assert(lower_stmts(c6, body.drop_last().drop_last()) == (c6, Ok::<(), CompileError>(())));
    assert(lower_stmts(c6, body.drop_last()) == (c7, Ok::<(), CompileError>(())));
    lemma_building_steps(module, name, slots, v, partial(k, true, 3, 4, 6, 0), 2);
    lemma_building_steps(module, name, slots, v, partial(k, true, 3, 4, 7, 0), 2);
}

/// `return runs`, lowered into the block after the loop.
proof fn lemma_counting_return(
    module: Seq<LoweredFunctionView>,
    name: Seq<char>,
    runs: Seq<char>,
    i: Seq<char>,
    k: i64,
)
    requires
        module.len() <= usize::MAX,
        runs != i,
    ensures
        ({
            let slots = seq![runs, i];
            let v = counting_slots(runs, i);
            let c9 = building_at(module, name, slots, v, partial(k, true, 3, 4, 7, 0), 3);
            let c11 = building_at(module, name, slots, v, counting_blocks(k), 3);
            lower_stmt(c9, StmtView::Return(ExprView::Name(runs))) == (
                c11,
                Ok::<(), CompileError>(()),
            )
        }),
{
    let slots = seq![runs, i];
    let v = counting_slots(runs, i);
    let c9 = building_at(module, name, slots, v, partial(k, true, 3, 4, 7, 0), 3);
    let c10 = building_at(module, name, slots, v, partial(k, true, 3, 4, 7, 1), 3);
    lemma_partial_grows(k, true, 3, 4, 7, 0);
    lemma_partial_grows(k, true, 3, 4, 7, 1);
    lemma_building_steps(module, name, slots, v, partial(k, true, 3, 4, 7, 0), 3);
    assert(lower_expr(c9, ExprView::Name(runs)) == (
        c10,
        Ok::<Value, CompileError>(Value::Temp { block: 3, index: 0 }),
    ));
    lemma_building_steps(module, name, slots, v, partial(k, true, 3, 4, 7, 1), 3);
    let whole = counting_blocks(k);
    assert(whole[0].instructions.take(3) =~= whole[0].instructions);
    assert(whole[1].instructions.take(4) =~= whole[1].instructions);
    assert(whole[2].instructions.take(7) =~= whole[2].instructions);
    assert(whole[3].instructions.take(2) =~= whole[3].instructions);
    assert(partial(k, true, 3, 4, 7, 2) =~= whole);
}

/// Lowering the body of the counting loop gives its four blocks and two
/// slots, and leaves the cursor in the block after the loop.
pub proof fn lemma_counting_lowered(
    module: Seq<LoweredFunctionView>,
    name: Seq<char>,
    runs: Seq<char>,
    i: Seq<char>,
    k: i64,
)
    requires
        module.len() <= usize::MAX,
        runs != i,
    ensures
        lower_stmts(
            begin_function(module, counting_loop(name, runs, i, k)),
            counting_loop(name, runs, i, k).body,
        ) == (
            building_at(module, name, seq![runs, i], counting_slots(runs, i), counting_blocks(k), 3),
            Ok::<(), CompileError>(()),
        ),
{
    let f = counting_loop(name, runs, i, k);
    let none = Seq::<Seq<char>>::empty();
    let nothing = Map::<Seq<char>, usize>::empty();
    let zero = ExprView::IntLiteral(0);
    let slots = seq![runs, i];
    let v = counting_slots(runs, i);
    let start = begin_function(module, f);
    lemma_begin_function(module, f);
    let b0 = partial(k, false, 0, 0, 0, 0);
    assert(crate::laws::param_stores(none) =~= Seq::<InstructionView>::empty());
    assert(counting_blocks(k)[0].instructions.take(0) =~= Seq::<InstructionView>::empty());
    assert(b0 =~= seq![BlockView { kind: BlockKind::Entry, instructions: Seq::empty() }]);
    assert(start.module =~= building_at(module, name, none, nothing, b0, 0).module);
    assert(start == building_at(module, name, none, nothing, b0, 0));
    lemma_counting_lets(module, name, runs, i, k);
    lemma_counting_condition(module, name, runs, i, k);
    lemma_counting_body(module, name, runs, i, k);
    lemma_counting_return(module, name, runs, i, k);
    let c1 = building_at(
        module,
        name,
        seq![runs],
        nothing.insert(runs, 0),
        partial(k, false, 1, 0, 0, 0),
        0,
    );
    let c9 = building_at(module, name, slots, v, partial(k, true, 3, 4, 7, 0), 3);
    let c11 = building_at(module, name, slots, v, counting_blocks(k), 3);
    let init = StmtView::Let(i, zero);
    let cond = ExprView::Binary(
        Operator::Sub,
        Box::new(ExprView::Name(i)),
        Box::new(ExprView::IntLiteral(k)),
    );
    let body = seq![StmtView::Assign(runs, successor(runs)), StmtView::Assign(i, successor(i))];
    assert(f.body[1] == StmtView::For(Box::new(init), cond, zero, body));
    assert(lower_stmt(c1, f.body[1]) == (c9, Ok::<(), CompileError>(())));
    let first = f.body.drop_last().drop_last();
    assert(first =~= seq![f.body[0]]);
    assert(first.drop_last() =~= Seq::<StmtView>::empty());
    assert(lower_stmts(start, first.drop_last()) == (start, Ok::<(), CompileError>(())));
    assert(lower_stmts(start, first) == (c1, Ok::<(), CompileError>(())));
    assert(f.body.drop_last().last() == f.body[1]);
    assert(lower_stmts(start, f.body.drop_last()) == (c9, Ok::<(), CompileError>(())));
    assert(lower_stmts(start, f.body) == (c11, Ok::<(), CompileError>(())));
}

/// A loop that counts from zero up to `k` runs its body `k` times. The
/// function compiles, into the four blocks of the counting loop. Run to its
/// end it returns the number of turns of its body, and that number is `k`;
/// with `k` zero the body is never entered. The run takes eleven
/// instructions for each turn, four for the test and seven for the body,
/// and ten steps around them: with that much fuel it ends, with less it
/// does not.
pub proof fn law_counting_loop_runs(
    c: CompilerView,
    name: Seq<char>,
    runs: Seq<char>,
    i: Seq<char>,
    k: i64,
    fuel: nat,
)
    requires
        c.finished().len() <= usize::MAX,
        runs != i,
        0 <= k,
    ensures
        lower_function(c, counting_loop(name, runs, i, k)) == (
            CompilerView::idle(
                c.finished().push(
                    LoweredFunctionView {
                        name,
                        params: Seq::empty(),
                        slots: seq![runs, i],
                        blocks: counting_blocks(k),
                    },
                ),
            ),
            Ok::<usize, CompileError>(c.finished().len() as usize),
        ),
        run(
            lower_function(c, counting_loop(name, runs, i, k)).0.module,
            c.finished().len() as int,
            Seq::empty(),
            fuel,
        ) == (if fuel >= 11 * k + 10 {
            Outcome::Returned(k)
        } else {
            Outcome::OutOfFuel
        }),
{
    let f = counting_loop(name, runs, i, k);
    let module = c.finished();
    lemma_counting_lowered(module, name, runs, i, k);
    let built = building_at(
        module,
        name,
        seq![runs, i],
        counting_slots(runs, i),
        counting_blocks(k),
        3,
    );
    lemma_building_steps(module, name, seq![runs, i], counting_slots(runs, i), counting_blocks(k), 3);
    assert(all_straight(f.body.drop_last())) by {
        let zero = ExprView::IntLiteral(0);
        let body = seq![StmtView::Assign(runs, successor(runs)), StmtView::Assign(i, successor(i))];
        let front = f.body.drop_last();
        assert(front.last() == f.body[1]);
        assert(front.drop_last() =~= seq![f.body[0]]);
        assert(front.drop_last().drop_last() =~= Seq::<StmtView>::empty());
        assert(all_straight(front.drop_last().drop_last()));
        assert(straight(f.body[0]));
        assert(all_straight(front.drop_last()));
        assert(body.drop_last() =~= seq![body[0]]);
        assert(body.drop_last().drop_last() =~= Seq::<StmtView>::empty());
        assert(all_straight(body.drop_last().drop_last()));
        assert(body.drop_last().last() == body[0]);
        assert(straight(body[0]));
        assert(all_straight(body.drop_last()));
        assert(body.last() == body[1]);
        assert(straight(body[1]));
        assert(all_straight(body));
        assert(straight(StmtView::Let(i, zero)));
        assert(straight(f.body[1]));
    }
    law_single_return_verifies(c, f);
    lemma_counting_runs(built.module, module.len() as int, k, fuel);
}

} // verus!
