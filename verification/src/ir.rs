//! The control-flow intermediate representation that lowering produces: a
//! module of functions, each a list of stack slots and a list of basic blocks.
//!
//! Blocks, slots and functions are named by their index. A value is a
//! constant, an incoming parameter, or the result of an earlier instruction,
//! named by the block that holds the instruction and its place in that block.

use vstd::prelude::*;
use crate::internal_representations::gast::{Name, Operator, names_view};

verus! {

/// A scalar operand: 64-bit signed.
#[derive(Debug, Clone, Copy, PartialEq, Eq, Structural)]
pub enum Value {
    /// The constant with exactly this value.
    Const(i64),
    /// The incoming parameter at this position.
    Param(usize),
    /// The result of the instruction at `index` of block `block`.
    Temp { block: usize, index: usize },
}

/// One instruction. `Return`, `Branch` and `CondBranch` are the terminators.
#[derive(Debug, PartialEq)]
pub enum Instruction {
    /// Reads the stack slot.
    Load { slot: usize },
    /// Writes the value to the stack slot.
    Store { slot: usize, value: Value },
    /// Signed arithmetic on two operands; division truncates.
    Binary { op: Operator, lhs: Value, rhs: Value },
    /// The boolean "`value` differs from zero".
    IsNonZero { value: Value },
    /// Calls the function of the module at index `callee`.
    Call { callee: usize, args: Vec<Value> },
    /// Leaves the function with the value.
    Return { value: Value },
    /// Goes on in block `target`.
    Branch { target: usize },
    /// Goes on in `then_block` where `cond` is true, and in `else_block` where not.
    CondBranch { cond: Value, then_block: usize, else_block: usize },
}

/// What an instruction is, as a mathematical value.
pub enum InstructionView {
    Load { slot: usize },
    Store { slot: usize, value: Value },
    Binary { op: Operator, lhs: Value, rhs: Value },
    IsNonZero { value: Value },
    Call { callee: usize, args: Seq<Value> },
    Return { value: Value },
    Branch { target: usize },
    CondBranch { cond: Value, then_block: usize, else_block: usize },
}

impl View for Instruction {
    type V = InstructionView;

    open spec fn view(&self) -> InstructionView {
        match self {
            Instruction::Load { slot } => InstructionView::Load { slot: *slot },
            Instruction::Store { slot, value } => InstructionView::Store {
                slot: *slot,
                value: *value,
            },
            Instruction::Binary { op, lhs, rhs } => InstructionView::Binary {
                op: *op,
                lhs: *lhs,
                rhs: *rhs,
            },
            Instruction::IsNonZero { value } => InstructionView::IsNonZero { value: *value },
            Instruction::Call { callee, args } => InstructionView::Call {
                callee: *callee,
                args: args@,
            },
            Instruction::Return { value } => InstructionView::Return { value: *value },
            Instruction::Branch { target } => InstructionView::Branch { target: *target },
            Instruction::CondBranch { cond, then_block, else_block } => InstructionView::CondBranch {
                cond: *cond,
                then_block: *then_block,
                else_block: *else_block,
            },
        }
    }
}

impl InstructionView {
    /// Whether the instruction transfers control and so ends a block.
    pub open spec fn is_terminator(self) -> bool {
        self is Return || self is Branch || self is CondBranch
    }

    /// Whether the instruction may transfer control to block `block`.
    pub open spec fn branches_to(self, block: int) -> bool {
        match self {
            InstructionView::Branch { target } => target == block,
            InstructionView::CondBranch { cond, then_block, else_block } => then_block == block
                || else_block == block,
            _ => false,
        }
    }
}

impl Instruction {
    /// Whether the instruction transfers control and so ends a block.
    pub fn is_terminator(&self) -> (r: bool)
        ensures
            r == self@.is_terminator(),
    {
        match self {
            Instruction::Return { .. } => true,
            Instruction::Branch { .. } => true,
            Instruction::CondBranch { .. } => true,
            _ => false,
        }
    }
}

/// What a block was made for.
#[derive(Debug, Clone, Copy, PartialEq, Eq, Structural)]
pub enum BlockKind {
    Entry,
    Then,
    Else,
    Merge,
    LoopCondition,
    LoopBody,
    AfterLoop,
}

/// A straight line of instructions. A finished block ends in its one
/// terminator; a block under construction may hold none yet.
#[derive(Debug, PartialEq)]
pub struct Block {
    pub kind: BlockKind,
    pub instructions: Vec<Instruction>,
}

/// What a block is, as a mathematical value.
pub struct BlockView {
    pub kind: BlockKind,
    pub instructions: Seq<InstructionView>,
}

/// The views of a sequence of instructions, in order.
pub open spec fn instructions_view(instructions: Seq<Instruction>) -> Seq<InstructionView> {
    Seq::new(instructions.len(), |i: int| instructions[i]@)
}

impl View for Block {
    type V = BlockView;

    open spec fn view(&self) -> BlockView {
        BlockView { kind: self.kind, instructions: instructions_view(self.instructions@) }
    }
}

impl BlockView {
    /// The block holds exactly one terminator, and it is its last instruction.
    pub open spec fn well_terminated(self) -> bool {
        &&& self.instructions.len() > 0
        &&& self.instructions.last().is_terminator()
        &&& forall|i: int|
            0 <= i < self.instructions.len() - 1 ==> !(#[trigger] self.instructions[i]).is_terminator()
    }

    /// Whether control may pass to block `block` when it leaves this block:
    /// whether the last instruction branches there.
    pub open spec fn leads_to(self, block: int) -> bool {
        self.instructions.len() > 0 && self.instructions.last().branches_to(block)
    }
}

/// The views of a sequence of blocks, in order.
pub open spec fn blocks_view(blocks: Seq<Block>) -> Seq<BlockView> {
    Seq::new(blocks.len(), |i: int| blocks[i]@)
}

/// A walk through the graph that starts at the entry block and follows one
/// successor edge at each step.
pub open spec fn is_path(blocks: Seq<BlockView>, path: Seq<int>) -> bool {
    &&& path.len() > 0
    &&& path[0] == 0
    &&& forall|i: int| 0 <= i < path.len() ==> 0 <= #[trigger] path[i] < blocks.len()
    &&& forall|i: int|
        0 <= i < path.len() - 1 ==> blocks[#[trigger] path[i]].leads_to(path[i + 1])
}

/// Control can get from the entry block to block `block`.
pub open spec fn reachable(blocks: Seq<BlockView>, block: int) -> bool {
    exists|path: Seq<int>| is_path(blocks, path) && path.last() == block
}

/// A function of the module. One with no blocks is only declared.
#[derive(Debug, PartialEq)]
pub struct LoweredFunction {
    pub name: Name,
    /// The parameters' names; the arity is their number.
    pub params: Vec<Name>,
    /// The stack slots, each with the name it was allocated for. All of them
    /// exist from function entry on.
    pub slots: Vec<Name>,
    /// The basic blocks; the first is the entry block.
    pub blocks: Vec<Block>,
}

/// What a function of the module is, as a mathematical value.
pub struct LoweredFunctionView {
    pub name: Seq<char>,
    pub params: Seq<Seq<char>>,
    pub slots: Seq<Seq<char>>,
    pub blocks: Seq<BlockView>,
}

impl View for LoweredFunction {
    type V = LoweredFunctionView;

    open spec fn view(&self) -> LoweredFunctionView {
        LoweredFunctionView {
            name: self.name@,
            params: names_view(self.params@),
            slots: names_view(self.slots@),
            blocks: blocks_view(self.blocks@),
        }
    }
}

impl LoweredFunctionView {
    /// What structural verification asks of a function body: there is an
    /// entry block, every block ends in exactly one terminator, and every
    /// block that a terminator refers to exists and can be reached from the
    /// entry block.
    pub open spec fn structurally_valid(self) -> bool {
        &&& self.blocks.len() > 0
        &&& forall|b: int| 0 <= b < self.blocks.len() ==> (#[trigger] self.blocks[b]).well_terminated()
        &&& forall|b: int, t: int|
            0 <= b < self.blocks.len() && (#[trigger] self.blocks[b].leads_to(t)) ==> 0 <= t
                < self.blocks.len() && reachable(self.blocks, t)
    }
}

/// The entry block can be reached.
pub proof fn lemma_entry_reachable(blocks: Seq<BlockView>)
    requires
        blocks.len() > 0,
    ensures
        reachable(blocks, 0),
{
    let path = seq![0int];
    assert(is_path(blocks, path) && path.last() == 0);
}

/// A block that a reachable block leads to can be reached.
pub proof fn lemma_reachable_step(blocks: Seq<BlockView>, from: int, to: int)
    requires
        reachable(blocks, from),
        blocks[from].leads_to(to),
        0 <= to < blocks.len(),
    ensures
        reachable(blocks, to),
{
    let path = choose|path: Seq<int>| is_path(blocks, path) && path.last() == from;
    let longer = path.push(to);
    assert forall|i: int| 0 <= i < longer.len() - 1 implies blocks[#[trigger] longer[i]].leads_to(
        longer[i + 1],
    ) by {
        if i < path.len() - 1 {
            assert(longer[i] == path[i]);
            assert(longer[i + 1] == path[i + 1]);
        }
    }
    assert(is_path(blocks, longer) && longer.last() == to);
}

/// A set of blocks that holds the entry block and every block that one of
/// its members leads to holds every block of every path.
proof fn lemma_closed_holds_paths(blocks: Seq<BlockView>, marks: Seq<bool>, path: Seq<int>, i: int)
    requires
        marks.len() == blocks.len(),
        marks_closed(blocks, marks),
        blocks.len() > 0,
        marks[0],
        is_path(blocks, path),
        0 <= i < path.len(),
    ensures
        marks[path[i]],
    decreases i,
{
    if i > 0 {
        lemma_closed_holds_paths(blocks, marks, path, i - 1);
        assert(blocks[path[i - 1]].leads_to(path[i - 1 + 1]));
    }
}

/// Every marked block has all the blocks it leads to marked.
pub open spec fn marks_closed(blocks: Seq<BlockView>, marks: Seq<bool>) -> bool {
    forall|b: int, t: int|
        0 <= b < blocks.len() && marks[b] && (#[trigger] blocks[b].leads_to(t)) ==> 0 <= t
            < blocks.len() && marks[t]
}

/// How many blocks are not marked.
pub open spec fn unmarked(marks: Seq<bool>) -> nat
    decreases marks.len(),
{
    if marks.len() == 0 {
        0
    } else {
        unmarked(marks.drop_last()) + if marks.last() {
            0nat
        } else {
            1nat
        }
    }
}

/// Marking one more block leaves one block fewer unmarked.
proof fn lemma_mark_one(marks: Seq<bool>, i: int)
    requires
        0 <= i < marks.len(),
        !marks[i],
    ensures
        unmarked(marks.update(i, true)) + 1 == unmarked(marks),
    decreases marks.len(),
{
    let after = marks.update(i, true);
    if i == marks.len() - 1 {
        assert(after.drop_last() =~= marks.drop_last());
    } else {
        lemma_mark_one(marks.drop_last(), i);
        assert(after.drop_last() =~= marks.drop_last().update(i, true));
    }
}

impl Block {
    /// Whether the block ends in its one terminator and leads only to blocks
    /// below `count`.
    pub fn check_terminated(&self, count: usize) -> (ok: bool)
        ensures
            ok == (self@.well_terminated() && forall|t: int| #[trigger]
                self@.leads_to(t) ==> 0 <= t < count),
    {
        let len = self.instructions.len();
        if len == 0 {
            return false;
        }
        let last = &self.instructions[len - 1];
        assert(self@.instructions.last() == last@);
        let in_range = match last {
            Instruction::Return { .. } => true,
            Instruction::Branch { target } => *target < count,
            Instruction::CondBranch { then_block, else_block, .. } => *then_block < count
                && *else_block < count,
            _ => {
                return false;
            },
        };
        if !in_range {
            assert(!(forall|t: int| #[trigger] self@.leads_to(t) ==> 0 <= t < count)) by {
                match last {
                    Instruction::Branch { target } => {
                        assert(self@.leads_to(*target as int));
                    },
                    Instruction::CondBranch { then_block, else_block, .. } => {
                        assert(self@.leads_to(*then_block as int));
                        assert(self@.leads_to(*else_block as int));
                    },
                    _ => {},
                }
            }
            return false;
        }
        let mut i: usize = 0;
        while i < len - 1
            invariant
                len == self.instructions.len(),
                i <= len - 1,
                forall|j: int| 0 <= j < i ==> !(#[trigger] self@.instructions[j]).is_terminator(),
            decreases len - i,
        {
            if self.instructions[i].is_terminator() {
                assert(self@.instructions[i as int].is_terminator());
                return false;
            }
            i += 1;
        }
        true
    }
}

impl LoweredFunction {
    /// Marks the blocks that the marked block `block` leads to. Says whether a
    /// mark was added.
    fn mark_successors(&self, block: usize, marks: &mut Vec<bool>) -> (added: bool)
        requires
            block < self.blocks.len(),
            old(marks).len() == self.blocks.len(),
            old(marks)[block as int],
            forall|t: int| #[trigger] self@.blocks[block as int].leads_to(t) ==> 0 <= t < self.blocks.len(),
            forall|b: int| 0 <= b < old(marks).len() && old(marks)[b] ==> reachable(self@.blocks, b),
        ensures
            final(marks).len() == self.blocks.len(),
            forall|b: int| 0 <= b < final(marks).len() && final(marks)[b] ==> reachable(self@.blocks, b),
            forall|b: int| 0 <= b < old(marks).len() && old(marks)[b] ==> final(marks)[b],
            forall|t: int| #[trigger] self@.blocks[block as int].leads_to(t) ==> final(marks)[t],
            !added ==> final(marks)@ == old(marks)@,
            added ==> unmarked(final(marks)@) < unmarked(old(marks)@),
            unmarked(final(marks)@) <= unmarked(old(marks)@),
    {
        let instructions = &self.blocks[block].instructions;
        let len = instructions.len();
        if len == 0 {
            return false;
        }
        let last = &instructions[len - 1];
        assert(self@.blocks[block as int].instructions.last() == last@);
        let mut added = false;
        match last {
            Instruction::Branch { target } => {
                assert(self@.blocks[block as int].leads_to(*target as int));
                if !marks[*target] {
                    proof {
                        lemma_mark_one(marks@, *target as int);
                        lemma_reachable_step(self@.blocks, block as int, *target as int);
                    }
                    marks.set(*target, true);
                    added = true;
                }
            },
            Instruction::CondBranch { then_block, else_block, .. } => {
                assert(self@.blocks[block as int].leads_to(*then_block as int));
                assert(self@.blocks[block as int].leads_to(*else_block as int));
                if !marks[*then_block] {
                    proof {
                        lemma_mark_one(marks@, *then_block as int);
                        lemma_reachable_step(self@.blocks, block as int, *then_block as int);
                    }
                    marks.set(*then_block, true);
                    added = true;
                }
                if !marks[*else_block] {
                    proof {
                        lemma_mark_one(marks@, *else_block as int);
                        lemma_reachable_step(self@.blocks, block as int, *else_block as int);
                    }
                    marks.set(*else_block, true);
                    added = true;
                }
            },
            _ => {},
        }
        added
    }

    /// For each block, whether control can get to it from the entry block.
    pub fn reachable_blocks(&self) -> (marks: Vec<bool>)
        requires
            self.blocks.len() > 0,
            forall|b: int, t: int|
                0 <= b < self.blocks.len() && (#[trigger] self@.blocks[b].leads_to(t)) ==> 0 <= t
                    < self.blocks.len(),
        ensures
            marks.len() == self.blocks.len(),
            forall|b: int| 0 <= b < marks.len() ==> marks[b] == reachable(self@.blocks, b),
    {
        let n = self.blocks.len();
        let mut marks: Vec<bool> = Vec::new();
        let mut i: usize = 0;
        while i < n
            invariant
                i <= n,
                marks.len() == i,
                forall|b: int| 0 <= b < i ==> !marks[b],
            decreases n - i,
        {
            marks.push(false);
            i += 1;
        }
        marks.set(0, true);
        proof {
            lemma_entry_reachable(self@.blocks);
        }
        loop
            invariant_except_break
                n == self.blocks.len(),
                n > 0,
                marks.len() == n,
                marks[0],
                forall|b: int, t: int|
                    0 <= b < n && (#[trigger] self@.blocks[b].leads_to(t)) ==> 0 <= t < n,
                forall|b: int| 0 <= b < n && marks[b] ==> reachable(self@.blocks, b),
            ensures
                n == self.blocks.len(),
                n > 0,
                marks.len() == n,
                marks[0],
                forall|b: int| 0 <= b < n && marks[b] ==> reachable(self@.blocks, b),
                marks_closed(self@.blocks, marks@),
            decreases unmarked(marks@),
        {
            let ghost before = marks@;
            let mut changed = false;
            let mut b: usize = 0;
            while b < n
                invariant
                    n == self.blocks.len(),
                    b <= n,
                    marks.len() == n,
                    marks[0],
                    forall|b: int, t: int|
                        0 <= b < n && (#[trigger] self@.blocks[b].leads_to(t)) ==> 0 <= t < n,
                    forall|b: int| 0 <= b < n && marks[b] ==> reachable(self@.blocks, b),
                    unmarked(marks@) <= unmarked(before),
                    changed ==> unmarked(marks@) < unmarked(before),
                    !changed ==> marks@ == before,
                    !changed ==> forall|c: int, t: int|
                        0 <= c < b && marks[c] && (#[trigger] self@.blocks[c].leads_to(t)) ==> marks[t],
                decreases n - b,
            {
                if marks[b] {
                    let added = self.mark_successors(b, &mut marks);
                    if added {
                        changed = true;
                    }
                }
                b += 1;
            }
            if !changed {
                break;
            }
        }
        proof {
            assert forall|b: int| 0 <= b < marks.len() implies marks[b] == reachable(
                self@.blocks,
                b,
            ) by {
                if reachable(self@.blocks, b) {
                    let path = choose|path: Seq<int>| is_path(self@.blocks, path) && path.last() == b;
                    lemma_closed_holds_paths(self@.blocks, marks@, path, path.len() - 1);
                }
            }
        }
        marks
    }

    /// Structural verification: whether every block ends in exactly one
    /// terminator and every block that a terminator refers to exists and can
    /// be reached from the entry block.
    pub fn verify(&self) -> (ok: bool)
        ensures
            ok == self@.structurally_valid(),
    {
        let n = self.blocks.len();
        if n == 0 {
            return false;
        }
        let mut b: usize = 0;
        while b < n
            invariant
                n == self.blocks.len(),
                b <= n,
                forall|i: int| 0 <= i < b ==> (#[trigger] self@.blocks[i]).well_terminated(),
                forall|i: int, t: int|
                    0 <= i < b && (#[trigger] self@.blocks[i].leads_to(t)) ==> 0 <= t < n,
            decreases n - b,
        {
            if !self.blocks[b].check_terminated(n) {
                assert(self@.blocks[b as int] == self.blocks[b as int]@);
                return false;
            }
            assert(self@.blocks[b as int] == self.blocks[b as int]@);
            b += 1;
        }
        let marks = self.reachable_blocks();
        let mut b: usize = 0;
        while b < n
            invariant
                n == self.blocks.len(),
                b <= n,
                marks.len() == n,
                forall|i: int| 0 <= i < n ==> marks[i] == reachable(self@.blocks, i),
                forall|i: int| 0 <= i < n ==> (#[trigger] self@.blocks[i]).well_terminated(),
                forall|i: int, t: int|
                    0 <= i < n && (#[trigger] self@.blocks[i].leads_to(t)) ==> 0 <= t < n,
                forall|i: int, t: int|
                    0 <= i < b && (#[trigger] self@.blocks[i].leads_to(t)) ==> marks[t],
            decreases n - b,
        {
            if !marks[b] {
                // A block that cannot be reached must lead nowhere.
                let instructions = &self.blocks[b].instructions;
                assert(self@.blocks[b as int].well_terminated());
                let last = &instructions[instructions.len() - 1];
                assert(self@.blocks[b as int].instructions.last() == last@);
                match last {
                    Instruction::Branch { target } => {
                        assert(self@.blocks[b as int].leads_to(*target as int));
                        if !marks[*target] {
                            return false;
                        }
                    },
                    Instruction::CondBranch { then_block, else_block, .. } => {
                        assert(self@.blocks[b as int].leads_to(*then_block as int));
                        assert(self@.blocks[b as int].leads_to(*else_block as int));
                        if !marks[*then_block] || !marks[*else_block] {
                            return false;
                        }
                    },
                    _ => {},
                }
            } else {
                proof {
                    assert forall|t: int| #[trigger]
                        self@.blocks[b as int].leads_to(t) implies marks[t] by {
                        lemma_reachable_step(self@.blocks, b as int, t);
                    }
                }
            }
            b += 1;
        }
        true
    }
}

/// The functions that are known by name, in the order of their declaration.
#[derive(Debug, PartialEq)]
pub struct IrModule {
    pub functions: Vec<LoweredFunction>,
}

/// The views of a sequence of functions, in order.
pub open spec fn functions_view(functions: Seq<LoweredFunction>) -> Seq<LoweredFunctionView> {
    Seq::new(functions.len(), |i: int| functions[i]@)
}

impl View for IrModule {
    type V = Seq<LoweredFunctionView>;

    open spec fn view(&self) -> Seq<LoweredFunctionView> {
        functions_view(self.functions@)
    }
}

/// The least index at or after `start` of a function that has the name, or
/// the number of functions where there is none.
pub open spec fn first_named(functions: Seq<LoweredFunctionView>, name: Seq<char>, start: int) -> int
    decreases functions.len() - start,
{
    if start < 0 || start >= functions.len() {
        functions.len() as int
    } else if functions[start].name == name {
        start
    } else {
        first_named(functions, name, start + 1)
    }
}

/// The index of the first function that has the name.
pub open spec fn find_function(functions: Seq<LoweredFunctionView>, name: Seq<char>) -> Option<
    usize,
> {
    let index = first_named(functions, name, 0);
    if index < functions.len() {
        Some(index as usize)
    } else {
        None
    }
}

/// `first_named` gives the least index with the name.
pub proof fn lemma_first_named(functions: Seq<LoweredFunctionView>, name: Seq<char>, start: int)
    requires
        0 <= start <= functions.len(),
    ensures
        start <= first_named(functions, name, start) <= functions.len(),
        first_named(functions, name, start) < functions.len() ==> functions[first_named(
            functions,
            name,
            start,
        )].name == name,
        forall|j: int| start <= j < first_named(functions, name, start) ==> functions[j].name != name,
    decreases functions.len() - start,
{
    if start < functions.len() && functions[start].name != name {
        lemma_first_named(functions, name, start + 1);
    }
}

/// A function added at the end is found only where no earlier one has the
/// name.
pub proof fn lemma_first_named_push(
    functions: Seq<LoweredFunctionView>,
    last: LoweredFunctionView,
    name: Seq<char>,
    start: int,
)
    requires
        0 <= start <= functions.len(),
    ensures
        first_named(functions.push(last), name, start) == if first_named(functions, name, start)
            < functions.len() {
            first_named(functions, name, start)
        } else if last.name == name {
            functions.len() as int
        } else {
            functions.len() as int + 1
        },
    decreases functions.len() - start,
{
    let longer = functions.push(last);
    if start < functions.len() {
        assert(longer[start] == functions[start]);
        if functions[start].name != name {
            lemma_first_named_push(functions, last, name, start + 1);
        }
    } else {
        if last.name != name {
            assert(first_named(longer, name, start + 1) == longer.len());
        }
    }
}

impl IrModule {
    /// The module without functions.
    pub fn new() -> (r: Self)
        ensures
            r@ == Seq::<LoweredFunctionView>::empty(),
    {
        let r = IrModule { functions: Vec::new() };
        assert(r@ =~= Seq::<LoweredFunctionView>::empty());
        r
    }

    /// Resolves a function name.
    pub fn get_function(&self, name: &Name) -> (r: Option<usize>)
        ensures
            r == find_function(self@, name@),
    {
        let mut i: usize = 0;
        while i < self.functions.len()
            invariant
                i <= self.functions.len(),
                first_named(self@, name@, 0) == first_named(self@, name@, i as int),
            decreases self.functions.len() - i,
        {
            if self.functions[i].name.name == name.name {
                return Some(i);
            }
            i += 1;
        }
        None
    }
}

} // verus!
