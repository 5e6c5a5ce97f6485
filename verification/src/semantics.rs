//! What a lowered function computes: the reference meaning of the
//! instructions, as a function from a module, a function of it and its
//! arguments to an outcome, and an interpreter that computes that function.
//!
//! Addition, subtraction and multiplication wrap around. Division truncates,
//! and traps on a zero divisor and on the one quotient that does not fit.
//! Reading a slot that nothing was stored to traps, as does every use of what
//! does not exist. Each instruction costs one unit of fuel, and so does each
//! entry into a function.

use vstd::prelude::*;
use crate::internal_representations::gast::Operator;
use crate::ir::{Instruction, InstructionView, IrModule, LoweredFunction, LoweredFunctionView, Value};

verus! {

/// How a run of a function ends.
#[derive(Debug, Clone, Copy, PartialEq, Eq, Structural)]
pub enum Outcome {
    /// The function returned the value.
    Returned(i64),
    /// The run did something that has no meaning.
    Trapped,
    /// The fuel ran out before the function returned.
    OutOfFuel,
}

/// The storage of one run of a function: the content of each stack slot, and
/// the value that each instruction defined, block by block. A flag is held
/// as one or zero.
pub struct Frame {
    pub slots: Vec<Option<i64>>,
    pub values: Vec<Vec<Option<i64>>>,
}

/// The storage of a run, as a mathematical value.
pub struct FrameView {
    pub slots: Seq<Option<i64>>,
    pub values: Seq<Seq<Option<i64>>>,
}

impl View for Frame {
    type V = FrameView;

    open spec fn view(&self) -> FrameView {
        FrameView {
            slots: self.slots@,
            values: Seq::new(self.values@.len(), |b: int| self.values@[b]@),
        }
    }
}

impl FrameView {
    /// The storage at the entry of the function: nothing is stored, nothing
    /// is defined.
    pub open spec fn fresh(f: LoweredFunctionView) -> FrameView {
        FrameView {
            slots: Seq::new(f.slots.len(), |s: int| None),
            values: Seq::new(
                f.blocks.len(),
                |b: int| Seq::new(f.blocks[b].instructions.len(), |i: int| None),
            ),
        }
    }

    /// The storage fits the function: one place for each slot and for each
    /// instruction.
    pub open spec fn fits(self, f: LoweredFunctionView) -> bool {
        &&& self.slots.len() == f.slots.len()
        &&& self.values.len() == f.blocks.len()
        &&& forall|b: int|
            0 <= b < f.blocks.len() ==> (#[trigger] self.values[b]).len()
                == f.blocks[b].instructions.len()
    }

    /// The storage with the value of the instruction at the place defined.
    pub open spec fn define(self, block: int, index: int, value: i64) -> FrameView {
        FrameView {
            values: self.values.update(block, self.values[block].update(index, Some(value))),
            ..self
        }
    }

    /// The storage with the value stored to the slot.
    pub open spec fn store(self, slot: int, value: i64) -> FrameView {
        FrameView { slots: self.slots.update(slot, Some(value)), ..self }
    }

    /// The value of an operand, where it has one.
    pub open spec fn eval(self, args: Seq<i64>, value: Value) -> Option<i64> {
        match value {
            Value::Const(n) => Some(n),
            Value::Param(p) => if p < args.len() {
                Some(args[p as int])
            } else {
                None
            },
            Value::Temp { block, index } => if block < self.values.len() && index
                < self.values[block as int].len() {
                self.values[block as int][index as int]
            } else {
                None
            },
        }
    }

    /// The values of the first `n` operands, where each has one.
    pub open spec fn eval_all(self, args: Seq<i64>, values: Seq<Value>, n: int) -> Option<Seq<i64>>
        decreases n,
    {
        if n <= 0 {
            Some(Seq::empty())
        } else {
            match (self.eval_all(args, values, n - 1), self.eval(args, values[n - 1])) {
                (Some(before), Some(last)) => Some(before.push(last)),
                _ => None,
            }
        }
    }
}

/// The result of an arithmetic operation, where it has one.
pub open spec fn arith(op: Operator, a: i64, b: i64) -> Option<i64> {
    match op {
        Operator::Add => Some(a.wrapping_add(b)),
        Operator::Sub => Some(a.wrapping_sub(b)),
        Operator::Mul => Some(a.wrapping_mul(b)),
        Operator::Div => a.checked_div(b),
    }
}

/// One or zero.
pub open spec fn flag(value: i64) -> i64 {
    if value != 0 {
        1
    } else {
        0
    }
}

/// How the run of function `f` of the module goes on from the instruction
/// at `index` of block `block`.
pub open spec fn execute(
    module: Seq<LoweredFunctionView>,
    f: int,
    frame: FrameView,
    args: Seq<i64>,
    block: int,
    index: int,
    fuel: nat,
) -> Outcome
    decreases fuel, 0nat,
{
    let blocks = module[f].blocks;
    if fuel == 0 {
        Outcome::OutOfFuel
    } else if !(0 <= block < blocks.len() && 0 <= index < blocks[block].instructions.len()) {
        Outcome::Trapped
    } else {
        let rest = (fuel - 1) as nat;
        match blocks[block].instructions[index] {
            InstructionView::Load { slot } => match (if slot < frame.slots.len() {
                frame.slots[slot as int]
            } else {
                None
            }) {
                Some(v) => execute(module, f, frame.define(block, index, v), args, block, index + 1, rest),
                None => Outcome::Trapped,
            },
            InstructionView::Store { slot, value } => match frame.eval(args, value) {
                Some(v) if slot < frame.slots.len() => execute(
                    module,
                    f,
                    frame.store(slot as int, v),
                    args,
                    block,
                    index + 1,
                    rest,
                ),
                _ => Outcome::Trapped,
            },
            InstructionView::Binary { op, lhs, rhs } => match (
                frame.eval(args, lhs),
                frame.eval(args, rhs),
            ) {
                (Some(a), Some(b)) => match arith(op, a, b) {
                    Some(v) => execute(
                        module,
                        f,
                        frame.define(block, index, v),
                        args,
                        block,
                        index + 1,
                        rest,
                    ),
                    None => Outcome::Trapped,
                },
                _ => Outcome::Trapped,
            },
            InstructionView::IsNonZero { value } => match frame.eval(args, value) {
                Some(v) => execute(
                    module,
                    f,
                    frame.define(block, index, flag(v)),
                    args,
                    block,
                    index + 1,
                    rest,
                ),
                None => Outcome::Trapped,
            },
            InstructionView::Call { callee, args: passed } => match frame.eval_all(
                args,
                passed,
                passed.len() as int,
            ) {
                Some(values) => match run(module, callee as int, values, rest) {
                    Outcome::Returned(v) => execute(
                        module,
                        f,
                        frame.define(block, index, v),
                        args,
                        block,
                        index + 1,
                        rest,
                    ),
                    other => other,
                },
                None => Outcome::Trapped,
            },
            InstructionView::Return { value } => match frame.eval(args, value) {
                Some(v) => Outcome::Returned(v),
                None => Outcome::Trapped,
            },
            InstructionView::Branch { target } => execute(
                module,
                f,
                frame,
                args,
                target as int,
                0,
                rest,
            ),
            InstructionView::CondBranch { cond, then_block, else_block } => match frame.eval(
                args,
                cond,
            ) {
                Some(c) => execute(
                    module,
                    f,
                    frame,
                    args,
                    if c != 0 {
                        then_block as int
                    } else {
                        else_block as int
                    },
                    0,
                    rest,
                ),
                None => Outcome::Trapped,
            },
        }
    }
}

/// How the run of function `f` of the module on the arguments ends.
pub open spec fn run(module: Seq<LoweredFunctionView>, f: int, args: Seq<i64>, fuel: nat) -> Outcome
    decreases fuel, 1nat,
{
    if fuel == 0 {
        Outcome::OutOfFuel
    } else if !(0 <= f < module.len()) || args.len() != module[f].params.len() {
        Outcome::Trapped
    } else {
        execute(module, f, FrameView::fresh(module[f]), args, 0, 0, (fuel - 1) as nat)
    }
}

impl Frame {
    /// The storage at the entry of the function.
    pub fn new(f: &LoweredFunction) -> (r: Self)
        ensures
            r@ == FrameView::fresh(f@),
    {
        let mut slots: Vec<Option<i64>> = Vec::new();
        let mut s: usize = 0;
        while s < f.slots.len()
            invariant
                s <= f.slots.len(),
                slots.len() == s,
                forall|k: int| 0 <= k < s ==> slots[k] is None,
            decreases f.slots.len() - s,
        {
            slots.push(None);
            s += 1;
        }
        let mut values: Vec<Vec<Option<i64>>> = Vec::new();
        let mut b: usize = 0;
        while b < f.blocks.len()
            invariant
                b <= f.blocks.len(),
                values.len() == b,
                forall|k: int|
                    0 <= k < b ==> (#[trigger] values[k]).len() == f.blocks[k].instructions.len()
                        && forall|i: int| 0 <= i < values[k].len() ==> values[k][i] is None,
            decreases f.blocks.len() - b,
        {
            let mut row: Vec<Option<i64>> = Vec::new();
            let mut i: usize = 0;
            while i < f.blocks[b].instructions.len()
                invariant
                    b < f.blocks.len(),
                    i <= f.blocks[b as int].instructions.len(),
                    row.len() == i,
                    forall|k: int| 0 <= k < i ==> row[k] is None,
                decreases f.blocks[b as int].instructions.len() - i,
            {
                row.push(None);
                i += 1;
            }
            values.push(row);
            b += 1;
        }
        let r = Frame { slots, values };
        proof {
            let fresh = FrameView::fresh(f@);
            assert(r@.slots =~= fresh.slots);
            assert forall|k: int| 0 <= k < f.blocks.len() implies r@.values[k] == fresh.values[k] by {
                assert(r.values[k]@ =~= fresh.values[k]);
            }
            assert(r@.values =~= fresh.values);
        }
        r
    }

    /// The value of an operand, where it has one.
    pub fn eval(&self, args: &Vec<i64>, value: Value) -> (r: Option<i64>)
        ensures
            r == self@.eval(args@, value),
    {
        match value {
            Value::Const(n) => Some(n),
            Value::Param(p) => if p < args.len() {
                Some(args[p])
            } else {
                None
            },
            Value::Temp { block, index } => if block < self.values.len() && index
                < self.values[block].len() {
                self.values[block][index]
            } else {
                None
            },
        }
    }

    /// The values of the operands, where each has one.
    pub fn eval_all(&self, args: &Vec<i64>, values: &Vec<Value>) -> (r: Option<Vec<i64>>)
        ensures
            match r {
                Some(found) => self@.eval_all(args@, values@, values@.len() as int) == Some(found@),
                None => self@.eval_all(args@, values@, values@.len() as int) is None,
            },
    {
        let mut found: Vec<i64> = Vec::new();
        let mut k: usize = 0;
        while k < values.len()
            invariant
                k <= values.len(),
                self@.eval_all(args@, values@, k as int) == Some(found@),
            decreases values.len() - k,
        {
            match self.eval(args, values[k]) {
                Some(v) => {
                    found.push(v);
                },
                None => {
                    proof {
                        lemma_eval_all_stops(self@, args@, values@, k + 1, values.len() as int);
                    }
                    return None;
                },
            }
            k += 1;
        }
        Some(found)
    }

    /// Defines the value of the instruction at the place.
    fn define(&mut self, block: usize, index: usize, value: i64)
        requires
            block < old(self).values.len(),
            index < old(self).values[block as int].len(),
        ensures
            final(self)@ == old(self)@.define(block as int, index as int, value),
    {
        self.values[block].set(index, Some(value));
        proof {
            let expected = old(self)@.define(block as int, index as int, value);
            assert forall|k: int| 0 <= k < self.values.len() implies self@.values[k]
                == expected.values[k] by {
                if k != block {
                    assert(self.values[k] == old(self).values[k]);
                }
            }
            assert(self@.values =~= expected.values);
        }
    }
}

/// The result of an arithmetic operation, where it has one.
pub fn compute(op: Operator, a: i64, b: i64) -> (r: Option<i64>)
    ensures
        r == arith(op, a, b),
{
    match op {
        Operator::Add => Some(a.wrapping_add(b)),
        Operator::Sub => Some(a.wrapping_sub(b)),
        Operator::Mul => Some(a.wrapping_mul(b)),
        Operator::Div => a.checked_div(b),
    }
}

/// Runs function `f` of the module on the arguments, with the fuel.
pub fn interpret(module: &IrModule, f: usize, args: &Vec<i64>, fuel: usize) -> (r: Outcome)
    ensures
        r == run(module@, f as int, args@, fuel as nat),
    decreases fuel,
{
    if fuel == 0 {
        return Outcome::OutOfFuel;
    }
    if f >= module.functions.len() {
        return Outcome::Trapped;
    }
    let function = &module.functions[f];
    assert(module@[f as int] == function@);
    if args.len() != function.params.len() {
        return Outcome::Trapped;
    }
    let mut frame = Frame::new(function);
    let mut block: usize = 0;
    let mut index: usize = 0;
    let mut left = fuel - 1;
    let ghost goal = run(module@, f as int, args@, fuel as nat);
    loop
        invariant
            f < module.functions.len(),
            function == module.functions[f as int],
            module@[f as int] == function@,
            left < fuel,
            goal == run(module@, f as int, args@, fuel as nat),
            frame@.fits(function@),
            goal == execute(
                module@,
                f as int,
                frame@,
                args@,
                block as int,
                index as int,
                left as nat,
            ),
        decreases left,
    {
        if left == 0 {
            return Outcome::OutOfFuel;
        }
        if block >= function.blocks.len() || index >= function.blocks[block].instructions.len() {
            return Outcome::Trapped;
        }
        let instruction = &function.blocks[block].instructions[index];
        assert(function@.blocks[block as int].instructions[index as int] == instruction@);
        assert(frame@.values[block as int].len() == function@.blocks[block as int].instructions.len());
        left = left - 1;
        match instruction {
            Instruction::Load { slot } => {
                let loaded = if *slot < frame.slots.len() {
                    frame.slots[*slot]
                } else {
                    None
                };
                match loaded {
                    Some(v) => {
                        frame.define(block, index, v);
                        index = index + 1;
                    },
                    None => {
                        return Outcome::Trapped;
                    },
                }
            },
            Instruction::Store { slot, value } => {
                match frame.eval(args, *value) {
                    Some(v) => {
                        if *slot < frame.slots.len() {
                            frame.slots.set(*slot, Some(v));
                            index = index + 1;
                        } else {
                            return Outcome::Trapped;
                        }
                    },
                    None => {
                        return Outcome::Trapped;
                    },
                }
            },
            Instruction::Binary { op, lhs, rhs } => {
                let a = frame.eval(args, *lhs);
                let b = frame.eval(args, *rhs);
                match (a, b) {
                    (Some(a), Some(b)) => match compute(*op, a, b) {
                        Some(v) => {
                            frame.define(block, index, v);
                            index = index + 1;
                        },
                        None => {
                            return Outcome::Trapped;
                        },
                    },
                    _ => {
                        return Outcome::Trapped;
                    },
                }
            },
            Instruction::IsNonZero { value } => {
                match frame.eval(args, *value) {
                    Some(v) => {
                        frame.define(
                            block,
                            index,
                            if v != 0 {
                                1
                            } else {
                                0
                            },
                        );
                        index = index + 1;
                    },
                    None => {
                        return Outcome::Trapped;
                    },
                }
            },
            Instruction::Call { callee, args: passed } => {
                let values = match frame.eval_all(args, passed) {
                    Some(values) => values,
                    None => {
                        return Outcome::Trapped;
                    },
                };
                match interpret(module, *callee, &values, left) {
                    Outcome::Returned(v) => {
                        frame.define(block, index, v);
                        index = index + 1;
                    },
                    other => {
                        return other;
                    },
                }
            },
            Instruction::Return { value } => {
                return match frame.eval(args, *value) {
                    Some(v) => Outcome::Returned(v),
                    None => Outcome::Trapped,
                };
            },
            Instruction::Branch { target } => {
                block = *target;
                index = 0;
            },
            Instruction::CondBranch { cond, then_block, else_block } => {
                match frame.eval(args, *cond) {
                    Some(c) => {
                        block = if c != 0 {
                            *then_block
                        } else {
                            *else_block
                        };
                        index = 0;
                    },
                    None => {
                        return Outcome::Trapped;
                    },
                }
            },
        }
    }
}

/// Once one of the first `n` operands has no value, the operands have no
/// values.
proof fn lemma_eval_all_stops(frame: FrameView, args: Seq<i64>, values: Seq<Value>, n: int, m: int)
    requires
        0 <= n <= m,
        frame.eval_all(args, values, n) is None,
    ensures
        frame.eval_all(args, values, m) is None,
    decreases m - n,
{
    if n < m {
        lemma_eval_all_stops(frame, args, values, n, m - 1);
    }
}

} // verus!
