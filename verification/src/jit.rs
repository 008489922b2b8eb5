//! Which bodies the native tier may take: pure whole-number arithmetic,
//! locals, jumps, and calls to function constants that capture nothing.

use vstd::prelude::*;
use crate::bytecode::{op_text, Body, Op, Program};
use crate::text::digits;
use crate::value::Value;

verus! {

/// The body a constant names, when the constant is a function.
pub open spec fn function_target(program: Program, index: u32) -> Option<usize> {
    if (index as int) < program.constants@.len() {
        match program.constants@[index as int] {
            Value::Function(c) => Some(c.body as usize),
            _ => None,
        }
    } else {
        None
    }
}

/// Whether a constant is a function that captures nothing.
pub open spec fn constant_is_function(program: Program, index: u32) -> bool {
    (index as int) < program.constants@.len() && match program.constants@[index as int] {
        Value::Function(c) => c.captures@.len() == 0,
        _ => false,
    }
}

/// Whether the native tier knows an instruction.
pub open spec fn allowed_op(program: Program, op: Op) -> bool {
    match op {
        Op::Int(_) | Op::LoadLocal(_) | Op::StoreLocal(_) | Op::Add | Op::Subtract | Op::Multiply
        | Op::Negate | Op::Less | Op::LessOrEqual | Op::Greater | Op::GreaterOrEqual | Op::Equal
        | Op::NotEqual | Op::Jump(_) | Op::JumpIfFalse(_) | Op::JumpIfTrue(_) | Op::Return | Op::Pop
        | Op::Nothing => true,
        Op::Call(arity) => 1 <= arity <= 8,
        Op::Constant(index) => constant_is_function(program, index),
        _ => false,
    }
}

/// Whether a body may be compiled to native code: it captures nothing,
/// names no function constant at all (neither itself nor another body),
/// and uses only instructions the native tier knows.
pub open spec fn spec_eligible(program: Program, body: Body, body_id: usize) -> bool {
    &&& body.captures@.len() == 0
    &&& forall|k: int| 0 <= k < body.code@.len() ==> !(#[trigger] body.code@[k] matches Op::Constant(index)
            && function_target(program, index) is Some)
    &&& forall|k: int| 0 <= k < body.code@.len() ==> allowed_op(program, #[trigger] body.code@[k])
}

fn target_of(program: &Program, index: u32) -> (r: Option<usize>)
    ensures
        r == function_target(*program, index),
{
    if (index as usize) < program.constants.len() {
        match &program.constants[index as usize] {
            Value::Function(c) => Some(c.body as usize),
            _ => None,
        }
    } else {
        None
    }
}

fn allowed(program: &Program, op: Op) -> (r: bool)
    ensures
        r == allowed_op(*program, op),
{
    match op {
        Op::Int(_) | Op::LoadLocal(_) | Op::StoreLocal(_) | Op::Add | Op::Subtract | Op::Multiply
        | Op::Negate | Op::Less | Op::LessOrEqual | Op::Greater | Op::GreaterOrEqual | Op::Equal
        | Op::NotEqual | Op::Jump(_) | Op::JumpIfFalse(_) | Op::JumpIfTrue(_) | Op::Return | Op::Pop
        | Op::Nothing => true,
        Op::Call(arity) => 1 <= arity && arity <= 8,
        Op::Constant(index) => {
            if (index as usize) < program.constants.len() {
                match &program.constants[index as usize] {
                    Value::Function(c) => c.captures.len() == 0,
                    _ => false,
                }
            } else {
                false
            }
        },
        _ => false,
    }
}

/// Whether a body is safe to compile to native code with the native tier.
pub fn is_eligible(program: &Program, body: &Body, body_id: usize) -> (r: bool)
    ensures
        r == spec_eligible(*program, *body, body_id),
{
    if body.captures.len() > 0 {
        return false;
    }
    let mut k: usize = 0;
    while k < body.code.len()
        invariant
            k <= body.code@.len(),
            forall|j: int| 0 <= j < k ==> !(#[trigger] body.code@[j] matches Op::Constant(index)
                && function_target(*program, index) is Some),
        decreases body.code.len() - k,
    {
        match body.code[k] {
            Op::Constant(index) => {
                if target_of(program, index).is_some() {
                    return false;
                }
            },
            _ => {},
        }
        k = k + 1;
    }
    let mut k: usize = 0;
    while k < body.code.len()
        invariant
            k <= body.code@.len(),
            forall|j: int| 0 <= j < k ==> allowed_op(*program, #[trigger] body.code@[j]),
        decreases body.code.len() - k,
    {
        if !allowed(program, body.code[k]) {
            return false;
        }
        k = k + 1;
    }
    true
}

} // verus!

verus! {

/// The body a constant names, when the constant is a function.
pub fn constant_function(program: &Program, index: u32) -> (r: Option<usize>)
    ensures
        r == function_target(*program, index),
{
    let i = index as usize;
    if i >= program.constants.len() {
        return None;
    }
    match &program.constants[i] {
        Value::Function(c) => Some(c.body as usize),
        _ => None,
    }
}

} // verus!

verus! {

/// Whole-number arithmetic a plan asks for.
#[derive(Clone, Copy, Debug)]
pub enum Arith {
    Add,
    Subtract,
    Multiply,
    Divide,
    Remainder,
}

/// A comparison a plan asks for; it yields 1 when it holds and 0 when not.
#[derive(Clone, Copy, Debug)]
pub enum Test {
    Less,
    LessOrEqual,
    Greater,
    GreaterOrEqual,
    Equal,
    NotEqual,
}

/// What stands on the stack while a block is planned: a number, known by
/// the step that made it, or a function that a call will enter.
#[derive(Clone, Copy, Debug)]
pub enum Slot {
    Value(usize),
    Callee(usize),
}

/// One step of a planned block. A step that yields a number is known by its
/// own position among the block's steps.
#[derive(Clone, Debug)]
pub enum Step {
    Number(i64),
    Load(u32),
    Store(u32, usize),
    Arith(Arith, usize, usize),
    Negate(usize),
    Test(Test, usize, usize),
    Call { target: usize, parameters: usize, args: Vec<usize> },
}

/// A step with its argument list as a sequence.
pub enum StepView {
    Number(i64),
    Load(u32),
    Store(u32, usize),
    Arith(Arith, usize, usize),
    Negate(usize),
    Test(Test, usize, usize),
    Call { target: usize, parameters: usize, args: Seq<usize> },
}

impl View for Step {
    type V = StepView;

    open spec fn view(&self) -> StepView {
        match self {
            Step::Number(n) => StepView::Number(*n),
            Step::Load(s) => StepView::Load(*s),
            Step::Store(s, v) => StepView::Store(*s, *v),
            Step::Arith(a, l, r) => StepView::Arith(*a, *l, *r),
            Step::Negate(v) => StepView::Negate(*v),
            Step::Test(t, l, r) => StepView::Test(*t, *l, *r),
            Step::Call { target, parameters, args } => StepView::Call {
                target: *target,
                parameters: *parameters,
                args: args@,
            },
        }
    }
}

/// How a planned block ends: it returns a number (zero where it names
/// none), jumps, or branches on whether a number is zero.
#[derive(Clone, Copy, Debug)]
pub enum Exit {
    Return(Option<usize>),
    Jump(usize),
    Branch { condition: usize, when_true: bool, taken: usize, fallthrough: usize },
}

/// The straight-line code that starts at one instruction.
#[derive(Clone, Debug)]
pub struct PlanBlock {
    pub start: usize,
    pub steps: Vec<Step>,
    pub exit: Exit,
}

pub struct BlockView {
    pub start: usize,
    pub steps: Seq<StepView>,
    pub exit: Exit,
}

impl View for PlanBlock {
    type V = BlockView;

    open spec fn view(&self) -> BlockView {
        BlockView { start: self.start, steps: self.steps@.map_values(|s: Step| s@), exit: self.exit }
    }
}

/// What the native tier is to build for one body: its shape and the blocks
/// that can be reached from its first instruction.
#[derive(Clone, Debug)]
pub struct NativePlan {
    pub body: usize,
    pub parameters: usize,
    pub slots: usize,
    pub blocks: Vec<PlanBlock>,
}

pub struct PlanView {
    pub body: usize,
    pub parameters: usize,
    pub slots: usize,
    pub blocks: Seq<BlockView>,
}

impl View for NativePlan {
    type V = PlanView;

    open spec fn view(&self) -> PlanView {
        PlanView {
            body: self.body,
            parameters: self.parameters,
            slots: self.slots,
            blocks: self.blocks@.map_values(|b: PlanBlock| b@),
        }
    }
}

/// How many parameters a called body takes; none when there is no such body.
pub open spec fn target_parameters(program: Program, target: usize) -> usize {
    if target < program.bodies@.len() { program.bodies@[target as int].parameters } else { 0 }
}

/// The number on top of the stack, or what is wrong with it.
pub open spec fn top_value(stack: Seq<Slot>, empty: Seq<char>, marker: Seq<char>) -> Result<usize, Seq<char>> {
    if stack.len() == 0 {
        Err(empty)
    } else {
        match stack.last() {
            Slot::Value(v) => Ok(v),
            Slot::Callee(_) => Err(marker),
        }
    }
}

/// The top `n` numbers of the stack, lowest first, or what is wrong with them.
pub open spec fn call_args(stack: Seq<Slot>, n: nat) -> Result<Seq<usize>, Seq<char>>
    decreases n,
{
    if n == 0 {
        Ok(Seq::empty())
    } else if stack.len() == 0 {
        Err("call with too few stack values"@)
    } else {
        match stack.last() {
            Slot::Callee(_) => Err("call argument was a callee marker"@),
            Slot::Value(v) => match call_args(stack.drop_last(), (n - 1) as nat) {
                Ok(rest) => Ok(rest.push(v)),
                Err(e) => Err(e),
            },
        }
    }
}

pub open spec fn arith_of(op: Op) -> Arith {
    match op {
        Op::Add => Arith::Add,
        Op::Subtract => Arith::Subtract,
        Op::Multiply => Arith::Multiply,
        Op::Divide => Arith::Divide,
        _ => Arith::Remainder,
    }
}

pub open spec fn test_of(op: Op) -> Test {
    match op {
        Op::Less => Test::Less,
        Op::LessOrEqual => Test::LessOrEqual,
        Op::Greater => Test::Greater,
        Op::GreaterOrEqual => Test::GreaterOrEqual,
        Op::Equal => Test::Equal,
        _ => Test::NotEqual,
    }
}

pub open spec fn is_arith(op: Op) -> bool {
    op is Add || op is Subtract || op is Multiply || op is Divide || op is Remainder
}

pub open spec fn is_test(op: Op) -> bool {
    op is Less || op is LessOrEqual || op is Greater || op is GreaterOrEqual || op is Equal || op is NotEqual
}

/// The rest of a block from instruction `i` on, given the stack and the
/// steps planned so far: the steps and the exit, or why it cannot be planned.
pub open spec fn plan_from(
    program: Program,
    body_id: usize,
    code: Seq<Op>,
    i: int,
    stack: Seq<Slot>,
    steps: Seq<StepView>,
) -> Result<(Seq<StepView>, Exit), Seq<char>>
    decreases code.len() - i,
{
    if i < 0 || i >= code.len() {
        Ok((steps, Exit::Return(None)))
    } else {
        let next = steps.len() as usize;
        let op = code[i];
        if is_arith(op) {
            match top_value(stack, "binary op with empty stack"@, "binary op with callee marker on stack"@) {
                Err(e) => Err(e),
                Ok(right) => match top_value(stack.drop_last(), "binary op with empty stack"@, "binary op with callee marker on stack"@) {
                    Err(e) => Err(e),
                    Ok(left) => plan_from(program, body_id, code, i + 1,
                        stack.drop_last().drop_last().push(Slot::Value(next)),
                        steps.push(StepView::Arith(arith_of(op), left, right))),
                },
            }
        } else if is_test(op) {
            match top_value(stack, "compare with empty stack"@, "compare with callee marker on stack"@) {
                Err(e) => Err(e),
                Ok(right) => match top_value(stack.drop_last(), "compare with empty stack"@, "compare with callee marker on stack"@) {
                    Err(e) => Err(e),
                    Ok(left) => plan_from(program, body_id, code, i + 1,
                        stack.drop_last().drop_last().push(Slot::Value(next)),
                        steps.push(StepView::Test(test_of(op), left, right))),
                },
            }
        } else {
            match op {
                Op::Int(n) => plan_from(program, body_id, code, i + 1,
                    stack.push(Slot::Value(next)), steps.push(StepView::Number(n))),
                Op::LoadLocal(s) => plan_from(program, body_id, code, i + 1,
                    stack.push(Slot::Value(next)), steps.push(StepView::Load(s))),
                Op::StoreLocal(s) => match top_value(stack, "store with empty stack"@, "store with callee marker on stack"@) {
                    Err(e) => Err(e),
                    Ok(v) => plan_from(program, body_id, code, i + 1, stack.drop_last(), steps.push(StepView::Store(s, v))),
                },
                Op::Negate => match top_value(stack, "negate with empty stack"@, "negate with callee marker on stack"@) {
                    Err(e) => Err(e),
                    Ok(v) => plan_from(program, body_id, code, i + 1,
                        stack.drop_last().push(Slot::Value(next)), steps.push(StepView::Negate(v))),
                },
                Op::Jump(t) => Ok((steps, Exit::Jump(t as usize))),
                Op::JumpIfFalse(t) => match top_value(stack, "jump with empty stack"@, "jump with callee marker on stack"@) {
                    Err(e) => Err(e),
                    Ok(c) => Ok((steps, Exit::Branch { condition: c, when_true: false, taken: t as usize, fallthrough: (i + 1) as usize })),
                },
                Op::JumpIfTrue(t) => match top_value(stack, "jump with empty stack"@, "jump with callee marker on stack"@) {
                    Err(e) => Err(e),
                    Ok(c) => Ok((steps, Exit::Branch { condition: c, when_true: true, taken: t as usize, fallthrough: (i + 1) as usize })),
                },
                Op::Return => Ok((steps, Exit::Return(
                    if stack.len() > 0 && stack.last() is Value { Some(stack.last()->Value_0) } else { None }))),
                Op::Pop => plan_from(program, body_id, code, i + 1,
                    if stack.len() > 0 { stack.drop_last() } else { stack }, steps),
                Op::Nothing => plan_from(program, body_id, code, i + 1, stack, steps),
                Op::Constant(k) => match function_target(program, k) {
                    Some(t) => plan_from(program, body_id, code, i + 1, stack.push(Slot::Callee(t)), steps),
                    None => plan_from(program, body_id, code, i + 1,
                        stack.push(Slot::Value(next)), steps.push(StepView::Number(0))),
                },
                Op::Call(arity) => match call_args(stack, arity as nat) {
                    Err(e) => Err(e),
                    Ok(args) => {
                        let rest = stack.subrange(0, stack.len() - arity);
                        if rest.len() == 0 {
                            Err("call with no callee"@)
                        } else {
                            let target = match rest.last() {
                                Slot::Callee(t) => t,
                                Slot::Value(_) => body_id,
                            };
                            plan_from(program, body_id, code, i + 1,
                                rest.drop_last().push(Slot::Value(next)),
                                steps.push(StepView::Call { target, parameters: target_parameters(program, target), args }))
                        }
                    },
                },
                _ => Err("unsupported op in tier-1 JIT: "@ + op_text(op)),
            }
        }
    }
}

/// The block that starts at instruction `pc` of a body, or why it cannot be planned.
pub open spec fn spec_block(program: Program, body_id: usize, pc: usize) -> Result<BlockView, Seq<char>> {
    match plan_from(program, body_id, program.bodies@[body_id as int].code@, pc as int, Seq::empty(), Seq::empty()) {
        Ok((steps, exit)) => Ok(BlockView { start: pc, steps, exit }),
        Err(e) => Err(e),
    }
}

/// Whether control can pass from a block's end to instruction `pc`.
pub open spec fn successor(exit: Exit, pc: usize) -> bool {
    match exit {
        Exit::Return(_) => false,
        Exit::Jump(t) => t == pc,
        Exit::Branch { taken, fallthrough, .. } => taken == pc || fallthrough == pc,
    }
}

/// Whether a sequence of instructions is a path of control through planned
/// blocks: it starts at the body's first instruction, and each block on it
/// can be planned and passes control to the next.
pub open spec fn is_path(program: Program, body_id: usize, path: Seq<usize>) -> bool {
    &&& path.len() > 0
    &&& path[0] == 0
    &&& forall|i: int| 0 <= i < path.len() - 1 ==> spec_block(program, body_id, #[trigger] path[i]) is Ok
        && successor(spec_block(program, body_id, path[i])->Ok_0.exit, path[i + 1])
}

/// Whether control reaches the block that starts at instruction `pc`.
pub open spec fn reachable(program: Program, body_id: usize, pc: usize) -> bool {
    exists|path: Seq<usize>| #[trigger] is_path(program, body_id, path) && path.last() == pc
}

/// Whether every block control can reach can be planned.
pub open spec fn plannable(program: Program, body_id: usize) -> bool {
    forall|pc: usize| #[trigger] reachable(program, body_id, pc) ==> spec_block(program, body_id, pc) is Ok
}

} // verus!

verus! {

pub open spec fn steps_view(steps: Seq<Step>) -> Seq<StepView> {
    steps.map_values(|s: Step| s@)
}

pub open spec fn blocks_view(blocks: Seq<PlanBlock>) -> Seq<BlockView> {
    blocks.map_values(|b: PlanBlock| b@)
}

fn push_step(steps: &mut Vec<Step>, step: Step)
    ensures
        steps_view(final(steps)@) == steps_view(old(steps)@).push(step@),
{
    steps.push(step);
    assert(steps_view(steps@) =~= steps_view(old(steps)@).push(step@));
}

fn take_value(stack: &mut Vec<Slot>, empty: &str, marker: &str) -> (r: Result<usize, String>)
    ensures
        match top_value(old(stack)@, empty@, marker@) {
            Ok(v) => r is Ok && r->Ok_0 == v && final(stack)@ == old(stack)@.drop_last(),
            Err(e) => r is Err && r->Err_0@ == e,
        },
{
    match stack.pop() {
        None => Err(String::from_str(empty)),
        Some(Slot::Value(v)) => Ok(v),
        Some(Slot::Callee(_)) => Err(String::from_str(marker)),
    }
}

fn take_args(stack: &mut Vec<Slot>, n: u32) -> (r: Result<Vec<usize>, String>)
    ensures
        match call_args(old(stack)@, n as nat) {
            Ok(a) => r is Ok && r->Ok_0@ == a && old(stack)@.len() >= n
                && final(stack)@ == old(stack)@.subrange(0, old(stack)@.len() - n),
            Err(e) => r is Err && r->Err_0@ == e,
        },
    decreases n,
{
    if n == 0 {
        assert(old(stack)@.subrange(0, old(stack)@.len() as int) =~= old(stack)@);
        return Ok(Vec::new());
    }
    match stack.pop() {
        None => Err(String::from_str("call with too few stack values")),
        Some(Slot::Callee(_)) => Err(String::from_str("call argument was a callee marker")),
        Some(Slot::Value(v)) => {
            let ghost after_pop = stack@;
            match take_args(stack, n - 1) {
                Ok(mut a) => {
                    a.push(v);
                    assert(stack@ =~= old(stack)@.subrange(0, old(stack)@.len() - n));
                    Ok(a)
                },
                Err(e) => Err(e),
            }
        },
    }
}

/// Plans the block that starts at instruction `start` of a body.
#[verifier::rlimit(100)]
fn plan_block(program: &Program, body_id: usize, code: &Vec<Op>, start: usize) -> (r: Result<PlanBlock, String>)
    requires
        body_id < program.bodies@.len(),
        code@ == program.bodies@[body_id as int].code@,
    ensures
        match spec_block(*program, body_id, start) {
            Ok(b) => r is Ok && r->Ok_0@ == b,
            Err(e) => r is Err && r->Err_0@ == e,
        },
{
    let mut stack: Vec<Slot> = Vec::new();
    let mut steps: Vec<Step> = Vec::new();
    let mut i: usize = start;
    assert(steps_view(steps@) =~= Seq::<StepView>::empty());
    loop
        invariant
            body_id < program.bodies@.len(),
            code@ == program.bodies@[body_id as int].code@,
            plan_from(*program, body_id, code@, start as int, Seq::empty(), Seq::empty())
                == plan_from(*program, body_id, code@, i as int, stack@, steps_view(steps@)),
        decreases code@.len() - i,
    {
        if i >= code.len() {
            return Ok(PlanBlock { start, steps, exit: Exit::Return(None) });
        }
        let next = steps.len();
        let op = code[i];
        match op {
            Op::Add | Op::Subtract | Op::Multiply | Op::Divide | Op::Remainder => {
                let right = match take_value(&mut stack, "binary op with empty stack", "binary op with callee marker on stack") {
                    Ok(v) => v,
                    Err(e) => return Err(e),
                };
                let left = match take_value(&mut stack, "binary op with empty stack", "binary op with callee marker on stack") {
                    Ok(v) => v,
                    Err(e) => return Err(e),
                };
                let arith = match op {
                    Op::Add => Arith::Add,
                    Op::Subtract => Arith::Subtract,
                    Op::Multiply => Arith::Multiply,
                    Op::Divide => Arith::Divide,
                    _ => Arith::Remainder,
                };
                stack.push(Slot::Value(next));
                push_step(&mut steps, Step::Arith(arith, left, right));
            },
            Op::Less | Op::LessOrEqual | Op::Greater | Op::GreaterOrEqual | Op::Equal | Op::NotEqual => {
                let right = match take_value(&mut stack, "compare with empty stack", "compare with callee marker on stack") {
                    Ok(v) => v,
                    Err(e) => return Err(e),
                };
                let left = match take_value(&mut stack, "compare with empty stack", "compare with callee marker on stack") {
                    Ok(v) => v,
                    Err(e) => return Err(e),
                };
                let test = match op {
                    Op::Less => Test::Less,
                    Op::LessOrEqual => Test::LessOrEqual,
                    Op::Greater => Test::Greater,
                    Op::GreaterOrEqual => Test::GreaterOrEqual,
                    Op::Equal => Test::Equal,
                    _ => Test::NotEqual,
                };
                stack.push(Slot::Value(next));
                push_step(&mut steps, Step::Test(test, left, right));
            },
            Op::Int(n) => {
                stack.push(Slot::Value(next));
                push_step(&mut steps, Step::Number(n));
            },
            Op::LoadLocal(s) => {
                stack.push(Slot::Value(next));
                push_step(&mut steps, Step::Load(s));
            },
            Op::StoreLocal(s) => {
                let v = match take_value(&mut stack, "store with empty stack", "store with callee marker on stack") {
                    Ok(v) => v,
                    Err(e) => return Err(e),
                };
                push_step(&mut steps, Step::Store(s, v));
            },
            Op::Negate => {
                let v = match take_value(&mut stack, "negate with empty stack", "negate with callee marker on stack") {
                    Ok(v) => v,
                    Err(e) => return Err(e),
                };
                stack.push(Slot::Value(next));
                push_step(&mut steps, Step::Negate(v));
            },
            Op::Jump(t) => {
                return Ok(PlanBlock { start, steps, exit: Exit::Jump(t as usize) });
            },
            Op::JumpIfFalse(t) => {
                let c = match take_value(&mut stack, "jump with empty stack", "jump with callee marker on stack") {
                    Ok(v) => v,
                    Err(e) => return Err(e),
                };
                return Ok(PlanBlock { start, steps, exit: Exit::Branch { condition: c, when_true: false, taken: t as usize, fallthrough: i + 1 } });
            },
            Op::JumpIfTrue(t) => {
                let c = match take_value(&mut stack, "jump with empty stack", "jump with callee marker on stack") {
                    Ok(v) => v,
                    Err(e) => return Err(e),
                };
                return Ok(PlanBlock { start, steps, exit: Exit::Branch { condition: c, when_true: true, taken: t as usize, fallthrough: i + 1 } });
            },
            Op::Return => {
                let value = match stack.pop() {
                    Some(Slot::Value(v)) => Some(v),
                    _ => None,
                };
                return Ok(PlanBlock { start, steps, exit: Exit::Return(value) });
            },
            Op::Pop => {
                stack.pop();
            },
            Op::Nothing => {},
            Op::Constant(k) => {
                match constant_function(program, k) {
                    Some(t) => {
                        stack.push(Slot::Callee(t));
                    },
                    None => {
                        stack.push(Slot::Value(next));
                        push_step(&mut steps, Step::Number(0));
                    },
                }
            },
            Op::Call(arity) => {
                let args = match take_args(&mut stack, arity) {
                    Ok(a) => a,
                    Err(e) => return Err(e),
                };
                let target = match stack.pop() {
                    None => return Err(String::from_str("call with no callee")),
                    Some(Slot::Callee(t)) => t,
                    Some(Slot::Value(_)) => body_id,
                };
                let parameters = match program.body(target) {
                    Some(b) => b.parameters,
                    None => 0,
                };
                stack.push(Slot::Value(next));
                push_step(&mut steps, Step::Call { target, parameters, args });
            },
            _ => {
                let mut e = String::from_str("unsupported op in tier-1 JIT: ");
                let said = crate::bytecode::write_op(op);
                e.append(said.as_str());
                return Err(e);
            },
        }
        i = i + 1;
    }
}

} // verus!

verus! {

pub open spec fn block_starts(blocks: Seq<BlockView>) -> Seq<usize> {
    blocks.map_values(|b: BlockView| b.start)
}

/// What a plan of a body is: its shape, and one block for each instruction
/// that control reaches from the first, each planned as `spec_block` says.
pub open spec fn plan_is(program: Program, body_id: usize, plan: PlanView) -> bool {
    &&& body_id < program.bodies@.len()
    &&& plan.body == body_id
    &&& plan.parameters == program.bodies@[body_id as int].parameters
    &&& plan.slots == program.bodies@[body_id as int].slots
    &&& plan.blocks.len() > 0
    &&& plan.blocks[0].start == 0
    &&& forall|j: int| 0 <= j < plan.blocks.len()
        ==> spec_block(program, body_id, #[trigger] plan.blocks[j].start) == Ok::<BlockView, Seq<char>>(plan.blocks[j])
    &&& forall|i: int, j: int| 0 <= i < j < plan.blocks.len() ==> plan.blocks[i].start != plan.blocks[j].start
    &&& forall|j: int, s: usize| 0 <= j < plan.blocks.len() && #[trigger] successor(plan.blocks[j].exit, s)
        ==> block_starts(plan.blocks).contains(s)
    &&& forall|j: int| 0 <= j < plan.blocks.len() ==> reachable(program, body_id, #[trigger] plan.blocks[j].start)
    &&& forall|j: int| 0 <= j < plan.blocks.len()
        ==> steps_ok(#[trigger] plan.blocks[j].steps) && exit_ok(plan.blocks[j].exit, plan.blocks[j].steps)
}

/// How many entries are false.
pub open spec fn count_false(s: Seq<bool>) -> nat
    decreases s.len(),
{
    if s.len() == 0 {
        0
    } else {
        count_false(s.drop_last()) + if s.last() { 0nat } else { 1nat }
    }
}

proof fn lemma_count_false_mark(s: Seq<bool>, p: int)
    requires
        0 <= p < s.len(),
        !s[p],
    ensures
        count_false(s.update(p, true)) + 1 == count_false(s),
    decreases s.len(),
{
    if p == s.len() - 1 {
        assert(s.update(p, true).drop_last() =~= s.drop_last());
    } else {
        lemma_count_false_mark(s.drop_last(), p);
        assert(s.update(p, true).drop_last() =~= s.drop_last().update(p, true));
    }
}

/// A set of blocks that holds the first instruction, is closed under
/// successors and plans each of its blocks holds the end of every path.
proof fn lemma_plan_covers(program: Program, body_id: usize, blocks: Seq<BlockView>, path: Seq<usize>)
    requires
        blocks.len() > 0,
        blocks[0].start == 0,
        forall|j: int| 0 <= j < blocks.len()
            ==> spec_block(program, body_id, #[trigger] blocks[j].start) == Ok::<BlockView, Seq<char>>(blocks[j]),
        forall|j: int, s: usize| 0 <= j < blocks.len() && #[trigger] successor(blocks[j].exit, s)
            ==> block_starts(blocks).contains(s),
        is_path(program, body_id, path),
    ensures
        block_starts(blocks).contains(path.last()),
    decreases path.len(),
{
    if path.len() == 1 {
        assert(block_starts(blocks)[0] == path.last());
    } else {
        let shorter = path.drop_last();
        assert(is_path(program, body_id, shorter)) by {
            assert forall|i: int| 0 <= i < shorter.len() - 1 implies spec_block(program, body_id, #[trigger] shorter[i]) is Ok
                && successor(spec_block(program, body_id, shorter[i])->Ok_0.exit, shorter[i + 1]) by {
                assert(shorter[i] == path[i] && shorter[i + 1] == path[i + 1]);
            }
        }
        lemma_plan_covers(program, body_id, blocks, shorter);
        let q = shorter.last();
        let k = path.len() - 2;
        assert(path[k] == q);
        assert(spec_block(program, body_id, path[k]) is Ok && successor(spec_block(program, body_id, path[k])->Ok_0.exit, path[k + 1]));
        let i = choose|i: int| 0 <= i < block_starts(blocks).len() && block_starts(blocks)[i] == q;
        assert(blocks[i].start == q);
        assert(spec_block(program, body_id, blocks[i].start) == Ok::<BlockView, Seq<char>>(blocks[i]));
        assert(successor(blocks[i].exit, path.last()));
    }
}

proof fn lemma_plannable(program: Program, body_id: usize, blocks: Seq<BlockView>)
    requires
        blocks.len() > 0,
        blocks[0].start == 0,
        forall|j: int| 0 <= j < blocks.len()
            ==> spec_block(program, body_id, #[trigger] blocks[j].start) == Ok::<BlockView, Seq<char>>(blocks[j]),
        forall|j: int, s: usize| 0 <= j < blocks.len() && #[trigger] successor(blocks[j].exit, s)
            ==> block_starts(blocks).contains(s),
    ensures
        plannable(program, body_id),
{
    assert forall|pc: usize| #[trigger] reachable(program, body_id, pc)
        implies spec_block(program, body_id, pc) is Ok by {
        let path = choose|path: Seq<usize>| #[trigger] is_path(program, body_id, path) && path.last() == pc;
        lemma_plan_covers(program, body_id, blocks, path);
        let i = choose|i: int| 0 <= i < block_starts(blocks).len() && block_starts(blocks)[i] == pc;
        assert(spec_block(program, body_id, blocks[i].start) == Ok::<BlockView, Seq<char>>(blocks[i]));
    }
}

fn has_start(blocks: &Vec<PlanBlock>, pc: usize) -> (r: bool)
    ensures
        r == block_starts(blocks_view(blocks@)).contains(pc),
{
    let mut j: usize = 0;
    while j < blocks.len()
        invariant
            j <= blocks@.len(),
            forall|k: int| 0 <= k < j ==> blocks@[k].start != pc,
        decreases blocks.len() - j,
    {
        if blocks[j].start == pc {
            assert(block_starts(blocks_view(blocks@))[j as int] == pc);
            return true;
        }
        j = j + 1;
    }
    assert forall|k: int| 0 <= k < block_starts(blocks_view(blocks@)).len()
        implies block_starts(blocks_view(blocks@))[k] != pc by {
        assert(blocks@[k].start != pc);
    }
    false
}

} // verus!

verus! {

/// The plan the native tier builds a body from: every block that control
/// reaches from the body's first instruction, each planned from the
/// body's instructions. It fails where the body is missing, where a reached
/// block cannot be planned (with that block's reason), and where the body
/// takes more than four parameters.
pub fn native_plan(program: &Program, body_id: usize) -> (r: Result<NativePlan, String>)
    ensures
        body_id >= program.bodies@.len() ==> r is Err && r->Err_0@ == "body "@ + digits(body_id as nat) + " is missing"@,
        body_id < program.bodies@.len() ==> (r is Ok <==> plannable(*program, body_id)
            && program.bodies@[body_id as int].parameters <= 4),
        r is Ok ==> plan_is(*program, body_id, r->Ok_0@),
        body_id < program.bodies@.len() && r is Err && plannable(*program, body_id)
            ==> r->Err_0@ == "tier-1 JIT supports up to 4 parameters, not "@
                + digits(program.bodies@[body_id as int].parameters as nat),
        body_id < program.bodies@.len() && r is Err && !plannable(*program, body_id)
            ==> exists|pc: usize| #[trigger] reachable(*program, body_id, pc)
                && spec_block(*program, body_id, pc) == Err::<BlockView, Seq<char>>(r->Err_0@),
{
    let body = match program.body(body_id) {
        Some(b) => b,
        None => {
            let mut e = String::from_str("body ");
            crate::text::push_digits(&mut e, body_id as u64);
            e.append(" is missing");
            return Err(e);
        },
    };
    let code = &body.code;
    let code_len = code.len();
    let mut blocks: Vec<PlanBlock> = Vec::new();
    let mut queue: Vec<usize> = Vec::new();
    queue.push(0);
    let mut head: usize = 0;
    let ghost mut seen: Seq<bool> = Seq::new((code@.len() + 1) as nat, |p: int| false);
    proof {
        assert(is_path(*program, body_id, seq![0usize]));
    }
    while head < queue.len()
        invariant
            body_id < program.bodies@.len(),
            *body == program.bodies@[body_id as int],
            code@ == body.code@,
            code@.len() == code_len,
            queue@.len() >= 1,
            queue@[0] == 0,
            head <= queue@.len(),
            head == 0 ==> blocks@.len() == 0,
            head > 0 ==> blocks@.len() > 0 && blocks_view(blocks@)[0].start == 0,
            forall|j: int| 0 <= j < blocks@.len() ==> spec_block(*program, body_id, #[trigger] blocks_view(blocks@)[j].start)
                == Ok::<BlockView, Seq<char>>(blocks_view(blocks@)[j]),
            forall|i: int, j: int| 0 <= i < j < blocks@.len() ==> blocks@[i].start != blocks@[j].start,
            forall|k: int| 0 <= k < head ==> block_starts(blocks_view(blocks@)).contains(#[trigger] queue@[k]),
            forall|j: int, s: usize| 0 <= j < blocks@.len() && #[trigger] successor(blocks_view(blocks@)[j].exit, s)
                ==> queue@.contains(s),
            forall|k: int| 0 <= k < queue@.len() ==> reachable(*program, body_id, #[trigger] queue@[k]),
            forall|j: int| 0 <= j < blocks@.len() ==> reachable(*program, body_id, #[trigger] blocks_view(blocks@)[j].start),
            seen.len() == code@.len() + 1,
            forall|p: int| 0 <= p <= code@.len() ==> (#[trigger] seen[p] <==> block_starts(blocks_view(blocks@)).contains(p as usize)),
        decreases count_false(seen), queue@.len() - head,
    {
        let pc = queue[head];
        head = head + 1;
        if has_start(&blocks, pc) {
            continue;
        }
        let block = match plan_block(program, body_id, code, pc) {
            Ok(b) => b,
            Err(e) => {
                return Err(e);
            },
        };
        let ghost path = choose|path: Seq<usize>| #[trigger] is_path(*program, body_id, path) && path.last() == pc;
        let ghost old_queue = queue@;
        let ghost old_blocks = blocks_view(blocks@);
        match block.exit {
            Exit::Jump(t) => {
                queue.push(t);
            },
            Exit::Branch { taken, fallthrough, .. } => {
                queue.push(taken);
                queue.push(fallthrough);
            },
            Exit::Return(_) => {},
        }
        proof {
            assert forall|s: usize| successor(block@.exit, s) implies reachable(*program, body_id, s) by {
                let longer = path.push(s);
                assert(is_path(*program, body_id, longer)) by {
                    assert forall|i: int| 0 <= i < longer.len() - 1 implies spec_block(*program, body_id, #[trigger] longer[i]) is Ok
                        && successor(spec_block(*program, body_id, longer[i])->Ok_0.exit, longer[i + 1]) by {
                        if i < path.len() - 1 {
                            assert(longer[i] == path[i] && longer[i + 1] == path[i + 1]);
                        } else {
                            assert(longer[i] == pc && longer[i + 1] == s);
                        }
                    }
                }
                assert(longer.last() == s);
            }
            if pc <= code@.len() {
                lemma_count_false_mark(seen, pc as int);
                seen = seen.update(pc as int, true);
            } else {
                assert(block@.exit == Exit::Return(None));
            }
        }
        blocks.push(block);
        proof {
            assert(blocks_view(blocks@) =~= old_blocks.push(block@));
            assert(block_starts(blocks_view(blocks@)) =~= block_starts(old_blocks).push(pc));
            assert forall|i: int| 0 <= i < old_blocks.len() implies blocks@[i].start != pc by {
                assert(block_starts(old_blocks)[i] == blocks@[i].start);
            }
            assert forall|k: int| 0 <= k < queue@.len() implies reachable(*program, body_id, #[trigger] queue@[k]) by {
                if k >= old_queue.len() {
                    assert(successor(block@.exit, queue@[k]));
                } else {
                    assert(queue@[k] == old_queue[k]);
                }
            }
            assert forall|j: int, s: usize| 0 <= j < blocks@.len() && #[trigger] successor(blocks_view(blocks@)[j].exit, s)
                implies queue@.contains(s) by {
                if j < old_blocks.len() {
                    assert(successor(old_blocks[j].exit, s));
                    let k = choose|k: int| 0 <= k < old_queue.len() && old_queue[k] == s;
                    assert(queue@[k] == s);
                } else {
                    match block@.exit {
                        Exit::Jump(t) => { assert(queue@[old_queue.len() as int] == s); },
                        Exit::Branch { taken, fallthrough, .. } => {
                            if taken == s { assert(queue@[old_queue.len() as int] == s); }
                            else { assert(queue@[old_queue.len() as int + 1] == s); }
                        },
                        Exit::Return(_) => {},
                    }
                }
            }
            assert forall|k: int| 0 <= k < head implies block_starts(blocks_view(blocks@)).contains(#[trigger] queue@[k]) by {
                if k < head - 1 {
                    let m = choose|m: int| 0 <= m < block_starts(old_blocks).len() && block_starts(old_blocks)[m] == queue@[k];
                    assert(block_starts(blocks_view(blocks@))[m] == queue@[k]);
                } else {
                    assert(block_starts(blocks_view(blocks@))[old_blocks.len() as int] == queue@[k]);
                }
            }
            assert forall|p: int| 0 <= p <= code@.len() implies (#[trigger] seen[p] <==> block_starts(blocks_view(blocks@)).contains(p as usize)) by {
                if p == pc {
                    assert(block_starts(blocks_view(blocks@))[old_blocks.len() as int] == pc);
                } else {
                    if block_starts(blocks_view(blocks@)).contains(p as usize) {
                        let m = choose|m: int| 0 <= m < block_starts(blocks_view(blocks@)).len() && block_starts(blocks_view(blocks@))[m] == p as usize;
                        assert(block_starts(blocks_view(blocks@))[old_blocks.len() as int] == pc);
                        assert((p as usize) as int == p);
                        assert(m < old_blocks.len());
                        assert(block_starts(old_blocks)[m] == p as usize);
                    }
                    if block_starts(old_blocks).contains(p as usize) {
                        let m = choose|m: int| 0 <= m < block_starts(old_blocks).len() && block_starts(old_blocks)[m] == p as usize;
                        assert(block_starts(blocks_view(blocks@))[m] == p as usize);
                    }
                }
            }
        }
    }
    proof {
        let v = blocks_view(blocks@);
        assert forall|j: int, s: usize| 0 <= j < v.len() && #[trigger] successor(v[j].exit, s)
            implies block_starts(v).contains(s) by {
            let k = choose|k: int| 0 <= k < queue@.len() && queue@[k] == s;
        }
        lemma_plannable(*program, body_id, v);
    }
    if body.parameters > 4 {
        let mut e = String::from_str("tier-1 JIT supports up to 4 parameters, not ");
        crate::text::push_digits(&mut e, body.parameters as u64);
        return Err(e);
    }
    let plan = NativePlan { body: body_id, parameters: body.parameters, slots: body.slots, blocks };
    proof {
        assert(plan@.blocks == blocks_view(blocks@));
        let v = plan@.blocks;
        assert forall|j: int| 0 <= j < v.len()
            implies steps_ok(#[trigger] v[j].steps) && exit_ok(v[j].exit, v[j].steps) by {
            lemma_block_uses_made_numbers(*program, body_id, v[j].start);
        }
    }
    Ok(plan)
}

} // verus!

verus! {

/// Whether a step yields a number.
pub open spec fn yields(step: StepView) -> bool {
    !(step is Store)
}

/// The numbers a step uses, by the steps that made them.
pub open spec fn operands(step: StepView) -> Seq<usize> {
    match step {
        StepView::Number(_) | StepView::Load(_) => Seq::empty(),
        StepView::Store(_, v) | StepView::Negate(v) => seq![v],
        StepView::Arith(_, l, r) | StepView::Test(_, l, r) => seq![l, r],
        StepView::Call { args, .. } => args,
    }
}

/// Whether `v` names a number that one of the steps made.
pub open spec fn made(steps: Seq<StepView>, v: usize) -> bool {
    v < steps.len() && yields(steps[v as int])
}

/// Whether each step uses only numbers that earlier steps made.
pub open spec fn steps_ok(steps: Seq<StepView>) -> bool {
    forall|i: int, k: int| 0 <= i < steps.len() && 0 <= k < operands(#[trigger] steps[i]).len()
        ==> operands(steps[i])[k] < i && made(steps, #[trigger] operands(steps[i])[k])
}

/// Whether a block's exit uses only a number that one of its steps made.
pub open spec fn exit_ok(exit: Exit, steps: Seq<StepView>) -> bool {
    match exit {
        Exit::Return(Some(v)) => made(steps, v),
        Exit::Branch { condition, .. } => made(steps, condition),
        _ => true,
    }
}

pub open spec fn stack_ok(stack: Seq<Slot>, steps: Seq<StepView>) -> bool {
    forall|k: int| 0 <= k < stack.len() ==> (#[trigger] stack[k] matches Slot::Value(v) ==> made(steps, v))
}

proof fn lemma_push_step(steps: Seq<StepView>, step: StepView)
    requires
        steps_ok(steps),
        forall|k: int| 0 <= k < operands(step).len() ==> made(steps, #[trigger] operands(step)[k]),
    ensures
        steps_ok(steps.push(step)),
        forall|v: usize| made(steps, v) ==> #[trigger] made(steps.push(step), v),
{
    let longer = steps.push(step);
    assert forall|i: int, k: int| 0 <= i < longer.len() && 0 <= k < operands(#[trigger] longer[i]).len()
        implies operands(longer[i])[k] < i && made(longer, #[trigger] operands(longer[i])[k]) by {
        if i < steps.len() {
            assert(longer[i] == steps[i]);
            assert(made(steps, operands(steps[i])[k]));
        } else {
            assert(longer[i] == step);
            assert(made(steps, operands(step)[k]));
        }
    }
    assert forall|v: usize| made(steps, v) implies #[trigger] made(longer, v) by {
        assert(longer[v as int] == steps[v as int]);
    }
}

proof fn lemma_call_args_made(stack: Seq<Slot>, n: nat, steps: Seq<StepView>)
    requires
        stack_ok(stack, steps),
        call_args(stack, n) is Ok,
    ensures
        forall|k: int| 0 <= k < call_args(stack, n)->Ok_0.len() ==> made(steps, #[trigger] call_args(stack, n)->Ok_0[k]),
        call_args(stack, n)->Ok_0.len() == n,
        n <= stack.len(),
    decreases n,
{
    if n > 0 {
        let shorter = stack.drop_last();
        assert(stack_ok(shorter, steps)) by {
            assert forall|k: int| 0 <= k < shorter.len() implies (#[trigger] shorter[k] matches Slot::Value(v) ==> made(steps, v)) by {
                assert(shorter[k] == stack[k]);
            }
        }
        lemma_call_args_made(shorter, (n - 1) as nat, steps);
        assert(stack[stack.len() - 1] == stack.last());
    }
}

} // verus!

verus! {

proof fn lemma_stack_keep(stack: Seq<Slot>, keep: int, steps: Seq<StepView>, longer: Seq<StepView>)
    requires
        stack_ok(stack, steps),
        0 <= keep <= stack.len(),
        forall|v: usize| made(steps, v) ==> #[trigger] made(longer, v),
    ensures
        stack_ok(stack.subrange(0, keep), longer),
{
    let kept = stack.subrange(0, keep);
    assert forall|k: int| 0 <= k < kept.len() implies (#[trigger] kept[k] matches Slot::Value(v) ==> made(longer, v)) by {
        assert(kept[k] == stack[k]);
    }
}

proof fn lemma_stack_push(stack: Seq<Slot>, steps: Seq<StepView>, slot: Slot)
    requires
        stack_ok(stack, steps),
        slot matches Slot::Value(v) ==> made(steps, v),
    ensures
        stack_ok(stack.push(slot), steps),
{
    let longer = stack.push(slot);
    assert forall|k: int| 0 <= k < longer.len() implies (#[trigger] longer[k] matches Slot::Value(v) ==> made(steps, v)) by {
        if k < stack.len() {
            assert(longer[k] == stack[k]);
        }
    }
}

/// The rest of a block, planned from a stack of made numbers, uses only
/// numbers its steps made.
proof fn lemma_plan_from_ok(program: Program, body_id: usize, code: Seq<Op>, i: int, stack: Seq<Slot>, steps: Seq<StepView>)
    requires
        stack_ok(stack, steps),
        steps_ok(steps),
        steps.len() + code.len() - i <= usize::MAX,
    ensures
        plan_from(program, body_id, code, i, stack, steps) matches Ok((st, exit)) ==> steps_ok(st) && exit_ok(exit, st),
    decreases code.len() - i,
{
    if i < 0 || i >= code.len() {
        return;
    }
    let next = steps.len() as usize;
    let op = code[i];
    let n = stack.len() as int;
    if is_arith(op) || is_test(op) {
        if n >= 2 && stack.last() is Value && stack.drop_last().last() is Value {
            let right = stack.last()->Value_0;
            let left = stack.drop_last().last()->Value_0;
            assert(stack[n - 1] == stack.last() && stack[n - 2] == stack.drop_last().last());
            let step = if is_arith(op) { StepView::Arith(arith_of(op), left, right) } else { StepView::Test(test_of(op), left, right) };
            assert(operands(step) =~= seq![left, right]);
            lemma_push_step(steps, step);
            let longer = steps.push(step);
            lemma_stack_keep(stack, n - 2, steps, longer);
            assert(stack.drop_last().drop_last() =~= stack.subrange(0, n - 2));
            assert(made(longer, next));
            lemma_stack_push(stack.subrange(0, n - 2), longer, Slot::Value(next));
            lemma_plan_from_ok(program, body_id, code, i + 1, stack.subrange(0, n - 2).push(Slot::Value(next)), longer);
        }
        return;
    }
    match op {
        Op::Int(k) => {
            let step = StepView::Number(k);
            lemma_push_step(steps, step);
            let longer = steps.push(step);
            lemma_stack_keep(stack, n, steps, longer);
            assert(stack.subrange(0, n) =~= stack);
            assert(made(longer, next));
            lemma_stack_push(stack, longer, Slot::Value(next));
            lemma_plan_from_ok(program, body_id, code, i + 1, stack.push(Slot::Value(next)), longer);
        },
        Op::LoadLocal(slot) => {
            let step = StepView::Load(slot);
            lemma_push_step(steps, step);
            let longer = steps.push(step);
            lemma_stack_keep(stack, n, steps, longer);
            assert(stack.subrange(0, n) =~= stack);
            assert(made(longer, next));
            lemma_stack_push(stack, longer, Slot::Value(next));
            lemma_plan_from_ok(program, body_id, code, i + 1, stack.push(Slot::Value(next)), longer);
        },
        Op::StoreLocal(slot) => {
            if n >= 1 && stack.last() is Value {
                let v = stack.last()->Value_0;
                assert(stack[n - 1] == stack.last());
                let step = StepView::Store(slot, v);
                assert(operands(step) =~= seq![v]);
                lemma_push_step(steps, step);
                let longer = steps.push(step);
                lemma_stack_keep(stack, n - 1, steps, longer);
                assert(stack.drop_last() =~= stack.subrange(0, n - 1));
                lemma_plan_from_ok(program, body_id, code, i + 1, stack.drop_last(), longer);
            }
        },
        Op::Negate => {
            if n >= 1 && stack.last() is Value {
                let v = stack.last()->Value_0;
                assert(stack[n - 1] == stack.last());
                let step = StepView::Negate(v);
                assert(operands(step) =~= seq![v]);
                lemma_push_step(steps, step);
                let longer = steps.push(step);
                lemma_stack_keep(stack, n - 1, steps, longer);
                assert(stack.drop_last() =~= stack.subrange(0, n - 1));
                assert(made(longer, next));
                lemma_stack_push(stack.drop_last(), longer, Slot::Value(next));
                lemma_plan_from_ok(program, body_id, code, i + 1, stack.drop_last().push(Slot::Value(next)), longer);
            }
        },
        Op::JumpIfFalse(_) | Op::JumpIfTrue(_) | Op::Return => {
            if n >= 1 {
                assert(stack[n - 1] == stack.last());
            }
        },
        Op::Pop => {
            if n > 0 {
                lemma_stack_keep(stack, n - 1, steps, steps);
                assert(stack.drop_last() =~= stack.subrange(0, n - 1));
                lemma_plan_from_ok(program, body_id, code, i + 1, stack.drop_last(), steps);
            } else {
                lemma_plan_from_ok(program, body_id, code, i + 1, stack, steps);
            }
        },
        Op::Nothing => {
            lemma_plan_from_ok(program, body_id, code, i + 1, stack, steps);
        },
        Op::Constant(k) => {
            match function_target(program, k) {
                Some(t) => {
                    lemma_stack_push(stack, steps, Slot::Callee(t));
                    lemma_plan_from_ok(program, body_id, code, i + 1, stack.push(Slot::Callee(t)), steps);
                },
                None => {
                    let step = StepView::Number(0);
                    lemma_push_step(steps, step);
                    let longer = steps.push(step);
                    lemma_stack_keep(stack, n, steps, longer);
                    assert(stack.subrange(0, n) =~= stack);
                    assert(made(longer, next));
                    lemma_stack_push(stack, longer, Slot::Value(next));
                    lemma_plan_from_ok(program, body_id, code, i + 1, stack.push(Slot::Value(next)), longer);
                },
            }
        },
        Op::Call(arity) => {
            if call_args(stack, arity as nat) is Ok {
                lemma_call_args_made(stack, arity as nat, steps);
                let args = call_args(stack, arity as nat)->Ok_0;
                let rest = stack.subrange(0, n - arity);
                if rest.len() > 0 {
                    let target = match rest.last() {
                        Slot::Callee(t) => t,
                        Slot::Value(_) => body_id,
                    };
                    let step = StepView::Call { target, parameters: target_parameters(program, target), args };
                    assert(operands(step) == args);
                    lemma_push_step(steps, step);
                    let longer = steps.push(step);
                    lemma_stack_keep(stack, rest.len() - 1, steps, longer);
                    assert(rest.drop_last() =~= stack.subrange(0, rest.len() - 1));
                    assert(made(longer, next));
                    lemma_stack_push(rest.drop_last(), longer, Slot::Value(next));
                    lemma_plan_from_ok(program, body_id, code, i + 1, rest.drop_last().push(Slot::Value(next)), longer);
                }
            }
        },
        _ => {},
    }
}

/// Each planned block uses only numbers that its own earlier steps made:
/// every step names made numbers from before it, and the exit names one of
/// them.
pub proof fn lemma_block_uses_made_numbers(program: Program, body_id: usize, pc: usize)
    requires
        spec_block(program, body_id, pc) is Ok,
        program.bodies@[body_id as int].code@.len() <= usize::MAX,
    ensures
        steps_ok(spec_block(program, body_id, pc)->Ok_0.steps),
        exit_ok(spec_block(program, body_id, pc)->Ok_0.exit, spec_block(program, body_id, pc)->Ok_0.steps),
{
    lemma_plan_from_ok(program, body_id, program.bodies@[body_id as int].code@, pc as int, Seq::empty(), Seq::empty());
}

} // verus!
