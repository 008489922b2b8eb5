//! One instruction at a time: what each instruction does to the machine.

use vstd::prelude::*;
use crate::builtin::{Applied, AppliedView, Builtin};
use crate::bytecode::{Op, Program, SelectArm, SelectDescriptor};
use crate::concurrency::{channels_unchanged_but, ChannelState, Host, OpResult, Pending, SelectStep, WaitSite};
use crate::error::{Fault, Operation, RuntimeError, Span};
use crate::machine::{Awaiting, Frame, Machine, Output, World, HttpResponse, Step, MOST_CALLS};
use crate::ops::{whole, range, item_at, length_of, truth, ordered};
use crate::outside::{Request, Answer, failure_message, failure_unit, headers_from_value};
use crate::show::show;
use crate::text::push_text;
use crate::value::{Value, ValueView, Float, Record, Variant, Closure, copy_value, copy_values, same_value, views, lemma_views};

verus! {

/// The stack left by popping what a value stack ran dry of.
pub open spec fn dry<T>() -> Result<T, Fault> {
    Err(Fault::Confused("the value stack ran dry"))
}

/// What an instruction that works the value stack alone does to it: the
/// stack it leaves, or the fault that stops the program. `None` for the
/// instructions that need more than the stack and the program (the cells,
/// the world outside), and for float arithmetic, which is done outside.
pub open spec fn data_step(op: Op, s: Seq<ValueView>, program: Program, cells: Seq<ValueView>) -> Option<Result<Seq<ValueView>, Fault>> {
    let n = s.len();
    match op {
        Op::Constant(index) => Some(if (index as int) < program.constants@.len() {
            Ok(s.push(program.constants@[index as int]@))
        } else {
            Err(Fault::Confused("an instruction named a constant that is not there"))
        }),
        Op::Variant { layout, fields } => Some(if (fields as int) > n {
            dry()
        } else if (layout as int) < program.variants@.len() {
            Ok(s.subrange(0, n - fields).push(ValueView::Variant { layout, fields: s.subrange(n - fields, n as int) }))
        } else {
            Err(Fault::Confused("a variant was built from a choice that is not there"))
        }),
        Op::IsVariant(index) => Some(if n == 0 {
            dry()
        } else {
            Ok(s.drop_last().push(ValueView::Bool(match s.last() {
                ValueView::Variant { layout, .. } => (layout as int) < program.variants@.len()
                    && program.variants@[layout as int].index == index,
                _ => false,
            })))
        }),
        Op::Int(v) => Some(Ok(s.push(ValueView::Int(v)))),
        Op::Bool(b) => Some(Ok(s.push(ValueView::Bool(b)))),
        Op::Nothing => Some(Ok(s.push(ValueView::Nothing))),
        Op::Absent => Some(Ok(s.push(ValueView::Maybe(None)))),
        Op::Found => Some(if n == 0 { dry() } else { Ok(s.drop_last().push(ValueView::Maybe(Some(Box::new(s.last()))))) }),
        Op::Success => Some(if n == 0 { dry() } else { Ok(s.drop_last().push(ValueView::Success(Box::new(s.last())))) }),
        Op::Failure => Some(if n == 0 { dry() } else { Ok(s.drop_last().push(ValueView::Failure(Box::new(s.last())))) }),
        Op::Pop => Some(if n == 0 { dry() } else { Ok(s.drop_last()) }),
        Op::Duplicate => Some(if n == 0 { dry() } else { Ok(s.push(s.last())) }),
        Op::Add | Op::Subtract | Op::Multiply | Op::Divide | Op::Remainder => if n < 2 {
            Some(dry())
        } else {
            match (s[n - 2], s[n - 1]) {
                (ValueView::Int(l), ValueView::Int(r)) => Some(match crate::ops::spec_whole(op, l, r) {
                    Ok(v) => Ok(s.subrange(0, n - 2).push(ValueView::Int(v))),
                    Err(f) => Err(f),
                }),
                (ValueView::Float(_, _), ValueView::Float(_, _)) => None,
                _ => Some(Err(Fault::Confused("arithmetic reached something that is not a number"))),
            }
        },
        Op::Negate => if n == 0 {
            Some(dry())
        } else {
            match s.last() {
                ValueView::Int(v) => Some(if v == i64::MIN {
                    Err(Fault::Overflowed(Operation::Negation))
                } else {
                    Ok(s.drop_last().push(ValueView::Int((-v) as i64)))
                }),
                ValueView::Float(_, _) => None,
                _ => Some(Err(Fault::Confused("`-` reached something that is not a number"))),
            }
        },
        Op::Equal | Op::NotEqual => if n < 2 {
            Some(dry())
        } else {
            let equal = crate::value::equal_in(s[n - 2], s[n - 1], cells, cells.len());
            Some(Ok(s.subrange(0, n - 2).push(ValueView::Bool(if op is Equal { equal } else { !equal }))))
        },
        Op::Less | Op::LessOrEqual | Op::Greater | Op::GreaterOrEqual => if n < 2 {
            Some(dry())
        } else {
            Some(match crate::ops::spec_ordered(op, s[n - 2], s[n - 1]) {
                Ok(b) => Ok(s.subrange(0, n - 2).push(ValueView::Bool(b))),
                Err(f) => Err(f),
            })
        },
        Op::Not => if n == 0 {
            Some(dry())
        } else {
            match s.last() {
                ValueView::Bool(b) => Some(Ok(s.drop_last().push(ValueView::Bool(!b)))),
                _ => Some(Err(Fault::Confused("`not` reached something that is not a Bool"))),
            }
        },
        Op::List(count) => Some(if count > n { dry() } else {
            Ok(s.subrange(0, n - count).push(ValueView::List(s.subrange(n - count, n as int))))
        }),
        Op::Tuple(count) => Some(if count > n { dry() } else {
            Ok(s.subrange(0, n - count).push(ValueView::Tuple(s.subrange(n - count, n as int))))
        }),
        Op::Range => if n < 2 {
            Some(dry())
        } else {
            Some(match crate::ops::spec_range(s[n - 2], s[n - 1]) {
                Ok(v) => Ok(s.subrange(0, n - 2).push(v)),
                Err(f) => Err(f),
            })
        },
        Op::Index => if n < 2 {
            Some(dry())
        } else {
            Some(match crate::ops::spec_item_at(s[n - 2], s[n - 1]) {
                Ok(v) => Ok(s.subrange(0, n - 2).push(v)),
                Err(f) => Err(f),
            })
        },
        Op::IsEmpty => if n == 0 {
            Some(dry())
        } else {
            Some(match crate::ops::spec_length(s.last()) {
                Ok(k) => Ok(s.drop_last().push(ValueView::Bool(k == 0))),
                Err(f) => Err(f),
            })
        },
        Op::Length => if n == 0 {
            Some(dry())
        } else {
            Some(match crate::ops::spec_length(s.last()) {
                Ok(k) => if k > i64::MAX {
                    Err(Fault::Confused("a length too large to count"))
                } else {
                    Ok(s.drop_last().push(ValueView::Int(k as i64)))
                },
                Err(f) => Err(f),
            })
        },
        Op::ListLengthIs { length, at_least } => if n == 0 {
            Some(dry())
        } else {
            Some(match crate::ops::spec_length(s.last()) {
                Ok(k) => Ok(s.drop_last().push(ValueView::Bool(if at_least { k >= length } else { k == length }))),
                Err(f) => Err(f),
            })
        },
        Op::IsFound => Some(if n == 0 { dry() } else { Ok(s.drop_last().push(ValueView::Bool(s.last() matches ValueView::Maybe(Some(_))))) }),
        Op::IsSuccess => Some(if n == 0 { dry() } else { Ok(s.drop_last().push(ValueView::Bool(s.last() is Success))) }),
        Op::IsFailure => Some(if n == 0 { dry() } else { Ok(s.drop_last().push(ValueView::Bool(s.last() is Failure))) }),
        Op::Unwrap => Some(if n == 0 {
            dry()
        } else {
            match s.last() {
                ValueView::Maybe(Some(held)) => Ok(s.drop_last().push(*held)),
                ValueView::Success(held) => Ok(s.drop_last().push(*held)),
                ValueView::Failure(held) => Ok(s.drop_last().push(*held)),
                _ => Err(Fault::Confused("there was nothing inside to take out")),
            }
        }),
        Op::TupleItem(i) => Some(if n == 0 {
            dry()
        } else {
            match s.last() {
                ValueView::Tuple(parts) => if (i as int) < parts.len() {
                    Ok(s.drop_last().push(parts[i as int]))
                } else {
                    Err(Fault::Confused("part of a group was read out of range"))
                },
                _ => Err(Fault::Confused("part of a group was read from something else")),
            }
        }),
        Op::VariantField(i) => Some(if n == 0 {
            dry()
        } else {
            match s.last() {
                ValueView::Variant { fields, .. } => if (i as int) < fields.len() {
                    Ok(s.drop_last().push(fields[i as int]))
                } else {
                    Err(Fault::Confused("a variant's part was read out of range"))
                },
                _ => Err(Fault::Confused("a variant's part was read from something else")),
            }
        }),
        Op::NotYet(feature) => Some(Err(Fault::NotYet(feature))),
        Op::NoArm => Some(Err(Fault::NoArmApplied)),
        _ => None,
    }
}

/// The instruction the innermost call runs next, if it is there to run.
pub open spec fn op_at(frames: Seq<Frame>, program: Program) -> Option<Op> {
    if frames.len() == 0 {
        None
    } else {
        let f = frames.last();
        if (f.body as int) < program.bodies@.len() && (f.pc as int) < program.bodies@[f.body as int].code@.len() {
            Some(program.bodies@[f.body as int].code@[f.pc as int])
        } else {
            None
        }
    }
}

/// Taking a stretch of values and then their views is taking the views and
/// then the stretch.
pub proof fn lemma_views_subrange(s: Seq<Value>)
    ensures
        forall|i: int, j: int| 0 <= i <= j <= s.len() ==> #[trigger] views(s.subrange(i, j)) == views(s).subrange(i, j),
        forall|v: Value| #[trigger] views(s.push(v)) == views(s).push(v@),
        forall|i: int, v: Value| 0 <= i < s.len() ==> #[trigger] views(s.update(i, v)) == views(s).update(i, v@),
{
    lemma_views(s);
    assert forall|i: int, j: int| 0 <= i <= j <= s.len() implies #[trigger] views(s.subrange(i, j)) == views(s).subrange(i, j) by {
        lemma_views(s.subrange(i, j));
        assert(views(s.subrange(i, j)) =~= views(s).subrange(i, j));
    }
    assert forall|v: Value| #[trigger] views(s.push(v)) == views(s).push(v@) by {
        crate::value::lemma_views_push(s, v);
    }
    assert forall|i: int, v: Value| 0 <= i < s.len() implies #[trigger] views(s.update(i, v)) == views(s).update(i, v@) by {
        lemma_views(s.update(i, v));
        assert(views(s.update(i, v)) =~= views(s).update(i, v@));
    }
}

/// What an instruction that works the stack, a local of the innermost call
/// (its slots start at `base`) or where the call goes next does: the stack
/// it leaves and the instruction run next, or the fault that stops the
/// program. `None` for the instructions that need more than that.
pub open spec fn simple_step(op: Op, s: Seq<ValueView>, base: int, pc: int, program: Program, cells: Seq<ValueView>) -> Option<Result<(Seq<ValueView>, int), Fault>> {
    match data_step(op, s, program, cells) {
        Some(Ok(t)) => Some(Ok((t, pc + 1))),
        Some(Err(f)) => Some(Err(f)),
        None => place_step(op, s, base, pc),
    }
}

/// What an instruction that reads or writes a local, or jumps, does to the
/// value stack and to where the call goes next.
pub open spec fn place_step(op: Op, s: Seq<ValueView>, base: int, pc: int) -> Option<Result<(Seq<ValueView>, int), Fault>> {
    match op {
        Op::LoadLocal(slot) => Some(if base + slot < s.len() {
            Ok((s.push(s[base + slot]), pc + 1))
        } else {
            Err(Fault::Confused("a local was read out of range"))
        }),
        Op::StoreLocal(slot) => Some(if s.len() == 0 {
            dry()
        } else if base + slot < s.len() - 1 {
            Ok((s.drop_last().update(base + slot, s.last()), pc + 1))
        } else {
            Err(Fault::Confused("a local was written out of range"))
        }),
        Op::Jump(target) => Some(Ok((s, target as int))),
        Op::JumpIfFalse(target) => Some(if s.len() == 0 {
            dry()
        } else {
            match crate::ops::spec_truth(s.last()) {
                Ok(b) => Ok((s.drop_last(), if b { pc + 1 } else { target as int })),
                Err(f) => Err(f),
            }
        }),
        Op::JumpIfTrue(target) => Some(if s.len() == 0 {
            dry()
        } else {
            match crate::ops::spec_truth(s.last()) {
                Ok(b) => Ok((s.drop_last(), if b { target as int } else { pc + 1 })),
                Err(f) => Err(f),
            }
        }),
        _ => None,
    }
}

/// What `Return` does: the value on top of the stack is handed back, the
/// innermost call ends and its slots go; the value is then pushed for the
/// caller, or, when that was the last call, the machine is done with it.
pub open spec fn return_step(s: Seq<Value>, frames: Seq<Frame>, after: Seq<Value>, frames_after: Seq<Frame>,
    r: Result<TickAction, Fault>) -> bool
{
    if s.len() == 0 {
        r == Err::<TickAction, Fault>(Fault::Confused("the value stack ran dry"))
    } else if frames.len() == 0 {
        r == Err::<TickAction, Fault>(Fault::Confused("a return with no frame to return from"))
    } else {
        let v = s.last();
        let base = frames.last().base as int;
        let kept = if base < s.len() - 1 { s.subrange(0, base) } else { s.drop_last() };
        &&& frames_after == frames.drop_last()
        &&& if frames.len() == 1 {
            r == Ok::<TickAction, Fault>(TickAction::Done(v)) && after == kept
        } else {
            r == Ok::<TickAction, Fault>(TickAction::Continue) && after == kept.push(v)
        }
    }
}

/// The instruction at `pc` in a body, if it is there.
pub open spec fn code_at(program: Program, body: usize, pc: int) -> Option<Op> {
    if (body as int) < program.bodies@.len() && 0 <= pc < program.bodies@[body as int].code@.len() {
        Some(program.bodies@[body as int].code@[pc])
    } else {
        None
    }
}

/// Where `n` instructions of a body take the stack and the place in the
/// body, when each of them only works the stack, the locals of the call
/// (its slots start at `base`) and where the call goes next, and none of
/// them fails; `None` when one of them does something else or fails.
pub open spec fn simple_run(program: Program, cells: Seq<ValueView>, body: usize, base: int, s: Seq<ValueView>, pc: int, n: nat)
    -> Option<(Seq<ValueView>, int)>
    decreases n,
{
    if n == 0 {
        Some((s, pc))
    } else {
        match simple_run(program, cells, body, base, s, pc, (n - 1) as nat) {
            Some((s1, p1)) => match code_at(program, body, p1) {
                Some(op) => match simple_step(op, s1, base, p1, program, cells) {
                    Some(Ok((s2, p2))) => Some((s2, p2)),
                    _ => None,
                },
                None => None,
            },
            None => None,
        }
    }
}

/// The stack at the first `return` that a body reaches within `n`
/// instructions from `pc`, when every instruction before it only works the
/// stack, the locals of the call and where the call goes next.
pub open spec fn run_to_return(program: Program, cells: Seq<ValueView>, body: usize, base: int, s: Seq<ValueView>, pc: int, n: nat)
    -> Option<Seq<ValueView>>
    decreases n,
{
    if n == 0 {
        None
    } else {
        match code_at(program, body, pc) {
            Some(Op::Return) => Some(s),
            Some(op) => match simple_step(op, s, base, pc, program, cells) {
                Some(Ok((s2, p2))) => run_to_return(program, cells, body, base, s2, p2, (n - 1) as nat),
                _ => None,
            },
            None => None,
        }
    }
}

/// A run that goes `n` instructions goes every shorter number too.
pub proof fn lemma_simple_run_prefix(program: Program, cells: Seq<ValueView>, body: usize, base: int, s: Seq<ValueView>,
    pc: int, n: nat, m: nat)
    requires
        m <= n,
        simple_run(program, cells, body, base, s, pc, n) is Some,
    ensures
        simple_run(program, cells, body, base, s, pc, m) is Some,
    decreases n - m,
{
    if m < n {
        lemma_simple_run_prefix(program, cells, body, base, s, pc, (n - 1) as nat, m);
    }
}

/// Running `a` instructions and then `b` more from where that stopped is
/// running `a + b`: where a run is cut does not change where it goes.
pub proof fn lemma_simple_run_split(program: Program, cells: Seq<ValueView>, body: usize, base: int, s: Seq<ValueView>,
    pc: int, a: nat, b: nat)
    requires
        simple_run(program, cells, body, base, s, pc, a) is Some,
    ensures
        ({
            let (s1, p1) = simple_run(program, cells, body, base, s, pc, a)->0;
            simple_run(program, cells, body, base, s1, p1, b) == simple_run(program, cells, body, base, s, pc, a + b)
        }),
    decreases b,
{
    if b > 0 {
        lemma_simple_run_split(program, cells, body, base, s, pc, a, (b - 1) as nat);
        assert((a + b - 1) as nat == a + (b - 1) as nat);
    }
}

/// A run that reaches a `return` within `n` instructions reaches the same
/// one within any larger number.
pub proof fn lemma_run_to_return_longer(program: Program, cells: Seq<ValueView>, body: usize, base: int,
    s: Seq<ValueView>, pc: int, n: nat, m: nat)
    requires
        run_to_return(program, cells, body, base, s, pc, n) is Some,
        n <= m,
    ensures
        run_to_return(program, cells, body, base, s, pc, m) == run_to_return(program, cells, body, base, s, pc, n),
    decreases n,
{
    match code_at(program, body, pc) {
        Some(Op::Return) => {},
        Some(op) => match simple_step(op, s, base, pc, program, cells) {
            Some(Ok((s2, p2))) => {
                lemma_run_to_return_longer(program, cells, body, base, s2, p2, (n - 1) as nat, (m - 1) as nat);
            },
            _ => {},
        },
        None => {},
    }
}

/// Where a budget cuts a run does not change what it finishes with: a run
/// stopped after `k` instructions and taken up again, with a budget of at
/// least what is left, reaches the same `return` with the same stack as the
/// run that was never stopped.
pub proof fn lemma_cut_run_finishes_alike(program: Program, cells: Seq<ValueView>, body: usize, base: int,
    s: Seq<ValueView>, pc: int, k: nat, n: nat, m: nat)
    requires
        run_to_return(program, cells, body, base, s, pc, n) is Some,
        simple_run(program, cells, body, base, s, pc, k) is Some,
        k <= n,
        n - k <= m,
    ensures
        ({
            let (s1, p1) = simple_run(program, cells, body, base, s, pc, k)->0;
            run_to_return(program, cells, body, base, s1, p1, m) == run_to_return(program, cells, body, base, s, pc, n)
        }),
    decreases k,
{
    let (s1, p1) = simple_run(program, cells, body, base, s, pc, k)->0;
    if k == 0 {
        lemma_run_to_return_longer(program, cells, body, base, s, pc, n, m);
    } else {
        lemma_cut_run_finishes_alike(program, cells, body, base, s, pc, (k - 1) as nat, n, (m + 1) as nat);
        let (s0, p0) = simple_run(program, cells, body, base, s, pc, (k - 1) as nat)->0;
        let op = code_at(program, body, p0)->0;
        assert(simple_step(op, s0, base, p0, program, cells) == Some(Ok::<(Seq<ValueView>, int), Fault>((s1, p1))));
        assert(op != Op::Return);
        assert(run_to_return(program, cells, body, base, s0, p0, (m + 1) as nat)
            == run_to_return(program, cells, body, base, s1, p1, m));
    }
}

/// What one instruction came to.
pub enum TickAction {
    /// Carry on with the next instruction.
    Continue,
    /// The body the machine started in returned, with this value.
    Done(Value),
    /// The task waits for something another task must do.
    Park(WaitSite),
    /// The machine waits for the outside world to do something.
    Outside(Request),
}

/// The number a whole-number length is, as a Vaab `Int`.
fn count_of(n: usize) -> (r: Result<Value, Fault>)
    ensures
        match r {
            Ok(v) => n <= i64::MAX && v == Value::Int(n as i64),
            Err(f) => n > i64::MAX && f == Fault::Confused("a length too large to count"),
        },
{
    if (n as u64) > (i64::MAX as u64) {
        Err(Fault::Confused("a length too large to count"))
    } else {
        Ok(Value::Int(n as i64))
    }
}

/// A float negated: the sign bit flipped, and the minus its text starts
/// with taken off or put on (a `NaN` reads the same either way).
pub fn negate_float(f: &Float) -> (r: Float)
    ensures
        r.bits == f.bits ^ 0x8000_0000_0000_0000u64,
        r.shown@ == (if crate::value::is_nan(f.bits) {
            f.shown@
        } else if f.shown@.len() > 0 && f.shown@[0] == '-' {
            f.shown@.drop_first()
        } else {
            seq!['-'] + f.shown@
        }),
{
    let bits = f.bits ^ 0x8000_0000_0000_0000u64;
    let nan = (f.bits & 0x7ff0_0000_0000_0000u64) == 0x7ff0_0000_0000_0000u64
        && (f.bits & 0x000f_ffff_ffff_ffffu64) != 0;
    let chars = crate::text::chars_of(f.shown.as_str());
    let mut out: Vec<char> = Vec::new();
    if nan {
        return Float { bits, shown: f.shown.clone() };
    }
    if chars.len() > 0 && chars[0] == '-' {
        let mut i: usize = 1;
        while i < chars.len()
            invariant
                1 <= i <= chars@.len(),
                out@ =~= chars@.subrange(1, i as int),
            decreases chars.len() - i,
        {
            out.push(chars[i]);
            i = i + 1;
        }
    } else {
        out.push('-');
        let mut i: usize = 0;
        while i < chars.len()
            invariant
                i <= chars@.len(),
                out@ =~= seq!['-'] + chars@.subrange(0, i as int),
            decreases chars.len() - i,
        {
            out.push(chars[i]);
            i = i + 1;
        }
        assert(chars@.subrange(0, chars@.len() as int) =~= chars@);
    }
    Float { bits, shown: crate::text::from_chars(&out) }
}

/// Whether a float's bits are zero, of either sign.
fn float_is_zero(bits: u64) -> (r: bool)
    ensures
        r == crate::value::is_zero(bits),
{
    bits & 0x7fff_ffff_ffff_ffffu64 == 0
}

/// Which body a call through an ability runs, which only the value can say.
pub open spec fn spec_ability_body(receiver: ValueView, program: Program, ability: u32, slot: u32) -> Result<usize, Fault> {
    match receiver {
        ValueView::Record { layout, .. } => {
            let found: u32 = if (layout as int) < program.layouts@.len()
                && (ability as int) < program.layouts@[layout as int].tables@.len()
                && (slot as int) < program.layouts@[layout as int].tables@[ability as int]@.len() {
                program.layouts@[layout as int].tables@[ability as int]@[slot as int]
            } else {
                0
            };
            if found == 0 {
                Err(Fault::Confused("a type promised an ability and had no function for it"))
            } else {
                Ok(found as usize)
            }
        },
        _ => Err(Fault::Confused("an ability was used on something that does not provide it")),
    }
}

pub fn ability_body(receiver: &Value, program: &Program, ability: u32, slot: u32) -> (r: Result<usize, Fault>)
    ensures
        r == spec_ability_body(receiver@, *program, ability, slot),
{
    match receiver {
        Value::Record(record) => {
            let layout = record.layout as usize;
            let mut found: u32 = 0;
            if layout < program.layouts.len() {
                let tables = &program.layouts[layout].tables;
                if (ability as usize) < tables.len() && (slot as usize) < tables[ability as usize].len() {
                    found = tables[ability as usize][slot as usize];
                }
            }
            if found == 0 {
                Err(Fault::Confused("a type promised an ability and had no function for it"))
            } else {
                Ok(found as usize)
            }
        },
        _ => {
            proof { crate::value::lemma_view_kind(*receiver); }
            Err(Fault::Confused("an ability was used on something that does not provide it"))
        },
    }
}

/// The part of the machine an instruction may not touch unless it says so.
pub open spec fn same_frames(a: Machine, b: Machine) -> bool {
    a.frames_seq() == b.frames_seq()
}

impl Machine {
    /// The text of a value as `print` shows it.
    fn shown(v: &Value, program: &Program, cells: &Vec<Value>) -> (r: String)
        ensures
            r@ == crate::show::shown(v@, *program, views(cells@), cells@.len() as nat),
    {
        show(v, program, cells, cells.len())
    }

    /// Pops a value that must be text, with the fault to give when it is not.
    fn pop_text(&mut self, why: &'static str) -> (r: Result<String, Fault>)
        ensures
            final(self).frames@ == old(self).frames@,
            final(self).awaiting == old(self).awaiting,
            match r {
                Ok(t) => old(self).stack@.len() > 0 && old(self).stack@.last() == Value::Text(t)
                    && final(self).stack@ == old(self).stack@.drop_last(),
                Err(f) => if old(self).stack@.len() == 0 {
                    f == Fault::Confused("the value stack ran dry") && final(self).stack@ == old(self).stack@
                } else {
                    !(old(self).stack@.last() is Text) && f == Fault::Confused(why)
                        && final(self).stack@ == old(self).stack@.drop_last()
                },
            },
    {
        match self.pop()? {
            Value::Text(t) => Ok(t),
            _ => Err(Fault::Confused(why)),
        }
    }

    /// Pops a value that must be a status for a reply, or leaves the stack
    /// alone and gives 200 when the reply names none.
    fn pop_status(&mut self, has_status: bool) -> (r: Result<u16, Fault>)
        ensures
            final(self).frames@ == old(self).frames@,
            final(self).awaiting == old(self).awaiting,
            r matches Ok(s) ==> s > 0,
            !has_status ==> r == Ok::<u16, Fault>(200) && final(self).stack@ == old(self).stack@,
            has_status ==> if old(self).stack@.len() == 0 {
                r == Err::<u16, Fault>(Fault::Confused("the value stack ran dry")) && final(self).stack@ == old(self).stack@
            } else {
                &&& final(self).stack@ == old(self).stack@.drop_last()
                &&& match old(self).stack@.last() {
                    Value::Int(n) => if 0 < n <= 65535 {
                        r == Ok::<u16, Fault>(n as u16)
                    } else {
                        r == Err::<u16, Fault>(Fault::Confused("reply status must be a whole number"))
                    },
                    _ => r == Err::<u16, Fault>(Fault::Confused("reply status must be a whole number")),
                }
            },
    {
        if !has_status {
            return Ok(200);
        }
        match self.pop()? {
            Value::Int(n) => {
                if n > 0 && n <= 65535 {
                    Ok(n as u16)
                } else {
                    Err(Fault::Confused("reply status must be a whole number"))
                }
            },
            _ => Err(Fault::Confused("reply status must be a whole number")),
        }
    }

    /// Parks with the innermost call back on the instruction that must run
    /// again when the task is woken.
    fn park_at(&mut self, pc: usize, site: WaitSite) -> (r: TickAction)
        ensures
            r == TickAction::Park(site),
            final(self).frames@.len() == old(self).frames@.len(),
            final(self).stack@ == old(self).stack@,
            final(self).awaiting == old(self).awaiting,
            final(self).together_group == old(self).together_group,
    {
        if self.frames.len() > 0 {
            let _ = self.jump_to(pc);
        }
        TickAction::Park(site)
    }

    fn jump_to(&mut self, pc: usize) -> (r: bool)
        ensures
            final(self).updating == old(self).updating,
            final(self).frames@.len() == old(self).frames@.len(),
            r == (old(self).frames@.len() > 0),
            r ==> final(self).frames@.last().pc == pc,
            r ==> final(self).frames@.last().body == old(self).frames@.last().body,
            r ==> final(self).frames@.last().base == old(self).frames@.last().base,
            r ==> final(self).frames@.drop_last() == old(self).frames@.drop_last(),
            r ==> final(self).frames@ == old(self).frames@.update(old(self).frames@.len() - 1,
                Frame { pc, ..old(self).frames@.last() }),
            final(self).stack@ == old(self).stack@,
            final(self).awaiting == old(self).awaiting,
            final(self).pending == old(self).pending,
            final(self).together_group == old(self).together_group,
    {
        let n = self.frames.len();
        if n == 0 {
            return false;
        }
        let ghost before = self.frames@;
        let mut frame = self.frames.pop().unwrap();
        frame.pc = pc;
        self.frames.push(frame);
        assert(self.frames@.drop_last() =~= before.drop_last());
        assert(self.frames@ =~= before.update(before.len() - 1, Frame { pc, ..before.last() }));
        true
    }

    /// Adds to the list in a slot.
    fn append(&mut self, base: usize, slot: u32, value: Value) -> (r: Result<(), Fault>)
        ensures
            final(self).frames@ == old(self).frames@,
            final(self).awaiting == old(self).awaiting,
            final(self).pending == old(self).pending,
            final(self).together_group == old(self).together_group,
            final(self).stack@.len() == old(self).stack@.len(),
            final(self).updating == old(self).updating,
            match r {
                Ok(()) => base + slot < old(self).stack@.len()
                    && (old(self).stack@[base + slot] matches Value::List(items)
                    && final(self).stack@[base + slot] matches Value::List(after) && after@ == items@.push(value))
                    && forall|i: int| 0 <= i < old(self).stack@.len() && i != base + slot
                        ==> #[trigger] final(self).stack@[i] == old(self).stack@[i],
                Err(f) => final(self).stack@ == old(self).stack@ && if base + slot < old(self).stack@.len() {
                    !(old(self).stack@[base + slot] is List) && f == Fault::Confused("something that is not a list was added to")
                } else {
                    f == Fault::Confused("a list was added to out of range")
                },
            },
    {
        if base >= self.stack.len() || (slot as usize) >= self.stack.len() - base {
            return Err(Fault::Confused("a list was added to out of range"));
        }
        let at = base + slot as usize;
        let ghost before = self.stack@;
        let held = self.stack.remove(at);
        match held {
            Value::List(mut items) => {
                items.push(value);
                self.stack.insert(at, Value::List(items));
                assert(self.stack@ =~= before.update(at as int, Value::List(items)));
                Ok(())
            },
            other => {
                self.stack.insert(at, other);
                assert(self.stack@ =~= before);
                Err(Fault::Confused("something that is not a list was added to"))
            },
        }
    }
}

} // verus!

verus! {

/// The text of a sequence of values shown one after another, as `print` and
/// text with holes show them.
pub open spec fn shown_all(pieces: Seq<ValueView>, program: Program, cells: Seq<ValueView>) -> Seq<char>
    decreases pieces.len(),
{
    if pieces.len() == 0 {
        Seq::empty()
    } else {
        shown_all(pieces.drop_last(), program, cells)
            + crate::show::shown(pieces.last(), program, cells, cells.len())
    }
}

/// What an instruction that builds or takes apart a map, a text, a record or
/// a record's field does: from the stack and the cells before it to those
/// after it.
pub open spec fn build_effect(
    op: Op,
    s: Seq<ValueView>,
    program: Program,
    cells: Seq<ValueView>,
    s_after: Seq<ValueView>,
    cells_after: Seq<ValueView>,
    r: Result<TickAction, Fault>,
) -> bool {
    let ok = Ok::<TickAction, Fault>(TickAction::Continue);
    let fail = |m: &'static str| Err::<TickAction, Fault>(Fault::Confused(m));
    let n = s.len() as int;
    match op {
        Op::Table(count) => if count > usize::MAX / 2 || 2 * count > n { r == dry::<TickAction>() } else {
            let pairs = s.subrange(n - 2 * count, n);
            r == ok && s_after =~= s.subrange(0, n - 2 * count).push(ValueView::Table(crate::value::table_of(pairs, pairs.len() / 2)))
                && cells_after =~= cells
        },
        Op::Text(count) => if count > n { r == dry::<TickAction>() } else {
            r == ok && s_after =~= s.subrange(0, n - count).push(ValueView::Text(shown_all(s.subrange(n - count, n), program, cells)))
                && cells_after =~= cells
        },
        Op::Record { layout, fields } => if fields > n { r == dry::<TickAction>() } else if layout >= program.layouts@.len() {
            r == fail("a value was built from a type that is not there")
        } else if program.layouts@[layout as int].mutable {
            r == ok && cells_after =~= cells + s.subrange(n - fields, n)
                && s_after =~= s.subrange(0, n - fields).push(ValueView::Record {
                    layout,
                    fields: Seq::empty(),
                    cells: Some(Seq::new(fields as nat, |k: int| (cells.len() + k) as usize)),
                })
        } else {
            r == ok && cells_after =~= cells
                && s_after =~= s.subrange(0, n - fields).push(ValueView::Record { layout, fields: s.subrange(n - fields, n), cells: None })
        },
        Op::Field(index) => if n == 0 { r == dry::<TickAction>() } else {
            match s.last() {
                ValueView::Record { fields, cells: held, .. } => match held {
                    Some(ids) => if index < ids.len() && ids[index as int] < cells.len() {
                        r == ok && s_after =~= s.drop_last().push(cells[ids[index as int] as int]) && cells_after =~= cells
                    } else {
                        r == fail("a field was read out of range")
                    },
                    None => if index < fields.len() {
                        r == ok && s_after =~= s.drop_last().push(fields[index as int]) && cells_after =~= cells
                    } else {
                        r == fail("a field was read out of range")
                    },
                },
                _ => r == fail("a field was read from something with none"),
            }
        },
        Op::SetField(index) => if n < 2 { r == dry::<TickAction>() } else {
            match s.last() {
                ValueView::Record { cells: held, .. } => match held {
                    Some(ids) => if index < ids.len() && ids[index as int] < cells.len() {
                        r == ok && s_after =~= s.subrange(0, n - 2) && cells_after =~= cells.update(ids[index as int] as int, s[n - 2])
                    } else {
                        r == fail("a field was written out of range")
                    },
                    None => r == fail("a field was written out of range"),
                },
                _ => r == fail("a field was written to something with none"),
            }
        },
        Op::Entries => if n == 0 { r == dry::<TickAction>() } else {
            match s.last() {
                ValueView::Table(es) => r == ok && cells_after =~= cells
                    && s_after =~= s.drop_last().push(ValueView::List(
                        Seq::new(es.len(), |i: int| ValueView::Tuple(seq![es[i].0, es[i].1])))),
                _ => r == fail("a map was expected and something else arrived"),
            }
        },
        _ => true,
    }
}

impl Machine {
    /// The instructions that only work the value stack.
    #[verifier::rlimit(100)]
    #[verifier::spinoff_prover]
    fn op_data(&mut self, op: Op, program: &Program, cells: &mut Vec<Value>) -> (r: Result<TickAction, Fault>)
        ensures
            final(self).frames@ == old(self).frames@,
            final(self).awaiting == old(self).awaiting,
            final(self).pending == old(self).pending,
            final(self).together_group == old(self).together_group,
            r matches Ok(a) ==> (a is Continue || a is Outside),
            r matches Ok(TickAction::Outside(_)) ==> old(self).awaiting is None ==> final(self).awaiting is None,
            !(op is Record) && !(op is SetField) ==> final(cells)@ == old(cells)@,
            build_effect(op, views(old(self).stack@), *program, views(old(cells)@), views(final(self).stack@),
                views(final(cells)@), r),
            data_step(op, views(old(self).stack@), *program, views(old(cells)@)) matches Some(outcome) ==> match outcome {
                Ok(s) => r matches Ok(TickAction::Continue) && views(final(self).stack@) == s,
                Err(f) => r == Err::<TickAction, Fault>(f),
            },
            final(self).updating == old(self).updating,
    {
        proof { lemma_views(self.stack@); lemma_views(cells@); }
        match op {
            Op::Constant(index) => {
                if (index as usize) >= program.constants.len() {
                    return Err(Fault::Confused("an instruction named a constant that is not there"));
                }
                let v = copy_value(&program.constants[index as usize]);
                self.push(v);
            },
            Op::Int(n) => self.push(Value::Int(n)),
            Op::Bool(b) => self.push(Value::Bool(b)),
            Op::Nothing => self.push(Value::Nothing),
            Op::Absent => self.push(Value::Maybe(None)),
            Op::Found => {
                let held = self.pop()?;
                self.push(Value::Maybe(Some(Box::new(held))));
            },
            Op::Success => {
                let held = self.pop()?;
                self.push(Value::Success(Box::new(held)));
            },
            Op::Failure => {
                let held = self.pop()?;
                self.push(Value::Failure(Box::new(held)));
            },
            Op::Pop => {
                self.pop()?;
            },
            Op::Duplicate => {
                if self.stack.len() == 0 {
                    return Err(Fault::Confused("the value stack ran dry"));
                }
                let top = copy_value(&self.stack[self.stack.len() - 1]);
                self.push(top);
            },
            Op::Add | Op::Subtract | Op::Multiply | Op::Divide | Op::Remainder => {
                let right = self.pop()?;
                let left = self.pop()?;
                match (left, right) {
                    (Value::Int(l), Value::Int(r)) => {
                        let answer = whole(op, l, r)?;
                        self.push(Value::Int(answer));
                    },
                    (Value::Float(l), Value::Float(r)) => {
                        // A float divided by zero is an error too, rather than
                        // the infinity IEEE would give.
                        let dividing = match op { Op::Divide | Op::Remainder => true, _ => false };
                        if dividing && float_is_zero(r.bits) {
                            let operation = match op { Op::Divide => Operation::Division, _ => Operation::Remainder };
                            return Err(Fault::DividedByZero(operation));
                        }
                        return Ok(TickAction::Outside(Request::FloatArithmetic { op, left: l.bits, right: r.bits }));
                    },
                    _ => return Err(Fault::Confused("arithmetic reached something that is not a number")),
                }
            },
            Op::Negate => {
                let value = self.pop()?;
                match value {
                    Value::Int(n) => {
                        if n == i64::MIN {
                            return Err(Fault::Overflowed(Operation::Negation));
                        }
                        self.push(Value::Int(-n));
                    },
                    Value::Float(f) => {
                        let negated = negate_float(&f);
                        self.push(Value::Float(negated));
                    },
                    _ => return Err(Fault::Confused("`-` reached something that is not a number")),
                }
            },
            Op::Equal | Op::NotEqual => {
                let right = self.pop()?;
                let left = self.pop()?;
                let same = crate::value::equal_value(&left, &right, cells, cells.len());
                let answer = match op { Op::Equal => same, _ => !same };
                self.push(Value::Bool(answer));
            },
            Op::Less | Op::LessOrEqual | Op::Greater | Op::GreaterOrEqual => {
                let right = self.pop()?;
                let left = self.pop()?;
                let answer = ordered(op, &left, &right)?;
                self.push(Value::Bool(answer));
            },
            Op::Not => {
                let value = self.pop()?;
                match value {
                    Value::Bool(b) => self.push(Value::Bool(!b)),
                    _ => return Err(Fault::Confused("`not` reached something that is not a Bool")),
                }
            },
            Op::List(count) => {
                let items = self.take(count as usize)?;
                self.push(Value::List(items));
            },
            Op::Table(count) => return self.build_table(count, program, cells),
            Op::Tuple(count) => {
                let parts = self.take(count as usize)?;
                self.push(Value::Tuple(parts));
            },
            Op::Range => {
                let end = self.pop()?;
                let start = self.pop()?;
                let list = range(&start, &end)?;
                self.push(list);
            },
            Op::Text(count) => return self.build_text(count, program, cells),
            Op::Record { layout, fields } => return self.build_record(layout, fields, program, cells),
            Op::Variant { layout, fields } => {
                let values = self.take(fields as usize)?;
                if (layout as usize) >= program.variants.len() {
                    return Err(Fault::Confused("a variant was built from a choice that is not there"));
                }
                self.push(Value::Variant(Box::new(Variant { layout, fields: values })));
            },
            Op::Field(index) => return self.read_field(index, program, cells),
            Op::SetField(index) => return self.write_field(index, program, cells),
            Op::Index => {
                let position = self.pop()?;
                let target = self.pop()?;
                let item = item_at(&target, &position)?;
                self.push(item);
            },
            Op::Length => {
                let value = self.pop()?;
                let n = length_of(&value)?;
                let v = count_of(n)?;
                self.push(v);
            },
            Op::IsEmpty => {
                let value = self.pop()?;
                let n = length_of(&value)?;
                self.push(Value::Bool(n == 0));
            },
            Op::Entries => return self.list_entries(program, cells),
            Op::IsFound => {
                let value = self.pop()?;
                let b = match value { Value::Maybe(Some(_)) => true, _ => false };
                self.push(Value::Bool(b));
            },
            Op::IsSuccess => {
                let value = self.pop()?;
                let b = match value { Value::Success(_) => true, _ => false };
                self.push(Value::Bool(b));
            },
            Op::IsFailure => {
                let value = self.pop()?;
                let b = match value { Value::Failure(_) => true, _ => false };
                self.push(Value::Bool(b));
            },
            Op::IsVariant(index) => {
                let value = self.pop()?;
                let b = match value {
                    Value::Variant(v) => (v.layout as usize) < program.variants.len()
                        && program.variants[v.layout as usize].index == index,
                    _ => false,
                };
                self.push(Value::Bool(b));
            },
            Op::Unwrap => {
                let value = self.pop()?;
                match value {
                    Value::Maybe(Some(held)) => self.push(*held),
                    Value::Success(held) => self.push(*held),
                    Value::Failure(held) => self.push(*held),
                    _ => return Err(Fault::Confused("there was nothing inside to take out")),
                }
            },
            Op::VariantField(index) => {
                let value = self.pop()?;
                let variant = match value {
                    Value::Variant(v) => v,
                    _ => return Err(Fault::Confused("a variant's part was read from something else")),
                };
                proof { lemma_views(variant.fields@); }
                if (index as usize) >= variant.fields.len() {
                    return Err(Fault::Confused("a variant's part was read out of range"));
                }
                let field = copy_value(&variant.fields[index as usize]);
                self.push(field);
            },
            Op::TupleItem(index) => {
                let value = self.pop()?;
                let parts = match value {
                    Value::Tuple(parts) => parts,
                    _ => return Err(Fault::Confused("part of a group was read from something else")),
                };
                proof { lemma_views(parts@); }
                if (index as usize) >= parts.len() {
                    return Err(Fault::Confused("part of a group was read out of range"));
                }
                let part = copy_value(&parts[index as usize]);
                self.push(part);
            },
            Op::ListLengthIs { length, at_least } => {
                let value = self.pop()?;
                let held = length_of(&value)?;
                let matched = if at_least { held >= length as usize } else { held == length as usize };
                self.push(Value::Bool(matched));
            },
            Op::NotYet(feature) => return Err(Fault::NotYet(feature)),
            Op::NoArm => return Err(Fault::NoArmApplied),
            _ => return Err(Fault::Confused("an instruction reached the wrong part of the machine")),
        }
        Ok(TickAction::Continue)
    }
}

} // verus!

verus! {

/// What an instruction that reads or writes a top-level value, a cell, a
/// captured value, `self` or a list in a slot does: from the stack, the
/// frames, the top-level values and the cells before it to those after it.
pub open spec fn place_effect(
    op: Op,
    base: int,
    s: Seq<ValueView>,
    frames: Seq<Frame>,
    globals: Seq<ValueView>,
    cells: Seq<ValueView>,
    s_after: Seq<ValueView>,
    globals_after: Seq<ValueView>,
    cells_after: Seq<ValueView>,
    r: Result<TickAction, Fault>,
) -> bool {
    let ok = Ok::<TickAction, Fault>(TickAction::Continue);
    let fail = |m: &'static str| Err::<TickAction, Fault>(Fault::Confused(m));
    let n = s.len() as int;
    match op {
        Op::LoadGlobal(g) => if g >= globals.len() {
            r == fail("a top-level value was read before it existed")
        } else {
            r == ok && s_after =~= s.push(globals[g as int]) && globals_after =~= globals && cells_after =~= cells
        },
        Op::StoreGlobal(g) => if n == 0 { r == dry::<TickAction>() } else if g >= globals.len() {
            r == fail("a top-level value was written out of range")
        } else {
            r == ok && s_after =~= s.drop_last() && globals_after =~= globals.update(g as int, s.last()) && cells_after =~= cells
        },
        Op::Box(slot) => if base + slot >= n {
            r == fail("a local was read out of range")
        } else {
            r == ok && cells_after =~= cells.push(s[base + slot])
                && s_after =~= s.update(base + slot, ValueView::Captured(cells.len() as usize))
                && globals_after =~= globals
        },
        Op::LoadCell(slot) => if base + slot >= n {
            r == fail("a local was read out of range")
        } else {
            match s[base + slot] {
                ValueView::Captured(c) => if c >= cells.len() {
                    r == fail("a cell was named that is not there")
                } else {
                    r == ok && s_after =~= s.push(cells[c as int]) && globals_after =~= globals && cells_after =~= cells
                },
                _ => r == fail("a shared local was not in a cell"),
            }
        },
        Op::StoreCell(slot) => if n == 0 { r == dry::<TickAction>() } else if base + slot >= n - 1 {
            r == fail("a local was read out of range")
        } else {
            match s[base + slot] {
                ValueView::Captured(c) => if c >= cells.len() {
                    r == fail("a cell was named that is not there")
                } else {
                    r == ok && s_after =~= s.drop_last() && cells_after =~= cells.update(c as int, s.last())
                        && globals_after =~= globals
                },
                _ => r == fail("a shared local was not in a cell"),
            }
        },
        Op::LoadUpvalue(index) => if frames.len() == 0 {
            r == fail("a captured value was read with no frame")
        } else {
            match frames.last().closure {
                Some(c) => if index < c.captures@.len() {
                    match c.captures@[index as int]@ {
                        ValueView::Captured(k) => if k >= cells.len() {
                            r == fail("a cell was named that is not there")
                        } else {
                            r == ok && s_after =~= s.push(cells[k as int]) && globals_after =~= globals && cells_after =~= cells
                        },
                        _ => r == fail("a captured value was not in a cell"),
                    }
                } else {
                    r == fail("a captured value was read out of range")
                },
                None => r == fail("a captured value was read out of range"),
            }
        },
        Op::StoreUpvalue(index) => if n == 0 { r == dry::<TickAction>() } else if frames.len() == 0 {
            r == fail("a captured value was read with no frame")
        } else {
            match frames.last().closure {
                Some(c) => if index < c.captures@.len() {
                    match c.captures@[index as int]@ {
                        ValueView::Captured(k) => if k >= cells.len() {
                            r == fail("a cell was named that is not there")
                        } else {
                            r == ok && s_after =~= s.drop_last() && cells_after =~= cells.update(k as int, s.last())
                                && globals_after =~= globals
                        },
                        _ => r == fail("a captured value was not in a cell"),
                    }
                } else {
                    r == fail("a captured value was read out of range")
                },
                None => r == fail("a captured value was read out of range"),
            }
        },
        Op::LoadSelf => if frames.len() == 0 {
            r == fail("`self` was read with no frame")
        } else {
            r == ok && s_after =~= s.push(frames.last().receiver@) && globals_after =~= globals && cells_after =~= cells
        },
        Op::Append(slot) => if n == 0 { r == dry::<TickAction>() } else if base + slot >= n - 1 {
            r == fail("a list was added to out of range")
        } else {
            match s[base + slot] {
                ValueView::List(items) => r == ok
                    && s_after =~= s.drop_last().update(base + slot, ValueView::List(items.push(s.last())))
                    && globals_after =~= globals && cells_after =~= cells,
                _ => r == fail("something that is not a list was added to"),
            }
        },
        _ => true,
    }
}

impl Machine {
    /// The instructions that read and write where values live: top-level
    /// values, locals, cells, captures and `self`.
    fn op_places(&mut self, op: Op, base: usize, globals: &mut Vec<Value>, cells: &mut Vec<Value>) -> (r: Result<TickAction, Fault>)
        ensures
            final(self).frames@ == old(self).frames@,
            final(self).awaiting == old(self).awaiting,
            final(self).pending == old(self).pending,
            final(self).together_group == old(self).together_group,
            r matches Ok(a) ==> a is Continue,
            final(globals)@.len() == old(globals)@.len(),
            final(self).updating == old(self).updating,
            (op is LoadLocal || op is StoreLocal) ==> final(cells)@ == old(cells)@ && final(globals)@ == old(globals)@
                && final(self).frames == old(self).frames,
            place_effect(op, base as int, views(old(self).stack@), old(self).frames@, views(old(globals)@), views(old(cells)@),
                views(final(self).stack@), views(final(globals)@), views(final(cells)@), r),
            (op is LoadLocal || op is StoreLocal) ==> (place_step(op, views(old(self).stack@), base as int, 0) matches Some(outcome)
                && match outcome {
                    Ok((s, _)) => r matches Ok(TickAction::Continue) && views(final(self).stack@) == s,
                    Err(f) => r == Err::<TickAction, Fault>(f),
                }),
    {
        proof { lemma_views(self.stack@); lemma_views_subrange(self.stack@); lemma_views(globals@); lemma_views(cells@); }
        match op {
            Op::LoadGlobal(slot) => {
                if (slot as usize) >= globals.len() {
                    return Err(Fault::Confused("a top-level value was read before it existed"));
                }
                let v = copy_value(&globals[slot as usize]);
                self.push(v);
            },
            Op::StoreGlobal(slot) => {
                let value = self.pop()?;
                if (slot as usize) >= globals.len() {
                    return Err(Fault::Confused("a top-level value was written out of range"));
                }
                globals.set(slot as usize, value);
            },
            Op::LoadLocal(slot) => {
                let value = self.slot(base, slot)?;
                self.push(value);
            },
            Op::StoreLocal(slot) => {
                let value = self.pop()?;
                proof { lemma_views_subrange(self.stack@); }
                self.set_slot(base, slot, value)?;
            },
            Op::Box(slot) => {
                let value = self.slot(base, slot)?;
                let cell = cells.len();
                cells.push(value);
                self.set_slot(base, slot, Value::Captured(cell))?;
            },
            Op::LoadCell(slot) => {
                let held = self.slot(base, slot)?;
                match held {
                    Value::Captured(c) => {
                        if c >= cells.len() {
                            return Err(Fault::Confused("a cell was named that is not there"));
                        }
                        let v = copy_value(&cells[c]);
                        self.push(v);
                    },
                    _ => return Err(Fault::Confused("a shared local was not in a cell")),
                }
            },
            Op::StoreCell(slot) => {
                let value = self.pop()?;
                let held = self.slot(base, slot)?;
                match held {
                    Value::Captured(c) => {
                        if c >= cells.len() {
                            return Err(Fault::Confused("a cell was named that is not there"));
                        }
                        cells.set(c, value);
                    },
                    _ => return Err(Fault::Confused("a shared local was not in a cell")),
                }
            },
            Op::LoadUpvalue(index) => {
                let held = self.upvalue(index)?;
                match held {
                    Value::Captured(c) => {
                        if c >= cells.len() {
                            return Err(Fault::Confused("a cell was named that is not there"));
                        }
                        let v = copy_value(&cells[c]);
                        self.push(v);
                    },
                    _ => return Err(Fault::Confused("a captured value was not in a cell")),
                }
            },
            Op::StoreUpvalue(index) => {
                let value = self.pop()?;
                let held = self.upvalue(index)?;
                match held {
                    Value::Captured(c) => {
                        if c >= cells.len() {
                            return Err(Fault::Confused("a cell was named that is not there"));
                        }
                        cells.set(c, value);
                    },
                    _ => return Err(Fault::Confused("a captured value was not in a cell")),
                }
            },
            Op::LoadSelf => {
                if self.frames.len() == 0 {
                    return Err(Fault::Confused("`self` was read with no frame"));
                }
                let receiver = copy_value(&self.frames[self.frames.len() - 1].receiver);
                self.push(receiver);
            },
            Op::Append(slot) => {
                let value = self.pop()?;
                let ghost mid = self.stack@;
                let ghost v = value;
                self.append(base, slot, value)?;
                proof {
                    let at = base + slot;
                    lemma_views(mid);
                    lemma_views(self.stack@);
                    match mid[at as int] {
                        Value::List(items) => {
                            crate::value::lemma_views_push(items@, v);
                            assert(views(self.stack@) =~= views(mid).update(at as int, ValueView::List(views(items@).push(v@))));
                        },
                        _ => {},
                    }
                }
            },
            _ => return Err(Fault::Confused("an instruction reached the wrong part of the machine")),
        }
        proof { lemma_views(self.stack@); lemma_views(globals@); lemma_views(cells@); }
        Ok(TickAction::Continue)
    }

    /// Jumps, and the return from a call.
    fn op_control(&mut self, op: Op) -> (r: Result<TickAction, Fault>)
        ensures
            final(self).frames@.len() <= old(self).frames@.len(),
            final(self).awaiting == old(self).awaiting,
            final(self).pending == old(self).pending,
            r matches Ok(TickAction::Done(_)) ==> final(self).frames@.len() == 0,
            r matches Ok(a) ==> (a is Continue || a is Done),
            final(self).updating == old(self).updating,
            op is Return ==> return_step(old(self).stack@, old(self).frames@, final(self).stack@, final(self).frames@, r),
            old(self).frames@.len() > 0 && (op is Jump || op is JumpIfFalse || op is JumpIfTrue) ==>
                (place_step(op, views(old(self).stack@), 0, old(self).frames@.last().pc as int - 1) matches Some(outcome)
                && match outcome {
                    Ok((s, next)) => r matches Ok(TickAction::Continue) && views(final(self).stack@) == s
                        && final(self).frames@.len() == old(self).frames@.len()
                        && final(self).frames@.last().pc == next
                        && final(self).frames@.last().body == old(self).frames@.last().body
                        && final(self).frames@.last().base == old(self).frames@.last().base
                        && final(self).frames@.drop_last() == old(self).frames@.drop_last(),
                    Err(f) => r == Err::<TickAction, Fault>(f),
                }),
    {
        match op {
            Op::Jump(target) => {
                self.jump(target)?;
            },
            Op::JumpIfFalse(target) => {
                let condition = self.pop()?;
                if !truth(&condition)? {
                    self.jump(target)?;
                }
            },
            Op::JumpIfTrue(target) => {
                let condition = self.pop()?;
                if truth(&condition)? {
                    self.jump(target)?;
                }
            },
            Op::Return => {
                let value = self.pop()?;
                let ghost popped = self.stack@;
                let frame = match self.frames.pop() {
                    Some(frame) => frame,
                    None => return Err(Fault::Confused("a return with no frame to return from")),
                };
                self.stack.truncate(frame.base);
                proof {
                    if (frame.base as int) < popped.len() {
                        assert(self.stack@ =~= old(self).stack@.subrange(0, frame.base as int));
                    } else {
                        assert(self.stack@ =~= old(self).stack@.drop_last());
                    }
                }
                if self.frames.len() == 0 {
                    return Ok(TickAction::Done(value));
                }
                self.push(value);
            },
            _ => return Err(Fault::Confused("an instruction reached the wrong part of the machine")),
        }
        Ok(TickAction::Continue)
    }
}

} // verus!

verus! {

/// What a builtin called with `arity` arguments on the stack `s` does:
/// the stack it leaves, what becomes of the output, and the outcome.
pub open spec fn applied(builtin: Builtin, arity: usize, s: Seq<ValueView>, after: Seq<ValueView>, program: Program,
    cells: Seq<Value>, out: Output, out_after: Output, r: Result<TickAction, Fault>) -> bool
{
    let n = s.len() as int;
    let args = s.subrange(n - arity, n);
    let rest = s.subrange(0, n - arity);
    if arity > n {
        r == Err::<TickAction, Fault>(Fault::Confused("the value stack ran dry"))
    } else if builtin == Builtin::Print {
        if arity == 0 {
            r == Err::<TickAction, Fault>(Fault::Confused("`print` was given nothing to show"))
        } else {
            let text = crate::show::shown(args[0], program, views(cells), cells.len() as nat);
            match out {
                Output::Collected(lines) => r matches Ok(TickAction::Continue)
                    && after == rest.push(ValueView::Nothing)
                    && (out_after matches Output::Collected(more)
                        && more@.len() == lines@.len() + 1 && more@.drop_last() == lines@ && more@.last()@ == text),
                Output::Terminal => r matches Ok(TickAction::Outside(Request::Print { text: t })) && t@ == text,
            }
        }
    } else {
        match crate::builtin::spec_apply(builtin, args, program, views(cells)) {
            Err(f) => r == Err::<TickAction, Fault>(f),
            Ok(AppliedView::Done(v)) => r matches Ok(TickAction::Continue) && after == rest.push(v),
            Ok(AppliedView::ToFloat(k)) => r matches Ok(TickAction::Outside(Request::ToFloat { number })) && number == k,
            Ok(AppliedView::Round(b)) => r matches Ok(TickAction::Outside(Request::Round { bits })) && bits == b,
        }
    }
}

/// What entering a body does to the stack and the calls, or the fault
/// when it cannot.
pub open spec fn enters(stack: Seq<Value>, frames: Seq<Frame>, stack_after: Seq<Value>, frames_after: Seq<Frame>,
    program: Program, body: usize, arity: usize, receiver: Value, closure: Option<crate::value::Closure>, r: Result<(), Fault>) -> bool
{
    match r {
        Ok(()) => {
            let base = stack.len() - arity;
            let slots = program.bodies@[body as int].slots;
            let size = if slots > arity { slots } else { arity };
            &&& frames.len() < MOST_CALLS
            &&& body < program.bodies@.len()
            &&& arity <= stack.len()
            &&& stack_after.len() == base + size
            &&& stack_after.subrange(0, stack.len() as int) == stack
            &&& forall|i: int| stack.len() <= i < stack_after.len() ==> #[trigger] stack_after[i] == Value::Nothing
            &&& frames_after == frames.push(Frame { body, pc: 0, base: base as usize, receiver, closure })
        },
        Err(f) => stack_after == stack && frames_after == frames
            && if frames.len() >= MOST_CALLS {
                f == Fault::TooManyCalls { depth: frames.len() as usize }
            } else if body >= program.bodies@.len() {
                f == Fault::Confused("a call named a body that is not there")
            } else {
                arity > stack.len() && f == Fault::Confused("a call was made with too few arguments on the stack")
            },
    }
}

/// Whether a call went on (`Ok(())`) or stopped with a fault.
pub open spec fn went_on(r: Result<TickAction, Fault>) -> Result<(), Fault> {
    match r {
        Ok(_) => Ok(()),
        Err(f) => Err(f),
    }
}

/// What a call of a body through the value `callee`, removed from below its
/// arguments, does.
pub open spec fn calls_into(s0: Seq<Value>, frames: Seq<Frame>, after: Seq<Value>, frames_after: Seq<Frame>, program: Program,
    body: usize, arity: usize, receiver: Value, closure: Option<crate::value::Closure>, r: Result<TickAction, Fault>) -> bool
{
    (r is Ok ==> r == Ok::<TickAction, Fault>(TickAction::Continue))
        && enters(s0, frames, after, frames_after, program, body, arity, receiver, closure, went_on(r))
}

/// What a call instruction does: from the stack `s` and the frames (the
/// caller's already past the call), to the stack and frames after it, the
/// output it leaves and what the step comes to.
pub open spec fn call_effect(
    op: Op,
    s: Seq<Value>,
    frames: Seq<Frame>,
    stack_after: Seq<Value>,
    frames_after: Seq<Frame>,
    program: Program,
    cells: Seq<Value>,
    output_before: Output,
    output_after: Output,
    r: Result<TickAction, Fault>,
) -> bool {
    let n = s.len() as int;
    let nothing_to_call = Err::<TickAction, Fault>(Fault::Confused("a call had nothing to call"));
    match op {
        Op::Call(arity) => if arity >= n { r == nothing_to_call } else {
            let at = n - arity - 1;
            match s[at] {
                Value::Function(c) => calls_into(s.remove(at), frames, stack_after, frames_after,
                    program, c.body as usize, arity as usize, Value::Nothing, Some(*c), r),
                Value::Builtin(b) => applied(b, arity as usize, views(s.remove(at)), views(stack_after), program,
                    cells, output_before, output_after, r),
                _ => r == Err::<TickAction, Fault>(Fault::Confused("a call reached something that is not a function")),
            }
        },
        Op::CallMethod { body, arity } => if arity >= n { r == nothing_to_call } else {
            let at = n - arity - 1;
            calls_into(s.remove(at), frames, stack_after, frames_after,
                program, body as usize, arity as usize, s[at], None, r)
        },
        Op::CallAbility { ability, slot, arity } => if arity >= n { r == nothing_to_call } else {
            let at = n - arity - 1;
            match spec_ability_body(s[at]@, program, ability, slot) {
                Ok(body) => calls_into(s.remove(at), frames, stack_after, frames_after,
                    program, body, arity as usize, s[at], None, r),
                Err(f) => r == Err::<TickAction, Fault>(f),
            }
        },
        Op::Builtin(b) => applied(b, crate::builtin::spec_arity(b), views(s), views(stack_after), program,
            cells, output_before, output_after, r),
        _ => true,
    }
}

impl Machine {
    /// Runs a builtin on the top `arity` values.
    fn apply(&mut self, builtin: Builtin, arity: usize, program: &Program, cells: &Vec<Value>, output: &mut Output) -> (r: Result<TickAction, Fault>)
        ensures
            final(self).frames@ == old(self).frames@,
            final(self).awaiting == old(self).awaiting,
            final(self).pending == old(self).pending,
            final(self).together_group == old(self).together_group,
            r matches Ok(a) ==> (a is Continue || a is Outside),
            applied(builtin, arity, views(old(self).stack@), views(final(self).stack@), *program, cells@, *old(output), *final(output), r),
    {
        proof { lemma_views(self.stack@); }
        let arguments = self.take(arity)?;
        if builtin == Builtin::Print {
            if arguments.len() == 0 {
                return Err(Fault::Confused("`print` was given nothing to show"));
            }
            let text = show(&arguments[0], program, cells, cells.len());
            proof { lemma_views(arguments@); }
            match output {
                Output::Collected(lines) => {
                    let ghost before = lines@;
                    lines.push(text);
                    assert(lines@.drop_last() =~= before);
                    self.push(Value::Nothing);
                    return Ok(TickAction::Continue);
                },
                Output::Terminal => return Ok(TickAction::Outside(Request::Print { text })),
            }
        }
        match builtin.apply(&arguments, program, cells)? {
            Applied::Done(v) => {
                self.push(v);
                Ok(TickAction::Continue)
            },
            Applied::ToFloat(n) => Ok(TickAction::Outside(Request::ToFloat { number: n })),
            Applied::Round(bits) => Ok(TickAction::Outside(Request::Round { bits })),
        }
    }

    /// Calls, and making function values.
    fn op_call(&mut self, op: Op, base: usize, world: &mut World) -> (r: Result<TickAction, Fault>)
        ensures
            final(self).frames@.len() <= old(self).frames@.len() + 1,
            old(self).frames@.len() <= MOST_CALLS ==> final(self).frames@.len() <= MOST_CALLS,
            final(self).awaiting == old(self).awaiting,
            final(self).pending == old(self).pending,
            r matches Ok(a) ==> (a is Continue || a is Outside),
            final(world).program == old(world).program,
            ({
                let s = old(self).stack@;
                let n = s.len() as int;
                let program = old(world).program;
                match op {
                    Op::Call(_) | Op::CallMethod { .. } | Op::CallAbility { .. } | Op::Builtin(_) =>
                        call_effect(op, s, old(self).frames@, final(self).stack@, final(self).frames@, program,
                            old(world).cells@, old(world).output, final(world).output, r),
                    Op::MakeFunction(body) => match crate::machine::function_made(*old(self), program, body as usize, base, old(world).next_identity) {
                        Ok(v) => r == Ok::<TickAction, Fault>(TickAction::Continue) && views(final(self).stack@) == views(s).push(v)
                            && final(world).next_identity == (if old(world).next_identity < usize::MAX { old(world).next_identity + 1 } else { 0 }),
                        Err(f) => r == Err::<TickAction, Fault>(f),
                    },
                    _ => r == Err::<TickAction, Fault>(Fault::Confused("an instruction reached the wrong part of the machine")),
                }
            }),
    {
        proof { lemma_views(self.stack@); }
        let program = &world.program;
        match op {
            Op::Call(arity) => {
                let callee = self.lift(arity as usize)?;
                match callee {
                    Value::Function(closure) => {
                        let body = closure.body as usize;
                        self.enter(program, body, arity as usize, Value::Nothing, Some(*closure))?;
                    },
                    Value::Builtin(builtin) => {
                        return self.apply(builtin, arity as usize, program, &world.cells, &mut world.output);
                    },
                    _ => return Err(Fault::Confused("a call reached something that is not a function")),
                }
            },
            Op::CallMethod { body, arity } => {
                let receiver = self.lift(arity as usize)?;
                self.enter(program, body as usize, arity as usize, receiver, None)?;
            },
            Op::CallAbility { ability, slot, arity } => {
                let receiver = self.lift(arity as usize)?;
                let body = ability_body(&receiver, program, ability, slot)?;
                self.enter(program, body, arity as usize, receiver, None)?;
            },
            Op::Builtin(builtin) => {
                let arity = builtin.arity();
                return self.apply(builtin, arity, program, &world.cells, &mut world.output);
            },
            Op::MakeFunction(body) => {
                let value = self.make_function(program, body as usize, base, world.next_identity)?;
                world.next_identity = world.next_identity.wrapping_add(1);
                self.push(value);
            },
            _ => return Err(Fault::Confused("an instruction reached the wrong part of the machine")),
        }
        Ok(TickAction::Continue)
    }
}

} // verus!

verus! {

/// How many of a `select`'s arms receive.
fn receive_arms(arms: &Vec<SelectArm>) -> (r: usize)
    ensures
        r <= arms@.len(),
        r == crate::concurrency::receives_before(arms@, arms@.len() as int),
{
    let mut count: usize = 0;
    let mut i: usize = 0;
    while i < arms.len()
        invariant
            i <= arms@.len(),
            count <= i,
            count == crate::concurrency::receives_before(arms@, i as int),
        decreases arms.len() - i,
    {
        match arms[i] {
            SelectArm::Receive { .. } => count = count + 1,
            SelectArm::Timeout { .. } => {},
        }
        i = i + 1;
    }
    count
}

/// What a `select` instruction comes to, as far as it depends on the
/// descriptor: one that is not there is an error, and a task that parks
/// parks on that `select`.
pub open spec fn select_effect(index: u32, program: Program, r: Result<TickAction, Fault>) -> bool {
    &&& (index as int) >= program.selects@.len()
        ==> r == Err::<TickAction, Fault>(Fault::Confused("a select named a descriptor that is not there"))
    &&& r matches Ok(TickAction::Park(site)) ==> (site matches WaitSite::Select { descriptor, .. } && descriptor == index as usize)
}

/// What a task or channel instruction does: from the stack, the cells and
/// the host before it to those after it, and what the step comes to.
#[verifier::inline]
pub open spec fn task_effect(
    op: Op,
    stack: Seq<Value>,
    stack_after: Seq<Value>,
    pending_after: Option<Pending>,
    together_before: Option<usize>,
    together_after: Option<usize>,
    cells: Seq<Value>,
    cells_after: Seq<Value>,
    host: Host,
    host_after: Host,
    r: Result<TickAction, Fault>,
) -> bool {
    let s = views(stack);
    let dry = Err::<TickAction, Fault>(Fault::Confused("the value stack ran dry"));
    match op {
        Op::SharedNew => if s.len() == 0 { r == dry } else {
            r == Ok::<TickAction, Fault>(TickAction::Continue)
                && views(cells_after) =~= views(cells).push(s.last())
                && views(stack_after) =~= s.drop_last().push(ValueView::Shared(cells.len() as usize))
        },
        Op::SharedRead => if s.len() == 0 { r == dry } else {
            match s.last() {
                ValueView::Shared(c) => if c < cells.len() {
                    r == Ok::<TickAction, Fault>(TickAction::Continue)
                        && views(stack_after) =~= s.drop_last().push(cells[c as int]@)
                } else {
                    r == Err::<TickAction, Fault>(Fault::Confused("a cell was named that is not there"))
                },
                _ => r == Err::<TickAction, Fault>(Fault::Confused("`.value` reached something that is not shared")),
            }
        },
        Op::BeginTogether => r == Ok::<TickAction, Fault>(TickAction::Continue)
            && together_after == Some(host.together_groups@.len() as usize)
            && stack_after == stack,
        Op::ChannelNew => if s.len() == 0 { r == dry } else {
            match stack.last() {
                Value::Int(n) => if host.channels@.len() < u32::MAX {
                    &&& r == Ok::<TickAction, Fault>(TickAction::Continue)
                    &&& views(stack_after) =~= s.drop_last().push(ValueView::Channel(host.channels@.len() as u32))
                    &&& host_after.channels@.len() == host.channels@.len() + 1
                    &&& host_after.channels@.drop_last() =~= host.channels@
                    &&& host_after.channels@.last().capacity == (if n < 0 || n > usize::MAX { 0 } else { n as usize })
                    &&& host_after.channels@.last().buffer@.len() == 0
                    &&& !host_after.channels@.last().closed
                } else {
                    r == Err::<TickAction, Fault>(Fault::Confused("no more channels can be opened"))
                },
                _ => r == Err::<TickAction, Fault>(Fault::Confused("a channel size was not a whole number")),
            }
        },
        Op::Close => if s.len() == 0 { r == dry } else {
            match stack.last() {
                Value::Channel(c) => if c < host.channels@.len() {
                    &&& r == Ok::<TickAction, Fault>(TickAction::Continue)
                    &&& views(stack_after) =~= s.drop_last()
                    &&& host_after.channels@[c as int] == (ChannelState { closed: true, ..host.channels@[c as int] })
                    &&& channels_unchanged_but(host.channels@, host_after.channels@, c as int)
                } else {
                    r == Err::<TickAction, Fault>(Fault::Confused("a close named a channel that is not there"))
                },
                _ => r == Err::<TickAction, Fault>(Fault::Confused("a close reached something that is not a channel")),
            }
        },
        Op::Send => if s.len() < 2 { r == dry } else {
            match stack.last() {
                Value::Channel(c) => if c >= host.channels@.len() {
                    r == Err::<TickAction, Fault>(Fault::Confused("a send named a channel that is not there"))
                } else if host.channels@[c as int].closed {
                    r == Err::<TickAction, Fault>(Fault::Confused("a send reached a channel that is closed"))
                } else if host.channels@[c as int].recv_waiters@.len() > 0
                    || host.channels@[c as int].buffer@.len() < host.channels@[c as int].capacity {
                    &&& r == Ok::<TickAction, Fault>(TickAction::Continue)
                    &&& views(stack_after) =~= s.drop_last().drop_last()
                    &&& host.channels@[c as int].recv_waiters@.len() == 0
                        ==> host_after.channels@[c as int].buffer@ =~= host.channels@[c as int].buffer@.push(stack[stack.len() - 2])
                } else {
                    &&& r matches Ok(TickAction::Park(WaitSite::Send { channel, .. })) && channel == c
                    &&& pending_after matches Some(Pending::Send { channel, .. }) && channel == c
                    &&& host_after.channels@[c as int].rendezvous_sends@.len() == host.channels@[c as int].rendezvous_sends@.len() + 1
                },
                _ => r == Err::<TickAction, Fault>(Fault::Confused("a send reached something that is not a channel")),
            }
        },
        Op::Receive => if s.len() == 0 {
            r == Err::<TickAction, Fault>(Fault::Confused("a receive was reached with nothing on the stack"))
        } else {
            match stack.last() {
                Value::Channel(c) => if c >= host.channels@.len() {
                    r == Err::<TickAction, Fault>(Fault::Confused("a receive named a channel that is not there"))
                } else {
                    match crate::concurrency::next_received(host.channels@[c as int], host.current) {
                        Some(v) => r == Ok::<TickAction, Fault>(TickAction::Continue)
                            && views(stack_after) =~= s.drop_last().push(v),
                        None => r matches Ok(TickAction::Park(WaitSite::Receive { channel, .. })) && channel == c,
                    }
                },
                _ => r == Err::<TickAction, Fault>(Fault::Confused("a receive reached something that is not a channel")),
            }
        },
        Op::TaskWait => if s.len() == 0 {
            r == Err::<TickAction, Fault>(Fault::Confused("a wait was reached with nothing on the stack"))
        } else {
            match s.last() {
                ValueView::Task(t) => if t >= host.tasks@.len() {
                    r == Err::<TickAction, Fault>(Fault::Confused("a wait named a task that is not there"))
                } else if host.tasks@[t as int].cancelled {
                    r == Err::<TickAction, Fault>(Fault::Confused("a wait reached a task that was cancelled"))
                } else {
                    match host.tasks@[t as int].outcome {
                        Some(Ok(v)) => r == Ok::<TickAction, Fault>(TickAction::Continue)
                            && views(stack_after) =~= s.drop_last().push(v@),
                        Some(Err(e)) => r matches Err(f) && crate::error::same_fault(f, e.fault),
                        None => r matches Ok(TickAction::Park(WaitSite::WaitTask { task, .. })) && task == t,
                    }
                },
                _ => r == Err::<TickAction, Fault>(Fault::Confused("a wait reached something that is not a task")),
            }
        },
        Op::SharedUpdate => if s.len() < 2 { r == dry } else {
            match s[s.len() - 2] {
                ValueView::Shared(c) => match s.last() {
                    ValueView::Function { .. } => if c >= cells.len() {
                        r == Err::<TickAction, Fault>(Fault::Confused("a cell was named that is not there"))
                    } else {
                        r is Ok ==> r == Ok::<TickAction, Fault>(TickAction::Continue)
                            && views(stack_after) =~= s.drop_last().drop_last() && cells_after =~= cells
                    },
                    _ => r == Err::<TickAction, Fault>(Fault::Confused("`.update` was not given a function")),
                },
                _ => r == Err::<TickAction, Fault>(Fault::Confused("`.update` reached something that is not shared")),
            }
        },
        Op::EndTogether => {
            let g = match together_before { Some(g) => g, None => 0 };
            &&& together_after is None
            &&& if g >= host.together_groups@.len() {
                r == Err::<TickAction, Fault>(Fault::Confused("a together named a group that is not there"))
            } else {
                let entry = host.together_groups@[g as int];
                match entry.failed {
                    Some(e) => r matches Err(f) && crate::error::same_fault(f, e.fault),
                    None => if crate::concurrency::group_settled(entry.tasks@, host.tasks@) {
                        r == Ok::<TickAction, Fault>(TickAction::Continue) && views(stack_after) =~= s
                    } else {
                        r matches Ok(TickAction::Park(WaitSite::Together { group })) && group == g
                    },
                }
            }
        },
        Op::Start(_) => r is Ok ==> r == Ok::<TickAction, Fault>(TickAction::Continue)
            && views(stack_after) =~= s.push(ValueView::Task(host.tasks@.len() as usize))
            && host_after.tasks@.len() == host.tasks@.len() + 1,
        _ => true,
    }
}

impl Machine {
    /// Runs a `select` against the host, with the channels its receive arms
    /// read from.
    pub(crate) fn run_select(&mut self, descriptor: usize, channels: Vec<Value>, resume_pc: usize, span: Span, program: &Program, host: &mut Host, now: u64) -> (r: Result<TickAction, Fault>)
        ensures
            final(host).current == old(host).current,
            final(self).frames@.len() == old(self).frames@.len(),
            final(self).awaiting == old(self).awaiting,
            final(self).updating == old(self).updating,
            r matches Ok(a) ==> (a is Continue || a is Park),
            r is Err <==> descriptor >= program.selects@.len(),
            r is Err ==> r == Err::<TickAction, Fault>(Fault::Confused("a select named a descriptor that is not there"))
                && *final(self) == *old(self),
            r matches Ok(TickAction::Park(site)) ==> (site matches WaitSite::Select { descriptor: w, .. } && w == descriptor)
                && (final(self).pending matches Some(Pending::Select { descriptor: d, .. }) && d == descriptor),
            r matches Ok(TickAction::Continue) ==> final(self).pending is None,
    {
        if descriptor >= program.selects.len() {
            return Err(Fault::Confused("a select named a descriptor that is not there"));
        }
        let meta = &program.selects[descriptor];
        let task = host.current();
        match host.try_select(task, meta, &channels, resume_pc, now) {
            SelectStep::Arm { arm, value } => {
                self.pending = None;
                if arm < meta.arms.len() {
                    match meta.arms[arm] {
                        SelectArm::Receive { body } => {
                            match value {
                                Some(held) => self.push(Value::Maybe(Some(Box::new(held)))),
                                None => self.push(Value::Maybe(None)),
                            }
                            let _ = self.jump_to(body as usize);
                        },
                        SelectArm::Timeout { body, .. } => {
                            let _ = self.jump_to(body as usize);
                        },
                    }
                }
                Ok(TickAction::Continue)
            },
            SelectStep::Otherwise => {
                self.pending = None;
                match meta.otherwise {
                    Some(target) => { let _ = self.jump_to(target as usize); },
                    None => {},
                }
                Ok(TickAction::Continue)
            },
            SelectStep::Park { resume_pc } => {
                self.pending = Some(Pending::Select { descriptor, channels, resume_pc, span });
                Ok(TickAction::Park(WaitSite::Select { descriptor, resume_pc }))
            },
        }
    }

    /// Channels, tasks, `shared` and `together`.
    fn op_tasks(&mut self, op: Op, pc: usize, base: usize, span: Span, world: &mut World, host: &mut Host, now: u64) -> (r: Result<TickAction, Fault>)
        ensures
            final(host).current == old(host).current,
            final(self).frames@.len() == old(self).frames@.len(),
            final(self).awaiting == old(self).awaiting,
            r matches Ok(a) ==> (a is Continue || a is Park),
            final(world).program == old(world).program,
            task_effect(op, old(self).stack@, final(self).stack@, final(self).pending, old(self).together_group, final(self).together_group,
                old(world).cells@, final(world).cells@, *old(host), *final(host), r),
            op matches Op::Select(index) ==> select_effect(index, old(world).program, r),
    {
        proof { lemma_views(self.stack@); lemma_views(world.cells@); }
        let program = &world.program;
        match op {
            Op::ChannelNew => {
                let capacity = self.pop()?;
                let capacity = match capacity {
                    Value::Int(n) => n,
                    _ => return Err(Fault::Confused("a channel size was not a whole number")),
                };
                let channel = host.channel_new(capacity)?;
                self.push(channel);
            },
            Op::SharedNew => {
                let value = self.pop()?;
                let cell = world.cells.len();
                proof { crate::value::lemma_views_push(world.cells@, value); }
                world.cells.push(value);
                self.push(Value::Shared(cell));
            },
            Op::Send => {
                let channel_value = self.pop()?;
                let value = self.pop()?;
                let channel = match Host::channel_id(&channel_value) {
                    Some(c) => c,
                    None => return Err(Fault::Confused("a send reached something that is not a channel")),
                };
                let kept = copy_value(&value);
                match host.send(channel, value, span) {
                    OpResult::Done => {},
                    OpResult::Park(site) => {
                        self.pending = Some(Pending::Send { channel, value: kept, span });
                        return Ok(TickAction::Park(site));
                    },
                    OpResult::Stop(fault) => return Err(fault),
                    _ => return Err(Fault::Confused("a send named an impossible outcome")),
                }
            },
            Op::Receive => {
                if self.stack.len() == 0 {
                    return Err(Fault::Confused("a receive was reached with nothing on the stack"));
                }
                let channel = match Host::channel_id(&self.stack[self.stack.len() - 1]) {
                    Some(c) => c,
                    None => return Err(Fault::Confused("a receive reached something that is not a channel")),
                };
                match host.receive(channel, span) {
                    OpResult::Ready(v) => {
                        self.pop()?;
                        self.push(v);
                    },
                    OpResult::Park(site) => return Ok(self.park_at(pc, site)),
                    OpResult::Stop(fault) => return Err(fault),
                    _ => return Err(Fault::Confused("a receive named an impossible outcome")),
                }
            },
            Op::Close => {
                let channel_value = self.pop()?;
                let channel = match Host::channel_id(&channel_value) {
                    Some(c) => c,
                    None => return Err(Fault::Confused("a close reached something that is not a channel")),
                };
                match host.close(channel) {
                    OpResult::Done => {},
                    OpResult::Stop(fault) => return Err(fault),
                    _ => return Err(Fault::Confused("a close named an impossible outcome")),
                }
            },
            Op::Start(body) => {
                let function = self.make_function(program, body as usize, base, world.next_identity)?;
                world.next_identity = world.next_identity.wrapping_add(1);
                match host.spawn(program, function) {
                    Ok(handle) => self.push(handle),
                    Err(error) => return Err(error.fault),
                }
            },
            Op::TaskWait => {
                if self.stack.len() == 0 {
                    return Err(Fault::Confused("a wait was reached with nothing on the stack"));
                }
                let task = match &self.stack[self.stack.len() - 1] {
                    Value::Task(id) => *id,
                    _ => return Err(Fault::Confused("a wait reached something that is not a task")),
                };
                match host.wait_task(task, span) {
                    OpResult::Ready(v) => {
                        self.pop()?;
                        self.push(v);
                    },
                    OpResult::Park(site) => return Ok(self.park_at(pc, site)),
                    OpResult::Stop(fault) => return Err(fault),
                    OpResult::Failed(error) => return Err(error.fault),
                    OpResult::Done => return Err(Fault::Confused("a wait named an impossible outcome")),
                }
            },
            Op::SharedRead => {
                let shared = self.pop()?;
                match shared {
                    Value::Shared(c) => {
                        if c >= world.cells.len() {
                            return Err(Fault::Confused("a cell was named that is not there"));
                        }
                        let v = copy_value(&world.cells[c]);
                        self.push(v);
                    },
                    _ => return Err(Fault::Confused("`.value` reached something that is not shared")),
                }
            },
            Op::SharedUpdate => {
                let change = self.pop()?;
                let shared = self.pop()?;
                let cell = match shared {
                    Value::Shared(c) => c,
                    _ => return Err(Fault::Confused("`.update` reached something that is not shared")),
                };
                let closure = match change {
                    Value::Function(c) => *c,
                    _ => return Err(Fault::Confused("`.update` was not given a function")),
                };
                if cell >= world.cells.len() {
                    return Err(Fault::Confused("a cell was named that is not there"));
                }
                let current = copy_value(&world.cells[cell]);
                let body = closure.body as usize;
                let mut machine = Machine::for_body(program, body, 0, Some(closure))?;
                machine.set_argument(0, current)?;
                self.updating = Some(Box::new(crate::machine::Update { machine, host: Host::scratch(), cell }));
            },
            Op::BeginTogether => {
                let group = host.begin_together();
                self.together_group = Some(group);
            },
            Op::EndTogether => {
                let group = match self.together_group {
                    Some(g) => g,
                    None => 0,
                };
                self.together_group = None;
                let task = host.current();
                match host.end_together(group, task) {
                    OpResult::Done => {},
                    OpResult::Park(site) => return Ok(self.park_at(pc, site)),
                    OpResult::Stop(fault) => return Err(fault),
                    OpResult::Failed(error) => return Err(error.fault),
                    OpResult::Ready(_) => return Err(Fault::Confused("a together named an impossible outcome")),
                }
            },
            Op::Select(index) => {
                let descriptor = index as usize;
                if descriptor >= program.selects.len() {
                    return Err(Fault::Confused("a select named a descriptor that is not there"));
                }
                let count = receive_arms(&program.selects[descriptor].arms);
                let channels = if count > 0 { self.take(count)? } else { Vec::new() };
                return self.run_select(descriptor, channels, pc, span, program, host, now);
            },
            _ => return Err(Fault::Confused("an instruction reached the wrong part of the machine")),
        }
        Ok(TickAction::Continue)
    }
}

} // verus!

verus! {

/// The text `i` places below the top of the stack, if that is text.
pub open spec fn text_at(s: Seq<ValueView>, i: int) -> Option<Seq<char>> {
    if 0 <= i < s.len() {
        match s[s.len() - 1 - i] {
            ValueView::Text(t) => Some(t),
            _ => None,
        }
    } else {
        None
    }
}

/// The value `i` places below the top of the stack.
pub open spec fn value_at(s: Seq<ValueView>, i: int) -> ValueView {
    s[s.len() - 1 - i]
}

/// Whether a reply finds the status it needs on top of the stack: none is
/// needed when it names none, else a whole number from 1 to 65535.
pub open spec fn status_ready(has_status: bool, s: Seq<ValueView>) -> bool {
    !has_status || (s.len() > 0 && (s.last() matches ValueView::Int(n) && 0 < n <= 65535))
}

/// The status a reply goes with.
pub open spec fn status_of(has_status: bool, s: Seq<ValueView>) -> u16 {
    if has_status {
        match s.last() {
            ValueView::Int(n) => n as u16,
            _ => 200,
        }
    } else {
        200
    }
}

/// How many values an outside instruction takes off the stack.
pub open spec fn outside_pops(op: Op) -> int {
    match op {
        Op::Now | Op::RequestWho { .. } => 0,
        Op::StoreGet | Op::StoreRemove(_) | Op::StoreKeys(_) | Op::HttpPost(_) => 2,
        Op::DbExecute(_) | Op::DbQuery(_) | Op::StoreSet(_) => 3,
        Op::HttpSend(_) => 4,
        Op::ReplyWith(h) | Op::ReplyFile(h) => if h { 2 } else { 1 },
        Op::ReplyText(h) => if h { 3 } else { 2 },
        _ => 1,
    }
}

/// The headers of a request at a place of the stack: the fourth part of
/// the request, a map of texts.
pub open spec fn headers_at(s: Seq<ValueView>, at: int) -> Result<Seq<(Seq<char>, Seq<char>)>, Fault> {
    let no_headers = Fault::Confused("request.who needs request headers");
    if at < 0 || at >= s.len() {
        Err(Fault::Confused("a local was read out of range"))
    } else {
        match s[at] {
            ValueView::Tuple(parts) => if parts.len() >= 4 {
                match parts[3] {
                    ValueView::Table(entries) => crate::outside::header_pairs(entries, entries.len()),
                    _ => Err(Fault::Confused("request headers must be a map")),
                }
            } else {
                Err(no_headers)
            },
            _ => Err(no_headers),
        }
    }
}

/// Whether an outside instruction finds what it needs: the values it takes
/// off the stack of the right kinds, the variant or type it names there.
pub open spec fn outside_ready(op: Op, s: Seq<ValueView>, base: int, program: Program) -> bool {
    let t0 = text_at(s, 0) is Some;
    match op {
        Op::ReadFile(_) | Op::EnvGet | Op::DbConnect(_) | Op::StoreOpen(_) | Op::HttpGet(_) => t0,
        Op::Now => true,
        Op::EnvRequired(layout) => t0 && (layout as int) < program.variants@.len(),
        Op::DbExecute(_) | Op::DbQuery(_) => s.len() >= 3 && value_at(s, 0) is List && text_at(s, 1) is Some
            && value_at(s, 2) is Db,
        Op::StoreGet | Op::StoreRemove(_) | Op::StoreKeys(_) => t0 && s.len() >= 2 && value_at(s, 1) is Store,
        Op::StoreSet(_) => t0 && text_at(s, 1) is Some && s.len() >= 3 && value_at(s, 2) is Store,
        Op::HttpPost(_) => t0 && text_at(s, 1) is Some,
        Op::HttpSend(_) => s.len() >= 4 && (value_at(s, 0) matches ValueView::Table(entries)
            && crate::outside::header_pairs(entries, entries.len()) is Ok)
            && text_at(s, 1) is Some && text_at(s, 2) is Some && text_at(s, 3) is Some,
        Op::RequestWho { user, .. } => headers_at(s, base) is Ok && (user as int) < program.layouts@.len(),
        Op::ReplyWith(h) => status_ready(h, s) && s.len() > (if h { 1int } else { 0 })
            && crate::json::has_json(value_at(s, if h { 1int } else { 0 }), program),
        Op::ReplyFile(h) => status_ready(h, s) && text_at(s, if h { 1int } else { 0 }) is Some,
        Op::ReplyText(h) => status_ready(h, s) && text_at(s, if h { 1int } else { 0 }) is Some
            && text_at(s, if h { 2int } else { 1 }) is Some,
        Op::ReplyExplain => s.len() > 0 && crate::json::has_json(s.last(), program),
        _ => false,
    }
}

/// Whether a request is the one an outside instruction makes of the stack
/// it found.
pub open spec fn request_fits(op: Op, q: Request, s: Seq<ValueView>, program: Program) -> bool {
    match op {
        Op::ReadFile(_) => q matches Request::ReadFile { path } && path@ == text_at(s, 0)->0,
        Op::Now => q is Now,
        Op::EnvGet => q matches Request::EnvGet { name } && name@ == text_at(s, 0)->0,
        Op::EnvRequired(_) => q matches Request::EnvRequired { name } && name@ == text_at(s, 0)->0,
        Op::DbConnect(_) => q matches Request::DbConnect { url } && url@ == text_at(s, 0)->0,
        Op::DbExecute(_) => q matches Request::DbExecute { handle, sql, arguments } && value_at(s, 2) == ValueView::Db(handle)
            && sql@ == text_at(s, 1)->0 && value_at(s, 0) == ValueView::List(views(arguments@)),
        Op::DbQuery(_) => q matches Request::DbQuery { handle, sql, arguments } && value_at(s, 2) == ValueView::Db(handle)
            && sql@ == text_at(s, 1)->0 && value_at(s, 0) == ValueView::List(views(arguments@)),
        Op::StoreOpen(_) => q matches Request::StoreOpen { path } && path@ == text_at(s, 0)->0,
        Op::StoreGet => q matches Request::StoreGet { handle, key } && value_at(s, 1) == ValueView::Store(handle)
            && key@ == text_at(s, 0)->0,
        Op::StoreSet(_) => q matches Request::StoreSet { handle, key, value } && value_at(s, 2) == ValueView::Store(handle)
            && key@ == text_at(s, 1)->0 && value@ == text_at(s, 0)->0,
        Op::StoreRemove(_) => q matches Request::StoreRemove { handle, key } && value_at(s, 1) == ValueView::Store(handle)
            && key@ == text_at(s, 0)->0,
        Op::StoreKeys(_) => q matches Request::StoreKeys { handle, prefix } && value_at(s, 1) == ValueView::Store(handle)
            && prefix@ == text_at(s, 0)->0,
        Op::HttpGet(_) => q matches Request::HttpGet { url } && url@ == text_at(s, 0)->0,
        Op::HttpPost(_) => q matches Request::HttpPost { url, body } && url@ == text_at(s, 1)->0 && body@ == text_at(s, 0)->0,
        Op::HttpSend(_) => q matches Request::HttpSend { method, url, body, headers } && method@ == text_at(s, 3)->0
            && url@ == text_at(s, 2)->0 && body@ == text_at(s, 1)->0
            && (value_at(s, 0) matches ValueView::Table(entries) && crate::outside::header_pairs(entries, entries.len())
                == Ok::<Seq<(Seq<char>, Seq<char>)>, Fault>(crate::outside::pair_views(headers@))),
        Op::RequestWho { .. } => q is AuthSecret,
        Op::ReplyFile(h) => q matches Request::ReplyFile { path, status } && path@ == text_at(s, if h { 1int } else { 0 })->0
            && status == status_of(h, s),
        _ => false,
    }
}

/// What an outside instruction holds back for the answer, and the status
/// it replies with.
pub open spec fn outside_held(op: Op, s: Seq<ValueView>, base: int) -> (ValueView, u16) {
    match op {
        Op::ReadFile(_) | Op::EnvRequired(_) => (s.last(), 0),
        Op::RequestWho { .. } => (match s[base] {
            ValueView::Tuple(parts) => parts[3],
            _ => ValueView::Nothing,
        }, 0),
        Op::ReplyFile(h) => (value_at(s, if h { 1int } else { 0 }), status_of(h, s)),
        _ => (ValueView::Nothing, 0),
    }
}

/// What an instruction that works outside the machine does: whether it
/// goes ahead, what it takes off the stack, the request it hands out and
/// what it keeps for the answer, or the reply it leaves.
#[verifier::inline]
pub(crate) open spec fn outside_effect(
    op: Op,
    base: int,
    stack: Seq<Value>,
    awaiting: Option<Awaiting>,
    after: Machine,
    program: Program,
    response_after: Option<crate::machine::HttpResponse>,
    r: Result<TickAction, Fault>,
) -> bool {
    &&& r matches Ok(a) ==> (a is Continue || a is Outside)
    &&& r is Ok ==> outside_ready(op, views(stack), base, program)
    &&& outside_ready(op, views(stack), base, program) ==> (r is Ok
        || ((op is ReplyWith || op is ReplyExplain)
            && r == Err::<TickAction, Fault>(Fault::Confused("could not turn the value into JSON text"))))
    &&& r is Ok ==> views(after.stack@) =~= views(stack).subrange(0, stack.len() - outside_pops(op))
    &&& r is Ok && !is_reply_op(op) ==> (r matches Ok(TickAction::Outside(q))
        && request_fits(op, q, views(stack), program)
        && (after.awaiting matches Some(w) && w.op == op
            && (w.held@, w.status) == outside_held(op, views(stack), base)))
    &&& (op is ReplyText && r is Ok) ==> ({
        let h = op->ReplyText_0;
        let s = views(stack);
        let k: int = if h { 1 } else { 0 };
        r == Ok::<TickAction, Fault>(TickAction::Continue) && after.awaiting == awaiting
            && (response_after matches Some(response) && response.status == status_of(h, s)
                && response.content_type@ =~= text_at(s, k)->0 && response.body@ =~= text_at(s, k + 1)->0)
    })
    &&& ((op is ReplyWith || op is ReplyExplain) && r is Ok) ==> ({
        let (value, status) = replied_json(op, views(stack));
        r == Ok::<TickAction, Fault>(TickAction::Continue) && after.awaiting == awaiting
            && (response_after matches Some(response) && response.status == status
                && response.content_type@ == "application/json"@
                && response.body@ == crate::json::json_written(crate::json::json_of(value, program)))
    })
}

/// Whether an instruction leaves the reply itself rather than asking for
/// outside work.
pub open spec fn is_reply_op(op: Op) -> bool {
    op is ReplyText || op is ReplyWith || op is ReplyExplain
}

/// The value a JSON reply writes out and the status it replies with.
pub open spec fn replied_json(op: Op, s: Seq<ValueView>) -> (ValueView, u16) {
    match op {
        Op::ReplyWith(h) => (value_at(s, if h { 1int } else { 0 }), status_of(h, s)),
        _ => (s.last(), 400),
    }
}

/// Whether an instruction works outside the machine.
pub open spec fn is_outside_op(op: Op) -> bool {
    op is ReadFile || op is Now || op is EnvGet || op is EnvRequired || op is DbConnect || op is DbExecute
        || op is DbQuery || op is StoreOpen || op is StoreGet || op is StoreSet || op is StoreRemove
        || op is StoreKeys || op is HttpGet || op is HttpPost || op is HttpSend || op is RequestWho
        || op is ReplyWith || op is ReplyFile || op is ReplyText || op is ReplyExplain
}

impl Machine {
    /// Hands work out to the world outside, remembering what the answer is
    /// for.
    fn ask(&mut self, op: Op, held: Value, status: u16, request: Request) -> (r: Result<TickAction, Fault>)
        ensures
            final(self).frames@ == old(self).frames@,
            final(self).stack@ == old(self).stack@,
            final(self).awaiting == Some(Awaiting { op, held, status }),
            r matches Ok(TickAction::Outside(q)) && q == request,
    {
        self.awaiting = Some(Awaiting { op, held, status });
        Ok(TickAction::Outside(request))
    }

    /// The instructions that need the world outside: files, the clock, the
    /// environment, databases, stores, HTTP and replies.
    #[verifier::rlimit(100)]
    fn op_outside(&mut self, op: Op, base: usize, world: &mut World) -> (r: Result<TickAction, Fault>)
        ensures
            final(self).frames@ == old(self).frames@,
            r matches Ok(a) ==> (a is Continue || a is Outside),
            final(world).program == old(world).program,
            r is Ok ==> outside_ready(op, views(old(self).stack@), base as int, old(world).program),
            outside_ready(op, views(old(self).stack@), base as int, old(world).program) ==> (r is Ok
                || ((op is ReplyWith || op is ReplyExplain)
                    && r == Err::<TickAction, Fault>(Fault::Confused("could not turn the value into JSON text")))),
            r is Ok ==> views(final(self).stack@) == views(old(self).stack@).subrange(0, old(self).stack@.len() - outside_pops(op)),
            r is Ok && !is_reply_op(op) ==> (r matches Ok(TickAction::Outside(q))
                && request_fits(op, q, views(old(self).stack@), old(world).program)
                && (final(self).awaiting matches Some(w) && w.op == op
                    && (w.held@, w.status) == outside_held(op, views(old(self).stack@), base as int))),
            (op is ReplyText && r is Ok) ==> ({
                let h = op->ReplyText_0;
                let s = views(old(self).stack@);
                let k: int = if h { 1 } else { 0 };
                r == Ok::<TickAction, Fault>(TickAction::Continue) && final(self).awaiting == old(self).awaiting
                    && (final(world).response matches Some(response) && response.status == status_of(h, s)
                        && response.content_type@ == text_at(s, k)->0 && response.body@ == text_at(s, k + 1)->0)
            }),
            ((op is ReplyWith || op is ReplyExplain) && r is Ok) ==> ({
                let s = views(old(self).stack@);
                let (value, status) = replied_json(op, s);
                r == Ok::<TickAction, Fault>(TickAction::Continue) && final(self).awaiting == old(self).awaiting
                    && (final(world).response matches Some(response) && response.status == status
                        && response.content_type@ == "application/json"@
                        && response.body@ == crate::json::json_written(crate::json::json_of(value, old(world).program)))
            }),
    {
        proof { lemma_views(self.stack@); }
        let ghost start = self.stack@;
        let program = &world.program;
        let r = match op {
            Op::ReadFile(_) => {
                let path = self.pop()?;
                let text = match &path {
                    Value::Text(t) => t.clone(),
                    _ => return Err(Fault::Confused("read_file expected a path")),
                };
                self.ask(op, path, 0, Request::ReadFile { path: text })
            },
            Op::Now => self.ask(op, Value::Nothing, 0, Request::Now),
            Op::EnvGet => {
                let name = self.pop_text("env.get expected a name")?;
                self.ask(op, Value::Nothing, 0, Request::EnvGet { name })
            },
            Op::EnvRequired(layout) => {
                let name = self.pop_text("env.required expected a name")?;
                if (layout as usize) >= program.variants.len() {
                    return Err(Fault::Confused("env.required named a variant that is not there"));
                }
                let held = Value::Text(name.clone());
                self.ask(op, held, 0, Request::EnvRequired { name })
            },
            Op::DbConnect(_) => {
                let url = self.pop_text("Db.connect expected a url")?;
                self.ask(op, Value::Nothing, 0, Request::DbConnect { url })
            },
            Op::DbExecute(_) | Op::DbQuery(_) => {
                let arguments = match self.pop()? {
                    Value::List(items) => items,
                    _ => return Err(Fault::Confused(match op {
                        Op::DbExecute(_) => "db.execute expected a list of arguments",
                        _ => "db.query expected a list of arguments",
                    })),
                };
                let sql = self.pop_text(match op {
                    Op::DbExecute(_) => "db.execute expected sql text",
                    _ => "db.query expected sql text",
                })?;
                let handle = match self.pop()? {
                    Value::Db(h) => h,
                    _ => return Err(Fault::Confused(match op {
                        Op::DbExecute(_) => "db.execute expected a database",
                        _ => "db.query expected a database",
                    })),
                };
                let request = match op {
                    Op::DbExecute(_) => Request::DbExecute { handle, sql, arguments },
                    _ => Request::DbQuery { handle, sql, arguments },
                };
                self.ask(op, Value::Nothing, 0, request)
            },
            Op::StoreOpen(_) => {
                let path = self.pop_text("Store.open expected a path")?;
                self.ask(op, Value::Nothing, 0, Request::StoreOpen { path })
            },
            Op::StoreGet => {
                let key = self.pop_text("store.get expected a key")?;
                let handle = match self.pop()? {
                    Value::Store(h) => h,
                    _ => return Err(Fault::Confused("store.get expected a store")),
                };
                self.ask(op, Value::Nothing, 0, Request::StoreGet { handle, key })
            },
            Op::StoreSet(_) => {
                let value = self.pop_text("store.set expected a value")?;
                let key = self.pop_text("store.set expected a key")?;
                let handle = match self.pop()? {
                    Value::Store(h) => h,
                    _ => return Err(Fault::Confused("store.set expected a store")),
                };
                self.ask(op, Value::Nothing, 0, Request::StoreSet { handle, key, value })
            },
            Op::StoreRemove(_) => {
                let key = self.pop_text("store.remove expected a key")?;
                let handle = match self.pop()? {
                    Value::Store(h) => h,
                    _ => return Err(Fault::Confused("store.remove expected a store")),
                };
                self.ask(op, Value::Nothing, 0, Request::StoreRemove { handle, key })
            },
            Op::StoreKeys(_) => {
                let prefix = self.pop_text("store.keys expected a prefix")?;
                let handle = match self.pop()? {
                    Value::Store(h) => h,
                    _ => return Err(Fault::Confused("store.keys expected a store")),
                };
                self.ask(op, Value::Nothing, 0, Request::StoreKeys { handle, prefix })
            },
            Op::HttpGet(_) => {
                let url = self.pop_text("http.get expected a url")?;
                self.ask(op, Value::Nothing, 0, Request::HttpGet { url })
            },
            Op::HttpPost(_) => {
                let body = self.pop_text("http.post expected a body")?;
                let url = self.pop_text("http.post expected a url")?;
                self.ask(op, Value::Nothing, 0, Request::HttpPost { url, body })
            },
            Op::HttpSend(_) => {
                let headers_value = self.pop()?;
                let headers = headers_from_value(&headers_value)?;
                let body = self.pop_text("http.send expected a body")?;
                let url = self.pop_text("http.send expected a url")?;
                let method = self.pop_text("http.send expected a method")?;
                self.ask(op, Value::Nothing, 0, Request::HttpSend { method, url, body, headers })
            },
            Op::RequestWho { user, .. } => {
                let request = self.slot(base, 0)?;
                let headers = match request {
                    Value::Tuple(parts) => {
                        proof { lemma_views(parts@); }
                        if parts.len() >= 4 {
                            copy_value(&parts[3])
                        } else {
                            return Err(Fault::Confused("request.who needs request headers"));
                        }
                    },
                    _ => return Err(Fault::Confused("request.who needs request headers")),
                };
                let _ = headers_from_value(&headers)?;
                if (user as usize) >= program.layouts.len() {
                    return Err(Fault::Confused("request.who needs a User type"));
                }
                self.ask(op, headers, 0, Request::AuthSecret)
            },
            Op::ReplyWith(has_status) => {
                let status = self.pop_status(has_status)?;
                let value = self.pop()?;
                let body = crate::json::encode(&value, program)?;
                world.response = Some(HttpResponse::json(status, body));
                Ok(TickAction::Continue)
            },
            Op::ReplyFile(has_status) => {
                let status = self.pop_status(has_status)?;
                let path = self.pop_text("reply file expected a path")?;
                let held = Value::Text(path.clone());
                self.ask(op, held, status, Request::ReplyFile { path, status })
            },
            Op::ReplyText(has_status) => {
                let status = self.pop_status(has_status)?;
                let content_type = self.pop_text("reply text expected a content type")?;
                let body = self.pop_text("reply text expected a body")?;
                world.response = Some(HttpResponse { status, body, content_type });
                Ok(TickAction::Continue)
            },
            Op::ReplyExplain => {
                let value = self.pop()?;
                let body = crate::json::encode(&value, program)?;
                world.response = Some(HttpResponse::json(400, body));
                Ok(TickAction::Continue)
            },
            _ => Err(Fault::Confused("an instruction reached the wrong part of the machine")),
        };
        proof {
            lemma_views_subrange(start);
            if r is Ok {
                assert(self.stack@ =~= start.subrange(0, start.len() - outside_pops(op)));
            }
        }
        r
    }
}

} // verus!

verus! {

/// The headers of the request in slot 0 of the innermost call: the fourth
/// part of the request, a map of texts.
spec fn headers_in_slot(m: Machine) -> Result<Seq<(Seq<char>, Seq<char>)>, Fault> {
    let no_headers = Fault::Confused("request.who needs request headers");
    if m.frames@.len() == 0 {
        Err(no_headers)
    } else {
        let at = m.frames@.last().base as int;
        if at >= m.stack@.len() {
            Err(Fault::Confused("a local was read out of range"))
        } else {
            match m.stack@[at]@ {
                ValueView::Tuple(parts) => if parts.len() >= 4 {
                    match parts[3] {
                        ValueView::Table(entries) => crate::outside::header_pairs(entries, entries.len()),
                        _ => Err(Fault::Confused("request headers must be a map")),
                    }
                } else {
                    Err(no_headers)
                },
                _ => Err(no_headers),
            }
        }
    }
}

/// The span of an instruction, or the start of the file for one without.
fn span_at(spans: &Vec<Span>, pc: usize) -> (r: Span)
    ensures
        r == (if pc < spans@.len() { spans@[pc as int] } else { Span { start: 0, end: 0 } }),
{
    if pc < spans.len() { spans[pc] } else { Span::none() }
}

/// What one step of a machine does, from the machine, the world and the
/// host before it to those after it, as `Machine::tick` states it.
pub(crate) open spec fn ticked(m0: Machine, w0: World, h0: Host, m1: Machine, w1: World, h1: Host,
    r: Result<TickAction, Fault>) -> bool {
    &&& (m0.frames@.len() == 0 ==> r == Err::<TickAction, Fault>(Fault::Confused("the machine was asked to run with no frame")))
    &&& (m0.frames@.len() > 0 && m0.frames@.last().body >= w0.program.bodies@.len()
            ==> r == Err::<TickAction, Fault>(Fault::Confused("a frame names a body that is not there")))
    &&& (m0.frames@.len() > 0 && m0.frames@.last().body < w0.program.bodies@.len()
            && m0.frames@.last().pc >= w0.program.bodies@[m0.frames@.last().body as int].code@.len()
            ==> r == Err::<TickAction, Fault>(Fault::Confused("the machine ran off the end of a body")))
    &&& (op_at(m0.frames@, w0.program) == Some(Op::Return)
            ==> return_step(m0.stack@, m0.frames@, m1.stack@, m1.frames@, r))
    &&& ((op_at(m0.frames@, w0.program) matches Some(Op::Call(arity))
            && (arity as int) < m0.stack@.len()
            && !(m0.stack@[m0.stack@.len() - arity - 1] is Function
                || m0.stack@[m0.stack@.len() - arity - 1] is Builtin))
            ==> r == Err::<TickAction, Fault>(Fault::Confused("a call reached something that is not a function")))
    &&& (op_at(m0.frames@, w0.program) matches Some(op)
            ==> ((op is Call || op is CallMethod || op is CallAbility || op is Builtin)
            ==> call_effect(op, m0.stack@,
                m0.frames@.update(m0.frames@.len() - 1,
                    Frame { pc: (m0.frames@.last().pc + 1) as usize, ..m0.frames@.last() }),
                m1.stack@, m1.frames@, w0.program, w0.cells@,
                w0.output, w1.output, r)))
    &&& (op_at(m0.frames@, w0.program) matches Some(op)
            ==> ((op is ChannelNew || op is SharedNew || op is Send || op is Receive || op is Close || op is Start
                || op is TaskWait || op is SharedRead || op is SharedUpdate || op is BeginTogether || op is EndTogether
                || op is Select)
            ==> task_effect(op, m0.stack@, m1.stack@, m1.pending, m0.together_group, m1.together_group,
                w0.cells@, w1.cells@, h0, h1, r)))
    &&& (op_at(m0.frames@, w0.program) matches Some(Op::Select(index))
            ==> select_effect(index, w0.program, r))
    &&& (op_at(m0.frames@, w0.program) matches Some(op)
            ==> (is_outside_op(op) ==> outside_effect(op, m0.frames@.last().base as int, m0.stack@,
                m0.awaiting, m1, w0.program, w1.response, r)))
    &&& (op_at(m0.frames@, w0.program) matches Some(op)
            ==> ((op is LoadGlobal || op is StoreGlobal || op is Box || op is LoadCell || op is StoreCell
                || op is LoadUpvalue || op is StoreUpvalue || op is LoadSelf || op is Append)
            ==> place_effect(op, m0.frames@.last().base as int, views(m0.stack@), m0.frames@,
                views(w0.globals@), views(w0.cells@), views(m1.stack@),
                views(w1.globals@), views(w1.cells@), r)))
    &&& (op_at(m0.frames@, w0.program) matches Some(op)
            ==> ((op is Table || op is Text || op is Record || op is Field || op is SetField || op is Entries)
            ==> build_effect(op, views(m0.stack@), w0.program, views(w0.cells@),
                views(m1.stack@), views(w1.cells@), r)))
    &&& (op_at(m0.frames@, w0.program) matches Some(Op::MakeFunction(body))
            ==> match crate::machine::function_made(m0, w0.program, body as usize,
                m0.frames@.last().base, w0.next_identity) {
                Ok(v) => r == Ok::<TickAction, Fault>(TickAction::Continue)
                    && views(m1.stack@) =~= views(m0.stack@).push(v)
                    && w1.next_identity == (if w0.next_identity < usize::MAX { w0.next_identity + 1 } else { 0 }),
                Err(f) => r == Err::<TickAction, Fault>(f),
            })
    &&& (h1.current == h0.current)
    &&& (m0.frames@.len() <= MOST_CALLS ==> m1.frames@.len() <= MOST_CALLS)
    &&& (r matches Ok(TickAction::Done(_)) ==> m1.frames@.len() == 0)
    &&& (w1.program == w0.program)
    &&& (op_at(m0.frames@, w0.program) matches Some(op) ==> (simple_step(op, views(m0.stack@),
            m0.frames@.last().base as int, m0.frames@.last().pc as int, w0.program, views(w0.cells@)) matches Some(outcome) ==> {
            &&& m1.updating == m0.updating
            &&& match outcome {
                Ok((s, next)) => r matches Ok(TickAction::Continue) && views(m1.stack@) =~= s
                    && m1.frames@.len() == m0.frames@.len()
                    && m1.frames@.last().pc == next
                    && m1.frames@.last().body == m0.frames@.last().body
                    && m1.frames@.last().base == m0.frames@.last().base
                    && m1.pending == m0.pending
                    && m1.awaiting == m0.awaiting
                    && m1.frames@.drop_last() =~= m0.frames@.drop_last()
                    && w1.cells@ =~= w0.cells@,
                Err(f) => r == Err::<TickAction, Fault>(f),
            }
        }))
}

impl Machine {
    /// Runs one instruction.
    pub(crate) fn tick(&mut self, world: &mut World, host: &mut Host, now: u64) -> (r: Result<TickAction, Fault>)
        ensures
            old(self).frames@.len() == 0 ==> r == Err::<TickAction, Fault>(Fault::Confused("the machine was asked to run with no frame")),
            old(self).frames@.len() > 0 && old(self).frames@.last().body >= old(world).program.bodies@.len()
                ==> r == Err::<TickAction, Fault>(Fault::Confused("a frame names a body that is not there")),
            old(self).frames@.len() > 0 && old(self).frames@.last().body < old(world).program.bodies@.len()
                && old(self).frames@.last().pc >= old(world).program.bodies@[old(self).frames@.last().body as int].code@.len()
                ==> r == Err::<TickAction, Fault>(Fault::Confused("the machine ran off the end of a body")),
            op_at(old(self).frames@, old(world).program) == Some(Op::Return)
                ==> return_step(old(self).stack@, old(self).frames@, final(self).stack@, final(self).frames@, r),
            (op_at(old(self).frames@, old(world).program) matches Some(Op::Call(arity))
                && (arity as int) < old(self).stack@.len()
                && !(old(self).stack@[old(self).stack@.len() - arity - 1] is Function
                    || old(self).stack@[old(self).stack@.len() - arity - 1] is Builtin))
                ==> r == Err::<TickAction, Fault>(Fault::Confused("a call reached something that is not a function")),
            op_at(old(self).frames@, old(world).program) matches Some(op)
                ==> ((op is Call || op is CallMethod || op is CallAbility || op is Builtin)
                ==> call_effect(op, old(self).stack@,
                    old(self).frames@.update(old(self).frames@.len() - 1,
                        Frame { pc: (old(self).frames@.last().pc + 1) as usize, ..old(self).frames@.last() }),
                    final(self).stack@, final(self).frames@, old(world).program, old(world).cells@,
                    old(world).output, final(world).output, r)),
            op_at(old(self).frames@, old(world).program) matches Some(op)
                ==> ((op is ChannelNew || op is SharedNew || op is Send || op is Receive || op is Close || op is Start
                    || op is TaskWait || op is SharedRead || op is SharedUpdate || op is BeginTogether || op is EndTogether
                    || op is Select)
                ==> task_effect(op, old(self).stack@, final(self).stack@, final(self).pending, old(self).together_group, final(self).together_group,
                    old(world).cells@, final(world).cells@, *old(host), *final(host), r)),
            op_at(old(self).frames@, old(world).program) matches Some(Op::Select(index))
                ==> select_effect(index, old(world).program, r),
            op_at(old(self).frames@, old(world).program) matches Some(op)
                ==> (is_outside_op(op) ==> outside_effect(op, old(self).frames@.last().base as int, old(self).stack@,
                    old(self).awaiting, *final(self), old(world).program, final(world).response, r)),
            op_at(old(self).frames@, old(world).program) matches Some(op)
                ==> ((op is LoadGlobal || op is StoreGlobal || op is Box || op is LoadCell || op is StoreCell
                    || op is LoadUpvalue || op is StoreUpvalue || op is LoadSelf || op is Append)
                ==> place_effect(op, old(self).frames@.last().base as int, views(old(self).stack@), old(self).frames@,
                    views(old(world).globals@), views(old(world).cells@), views(final(self).stack@),
                    views(final(world).globals@), views(final(world).cells@), r)),
            op_at(old(self).frames@, old(world).program) matches Some(op)
                ==> ((op is Table || op is Text || op is Record || op is Field || op is SetField || op is Entries)
                ==> build_effect(op, views(old(self).stack@), old(world).program, views(old(world).cells@),
                    views(final(self).stack@), views(final(world).cells@), r)),
            op_at(old(self).frames@, old(world).program) matches Some(Op::MakeFunction(body))
                ==> match crate::machine::function_made(*old(self), old(world).program, body as usize,
                    old(self).frames@.last().base, old(world).next_identity) {
                    Ok(v) => r == Ok::<TickAction, Fault>(TickAction::Continue)
                        && views(final(self).stack@) == views(old(self).stack@).push(v)
                        && final(world).next_identity == (if old(world).next_identity < usize::MAX { old(world).next_identity + 1 } else { 0 }),
                    Err(f) => r == Err::<TickAction, Fault>(f),
                },
            final(host).current == old(host).current,
            old(self).frames@.len() <= MOST_CALLS ==> final(self).frames@.len() <= MOST_CALLS,
            r matches Ok(TickAction::Done(_)) ==> final(self).frames@.len() == 0,
            final(world).program == old(world).program,
            op_at(old(self).frames@, old(world).program) matches Some(op) ==> (simple_step(op, views(old(self).stack@),
                old(self).frames@.last().base as int, old(self).frames@.last().pc as int, old(world).program, views(old(world).cells@)) matches Some(outcome) ==> {
                &&& final(self).updating == old(self).updating
                &&& match outcome {
                    Ok((s, next)) => r matches Ok(TickAction::Continue) && views(final(self).stack@) == s
                        && final(self).frames@.len() == old(self).frames@.len()
                        && final(self).frames@.last().pc == next
                        && final(self).frames@.last().body == old(self).frames@.last().body
                        && final(self).frames@.last().base == old(self).frames@.last().base
                        && final(self).pending == old(self).pending
                        && final(self).awaiting == old(self).awaiting
                        && final(self).frames@.drop_last() == old(self).frames@.drop_last()
                        && final(world).cells@ == old(world).cells@,
                    Err(f) => r == Err::<TickAction, Fault>(f),
                }
            }),
            ticked(*old(self), *old(world), *old(host), *final(self), *final(world), *final(host), r),
    {
        if self.frames.len() == 0 {
            return Err(Fault::Confused("the machine was asked to run with no frame"));
        }
        let last = self.frames.len() - 1;
        let body = self.frames[last].body;
        let base = self.frames[last].base;
        let pc = self.frames[last].pc;
        if body >= world.program.bodies.len() {
            return Err(Fault::Confused("a frame names a body that is not there"));
        }
        if pc >= world.program.bodies[body].code.len() {
            return Err(Fault::Confused("the machine ran off the end of a body"));
        }
        let op = world.program.bodies[body].code[pc];
        assert(op_at(old(self).frames@, old(world).program) == Some(op));
        let span = span_at(&world.program.bodies[body].spans, pc);
        let _ = self.jump_to(pc + 1);
        let ghost jumped = *self;
        proof {
            old(self).reveal_views();
            jumped.reveal_views();
            if let Op::MakeFunction(b) = op {
                crate::machine::lemma_function_made_same(jumped, *old(self), world.program, b as usize, base, world.next_identity);
            }
        }
        match op {
            Op::LoadGlobal(_) | Op::StoreGlobal(_) | Op::LoadLocal(_) | Op::StoreLocal(_) | Op::Box(_)
            | Op::LoadCell(_) | Op::StoreCell(_) | Op::LoadUpvalue(_) | Op::StoreUpvalue(_) | Op::LoadSelf
            | Op::Append(_) => {
                assert(data_step(op, views(old(self).stack@), old(world).program, views(old(world).cells@)) is None);
                self.op_places(op, base, &mut world.globals, &mut world.cells)
            },
            Op::Jump(_) | Op::JumpIfFalse(_) | Op::JumpIfTrue(_) | Op::Return => self.op_control(op),
            Op::Call(_) | Op::CallMethod { .. } | Op::CallAbility { .. } | Op::Builtin(_) | Op::MakeFunction(_) => {
                let answer = self.op_call(op, base, world);
                match answer {
                    Ok(TickAction::Outside(request)) => {
                        // The builtin's arguments are off the stack; what it
                        // comes to arrives with the answer.
                        self.awaiting = Some(Awaiting { op, held: Value::Nothing, status: 0 });
                        Ok(TickAction::Outside(request))
                    },
                    other => other,
                }
            },
            Op::ChannelNew | Op::SharedNew | Op::Send | Op::Receive | Op::Close | Op::Start(_) | Op::TaskWait
            | Op::SharedRead | Op::SharedUpdate | Op::BeginTogether | Op::EndTogether | Op::Select(_) =>
                self.op_tasks(op, pc, base, span, world, host, now),
            Op::ReadFile(_) | Op::Now | Op::EnvGet | Op::EnvRequired(_) | Op::DbConnect(_) | Op::DbExecute(_)
            | Op::DbQuery(_) | Op::StoreOpen(_) | Op::StoreGet | Op::StoreSet(_) | Op::StoreRemove(_)
            | Op::StoreKeys(_) | Op::HttpGet(_) | Op::HttpPost(_) | Op::HttpSend(_) | Op::RequestWho { .. }
            | Op::ReplyWith(_) | Op::ReplyFile(_) | Op::ReplyText(_) | Op::ReplyExplain => self.op_outside(op, base, world),
            _ => {
                let answer = self.op_data(op, &world.program, &mut world.cells);
                match answer {
                    Ok(TickAction::Outside(request)) => {
                        self.awaiting = Some(Awaiting { op, held: Value::Nothing, status: 0 });
                        Ok(TickAction::Outside(request))
                    },
                    other => other,
                }
            },
        }
    }
}

} // verus!

verus! {

/// What the machine does with an answer from outside.
pub enum Outcome {
    /// Push this value and carry on.
    Push(Value),
    /// The program replies with this response.
    Reply(HttpResponse),
    /// Look the user up from these headers, with this secret.
    Who(Option<String>),
}

/// The texts of a list of keys, as a Vaab list.
fn texts(keys: Vec<String>) -> (r: Value)
    ensures
        r@ matches ValueView::List(items) && items.len() == keys@.len()
            && forall|i: int| 0 <= i < keys@.len() ==> #[trigger] items[i] == ValueView::Text(keys@[i]@),
{
    let mut out: Vec<Value> = Vec::new();
    let mut i: usize = 0;
    while i < keys.len()
        invariant
            i <= keys@.len(),
            views(out@).len() == i,
            forall|k: int| 0 <= k < i ==> #[trigger] views(out@)[k] == ValueView::Text(keys@[k]@),
        decreases keys.len() - i,
    {
        proof { crate::value::lemma_views_push(out@, Value::Text(keys@[i as int])); }
        out.push(Value::Text(keys[i].clone()));
        proof { lemma_views(out@); }
        i = i + 1;
    }
    proof { lemma_views(out@); }
    Value::List(out)
}

/// What an answer comes to, by value: push this, reply with this status,
/// body and content type, or look the user up with this secret.
pub enum OutcomeView {
    Push(ValueView),
    Reply(u16, Seq<char>, Seq<char>),
    Who(Option<Seq<char>>),
}

/// An outcome by value.
pub open spec fn outcome_view(o: Outcome) -> OutcomeView {
    match o {
        Outcome::Push(v) => OutcomeView::Push(v@),
        Outcome::Reply(r) => OutcomeView::Reply(r.status, r.body@, r.content_type@),
        Outcome::Who(secret) => OutcomeView::Who(match secret {
            Some(t) => Some(t@),
            None => None,
        }),
    }
}

/// The failure variant an outside instruction names.
pub open spec fn named_variant(op: Op) -> Option<u32> {
    match op {
        Op::ReadFile(l) | Op::EnvRequired(l) | Op::DbConnect(l) | Op::DbExecute(l) | Op::DbQuery(l)
        | Op::StoreOpen(l) | Op::StoreSet(l) | Op::StoreRemove(l) | Op::StoreKeys(l) | Op::HttpGet(l)
        | Op::HttpPost(l) | Op::HttpSend(l) => Some(l),
        Op::RequestWho { unauthorized, .. } => Some(unauthorized),
        _ => None,
    }
}

/// What the program is told when a refused call names a variant that is
/// not there.
pub open spec fn missing_variant_note(op: Op) -> &'static str {
    match op {
        Op::DbConnect(_) => "Db.connect named a variant that is not there",
        Op::DbExecute(_) => "db.execute named a variant that is not there",
        Op::DbQuery(_) => "db.query named a variant that is not there",
        Op::StoreOpen(_) => "Store.open named a variant that is not there",
        Op::StoreSet(_) => "store.set named a variant that is not there",
        Op::StoreRemove(_) => "store.remove named a variant that is not there",
        Op::StoreKeys(_) => "store.keys named a variant that is not there",
        Op::HttpGet(_) => "http.get named a variant that is not there",
        Op::HttpPost(_) => "http.post named a variant that is not there",
        _ => "http.send named a variant that is not there",
    }
}

/// A list of texts, by value.
pub open spec fn texts_view(keys: Seq<String>) -> ValueView {
    ValueView::List(Seq::new(keys.len(), |i: int| ValueView::Text(keys[i]@)))
}

/// Push `success v`.
pub open spec fn pushed_success(v: ValueView) -> Result<OutcomeView, Fault> {
    Ok(OutcomeView::Push(ValueView::Success(Box::new(v))))
}

/// What an answer from outside comes to for the instruction that asked,
/// given what the instruction held back (`held`) and the status it
/// replies with.
pub open spec fn spec_answer(op: Op, held: ValueView, status: u16, answer: Answer, program: Program) -> Result<OutcomeView, Fault> {
    match (op, answer) {
        (Op::ReadFile(_), Answer::Text(contents)) => pushed_success(ValueView::Text(contents@)),
        (Op::ReadFile(layout), Answer::Missing) => if (layout as int) < program.variants@.len() {
            Ok(OutcomeView::Push(ValueView::Failure(Box::new(ValueView::Variant { layout, fields: seq![held] }))))
        } else {
            Err(Fault::Confused("read_file named a variant that is not there"))
        },
        (Op::ReadFile(_), Answer::Broken) => Err(Fault::Confused("could not read the file")),
        (Op::Now, Answer::Whole(Some(n))) => Ok(OutcomeView::Push(ValueView::Int(n))),
        (Op::Now, Answer::Broken) => Err(Fault::Confused("the clock could not be read")),
        (Op::EnvGet, Answer::Found(found)) | (Op::StoreGet, Answer::Found(found)) => Ok(OutcomeView::Push(match found {
            Some(t) => ValueView::Maybe(Some(Box::new(ValueView::Text(t@)))),
            None => ValueView::Maybe(None),
        })),
        (Op::StoreGet, Answer::Broken) => Err(Fault::Confused("store.get could not read")),
        (Op::EnvRequired(layout), Answer::Found(found)) => match found {
            Some(t) => pushed_success(ValueView::Text(t@)),
            None => Ok(OutcomeView::Push(ValueView::Failure(Box::new(ValueView::Variant { layout, fields: seq![held] })))),
        },
        (Op::DbConnect(_), Answer::Handle(h)) => pushed_success(ValueView::Db(h)),
        (Op::StoreOpen(_), Answer::Handle(h)) => pushed_success(ValueView::Store(h)),
        (Op::DbExecute(_), Answer::Whole(Some(n))) => pushed_success(ValueView::Int(n)),
        (Op::DbQuery(_), Answer::Rows(rows)) => pushed_success(rows@),
        (Op::StoreSet(_), Answer::Done) => pushed_success(ValueView::Int(1)),
        (Op::StoreRemove(_), Answer::Removed(b)) => pushed_success(ValueView::Int(if b { 1 } else { 0 })),
        (Op::StoreKeys(_), Answer::Keys(keys)) => pushed_success(texts_view(keys@)),
        (Op::HttpGet(_), Answer::Text(body)) | (Op::HttpPost(_), Answer::Text(body))
        | (Op::HttpSend(_), Answer::Text(body)) => pushed_success(ValueView::Text(body@)),
        (Op::DbConnect(layout), Answer::Refused(message)) | (Op::DbExecute(layout), Answer::Refused(message))
        | (Op::DbQuery(layout), Answer::Refused(message)) | (Op::StoreOpen(layout), Answer::Refused(message))
        | (Op::StoreSet(layout), Answer::Refused(message)) | (Op::StoreRemove(layout), Answer::Refused(message))
        | (Op::StoreKeys(layout), Answer::Refused(message)) | (Op::HttpGet(layout), Answer::Refused(message))
        | (Op::HttpPost(layout), Answer::Refused(message)) | (Op::HttpSend(layout), Answer::Refused(message)) =>
            if (layout as int) < program.variants@.len() {
                Ok(OutcomeView::Push(ValueView::Failure(Box::new(ValueView::Variant {
                    layout,
                    fields: seq![ValueView::Text(message@)],
                }))))
            } else {
                Err(Fault::Confused(missing_variant_note(op)))
            },
        (Op::ReplyFile(_), Answer::Text(body)) => Ok(OutcomeView::Reply(status, body@,
            crate::static_files::spec_mime(crate::static_files::extension(match held {
                ValueView::Text(p) => p,
                _ => Seq::empty(),
            })))),
        (Op::ReplyFile(_), _) => Ok(OutcomeView::Reply(404, "not found"@, "text/plain; charset=utf-8"@)),
        (Op::RequestWho { .. }, Answer::Found(secret)) => Ok(OutcomeView::Who(match secret {
            Some(t) => Some(t@),
            None => None,
        })),
        (Op::Add, Answer::Float(f)) | (Op::Subtract, Answer::Float(f)) | (Op::Multiply, Answer::Float(f))
        | (Op::Divide, Answer::Float(f)) | (Op::Remainder, Answer::Float(f)) | (Op::Call(_), Answer::Float(f))
        | (Op::Builtin(_), Answer::Float(f)) => Ok(OutcomeView::Push(ValueView::Float(f.bits, f.shown@))),
        (Op::Call(_), Answer::Done) | (Op::Builtin(_), Answer::Done) => Ok(OutcomeView::Push(ValueView::Nothing)),
        (Op::Call(_), Answer::Whole(Some(n))) | (Op::Builtin(_), Answer::Whole(Some(n))) => Ok(OutcomeView::Push(ValueView::Int(n))),
        (Op::Call(_), Answer::Whole(None)) | (Op::Builtin(_), Answer::Whole(None)) => Err(Fault::Overflowed(Operation::Rounding)),
        _ => Err(Fault::Confused("an answer came that does not fit the question")),
    }
}

/// Which failure variant an instruction names, checked against the program.
fn variant_of(op: Op, program: &Program, why: &'static str) -> (r: Result<u32, Fault>)
    ensures
        match named_variant(op) {
            Some(layout) => if (layout as int) < program.variants@.len() {
                r == Ok::<u32, Fault>(layout)
            } else {
                r == Err::<u32, Fault>(Fault::Confused(why))
            },
            None => r == Err::<u32, Fault>(Fault::Confused(why)),
        },
{
    let layout = match op {
        Op::ReadFile(l) | Op::EnvRequired(l) | Op::DbConnect(l) | Op::DbExecute(l) | Op::DbQuery(l)
        | Op::StoreOpen(l) | Op::StoreSet(l) | Op::StoreRemove(l) | Op::StoreKeys(l) | Op::HttpGet(l)
        | Op::HttpPost(l) | Op::HttpSend(l) => l,
        Op::RequestWho { unauthorized, .. } => unauthorized,
        _ => return Err(Fault::Confused(why)),
    };
    if (layout as usize) >= program.variants.len() {
        return Err(Fault::Confused(why));
    }
    Ok(layout)
}

/// What an answer from outside comes to for the instruction that asked.
pub fn answer_outcome(op: Op, held: Value, status: u16, answer: Answer, program: &Program) -> (r: Result<Outcome, Fault>)
    ensures
        match r {
            Ok(o) => spec_answer(op, held@, status, answer, *program) == Ok::<OutcomeView, Fault>(outcome_view(o)),
            Err(f) => spec_answer(op, held@, status, answer, *program) == Err::<OutcomeView, Fault>(f),
        },
{
    let wrong = Fault::Confused("an answer came that does not fit the question");
    match (op, answer) {
        (Op::ReadFile(_), Answer::Text(contents)) => Ok(Outcome::Push(Value::success(Value::Text(contents)))),
        (Op::ReadFile(layout), Answer::Missing) => {
            if (layout as usize) >= program.variants.len() {
                return Err(Fault::Confused("read_file named a variant that is not there"));
            }
            let ghost h = held;
            let mut fields: Vec<Value> = Vec::new();
            fields.push(held);
            proof { lemma_views(fields@); assert(views(fields@) =~= seq![h@]); }
            let variant = Value::Variant(Box::new(Variant { layout, fields }));
            assert(variant@ == ValueView::Variant { layout, fields: seq![h@] });
            Ok(Outcome::Push(Value::Failure(Box::new(variant))))
        },
        (Op::ReadFile(_), Answer::Broken) => Err(Fault::Confused("could not read the file")),
        (Op::Now, Answer::Whole(Some(n))) => Ok(Outcome::Push(Value::Int(n))),
        (Op::Now, Answer::Broken) => Err(Fault::Confused("the clock could not be read")),
        (Op::EnvGet, Answer::Found(held)) | (Op::StoreGet, Answer::Found(held)) => match held {
            Some(t) => Ok(Outcome::Push(Value::found(Value::Text(t)))),
            None => Ok(Outcome::Push(Value::Maybe(None))),
        },
        (Op::StoreGet, Answer::Broken) => Err(Fault::Confused("store.get could not read")),
        (Op::EnvRequired(layout), Answer::Found(found)) => match found {
            Some(t) => Ok(Outcome::Push(Value::success(Value::Text(t)))),
            None => {
                let ghost h = held;
                let mut fields: Vec<Value> = Vec::new();
                fields.push(held);
                proof { lemma_views(fields@); assert(views(fields@) =~= seq![h@]); }
                let variant = Value::Variant(Box::new(Variant { layout, fields }));
                assert(variant@ == ValueView::Variant { layout, fields: seq![h@] });
                Ok(Outcome::Push(Value::Failure(Box::new(variant))))
            },
        },
        (Op::DbConnect(_), Answer::Handle(h)) => Ok(Outcome::Push(Value::success(Value::Db(h)))),
        (Op::StoreOpen(_), Answer::Handle(h)) => Ok(Outcome::Push(Value::success(Value::Store(h)))),
        (Op::DbExecute(_), Answer::Whole(Some(n))) => Ok(Outcome::Push(Value::success(Value::Int(n)))),
        (Op::DbQuery(_), Answer::Rows(rows)) => Ok(Outcome::Push(Value::success(rows))),
        (Op::StoreSet(_), Answer::Done) => Ok(Outcome::Push(Value::success(Value::Int(1)))),
        (Op::StoreRemove(_), Answer::Removed(b)) => Ok(Outcome::Push(Value::success(Value::Int(if b { 1 } else { 0 })))),
        (Op::StoreKeys(_), Answer::Keys(keys)) => {
            let ghost k = keys@;
            let list = texts(keys);
            proof {
                let items = list@->List_0;
                assert(items =~= Seq::new(k.len(), |i: int| ValueView::Text(k[i]@)));
            }
            Ok(Outcome::Push(Value::success(list)))
        },
        (Op::HttpGet(_), Answer::Text(body)) | (Op::HttpPost(_), Answer::Text(body)) | (Op::HttpSend(_), Answer::Text(body)) =>
            Ok(Outcome::Push(Value::success(Value::Text(body)))),
        (Op::DbConnect(_), Answer::Refused(message)) | (Op::DbExecute(_), Answer::Refused(message))
        | (Op::DbQuery(_), Answer::Refused(message)) | (Op::StoreOpen(_), Answer::Refused(message))
        | (Op::StoreSet(_), Answer::Refused(message)) | (Op::StoreRemove(_), Answer::Refused(message))
        | (Op::StoreKeys(_), Answer::Refused(message)) | (Op::HttpGet(_), Answer::Refused(message))
        | (Op::HttpPost(_), Answer::Refused(message)) | (Op::HttpSend(_), Answer::Refused(message)) => {
            let layout = variant_of(op, program, match op {
                Op::DbConnect(_) => "Db.connect named a variant that is not there",
                Op::DbExecute(_) => "db.execute named a variant that is not there",
                Op::DbQuery(_) => "db.query named a variant that is not there",
                Op::StoreOpen(_) => "Store.open named a variant that is not there",
                Op::StoreSet(_) => "store.set named a variant that is not there",
                Op::StoreRemove(_) => "store.remove named a variant that is not there",
                Op::StoreKeys(_) => "store.keys named a variant that is not there",
                Op::HttpGet(_) => "http.get named a variant that is not there",
                Op::HttpPost(_) => "http.post named a variant that is not there",
                _ => "http.send named a variant that is not there",
            })?;
            Ok(Outcome::Push(failure_message(layout, message)))
        },
        (Op::ReplyFile(_), Answer::Text(body)) => {
            let path = match held {
                Value::Text(p) => p,
                _ => String::new(),
            };
            Ok(Outcome::Reply(HttpResponse { status, body, content_type: String::from_str(crate::static_files::mime_for(path.as_str())) }))
        },
        (Op::ReplyFile(_), _) => Ok(Outcome::Reply(HttpResponse {
            status: 404,
            body: String::from_str("not found"),
            content_type: String::from_str("text/plain; charset=utf-8"),
        })),
        (Op::RequestWho { .. }, Answer::Found(secret)) => Ok(Outcome::Who(secret)),
        (Op::Add, Answer::Float(f)) | (Op::Subtract, Answer::Float(f)) | (Op::Multiply, Answer::Float(f))
        | (Op::Divide, Answer::Float(f)) | (Op::Remainder, Answer::Float(f)) | (Op::Call(_), Answer::Float(f))
        | (Op::Builtin(_), Answer::Float(f)) => Ok(Outcome::Push(Value::Float(f))),
        (Op::Call(_), Answer::Done) | (Op::Builtin(_), Answer::Done) => Ok(Outcome::Push(Value::Nothing)),
        (Op::Call(_), Answer::Whole(Some(n))) | (Op::Builtin(_), Answer::Whole(Some(n))) => Ok(Outcome::Push(Value::Int(n))),
        (Op::Call(_), Answer::Whole(None)) | (Op::Builtin(_), Answer::Whole(None)) => Err(Fault::Overflowed(Operation::Rounding)),
        _ => Err(wrong),
    }
}

} // verus!

verus! {

/// What handing a machine the answer it waited for does: `before` becomes
/// `after`, the response becomes `response`, and `r` is what it came to.
pub open spec fn completes(before: Machine, after: Machine, program: Program, response: Option<HttpResponse>,
    answer: Answer, r: Result<(), Fault>) -> bool
{
    &&& after.frame_count() == before.frame_count()
    &&& !before.is_updating() ==> match before.awaited() {
        None => r == Err::<(), Fault>(Fault::Confused("an answer came with nothing waiting for it")),
        Some((op, held, status)) => match spec_answer(op, held, status, answer, program) {
            Err(f) => r == Err::<(), Fault>(f),
            Ok(OutcomeView::Push(v)) => r is Ok && after.stack_view() == before.stack_view().push(v)
                && after.position() == before.position() && !after.is_awaiting(),
            Ok(OutcomeView::Reply(status, body, content_type)) => r is Ok
                && after.stack_view() == before.stack_view() && !after.is_awaiting()
                && (response matches Some(reply) && reply.status == status
                && reply.body@ == body && reply.content_type@ == content_type),
            Ok(OutcomeView::Who(_)) => !after.is_awaiting(),
        },
    }
}

/// A run of steps: `ms[i]`, `ws[i]`, `hs[i]` are the machine, world and host
/// before step `i`, which `tick` takes to `tm[i]`, `tw[i]`, `th[i]` with result
/// `acts[i]`; where that step starts no `.update`, the next step starts there.
/// Every step but the last carries on.
pub(crate) open spec fn run_chain(ms: Seq<Machine>, ws: Seq<World>, hs: Seq<Host>,
    tm: Seq<Machine>, tw: Seq<World>, th: Seq<Host>, acts: Seq<Result<TickAction, Fault>>) -> bool {
    &&& tm.len() == acts.len() && tw.len() == acts.len() && th.len() == acts.len()
    &&& acts.len() <= ms.len() <= acts.len() + 1
    &&& ws.len() == ms.len() && hs.len() == ms.len()
    &&& forall|i: int| #![trigger acts[i]] 0 <= i < acts.len()
        ==> ticked(ms[i], ws[i], hs[i], tm[i], tw[i], th[i], acts[i])
    &&& forall|i: int| #![trigger ms[i + 1]] 0 <= i < acts.len() && i + 1 < ms.len() && tm[i].updating is None
        ==> ms[i + 1] == tm[i] && ws[i + 1] == tw[i] && hs[i + 1] == th[i]
    &&& forall|i: int| #![trigger acts[i]] 0 <= i < acts.len() - 1 ==> acts[i] == Ok::<TickAction, Fault>(TickAction::Continue)
}

/// What running a machine for at most `n` steps comes to, `tick` after
/// `tick`: it yields after exactly `n` steps that each carried on; it
/// finishes, parks or asks the outside world when a step says so; it fails
/// when a step does. A `.update` a step starts runs to its end in between,
/// and what it comes to is left open here.
pub closed spec fn ran(m0: Machine, w0: World, h0: Host, n: nat, m1: Machine, w1: World, h1: Host, r: Step) -> bool {
    exists|ms: Seq<Machine>, ws: Seq<World>, hs: Seq<Host>, tm: Seq<Machine>, tw: Seq<World>, th: Seq<Host>,
        acts: Seq<Result<TickAction, Fault>>|
        #[trigger] run_chain(ms, ws, hs, tm, tw, th, acts)
        && ms.len() > 0 && ms[0] == m0 && ws[0] == w0 && hs[0] == h0
        && acts.len() <= n
        && run_end(ms, ws, hs, tm, tw, th, acts, n, m1, w1, h1, r)
}

/// What running a machine for at most `n` instructions does, from the
/// machine, the world and the host before it to those after it, with `r`
/// what it came to: the run that `ran` describes step by step, for a machine
/// that owes nothing; and, for the straight-line runs that `simple_run` and
/// `run_to_return` follow, what those come to.
pub open spec fn resumes(m0: Machine, w0: World, h0: Host, n: u64, m1: Machine, w1: World, h1: Host, r: Step) -> bool {
    &&& h1.current == h0.current
    &&& (m0.frame_count() <= MOST_CALLS ==> m1.frame_count() <= MOST_CALLS)
    &&& (n == 0 && m0.is_idle() ==> r is Yielded && m1 == m0 && w1 == w0)
    &&& (m0.is_idle() ==> ran(m0, w0, h0, n as nat, m1, w1, h1, r))
    &&& (r is Finished ==> m1.frame_count() == 0)
    &&& w1.program == w0.program
    &&& (m0.is_awaiting() ==> (r matches Step::Failed(e)
            && e.fault == Fault::Confused("the machine was run while it waits for an answer")))
    &&& (n == 1 && m0.is_idle() ==> (m0.next_op(w0.program) matches Some(op) ==>
            (simple_step(op, m0.stack_view(), m0.frame_base(), m0.next_pc(), w0.program, views(w0.cells@)) matches Some(outcome)
            ==> match outcome {
                Ok((s, next)) => r is Yielded && m1.stack_view() == s
                    && m1.position() == match m0.position() {
                        Some((b, _)) => Some((b, next as usize)),
                        None => None,
                    },
                Err(f) => r matches Step::Failed(e) && e.fault == f,
            })))
    &&& ((m0.is_idle() && m0.frame_count() > 0
            && simple_run(w0.program, views(w0.cells@), (m0.position()->0).0, m0.frame_base(),
                m0.stack_view(), m0.next_pc(), n as nat) is Some) ==> ({
            let (s, p) = simple_run(w0.program, views(w0.cells@), (m0.position()->0).0, m0.frame_base(),
                m0.stack_view(), m0.next_pc(), n as nat)->0;
            &&& r is Yielded
            &&& m1.stack_view() == s
            &&& m1.position() == Some(((m0.position()->0).0, p as usize))
            &&& m1.frame_count() == m0.frame_count()
            &&& m1.is_idle()
            &&& w1.cells@ == w0.cells@
        }))
    &&& ((m0.is_idle() && m0.frame_count() == 1
            && run_to_return(w0.program, views(w0.cells@), (m0.position()->0).0, m0.frame_base(),
                m0.stack_view(), m0.next_pc(), n as nat) is Some
            && run_to_return(w0.program, views(w0.cells@), (m0.position()->0).0, m0.frame_base(),
                m0.stack_view(), m0.next_pc(), n as nat)->0.len() > 0)
            ==> (r matches Step::Finished(v) && v@ == run_to_return(w0.program, views(w0.cells@),
                (m0.position()->0).0, m0.frame_base(), m0.stack_view(), m0.next_pc(), n as nat)->0.last()))
}

/// A chain of steps that all carried on, followed by one more step from
/// where it stands, is a chain again.
proof fn lemma_chain_after_tick(ms: Seq<Machine>, ws: Seq<World>, hs: Seq<Host>, tm: Seq<Machine>, tw: Seq<World>,
    th: Seq<Host>, acts: Seq<Result<TickAction, Fault>>, m: Machine, w: World, h: Host, a: Result<TickAction, Fault>)
    requires
        run_chain(ms, ws, hs, tm, tw, th, acts),
        ms.len() == acts.len() + 1,
        forall|i: int| #![trigger acts[i]] 0 <= i < acts.len() ==> acts[i] == Ok::<TickAction, Fault>(TickAction::Continue),
        ticked(ms.last(), ws.last(), hs.last(), m, w, h, a),
    ensures
        run_chain(ms, ws, hs, tm.push(m), tw.push(w), th.push(h), acts.push(a)),
        a == Ok::<TickAction, Fault>(TickAction::Continue) && m.updating is None
            ==> run_chain(ms.push(m), ws.push(w), hs.push(h), tm.push(m), tw.push(w), th.push(h), acts.push(a)),
{
    let k = acts.len() as int;
    let (tm2, tw2, th2, acts2) = (tm.push(m), tw.push(w), th.push(h), acts.push(a));
    assert forall|i: int| #![trigger acts2[i]] 0 <= i < acts2.len()
        implies ticked(ms[i], ws[i], hs[i], tm2[i], tw2[i], th2[i], acts2[i]) by {
        if i < k {
            assert(acts[i] == acts2[i]);
        }
    }
    assert forall|i: int| #![trigger acts2[i]] 0 <= i < acts2.len() - 1
        implies acts2[i] == Ok::<TickAction, Fault>(TickAction::Continue) by {
        assert(acts[i] == acts2[i]);
    }
    assert forall|i: int| #![trigger ms[i + 1]] 0 <= i < acts2.len() && i + 1 < ms.len() && tm2[i].updating is None
        implies ms[i + 1] == tm2[i] && ws[i + 1] == tw2[i] && hs[i + 1] == th2[i] by {
        assert(tm2[i] == tm[i]);
    }
    if a == Ok::<TickAction, Fault>(TickAction::Continue) && m.updating is None {
        let (ms2, ws2, hs2) = (ms.push(m), ws.push(w), hs.push(h));
        assert forall|i: int| #![trigger acts2[i]] 0 <= i < acts2.len()
            implies ticked(ms2[i], ws2[i], hs2[i], tm2[i], tw2[i], th2[i], acts2[i]) by {
            assert(ms2[i] == ms[i] && ws2[i] == ws[i] && hs2[i] == hs[i]);
        }
        assert forall|i: int| #![trigger ms2[i + 1]] 0 <= i < acts2.len() && i + 1 < ms2.len() && tm2[i].updating is None
            implies ms2[i + 1] == tm2[i] && ws2[i + 1] == tw2[i] && hs2[i + 1] == th2[i] by {
            if i < k {
                assert(ms2[i + 1] == ms[i + 1] && tm2[i] == tm[i]);
            }
        }
    }
}

/// Where a step started a `.update`, the chain goes on from wherever the
/// update left the machine, the world and the host.
proof fn lemma_chain_after_update(ms: Seq<Machine>, ws: Seq<World>, hs: Seq<Host>, tm: Seq<Machine>, tw: Seq<World>,
    th: Seq<Host>, acts: Seq<Result<TickAction, Fault>>, m: Machine, w: World, h: Host)
    requires
        run_chain(ms, ws, hs, tm, tw, th, acts),
        ms.len() == acts.len(),
        acts.len() > 0,
        tm.last().updating is Some,
    ensures
        run_chain(ms.push(m), ws.push(w), hs.push(h), tm, tw, th, acts),
{
    let (ms2, ws2, hs2) = (ms.push(m), ws.push(w), hs.push(h));
    assert forall|i: int| #![trigger acts[i]] 0 <= i < acts.len()
        implies ticked(ms2[i], ws2[i], hs2[i], tm[i], tw[i], th[i], acts[i]) by {
        assert(ms2[i] == ms[i] && ws2[i] == ws[i] && hs2[i] == hs[i]);
    }
    assert forall|i: int| #![trigger ms2[i + 1]] 0 <= i < acts.len() && i + 1 < ms2.len() && tm[i].updating is None
        implies ms2[i + 1] == tm[i] && ws2[i + 1] == tw[i] && hs2[i + 1] == th[i] by {
        if i + 1 < ms.len() {
            assert(ms2[i + 1] == ms[i + 1]);
        }
    }
}

/// How a run of steps ends, as `ran` says.
pub(crate) open spec fn run_end(ms: Seq<Machine>, ws: Seq<World>, hs: Seq<Host>, tm: Seq<Machine>, tw: Seq<World>,
    th: Seq<Host>, acts: Seq<Result<TickAction, Fault>>, n: nat, m1: Machine, w1: World, h1: Host, r: Step) -> bool {
    let k = acts.len() as int;
    match r {
        Step::Yielded => k == n && ms.len() == k + 1 && m1 == ms.last() && w1 == ws.last() && h1 == hs.last()
            && (k > 0 ==> acts[k - 1] == Ok::<TickAction, Fault>(TickAction::Continue)),
        Step::Finished(v) => k >= 1 && acts[k - 1] == Ok::<TickAction, Fault>(TickAction::Done(v))
            && m1 == tm[k - 1] && w1 == tw[k - 1] && h1 == th[k - 1],
        Step::Parked(site) => k >= 1 && acts[k - 1] == Ok::<TickAction, Fault>(TickAction::Park(site))
            && m1 == tm[k - 1] && w1 == tw[k - 1] && h1 == th[k - 1],
        Step::Outside(q) => k >= 1 && ((acts[k - 1] == Ok::<TickAction, Fault>(TickAction::Outside(q))
            && m1 == tm[k - 1] && w1 == tw[k - 1] && h1 == th[k - 1]) || tm[k - 1].updating is Some),
        Step::Failed(e) => k >= 1 && ((acts[k - 1] == Err::<TickAction, Fault>(e.fault)
            && m1 == tm[k - 1] && w1 == tw[k - 1] && h1 == th[k - 1]) || tm[k - 1].updating is Some),
    }
}

impl Machine {
    /// Hands the machine the outside world's answer to the request it made,
    /// which it turns into the value the program sees. The machine can be
    /// resumed after.
    pub fn complete(&mut self, world: &mut World, answer: Answer) -> (r: Result<(), Fault>)
        ensures
            final(world).program == old(world).program,
            completes(*old(self), *final(self), old(world).program, final(world).response, answer, r),
        decreases *old(self),
    {
        proof { old(self).reveal_views(); }
        let r = self.complete_here(world, answer);
        proof { self.reveal_views(); }
        r
    }

    fn complete_here(&mut self, world: &mut World, answer: Answer) -> (r: Result<(), Fault>)
        ensures
            final(self).frames@.len() == old(self).frames@.len(),
            final(world).program == old(world).program,
            old(self).updating is None ==> match old(self).awaiting {
                None => r == Err::<(), Fault>(Fault::Confused("an answer came with nothing waiting for it")),
                Some(w) => match spec_answer(w.op, w.held@, w.status, answer, old(world).program) {
                    Err(f) => r == Err::<(), Fault>(f),
                    Ok(OutcomeView::Push(v)) => r is Ok && views(final(self).stack@) == views(old(self).stack@).push(v)
                        && final(self).frames == old(self).frames && final(self).awaiting is None,
                    Ok(OutcomeView::Reply(status, body, content_type)) => r is Ok
                        && views(final(self).stack@) == views(old(self).stack@) && final(self).awaiting is None
                        && (final(world).response matches Some(response) && response.status == status
                        && response.body@ == body && response.content_type@ == content_type),
                    Ok(OutcomeView::Who(_)) => final(self).awaiting is None,
                },
            },
        decreases *old(self),
    {
        match self.updating.take() {
            Some(mut update) => {
                let answered = update.machine.complete_here(world, answer);
                self.updating = Some(update);
                return answered;
            },
            None => {},
        }
        let waiting = match self.awaiting.take() {
            Some(w) => w,
            None => return Err(Fault::Confused("an answer came with nothing waiting for it")),
        };
        let Awaiting { op, held, status } = waiting;
        match answer_outcome(op, held, status, answer, &world.program)? {
            Outcome::Push(v) => self.push(v),
            Outcome::Reply(response) => world.response = Some(response),
            Outcome::Who(secret) => {
                let (user, unauthorized) = match op {
                    Op::RequestWho { user, unauthorized } => (user, unauthorized),
                    _ => return Err(Fault::Confused("an answer came that does not fit the question")),
                };
                let headers = self.slot_headers()?;
                match crate::auth::verify_bearer(&headers, secret, user) {
                    Some(record) => self.push(Value::success(record)),
                    None => {
                        if (unauthorized as usize) >= world.program.variants.len() {
                            return Err(Fault::Confused("request.who named a variant that is not there"));
                        }
                        self.push(failure_unit(unauthorized));
                    },
                }
            },
        }
        Ok(())
    }

    /// The headers of the request the innermost call is handling.
    fn slot_headers(&self) -> (r: Result<Vec<(String, String)>, Fault>)
        ensures
            match r {
                Ok(pairs) => headers_in_slot(*self) == Ok::<Seq<(Seq<char>, Seq<char>)>, Fault>(crate::outside::pair_views(pairs@)),
                Err(f) => headers_in_slot(*self) == Err::<Seq<(Seq<char>, Seq<char>)>, Fault>(f),
            },
    {
        if self.frames.len() == 0 {
            return Err(Fault::Confused("request.who needs request headers"));
        }
        let base = self.frames[self.frames.len() - 1].base;
        let request = self.slot(base, 0)?;
        match request {
            Value::Tuple(parts) => {
                proof { lemma_views(parts@); }
                if parts.len() >= 4 {
                    headers_from_value(&parts[3])
                } else {
                    Err(Fault::Confused("request.who needs request headers"))
                }
            },
            _ => Err(Fault::Confused("request.who needs request headers")),
        }
    }

    /// Finishes an operation the machine parked in the middle of: a send
    /// that waited for a receiver, or a `select` that waited for an arm.
    fn retry_pending(&mut self, program: &Program, host: &mut Host, now: u64) -> (r: Option<Step>)
        ensures
            final(host).current == old(host).current,
            old(self).pending is None ==> r is None && *final(self) == *old(self) && *final(host) == *old(host),
            r matches Some(Step::Finished(_)) ==> false,
            r is None ==> final(self).pending is None,
            r matches Some(Step::Parked(_)) ==> final(self).pending is Some,
            (old(self).pending matches Some(Pending::Select { descriptor, .. }) && descriptor >= program.selects@.len())
                ==> (r matches Some(Step::Failed(e)) && e.fault == Fault::Confused("a select named a descriptor that is not there")),
            final(self).updating == old(self).updating,
            final(self).frames@.len() == old(self).frames@.len(),
            final(self).awaiting == old(self).awaiting,
    {
        let pending = match self.pending.take() {
            Some(p) => p,
            None => return None,
        };
        match pending {
            Pending::Send { channel, value, span } => {
                let current = host.current();
                if host.take_completed_send(current) {
                    return None;
                }
                let kept = copy_value(&value);
                match host.send(channel, value, span) {
                    OpResult::Done => None,
                    OpResult::Park(site) => {
                        self.pending = Some(Pending::Send { channel, value: kept, span });
                        Some(Step::Parked(site))
                    },
                    OpResult::Stop(fault) => Some(Step::Failed(Box::new(RuntimeError { fault, trace: self.trace(program) }))),
                    _ => Some(Step::Failed(Box::new(RuntimeError {
                        fault: Fault::Confused("a send named an impossible outcome"),
                        trace: self.trace(program),
                    }))),
                }
            },
            Pending::Select { descriptor, channels, resume_pc, span } => {
                match self.run_select(descriptor, channels, resume_pc, span, program, host, now) {
                    Ok(TickAction::Continue) => None,
                    Ok(TickAction::Done(v)) => Some(Step::Finished(v)),
                    Ok(TickAction::Park(site)) => Some(Step::Parked(site)),
                    Ok(TickAction::Outside(request)) => Some(Step::Outside(request)),
                    Err(fault) => Some(Step::Failed(Box::new(RuntimeError { fault, trace: self.trace(program) }))),
                }
            },
        }
    }

    /// Runs until the program finishes, something goes wrong, the machine
    /// must wait, or the budget runs out. A `.update` the program starts runs
    /// alone to its end before anything else does; `nesting` is how many
    /// `.update`s may still run inside one another.
    fn resume_within(&mut self, world: &mut World, host: &mut Host, budget: u64, now: u64, nesting: usize) -> (r: Step)
        ensures
            final(host).current == old(host).current,
            old(self).frames@.len() <= MOST_CALLS ==> final(self).frames@.len() <= MOST_CALLS,
            budget == 0 && old(self).pending is None && old(self).updating is None && old(self).awaiting is None
                ==> r is Yielded && *final(self) == *old(self) && *final(world) == *old(world),
            r is Finished ==> final(self).frames@.len() == 0,
            final(world).program == old(world).program,
            old(self).awaiting is Some ==> (r matches Step::Failed(e)
                && e.fault == Fault::Confused("the machine was run while it waits for an answer")),
            old(self).pending is None && old(self).updating is None && old(self).awaiting is None
                ==> ran(*old(self), *old(world), *old(host), budget as nat, *final(self), *final(world), *final(host), r),
            budget == 1 && old(self).pending is None && old(self).updating is None && old(self).awaiting is None ==>
                (op_at(old(self).frames@, old(world).program) matches Some(op) ==>
                (simple_step(op, views(old(self).stack@), old(self).frames@.last().base as int,
                    old(self).frames@.last().pc as int, old(world).program, views(old(world).cells@)) matches Some(outcome) ==> match outcome {
                    Ok((s, next)) => r is Yielded && views(final(self).stack@) == s
                        && final(self).frames@.len() == old(self).frames@.len()
                        && final(self).frames@.last().pc == next
                        && final(self).frames@.last().body == old(self).frames@.last().body,
                    Err(f) => r matches Step::Failed(e) && e.fault == f,
                })),
            (old(self).pending is None && old(self).updating is None && old(self).awaiting is None
                && old(self).frames@.len() > 0
                && simple_run(old(world).program, views(old(world).cells@), old(self).frames@.last().body,
                    old(self).frames@.last().base as int, views(old(self).stack@), old(self).frames@.last().pc as int, budget as nat) is Some)
                ==> ({
                    let (s, p) = simple_run(old(world).program, views(old(world).cells@), old(self).frames@.last().body,
                        old(self).frames@.last().base as int, views(old(self).stack@), old(self).frames@.last().pc as int, budget as nat)->0;
                    &&& r is Yielded
                    &&& views(final(self).stack@) == s
                    &&& final(self).frames@.len() == old(self).frames@.len()
                    &&& final(self).frames@.last().pc == p
                    &&& final(self).frames@.last().body == old(self).frames@.last().body
                    &&& final(self).frames@.last().base == old(self).frames@.last().base
                    &&& final(self).frames@.drop_last() == old(self).frames@.drop_last()
                    &&& final(world).cells@ == old(world).cells@
                    &&& final(self).pending is None && final(self).updating is None && final(self).awaiting is None
                }),
            (old(self).pending is None && old(self).updating is None && old(self).awaiting is None
                && old(self).frames@.len() == 1
                && run_to_return(old(world).program, views(old(world).cells@), old(self).frames@.last().body,
                    old(self).frames@.last().base as int, views(old(self).stack@), old(self).frames@.last().pc as int, budget as nat)
                    is Some
                && run_to_return(old(world).program, views(old(world).cells@), old(self).frames@.last().body,
                    old(self).frames@.last().base as int, views(old(self).stack@), old(self).frames@.last().pc as int, budget as nat)->0.len() > 0)
                ==> (r matches Step::Finished(v) && v@ == run_to_return(old(world).program, views(old(world).cells@),
                    old(self).frames@.last().body, old(self).frames@.last().base as int, views(old(self).stack@),
                    old(self).frames@.last().pc as int, budget as nat)->0.last()),
        decreases nesting,
    {
        if self.awaiting.is_some() {
            return Step::Failed(Box::new(RuntimeError {
                fault: Fault::Confused("the machine was run while it waits for an answer"),
                trace: self.trace(&world.program),
            }));
        }
        match self.retry_pending(&world.program, host, now) {
            Some(outcome) => return outcome,
            None => {},
        }
        let ghost start_m = *self;
        let ghost start_w = *world;
        let ghost start_h = *host;
        let ghost mut ms: Seq<Machine> = seq![*self];
        let ghost mut ws: Seq<World> = seq![*world];
        let ghost mut hs: Seq<Host> = seq![*host];
        let ghost mut tm: Seq<Machine> = Seq::empty();
        let ghost mut tw: Seq<World> = Seq::empty();
        let ghost mut th: Seq<Host> = Seq::empty();
        let ghost mut acts: Seq<Result<TickAction, Fault>> = Seq::empty();
        let mut left = budget;
        while left > 0 || self.updating.is_some()
            invariant
                old(self).pending is None && old(self).updating is None && old(self).awaiting is None ==> {
                    &&& start_m == *old(self) && start_w == *old(world) && start_h == *old(host)
                    &&& run_chain(ms, ws, hs, tm, tw, th, acts)
                    &&& ms.len() > 0 && ms[0] == start_m && ws[0] == start_w && hs[0] == start_h
                    &&& acts.len() == budget - left
                    &&& forall|i: int| #![trigger acts[i]] 0 <= i < acts.len() ==> acts[i] == Ok::<TickAction, Fault>(TickAction::Continue)
                    &&& self.updating is None ==> ms.len() == acts.len() + 1 && ms.last() == *self && ws.last() == *world
                        && hs.last() == *host
                    &&& self.updating is Some ==> ms.len() == acts.len() && acts.len() > 0 && tm.last().updating is Some
                },
                old(self).frames@.len() <= MOST_CALLS ==> self.frames@.len() <= MOST_CALLS,
                world.program == old(world).program,
                host.current == old(host).current,
                old(self).awaiting is None,
                left <= budget,
                budget == 0 && old(self).updating is None ==> self.updating is None,
                budget == 0 && old(self).pending is None && old(self).updating is None ==> *self == *old(self)
                    && *world == *old(world),
                budget == 1 && old(self).pending is None && old(self).updating is None && old(self).awaiting is None ==> {
                    &&& left == 1 ==> *self == *old(self) && world.cells == old(world).cells
                    &&& left == 0 ==> (op_at(old(self).frames@, old(world).program) matches Some(op) ==>
                        (simple_step(op, views(old(self).stack@), old(self).frames@.last().base as int,
                            old(self).frames@.last().pc as int, old(world).program, views(old(world).cells@)) matches Some(outcome) ==>
                        (outcome matches Ok((s, next)) && self.updating is None && views(self.stack@) == s
                            && self.frames@.len() == old(self).frames@.len()
                            && self.frames@.last().pc == next
                            && self.frames@.last().body == old(self).frames@.last().body)))
                },
                (old(self).pending is None && old(self).updating is None && old(self).awaiting is None
                    && old(self).frames@.len() > 0
                    && simple_run(old(world).program, views(old(world).cells@), old(self).frames@.last().body,
                        old(self).frames@.last().base as int, views(old(self).stack@), old(self).frames@.last().pc as int, budget as nat) is Some)
                    ==> (simple_run(old(world).program, views(old(world).cells@), old(self).frames@.last().body,
                        old(self).frames@.last().base as int, views(old(self).stack@), old(self).frames@.last().pc as int, (budget - left) as nat)
                        == Some((views(self.stack@), self.frames@.last().pc as int))
                    && self.frames@.len() == old(self).frames@.len()
                    && self.frames@.last().body == old(self).frames@.last().body
                    && self.frames@.last().base == old(self).frames@.last().base
                    && self.frames@.drop_last() == old(self).frames@.drop_last()
                    && world.cells@ == old(world).cells@
                    && self.pending is None && self.updating is None && self.awaiting is None),
            (old(self).pending is None && old(self).updating is None && old(self).awaiting is None
                && old(self).frames@.len() == 1
                && run_to_return(old(world).program, views(old(world).cells@), old(self).frames@.last().body,
                    old(self).frames@.last().base as int, views(old(self).stack@), old(self).frames@.last().pc as int, budget as nat) is Some)
                ==> (run_to_return(old(world).program, views(old(world).cells@), self.frames@.last().body,
                    self.frames@.last().base as int, views(self.stack@), self.frames@.last().pc as int, left as nat)
                    == run_to_return(old(world).program, views(old(world).cells@), old(self).frames@.last().body,
                    old(self).frames@.last().base as int, views(old(self).stack@), old(self).frames@.last().pc as int, budget as nat)
                    && self.frames@.len() == 1
                    && self.frames@.last().body == old(self).frames@.last().body
                    && self.frames@.last().base == old(self).frames@.last().base
                    && world.cells@ == old(world).cells@
                    && self.pending is None && self.updating is None && self.awaiting is None),
            decreases left, if self.updating.is_some() { 1nat } else { 0nat },
        {
            if self.updating.is_some() {
                if nesting == 0 {
                    return Step::Failed(Box::new(RuntimeError {
                        fault: Fault::TooManyCalls { depth: MOST_CALLS },
                        trace: self.trace(&world.program),
                    }));
                }
                let mut update = match self.updating.take() {
                    Some(u) => u,
                    None => return Step::Yielded,
                };
                let step = update.machine.resume_within(world, &mut update.host, u64::MAX, now, nesting - 1);
                match step {
                    Step::Finished(v) => {
                        if update.cell < world.cells.len() {
                            world.cells.set(update.cell, v);
                        }
                        self.push(Value::Nothing);
                        proof {
                            if old(self).pending is None && old(self).updating is None && old(self).awaiting is None {
                                lemma_chain_after_update(ms, ws, hs, tm, tw, th, acts, *self, *world, *host);
                            }
                            ms = ms.push(*self);
                            ws = ws.push(*world);
                            hs = hs.push(*host);
                        }
                    },
                    Step::Failed(error) => {
                        return Step::Failed(Box::new(RuntimeError { fault: error.fault, trace: self.trace(&world.program) }));
                    },
                    Step::Outside(request) => {
                        self.updating = Some(update);
                        return Step::Outside(request);
                    },
                    _ => {
                        return Step::Failed(Box::new(RuntimeError {
                            fault: Fault::Confused("the machine stopped without finishing"),
                            trace: self.trace(&world.program),
                        }));
                    },
                }
            } else {
                proof {
                    if old(self).pending is None && old(self).updating is None && old(self).awaiting is None
                        && old(self).frames@.len() > 0
                        && simple_run(old(world).program, views(old(world).cells@), old(self).frames@.last().body,
                            old(self).frames@.last().base as int, views(old(self).stack@), old(self).frames@.last().pc as int, budget as nat) is Some {
                        lemma_simple_run_prefix(old(world).program, views(old(world).cells@), old(self).frames@.last().body,
                            old(self).frames@.last().base as int, views(old(self).stack@), old(self).frames@.last().pc as int,
                            budget as nat, (budget - left + 1) as nat);
                    }
                }
                left = left - 1;
                let done = self.tick(world, host, now);
                proof {
                    if old(self).pending is None && old(self).updating is None && old(self).awaiting is None {
                        lemma_chain_after_tick(ms, ws, hs, tm, tw, th, acts, *self, *world, *host, done);
                    }
                    tm = tm.push(*self);
                    tw = tw.push(*world);
                    th = th.push(*host);
                    acts = acts.push(done);
                    if done == Ok::<TickAction, Fault>(TickAction::Continue) && self.updating is None {
                        ms = ms.push(*self);
                        ws = ws.push(*world);
                        hs = hs.push(*host);
                    }
                }
                match done {
                    Ok(TickAction::Continue) => {},
                    Ok(TickAction::Done(v)) => return Step::Finished(v),
                    Ok(TickAction::Park(site)) => return Step::Parked(site),
                    Ok(TickAction::Outside(request)) => return Step::Outside(request),
                    Err(fault) => {
                        return Step::Failed(Box::new(RuntimeError { fault, trace: self.trace(&world.program) }));
                    },
                }
            }
        }
        Step::Yielded
    }

    /// Runs for at most `budget` instructions, with `now` the scheduler's
    /// clock in milliseconds. A machine that yielded may be resumed as often
    /// as it takes; one that asked for outside work is resumed once its
    /// answer has been handed to [`Machine::complete`].
    pub fn resume(&mut self, world: &mut World, host: &mut Host, budget: crate::machine::Budget, now: u64) -> (r: Step)
        ensures
            resumes(*old(self), *old(world), *old(host), budget.0, *final(self), *final(world), *final(host), r),
    {
        proof { old(self).reveal_views(); old(self).reveal_next_op(old(world).program); }
        let r = self.resume_within(world, host, budget.0, now, MOST_CALLS);
        proof { self.reveal_views(); }
        r
    }

    /// Runs to the end on its own, which is what the REPL needs; a machine
    /// that stops short of the end, to wait or to ask for outside work, has
    /// not finished.
    pub fn run_alone(&mut self, world: &mut World, host: &mut Host, now: u64) -> (r: Result<Value, RuntimeError>)
        ensures
            final(world).program == old(world).program,
            r is Ok ==> final(self).frame_count() == 0,
            old(self).is_awaiting() ==> (r matches Err(e)
                && e.fault == Fault::Confused("the machine was run while it waits for an answer")),
            (old(self).is_idle() && old(self).frame_count() == 1
                && run_to_return(old(world).program, views(old(world).cells@), (old(self).position()->0).0, old(self).frame_base(),
                    old(self).stack_view(), old(self).next_pc(), u64::MAX as nat) is Some
                && run_to_return(old(world).program, views(old(world).cells@), (old(self).position()->0).0, old(self).frame_base(),
                    old(self).stack_view(), old(self).next_pc(), u64::MAX as nat)->0.len() > 0)
                ==> (r matches Ok(v) && v@ == run_to_return(old(world).program, views(old(world).cells@),
                    (old(self).position()->0).0, old(self).frame_base(), old(self).stack_view(), old(self).next_pc(),
                    u64::MAX as nat)->0.last()),
    {
        match self.resume(world, host, crate::machine::Budget::unlimited(), now) {
            Step::Finished(v) => Ok(v),
            Step::Failed(error) => Err(*error),
            _ => Err(RuntimeError { fault: Fault::Confused("the machine stopped without finishing"), trace: Vec::new() }),
        }
    }
}

} // verus!

verus! {

impl Machine {
    /// `Table(count)`: the top `2 * count` values become a map of key and
    /// value pairs.
    fn build_table(&mut self, count: u32, program: &Program, cells: &Vec<Value>) -> (r: Result<TickAction, Fault>)
        ensures
            build_effect(Op::Table(count), views(old(self).stack@), *program, views(cells@),
                views(final(self).stack@), views(cells@), r),
            final(self).frames == old(self).frames,
            final(self).pending == old(self).pending,
            final(self).together_group == old(self).together_group,
            final(self).awaiting == old(self).awaiting,
            final(self).updating == old(self).updating,
    {
        proof { lemma_views(old(self).stack@); }
        if (count as usize) > usize::MAX / 2 {
            return Err(Fault::Confused("the value stack ran dry"));
        }
        let pairs = self.take(count as usize * 2)?;
        let ghost taken = views(pairs@);
        let ghost mid = views(self.stack@);
        let built = crate::builtin::table(pairs);
        self.push(built);
        Ok(TickAction::Continue)
    }

    /// `Text(count)`: the top `count` values shown one after another.
    fn build_text(&mut self, count: u32, program: &Program, cells: &Vec<Value>) -> (r: Result<TickAction, Fault>)
        ensures
            build_effect(Op::Text(count), views(old(self).stack@), *program, views(cells@),
                views(final(self).stack@), views(cells@), r),
            final(self).frames == old(self).frames,
            final(self).pending == old(self).pending,
            final(self).together_group == old(self).together_group,
            final(self).awaiting == old(self).awaiting,
            final(self).updating == old(self).updating,
    {
        proof { lemma_views(old(self).stack@); lemma_views(cells@); }
        let pieces = self.take(count as usize)?;
        let ghost pv = views(pieces@);
        proof { lemma_views(pieces@); }
        let mut joined = String::new();
        let mut i: usize = 0;
        assert(pv.subrange(0, 0) =~= Seq::<ValueView>::empty());
        while i < pieces.len()
            invariant
                i <= pieces@.len(),
                pv == views(pieces@),
                pv.len() == pieces@.len(),
                forall|j: int| 0 <= j < pieces@.len() ==> #[trigger] pv[j] == pieces@[j]@,
                views(cells@).len() == cells@.len(),
                joined@ == shown_all(pv.subrange(0, i as int), *program, views(cells@)),
            decreases pieces.len() - i,
        {
            let piece = show(&pieces[i], program, cells, cells.len());
            push_text(&mut joined, piece.as_str());
            proof {
                assert(pv.subrange(0, i + 1).drop_last() =~= pv.subrange(0, i as int));
                assert(pv.subrange(0, i + 1).last() == pieces@[i as int]@);
            }
            i = i + 1;
        }
        assert(pv.subrange(0, pv.len() as int) =~= pv);
        self.push(Value::Text(joined));
        Ok(TickAction::Continue)
    }

    /// `Record { layout, fields }`: the top `fields` values become a value of
    /// that type; a `cast` keeps its fields in new cells.
    fn build_record(&mut self, layout: u32, fields: u32, program: &Program, cells: &mut Vec<Value>) -> (r: Result<TickAction, Fault>)
        ensures
            build_effect(Op::Record { layout, fields }, views(old(self).stack@), *program, views(old(cells)@),
                views(final(self).stack@), views(final(cells)@), r),
            final(self).frames == old(self).frames,
            final(self).pending == old(self).pending,
            final(self).together_group == old(self).together_group,
            final(self).awaiting == old(self).awaiting,
            final(self).updating == old(self).updating,
    {
        proof { lemma_views(old(self).stack@); lemma_views(cells@); }
        let values = self.take(fields as usize)?;
        proof { lemma_views(values@); }
        if (layout as usize) >= program.layouts.len() {
            return Err(Fault::Confused("a value was built from a type that is not there"));
        }
        if program.layouts[layout as usize].mutable {
            let ghost c0 = views(cells@);
            let ghost vv = views(values@);
            let mut ids: Vec<usize> = Vec::new();
            let mut k: usize = 0;
            while k < values.len()
                invariant
                    k <= values@.len(),
                    vv == views(values@),
                    vv.len() == values@.len(),
                    forall|j: int| 0 <= j < values@.len() ==> #[trigger] vv[j] == values@[j]@,
                    cells@.len() == c0.len() + k,
                    views(cells@) == c0 + vv.subrange(0, k as int),
                    ids@ == Seq::new(k as nat, |j: int| (c0.len() + j) as usize),
                decreases values.len() - k,
            {
                let ghost before = cells@;
                ids.push(cells.len());
                cells.push(copy_value(&values[k]));
                proof {
                    crate::value::lemma_views_push(before, cells@.last());
                    assert(cells@ == before.push(cells@.last()));
                    assert(c0 + vv.subrange(0, k + 1) =~= (c0 + vv.subrange(0, k as int)).push(vv[k as int]));
                    assert(ids@ =~= Seq::new((k + 1) as nat, |j: int| (c0.len() + j) as usize));
                }
                k = k + 1;
            }
            assert(vv.subrange(0, vv.len() as int) =~= vv);
            let record = Record { layout, fields: Vec::new(), cells: Some(ids) };
            assert(views(record.fields@) =~= Seq::<ValueView>::empty());
            self.push(Value::Record(Box::new(record)));
        } else {
            self.push(Value::Record(Box::new(Record { layout, fields: values, cells: None })));
        }
        Ok(TickAction::Continue)
    }

    /// `Field(index)`: a field of the record on top.
    fn read_field(&mut self, index: u32, program: &Program, cells: &Vec<Value>) -> (r: Result<TickAction, Fault>)
        ensures
            build_effect(Op::Field(index), views(old(self).stack@), *program, views(cells@),
                views(final(self).stack@), views(cells@), r),
            final(self).frames == old(self).frames,
            final(self).pending == old(self).pending,
            final(self).together_group == old(self).together_group,
            final(self).awaiting == old(self).awaiting,
            final(self).updating == old(self).updating,
    {
        proof { lemma_views(old(self).stack@); lemma_views(cells@); }
        let value = self.pop()?;
        let record = match value {
            Value::Record(r) => r,
            _ => return Err(Fault::Confused("a field was read from something with none")),
        };
        proof { lemma_views(record.fields@); }
        let field = match &record.cells {
            Some(ids) => {
                if (index as usize) < ids.len() && ids[index as usize] < cells.len() {
                    copy_value(&cells[ids[index as usize]])
                } else {
                    return Err(Fault::Confused("a field was read out of range"));
                }
            },
            None => {
                if (index as usize) < record.fields.len() {
                    copy_value(&record.fields[index as usize])
                } else {
                    return Err(Fault::Confused("a field was read out of range"));
                }
            },
        };
        self.push(field);
        Ok(TickAction::Continue)
    }

    /// `SetField(index)`: the value under the record on top goes into that
    /// field of a `cast`.
    fn write_field(&mut self, index: u32, program: &Program, cells: &mut Vec<Value>) -> (r: Result<TickAction, Fault>)
        ensures
            build_effect(Op::SetField(index), views(old(self).stack@), *program, views(old(cells)@),
                views(final(self).stack@), views(final(cells)@), r),
            final(self).frames == old(self).frames,
            final(self).pending == old(self).pending,
            final(self).together_group == old(self).together_group,
            final(self).awaiting == old(self).awaiting,
            final(self).updating == old(self).updating,
    {
        proof { lemma_views(old(self).stack@); lemma_views(cells@); }
        let target = self.pop()?;
        let value = self.pop()?;
        proof {
            assert(old(self).stack@[old(self).stack@.len() - 2] == value);
        }
        let record = match target {
            Value::Record(r) => r,
            _ => return Err(Fault::Confused("a field was written to something with none")),
        };
        match &record.cells {
            Some(ids) => {
                if (index as usize) < ids.len() && ids[index as usize] < cells.len() {
                    let ghost before = cells@;
                    let at = ids[index as usize];
                    cells.set(at, value);
                    proof {
                        lemma_views(cells@);
                        assert(views(cells@) =~= views(before).update(at as int, value@));
                        lemma_views(self.stack@);
                        assert(views(self.stack@) =~= views(old(self).stack@).subrange(0, old(self).stack@.len() - 2));
                    }
                } else {
                    return Err(Fault::Confused("a field was written out of range"));
                }
            },
            None => return Err(Fault::Confused("a field was written out of range")),
        }
        Ok(TickAction::Continue)
    }

    /// `Entries`: a map's entries as a list of key and value pairs.
    fn list_entries(&mut self, program: &Program, cells: &Vec<Value>) -> (r: Result<TickAction, Fault>)
        ensures
            build_effect(Op::Entries, views(old(self).stack@), *program, views(cells@),
                views(final(self).stack@), views(cells@), r),
            final(self).frames == old(self).frames,
            final(self).pending == old(self).pending,
            final(self).together_group == old(self).together_group,
            final(self).awaiting == old(self).awaiting,
            final(self).updating == old(self).updating,
    {
        proof { lemma_views(old(self).stack@); }
        let value = self.pop()?;
        let entries = match value {
            Value::Table(entries) => entries,
            _ => return Err(Fault::Confused("a map was expected and something else arrived")),
        };
        let ghost ev = crate::value::entry_views(entries@);
        proof { crate::value::lemma_entry_views(entries@); }
        let mut pairs: Vec<Value> = Vec::new();
        let mut i: usize = 0;
        while i < entries.len()
            invariant
                i <= entries@.len(),
                ev == crate::value::entry_views(entries@),
                ev.len() == entries@.len(),
                forall|j: int| 0 <= j < entries@.len() ==> #[trigger] ev[j] == crate::value::entry_view(entries@[j]),
                views(pairs@) == Seq::new(i as nat, |j: int| ValueView::Tuple(seq![ev[j].0, ev[j].1])),
            decreases entries.len() - i,
        {
            let mut parts: Vec<Value> = Vec::new();
            parts.push(copy_value(&entries[i].key));
            parts.push(copy_value(&entries[i].value));
            proof {
                lemma_views(parts@);
                assert(views(parts@) =~= seq![ev[i as int].0, ev[i as int].1]);
            }
            let ghost before = pairs@;
            let part = Value::Tuple(parts);
            pairs.push(part);
            proof {
                crate::value::lemma_views_push(before, part);
                assert(views(pairs@) =~= Seq::new((i + 1) as nat, |j: int| ValueView::Tuple(seq![ev[j].0, ev[j].1])));
            }
            i = i + 1;
        }
        self.push(Value::List(pairs));
        Ok(TickAction::Continue)
    }
}

} // verus!
