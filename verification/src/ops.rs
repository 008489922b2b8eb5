//! The work single instructions do: checked arithmetic, comparisons, ranges,
//! positions and lengths.

use vstd::prelude::*;
use crate::bytecode::{Op, Program};
use crate::error::{Fault, Operation};
use crate::value::{Value, ValueView, views, lemma_views, is_nan, is_zero};

verus! {

/// How many whole numbers a range may stand for.
pub const LONGEST_RANGE: i64 = 10_000_000;

/// Whether an instruction is one of the five arithmetic operators.
pub open spec fn is_arithmetic(op: Op) -> bool {
    op is Add || op is Subtract || op is Multiply || op is Divide || op is Remainder
}

/// Whole-number arithmetic, checked every time: what `op` gives for `left`
/// and `right`, or the fault that stops the program.
pub open spec fn spec_whole(op: Op, left: i64, right: i64) -> Result<i64, Fault> {
    match op {
        Op::Add => if i64::MIN <= left + right <= i64::MAX { Ok((left + right) as i64) } else { Err(Fault::Overflowed(Operation::Sum)) },
        Op::Subtract => if i64::MIN <= left - right <= i64::MAX { Ok((left - right) as i64) } else { Err(Fault::Overflowed(Operation::Difference)) },
        Op::Multiply => if i64::MIN <= left * right <= i64::MAX { Ok((left * right) as i64) } else { Err(Fault::Overflowed(Operation::Product)) },
        Op::Divide => if right == 0 {
            Err(Fault::DividedByZero(Operation::Division))
        } else if left == i64::MIN && right == -1 {
            Err(Fault::Overflowed(Operation::Division))
        } else {
            Ok(truncated_quotient(left as int, right as int) as i64)
        },
        Op::Remainder => if right == 0 {
            Err(Fault::DividedByZero(Operation::Remainder))
        } else if left == i64::MIN && right == -1 {
            Err(Fault::Overflowed(Operation::Remainder))
        } else {
            Ok((left - right * truncated_quotient(left as int, right as int)) as i64)
        },
        _ => Err(Fault::Confused("an operator arrived where arithmetic was expected")),
    }
}

/// Division rounding towards zero, which is what Rust's `/` does.
pub open spec fn truncated_quotient(left: int, right: int) -> int
    recommends
        right != 0,
{
    if (left >= 0) == (right > 0) {
        let q = abs(left) / abs(right);
        q
    } else {
        -(abs(left) / abs(right))
    }
}

pub open spec fn abs(n: int) -> int {
    if n < 0 { -n } else { n }
}

/// Checked whole-number arithmetic.
pub fn whole(op: Op, left: i64, right: i64) -> (r: Result<i64, Fault>)
    ensures
        r == spec_whole(op, left, right),
{
    match op {
        Op::Add => match left.checked_add(right) {
            Some(v) => Ok(v),
            None => Err(Fault::Overflowed(Operation::Sum)),
        },
        Op::Subtract => match left.checked_sub(right) {
            Some(v) => Ok(v),
            None => Err(Fault::Overflowed(Operation::Difference)),
        },
        Op::Multiply => match left.checked_mul(right) {
            Some(v) => Ok(v),
            None => Err(Fault::Overflowed(Operation::Product)),
        },
        Op::Divide => {
            if right == 0 {
                Err(Fault::DividedByZero(Operation::Division))
            } else if left == i64::MIN && right == -1 {
                Err(Fault::Overflowed(Operation::Division))
            } else {
                Ok(quotient(left, right))
            }
        },
        Op::Remainder => {
            if right == 0 {
                Err(Fault::DividedByZero(Operation::Remainder))
            } else if left == i64::MIN && right == -1 {
                Err(Fault::Overflowed(Operation::Remainder))
            } else {
                let q = quotient(left, right);
                proof { lemma_quotient_bounds(left as int, right as int); }
                Ok(left - right * q)
            }
        },
        _ => Err(Fault::Confused("an operator arrived where arithmetic was expected")),
    }
}

proof fn lemma_quotient_bounds(left: int, right: int)
    requires
        right != 0,
        i64::MIN <= left <= i64::MAX,
        i64::MIN <= right <= i64::MAX,
        !(left == i64::MIN && right == -1),
    ensures
        i64::MIN <= truncated_quotient(left, right) <= i64::MAX,
        i64::MIN <= right * truncated_quotient(left, right) <= i64::MAX,
        i64::MIN <= left - right * truncated_quotient(left, right) <= i64::MAX,
{
    let q = abs(left) / abs(right);
    assert(0 <= q <= abs(left)) by (nonlinear_arith)
        requires abs(right) >= 1, abs(left) >= 0, q == abs(left) / abs(right);
    assert(q * abs(right) <= abs(left) && abs(left) - q * abs(right) < abs(right)) by (nonlinear_arith)
        requires abs(right) >= 1, abs(left) >= 0, q == abs(left) / abs(right);
    if left == i64::MIN {
        assert(abs(right) >= 2 || right == 1);
        if abs(right) >= 2 {
            assert(q <= abs(left) / 2) by (nonlinear_arith)
                requires abs(right) >= 2, abs(left) >= 0, q == abs(left) / abs(right);
        }
    }
    let tq = truncated_quotient(left, right);
    let p = right * tq;
    if left >= 0 {
        if right > 0 {
            assert(tq == q);
            assert(p == abs(right) * q) by (nonlinear_arith) requires p == right * tq, tq == q, right > 0, abs(right) == right;
        } else {
            assert(tq == -q);
            assert(p == abs(right) * q) by (nonlinear_arith) requires p == right * tq, tq == -q, right < 0, abs(right) == -right;
        }
        assert(0 <= p <= left) by (nonlinear_arith) requires p == abs(right) * q, q * abs(right) <= abs(left), abs(left) == left, q >= 0, abs(right) >= 1;
    } else {
        if right > 0 {
            assert(tq == -q);
            assert(p == -(abs(right) * q)) by (nonlinear_arith) requires p == right * tq, tq == -q, right > 0, abs(right) == right;
        } else {
            assert(tq == q);
            assert(p == -(abs(right) * q)) by (nonlinear_arith) requires p == right * tq, tq == q, right < 0, abs(right) == -right;
        }
        assert(left <= p <= 0) by (nonlinear_arith) requires p == -(abs(right) * q), q * abs(right) <= abs(left), abs(left) == -left, q >= 0, abs(right) >= 1;
    }
}

/// `left / right` rounding towards zero.
fn quotient(left: i64, right: i64) -> (q: i64)
    requires
        right != 0,
        !(left == i64::MIN && right == -1),
    ensures
        q == truncated_quotient(left as int, right as int),
{
    proof { lemma_quotient_bounds(left as int, right as int); }
    let negative = (left >= 0) != (right > 0);
    let l: u64 = if left >= 0 { left as u64 } else if left == i64::MIN { 9223372036854775808u64 } else { (-left) as u64 };
    let r: u64 = if right >= 0 { right as u64 } else if right == i64::MIN { 9223372036854775808u64 } else { (-right) as u64 };
    let m: u64 = l / r;
    if negative {
        if m == 9223372036854775808u64 { i64::MIN } else { -(m as i64) }
    } else {
        m as i64
    }
}

} // verus!

verus! {

/// `1..10`: the list of whole numbers a range stands for, or why it cannot
/// be built.
pub open spec fn spec_range(start: ValueView, end: ValueView) -> Result<ValueView, Fault> {
    match (start, end) {
        (ValueView::Int(s), ValueView::Int(e)) => {
            if e < s {
                Ok(ValueView::List(Seq::empty()))
            } else if e - s + 1 > i64::MAX {
                Err(Fault::RangeTooLong { length: i64::MAX })
            } else if e - s + 1 > LONGEST_RANGE {
                Err(Fault::RangeTooLong { length: (e - s + 1) as i64 })
            } else {
                Ok(ValueView::List(Seq::new((e - s + 1) as nat, |i: int| ValueView::Int((s + i) as i64))))
            }
        },
        _ => Err(Fault::Confused("a range was made from something that is not a number")),
    }
}

/// Builds the list a range stands for.
pub fn range(start: &Value, end: &Value) -> (r: Result<Value, Fault>)
    ensures
        match (r, spec_range(start@, end@)) {
            (Ok(v), Ok(w)) => v@ == w,
            (Err(f), Err(g)) => f == g,
            _ => false,
        },
{
    let (s, e) = match (start, end) {
        (Value::Int(s), Value::Int(e)) => (*s, *e),
        _ => return Err(Fault::Confused("a range was made from something that is not a number")),
    };
    if e < s {
        proof { lemma_views(Seq::<Value>::empty()); assert(views(Seq::<Value>::empty()) =~= Seq::<ValueView>::empty()); }
        return Ok(Value::List(Vec::new()));
    }
    let span = match e.checked_sub(s) {
        Some(span) => span,
        None => return Err(Fault::RangeTooLong { length: i64::MAX }),
    };
    let length = match span.checked_add(1) {
        Some(length) => length,
        None => return Err(Fault::RangeTooLong { length: i64::MAX }),
    };
    if length > LONGEST_RANGE {
        return Err(Fault::RangeTooLong { length });
    }
    let mut items: Vec<Value> = Vec::new();
    let mut k: i64 = 0;
    let ghost want = Seq::new((e - s + 1) as nat, |i: int| ValueView::Int((s + i) as i64));
    while k < length
        invariant
            0 <= k <= length,
            length == e - s + 1,
            length <= LONGEST_RANGE,
            views(items@).len() == k,
            forall|j: int| 0 <= j < k ==> #[trigger] views(items@)[j] == want[j],
            want == Seq::new((e - s + 1) as nat, |i: int| ValueView::Int((s + i) as i64)),
        decreases length - k,
    {
        proof { crate::value::lemma_views_push(items@, Value::Int((s + k) as i64)); }
        items.push(Value::Int(s + k));
        k = k + 1;
    }
    assert(views(items@) =~= want);
    Ok(Value::List(items))
}

/// `items[n]`: the item at a position, or why there is none.
pub open spec fn spec_item_at(target: ValueView, position: ValueView) -> Result<ValueView, Fault> {
    match (target, position) {
        (ValueView::List(items), ValueView::Int(index)) => {
            if 0 <= index < items.len() {
                Ok(items[index as int])
            } else {
                Err(Fault::IndexOutOfRange { index, length: items.len() as usize })
            }
        },
        (ValueView::List(_), _) => Err(Fault::Confused("a list was indexed by something that is not a number")),
        _ => Err(Fault::Confused("something that is not a list was indexed")),
    }
}

/// The item at a position of a list.
pub fn item_at(target: &Value, position: &Value) -> (r: Result<Value, Fault>)
    ensures
        match (r, spec_item_at(target@, position@)) {
            (Ok(v), Ok(w)) => v@ == w,
            (Err(f), Err(g)) => f == g,
            _ => false,
        },
{
    let items = match target {
        Value::List(items) => items,
        _ => return Err(Fault::Confused("something that is not a list was indexed")),
    };
    proof { lemma_views(items@); }
    let index = match position {
        Value::Int(index) => *index,
        _ => return Err(Fault::Confused("a list was indexed by something that is not a number")),
    };
    if index >= 0 && (index as u64) < (items.len() as u64) {
        Ok(items[index as usize].clone())
    } else {
        Err(Fault::IndexOutOfRange { index, length: items.len() })
    }
}

/// How many items a list, a tuple or a map holds, or how many characters a
/// piece of text has.
pub open spec fn spec_length(value: ValueView) -> Result<nat, Fault> {
    match value {
        ValueView::List(items) => Ok(items.len()),
        ValueView::Tuple(items) => Ok(items.len()),
        ValueView::Table(entries) => Ok(entries.len()),
        ValueView::Text(text) => Ok(text.len()),
        _ => Err(Fault::Confused("something without a length was measured")),
    }
}

/// Measures a value. Text is measured in characters, because that is what
/// someone reading it counts.
pub fn length_of(value: &Value) -> (r: Result<usize, Fault>)
    ensures
        match (r, spec_length(value@)) {
            (Ok(n), Ok(m)) => n as nat == m,
            (Err(f), Err(g)) => f == g,
            _ => false,
        },
{
    match value {
        Value::List(items) => {
            proof { lemma_views(items@); }
            Ok(items.len())
        },
        Value::Tuple(items) => {
            proof { lemma_views(items@); }
            Ok(items.len())
        },
        Value::Table(entries) => {
            proof { crate::value::lemma_entry_views(entries@); }
            Ok(entries.len())
        },
        Value::Text(text) => Ok(text.as_str().unicode_len()),
        _ => Err(Fault::Confused("something without a length was measured")),
    }
}

/// What a jump decides on: a `Bool`, and nothing else.
pub open spec fn spec_truth(value: ValueView) -> Result<bool, Fault> {
    match value {
        ValueView::Bool(b) => Ok(b),
        _ => Err(Fault::Confused("a decision was made on something that is not a Bool")),
    }
}

pub fn truth(value: &Value) -> (r: Result<bool, Fault>)
    ensures
        r == spec_truth(value@),
{
    match value {
        Value::Bool(b) => Ok(*b),
        _ => Err(Fault::Confused("a decision was made on something that is not a Bool")),
    }
}

// ---------------------------------------------------------------------------
// Ordering
// ---------------------------------------------------------------------------

/// Where a float's bits sit in the order of the numbers they stand for:
/// negative numbers count down from the top of the sign-flipped range.
pub open spec fn float_rank(bits: u64) -> int {
    if bits >= 0x8000_0000_0000_0000u64 {
        0xffff_ffff_ffff_ffffu64 - bits
    } else {
        bits + 0x8000_0000_0000_0000u64
    }
}

/// How two floats compare: `None` when either is a `NaN`, else -1, 0 or 1.
pub open spec fn float_order(left: u64, right: u64) -> Option<int> {
    if is_nan(left) || is_nan(right) {
        None
    } else if is_zero(left) && is_zero(right) {
        Some(0)
    } else if float_rank(left) < float_rank(right) {
        Some(-1)
    } else if float_rank(left) == float_rank(right) {
        Some(0)
    } else {
        Some(1)
    }
}

/// How two pieces of text compare, character by character: -1, 0 or 1.
pub open spec fn text_order(left: Seq<char>, right: Seq<char>) -> int
    decreases left.len(),
{
    if left.len() == 0 {
        if right.len() == 0 { 0 } else { -1 }
    } else if right.len() == 0 {
        1
    } else if (left[0] as u32) < (right[0] as u32) {
        -1
    } else if (left[0] as u32) > (right[0] as u32) {
        1
    } else {
        text_order(left.drop_first(), right.drop_first())
    }
}

/// How two whole numbers compare: -1, 0 or 1.
pub open spec fn int_order(left: i64, right: i64) -> int {
    if left < right { -1 } else if left == right { 0 } else { 1 }
}

/// Whether an ordering answers a comparison instruction.
pub open spec fn order_answers(op: Op, order: int) -> Result<bool, Fault> {
    match op {
        Op::Less => Ok(order < 0),
        Op::LessOrEqual => Ok(order <= 0),
        Op::Greater => Ok(order > 0),
        Op::GreaterOrEqual => Ok(order >= 0),
        _ => Err(Fault::Confused("an operator arrived where a comparison was expected")),
    }
}

/// `<`, `<=`, `>`, `>=` on two values. A `NaN` is on neither side of anything.
pub open spec fn spec_ordered(op: Op, left: ValueView, right: ValueView) -> Result<bool, Fault> {
    match (left, right) {
        (ValueView::Int(l), ValueView::Int(r)) => order_answers(op, int_order(l, r)),
        (ValueView::Float(l, _), ValueView::Float(r, _)) => match float_order(l, r) {
            Some(order) => order_answers(op, order),
            None => Ok(false),
        },
        (ValueView::Text(l), ValueView::Text(r)) => order_answers(op, text_order(l, r)),
        _ => Err(Fault::Confused("a comparison reached values it cannot order")),
    }
}

fn answer(op: Op, order: i8) -> (r: Result<bool, Fault>)
    ensures
        r == order_answers(op, order as int),
{
    match op {
        Op::Less => Ok(order < 0),
        Op::LessOrEqual => Ok(order <= 0),
        Op::Greater => Ok(order > 0),
        Op::GreaterOrEqual => Ok(order >= 0),
        _ => Err(Fault::Confused("an operator arrived where a comparison was expected")),
    }
}

fn rank(bits: u64) -> (r: u64)
    ensures
        r as int == float_rank(bits),
{
    if bits >= 0x8000_0000_0000_0000u64 {
        0xffff_ffff_ffff_ffffu64 - bits
    } else {
        bits + 0x8000_0000_0000_0000u64
    }
}

/// How two floats compare, as [`float_order`] says.
pub fn compare_floats(left: u64, right: u64) -> (r: Option<i8>)
    ensures
        match (r, float_order(left, right)) {
            (Some(a), Some(b)) => a as int == b,
            (None, None) => true,
            _ => false,
        },
{
    let nan_left = (left & 0x7ff0_0000_0000_0000u64) == 0x7ff0_0000_0000_0000u64
        && (left & 0x000f_ffff_ffff_ffffu64) != 0;
    let nan_right = (right & 0x7ff0_0000_0000_0000u64) == 0x7ff0_0000_0000_0000u64
        && (right & 0x000f_ffff_ffff_ffffu64) != 0;
    if nan_left || nan_right {
        None
    } else if (left & 0x7fff_ffff_ffff_ffffu64) == 0 && (right & 0x7fff_ffff_ffff_ffffu64) == 0 {
        Some(0)
    } else {
        let l = rank(left);
        let r = rank(right);
        if l < r { Some(-1) } else if l == r { Some(0) } else { Some(1) }
    }
}

/// How two pieces of text compare, as [`text_order`] says.
pub fn compare_texts(left: &str, right: &str) -> (r: i8)
    ensures
        r as int == text_order(left@, right@),
{
    let l = crate::text::chars_of(left);
    let r = crate::text::chars_of(right);
    assert(left@.subrange(0, left@.len() as int) =~= left@);
    assert(right@.subrange(0, right@.len() as int) =~= right@);
    let mut i: usize = 0;
    while i < l.len() && i < r.len()
        invariant
            i <= l@.len(),
            i <= r@.len(),
            l@ == left@,
            r@ == right@,
            text_order(left@, right@) == text_order(left@.subrange(i as int, left@.len() as int), right@.subrange(i as int, right@.len() as int)),
        decreases l.len() - i,
    {
        let ghost a = left@.subrange(i as int, left@.len() as int);
        let ghost b = right@.subrange(i as int, right@.len() as int);
        assert(a[0] == l@[i as int]);
        assert(b[0] == r@[i as int]);
        if (l[i] as u32) < (r[i] as u32) {
            return -1;
        }
        if (l[i] as u32) > (r[i] as u32) {
            return 1;
        }
        assert(a.drop_first() =~= left@.subrange(i + 1, left@.len() as int));
        assert(b.drop_first() =~= right@.subrange(i + 1, right@.len() as int));
        i = i + 1;
    }
    if i < l.len() {
        1
    } else if i < r.len() {
        -1
    } else {
        0
    }
}

/// Orders two values for a comparison instruction.
pub fn ordered(op: Op, left: &Value, right: &Value) -> (r: Result<bool, Fault>)
    ensures
        r == spec_ordered(op, left@, right@),
{
    match (left, right) {
        (Value::Int(l), Value::Int(r)) => {
            let order: i8 = if *l < *r { -1 } else if *l == *r { 0 } else { 1 };
            answer(op, order)
        },
        (Value::Float(l), Value::Float(r)) => match compare_floats(l.bits, r.bits) {
            Some(order) => answer(op, order),
            None => Ok(false),
        },
        (Value::Text(l), Value::Text(r)) => {
            let order = compare_texts(l.as_str(), r.as_str());
            answer(op, order)
        },
        _ => {
            proof {
                crate::value::lemma_view_kind(*left);
                crate::value::lemma_view_kind(*right);
            }
            Err(Fault::Confused("a comparison reached values it cannot order"))
        },
    }
}

} // verus!

verus! {

/// Text order is an order: swapping the sides turns it round, and two
/// pieces of text compare as level exactly when they are the same text.
pub proof fn lemma_text_order_is_an_order(a: Seq<char>, b: Seq<char>)
    ensures
        text_order(a, b) == -text_order(b, a),
        (text_order(a, b) == 0) == (a == b),
        -1 <= text_order(a, b) <= 1,
    decreases a.len(),
{
    if a.len() > 0 && b.len() > 0 {
        lemma_text_order_is_an_order(a.drop_first(), b.drop_first());
        if a == b {
            assert(a.drop_first() == b.drop_first());
        }
        if (a[0] as u32) == (b[0] as u32) && a.drop_first() == b.drop_first() {
            vstd::utf8::char_u32_cast(a[0], a[0] as u32);
            vstd::utf8::char_u32_cast(b[0], b[0] as u32);
            assert(a[0] == b[0]);
            assert(a =~= seq![a[0]] + a.drop_first());
            assert(b =~= seq![b[0]] + b.drop_first());
        }
    } else if a.len() == 0 && b.len() == 0 {
        assert(a =~= b);
    }
}

/// Whole numbers compare as the numbers they are: `<`, `<=`, `>` and `>=`
/// answer exactly what the arithmetic comparison does.
pub proof fn lemma_whole_numbers_compare_as_numbers(l: i64, r: i64)
    ensures
        spec_ordered(Op::Less, ValueView::Int(l), ValueView::Int(r)) == Ok::<bool, Fault>(l < r),
        spec_ordered(Op::LessOrEqual, ValueView::Int(l), ValueView::Int(r)) == Ok::<bool, Fault>(l <= r),
        spec_ordered(Op::Greater, ValueView::Int(l), ValueView::Int(r)) == Ok::<bool, Fault>(l > r),
        spec_ordered(Op::GreaterOrEqual, ValueView::Int(l), ValueView::Int(r)) == Ok::<bool, Fault>(l >= r),
{
}

/// Swapping the two sides of a comparison turns `>` into `<` and `>=`
/// into `<=`, for every pair of values, errors included.
pub proof fn lemma_swapping_sides_turns_the_comparison(l: ValueView, r: ValueView)
    ensures
        spec_ordered(Op::Greater, l, r) == spec_ordered(Op::Less, r, l),
        spec_ordered(Op::GreaterOrEqual, l, r) == spec_ordered(Op::LessOrEqual, r, l),
{
    match (l, r) {
        (ValueView::Text(a), ValueView::Text(b)) => { lemma_text_order_is_an_order(a, b); },
        _ => {},
    }
}

/// A whole number, a piece of text, or a float that is a number is neither
/// above nor below itself, and is at least and at most itself.
pub proof fn lemma_a_value_is_level_with_itself(x: ValueView)
    requires
        x is Int || x is Text || (x matches ValueView::Float(bits, _) && !is_nan(bits)),
    ensures
        spec_ordered(Op::Less, x, x) == Ok::<bool, Fault>(false),
        spec_ordered(Op::Greater, x, x) == Ok::<bool, Fault>(false),
        spec_ordered(Op::LessOrEqual, x, x) == Ok::<bool, Fault>(true),
        spec_ordered(Op::GreaterOrEqual, x, x) == Ok::<bool, Fault>(true),
{
    if let ValueView::Text(a) = x {
        lemma_text_order_is_an_order(a, a);
    }
}

/// `<` and `>` never both hold of the same two values, and `<=` is `<` or
/// level: wherever `<` and `>` answer, `<=` answers as not `>`.
pub proof fn lemma_strict_and_loose_comparisons_agree(l: ValueView, r: ValueView)
    ensures
        !(spec_ordered(Op::Less, l, r) == Ok::<bool, Fault>(true) && spec_ordered(Op::Greater, l, r) == Ok::<bool, Fault>(true)),
        spec_ordered(Op::Less, l, r) == Ok::<bool, Fault>(true) ==> spec_ordered(Op::LessOrEqual, l, r) == Ok::<bool, Fault>(true),
        spec_ordered(Op::Greater, l, r) == Ok::<bool, Fault>(true) ==> spec_ordered(Op::GreaterOrEqual, l, r) == Ok::<bool, Fault>(true),
        (l is Int || l is Text) ==> (spec_ordered(Op::LessOrEqual, l, r) is Ok
            ==> spec_ordered(Op::LessOrEqual, l, r) == Ok::<bool, Fault>(spec_ordered(Op::Greater, l, r) == Ok::<bool, Fault>(false))),
{
}

} // verus!
