use vaab_vm::bytecode::Op;
use vaab_vm::error::{Fault, Operation};
use vaab_vm::ops::{item_at, length_of, ordered, range, truth, whole};
use vaab_vm::value::{Float, Value};

fn float(x: f64, shown: &str) -> Value {
    Value::Float(Float { bits: x.to_bits(), shown: shown.to_string() })
}

#[test]
fn a_sum_that_does_not_fit_is_reported_rather_than_wrapped() {
    let answer = whole(Op::Add, i64::MAX, 1);
    assert!(matches!(answer, Err(Fault::Overflowed(Operation::Sum))));
}

#[test]
fn a_backwards_range_holds_nothing() {
    let empty = range(&Value::Int(5), &Value::Int(1));
    assert!(matches!(empty, Ok(Value::List(items)) if items.is_empty()));
}

#[test]
fn a_range_nobody_could_hold_is_reported() {
    let huge = range(&Value::Int(0), &Value::Int(i64::MAX));
    assert!(matches!(huge, Err(Fault::RangeTooLong { .. })));
}

#[test]
fn reaching_past_the_end_of_a_list_says_how_long_it_is() {
    let list = Value::list(vec![Value::Int(1), Value::Int(2)]);
    let missing = item_at(&list, &Value::Int(5));
    assert!(matches!(missing, Err(Fault::IndexOutOfRange { index: 5, length: 2 })));
}

#[test]
fn a_negative_position_is_out_of_range_rather_than_counting_backwards() {
    let list = Value::list(vec![Value::Int(1)]);
    assert!(matches!(item_at(&list, &Value::Int(-1)), Err(Fault::IndexOutOfRange { .. })));
}

#[test]
fn text_is_measured_in_characters() {
    assert!(matches!(length_of(&Value::text("héllo")), Ok(5)));
}

#[test]
fn whole_numbers_divide_towards_zero_and_keep_the_sign_of_the_left() {
    assert!(matches!(whole(Op::Divide, -7, 2), Ok(-3)));
    assert!(matches!(whole(Op::Remainder, -7, 2), Ok(-1)));
    assert!(matches!(whole(Op::Divide, 1, 0), Err(Fault::DividedByZero(Operation::Division))));
    assert!(matches!(whole(Op::Remainder, 1, 0), Err(Fault::DividedByZero(Operation::Remainder))));
    assert!(matches!(whole(Op::Divide, i64::MIN, -1), Err(Fault::Overflowed(Operation::Division))));
    assert!(matches!(whole(Op::Multiply, i64::MAX, 2), Err(Fault::Overflowed(Operation::Product))));
    assert!(matches!(whole(Op::Subtract, i64::MIN, 1), Err(Fault::Overflowed(Operation::Difference))));
}

#[test]
fn a_range_takes_both_ends() {
    match range(&Value::Int(1), &Value::Int(3)) {
        Ok(Value::List(items)) => {
            assert_eq!(items.len(), 3);
            assert!(matches!(items[0], Value::Int(1)));
            assert!(matches!(items[2], Value::Int(3)));
        },
        _ => panic!("a range should be a list"),
    }
}

#[test]
fn comparisons_order_numbers_and_text_and_a_nan_is_neither_side() {
    assert!(matches!(ordered(Op::Less, &Value::Int(1), &Value::Int(2)), Ok(true)));
    assert!(matches!(ordered(Op::GreaterOrEqual, &Value::Int(1), &Value::Int(2)), Ok(false)));
    assert!(matches!(ordered(Op::Less, &Value::text("apple"), &Value::text("banana")), Ok(true)));
    assert!(matches!(ordered(Op::Less, &float(-1.5, "-1.5"), &float(0.25, "0.25")), Ok(true)));
    let nan = float(f64::NAN, "NaN");
    assert!(matches!(ordered(Op::Less, &nan, &float(1.0, "1.0")), Ok(false)));
    assert!(matches!(ordered(Op::GreaterOrEqual, &nan, &float(1.0, "1.0")), Ok(false)));
    assert!(matches!(ordered(Op::Less, &Value::Int(1), &Value::text("1")), Err(Fault::Confused(_))));
}

#[test]
fn only_a_bool_decides_a_jump() {
    assert!(matches!(truth(&Value::Bool(true)), Ok(true)));
    assert!(matches!(truth(&Value::Int(1)), Err(Fault::Confused(_))));
}
