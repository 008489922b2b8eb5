use vaab_vm::builtin::{table, Applied, Builtin};
use vaab_vm::bytecode::{Op, Program};
use vaab_vm::error::{Fault, Operation};
use vaab_vm::outside::Answer;
use vaab_vm::step::answer_outcome;
use vaab_vm::value::{Entry, Float, Value};

fn program() -> Program {
    Program::with_top_level("the top level".to_string())
}

fn apply(builtin: Builtin, arguments: Vec<Value>) -> Result<Applied, Fault> {
    builtin.apply(&arguments, &program(), &Vec::new())
}

#[test]
fn text_changes_case_without_changing_anything_else() {
    let shouted = apply(Builtin::Upper, vec![Value::text("ada")]);
    assert!(matches!(shouted, Ok(Applied::Done(Value::Text(text))) if text == "ADA"));
}

#[test]
fn the_first_of_an_empty_list_is_nothing() {
    let first = apply(Builtin::First, vec![Value::list(Vec::new())]);
    assert!(matches!(first, Ok(Applied::Done(Value::Maybe(None)))));
}

#[test]
fn the_size_of_the_smallest_int_does_not_fit() {
    let size = apply(Builtin::Abs, vec![Value::Int(i64::MIN)]);
    assert!(matches!(size, Err(Fault::Overflowed(Operation::Size))));
}

#[test]
fn rounding_a_float_too_large_to_be_a_whole_number_is_an_error() {
    let big = Float { bits: 1e30f64.to_bits(), shown: "1e30".to_string() };
    let asked = apply(Builtin::Round, vec![Value::Float(big)]);
    assert!(matches!(asked, Ok(Applied::Round(bits)) if bits == 1e30f64.to_bits()));
    // The float unit finds no whole number for it, and that stops the program.
    let answered = answer_outcome(Op::Builtin(Builtin::Round), Value::Nothing, 0, Answer::Whole(None), &program());
    assert!(matches!(answered, Err(Fault::Overflowed(Operation::Rounding))));
}

#[test]
fn a_builtin_given_the_wrong_shape_reports_rather_than_panics() {
    let confused = apply(Builtin::Upper, vec![Value::Int(1)]);
    assert!(matches!(confused, Err(Fault::Confused(_))));
}

#[test]
fn lower_and_contains_look_at_the_characters() {
    assert!(matches!(apply(Builtin::Lower, vec![Value::text("AdA")]), Ok(Applied::Done(Value::Text(t))) if t == "ada"));
    assert!(matches!(apply(Builtin::Contains, vec![Value::text("banana"), Value::text("nan")]), Ok(Applied::Done(Value::Bool(true)))));
    assert!(matches!(apply(Builtin::Contains, vec![Value::text("banana"), Value::text("nab")]), Ok(Applied::Done(Value::Bool(false)))));
}

#[test]
fn join_puts_the_separator_only_between_pieces() {
    let joined = apply(Builtin::Join, vec![Value::list(vec![Value::text("a"), Value::Int(2), Value::Bool(true)]), Value::text(", ")]);
    assert!(matches!(joined, Ok(Applied::Done(Value::Text(t))) if t == "a, 2, yes"));
    let one = apply(Builtin::Join, vec![Value::list(vec![Value::text("alone")]), Value::text("-")]);
    assert!(matches!(one, Ok(Applied::Done(Value::Text(t))) if t == "alone"));
}

#[test]
fn min_max_and_abs_of_whole_numbers() {
    assert!(matches!(apply(Builtin::Min, vec![Value::Int(3), Value::Int(-2)]), Ok(Applied::Done(Value::Int(-2)))));
    assert!(matches!(apply(Builtin::Max, vec![Value::Int(3), Value::Int(-2)]), Ok(Applied::Done(Value::Int(3)))));
    assert!(matches!(apply(Builtin::Abs, vec![Value::Int(-7)]), Ok(Applied::Done(Value::Int(7)))));
}

#[test]
fn abs_of_a_float_drops_its_sign_and_its_minus() {
    let negative = Float { bits: (-2.5f64).to_bits(), shown: "-2.5".to_string() };
    match apply(Builtin::Abs, vec![Value::Float(negative)]) {
        Ok(Applied::Done(Value::Float(f))) => {
            assert_eq!(f.bits, 2.5f64.to_bits());
            assert_eq!(f.shown, "2.5");
        },
        _ => panic!("abs of a float should be a float"),
    }
}

#[test]
fn get_and_keys_read_a_map_in_the_order_its_keys_came() {
    let map = table(vec![Value::text("b"), Value::Int(1), Value::text("a"), Value::Int(2), Value::text("b"), Value::Int(3)]);
    match &map {
        Value::Table(entries) => {
            assert_eq!(entries.len(), 2);
            let Entry { key, value } = &entries[0];
            assert!(matches!(key, Value::Text(t) if t == "b"));
            assert!(matches!(value, Value::Int(3)));
        },
        _ => panic!("a table should be a map"),
    }
    let keys = apply(Builtin::Keys, vec![map.clone()]);
    match keys {
        Ok(Applied::Done(Value::List(items))) => {
            assert_eq!(items.len(), 2);
            assert!(matches!(&items[0], Value::Text(t) if t == "b"));
            assert!(matches!(&items[1], Value::Text(t) if t == "a"));
        },
        _ => panic!("keys should be a list"),
    }
    let found = apply(Builtin::Get, vec![map.clone(), Value::text("a")]);
    assert!(matches!(found, Ok(Applied::Done(Value::Maybe(Some(v)))) if matches!(*v, Value::Int(2))));
    let missing = apply(Builtin::Get, vec![map, Value::text("z")]);
    assert!(matches!(missing, Ok(Applied::Done(Value::Maybe(None)))));
}

#[test]
fn a_key_left_without_a_value_is_dropped() {
    let map = table(vec![Value::text("k"), Value::Int(1), Value::text("orphan")]);
    assert!(matches!(map, Value::Table(entries) if entries.len() == 1));
}

#[test]
fn builtins_have_the_names_and_arities_the_checker_expects() {
    assert_eq!(Builtin::ToFloat.name(), "to_float");
    assert_eq!(Builtin::Join.arity(), 2);
    assert_eq!(Builtin::Print.arity(), 1);
    let to_float = apply(Builtin::ToFloat, vec![Value::Int(3)]);
    assert!(matches!(to_float, Ok(Applied::ToFloat(3))));
}

#[test]
fn contains_finds_the_empty_pattern_and_not_a_longer_one() {
    assert!(matches!(apply(Builtin::Contains, vec![Value::text("ab"), Value::text("")]), Ok(Applied::Done(Value::Bool(true)))));
    assert!(matches!(apply(Builtin::Contains, vec![Value::text(""), Value::text("")]), Ok(Applied::Done(Value::Bool(true)))));
    assert!(matches!(apply(Builtin::Contains, vec![Value::text("ab"), Value::text("abc")]), Ok(Applied::Done(Value::Bool(false)))));
    assert!(matches!(apply(Builtin::Contains, vec![Value::text("näïve"), Value::text("ïv")]), Ok(Applied::Done(Value::Bool(true)))));
    assert!(matches!(apply(Builtin::Contains, vec![Value::text("banana"), Value::text("na")]), Ok(Applied::Done(Value::Bool(true)))));
}
