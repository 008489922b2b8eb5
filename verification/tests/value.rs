use vaab_vm::bytecode::Program;
use vaab_vm::machine::{Output, World};
use vaab_vm::show::show;
use vaab_vm::value::{same_key, Float, Record, Value};

fn shown(v: &Value) -> String {
    let program = Program::with_top_level("the top level".to_string());
    show(v, &program, &Vec::new(), 0)
}

#[test]
fn text_is_bare_on_its_own_and_quoted_inside_a_list() {
    assert_eq!(shown(&Value::text("hello")), "hello");
    assert_eq!(shown(&Value::list(vec![Value::text("hello")])), "[\"hello\"]");
}

#[test]
fn numbers_keep_the_point_that_says_they_are_floats() {
    assert_eq!(shown(&Value::Int(1)), "1");
    assert_eq!(shown(&Value::Float(Float { bits: 1.0f64.to_bits(), shown: "1.0".to_string() })), "1.0");
    assert_eq!(shown(&Value::Float(Float { bits: 0.75f64.to_bits(), shown: "0.75".to_string() })), "0.75");
}

#[test]
fn booleans_are_shown_in_the_words_vaab_uses() {
    assert_eq!(shown(&Value::Bool(true)), "yes");
    assert_eq!(shown(&Value::Bool(false)), "no");
}

#[test]
fn a_maybe_and_a_result_are_shown_the_way_they_are_written() {
    assert_eq!(shown(&Value::absent()), "nothing");
    assert_eq!(shown(&Value::found(Value::Int(3))), "found 3");
    assert_eq!(shown(&Value::success(Value::Int(3))), "success 3");
    assert_eq!(shown(&Value::failure(Value::text("no"))), "failure \"no\"");
}

#[test]
fn a_nan_equals_nothing_but_still_finds_its_own_key() {
    let nan = Value::Float(Float { bits: f64::NAN.to_bits(), shown: "NaN".to_string() });
    assert!(!nan.equals(&nan, &Vec::new()));
    assert!(same_key(&nan, &nan.clone()));
}

#[test]
fn a_captured_local_can_be_read_more_than_once() {
    let mut world = World::new(Program::with_top_level("the top level".to_string()), Output::collected());
    let cell = world.cell_new(Value::Int(1));
    assert!(world.cell_get(&cell).unwrap().equals(&Value::Int(1), &world.cells));
    assert!(world.cell_get(&cell).unwrap().equals(&Value::Int(1), &world.cells));
    assert!(world.cell_set(&cell, Value::Int(2)));
    assert!(world.cell_get(&cell).unwrap().equals(&Value::Int(2), &world.cells));
}

#[test]
fn escapes_come_back_when_text_is_shown_inside_a_list() {
    let held = Value::list(vec![Value::text("a\"b\nc")]);
    assert_eq!(shown(&held), "[\"a\\\"b\\nc\"]");
}

#[test]
fn zero_and_minus_zero_are_equal_but_are_different_keys() {
    let zero = Value::Float(Float { bits: 0.0f64.to_bits(), shown: "0.0".to_string() });
    let minus = Value::Float(Float { bits: (-0.0f64).to_bits(), shown: "-0.0".to_string() });
    assert!(zero.equals(&minus, &Vec::new()));
    assert!(!same_key(&zero, &minus));
}

#[test]
fn containers_show_what_they_hold() {
    let tuple = Value::Tuple(vec![Value::Int(1), Value::text("a")]);
    assert_eq!(shown(&tuple), "(1, \"a\")");
    assert_eq!(shown(&Value::list(Vec::new())), "[]");
    assert_eq!(shown(&Value::Table(Vec::new())), "{}");
}

#[test]
fn a_map_gives_back_what_was_last_set_under_a_key_and_keeps_its_order() {
    let mut entries: Vec<vaab_vm::value::Entry> = Vec::new();
    vaab_vm::value::insert_entry(&mut entries, Value::text("b"), Value::Int(1));
    vaab_vm::value::insert_entry(&mut entries, Value::text("a"), Value::Int(2));
    vaab_vm::value::insert_entry(&mut entries, Value::text("b"), Value::Int(3));
    assert_eq!(entries.len(), 2);
    assert!(matches!(&entries[0].key, Value::Text(k) if k == "b"));
    assert!(matches!(vaab_vm::value::get_entry(&entries, &Value::text("b")), Some(Value::Int(3))));
    assert!(matches!(vaab_vm::value::get_entry(&entries, &Value::text("a")), Some(Value::Int(2))));
    assert!(vaab_vm::value::get_entry(&entries, &Value::text("c")).is_none());
}

#[test]
fn a_nan_key_can_be_found_again() {
    let nan = Value::Float(vaab_vm::value::Float { bits: f64::NAN.to_bits(), shown: "NaN".to_string() });
    let mut entries: Vec<vaab_vm::value::Entry> = Vec::new();
    vaab_vm::value::insert_entry(&mut entries, nan.clone(), Value::Int(1));
    assert!(matches!(vaab_vm::value::get_entry(&entries, &nan), Some(Value::Int(1))));
    assert!(!nan.equals(&nan, &Vec::new()));
    assert!(vaab_vm::value::same_key(&nan, &nan));
}

#[test]
fn two_casts_are_equal_exactly_when_their_cells_hold_equal_values() {
    let cells = vec![Value::Int(1), Value::Int(2), Value::Int(1)];
    let cast = |id: usize| Value::Record(Box::new(Record { layout: 0, fields: Vec::new(), cells: Some(vec![id]) }));
    assert!(!cast(0).equals(&cast(1), &cells));
    assert!(cast(0).equals(&cast(2), &cells));
    assert!(cast(0).equals(&cast(0), &cells));
    let plain = |n: i64| Value::Record(Box::new(Record { layout: 0, fields: vec![Value::Int(n)], cells: None }));
    assert!(plain(3).equals(&plain(3), &cells));
    assert!(!plain(3).equals(&plain(4), &cells));
}
