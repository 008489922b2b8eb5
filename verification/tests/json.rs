use vaab_vm::builtin::table;
use vaab_vm::bytecode::{Body, Op, Program, RecordLayout};
use vaab_vm::concurrency::Host;
use vaab_vm::error::{Fault, Span};
use vaab_vm::json::{decode_record, encode, json_text, json_to_value, record_from_json, Json};
use vaab_vm::machine::{Budget, Machine, Output, Step, World};
use vaab_vm::value::{same_value, Entry, Float, Record, Value};

fn float(x: f64) -> Value {
    Value::Float(Float { bits: x.to_bits(), shown: format!("{x:?}") })
}

fn people() -> Program {
    let mut program = Program::with_top_level("the top level".to_string());
    program.layouts.push(RecordLayout {
        name: "Person".to_string(),
        fields: vec!["name".to_string(), "age".to_string()],
        mutable: false,
        tables: Vec::new(),
    });
    program
}

fn person(name: &str, age: i64) -> Value {
    Value::Record(Box::new(Record { layout: 0, fields: vec![Value::text(name), Value::Int(age)], cells: None }))
}

fn refused(read: &Result<Value, Fault>, message: &str) -> bool {
    matches!(read, Err(Fault::Confused(m)) if *m == message)
}

fn reads_as(read: &Result<Value, Fault>, expected: &Value) -> bool {
    matches!(read, Ok(v) if same_value(v, expected, true))
}

#[test]
fn to_json_turns_a_map_into_text() {
    let program = people();
    let map = table(vec![Value::text("a"), Value::Int(1)]);
    assert_eq!(encode(&map, &program).ok(), Some("{\"a\":1}".to_string()));
}

#[test]
fn a_record_is_written_as_an_object_of_its_fields() {
    assert_eq!(encode(&person("ada", 36), &people()).ok(), Some("{\"age\":36,\"name\":\"ada\"}".to_string()));
}

#[test]
fn a_float_is_written_as_its_number_and_nan_has_no_json() {
    let program = people();
    assert_eq!(encode(&float(1.5), &program).ok(), Some("1.5".to_string()));
    assert!(encode(&float(f64::NAN), &program).is_err());
    assert_eq!(encode(&Value::Maybe(None), &program).ok(), Some("null".to_string()));
}

#[test]
fn json_text_writes_what_the_library_built() {
    let json = Json::Object(vec![
        ("list".to_string(), Json::Array(vec![Json::Int(-2), Json::Bool(false), Json::Null])),
        ("half".to_string(), Json::Float { bits: 0.5f64.to_bits(), shown: "0.5".to_string() }),
    ]);
    assert_eq!(json_text(&json).ok(), Some("{\"half\":0.5,\"list\":[-2,false,null]}".to_string()));
}

#[test]
fn a_request_body_becomes_a_record_in_its_layout_order() {
    let read = decode_record("{\"age\": 36, \"name\": \"ada\", \"extra\": true}", 0, &people());
    assert!(reads_as(&read, &person("ada", 36)));
}

#[test]
fn a_body_that_is_not_json_is_refused() {
    assert!(refused(&decode_record("{\"name\": ", 0, &people()), "the request body is not valid JSON"));
}

#[test]
fn a_body_must_be_an_object() {
    assert!(refused(&decode_record("[1, 2]", 0, &people()), "the request body must be a JSON object"));
}

#[test]
fn a_body_missing_a_field_is_refused() {
    assert!(refused(&decode_record("{\"name\": \"ada\"}", 0, &people()), "the request body is missing a field"));
}

#[test]
fn a_body_for_a_layout_that_is_not_there_is_refused() {
    assert!(refused(&decode_record("{}", 3, &people()), "a record named a layout that is not there"));
}

#[test]
fn json_reads_null_as_absent_decimals_as_floats_and_objects_as_maps() {
    let mut program = Program::with_top_level("the top level".to_string());
    program.layouts.push(RecordLayout {
        name: "Mixed".to_string(),
        fields: vec!["a".to_string(), "b".to_string(), "c".to_string(), "d".to_string()],
        mutable: false,
        tables: Vec::new(),
    });
    let read = decode_record("{\"a\": null, \"b\": 1.5, \"c\": [1, \"x\"], \"d\": {\"k\": 2}}", 0, &program);
    let expected = Value::Record(Box::new(Record {
        layout: 0,
        fields: vec![
            Value::Maybe(None),
            float(1.5),
            Value::List(vec![Value::Int(1), Value::text("x")]),
            Value::Table(vec![Entry { key: Value::text("k"), value: Value::Int(2) }]),
        ],
        cells: None,
    }));
    assert!(reads_as(&read, &expected));
}

#[test]
fn a_later_key_replaces_an_earlier_one_in_place() {
    let json = Json::Object(vec![
        ("k".to_string(), Json::Int(1)),
        ("j".to_string(), Json::Int(2)),
        ("k".to_string(), Json::Int(3)),
    ]);
    let expected = Value::Table(vec![
        Entry { key: Value::text("k"), value: Value::Int(3) },
        Entry { key: Value::text("j"), value: Value::Int(2) },
    ]);
    assert!(same_value(&json_to_value(&json), &expected, true));
}

#[test]
fn a_record_read_from_json_takes_the_first_field_of_each_name() {
    let json = Json::Object(vec![
        ("name".to_string(), Json::Text("ada".to_string())),
        ("age".to_string(), Json::Int(36)),
        ("name".to_string(), Json::Text("grace".to_string())),
    ]);
    assert!(reads_as(&record_from_json(&json, 0, &people()), &person("ada", 36)));
    assert!(refused(&record_from_json(&Json::Int(1), 0, &people()), "the request body must be a JSON object"));
}

#[test]
fn a_record_written_out_reads_back_the_same() {
    let program = people();
    let text = encode(&person("ada", 36), &program).ok().expect("a record has JSON");
    assert!(reads_as(&decode_record(&text, 0, &program), &person("ada", 36)));
}

#[test]
fn reply_with_leaves_a_json_reply() {
    let mut program = people();
    let code = vec![Op::Constant(0), Op::ReplyWith(false), Op::Nothing, Op::Return];
    let spans = code.iter().enumerate().map(|(i, _)| Span::new(i, i + 1)).collect();
    program.bodies[0] = Body { name: "the top level".to_string(), code, spans, slots: 0, parameters: 0, captures: Vec::new() };
    program.constants = vec![person("ada", 36)];
    let mut world = World::new(program, Output::collected());
    let mut machine = Machine::start(&world.program);
    let mut host = Host::scratch();
    let step = machine.resume(&mut world, &mut host, Budget::unlimited(), 0);
    assert!(matches!(step, Step::Finished(Value::Nothing)));
    let reply = world.response.expect("a reply");
    assert_eq!(reply.status, 200);
    assert_eq!(reply.content_type, "application/json");
    assert_eq!(reply.body, "{\"age\":36,\"name\":\"ada\"}");
}
