use vaab_vm::auth::{constant_time_eq, sign_token, verify_bearer};
use vaab_vm::bytecode::{count, Body, Capture, Op, Program, RecordLayout};
use vaab_vm::jit::{is_eligible, native_plan, Arith, Exit, Step};
use vaab_vm::json::{value_to_json, Json};
use vaab_vm::log::{civil_from_days, escape_field, keeps, render_pretty, render_text, timestamp, Format, Level};
use vaab_vm::outside::{headers_from_value, postgres_placeholders};
use vaab_vm::query::{dialect_for, like_match, store_insert_value, store_update_value, text_field, Compare, Dialect, Query, QuerySource, StoreValue};
use vaab_vm::static_files::mime_for;
use vaab_vm::builtin::table;
use vaab_vm::error::Span;
use vaab_vm::value::{Closure, Entry, Record, Value};

#[test]
fn a_disassembly_names_what_an_instruction_works_on() {
    let mut program = Program::with_top_level("the top level".to_string());
    program.constants.push(Value::text("ada"));
    program.bodies[0].code.push(Op::Constant(0));
    program.bodies[0].spans.push(Span::new(0, 1));
    let listing = program.disassemble();
    assert!(listing.contains("Constant 0 (\"ada\")"), "{listing}");
    assert!(listing.contains("0 slots, 0 parameters"), "{listing}");
}

#[test]
fn a_count_says_it_in_english() {
    assert_eq!(count(1, "slot"), "1 slot");
    assert_eq!(count(0, "slot"), "0 slots");
    assert_eq!(count(12, "parameter"), "12 parameters");
}

#[test]
fn levels_and_formats_are_read_from_their_names() {
    assert_eq!(Level::parse(" WARNING "), Some(Level::Warn));
    assert_eq!(Level::parse("Info"), Some(Level::Info));
    assert_eq!(Level::parse("loud"), None);
    assert_eq!(Format::parse("JSON"), Some(Format::Json));
    assert_eq!(Format::parse("pretty"), Some(Format::Pretty));
    assert_eq!(Format::parse("xml"), None);
    assert_eq!(Format::Text.as_str(), "text");
    assert_eq!(Level::Error.label(), "ERROR");
    assert_eq!(Level::Debug.as_str(), "debug");
}

#[test]
fn a_logger_keeps_lines_at_or_above_its_level() {
    assert!(keeps(Level::Info, Level::Info));
    assert!(keeps(Level::Info, Level::Error));
    assert!(!keeps(Level::Info, Level::Debug));
}

#[test]
fn a_field_is_quoted_only_when_it_could_not_be_read_back() {
    assert_eq!(escape_field("plain"), "plain");
    assert_eq!(escape_field(""), "\"\"");
    assert_eq!(escape_field("two words"), "\"two words\"");
    assert_eq!(escape_field("a=\"b\"\n"), "\"a=\\\"b\\\"\\n\"");
}

#[test]
fn the_calendar_counts_from_1970() {
    assert_eq!(civil_from_days(0), (1970, 1, 1, 0, 0, 0));
    assert_eq!(civil_from_days(951_782_400 + 3_661), (2000, 2, 29, 1, 1, 1));
    assert_eq!(timestamp(1_790_055_480), "2026-09-22T05:38:00Z");
}

#[test]
fn text_and_pretty_lines_are_laid_out_the_way_their_formats_say() {
    let fields = vec![("user".to_string(), "ada".to_string()), ("note".to_string(), "hi there".to_string())];
    assert_eq!(render_text("T", Level::Info, "shown", &fields), "T INFO shown user=ada note=\"hi there\"");
    assert_eq!(render_pretty(Level::Warn, "slow", &fields), "warn  slow\n       user=ada  note=\"hi there\"");
    assert_eq!(render_pretty(Level::Warn, "slow", &Vec::new()), "warn  slow");
}

#[test]
fn like_matches_with_percent_as_any_run() {
    assert!(like_match("apple", "apple"));
    assert!(!like_match("apple", "apples"));
    assert!(like_match("apple", "app%"));
    assert!(like_match("pineapple", "%eap%"));
    assert!(like_match("pineapple", "pi%app%"));
    assert!(!like_match("banana", "%eap%"));
    assert!(!like_match("apple", "b%"));
    assert!(like_match("apple", "%ple"));
    assert!(like_match("xabc", "%abc"));
    assert!(like_match("abc", "%abc"));
    assert!(like_match("abc", "a%c"));
    assert!(like_match("ac", "a%c"));
    assert!(!like_match("a", "a%a"));
    assert!(like_match("pleple", "%ple"));
}

#[test]
fn a_postgres_url_asks_for_the_postgres_dialect() {
    assert_eq!(dialect_for("PostgreSQL://db.example/app"), Dialect::Postgres);
    assert_eq!(dialect_for("postgres:local"), Dialect::Postgres);
    assert_eq!(dialect_for("sqlite:app.db"), Dialect::Sqlite);
}

#[test]
fn dollar_placeholders_become_question_marks() {
    assert_eq!(postgres_placeholders("select * from t where a = $1 and b = $22"), "select * from t where a = ?1 and b = ?22");
    assert_eq!(postgres_placeholders("price in $ and $x"), "price in $ and $x");
}

#[test]
fn a_file_is_served_with_the_type_its_extension_names() {
    assert_eq!(mime_for("site/index.html"), "text/html; charset=utf-8");
    assert_eq!(mime_for("app.min.js"), "text/javascript; charset=utf-8");
    assert_eq!(mime_for("README"), "application/octet-stream");
    assert_eq!(mime_for("photo.jpeg"), "image/jpeg");
}

#[test]
fn a_query_is_built_up_one_clause_at_a_time() {
    let query = Query::from_db(3, "items".to_string())
        .with_predicate("kind".to_string(), Compare::Eq, "a".to_string())
        .with_order("id".to_string(), true)
        .with_limit(10)
        .with_offset(5)
        .with_columns(vec!["id".to_string()]);
    assert_eq!(query.source, QuerySource::Db(3));
    assert_eq!(query.predicates.len(), 1);
    assert!(query.order[0].descending);
    assert_eq!(query.limit, Some(10));
    assert_eq!(query.offset, Some(5));
    assert_eq!(query.error_name(), "DbError");
    assert_eq!(Query::from_store(1, "k:".to_string()).error_name(), "StoreError");
}

#[test]
fn a_token_is_signed_with_a_hex_hmac_and_checked_in_full() {
    let mac = sign_token("secret", "7", "ada@example.com");
    assert_eq!(mac.len(), 64);
    assert!(mac.chars().all(|c| c.is_ascii_hexdigit() && !c.is_ascii_uppercase()));
    assert!(constant_time_eq(mac.as_bytes(), mac.as_bytes()));
    assert!(!constant_time_eq(b"abc", b"abd"));
    assert!(!constant_time_eq(b"abc", b"ab"));
    let token = format!("Bearer 7|ada@example.com|{mac}");
    let headers = vec![("authorization".to_string(), token)];
    match verify_bearer(&headers, Some("secret".to_string()), 2) {
        Some(Value::Record(record)) => {
            assert_eq!(record.layout, 2);
            assert!(matches!(&record.fields[0], Value::Text(t) if t == "7"));
            assert!(matches!(&record.fields[1], Value::Text(t) if t == "ada@example.com"));
        },
        _ => panic!("a token signed with the secret should be accepted"),
    }
    assert!(verify_bearer(&headers, Some("other".to_string()), 2).is_none());
    assert!(verify_bearer(&headers, None, 2).is_none());
    let bad = vec![("Authorization".to_string(), "Bearer 7|ada".to_string())];
    assert!(verify_bearer(&bad, Some("secret".to_string()), 2).is_none());
}

#[test]
fn headers_must_map_text_to_text() {
    let good = table(vec![Value::text("accept"), Value::text("text/plain")]);
    let pairs = headers_from_value(&good).ok().unwrap();
    assert_eq!(pairs, vec![("accept".to_string(), "text/plain".to_string())]);
    let bad = table(vec![Value::text("n"), Value::Int(1)]);
    assert!(headers_from_value(&bad).is_err());
    assert!(headers_from_value(&Value::Int(1)).is_err());
}

#[test]
fn a_record_becomes_an_object_keyed_by_its_fields() {
    let mut program = Program::with_top_level("the top level".to_string());
    program.layouts.push(RecordLayout { name: "User".to_string(), fields: vec!["id".to_string(), "ok".to_string()], mutable: false, tables: Vec::new() });
    let record = Value::Record(Box::new(Record { layout: 0, fields: vec![Value::Int(1), Value::Bool(true)], cells: None }));
    match value_to_json(&record, &program) {
        Ok(Json::Object(entries)) => {
            assert_eq!(entries.len(), 2);
            assert_eq!(entries[0].0, "id");
            assert!(matches!(entries[0].1, Json::Int(1)));
            assert!(matches!(entries[1].1, Json::Bool(true)));
        },
        _ => panic!("a record should become an object"),
    }
    let function = Value::Function(Box::new(Closure { identity: 0, body: 0, name: "f".to_string(), captures: Vec::new() }));
    assert!(value_to_json(&function, &program).is_err());
}

#[test]
fn only_pure_whole_number_bodies_go_native() {
    let program = Program::with_top_level("the top level".to_string());
    let pure = Body { name: "`sum`".to_string(), code: vec![Op::LoadLocal(0), Op::LoadLocal(1), Op::Add, Op::Return], spans: Vec::new(), slots: 2, parameters: 2, captures: Vec::new() };
    assert!(is_eligible(&program, &pure, 1));
    let printing = Body { code: vec![Op::Int(1), Op::Builtin(vaab_vm::builtin::Builtin::Print), Op::Return], ..pure };
    assert!(!is_eligible(&program, &printing, 1));
    let capturing = Body { name: "`c`".to_string(), code: vec![Op::Return], spans: Vec::new(), slots: 0, parameters: 0, captures: vec![Capture::Local(0)] };
    assert!(!is_eligible(&program, &capturing, 1));
}

#[test]
fn a_pattern_without_a_percent_matches_only_itself() {
    assert!(like_match("apple", "apple"));
    assert!(!like_match("apples", "apple"));
    assert!(!like_match("Apple", "apple"));
    assert!(like_match("", ""));
}

#[test]
fn a_lone_percent_matches_anything() {
    assert!(like_match("anything at all", "%"));
    assert!(like_match("", "%"));
}

#[test]
fn placeholders_keep_the_length_and_sql_without_dollars_is_unchanged() {
    let sql = "SELECT * FROM t WHERE a = $1 AND b = $23 AND c = '$x'";
    let rewritten = postgres_placeholders(sql);
    assert_eq!(rewritten, "SELECT * FROM t WHERE a = ?1 AND b = ?23 AND c = '$x'");
    assert_eq!(rewritten.chars().count(), sql.chars().count());
    assert_eq!(postgres_placeholders("SELECT 1"), "SELECT 1");
}

fn send_to(book: &mut vaab_vm::logbook::LogBook, handle: u32, level: Level, message: &str) {
    match book.line(handle, level, message, &Vec::new(), "2024-05-01T12:00:00Z") {
        Ok(Some(vaab_vm::logbook::LogLine::Text(text))) => {
            book.deliver(handle, &text);
        }
        Ok(Some(vaab_vm::logbook::LogLine::Json(_))) => panic!("a text logger wrote JSON"),
        Ok(None) => {}
        Err(message) => panic!("{message}"),
    }
}

#[test]
fn memory_logger_keeps_lines_at_or_above_its_level() {
    let mut book = vaab_vm::logbook::LogBook::new();
    let log = book.open(vaab_vm::logbook::Sink::Memory).expect("a logger");
    book.set_level(log, Level::Info).expect("a level");
    book.set_format(log, Format::Text).expect("a format");
    send_to(&mut book, log, Level::Debug, "hidden");
    send_to(&mut book, log, Level::Info, "shown");
    let lines = book.lines(log).expect("its lines");
    assert_eq!(lines.len(), 1);
    assert!(lines[0].contains("INFO"));
    assert!(lines[0].contains("shown"));
}

#[test]
fn multi_writes_to_every_child() {
    let mut book = vaab_vm::logbook::LogBook::new();
    let left = book.open(vaab_vm::logbook::Sink::Memory).expect("a logger");
    let right = book.open(vaab_vm::logbook::Sink::Memory).expect("a logger");
    book.set_level(left, Level::Debug).expect("a level");
    book.set_level(right, Level::Debug).expect("a level");
    let both = book.open(vaab_vm::logbook::Sink::Multi(vec![left, right])).expect("a logger");
    send_to(&mut book, both, Level::Info, "ping");
    assert_eq!(book.lines(left).expect("lines").len(), 1);
    assert_eq!(book.lines(right).expect("lines").len(), 1);
    assert_eq!(book.lines(both).expect("lines").len(), 2);
}

#[test]
fn a_multi_logger_names_only_loggers_that_are_open() {
    let mut book = vaab_vm::logbook::LogBook::new();
    let first = book.open(vaab_vm::logbook::Sink::Stdout).expect("a logger");
    assert_eq!(book.open(vaab_vm::logbook::Sink::Multi(vec![first, 7])), Err("unknown logger 7".to_string()));
    assert_eq!(book.describe(first), Ok("logger stdout".to_string()));
    assert_eq!(book.level(9), Err("unknown logger 9".to_string()));
}

#[test]
fn a_line_sent_to_a_multi_logger_goes_everywhere_its_children_write() {
    let mut book = vaab_vm::logbook::LogBook::new();
    let out = book.open(vaab_vm::logbook::Sink::Stdout).expect("a logger");
    let err = book.open(vaab_vm::logbook::Sink::Stderr).expect("a logger");
    let file = book.open(vaab_vm::logbook::Sink::File("app.log".to_string())).expect("a logger");
    let all = book.open(vaab_vm::logbook::Sink::Multi(vec![err, out, file, err])).expect("a logger");
    let deliveries = book.deliver(all, &"hello".to_string());
    assert_eq!(deliveries.len(), 4);
    assert!(matches!(&deliveries[0], vaab_vm::logbook::Delivery::Stderr(line) if line == "hello"));
    assert!(matches!(&deliveries[1], vaab_vm::logbook::Delivery::Stdout(_)));
    assert!(matches!(&deliveries[2], vaab_vm::logbook::Delivery::File(h, _) if *h == file));
    assert_eq!(book.describe(all), Ok("logger multi(4)".to_string()));
}

#[test]
fn a_json_logger_lays_its_line_out_as_one_object() {
    let mut book = vaab_vm::logbook::LogBook::new();
    let log = book.open(vaab_vm::logbook::Sink::Memory).expect("a logger");
    book.set_format(log, Format::Json).expect("a format");
    let line = book.line(log, Level::Warn, "slow", &vec![("ms".to_string(), "12".to_string())], "T");
    match line {
        Ok(Some(vaab_vm::logbook::LogLine::Json(Json::Object(entries)))) => {
            assert_eq!(entries.len(), 4);
            assert_eq!(entries[0].0, "time");
            assert!(matches!(&entries[1].1, Json::Text(t) if t == "warn"));
            assert!(matches!(&entries[3].1, Json::Object(fields) if fields.len() == 1));
        }
        _ => panic!("a JSON line"),
    }
}

#[test]
fn a_disassembly_lists_every_body_with_numbered_lines() {
    let mut program = Program::with_top_level("the top level".to_string());
    program.bodies[0].code = vec![Op::Int(1), Op::Now, Op::Return];
    program.bodies[0].spans = vec![Span::new(0, 1); 3];
    program.bodies[0].slots = 1;
    let listing = program.disassemble();
    assert_eq!(
        listing,
        "body 0: the top level \u{2014} 1 slot, 0 parameters\n    0  Int(1)\n    1  Now\n    2  Return\n\n"
    );
}

#[test]
fn a_cast_field_changes_in_its_cell_and_a_type_field_does_not() {
    let mut cells = vec![Value::Int(1), Value::Int(2)];
    let cast = Record { layout: 0, fields: Vec::new(), cells: Some(vec![1, 0]) };
    assert!(cast.set_field(0, Value::Int(9), &mut cells));
    assert!(matches!(cells[1], Value::Int(9)));
    assert!(matches!(cells[0], Value::Int(1)));
    assert!(!cast.set_field(2, Value::Int(9), &mut cells));
    let plain = Record { layout: 0, fields: vec![Value::Int(5)], cells: None };
    assert!(!plain.set_field(0, Value::Int(9), &mut cells));
}

#[test]
fn a_query_is_wrapped_as_a_value_and_read_back() {
    let query = Query::from_db(3, "people".to_string());
    let value = vaab_vm::query::wrap(query);
    let back = vaab_vm::query::as_query(&value).expect("a query");
    assert!(matches!(back.source, QuerySource::Db(3)));
    assert_eq!(back.table, "people");
    assert_eq!(vaab_vm::query::as_query(&Value::Int(1)).err(), Some("expected a Query".to_string()));
}

#[test]
fn a_statement_past_the_last_starts_at_the_end() {
    let mut program = Program::with_top_level("the top level".to_string());
    program.statements = vec![0, 4, 9];
    assert_eq!(program.statement_start(0), 0);
    assert_eq!(program.statement_start(1), 4);
    assert_eq!(program.statement_start(2), 9);
    assert_eq!(program.statement_start(7), 9);
}

#[test]
fn a_disassembly_writes_plain_instructions_as_debug_does() {
    let ops = vec![
        Op::Int(-3),
        Op::ListLengthIs { length: 2, at_least: true },
        Op::CallAbility { ability: 1, slot: 0, arity: 2 },
        Op::RequestWho { user: 4, unauthorized: 5 },
        Op::ReplyWith(false),
        Op::Box(7),
        Op::NoArm,
    ];
    let mut program = Program::with_top_level("the top level".to_string());
    program.bodies[0].code = ops.clone();
    program.bodies[0].spans = vec![Span::new(0, 1); ops.len()];
    program.bodies[0].captures = vec![Capture::Local(0), Capture::Upvalue(1)];
    let listing = program.disassemble();
    for op in &ops {
        assert!(listing.contains(&format!("  {:?}\n", op)), "{listing}");
    }
    assert!(listing.contains(&format!(", captures {:?}\n", vec![Capture::Local(0), Capture::Upvalue(1)])), "{listing}");
}

fn program_with(code: Vec<Op>, parameters: usize, slots: usize) -> Program {
    let mut program = Program::with_top_level("the top level".to_string());
    program.bodies.push(Body { name: "`f`".to_string(), code, spans: Vec::new(), slots, parameters, captures: Vec::new() });
    program
}

#[test]
fn a_native_plan_names_each_number_by_the_step_that_made_it() {
    let program = program_with(vec![Op::LoadLocal(0), Op::Int(2), Op::Multiply, Op::Return], 1, 1);
    let plan = native_plan(&program, 1).unwrap();
    assert_eq!((plan.body, plan.parameters, plan.slots), (1, 1, 1));
    assert_eq!(plan.blocks.len(), 1);
    let block = &plan.blocks[0];
    assert_eq!(block.start, 0);
    assert!(matches!(block.steps[0], Step::Load(0)));
    assert!(matches!(block.steps[1], Step::Number(2)));
    assert!(matches!(block.steps[2], Step::Arith(Arith::Multiply, 0, 1)));
    assert!(matches!(block.exit, Exit::Return(Some(2))));
}

#[test]
fn a_native_plan_holds_one_block_for_each_place_control_reaches() {
    let code = vec![Op::LoadLocal(0), Op::JumpIfFalse(4), Op::Int(1), Op::Return, Op::Int(0), Op::Return];
    let program = program_with(code, 1, 1);
    let plan = native_plan(&program, 1).unwrap();
    let starts: Vec<usize> = plan.blocks.iter().map(|block| block.start).collect();
    assert_eq!(starts, vec![0, 4, 2]);
    assert!(matches!(plan.blocks[0].exit, Exit::Branch { condition: 0, when_true: false, taken: 4, fallthrough: 2 }));
    assert!(matches!(plan.blocks[1].exit, Exit::Return(Some(0))));
}

#[test]
fn a_call_in_a_native_plan_names_its_target_and_arguments() {
    let mut program = program_with(vec![Op::Constant(0), Op::LoadLocal(0), Op::Call(1), Op::Return], 1, 1);
    program.constants.push(Value::Function(Box::new(Closure { identity: 7, body: 1, name: "`f`".to_string(), captures: Vec::new() })));
    let plan = native_plan(&program, 1).unwrap();
    match &plan.blocks[0].steps[1] {
        Step::Call { target, parameters, args } => assert_eq!((*target, *parameters, args.clone()), (1, 1, vec![0])),
        other => panic!("{other:?}"),
    }
}

#[test]
fn a_native_plan_says_why_a_body_cannot_be_built() {
    let empty_add = program_with(vec![Op::Add, Op::Return], 0, 0);
    assert_eq!(native_plan(&empty_add, 1).unwrap_err(), "binary op with empty stack");
    assert_eq!(native_plan(&empty_add, 9).unwrap_err(), "body 9 is missing");
    let wide = program_with(vec![Op::Int(0), Op::Return], 5, 5);
    assert_eq!(native_plan(&wide, 1).unwrap_err(), "tier-1 JIT supports up to 4 parameters, not 5");
    let printing = program_with(vec![Op::Int(1), Op::Builtin(vaab_vm::builtin::Builtin::Print), Op::Return], 0, 0);
    assert_eq!(
        native_plan(&printing, 1).unwrap_err(),
        format!("unsupported op in tier-1 JIT: {:?}", Op::Builtin(vaab_vm::builtin::Builtin::Print))
    );
    let stray_jump = program_with(vec![Op::Jump(40)], 0, 0);
    let plan = native_plan(&stray_jump, 1).unwrap();
    assert!(matches!(plan.blocks[1].exit, Exit::Return(None)));
}

fn text_entry(key: &str, value: Value) -> Entry {
    Entry { key: Value::text(key), value }
}

#[test]
fn a_store_row_is_written_as_its_value_text_or_as_its_other_fields() {
    let with_value = vec![text_entry("key", Value::text("k1")), text_entry("value", Value::text("hello"))];
    assert_eq!(text_field(&with_value, "key"), Some("k1".to_string()));
    assert!(matches!(store_insert_value(&with_value), StoreValue::Given(ref t) if t == "hello"));
    let with_fields = vec![text_entry("key", Value::text("k1")), text_entry("name", Value::text("ada")), text_entry("age", Value::Int(36))];
    match store_insert_value(&with_fields) {
        StoreValue::Fields(fields) => {
            assert_eq!(fields.len(), 2);
            assert!(matches!(&fields[0].key, Value::Text(k) if k == "name"));
        },
        StoreValue::Given(_) => panic!("fields were expected"),
    }
    let only_key = vec![text_entry("key", Value::text("k1")), text_entry("value", Value::text("old"))];
    assert!(matches!(store_update_value(&Vec::new(), &only_key), StoreValue::Given(ref t) if t == "old"));
}

#[test]
fn a_field_with_any_white_space_is_quoted() {
    assert_eq!(escape_field("a\u{3000}b"), "\"a\u{3000}b\"");
    assert_eq!(escape_field("a\tb"), "\"a\tb\"");
    assert_eq!(escape_field("a\u{00e9}b"), "a\u{00e9}b");
}

#[test]
fn a_bearer_token_is_read_without_the_white_space_round_it() {
    let mac = sign_token("secret", "7", "ada");
    let token = format!("Bearer \u{2003} 7|ada|{mac}\t\n");
    let headers = vec![("authorization".to_string(), token)];
    assert!(verify_bearer(&headers, Some("secret".to_string()), 0).is_some());
}
