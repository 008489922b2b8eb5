use vaab_vm::builtin::Builtin;
use vaab_vm::bytecode::{Body, Op, Program, RecordLayout, VariantLayout};
use vaab_vm::concurrency::Host;
use vaab_vm::error::{Fault, Operation, Span};
use vaab_vm::machine::{Budget, Machine, Output, Step, World, MOST_CALLS};
use vaab_vm::outside::{Answer, Request};
use vaab_vm::value::{Float, Value};

fn program_of(code: Vec<Op>, constants: Vec<Value>, slots: usize) -> Program {
    let mut program = Program::with_top_level("the top level".to_string());
    let spans = code.iter().enumerate().map(|(i, _)| Span::new(i, i + 1)).collect();
    program.bodies[0] = Body { name: "the top level".to_string(), code, spans, slots, parameters: 0, captures: Vec::new() };
    program.constants = constants;
    program
}

fn run(world: &mut World) -> Step {
    let mut machine = Machine::start(&world.program);
    let mut host = Host::scratch();
    machine.resume(world, &mut host, Budget::unlimited(), 0)
}

fn lines(world: &World) -> Vec<String> {
    world.output.lines().to_vec()
}

fn float(x: f64) -> Value {
    Value::Float(Float { bits: x.to_bits(), shown: format!("{x:?}") })
}

#[test]
fn print_writes_a_line_and_the_file_gives_back_nothing() {
    let program = program_of(
        vec![Op::Constant(0), Op::Builtin(Builtin::Print), Op::Pop, Op::Nothing, Op::Return],
        vec![Value::text("hello")],
        0,
    );
    let mut world = World::new(program, Output::collected());
    let step = run(&mut world);
    assert!(matches!(step, Step::Finished(Value::Nothing)));
    assert_eq!(lines(&world), vec!["hello".to_string()]);
}

#[test]
fn arithmetic_follows_the_stack() {
    let program = program_of(
        vec![Op::Int(6), Op::Int(7), Op::Multiply, Op::Int(2), Op::Subtract, Op::Builtin(Builtin::Print), Op::Return],
        Vec::new(),
        0,
    );
    let mut world = World::new(program, Output::collected());
    let step = run(&mut world);
    assert!(matches!(step, Step::Finished(Value::Nothing)));
    assert_eq!(lines(&world), vec!["40".to_string()]);
}

#[test]
fn a_machine_started_with_no_budget_at_all_does_nothing_and_stays_ready() {
    let program = program_of(vec![Op::Int(1), Op::Return], Vec::new(), 0);
    let mut world = World::new(program, Output::collected());
    let mut machine = Machine::start(&world.program);
    let mut host = Host::scratch();
    let step = machine.resume(&mut world, &mut host, Budget::of(0), 0);
    assert!(matches!(step, Step::Yielded));
    assert_eq!(machine.depth(), 1);
    assert!(!machine.is_finished());
    let step = machine.resume(&mut world, &mut host, Budget::unlimited(), 0);
    assert!(matches!(step, Step::Finished(Value::Int(1))));
    assert!(machine.is_finished());
}

#[test]
fn a_machine_that_runs_out_of_budget_carries_on_from_where_it_stopped() {
    // slot 0 counts up to 3, printing each number.
    let code = vec![
        Op::Int(0), Op::StoreLocal(0),
        Op::LoadLocal(0), Op::Int(3), Op::Less, Op::JumpIfFalse(14),
        Op::LoadLocal(0), Op::Builtin(Builtin::Print), Op::Pop,
        Op::LoadLocal(0), Op::Int(1), Op::Add, Op::StoreLocal(0),
        Op::Jump(2),
        Op::Nothing, Op::Return,
    ];
    let program = program_of(code, Vec::new(), 1);
    let mut world = World::new(program, Output::collected());
    let mut machine = Machine::start(&world.program);
    let mut host = Host::scratch();
    let mut steps = 0;
    loop {
        match machine.resume(&mut world, &mut host, Budget::of(5), 0) {
            Step::Yielded => steps += 1,
            Step::Finished(_) => break,
            _ => panic!("the loop should only yield or finish"),
        }
    }
    assert!(steps > 1);
    assert_eq!(lines(&world), vec!["0".to_string(), "1".to_string(), "2".to_string()]);
}

#[test]
fn a_function_that_calls_itself_for_ever_stops_with_a_count_of_its_calls() {
    let mut program = program_of(vec![Op::MakeFunction(1), Op::Call(0), Op::Return], Vec::new(), 0);
    program.bodies.push(Body {
        name: "`forever`".to_string(),
        code: vec![Op::MakeFunction(1), Op::Call(0), Op::Return],
        spans: vec![Span::new(0, 1), Span::new(1, 2), Span::new(2, 3)],
        slots: 0,
        parameters: 0,
        captures: Vec::new(),
    });
    let mut world = World::new(program, Output::collected());
    match run(&mut world) {
        Step::Failed(error) => {
            assert!(matches!(error.fault, Fault::TooManyCalls { depth } if depth == MOST_CALLS));
            assert_eq!(error.trace.len(), MOST_CALLS);
            assert_eq!(error.trace[0].name, "`forever`");
        },
        _ => panic!("runaway recursion should fail"),
    }
}

#[test]
fn dividing_by_zero_stops_whether_the_numbers_are_whole_or_not() {
    let program = program_of(vec![Op::Int(1), Op::Int(0), Op::Divide, Op::Return], Vec::new(), 0);
    let mut world = World::new(program, Output::collected());
    assert!(matches!(run(&mut world), Step::Failed(e) if matches!(e.fault, Fault::DividedByZero(Operation::Division))));
    let program = program_of(vec![Op::Constant(0), Op::Constant(1), Op::Divide, Op::Return], vec![float(1.0), float(0.0)], 0);
    let mut world = World::new(program, Output::collected());
    assert!(matches!(run(&mut world), Step::Failed(e) if matches!(e.fault, Fault::DividedByZero(Operation::Division))));
}

#[test]
fn float_arithmetic_is_asked_of_the_float_unit_and_its_answer_goes_on() {
    let program = program_of(
        vec![Op::Constant(0), Op::Constant(1), Op::Add, Op::Builtin(Builtin::Print), Op::Return],
        vec![float(0.5), float(0.25)],
        0,
    );
    let mut world = World::new(program, Output::collected());
    let mut machine = Machine::start(&world.program);
    let mut host = Host::scratch();
    match machine.resume(&mut world, &mut host, Budget::unlimited(), 0) {
        Step::Outside(Request::FloatArithmetic { op, left, right }) => {
            assert_eq!(op, Op::Add);
            assert_eq!(left, 0.5f64.to_bits());
            assert_eq!(right, 0.25f64.to_bits());
        },
        _ => panic!("float arithmetic should be asked for"),
    }
    let sum = Float { bits: 0.75f64.to_bits(), shown: "0.75".to_string() };
    assert!(machine.complete(&mut world, Answer::Float(sum)).is_ok());
    assert!(matches!(machine.resume(&mut world, &mut host, Budget::unlimited(), 0), Step::Finished(Value::Nothing)));
    assert_eq!(lines(&world), vec!["0.75".to_string()]);
}

#[test]
fn reading_a_missing_file_fails_with_the_variant_the_program_names() {
    let mut program = program_of(
        vec![Op::Constant(0), Op::ReadFile(0), Op::Builtin(Builtin::Print), Op::Return],
        vec![Value::text("missing.txt")],
        0,
    );
    program.variants.push(VariantLayout {
        index: 0,
        choice: "FileError".to_string(),
        name: "NotFound".to_string(),
        fields: vec!["path".to_string()],
    });
    let mut world = World::new(program, Output::collected());
    let mut machine = Machine::start(&world.program);
    let mut host = Host::scratch();
    match machine.resume(&mut world, &mut host, Budget::unlimited(), 0) {
        Step::Outside(Request::ReadFile { path }) => assert_eq!(path, "missing.txt"),
        _ => panic!("reading a file should be asked for"),
    }
    assert!(machine.complete(&mut world, Answer::Missing).is_ok());
    assert!(matches!(machine.resume(&mut world, &mut host, Budget::unlimited(), 0), Step::Finished(Value::Nothing)));
    assert_eq!(lines(&world), vec!["failure FileError.NotFound(\"missing.txt\")".to_string()]);
}

#[test]
fn a_terminal_print_is_handed_out_and_the_program_goes_on() {
    let program = program_of(vec![Op::Int(5), Op::Builtin(Builtin::Print), Op::Return], Vec::new(), 0);
    let mut world = World::new(program, Output::Terminal);
    let mut machine = Machine::start(&world.program);
    let mut host = Host::scratch();
    match machine.resume(&mut world, &mut host, Budget::unlimited(), 0) {
        Step::Outside(Request::Print { text }) => assert_eq!(text, "5"),
        _ => panic!("a terminal print should be handed out"),
    }
    assert!(machine.complete(&mut world, Answer::Done).is_ok());
    assert!(matches!(machine.resume(&mut world, &mut host, Budget::unlimited(), 0), Step::Finished(Value::Nothing)));
}

#[test]
fn a_list_is_built_read_and_measured() {
    let program = program_of(
        vec![Op::Int(10), Op::Int(20), Op::Int(30), Op::List(3), Op::Duplicate, Op::Int(1), Op::Index,
             Op::Builtin(Builtin::Print), Op::Pop, Op::Length, Op::Return],
        Vec::new(),
        0,
    );
    let mut world = World::new(program, Output::collected());
    assert!(matches!(run(&mut world), Step::Finished(Value::Int(3))));
    assert_eq!(lines(&world), vec!["20".to_string()]);
}

#[test]
fn a_world_takes_a_new_program_without_losing_what_it_holds() {
    let mut program = program_of(vec![Op::Int(4), Op::StoreGlobal(0), Op::Nothing, Op::Return], Vec::new(), 0);
    program.globals = 1;
    let mut world = World::new(program, Output::collected());
    assert!(matches!(run(&mut world), Step::Finished(_)));
    let mut next = program_of(vec![Op::LoadGlobal(0), Op::Return], Vec::new(), 0);
    next.globals = 2;
    world.reload(next);
    assert_eq!(world.globals.len(), 2);
    assert!(matches!(run(&mut world), Step::Finished(Value::Int(4))));
}

#[test]
fn one_instruction_at_a_time_a_local_is_stored_read_and_added_to() {
    let program = program_of(
        vec![Op::Int(7), Op::StoreLocal(0), Op::LoadLocal(0), Op::Int(1), Op::Add, Op::JumpIfTrue(9), Op::Return],
        Vec::new(),
        1,
    );
    let mut world = World::new(program, Output::collected());
    let mut machine = Machine::start(&world.program);
    let mut host = Host::scratch();
    for _ in 0..5 {
        assert!(matches!(machine.resume(&mut world, &mut host, Budget::of(1), 0), Step::Yielded));
    }
    // `JumpIfTrue` reaches 8, which is not a Bool.
    let step = machine.resume(&mut world, &mut host, Budget::of(1), 0);
    assert!(matches!(step, Step::Failed(error) if matches!(error.fault, Fault::Confused(_))));
}

#[test]
fn a_sum_past_the_largest_whole_number_stops_at_the_instruction_that_overflows() {
    let program = program_of(vec![Op::Int(i64::MAX), Op::Int(1), Op::Add, Op::Return], Vec::new(), 0);
    let mut world = World::new(program, Output::collected());
    let mut machine = Machine::start(&world.program);
    let mut host = Host::scratch();
    assert!(matches!(machine.resume(&mut world, &mut host, Budget::of(1), 0), Step::Yielded));
    assert!(matches!(machine.resume(&mut world, &mut host, Budget::of(1), 0), Step::Yielded));
    let step = machine.resume(&mut world, &mut host, Budget::of(1), 0);
    assert!(matches!(step, Step::Failed(error) if matches!(error.fault, Fault::Overflowed(Operation::Sum))));
}

#[test]
fn a_jump_skips_the_instructions_it_jumps_over() {
    let program = program_of(vec![Op::Int(1), Op::Jump(3), Op::Int(2), Op::Return], Vec::new(), 0);
    let mut world = World::new(program, Output::collected());
    let step = run(&mut world);
    assert!(matches!(step, Step::Finished(Value::Int(1))));
}

#[test]
fn a_constant_and_a_variant_built_from_it_are_recognised() {
    let mut program = program_of(
        vec![Op::Constant(0), Op::Variant { layout: 0, fields: 1 }, Op::Duplicate, Op::IsVariant(2),
             Op::JumpIfFalse(7), Op::VariantField(0), Op::Return, Op::Nothing, Op::Return],
        vec![Value::Text("hello".to_string())],
        0,
    );
    program.variants = vec![VariantLayout {
        index: 2,
        choice: "Greeting".to_string(),
        name: "Said".to_string(),
        fields: vec!["words".to_string()],
    }];
    let mut world = World::new(program, Output::collected());
    assert!(matches!(run(&mut world), Step::Finished(Value::Text(t)) if t == "hello"));
}

#[test]
fn a_constant_that_is_not_there_stops_the_program() {
    let program = program_of(vec![Op::Constant(3), Op::Return], Vec::new(), 0);
    let mut world = World::new(program, Output::collected());
    assert!(matches!(run(&mut world), Step::Failed(error) if matches!(error.fault, Fault::Confused(_))));
}

#[test]
fn where_the_budget_cuts_a_run_does_not_change_what_it_computes() {
    // total = 0; n = 1; while n <= 10 { total = total + n; n = n + 1 }; return total
    let code = vec![
        Op::Int(0), Op::StoreLocal(0), Op::Int(1), Op::StoreLocal(1),
        Op::LoadLocal(1), Op::Int(10), Op::LessOrEqual, Op::JumpIfFalse(19),
        Op::LoadLocal(0), Op::LoadLocal(1), Op::Add, Op::StoreLocal(0),
        Op::LoadLocal(1), Op::Int(1), Op::Add, Op::StoreLocal(1),
        Op::Jump(4), Op::Nothing, Op::Nothing,
        Op::LoadLocal(0), Op::Return,
    ];
    for budget in [1u64, 3, 7, 1000] {
        let program = program_of(code.clone(), Vec::new(), 2);
        let mut world = World::new(program, Output::collected());
        let mut machine = Machine::start(&world.program);
        let mut host = Host::scratch();
        let mut yields = 0;
        loop {
            match machine.resume(&mut world, &mut host, Budget::of(budget), 0) {
                Step::Yielded => yields += 1,
                Step::Finished(v) => {
                    assert!(matches!(v, Value::Int(55)));
                    break;
                },
                _ => panic!("the run should finish"),
            }
            assert!(yields < 10_000);
        }
        assert!(budget == 1000 || yields > 0);
    }
}

#[test]
fn a_machine_given_no_budget_waits_and_then_runs_to_the_end() {
    let program = program_of(vec![Op::Int(7), Op::Int(2), Op::Divide, Op::Return], Vec::new(), 0);
    let mut world = World::new(program, Output::collected());
    let mut machine = Machine::start(&world.program);
    let mut host = Host::scratch();
    assert!(matches!(machine.resume(&mut world, &mut host, Budget::of(0), 0), Step::Yielded));
    assert!(!machine.is_finished());
    assert!(matches!(machine.resume(&mut world, &mut host, Budget::unlimited(), 0), Step::Finished(Value::Int(3))));
    assert!(machine.is_finished());
}

#[test]
fn running_alone_gives_back_what_the_body_returns() {
    let program = program_of(vec![Op::Int(7), Op::Int(2), Op::Remainder, Op::Return], Vec::new(), 0);
    let mut world = World::new(program, Output::collected());
    let mut machine = Machine::start(&world.program);
    let mut host = Host::scratch();
    assert!(matches!(machine.run_alone(&mut world, &mut host, 0), Ok(Value::Int(1))));
}

#[test]
fn a_top_level_value_is_written_and_read_back() {
    let mut program = program_of(vec![Op::Int(9), Op::StoreGlobal(0), Op::LoadGlobal(0), Op::Return], Vec::new(), 0);
    program.globals = 1;
    let mut world = World::new(program, Output::collected());
    assert!(matches!(run(&mut world), Step::Finished(Value::Int(9))));
    assert!(matches!(world.globals[0], Value::Int(9)));
}

fn layout(mutable: bool) -> RecordLayout {
    RecordLayout { name: "Pair".to_string(), fields: vec!["a".to_string(), "b".to_string()], mutable, tables: Vec::new() }
}

#[test]
fn a_record_gives_back_the_field_it_was_built_with() {
    let mut program = program_of(
        vec![Op::Int(1), Op::Int(2), Op::Record { layout: 0, fields: 2 }, Op::Field(1), Op::Return],
        Vec::new(),
        0,
    );
    program.layouts.push(layout(false));
    let mut world = World::new(program, Output::collected());
    assert!(matches!(run(&mut world), Step::Finished(Value::Int(2))));
}

#[test]
fn a_cast_keeps_its_fields_in_cells_that_a_write_changes() {
    let mut program = program_of(
        vec![
            Op::Int(1), Op::Int(2), Op::Record { layout: 0, fields: 2 }, Op::StoreLocal(0),
            Op::Int(7), Op::LoadLocal(0), Op::SetField(0),
            Op::LoadLocal(0), Op::Field(0), Op::Return,
        ],
        Vec::new(),
        1,
    );
    program.layouts.push(layout(true));
    let mut world = World::new(program, Output::collected());
    assert!(matches!(run(&mut world), Step::Finished(Value::Int(7))));
    assert_eq!(world.cells.len(), 2);
}

#[test]
fn a_slice_that_reaches_a_call_enters_it_and_the_next_slice_goes_on_inside() {
    let mut program = program_of(vec![Op::MakeFunction(1), Op::Int(5), Op::Call(1), Op::Return], Vec::new(), 0);
    program.bodies.push(Body {
        name: "`next`".to_string(),
        code: vec![Op::LoadLocal(0), Op::Int(1), Op::Add, Op::Return],
        spans: vec![Span::new(0, 1), Span::new(1, 2), Span::new(2, 3), Span::new(3, 4)],
        slots: 1,
        parameters: 1,
        captures: Vec::new(),
    });
    let mut world = World::new(program, Output::collected());
    let mut machine = Machine::start(&world.program);
    let mut host = Host::scratch();
    assert!(matches!(machine.resume(&mut world, &mut host, Budget::of(3), 0), Step::Yielded));
    assert_eq!(machine.depth(), 2);
    assert!(matches!(machine.resume(&mut world, &mut host, Budget::of(4), 0), Step::Yielded));
    assert_eq!(machine.depth(), 1);
    assert!(matches!(machine.resume(&mut world, &mut host, Budget::of(1), 0), Step::Finished(Value::Int(6))));
}
