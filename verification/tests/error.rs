use vaab_vm::error::{trace, Fault, Feature, Level, Operation, RuntimeError, Span};

fn level(name: &str, at: usize) -> Level {
    Level { name: name.to_string(), at: Span::new(at, at + 1) }
}

#[test]
fn a_feature_says_which_phase_brings_it() {
    assert_eq!(Feature::ReadFile.to_string(), "`read_file` arrives in phase 5");
    assert_eq!(Feature::Channels.to_string(), "channels arrive in phase 4");
}

#[test]
fn one_level_needs_no_trace_because_the_snippet_said_it_all() {
    assert_eq!(trace(&vec![level("the top level", 0)], "main.vaab", "let a = 1\n"), "");
}

#[test]
fn a_long_trace_counts_the_calls_it_leaves_out() {
    let source = "\n".repeat(40);
    let levels: Vec<Level> = (0..40).map(|line| level("`fib`", line)).collect();
    let drawn = trace(&levels, "main.vaab", &source);
    assert!(drawn.contains("... 31 more calls ..."), "{drawn}");
    assert_eq!(drawn.lines().count(), 1 + 6 + 1 + 3);
}

#[test]
fn a_short_trace_names_every_call_with_its_line_and_column() {
    let source = "let a = 1\nlet b = 2\n";
    let levels = vec![level("`inner`", 14), level("the top level", 0)];
    let drawn = trace(&levels, "main.vaab", source);
    assert_eq!(drawn, "Trace:\n  in `inner` at main.vaab:2:5\n  in the top level at main.vaab:1:1\n");
}

#[test]
fn an_overflow_is_explained_with_the_operation_that_overflowed() {
    let error = RuntimeError { fault: Fault::Overflowed(Operation::Sum), trace: vec![level("`f`", 3)] };
    let drawn = error.diagnostic();
    assert_eq!(drawn.code, "integer-overflow");
    assert_eq!(drawn.message, "this sum does not fit in an Int");
    assert_eq!(drawn.at, Span::new(3, 4));
}

#[test]
fn an_out_of_range_position_says_how_long_the_list_is() {
    let error = RuntimeError { fault: Fault::IndexOutOfRange { index: 5, length: 2 }, trace: Vec::new() };
    let drawn = error.diagnostic();
    assert_eq!(drawn.message, "this list has no item at 5");
    assert_eq!(drawn.label, "the list holds 2 items");
    assert_eq!(drawn.help.as_deref(), Some("positions start at 0, so the last item is at 1; `items.count` says how many there are"));
    let empty = RuntimeError { fault: Fault::IndexOutOfRange { index: 0, length: 0 }, trace: Vec::new() };
    assert_eq!(empty.diagnostic().label, "the list is empty");
}

#[test]
fn a_fault_with_no_trace_happened_at_the_start_of_the_file() {
    let error = RuntimeError { fault: Fault::NoArmApplied, trace: Vec::new() };
    assert_eq!(error.span(), Span::none());
}
