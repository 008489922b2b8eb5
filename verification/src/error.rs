//! What stops a Vaab program, and how it is explained.
//!
//! There are no exceptions to catch: a [`Fault`] is the end of the run, and
//! the job here is to explain it as well as a type error is explained, with
//! the calls that led to it underneath.

use vstd::prelude::*;
use crate::text::{decimal, push_decimal, push_digits, push_text, push_char};

verus! {

/// A stretch of source text, by offset.
#[derive(Clone, Copy, Debug, PartialEq, Eq, Structural)]
pub struct Span {
    pub start: usize,
    pub end: usize,
}

impl Span {
    pub fn new(start: usize, end: usize) -> (s: Span)
        ensures
            s.start == start,
            s.end == end,
    {
        Span { start, end }
    }

    /// The empty span at the start of the file.
    pub fn none() -> (s: Span)
        ensures
            s.start == 0,
            s.end == 0,
    {
        Span { start: 0, end: 0 }
    }
}

/// Which calculation overflowed, named the way the message wants to say it.
#[derive(Clone, Copy, Debug, PartialEq, Eq, Structural)]
pub enum Operation {
    Sum,
    Difference,
    Product,
    Division,
    Remainder,
    Negation,
    Size,
    Rounding,
}

/// The noun a message uses for an operation.
pub open spec fn spec_noun(op: Operation) -> Seq<char> {
    match op {
        Operation::Sum => "sum"@,
        Operation::Difference => "difference"@,
        Operation::Product => "product"@,
        Operation::Division => "division"@,
        Operation::Remainder => "remainder"@,
        Operation::Negation => "negation"@,
        Operation::Size => "size"@,
        Operation::Rounding => "rounding"@,
    }
}

impl Operation {
    /// The noun a message uses for this operation.
    pub fn noun(self) -> (r: &'static str)
        ensures
            r@ == spec_noun(self),
    {
        match self {
            Operation::Sum => "sum",
            Operation::Difference => "difference",
            Operation::Product => "product",
            Operation::Division => "division",
            Operation::Remainder => "remainder",
            Operation::Negation => "negation",
            Operation::Size => "size",
            Operation::Rounding => "rounding",
        }
    }
}

/// Something the language has a shape for and the runtime does not run yet.
#[derive(Clone, Copy, Debug, PartialEq, Eq, Structural)]
pub enum Feature {
    ReadFile,
    Channels,
    Tasks,
    SharedState,
    Select,
    Together,
}

/// The subject of the sentence about a feature.
pub open spec fn spec_subject(f: Feature) -> Seq<char> {
    match f {
        Feature::ReadFile => "`read_file`"@,
        Feature::Channels => "channels"@,
        Feature::Tasks => "tasks"@,
        Feature::SharedState => "`shared` state"@,
        Feature::Select => "`select`"@,
        Feature::Together => "`together`"@,
    }
}

/// The verb that agrees with the subject.
pub open spec fn spec_verb(f: Feature) -> Seq<char> {
    match f {
        Feature::Channels | Feature::Tasks => "arrive"@,
        _ => "arrives"@,
    }
}

/// The phase that brings a feature.
pub open spec fn spec_phase(f: Feature) -> u8 {
    match f {
        Feature::ReadFile => 5,
        _ => 4,
    }
}

/// What to tell someone who reached a feature that is not built yet.
pub open spec fn spec_help(f: Feature) -> Seq<char> {
    match f {
        Feature::ReadFile => "phase 5 builds the standard library, and file reading comes with it"@,
        _ => "phase 4 builds the scheduler that tasks and channels run on"@,
    }
}

/// "`read_file` arrives in phase 5".
pub open spec fn spec_feature_text(f: Feature) -> Seq<char> {
    spec_subject(f) + " "@ + spec_verb(f) + " in phase "@ + decimal(spec_phase(f) as int)
}

impl Feature {
    /// The subject of the sentence, and the verb that agrees with it.
    pub fn subject(self) -> (r: (&'static str, &'static str))
        ensures
            r.0@ == spec_subject(self),
            r.1@ == spec_verb(self),
    {
        match self {
            Feature::ReadFile => ("`read_file`", "arrives"),
            Feature::Channels => ("channels", "arrive"),
            Feature::Tasks => ("tasks", "arrive"),
            Feature::SharedState => ("`shared` state", "arrives"),
            Feature::Select => ("`select`", "arrives"),
            Feature::Together => ("`together`", "arrives"),
        }
    }

    /// The phase that brings it.
    pub fn phase(self) -> (r: u8)
        ensures
            r == spec_phase(self),
    {
        match self {
            Feature::ReadFile => 5,
            _ => 4,
        }
    }

    /// What to tell someone who reached it.
    pub fn help(self) -> (r: &'static str)
        ensures
            r@ == spec_help(self),
    {
        match self {
            Feature::ReadFile => "phase 5 builds the standard library, and file reading comes with it",
            _ => "phase 4 builds the scheduler that tasks and channels run on",
        }
    }

    /// The sentence that says which phase brings it.
    pub fn to_string(&self) -> (r: String)
        ensures
            r@ == spec_feature_text(*self),
    {
        let (subject, verb) = self.subject();
        let mut out = String::new();
        push_text(&mut out, subject);
        push_char(&mut out, ' ');
        push_text(&mut out, verb);
        push_text(&mut out, " in phase ");
        push_decimal(&mut out, self.phase() as i64);
        proof {
            assert(" "@ == seq![' ']) by { reveal_strlit(" "); }
        }
        out
    }
}

/// What went wrong.
pub enum Fault {
    /// Vaab checks every calculation instead of wrapping round.
    Overflowed(Operation),
    DividedByZero(Operation),
    IndexOutOfRange { index: i64, length: usize },
    /// A range is a list, so one nobody could hold cannot be built.
    RangeTooLong { length: i64 },
    TooManyCalls { depth: usize },
    /// Every `match` a checked program can run has an arm that applies.
    NoArmApplied,
    NotYet(Feature),
    /// Every task is blocked and none can be woken.
    Deadlock { detail: String },
    /// The machine found its own state impossible.
    Confused(&'static str),
}

/// One level of a call trace: a function, and where inside it the machine was.
pub struct Level {
    pub name: String,
    pub at: Span,
}

/// A fault, with the calls that led to it. The first level is where it happened.
pub struct RuntimeError {
    pub fault: Fault,
    pub trace: Vec<Level>,
}

/// A text that may be missing, by value.
pub open spec fn text_option(t: Option<String>) -> Option<Seq<char>> {
    match t {
        Some(s) => Some(s@),
        None => None,
    }
}

/// What a diagnostic says of a fault: its code, message, label, help and
/// note.
pub open spec fn spec_diagnostic(fault: Fault) -> (Seq<char>, Seq<char>, Seq<char>, Option<Seq<char>>, Option<Seq<char>>) {
    match fault {
        Fault::Overflowed(op) => ("integer-overflow"@, "this "@ + spec_noun(op) + " does not fit in an Int"@,
            "this went past what an Int can hold"@,
            Some("an Int is 64 bits, so it holds whole numbers from -9223372036854775808 to 9223372036854775807"@),
            Some("Vaab checks every calculation rather than quietly wrapping round"@)),
        Fault::DividedByZero(Operation::Remainder) => ("divide-by-zero"@, "this takes a remainder by zero"@,
            "the right-hand side is 0"@, Some("check the right-hand side first, as in `if step != 0 { ... }`"@), None),
        Fault::DividedByZero(_) => ("divide-by-zero"@, "this divides by zero"@, "the right-hand side is 0"@,
            Some("check the divisor first, as in `if count != 0 { ... }`"@), None),
        Fault::IndexOutOfRange { index, length } => ("index-out-of-range"@,
            "this list has no item at "@ + decimal(index as int), spec_held(length),
            Some(if index < 0 {
                "positions count forwards from 0, so one below 0 never reaches an item"@
            } else if length == 0 {
                "the list is empty, so there is nothing to reach for: check `items.is_empty` first"@
            } else {
                "positions start at 0, so the last item is at "@ + decimal(length - 1) + "; `items.count` says how many there are"@
            }), None),
        Fault::RangeTooLong { length } => ("range-too-long"@, "this range holds too many numbers to build"@,
            "this stands for "@ + decimal(length as int) + " whole numbers"@,
            Some("a range is a list, so it is built all at once: count with a `while` loop instead when there are this many"@), None),
        Fault::TooManyCalls { depth } => ("too-many-calls"@, "too many calls inside one another"@,
            "this call is "@ + decimal(depth as int) + " deep"@, Some("a function that calls itself needs a case that stops it"@),
            Some("Vaab stops here so that runaway recursion is a report rather than a crash"@)),
        Fault::NoArmApplied => ("no-arm-applied"@, "no arm of this `match` applied"@, "nothing here matched the value"@,
            Some("add an `otherwise` arm, which matches whatever is left"@), None),
        Fault::NotYet(feature) => ("not-yet"@, spec_feature_text(feature), "this is not built yet"@, Some(spec_help(feature)),
            Some("it type-checks today, so the program is ready for the phase that runs it"@)),
        Fault::Deadlock { detail } => ("deadlock"@, "every task is waiting and none can go on"@,
            "this is where the program was when it stopped"@,
            Some("a send needs a receive, and a wait needs the task it waits for to finish"@), Some(detail@)),
        Fault::Confused(detail) => ("confused"@, "the Vaab machine found a state it cannot explain"@, "this is where it stopped"@,
            Some("this is a bug in Vaab itself, not in the program"@), Some(detail@)),
    }
}

impl RuntimeError {
    /// Where the fault happened: the innermost level's span, or the start of
    /// the file when there is no trace.
    pub fn span(&self) -> (s: Span)
        ensures
            s == (if self.trace@.len() > 0 { self.trace@[0].at } else { Span { start: 0, end: 0 } }),
    {
        if self.trace.len() > 0 {
            self.trace[0].at
        } else {
            Span::none()
        }
    }
}

} // verus!

verus! {

/// Two faults that say the same thing.
pub open spec fn same_fault(a: Fault, b: Fault) -> bool {
    match (a, b) {
        (Fault::Deadlock { detail: x }, Fault::Deadlock { detail: y }) => x@ == y@,
        _ => a == b,
    }
}

/// Two trace levels that say the same thing.
pub open spec fn same_level(a: Level, b: Level) -> bool {
    a.name@ == b.name@ && a.at == b.at
}

/// Two runtime errors that say the same thing.
pub open spec fn same_error(a: RuntimeError, b: RuntimeError) -> bool {
    &&& same_fault(a.fault, b.fault)
    &&& a.trace@.len() == b.trace@.len()
    &&& forall|i: int| 0 <= i < a.trace@.len() ==> same_level(#[trigger] a.trace@[i], b.trace@[i])
}

/// A copy of a fault.
pub fn copy_fault(f: &Fault) -> (r: Fault)
    ensures
        same_fault(r, *f),
{
    match f {
        Fault::Overflowed(o) => Fault::Overflowed(*o),
        Fault::DividedByZero(o) => Fault::DividedByZero(*o),
        Fault::IndexOutOfRange { index, length } => Fault::IndexOutOfRange { index: *index, length: *length },
        Fault::RangeTooLong { length } => Fault::RangeTooLong { length: *length },
        Fault::TooManyCalls { depth } => Fault::TooManyCalls { depth: *depth },
        Fault::NoArmApplied => Fault::NoArmApplied,
        Fault::NotYet(feature) => Fault::NotYet(*feature),
        Fault::Deadlock { detail } => Fault::Deadlock { detail: detail.clone() },
        Fault::Confused(why) => Fault::Confused(*why),
    }
}

/// A copy of a runtime error.
pub fn copy_error(e: &RuntimeError) -> (r: RuntimeError)
    ensures
        same_error(r, *e),
{
    let mut trace: Vec<Level> = Vec::new();
    let mut i: usize = 0;
    while i < e.trace.len()
        invariant
            i <= e.trace@.len(),
            trace@.len() == i,
            forall|k: int| 0 <= k < i ==> same_level(#[trigger] trace@[k], e.trace@[k]),
        decreases e.trace.len() - i,
    {
        trace.push(Level { name: e.trace[i].name.clone(), at: e.trace[i].at });
        i = i + 1;
    }
    RuntimeError { fault: copy_fault(&e.fault), trace }
}

} // verus!

verus! {

/// A fault drawn the way the compiler draws a mistake: a code, a headline,
/// a label on the span where it happened, and help and a note underneath.
pub struct Diagnostic {
    pub code: String,
    pub message: String,
    pub at: Span,
    pub label: String,
    pub help: Option<String>,
    pub note: Option<String>,
}

fn text_of(s: &str) -> (r: String)
    ensures
        r@ == s@,
{
    String::from_str(s)
}

/// What a list holds, in the words an out-of-range label uses.
pub open spec fn spec_held(length: usize) -> Seq<char> {
    if length == 0 { "the list is empty"@ }
    else if length == 1 { "the list holds 1 item"@ }
    else { "the list holds "@ + decimal(length as int) + " items"@ }
}

impl RuntimeError {
    /// The fault as a diagnostic, in the voice the rest of the compiler uses.
    pub fn diagnostic(&self) -> (d: Diagnostic)
        ensures
            d.at == (if self.trace@.len() > 0 { self.trace@[0].at } else { Span { start: 0, end: 0 } }),
            (d.code@, d.message@, d.label@, text_option(d.help), text_option(d.note)) == spec_diagnostic(self.fault),
    {
        let at = self.span();
        match &self.fault {
            Fault::Overflowed(operation) => {
                let mut message = text_of("this ");
                push_text(&mut message, operation.noun());
                push_text(&mut message, " does not fit in an Int");
                assert(message@ =~= "this "@ + spec_noun(*operation) + " does not fit in an Int"@);
                Diagnostic {
                    code: text_of("integer-overflow"),
                    message,
                    at,
                    label: text_of("this went past what an Int can hold"),
                    help: Some(text_of("an Int is 64 bits, so it holds whole numbers from -9223372036854775808 to 9223372036854775807")),
                    note: Some(text_of("Vaab checks every calculation rather than quietly wrapping round")),
                }
            },
            Fault::DividedByZero(Operation::Remainder) => Diagnostic {
                code: text_of("divide-by-zero"),
                message: text_of("this takes a remainder by zero"),
                at,
                label: text_of("the right-hand side is 0"),
                help: Some(text_of("check the right-hand side first, as in `if step != 0 { ... }`")),
                note: None,
            },
            Fault::DividedByZero(_) => Diagnostic {
                code: text_of("divide-by-zero"),
                message: text_of("this divides by zero"),
                at,
                label: text_of("the right-hand side is 0"),
                help: Some(text_of("check the divisor first, as in `if count != 0 { ... }`")),
                note: None,
            },
            Fault::IndexOutOfRange { index, length } => {
                let label = if *length == 0 {
                    text_of("the list is empty")
                } else if *length == 1 {
                    text_of("the list holds 1 item")
                } else {
                    let mut held = text_of("the list holds ");
                    push_digits(&mut held, *length as u64);
                    push_text(&mut held, " items");
                    held
                };
                let mut message = text_of("this list has no item at ");
                push_decimal(&mut message, *index);
                let help = if *index < 0 {
                    text_of("positions count forwards from 0, so one below 0 never reaches an item")
                } else if *length == 0 {
                    text_of("the list is empty, so there is nothing to reach for: check `items.is_empty` first")
                } else {
                    let mut h = text_of("positions start at 0, so the last item is at ");
                    push_digits(&mut h, (*length - 1) as u64);
                    push_text(&mut h, "; `items.count` says how many there are");
                    h
                };
                Diagnostic { code: text_of("index-out-of-range"), message, at, label, help: Some(help), note: None }
            },
            Fault::RangeTooLong { length } => {
                let mut label = text_of("this stands for ");
                push_decimal(&mut label, *length);
                push_text(&mut label, " whole numbers");
                Diagnostic {
                    code: text_of("range-too-long"),
                    message: text_of("this range holds too many numbers to build"),
                    at,
                    label,
                    help: Some(text_of("a range is a list, so it is built all at once: count with a `while` loop instead when there are this many")),
                    note: None,
                }
            },
            Fault::TooManyCalls { depth } => {
                let mut label = text_of("this call is ");
                push_digits(&mut label, *depth as u64);
                push_text(&mut label, " deep");
                Diagnostic {
                    code: text_of("too-many-calls"),
                    message: text_of("too many calls inside one another"),
                    at,
                    label,
                    help: Some(text_of("a function that calls itself needs a case that stops it")),
                    note: Some(text_of("Vaab stops here so that runaway recursion is a report rather than a crash")),
                }
            },
            Fault::NoArmApplied => Diagnostic {
                code: text_of("no-arm-applied"),
                message: text_of("no arm of this `match` applied"),
                at,
                label: text_of("nothing here matched the value"),
                help: Some(text_of("add an `otherwise` arm, which matches whatever is left")),
                note: None,
            },
            Fault::NotYet(feature) => Diagnostic {
                code: text_of("not-yet"),
                message: feature.to_string(),
                at,
                label: text_of("this is not built yet"),
                help: Some(text_of(feature.help())),
                note: Some(text_of("it type-checks today, so the program is ready for the phase that runs it")),
            },
            Fault::Deadlock { detail } => Diagnostic {
                code: text_of("deadlock"),
                message: text_of("every task is waiting and none can go on"),
                at,
                label: text_of("this is where the program was when it stopped"),
                help: Some(text_of("a send needs a receive, and a wait needs the task it waits for to finish")),
                note: Some(detail.clone()),
            },
            Fault::Confused(detail) => Diagnostic {
                code: text_of("confused"),
                message: text_of("the Vaab machine found a state it cannot explain"),
                at,
                label: text_of("this is where it stopped"),
                help: Some(text_of("this is a bug in Vaab itself, not in the program")),
                note: Some(text_of(detail)),
            },
        }
    }
}

} // verus!

verus! {

/// How many of the innermost calls a trace shows before it counts the rest.
pub const NEAREST: usize = 6;

/// How many of the outermost calls a trace shows after the count.
pub const FURTHEST: usize = 3;

/// The line (from 1) and column (from 1, in characters) of a byte offset
/// into UTF-8 text. An offset past the end counts from the end.
pub open spec fn line_column(bytes: Seq<u8>, offset: int) -> (int, int)
    decreases offset,
{
    if offset <= 0 || bytes.len() == 0 {
        (1, 1)
    } else if offset > bytes.len() {
        line_column(bytes, bytes.len() as int)
    } else {
        let (line, column) = line_column(bytes, offset - 1);
        let b = bytes[offset - 1];
        if b == 10u8 { (line + 1, 1) } else if b & 0xc0u8 == 0x80u8 { (line, column) } else { (line, column + 1) }
    }
}

/// Where a byte offset falls in a source text: its line and column.
pub fn locate(source: &str, offset: usize) -> (r: (u64, u64))
    ensures
        crate::auth::utf8(source@).len() < u64::MAX ==> r.0 as int == line_column(crate::auth::utf8(source@), offset as int).0,
        crate::auth::utf8(source@).len() < u64::MAX ==> r.1 as int == line_column(crate::auth::utf8(source@), offset as int).1,
{
    let bytes = source.as_bytes();
    let ghost bs = crate::auth::utf8(source@);
    let end = if offset < bytes.len() { offset } else { bytes.len() };
    let mut line: u64 = 1;
    let mut column: u64 = 1;
    let mut i: usize = 0;
    proof {
        assert(bytes@ == bs);
        if offset > bs.len() && bs.len() > 0 {
            assert(line_column(bs, offset as int) == line_column(bs, bs.len() as int));
        }
    }
    while i < end
        invariant
            i <= end,
            end <= bytes@.len(),
            bytes@ == bs,
            end == (if offset < bs.len() { offset as int } else { bs.len() as int }),
            line <= i + 1,
            column <= i + 1,
            bs.len() < u64::MAX ==> (line as int, column as int) == line_column(bs, i as int),
        decreases end - i,
    {
        let b = bytes[i];
        if b == 10u8 {
            if line < u64::MAX { line = line + 1; }
            column = 1;
        } else if b & 0xc0u8 == 0x80u8 {
        } else {
            if column < u64::MAX { column = column + 1; }
        }
        i = i + 1;
    }
    (line, column)
}

/// One line of a trace: `  in NAME at FILE:LINE:COLUMN`, the line and the
/// column being where the level's span starts in the source.
pub open spec fn level_line(level: Level, file: Seq<char>, source: Seq<char>) -> Seq<char> {
    let (line, column) = line_column(crate::auth::utf8(source), level.at.start as int);
    "  in "@ + level.name@ + " at "@ + file + seq![':'] + crate::text::digits(line as nat) + seq![':']
        + crate::text::digits(column as nat) + seq!['\n']
}

/// The trace lines of the levels from `from` up to `to`.
pub open spec fn level_lines(levels: Seq<Level>, file: Seq<char>, source: Seq<char>, from: int, to: int) -> Seq<char>
    decreases to - from,
{
    if to <= from {
        Seq::empty()
    } else {
        level_lines(levels, file, source, from, to - 1) + level_line(levels[to - 1], file, source)
    }
}

/// What a trace says: nothing for fewer than two levels; every level when
/// there are at most ten; else the first six, how many are left out, and
/// the last three.
pub open spec fn spec_trace(levels: Seq<Level>, file: Seq<char>, source: Seq<char>) -> Seq<char> {
    let n = levels.len() as int;
    if n < 2 {
        Seq::empty()
    } else if n <= NEAREST + FURTHEST + 1 {
        "Trace:\n"@ + level_lines(levels, file, source, 0, n)
    } else {
        "Trace:\n"@ + level_lines(levels, file, source, 0, NEAREST as int) + "  ... "@
            + crate::text::digits((n - NEAREST - FURTHEST) as nat) + " more calls ...\n"@
            + level_lines(levels, file, source, n - FURTHEST, n)
    }
}

/// One more level adds its line to the end.
proof fn lemma_level_lines_step(levels: Seq<Level>, file: Seq<char>, source: Seq<char>, from: int, to: int)
    requires
        from <= to,
    ensures
        level_lines(levels, file, source, from, to + 1)
            == level_lines(levels, file, source, from, to) + level_line(levels[to], file, source),
{
}

/// One line of a trace: `  in NAME at FILE:LINE:COLUMN`.
fn push_level(out: &mut String, level: &Level, file: &str, source: &str)
    ensures
        crate::auth::utf8(source@).len() < u64::MAX ==> final(out)@ == old(out)@ + level_line(*level, file@, source@),
{
    let (line, column) = locate(source, level.at.start);
    push_text(out, "  in ");
    push_text(out, level.name.as_str());
    push_text(out, " at ");
    push_text(out, file);
    push_char(out, ':');
    push_digits(out, line);
    push_char(out, ':');
    push_digits(out, column);
    push_char(out, '\n');
    proof {
        if crate::auth::utf8(source@).len() < u64::MAX {
            assert(out@ =~= old(out)@ + level_line(*level, file@, source@));
        }
    }
}

/// The calls that led to a fault, innermost first, under `Trace:`; nothing
/// for a single level, whose snippet already says where the program was.
/// A long trace shows its first six and last three calls and counts the
/// rest.
pub fn trace(levels: &Vec<Level>, file: &str, source: &str) -> (r: String)
    ensures
        levels@.len() < 2 ==> r@.len() == 0,
        crate::auth::utf8(source@).len() < u64::MAX ==> r@ == spec_trace(levels@, file@, source@),
{
    if levels.len() < 2 {
        return String::new();
    }
    let mut out = String::from_str("Trace:\n");
    let ghost bounded = crate::auth::utf8(source@).len() < u64::MAX;
    if levels.len() <= NEAREST + FURTHEST + 1 {
        let mut i: usize = 0;
        while i < levels.len()
            invariant
                i <= levels@.len(),
                bounded == (crate::auth::utf8(source@).len() < u64::MAX),
                bounded ==> out@ == "Trace:\n"@ + level_lines(levels@, file@, source@, 0, i as int),
            decreases levels.len() - i,
        {
            push_level(&mut out, &levels[i], file, source);
            proof { lemma_level_lines_step(levels@, file@, source@, 0, i as int); }
            i = i + 1;
        }
        return out;
    }
    let hidden = levels.len() - NEAREST - FURTHEST;
    let mut i: usize = 0;
    while i < NEAREST
        invariant
            i <= NEAREST,
            levels@.len() > NEAREST + FURTHEST + 1,
            bounded == (crate::auth::utf8(source@).len() < u64::MAX),
            bounded ==> out@ == "Trace:\n"@ + level_lines(levels@, file@, source@, 0, i as int),
        decreases NEAREST - i,
    {
        push_level(&mut out, &levels[i], file, source);
        proof { lemma_level_lines_step(levels@, file@, source@, 0, i as int); }
        i = i + 1;
    }
    push_text(&mut out, "  ... ");
    push_digits(&mut out, hidden as u64);
    push_text(&mut out, " more calls ...\n");
    let ghost middle = out@;
    let mut k: usize = levels.len() - FURTHEST;
    while k < levels.len()
        invariant
            levels@.len() - FURTHEST <= k <= levels@.len(),
            bounded == (crate::auth::utf8(source@).len() < u64::MAX),
            bounded ==> out@ == middle + level_lines(levels@, file@, source@, levels@.len() - FURTHEST, k as int),
        decreases levels.len() - k,
    {
        push_level(&mut out, &levels[k], file, source);
        proof { lemma_level_lines_step(levels@, file@, source@, levels@.len() - FURTHEST, k as int); }
        k = k + 1;
    }
    proof {
        if bounded {
            assert(out@ =~= spec_trace(levels@, file@, source@));
        }
    }
    out
}

} // verus!
