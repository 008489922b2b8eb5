//! The instruction set, and the program a compiled file turns into.
//!
//! Vaab compiles to a stack machine: almost every instruction takes what it
//! needs from the top of a value stack and leaves its answer there. The
//! exceptions name a slot, a body or a jump, and carry that operand inline.

use vstd::prelude::*;
use crate::builtin::Builtin;
use crate::error::{Feature, Span};
use crate::value::Value;

verus! {

/// One instruction.
#[derive(Clone, Copy, Debug, PartialEq, Eq, Structural)]
pub enum Op {
    // -- Values ------------------------------------------------------------
    /// Pushes a value from the pool.
    Constant(u32),
    Int(i64),
    Bool(bool),
    Nothing,
    Absent,
    Found,
    Success,
    Failure,
    // -- Stack -------------------------------------------------------------
    Pop,
    Duplicate,
    // -- Where values live -------------------------------------------------
    LoadGlobal(u32),
    StoreGlobal(u32),
    LoadLocal(u32),
    StoreLocal(u32),
    /// Replaces a slot's value with a fresh cell holding it.
    Box(u32),
    LoadCell(u32),
    StoreCell(u32),
    LoadUpvalue(u32),
    StoreUpvalue(u32),
    LoadSelf,
    // -- Operators ---------------------------------------------------------
    Add,
    Subtract,
    Multiply,
    Divide,
    Remainder,
    Negate,
    Equal,
    NotEqual,
    Less,
    LessOrEqual,
    Greater,
    GreaterOrEqual,
    Not,
    // -- Building ----------------------------------------------------------
    List(u32),
    Table(u32),
    Tuple(u32),
    Range,
    Text(u32),
    Record { layout: u32, fields: u32 },
    Variant { layout: u32, fields: u32 },
    // -- Reaching inside ---------------------------------------------------
    Field(u32),
    SetField(u32),
    Index,
    Length,
    IsEmpty,
    Entries,
    Append(u32),
    // -- Taking apart ------------------------------------------------------
    IsFound,
    IsSuccess,
    IsFailure,
    IsVariant(u32),
    Unwrap,
    VariantField(u32),
    TupleItem(u32),
    ListLengthIs { length: u32, at_least: bool },
    // -- Control -----------------------------------------------------------
    Jump(u32),
    JumpIfFalse(u32),
    JumpIfTrue(u32),
    Return,
    // -- Calls -------------------------------------------------------------
    Call(u32),
    CallMethod { body: u32, arity: u32 },
    CallAbility { ability: u32, slot: u32, arity: u32 },
    Builtin(Builtin),
    MakeFunction(u32),
    // -- Concurrency -------------------------------------------------------
    ChannelNew,
    SharedNew,
    Send,
    Receive,
    Close,
    Start(u32),
    TaskWait,
    SharedRead,
    SharedUpdate,
    BeginTogether,
    EndTogether,
    Select(u32),
    // -- The world outside -------------------------------------------------
    ReadFile(u32),
    Now,
    EnvGet,
    EnvRequired(u32),
    DbConnect(u32),
    DbExecute(u32),
    DbQuery(u32),
    StoreOpen(u32),
    StoreGet,
    StoreSet(u32),
    StoreRemove(u32),
    StoreKeys(u32),
    HttpGet(u32),
    HttpPost(u32),
    HttpSend(u32),
    RequestWho { user: u32, unauthorized: u32 },
    ReplyWith(bool),
    ReplyFile(bool),
    ReplyText(bool),
    ReplyExplain,
    // -- Stopping ----------------------------------------------------------
    NotYet(Feature),
    NoArm,
}

/// Where one of a body's captured values comes from when the function value
/// is built.
#[derive(Clone, Copy, Debug, PartialEq, Eq, Structural)]
pub enum Capture {
    /// A cell in a slot of the frame making the function.
    Local(u32),
    /// A cell that frame had captured itself.
    Upvalue(u32),
}

/// One runnable body: the file's top level, a function, a method, or a closure.
pub struct Body {
    /// What a trace calls it.
    pub name: String,
    pub code: Vec<Op>,
    /// One span per instruction.
    pub spans: Vec<Span>,
    /// How many slots a frame running this body needs.
    pub slots: usize,
    pub parameters: usize,
    pub captures: Vec<Capture>,
}

/// What every value of one declared `type` has in common.
pub struct RecordLayout {
    pub name: String,
    pub fields: Vec<String>,
    /// `true` for a `cast`, whose fields may be changed in place.
    pub mutable: bool,
    /// `tables[ability][slot]` is the body that fills that slot of that ability.
    pub tables: Vec<Vec<u32>>,
}

/// What every value of one variant of one `choice` has in common.
pub struct VariantLayout {
    pub index: u32,
    pub choice: String,
    pub name: String,
    pub fields: Vec<String>,
}

/// One piece of a route's path.
pub enum RouteSegment {
    Literal(String),
    Parameter(String),
}

/// A `route` a served program answers.
pub struct RouteHandler {
    pub method: String,
    pub path: Vec<RouteSegment>,
    pub body: usize,
    pub frame: u32,
    pub path_param_count: usize,
    pub expects_body: bool,
    /// Layout index for `expecting T as name`, when the body should be a record.
    pub body_layout: Option<u32>,
}

/// One arm of a compiled `select`.
#[derive(Clone, Copy, Debug, PartialEq, Eq, Structural)]
pub enum SelectArm {
    Receive { body: u32 },
    Timeout { milliseconds: i64, body: u32 },
}

/// Everything a `select` needs that does not fit in the instruction.
pub struct SelectDescriptor {
    pub arms: Vec<SelectArm>,
    pub otherwise: Option<u32>,
    pub span: Span,
}

/// A compiled file.
pub struct Program {
    pub bodies: Vec<Body>,
    /// Values known at compile time.
    pub constants: Vec<Value>,
    pub layouts: Vec<RecordLayout>,
    /// Every variant of every choice, flattened.
    pub variants: Vec<VariantLayout>,
    /// How many top-level values the file has.
    pub globals: usize,
    /// Where each top-level statement begins in the top-level body.
    pub statements: Vec<u32>,
    pub selects: Vec<SelectDescriptor>,
    pub routes: Vec<RouteHandler>,
}

/// The body holding the file's own statements.
pub const TOP_LEVEL: usize = 0;

impl Program {
    /// A program with nothing in it but an empty top-level body.
    pub fn with_top_level(name: String) -> (p: Program)
        ensures
            p.bodies@.len() == 1,
            p.bodies@[0].name@ == name@,
            p.bodies@[0].code@.len() == 0,
            p.bodies@[0].slots == 0,
            p.bodies@[0].parameters == 0,
            p.bodies@[0].captures@.len() == 0,
            p.constants@.len() == 0,
            p.layouts@.len() == 0,
            p.variants@.len() == 0,
            p.globals == 0,
            p.statements@.len() == 0,
            p.selects@.len() == 0,
            p.routes@.len() == 0,
    {
        let mut bodies: Vec<Body> = Vec::new();
        bodies.push(Body { name, code: Vec::new(), spans: Vec::new(), slots: 0, parameters: 0, captures: Vec::new() });
        Program {
            bodies,
            constants: Vec::new(),
            layouts: Vec::new(),
            variants: Vec::new(),
            globals: 0,
            statements: Vec::new(),
            selects: Vec::new(),
            routes: Vec::new(),
        }
    }

    /// Where the machine should start to run top-level statements from
    /// `first` onwards, which is how a REPL adds to a session without
    /// running it again. The last entry marks the end of the top-level code,
    /// so from past the last statement nothing is left to run.
    pub fn statement_start(&self, first: usize) -> (r: usize)
        ensures
            r == (if first < self.statements@.len() {
                self.statements@[first as int] as usize
            } else if self.statements@.len() > 0 {
                self.statements@.last() as usize
            } else {
                0
            }),
    {
        if first < self.statements.len() {
            self.statements[first] as usize
        } else if self.statements.len() > 0 {
            self.statements[self.statements.len() - 1] as usize
        } else {
            0
        }
    }
}

} // verus!

verus! {

/// How an instruction is written when nothing more readable is asked for:
/// its variant's name, then its operands, in brackets for one operand and
/// as named fields for several.
pub open spec fn op_text(op: Op) -> Seq<char> {
    match op {
        Op::Constant(a) => "Constant("@ + crate::text::digits(a as nat) + ")"@,
        Op::Int(a) => "Int("@ + crate::text::decimal(a as int) + ")"@,
        Op::Bool(a) => "Bool("@ + bool_text(a) + ")"@,
        Op::Nothing => "Nothing"@,
        Op::Absent => "Absent"@,
        Op::Found => "Found"@,
        Op::Success => "Success"@,
        Op::Failure => "Failure"@,
        Op::Pop => "Pop"@,
        Op::Duplicate => "Duplicate"@,
        Op::LoadGlobal(a) => "LoadGlobal("@ + crate::text::digits(a as nat) + ")"@,
        Op::StoreGlobal(a) => "StoreGlobal("@ + crate::text::digits(a as nat) + ")"@,
        Op::LoadLocal(a) => "LoadLocal("@ + crate::text::digits(a as nat) + ")"@,
        Op::StoreLocal(a) => "StoreLocal("@ + crate::text::digits(a as nat) + ")"@,
        Op::Box(a) => "Box("@ + crate::text::digits(a as nat) + ")"@,
        Op::LoadCell(a) => "LoadCell("@ + crate::text::digits(a as nat) + ")"@,
        Op::StoreCell(a) => "StoreCell("@ + crate::text::digits(a as nat) + ")"@,
        Op::LoadUpvalue(a) => "LoadUpvalue("@ + crate::text::digits(a as nat) + ")"@,
        Op::StoreUpvalue(a) => "StoreUpvalue("@ + crate::text::digits(a as nat) + ")"@,
        Op::LoadSelf => "LoadSelf"@,
        Op::Add => "Add"@,
        Op::Subtract => "Subtract"@,
        Op::Multiply => "Multiply"@,
        Op::Divide => "Divide"@,
        Op::Remainder => "Remainder"@,
        Op::Negate => "Negate"@,
        Op::Equal => "Equal"@,
        Op::NotEqual => "NotEqual"@,
        Op::Less => "Less"@,
        Op::LessOrEqual => "LessOrEqual"@,
        Op::Greater => "Greater"@,
        Op::GreaterOrEqual => "GreaterOrEqual"@,
        Op::Not => "Not"@,
        Op::List(a) => "List("@ + crate::text::digits(a as nat) + ")"@,
        Op::Table(a) => "Table("@ + crate::text::digits(a as nat) + ")"@,
        Op::Tuple(a) => "Tuple("@ + crate::text::digits(a as nat) + ")"@,
        Op::Range => "Range"@,
        Op::Text(a) => "Text("@ + crate::text::digits(a as nat) + ")"@,
        Op::Record { layout, fields } => "Record { "@ + "layout: "@ + crate::text::digits(layout as nat) + ", fields: "@ + crate::text::digits(fields as nat) + " }"@,
        Op::Variant { layout, fields } => "Variant { "@ + "layout: "@ + crate::text::digits(layout as nat) + ", fields: "@ + crate::text::digits(fields as nat) + " }"@,
        Op::Field(a) => "Field("@ + crate::text::digits(a as nat) + ")"@,
        Op::SetField(a) => "SetField("@ + crate::text::digits(a as nat) + ")"@,
        Op::Index => "Index"@,
        Op::Length => "Length"@,
        Op::IsEmpty => "IsEmpty"@,
        Op::Entries => "Entries"@,
        Op::Append(a) => "Append("@ + crate::text::digits(a as nat) + ")"@,
        Op::IsFound => "IsFound"@,
        Op::IsSuccess => "IsSuccess"@,
        Op::IsFailure => "IsFailure"@,
        Op::IsVariant(a) => "IsVariant("@ + crate::text::digits(a as nat) + ")"@,
        Op::Unwrap => "Unwrap"@,
        Op::VariantField(a) => "VariantField("@ + crate::text::digits(a as nat) + ")"@,
        Op::TupleItem(a) => "TupleItem("@ + crate::text::digits(a as nat) + ")"@,
        Op::ListLengthIs { length, at_least } => "ListLengthIs { "@ + "length: "@ + crate::text::digits(length as nat) + ", at_least: "@ + bool_text(at_least) + " }"@,
        Op::Jump(a) => "Jump("@ + crate::text::digits(a as nat) + ")"@,
        Op::JumpIfFalse(a) => "JumpIfFalse("@ + crate::text::digits(a as nat) + ")"@,
        Op::JumpIfTrue(a) => "JumpIfTrue("@ + crate::text::digits(a as nat) + ")"@,
        Op::Return => "Return"@,
        Op::Call(a) => "Call("@ + crate::text::digits(a as nat) + ")"@,
        Op::CallMethod { body, arity } => "CallMethod { "@ + "body: "@ + crate::text::digits(body as nat) + ", arity: "@ + crate::text::digits(arity as nat) + " }"@,
        Op::CallAbility { ability, slot, arity } => "CallAbility { "@ + "ability: "@ + crate::text::digits(ability as nat) + ", slot: "@ + crate::text::digits(slot as nat) + ", arity: "@ + crate::text::digits(arity as nat) + " }"@,
        Op::Builtin(a) => "Builtin("@ + builtin_debug(a) + ")"@,
        Op::MakeFunction(a) => "MakeFunction("@ + crate::text::digits(a as nat) + ")"@,
        Op::ChannelNew => "ChannelNew"@,
        Op::SharedNew => "SharedNew"@,
        Op::Send => "Send"@,
        Op::Receive => "Receive"@,
        Op::Close => "Close"@,
        Op::Start(a) => "Start("@ + crate::text::digits(a as nat) + ")"@,
        Op::TaskWait => "TaskWait"@,
        Op::SharedRead => "SharedRead"@,
        Op::SharedUpdate => "SharedUpdate"@,
        Op::BeginTogether => "BeginTogether"@,
        Op::EndTogether => "EndTogether"@,
        Op::Select(a) => "Select("@ + crate::text::digits(a as nat) + ")"@,
        Op::ReadFile(a) => "ReadFile("@ + crate::text::digits(a as nat) + ")"@,
        Op::Now => "Now"@,
        Op::EnvGet => "EnvGet"@,
        Op::EnvRequired(a) => "EnvRequired("@ + crate::text::digits(a as nat) + ")"@,
        Op::DbConnect(a) => "DbConnect("@ + crate::text::digits(a as nat) + ")"@,
        Op::DbExecute(a) => "DbExecute("@ + crate::text::digits(a as nat) + ")"@,
        Op::DbQuery(a) => "DbQuery("@ + crate::text::digits(a as nat) + ")"@,
        Op::StoreOpen(a) => "StoreOpen("@ + crate::text::digits(a as nat) + ")"@,
        Op::StoreGet => "StoreGet"@,
        Op::StoreSet(a) => "StoreSet("@ + crate::text::digits(a as nat) + ")"@,
        Op::StoreRemove(a) => "StoreRemove("@ + crate::text::digits(a as nat) + ")"@,
        Op::StoreKeys(a) => "StoreKeys("@ + crate::text::digits(a as nat) + ")"@,
        Op::HttpGet(a) => "HttpGet("@ + crate::text::digits(a as nat) + ")"@,
        Op::HttpPost(a) => "HttpPost("@ + crate::text::digits(a as nat) + ")"@,
        Op::HttpSend(a) => "HttpSend("@ + crate::text::digits(a as nat) + ")"@,
        Op::RequestWho { user, unauthorized } => "RequestWho { "@ + "user: "@ + crate::text::digits(user as nat) + ", unauthorized: "@ + crate::text::digits(unauthorized as nat) + " }"@,
        Op::ReplyWith(a) => "ReplyWith("@ + bool_text(a) + ")"@,
        Op::ReplyFile(a) => "ReplyFile("@ + bool_text(a) + ")"@,
        Op::ReplyText(a) => "ReplyText("@ + bool_text(a) + ")"@,
        Op::ReplyExplain => "ReplyExplain"@,
        Op::NotYet(a) => "NotYet("@ + feature_debug(a) + ")"@,
        Op::NoArm => "NoArm"@,
    }
}

/// `true` or `false`.
pub open spec fn bool_text(b: bool) -> Seq<char> {
    if b { "true"@ } else { "false"@ }
}

/// A builtin's variant name.
pub open spec fn builtin_debug(b: Builtin) -> Seq<char> {
    match b {
        Builtin::Print => "Print"@,
        Builtin::Upper => "Upper"@,
        Builtin::Lower => "Lower"@,
        Builtin::Contains => "Contains"@,
        Builtin::Join => "Join"@,
        Builtin::First => "First"@,
        Builtin::Get => "Get"@,
        Builtin::Keys => "Keys"@,
        Builtin::Abs => "Abs"@,
        Builtin::Min => "Min"@,
        Builtin::Max => "Max"@,
        Builtin::ToFloat => "ToFloat"@,
        Builtin::Round => "Round"@,
    }
}

/// A feature's variant name.
pub open spec fn feature_debug(f: Feature) -> Seq<char> {
    match f {
        Feature::ReadFile => "ReadFile"@,
        Feature::Channels => "Channels"@,
        Feature::Tasks => "Tasks"@,
        Feature::SharedState => "SharedState"@,
        Feature::Select => "Select"@,
        Feature::Together => "Together"@,
    }
}

fn builtin_debug_text(b: Builtin) -> (r: &'static str)
    ensures
        r@ == builtin_debug(b),
{
    match b {
        Builtin::Print => "Print",
        Builtin::Upper => "Upper",
        Builtin::Lower => "Lower",
        Builtin::Contains => "Contains",
        Builtin::Join => "Join",
        Builtin::First => "First",
        Builtin::Get => "Get",
        Builtin::Keys => "Keys",
        Builtin::Abs => "Abs",
        Builtin::Min => "Min",
        Builtin::Max => "Max",
        Builtin::ToFloat => "ToFloat",
        Builtin::Round => "Round",
    }
}

fn feature_debug_text(f: Feature) -> (r: &'static str)
    ensures
        r@ == feature_debug(f),
{
    match f {
        Feature::ReadFile => "ReadFile",
        Feature::Channels => "Channels",
        Feature::Tasks => "Tasks",
        Feature::SharedState => "SharedState",
        Feature::Select => "Select",
        Feature::Together => "Together",
    }
}

/// An instruction written as `op_text` says.
#[verifier::rlimit(100)]
pub(crate) fn write_op(op: Op) -> (r: String)
    ensures
        r@ == op_text(op),
{
    let mut out = String::new();
    match op {
            Op::Constant(a) => {
                crate::text::push_text(&mut out, "Constant(");
                crate::text::push_digits(&mut out, a as u64);
                crate::text::push_text(&mut out, ")");
            },
            Op::Int(a) => {
                crate::text::push_text(&mut out, "Int(");
                crate::text::push_decimal(&mut out, a);
                crate::text::push_text(&mut out, ")");
            },
            Op::Bool(a) => {
                crate::text::push_text(&mut out, "Bool(");
                crate::text::push_text(&mut out, if a { "true" } else { "false" });
                crate::text::push_text(&mut out, ")");
            },
            Op::Nothing => crate::text::push_text(&mut out, "Nothing"),
            Op::Absent => crate::text::push_text(&mut out, "Absent"),
            Op::Found => crate::text::push_text(&mut out, "Found"),
            Op::Success => crate::text::push_text(&mut out, "Success"),
            Op::Failure => crate::text::push_text(&mut out, "Failure"),
            Op::Pop => crate::text::push_text(&mut out, "Pop"),
            Op::Duplicate => crate::text::push_text(&mut out, "Duplicate"),
            Op::LoadGlobal(a) => {
                crate::text::push_text(&mut out, "LoadGlobal(");
                crate::text::push_digits(&mut out, a as u64);
                crate::text::push_text(&mut out, ")");
            },
            Op::StoreGlobal(a) => {
                crate::text::push_text(&mut out, "StoreGlobal(");
                crate::text::push_digits(&mut out, a as u64);
                crate::text::push_text(&mut out, ")");
            },
            Op::LoadLocal(a) => {
                crate::text::push_text(&mut out, "LoadLocal(");
                crate::text::push_digits(&mut out, a as u64);
                crate::text::push_text(&mut out, ")");
            },
            Op::StoreLocal(a) => {
                crate::text::push_text(&mut out, "StoreLocal(");
                crate::text::push_digits(&mut out, a as u64);
                crate::text::push_text(&mut out, ")");
            },
            Op::Box(a) => {
                crate::text::push_text(&mut out, "Box(");
                crate::text::push_digits(&mut out, a as u64);
                crate::text::push_text(&mut out, ")");
            },
            Op::LoadCell(a) => {
                crate::text::push_text(&mut out, "LoadCell(");
                crate::text::push_digits(&mut out, a as u64);
                crate::text::push_text(&mut out, ")");
            },
            Op::StoreCell(a) => {
                crate::text::push_text(&mut out, "StoreCell(");
                crate::text::push_digits(&mut out, a as u64);
                crate::text::push_text(&mut out, ")");
            },
            Op::LoadUpvalue(a) => {
                crate::text::push_text(&mut out, "LoadUpvalue(");
                crate::text::push_digits(&mut out, a as u64);
                crate::text::push_text(&mut out, ")");
            },
            Op::StoreUpvalue(a) => {
                crate::text::push_text(&mut out, "StoreUpvalue(");
                crate::text::push_digits(&mut out, a as u64);
                crate::text::push_text(&mut out, ")");
            },
            Op::LoadSelf => crate::text::push_text(&mut out, "LoadSelf"),
            Op::Add => crate::text::push_text(&mut out, "Add"),
            Op::Subtract => crate::text::push_text(&mut out, "Subtract"),
            Op::Multiply => crate::text::push_text(&mut out, "Multiply"),
            Op::Divide => crate::text::push_text(&mut out, "Divide"),
            Op::Remainder => crate::text::push_text(&mut out, "Remainder"),
            Op::Negate => crate::text::push_text(&mut out, "Negate"),
            Op::Equal => crate::text::push_text(&mut out, "Equal"),
            Op::NotEqual => crate::text::push_text(&mut out, "NotEqual"),
            Op::Less => crate::text::push_text(&mut out, "Less"),
            Op::LessOrEqual => crate::text::push_text(&mut out, "LessOrEqual"),
            Op::Greater => crate::text::push_text(&mut out, "Greater"),
            Op::GreaterOrEqual => crate::text::push_text(&mut out, "GreaterOrEqual"),
            Op::Not => crate::text::push_text(&mut out, "Not"),
            Op::List(a) => {
                crate::text::push_text(&mut out, "List(");
                crate::text::push_digits(&mut out, a as u64);
                crate::text::push_text(&mut out, ")");
            },
            Op::Table(a) => {
                crate::text::push_text(&mut out, "Table(");
                crate::text::push_digits(&mut out, a as u64);
                crate::text::push_text(&mut out, ")");
            },
            Op::Tuple(a) => {
                crate::text::push_text(&mut out, "Tuple(");
                crate::text::push_digits(&mut out, a as u64);
                crate::text::push_text(&mut out, ")");
            },
            Op::Range => crate::text::push_text(&mut out, "Range"),
            Op::Text(a) => {
                crate::text::push_text(&mut out, "Text(");
                crate::text::push_digits(&mut out, a as u64);
                crate::text::push_text(&mut out, ")");
            },
            Op::Record { layout, fields } => {
                crate::text::push_text(&mut out, "Record { ");
                crate::text::push_text(&mut out, "layout: ");
                crate::text::push_digits(&mut out, layout as u64);
                crate::text::push_text(&mut out, ", fields: ");
                crate::text::push_digits(&mut out, fields as u64);
                crate::text::push_text(&mut out, " }");
            },
            Op::Variant { layout, fields } => {
                crate::text::push_text(&mut out, "Variant { ");
                crate::text::push_text(&mut out, "layout: ");
                crate::text::push_digits(&mut out, layout as u64);
                crate::text::push_text(&mut out, ", fields: ");
                crate::text::push_digits(&mut out, fields as u64);
                crate::text::push_text(&mut out, " }");
            },
            Op::Field(a) => {
                crate::text::push_text(&mut out, "Field(");
                crate::text::push_digits(&mut out, a as u64);
                crate::text::push_text(&mut out, ")");
            },
            Op::SetField(a) => {
                crate::text::push_text(&mut out, "SetField(");
                crate::text::push_digits(&mut out, a as u64);
                crate::text::push_text(&mut out, ")");
            },
            Op::Index => crate::text::push_text(&mut out, "Index"),
            Op::Length => crate::text::push_text(&mut out, "Length"),
            Op::IsEmpty => crate::text::push_text(&mut out, "IsEmpty"),
            Op::Entries => crate::text::push_text(&mut out, "Entries"),
            Op::Append(a) => {
                crate::text::push_text(&mut out, "Append(");
                crate::text::push_digits(&mut out, a as u64);
                crate::text::push_text(&mut out, ")");
            },
            Op::IsFound => crate::text::push_text(&mut out, "IsFound"),
            Op::IsSuccess => crate::text::push_text(&mut out, "IsSuccess"),
            Op::IsFailure => crate::text::push_text(&mut out, "IsFailure"),
            Op::IsVariant(a) => {
                crate::text::push_text(&mut out, "IsVariant(");
                crate::text::push_digits(&mut out, a as u64);
                crate::text::push_text(&mut out, ")");
            },
            Op::Unwrap => crate::text::push_text(&mut out, "Unwrap"),
            Op::VariantField(a) => {
                crate::text::push_text(&mut out, "VariantField(");
                crate::text::push_digits(&mut out, a as u64);
                crate::text::push_text(&mut out, ")");
            },
            Op::TupleItem(a) => {
                crate::text::push_text(&mut out, "TupleItem(");
                crate::text::push_digits(&mut out, a as u64);
                crate::text::push_text(&mut out, ")");
            },
            Op::ListLengthIs { length, at_least } => {
                crate::text::push_text(&mut out, "ListLengthIs { ");
                crate::text::push_text(&mut out, "length: ");
                crate::text::push_digits(&mut out, length as u64);
                crate::text::push_text(&mut out, ", at_least: ");
                crate::text::push_text(&mut out, if at_least { "true" } else { "false" });
                crate::text::push_text(&mut out, " }");
            },
            Op::Jump(a) => {
                crate::text::push_text(&mut out, "Jump(");
                crate::text::push_digits(&mut out, a as u64);
                crate::text::push_text(&mut out, ")");
            },
            Op::JumpIfFalse(a) => {
                crate::text::push_text(&mut out, "JumpIfFalse(");
                crate::text::push_digits(&mut out, a as u64);
                crate::text::push_text(&mut out, ")");
            },
            Op::JumpIfTrue(a) => {
                crate::text::push_text(&mut out, "JumpIfTrue(");
                crate::text::push_digits(&mut out, a as u64);
                crate::text::push_text(&mut out, ")");
            },
            Op::Return => crate::text::push_text(&mut out, "Return"),
            Op::Call(a) => {
                crate::text::push_text(&mut out, "Call(");
                crate::text::push_digits(&mut out, a as u64);
                crate::text::push_text(&mut out, ")");
            },
            Op::CallMethod { body, arity } => {
                crate::text::push_text(&mut out, "CallMethod { ");
                crate::text::push_text(&mut out, "body: ");
                crate::text::push_digits(&mut out, body as u64);
                crate::text::push_text(&mut out, ", arity: ");
                crate::text::push_digits(&mut out, arity as u64);
                crate::text::push_text(&mut out, " }");
            },
            Op::CallAbility { ability, slot, arity } => {
                crate::text::push_text(&mut out, "CallAbility { ");
                crate::text::push_text(&mut out, "ability: ");
                crate::text::push_digits(&mut out, ability as u64);
                crate::text::push_text(&mut out, ", slot: ");
                crate::text::push_digits(&mut out, slot as u64);
                crate::text::push_text(&mut out, ", arity: ");
                crate::text::push_digits(&mut out, arity as u64);
                crate::text::push_text(&mut out, " }");
            },
            Op::Builtin(a) => {
                crate::text::push_text(&mut out, "Builtin(");
                crate::text::push_text(&mut out, builtin_debug_text(a));
                crate::text::push_text(&mut out, ")");
            },
            Op::MakeFunction(a) => {
                crate::text::push_text(&mut out, "MakeFunction(");
                crate::text::push_digits(&mut out, a as u64);
                crate::text::push_text(&mut out, ")");
            },
            Op::ChannelNew => crate::text::push_text(&mut out, "ChannelNew"),
            Op::SharedNew => crate::text::push_text(&mut out, "SharedNew"),
            Op::Send => crate::text::push_text(&mut out, "Send"),
            Op::Receive => crate::text::push_text(&mut out, "Receive"),
            Op::Close => crate::text::push_text(&mut out, "Close"),
            Op::Start(a) => {
                crate::text::push_text(&mut out, "Start(");
                crate::text::push_digits(&mut out, a as u64);
                crate::text::push_text(&mut out, ")");
            },
            Op::TaskWait => crate::text::push_text(&mut out, "TaskWait"),
            Op::SharedRead => crate::text::push_text(&mut out, "SharedRead"),
            Op::SharedUpdate => crate::text::push_text(&mut out, "SharedUpdate"),
            Op::BeginTogether => crate::text::push_text(&mut out, "BeginTogether"),
            Op::EndTogether => crate::text::push_text(&mut out, "EndTogether"),
            Op::Select(a) => {
                crate::text::push_text(&mut out, "Select(");
                crate::text::push_digits(&mut out, a as u64);
                crate::text::push_text(&mut out, ")");
            },
            Op::ReadFile(a) => {
                crate::text::push_text(&mut out, "ReadFile(");
                crate::text::push_digits(&mut out, a as u64);
                crate::text::push_text(&mut out, ")");
            },
            Op::Now => crate::text::push_text(&mut out, "Now"),
            Op::EnvGet => crate::text::push_text(&mut out, "EnvGet"),
            Op::EnvRequired(a) => {
                crate::text::push_text(&mut out, "EnvRequired(");
                crate::text::push_digits(&mut out, a as u64);
                crate::text::push_text(&mut out, ")");
            },
            Op::DbConnect(a) => {
                crate::text::push_text(&mut out, "DbConnect(");
                crate::text::push_digits(&mut out, a as u64);
                crate::text::push_text(&mut out, ")");
            },
            Op::DbExecute(a) => {
                crate::text::push_text(&mut out, "DbExecute(");
                crate::text::push_digits(&mut out, a as u64);
                crate::text::push_text(&mut out, ")");
            },
            Op::DbQuery(a) => {
                crate::text::push_text(&mut out, "DbQuery(");
                crate::text::push_digits(&mut out, a as u64);
                crate::text::push_text(&mut out, ")");
            },
            Op::StoreOpen(a) => {
                crate::text::push_text(&mut out, "StoreOpen(");
                crate::text::push_digits(&mut out, a as u64);
                crate::text::push_text(&mut out, ")");
            },
            Op::StoreGet => crate::text::push_text(&mut out, "StoreGet"),
            Op::StoreSet(a) => {
                crate::text::push_text(&mut out, "StoreSet(");
                crate::text::push_digits(&mut out, a as u64);
                crate::text::push_text(&mut out, ")");
            },
            Op::StoreRemove(a) => {
                crate::text::push_text(&mut out, "StoreRemove(");
                crate::text::push_digits(&mut out, a as u64);
                crate::text::push_text(&mut out, ")");
            },
            Op::StoreKeys(a) => {
                crate::text::push_text(&mut out, "StoreKeys(");
                crate::text::push_digits(&mut out, a as u64);
                crate::text::push_text(&mut out, ")");
            },
            Op::HttpGet(a) => {
                crate::text::push_text(&mut out, "HttpGet(");
                crate::text::push_digits(&mut out, a as u64);
                crate::text::push_text(&mut out, ")");
            },
            Op::HttpPost(a) => {
                crate::text::push_text(&mut out, "HttpPost(");
                crate::text::push_digits(&mut out, a as u64);
                crate::text::push_text(&mut out, ")");
            },
            Op::HttpSend(a) => {
                crate::text::push_text(&mut out, "HttpSend(");
                crate::text::push_digits(&mut out, a as u64);
                crate::text::push_text(&mut out, ")");
            },
            Op::RequestWho { user, unauthorized } => {
                crate::text::push_text(&mut out, "RequestWho { ");
                crate::text::push_text(&mut out, "user: ");
                crate::text::push_digits(&mut out, user as u64);
                crate::text::push_text(&mut out, ", unauthorized: ");
                crate::text::push_digits(&mut out, unauthorized as u64);
                crate::text::push_text(&mut out, " }");
            },
            Op::ReplyWith(a) => {
                crate::text::push_text(&mut out, "ReplyWith(");
                crate::text::push_text(&mut out, if a { "true" } else { "false" });
                crate::text::push_text(&mut out, ")");
            },
            Op::ReplyFile(a) => {
                crate::text::push_text(&mut out, "ReplyFile(");
                crate::text::push_text(&mut out, if a { "true" } else { "false" });
                crate::text::push_text(&mut out, ")");
            },
            Op::ReplyText(a) => {
                crate::text::push_text(&mut out, "ReplyText(");
                crate::text::push_text(&mut out, if a { "true" } else { "false" });
                crate::text::push_text(&mut out, ")");
            },
            Op::ReplyExplain => crate::text::push_text(&mut out, "ReplyExplain"),
            Op::NotYet(a) => {
                crate::text::push_text(&mut out, "NotYet(");
                crate::text::push_text(&mut out, feature_debug_text(a));
                crate::text::push_text(&mut out, ")");
            },
            Op::NoArm => crate::text::push_text(&mut out, "NoArm"),
    }
    proof { assert(out@ =~= op_text(op)); }
    out
}

/// How a list of captures is written: in square brackets, each as
/// `Local(n)` or `Upvalue(n)`, with a comma and a space between them.
pub open spec fn captures_text(captures: Seq<Capture>) -> Seq<char> {
    "["@ + captures_items(captures, captures.len() as int) + "]"@
}

/// One capture, written.
pub open spec fn capture_text(c: Capture) -> Seq<char> {
    match c {
        Capture::Local(n) => "Local("@ + crate::text::digits(n as nat) + ")"@,
        Capture::Upvalue(n) => "Upvalue("@ + crate::text::digits(n as nat) + ")"@,
    }
}

/// The first `n` captures, written, with `, ` between them.
pub open spec fn captures_items(captures: Seq<Capture>, n: int) -> Seq<char>
    decreases n,
{
    if n <= 0 {
        Seq::empty()
    } else if n == 1 {
        capture_text(captures[0])
    } else {
        captures_items(captures, n - 1) + ", "@ + capture_text(captures[n - 1])
    }
}

/// A body's captures written as `captures_text` says.
fn write_captures(captures: &Vec<Capture>) -> (r: String)
    ensures
        r@ == captures_text(captures@),
{
    let mut out = String::new();
    crate::text::push_text(&mut out, "[");
    let ghost start = out@;
    let mut i: usize = 0;
    while i < captures.len()
        invariant
            i <= captures@.len(),
            out@ == start + captures_items(captures@, i as int),
        decreases captures.len() - i,
    {
        if i > 0 {
            crate::text::push_text(&mut out, ", ");
        }
        match captures[i] {
            Capture::Local(n) => {
                crate::text::push_text(&mut out, "Local(");
                crate::text::push_digits(&mut out, n as u64);
                crate::text::push_text(&mut out, ")");
            },
            Capture::Upvalue(n) => {
                crate::text::push_text(&mut out, "Upvalue(");
                crate::text::push_digits(&mut out, n as u64);
                crate::text::push_text(&mut out, ")");
            },
        }
        proof { assert(out@ =~= start + captures_items(captures@, i + 1)); }
        i = i + 1;
    }
    crate::text::push_text(&mut out, "]");
    out
}

/// `1 slot`, `2 slots`: a count of things, in English.
pub open spec fn spec_count(how_many: usize, thing: Seq<char>) -> Seq<char> {
    if how_many == 1 { "1 "@ + thing } else { crate::text::digits(how_many as nat) + " "@ + thing + "s"@ }
}

/// `1 slot`, `2 slots`: a listing is read by people, so it says it in
/// English.
pub fn count(how_many: usize, thing: &str) -> (r: String)
    ensures
        r@ == spec_count(how_many, thing@),
{
    let mut out = String::new();
    if how_many == 1 {
        crate::text::push_text(&mut out, "1 ");
        crate::text::push_text(&mut out, thing);
    } else {
        crate::text::push_digits(&mut out, how_many as u64);
        crate::text::push_text(&mut out, " ");
        crate::text::push_text(&mut out, thing);
        crate::text::push_text(&mut out, "s");
    }
    out
}

impl Program {
    /// A body of the program, if there is one with that number.
    pub fn body(&self, index: usize) -> (r: Option<&Body>)
        ensures
            match r {
                Some(b) => index < self.bodies@.len() && *b == self.bodies@[index as int],
                None => index >= self.bodies@.len(),
            },
    {
        if index < self.bodies.len() { Some(&self.bodies[index]) } else { None }
    }

    /// One instruction, written the way a reader wants it: a constant shows
    /// its value and a call shows the name of what it calls.
    fn write(&self, op: Op) -> (r: String)
        ensures
            r@ == spec_write(*self, op),
    {
        let mut out = String::new();
        match op {
            Op::Constant(index) => {
                crate::text::push_text(&mut out, "Constant ");
                crate::text::push_digits(&mut out, index as u64);
                if (index as usize) < self.constants.len() {
                    let cells: Vec<Value> = Vec::new();
                    proof { crate::value::lemma_views(cells@); assert(crate::value::views(cells@) =~= Seq::<crate::value::ValueView>::empty()); }
                    crate::text::push_text(&mut out, " (");
                    crate::show::push_quoted(&mut out, &self.constants[index as usize], self, &cells, 0);
                    crate::text::push_text(&mut out, ")");
                }
            },
            Op::Record { layout, fields } => {
                crate::text::push_text(&mut out, "Record ");
                if (layout as usize) < self.layouts.len() {
                    crate::text::push_text(&mut out, self.layouts[layout as usize].name.as_str());
                }
                crate::text::push_text(&mut out, " (");
                crate::text::push_digits(&mut out, fields as u64);
                crate::text::push_text(&mut out, " fields)");
            },
            Op::Variant { layout, fields } => {
                crate::text::push_text(&mut out, "Variant ");
                if (layout as usize) < self.variants.len() {
                    crate::text::push_text(&mut out, self.variants[layout as usize].choice.as_str());
                    crate::text::push_text(&mut out, ".");
                    crate::text::push_text(&mut out, self.variants[layout as usize].name.as_str());
                }
                crate::text::push_text(&mut out, " (");
                crate::text::push_digits(&mut out, fields as u64);
                crate::text::push_text(&mut out, " fields)");
            },
            Op::CallMethod { body, arity } => {
                crate::text::push_text(&mut out, "CallMethod ");
                if (body as usize) < self.bodies.len() {
                    crate::text::push_text(&mut out, self.bodies[body as usize].name.as_str());
                }
                crate::text::push_text(&mut out, " (");
                crate::text::push_digits(&mut out, arity as u64);
                crate::text::push_text(&mut out, ")");
            },
            Op::MakeFunction(body) => {
                crate::text::push_text(&mut out, "MakeFunction ");
                if (body as usize) < self.bodies.len() {
                    crate::text::push_text(&mut out, self.bodies[body as usize].name.as_str());
                }
            },
            Op::Builtin(builtin) => {
                crate::text::push_text(&mut out, "Builtin ");
                crate::text::push_text(&mut out, builtin.name());
            },
            Op::ReadFile(layout) => {
                crate::text::push_text(&mut out, "ReadFile ");
                crate::text::push_digits(&mut out, layout as u64);
            },
            Op::Now => crate::text::push_text(&mut out, "Now"),
            Op::NotYet(feature) => {
                crate::text::push_text(&mut out, "NotYet (");
                let said = feature.to_string();
                crate::text::push_text(&mut out, said.as_str());
                crate::text::push_text(&mut out, ")");
            },
            other => {
                let said = write_op(other);
                crate::text::push_text(&mut out, said.as_str());
            },
        }
        out
    }

    /// Every body of the program with its instructions, one to a line.
    pub fn disassemble(&self) -> (r: String)
        ensures
            r@ == spec_listing(*self, self.bodies@.len() as int),
    {
        let mut out = String::new();
        let mut index: usize = 0;
        while index < self.bodies.len()
            invariant
                index <= self.bodies@.len(),
                out@ == spec_listing(*self, index as int),
            decreases self.bodies.len() - index,
        {
            let body = &self.bodies[index];
            let heading = heading(body, index);
            crate::text::push_text(&mut out, heading.as_str());
            let ghost before = out@;
            assert(out@ =~= before + spec_code(*self, body.code@, 0));
            let mut position: usize = 0;
            while position < body.code.len()
                invariant
                    position <= body.code@.len(),
                    out@ == before + spec_code(*self, body.code@, position as int),
                decreases body.code.len() - position,
            {
                let line = self.line(body.code[position], position);
                crate::text::push_text(&mut out, line.as_str());
                proof {
                    assert(out@ =~= before + spec_code(*self, body.code@, position + 1));
                }
                position = position + 1;
            }
            crate::text::push_text(&mut out, "\n");
            proof {
                assert(out@ =~= spec_listing(*self, index + 1));
            }
            index = index + 1;
        }
        out
    }

    /// One line of a listing.
    fn line(&self, op: Op, position: usize) -> (r: String)
        ensures
            r@ == spec_line(*self, op, position as nat),
    {
        let mut out = String::new();
        let mut number = String::new();
        crate::text::push_digits(&mut number, position as u64);
        proof { assert(number@ =~= crate::text::digits(position as nat)); }
        let width: usize = number.as_str().unicode_len();
        assert(width == number@.len());
        let mut pad: usize = width;
        proof { assert(out@ =~= spaces(0)); }
        while pad < 5
            invariant
                width == number@.len(),
                width <= pad,
                width < 5 ==> pad <= 5,
                width >= 5 ==> pad == width,
                out@ == spaces((pad - width) as nat),
            decreases 5 - pad,
        {
            crate::text::push_text(&mut out, " ");
            proof {
                reveal_strlit(" ");
                assert(spaces((pad + 1 - width) as nat) =~= spaces((pad - width) as nat) + " "@);
            }
            pad = pad + 1;
        }
        assert(out@ == spaces(if number@.len() < 5 { (5 - number@.len()) as nat } else { 0 }));
        crate::text::push_text(&mut out, number.as_str());
        crate::text::push_text(&mut out, "  ");
        let written = self.write(op);
        crate::text::push_text(&mut out, written.as_str());
        crate::text::push_text(&mut out, "\n");
        assert(out@ =~= spec_line(*self, op, position as nat));
        out
    }
}

/// The line that opens a body's listing.
fn heading(body: &Body, index: usize) -> (r: String)
    ensures
        r@ == spec_heading(*body, index as nat),
{
    let mut out = String::new();
    crate::text::push_text(&mut out, "body ");
    crate::text::push_digits(&mut out, index as u64);
    crate::text::push_text(&mut out, ": ");
    crate::text::push_text(&mut out, body.name.as_str());
    crate::text::push_text(&mut out, " \u{2014} ");
    let slots = count(body.slots, "slot");
    crate::text::push_text(&mut out, slots.as_str());
    crate::text::push_text(&mut out, ", ");
    let parameters = count(body.parameters, "parameter");
    crate::text::push_text(&mut out, parameters.as_str());
    if body.captures.len() > 0 {
        crate::text::push_text(&mut out, ", captures ");
        let said = write_captures(&body.captures);
        crate::text::push_text(&mut out, said.as_str());
    }
    crate::text::push_text(&mut out, "\n");
    out
}

/// `n` spaces.
pub open spec fn spaces(n: nat) -> Seq<char> {
    Seq::new(n, |i: int| ' ')
}

/// How one instruction is written in a listing.
pub open spec fn spec_write(p: Program, op: Op) -> Seq<char> {
    match op {
        Op::Constant(index) => "Constant "@ + crate::text::digits(index as nat) + if (index as int) < p.constants@.len() {
            " ("@ + crate::show::quoted(p.constants@[index as int]@, p, Seq::empty(), 0) + ")"@
        } else {
            Seq::empty()
        },
        Op::Record { layout, fields } => "Record "@ + (if (layout as int) < p.layouts@.len() {
            p.layouts@[layout as int].name@
        } else {
            Seq::empty()
        }) + " ("@ + crate::text::digits(fields as nat) + " fields)"@,
        Op::Variant { layout, fields } => "Variant "@ + (if (layout as int) < p.variants@.len() {
            p.variants@[layout as int].choice@ + "."@ + p.variants@[layout as int].name@
        } else {
            Seq::empty()
        }) + " ("@ + crate::text::digits(fields as nat) + " fields)"@,
        Op::CallMethod { body, arity } => "CallMethod "@ + (if (body as int) < p.bodies@.len() {
            p.bodies@[body as int].name@
        } else {
            Seq::empty()
        }) + " ("@ + crate::text::digits(arity as nat) + ")"@,
        Op::MakeFunction(body) => "MakeFunction "@ + if (body as int) < p.bodies@.len() {
            p.bodies@[body as int].name@
        } else {
            Seq::empty()
        },
        Op::Builtin(builtin) => "Builtin "@ + crate::builtin::spec_name(builtin),
        Op::ReadFile(layout) => "ReadFile "@ + crate::text::digits(layout as nat),
        Op::Now => "Now"@,
        Op::NotYet(feature) => "NotYet ("@ + crate::error::spec_feature_text(feature) + ")"@,
        other => op_text(other),
    }
}

/// One line of a listing: the instruction's place, right-aligned in five
/// columns, and the instruction.
pub open spec fn spec_line(p: Program, op: Op, position: nat) -> Seq<char> {
    let number = crate::text::digits(position);
    spaces(if number.len() < 5 { (5 - number.len()) as nat } else { 0 }) + number + "  "@ + spec_write(p, op) + "\n"@
}

/// The lines of the first `n` instructions of a body.
pub open spec fn spec_code(p: Program, code: Seq<Op>, n: int) -> Seq<char>
    decreases n,
{
    if n <= 0 {
        Seq::empty()
    } else {
        spec_code(p, code, n - 1) + spec_line(p, code[n - 1], (n - 1) as nat)
    }
}

/// The line that opens a body's listing: its number, name, slots,
/// parameters and captures.
pub open spec fn spec_heading(body: Body, index: nat) -> Seq<char> {
    "body "@ + crate::text::digits(index) + ": "@ + body.name@ + " \u{2014} "@ + spec_count(body.slots, "slot"@)
        + ", "@ + spec_count(body.parameters, "parameter"@)
        + (if body.captures@.len() > 0 { ", captures "@ + captures_text(body.captures@) } else { Seq::empty() })
        + "\n"@
}

/// A body's whole listing, followed by a blank line.
pub open spec fn spec_body(p: Program, index: int) -> Seq<char> {
    let body = p.bodies@[index];
    spec_heading(body, index as nat) + spec_code(p, body.code@, body.code@.len() as int) + "\n"@
}

/// The listings of the first `n` bodies.
pub open spec fn spec_listing(p: Program, n: int) -> Seq<char>
    decreases n,
{
    if n <= 0 {
        Seq::empty()
    } else {
        spec_listing(p, n - 1) + spec_body(p, n - 1)
    }
}

} // verus!
