//! The machine that runs bytecode.
//!
//! A [`Machine`] is an explicit, complete description of a running Vaab
//! program: a value stack and a stack of frames. A Vaab call is a frame pushed
//! onto the machine, never a Rust call, so how deep a program goes is a Vaab
//! question with a Vaab answer ([`Fault::TooManyCalls`]).
//!
//! What a machine does not hold is the program, the file's top-level values
//! and the cells closures and `shared` values live in: those are the
//! [`World`], shared by every machine. Work only the outside world can do (a
//! file, the clock, a database, a float) is handed out as a [`Request`]; the
//! machine waits for its [`Answer`] and carries on.

use vstd::prelude::*;
use crate::bytecode::{Capture, Program};
use crate::concurrency::WaitSite;
use crate::error::{Fault, Level, Span};
use crate::value::{Value, ValueView, Closure, views, view_of, lemma_views, lemma_views_push, copy_value, copy_values};

verus! {

/// How deep calls may go before Vaab stops and says so.
pub const MOST_CALLS: usize = 10_000;

/// Where `print` writes.
pub enum Output {
    /// The terminal: each line is handed out to be written.
    Terminal,
    /// Kept in memory, which is what a test wants.
    Collected(Vec<String>),
}

impl Output {
    /// Output kept in memory, with nothing in it yet.
    pub fn collected() -> (r: Output)
        ensures
            r matches Output::Collected(lines) && lines@.len() == 0,
    {
        Output::Collected(Vec::new())
    }

    /// Everything printed so far, for output that was collected; nothing for
    /// the terminal.
    pub fn lines(&self) -> (r: &[String])
        ensures
            match self {
                Output::Terminal => r@.len() == 0,
                Output::Collected(lines) => r@ == lines@,
            },
    {
        match self {
            Output::Terminal => &[],
            Output::Collected(lines) => lines.as_slice(),
        }
    }
}

/// The answer a served program gives to the request it is handling.
pub struct HttpResponse {
    pub status: u16,
    pub body: String,
    pub content_type: String,
}

impl HttpResponse {
    /// A JSON answer with the given status.
    pub fn json(status: u16, body: String) -> (r: HttpResponse)
        ensures
            r.status == status,
            r.body@ == body@,
            r.content_type@ == "application/json"@,
    {
        HttpResponse { status, body, content_type: String::from_str("application/json") }
    }
}

/// Everything a machine runs against but does not own: the program, the
/// file's top-level values, the cells, and somewhere for `print` to go.
pub struct World {
    pub program: Program,
    /// The file's top-level values, which outlive any one frame.
    pub globals: Vec<Value>,
    /// Locals that closures share, `shared` state and the fields of a `cast`:
    /// every value that more than one place can change.
    pub cells: Vec<Value>,
    pub output: Output,
    pub response: Option<HttpResponse>,
    /// The identity the next function value made will carry.
    pub next_identity: usize,
}

/// `n` copies of `nothing`.
fn nothings(n: usize) -> (r: Vec<Value>)
    ensures
        r@.len() == n,
        forall|i: int| 0 <= i < n ==> #[trigger] r@[i] == Value::Nothing,
{
    let mut out: Vec<Value> = Vec::new();
    let mut i: usize = 0;
    while i < n
        invariant
            i <= n,
            out@.len() == i,
            forall|k: int| 0 <= k < i ==> #[trigger] out@[k] == Value::Nothing,
        decreases n - i,
    {
        out.push(Value::Nothing);
        i = i + 1;
    }
    out
}

impl World {
    /// A world about to run a program: every top-level value `nothing`, no
    /// cells yet, and no response.
    pub fn new(program: Program, output: Output) -> (w: World)
        ensures
            w.program == program,
            w.output == output,
            w.globals@.len() == program.globals,
            forall|i: int| 0 <= i < w.globals@.len() ==> #[trigger] w.globals@[i] == Value::Nothing,
            w.cells@.len() == 0,
            w.response is None,
            w.next_identity == 0,
    {
        let globals = nothings(program.globals);
        World { program, globals, cells: Vec::new(), output, response: None, next_identity: 0 }
    }

    /// Takes a freshly compiled program, keeping the values the session
    /// already has: a REPL line adds statements to the end of a file, so the
    /// top-level slots it already filled keep their numbers.
    pub fn reload(&mut self, program: Program)
        ensures
            final(self).program == program,
            final(self).globals@.len() == (if program.globals > old(self).globals@.len() { program.globals as nat } else { old(self).globals@.len() }),
            forall|i: int| 0 <= i < old(self).globals@.len() ==> #[trigger] final(self).globals@[i] == old(self).globals@[i],
            forall|i: int| old(self).globals@.len() <= i < final(self).globals@.len() ==> #[trigger] final(self).globals@[i] == Value::Nothing,
            final(self).cells == old(self).cells,
            final(self).output == old(self).output,
            final(self).response == old(self).response,
            final(self).next_identity == old(self).next_identity,
    {
        while self.globals.len() < program.globals
            invariant
                self.globals@.len() <= program.globals || self.globals@.len() == old(self).globals@.len(),
                self.globals@.len() >= old(self).globals@.len(),
                forall|i: int| 0 <= i < old(self).globals@.len() ==> #[trigger] self.globals@[i] == old(self).globals@[i],
                forall|i: int| old(self).globals@.len() <= i < self.globals@.len() ==> #[trigger] self.globals@[i] == Value::Nothing,
                self.cells == old(self).cells,
                self.output == old(self).output,
                self.response == old(self).response,
                self.next_identity == old(self).next_identity,
                self.program == old(self).program,
            decreases program.globals - self.globals@.len(),
        {
            self.globals.push(Value::Nothing);
        }
        self.program = program;
    }

    /// Puts a value in a new cell, giving back the `Captured` value that
    /// names it.
    pub fn cell_new(&mut self, value: Value) -> (r: Value)
        ensures
            r == Value::Captured(old(self).cells@.len() as usize),
            final(self).cells@ == old(self).cells@.push(value),
            final(self).program == old(self).program,
            final(self).globals == old(self).globals,
            final(self).output == old(self).output,
            final(self).response == old(self).response,
            final(self).next_identity == old(self).next_identity,
    {
        let index = self.cells.len();
        self.cells.push(value);
        Value::Captured(index)
    }

    /// What a cell holds, for a `Captured` or `Shared` value naming a cell
    /// that is there.
    pub fn cell_get(&self, cell: &Value) -> (r: Option<Value>)
        ensures
            match r {
                Some(v) => (match *cell {
                    Value::Captured(c) | Value::Shared(c) => c < self.cells@.len() && v@ == self.cells@[c as int]@,
                    _ => false,
                }),
                None => !(match *cell {
                    Value::Captured(c) | Value::Shared(c) => c < self.cells@.len(),
                    _ => false,
                }),
            },
    {
        match cell {
            Value::Captured(c) | Value::Shared(c) => {
                if *c < self.cells.len() {
                    Some(copy_value(&self.cells[*c]))
                } else {
                    None
                }
            },
            _ => None,
        }
    }

    /// Changes what a cell holds; false, and nothing changed, when the value
    /// names no cell that is there.
    pub fn cell_set(&mut self, cell: &Value, value: Value) -> (r: bool)
        ensures
            r == (match *cell {
                Value::Captured(c) | Value::Shared(c) => c < old(self).cells@.len(),
                _ => false,
            }),
            r ==> (match *cell {
                Value::Captured(c) | Value::Shared(c) => final(self).cells@ == old(self).cells@.update(c as int, value),
                _ => true,
            }),
            !r ==> final(self).cells == old(self).cells,
            final(self).program == old(self).program,
            final(self).globals == old(self).globals,
            final(self).output == old(self).output,
            final(self).response == old(self).response,
            final(self).next_identity == old(self).next_identity,
    {
        match cell {
            Value::Captured(c) | Value::Shared(c) => {
                if *c < self.cells.len() {
                    self.cells.set(*c, value);
                    true
                } else {
                    false
                }
            },
            _ => false,
        }
    }
}

/// One suspended call.
pub struct Frame {
    pub body: usize,
    /// The instruction to run next.
    pub pc: usize,
    /// Where this frame's slot 0 sits in the value stack.
    pub base: usize,
    /// `self`, for a method; `nothing` everywhere else.
    pub receiver: Value,
    /// The function value this frame is running, for its captures.
    pub closure: Option<Closure>,
}

/// How many instructions a machine may run before it hands control back.
#[derive(Clone, Copy, Debug)]
pub struct Budget(pub u64);

impl Budget {
    pub fn of(instructions: u64) -> (b: Budget)
        ensures
            b.0 == instructions,
    {
        Budget(instructions)
    }

    /// Run until the program is done.
    pub fn unlimited() -> (b: Budget)
        ensures
            b.0 == u64::MAX,
    {
        Budget(u64::MAX)
    }
}

/// What came of running a machine for a while.
pub enum Step {
    /// The budget ran out. The machine is wherever it got to and may be
    /// resumed.
    Yielded,
    /// The task is waiting for a channel, a task, or a `together`.
    Parked(WaitSite),
    /// The body the machine started in returned, with this value.
    Finished(Value),
    Failed(Box<crate::error::RuntimeError>),
    /// The machine waits for the world outside: do this, hand the answer to
    /// [`Machine::complete`], and resume it.
    Outside(crate::outside::Request),
}

/// A running Vaab program.
pub struct Machine {
    pub(crate) stack: Vec<Value>,
    pub(crate) frames: Vec<Frame>,
    pub(crate) pending: Option<crate::concurrency::Pending>,
    pub(crate) together_group: Option<usize>,
    pub(crate) awaiting: Option<Awaiting>,
    /// The `.update` this machine is running the function of, if any.
    pub(crate) updating: Option<Box<Update>>,
}

/// A `.update` under way: the function runs on a machine of its own, alone,
/// and what it returns becomes the shared value.
pub struct Update {
    pub machine: Machine,
    pub host: crate::concurrency::Host,
    /// The cell holding the shared value.
    pub cell: usize,
}

/// What a machine waiting on the outside world remembers: the instruction
/// that asked, a value it will need again, and the status of a reply.
pub struct Awaiting {
    pub op: crate::bytecode::Op,
    pub held: Value,
    pub status: u16,
}

/// The value a body's slots start as.
pub open spec fn blank_slots(n: nat) -> Seq<Value> {
    Seq::new(n, |i: int| Value::Nothing)
}

impl Machine {
    /// The values on the machine's stack, bottom first.
    pub closed spec fn stack_view(&self) -> Seq<ValueView> {
        views(self.stack@)
    }

    /// The machine's stack itself.
    pub closed spec fn stack_seq(&self) -> Seq<Value> {
        self.stack@
    }

    /// The machine's calls, outermost first.
    pub closed spec fn frames_seq(&self) -> Seq<Frame> {
        self.frames@
    }

    /// How many calls deep the machine is.
    pub closed spec fn frame_count(&self) -> nat {
        self.frames@.len()
    }

    /// The body the innermost call runs and the instruction it runs next.
    pub closed spec fn position(&self) -> Option<(usize, usize)> {
        if self.frames@.len() == 0 {
            None
        } else {
            Some((self.frames@.last().body, self.frames@.last().pc))
        }
    }

    /// What the closed views of a machine are made of, for the proofs of
    /// this crate.
    pub(crate) proof fn reveal_views(&self)
        ensures
            self.frame_count() == self.frames@.len(),
            self.frames_seq() == self.frames@,
            self.stack_seq() == self.stack@,
            self.stack_view() == views(self.stack@),
            self.is_awaiting() == (self.awaiting is Some),
            self.is_idle() == (self.pending is None && self.updating is None && self.awaiting is None),
            self.position() == (if self.frames@.len() == 0 { None } else { Some((self.frames@.last().body, self.frames@.last().pc)) }),
            self.is_updating() == (self.updating is Some),
            self.awaited() == match self.awaiting {
                Some(w) => Some((w.op, w.held@, w.status)),
                None => None,
            },
    {
    }

    /// Whether the machine is running the function of a `.update`.
    pub closed spec fn is_updating(&self) -> bool {
        self.updating is Some
    }

    /// The instruction waiting for an answer from outside, what it held
    /// back, and the status it replies with.
    pub closed spec fn awaited(&self) -> Option<(crate::bytecode::Op, ValueView, u16)> {
        match self.awaiting {
            Some(w) => Some((w.op, w.held@, w.status)),
            None => None,
        }
    }

    /// Whether the machine is waiting for the outside world to answer.
    pub closed spec fn is_awaiting(&self) -> bool {
        self.awaiting is Some
    }

    /// The instruction the machine runs next, if its innermost call is at
    /// one of the program.
    pub closed spec fn next_op(&self, program: Program) -> Option<crate::bytecode::Op> {
        crate::step::op_at(self.frames@, program)
    }

    /// Where the innermost call's slots start in the value stack.
    pub closed spec fn frame_base(&self) -> int {
        self.frames@.last().base as int
    }

    /// The instruction the innermost call runs next, by its place in its body.
    pub closed spec fn next_pc(&self) -> int {
        self.frames@.last().pc as int
    }

    pub(crate) proof fn reveal_next_op(&self, program: Program)
        ensures
            self.next_op(program) == crate::step::op_at(self.frames@, program),
            self.frame_base() == self.frames@.last().base as int,
            self.next_pc() == self.frames@.last().pc as int,
    {
    }

    /// How the machine's views fit together: the depth is the number of
    /// calls, the stack's view is the views of its values, and the position,
    /// the next instruction, where the innermost call's slots start and where
    /// it runs next are all read from the innermost call.
    pub proof fn lemma_views_agree(&self, program: Program)
        ensures
            self.frame_count() == self.frames_seq().len(),
            self.stack_view() == views(self.stack_seq()),
            self.stack_view().len() == self.stack_seq().len(),
            self.frame_count() == 0 ==> self.position() is None,
            self.frame_count() > 0 ==> ({
                let f = self.frames_seq().last();
                &&& self.position() == Some((f.body, f.pc))
                &&& self.frame_base() == f.base as int
                &&& self.next_pc() == f.pc as int
            }),
            self.next_op(program) == crate::step::op_at(self.frames_seq(), program),
            self.next_op(program) matches Some(op) ==> self.position() matches Some((b, pc))
                && crate::step::code_at(program, b, pc as int) == Some(op),
    {
        crate::value::lemma_views(self.stack@);
    }

    /// The machine owes nothing before it can run on: no operation to try
    /// again, no shared update of its own under way, no answer awaited.
    pub closed spec fn is_idle(&self) -> bool {
        self.pending is None && self.updating is None && self.awaiting is None
    }

    /// A machine about to run a body from a given instruction, its slots all
    /// `nothing`. The REPL uses this to run the statements a line added
    /// without running the ones before again.
    pub fn entering(program: &Program, body: usize, pc: usize) -> (m: Machine)
        ensures
            m.frame_count() == 1,
            m.position() == Some((body, pc)),
            m.stack_view().len() == (if body < program.bodies@.len() { program.bodies@[body as int].slots as nat } else { 0 }),
            forall|i: int| 0 <= i < m.stack_view().len() ==> #[trigger] m.stack_view()[i] == ValueView::Nothing,
            !m.is_awaiting(),
            m.is_idle(),
    {
        let slots = if body < program.bodies.len() { program.bodies[body].slots } else { 0 };
        let stack = nothings(slots);
        let mut frames: Vec<Frame> = Vec::new();
        frames.push(Frame { body, pc, base: 0, receiver: Value::Nothing, closure: None });
        let m = Machine { stack, frames, pending: None, together_group: None, awaiting: None, updating: None };
        proof {
            lemma_views(m.stack@);
            assert forall|i: int| 0 <= i < m.stack_view().len() implies #[trigger] m.stack_view()[i] == ValueView::Nothing by {
                assert(m.stack@[i] == Value::Nothing);
            }
        }
        m
    }

    /// A machine about to run a whole file.
    pub fn start(program: &Program) -> (m: Machine)
        ensures
            m.frame_count() == 1,
            m.position() == Some((crate::bytecode::TOP_LEVEL, 0usize)),
            !m.is_awaiting(),
            m.is_idle(),
    {
        Machine::entering(program, crate::bytecode::TOP_LEVEL, 0)
    }

    /// A machine about to run a body called with `arity` arguments already
    /// in place: a spawned task, or the function an `.update` runs.
    pub fn for_body(program: &Program, body: usize, arity: usize, closure: Option<Closure>) -> (r: Result<Machine, Fault>)
        ensures
            match r {
                Ok(m) => body < program.bodies@.len() && arity == 0 && m.frame_count() == 1
                    && m.position() == Some((body, 0usize)) && !m.is_awaiting() && m.is_idle(),
                Err(f) => if body >= program.bodies@.len() {
                    f == Fault::Confused("a call named a body that is not there")
                } else {
                    arity > 0 && f == Fault::Confused("a call was made with too few arguments on the stack")
                },
            },
    {
        let mut machine = Machine { stack: Vec::new(), frames: Vec::new(), pending: None, together_group: None, awaiting: None, updating: None };
        match machine.enter(program, body, arity, Value::Nothing, closure) {
            Ok(()) => Ok(machine),
            Err(f) => Err(f),
        }
    }

    /// How many calls deep the machine currently is.
    pub fn depth(&self) -> (r: usize)
        ensures
            r == self.frame_count(),
    {
        self.frames.len()
    }

    /// Whether the machine has nothing left to do.
    pub fn is_finished(&self) -> (r: bool)
        ensures
            r == (self.frame_count() == 0),
    {
        self.frames.len() == 0
    }

    /// Calls a body with `arity` arguments already on the stack: a new
    /// frame whose slots start at the first argument, the slots past the
    /// arguments `nothing`.
    pub fn enter_call(&mut self, program: &Program, body: usize, arity: usize, receiver: Value, closure: Option<Closure>) -> (r: Result<(), Fault>)
        ensures
            match r {
                Ok(()) => {
                    let base = old(self).stack_seq().len() - arity;
                    let slots = program.bodies@[body as int].slots;
                    let size = if slots > arity { slots } else { arity };
                    &&& old(self).frame_count() < MOST_CALLS
                    &&& body < program.bodies@.len()
                    &&& arity <= old(self).stack_seq().len()
                    &&& final(self).stack_seq().len() == base + size
                    &&& final(self).stack_seq().subrange(0, old(self).stack_seq().len() as int) == old(self).stack_seq()
                    &&& forall|i: int| old(self).stack_seq().len() <= i < final(self).stack_seq().len()
                        ==> #[trigger] final(self).stack_seq()[i] == Value::Nothing
                    &&& final(self).frames_seq() == old(self).frames_seq().push(Frame { body, pc: 0, base: base as usize, receiver, closure })
                },
                Err(f) => final(self).stack_seq() == old(self).stack_seq() && final(self).frames_seq() == old(self).frames_seq()
                    && if old(self).frame_count() >= MOST_CALLS {
                        f == Fault::TooManyCalls { depth: old(self).frame_count() as usize }
                    } else if body >= program.bodies@.len() {
                        f == Fault::Confused("a call named a body that is not there")
                    } else {
                        arity > old(self).stack_seq().len() && f == Fault::Confused("a call was made with too few arguments on the stack")
                    },
            },
    {
        proof { old(self).reveal_views(); }
        let r = self.enter(program, body, arity, receiver, closure);
        proof { self.reveal_views(); }
        r
    }

    /// Writes an argument into a slot of the innermost call.
    pub fn set_argument(&mut self, slot: u32, value: Value) -> (r: Result<(), Fault>)
        ensures
            match r {
                Ok(()) => old(self).frames_seq().len() > 0
                    && old(self).frames_seq().last().base + slot < old(self).stack_seq().len()
                    && final(self).stack_seq() == old(self).stack_seq().update(old(self).frames_seq().last().base + slot, value),
                Err(f) => final(self).stack_seq() == old(self).stack_seq() && (if old(self).frames_seq().len() == 0 {
                    f == Fault::Confused("an argument was written with no frame")
                } else {
                    f == Fault::Confused("a local was written out of range")
                }),
            },
            final(self).frames_seq() == old(self).frames_seq(),
            final(self).is_awaiting() == old(self).is_awaiting(),
    {
        if self.frames.len() == 0 {
            return Err(Fault::Confused("an argument was written with no frame"));
        }
        let base = self.frames[self.frames.len() - 1].base;
        self.set_slot(base, slot, value)
    }

    // -----------------------------------------------------------------------
    // Working the stack
    // -----------------------------------------------------------------------

    pub(crate) fn pop(&mut self) -> (r: Result<Value, Fault>)
        ensures
            match r {
                Ok(v) => old(self).stack@.len() > 0 && v == old(self).stack@.last()
                    && final(self).stack@ == old(self).stack@.drop_last()
                    && v@ == views(old(self).stack@).last()
                    && views(final(self).stack@) == views(old(self).stack@).drop_last(),
                Err(f) => old(self).stack@.len() == 0 && final(self).stack@ == old(self).stack@
                    && f == Fault::Confused("the value stack ran dry"),
            },
            views(old(self).stack@).len() == old(self).stack@.len(),
            final(self).frames == old(self).frames,
            final(self).pending == old(self).pending,
            final(self).together_group == old(self).together_group,
            final(self).awaiting == old(self).awaiting,
            final(self).updating == old(self).updating,
    {
        let ghost before = self.stack@;
        proof { lemma_views(before); }
        match self.stack.pop() {
            Some(v) => {
                assert(self.stack@ =~= before.drop_last());
                proof {
                    lemma_views(self.stack@);
                    assert(views(self.stack@) =~= views(before).drop_last());
                }
                Ok(v)
            },
            None => Err(Fault::Confused("the value stack ran dry")),
        }
    }

    pub(crate) fn push(&mut self, v: Value)
        ensures
            final(self).stack@ == old(self).stack@.push(v),
            views(final(self).stack@) == views(old(self).stack@).push(v@),
            final(self).frames == old(self).frames,
            final(self).pending == old(self).pending,
            final(self).together_group == old(self).together_group,
            final(self).awaiting == old(self).awaiting,
            final(self).updating == old(self).updating,
    {
        proof { lemma_views_push(self.stack@, v); }
        self.stack.push(v);
    }

    /// Takes the top `count` values, in the order they were pushed.
    pub(crate) fn take(&mut self, count: usize) -> (r: Result<Vec<Value>, Fault>)
        ensures
            match r {
                Ok(vs) => count <= old(self).stack@.len()
                    && vs@ == old(self).stack@.subrange(old(self).stack@.len() - count, old(self).stack@.len() as int)
                    && final(self).stack@ == old(self).stack@.subrange(0, old(self).stack@.len() - count)
                    && views(vs@) == views(old(self).stack@).subrange(old(self).stack@.len() - count, old(self).stack@.len() as int)
                    && views(final(self).stack@) == views(old(self).stack@).subrange(0, old(self).stack@.len() - count),
                Err(f) => count > old(self).stack@.len() && final(self).stack@ == old(self).stack@
                    && f == Fault::Confused("the value stack ran dry"),
            },
            final(self).frames == old(self).frames,
            final(self).pending == old(self).pending,
            final(self).together_group == old(self).together_group,
            final(self).awaiting == old(self).awaiting,
            final(self).updating == old(self).updating,
    {
        if count > self.stack.len() {
            return Err(Fault::Confused("the value stack ran dry"));
        }
        let from = self.stack.len() - count;
        let ghost before = self.stack@;
        let taken = self.stack.split_off(from);
        proof {
            lemma_views(before);
            lemma_views(taken@);
            lemma_views(self.stack@);
            assert(views(taken@) =~= views(before).subrange(from as int, before.len() as int));
            assert(views(self.stack@) =~= views(before).subrange(0, from as int));
        }
        Ok(taken)
    }

    /// Takes the value sitting just below `arity` arguments: a callee, or the
    /// receiver of a method.
    pub(crate) fn lift(&mut self, arity: usize) -> (r: Result<Value, Fault>)
        ensures
            match r {
                Ok(v) => arity < old(self).stack@.len()
                    && v == old(self).stack@[old(self).stack@.len() - arity - 1]
                    && final(self).stack@ == old(self).stack@.remove(old(self).stack@.len() - arity - 1),
                Err(f) => arity >= old(self).stack@.len() && final(self).stack@ == old(self).stack@
                    && f == Fault::Confused("a call had nothing to call"),
            },
            final(self).frames == old(self).frames,
            final(self).pending == old(self).pending,
            final(self).together_group == old(self).together_group,
            final(self).awaiting == old(self).awaiting,
            final(self).updating == old(self).updating,
    {
        if arity >= self.stack.len() {
            return Err(Fault::Confused("a call had nothing to call"));
        }
        let position = self.stack.len() - arity - 1;
        Ok(self.stack.remove(position))
    }

    /// A copy of a local of the frame whose slots start at `base`.
    pub(crate) fn slot(&self, base: usize, slot: u32) -> (r: Result<Value, Fault>)
        ensures
            match r {
                Ok(v) => base + slot < self.stack@.len() && v@ == self.stack@[base + slot]@,
                Err(f) => base + slot >= self.stack@.len() && f == Fault::Confused("a local was read out of range"),
            },
    {
        if base >= self.stack.len() || (slot as usize) >= self.stack.len() - base {
            return Err(Fault::Confused("a local was read out of range"));
        }
        Ok(copy_value(&self.stack[base + slot as usize]))
    }

    pub(crate) fn set_slot(&mut self, base: usize, slot: u32, value: Value) -> (r: Result<(), Fault>)
        ensures
            match r {
                Ok(()) => base + slot < old(self).stack@.len()
                    && final(self).stack@ == old(self).stack@.update(base + slot, value),
                Err(f) => base + slot >= old(self).stack@.len() && final(self).stack@ == old(self).stack@
                    && f == Fault::Confused("a local was written out of range"),
            },
            final(self).frames == old(self).frames,
            final(self).pending == old(self).pending,
            final(self).together_group == old(self).together_group,
            final(self).awaiting == old(self).awaiting,
            final(self).updating == old(self).updating,
    {
        if base >= self.stack.len() || (slot as usize) >= self.stack.len() - base {
            return Err(Fault::Confused("a local was written out of range"));
        }
        self.stack.set(base + slot as usize, value);
        Ok(())
    }

    /// A copy of one of the captures of the function the innermost call runs.
    pub(crate) fn upvalue(&self, index: u32) -> (r: Result<Value, Fault>)
        ensures
            match r {
                Ok(v) => self.frames@.len() > 0 && (self.frames@.last().closure matches Some(c)
                    && index < c.captures@.len() && v@ == c.captures@[index as int]@),
                Err(f) => if self.frames@.len() == 0 {
                    f == Fault::Confused("a captured value was read with no frame")
                } else {
                    !(self.frames@.last().closure matches Some(c) && index < c.captures@.len())
                        && (f == Fault::Confused("a captured value was read out of range"))
                },
            },
    {
        if self.frames.len() == 0 {
            return Err(Fault::Confused("a captured value was read with no frame"));
        }
        let frame = &self.frames[self.frames.len() - 1];
        match &frame.closure {
            Some(c) => {
                if (index as usize) < c.captures.len() {
                    Ok(copy_value(&c.captures[index as usize]))
                } else {
                    Err(Fault::Confused("a captured value was read out of range"))
                }
            },
            None => Err(Fault::Confused("a captured value was read out of range")),
        }
    }

    /// Moves the innermost call to another instruction.
    pub(crate) fn jump(&mut self, target: u32) -> (r: Result<(), Fault>)
        ensures
            match r {
                Ok(()) => old(self).frames@.len() > 0
                    && final(self).frames@.len() == old(self).frames@.len()
                    && final(self).frames@.last().pc == target
                    && final(self).frames@.last().body == old(self).frames@.last().body
                    && final(self).frames@.last().base == old(self).frames@.last().base
                    && final(self).frames@.drop_last() == old(self).frames@.drop_last(),
                Err(f) => old(self).frames@.len() == 0 && final(self).frames == old(self).frames
                    && f == Fault::Confused("a jump with no frame to jump in"),
            },
            final(self).stack@ == old(self).stack@,
            final(self).pending == old(self).pending,
            final(self).together_group == old(self).together_group,
            final(self).awaiting == old(self).awaiting,
            final(self).updating == old(self).updating,
    {
        let n = self.frames.len();
        if n == 0 {
            return Err(Fault::Confused("a jump with no frame to jump in"));
        }
        let mut frame = self.frames.pop().unwrap();
        frame.pc = target as usize;
        self.frames.push(frame);
        proof { assert(self.frames@.drop_last() =~= old(self).frames@.drop_last()); }
        Ok(())
    }

    // -----------------------------------------------------------------------
    // Calls
    // -----------------------------------------------------------------------

    /// Pushes a frame: this is the whole of what calling costs. The top
    /// `arity` values are the call's first slots; the rest start `nothing`.
    pub(crate) fn enter(&mut self, program: &Program, body: usize, arity: usize, receiver: Value, closure: Option<Closure>) -> (r: Result<(), Fault>)
        ensures
            match r {
                Ok(()) => {
                    let base = old(self).stack@.len() - arity;
                    let slots = program.bodies@[body as int].slots;
                    let size = if slots > arity { slots } else { arity };
                    &&& old(self).frames@.len() < MOST_CALLS
                    &&& body < program.bodies@.len()
                    &&& arity <= old(self).stack@.len()
                    &&& final(self).stack@.len() == base + size
                    &&& final(self).stack@.subrange(0, old(self).stack@.len() as int) == old(self).stack@
                    &&& forall|i: int| old(self).stack@.len() <= i < final(self).stack@.len() ==> #[trigger] final(self).stack@[i] == Value::Nothing
                    &&& final(self).frames@ == old(self).frames@.push(Frame { body, pc: 0, base: base as usize, receiver, closure })
                },
                Err(f) => final(self).stack@ == old(self).stack@ && final(self).frames == old(self).frames
                    && if old(self).frames@.len() >= MOST_CALLS {
                        f == Fault::TooManyCalls { depth: old(self).frames@.len() as usize }
                    } else if body >= program.bodies@.len() {
                        f == Fault::Confused("a call named a body that is not there")
                    } else {
                        arity > old(self).stack@.len() && f == Fault::Confused("a call was made with too few arguments on the stack")
                    },
            },
            final(self).pending == old(self).pending,
            final(self).together_group == old(self).together_group,
            final(self).awaiting == old(self).awaiting,
            final(self).updating == old(self).updating,
    {
        if self.frames.len() >= MOST_CALLS {
            return Err(Fault::TooManyCalls { depth: self.frames.len() });
        }
        if body >= program.bodies.len() {
            return Err(Fault::Confused("a call named a body that is not there"));
        }
        if arity > self.stack.len() {
            return Err(Fault::Confused("a call was made with too few arguments on the stack"));
        }
        let base = self.stack.len() - arity;
        let slots = program.bodies[body].slots;
        let size = if slots > arity { slots } else { arity };
        if size > self.stack.len() - base {
            let want = size - (self.stack.len() - base);
            let mut k: usize = 0;
            while k < want
                invariant
                    k <= want,
                    self.stack@.len() == old(self).stack@.len() + k,
                    self.stack@.subrange(0, old(self).stack@.len() as int) == old(self).stack@,
                    forall|i: int| old(self).stack@.len() <= i < self.stack@.len() ==> #[trigger] self.stack@[i] == Value::Nothing,
                    self.frames == old(self).frames,
                    self.pending == old(self).pending,
                    self.together_group == old(self).together_group,
                    self.awaiting == old(self).awaiting,
                    self.updating == old(self).updating,
                decreases want - k,
            {
                let ghost before = self.stack@;
                self.stack.push(Value::Nothing);
                proof { assert(self.stack@.subrange(0, old(self).stack@.len() as int) =~= before.subrange(0, old(self).stack@.len() as int)); }
                k = k + 1;
            }
        }
        self.frames.push(Frame { body, pc: 0, base, receiver, closure });
        Ok(())
    }

    /// Builds a function value from a body, taking along the cells it
    /// captures from the frame whose slots start at `base`.
    pub(crate) fn make_function(&self, program: &Program, body: usize, base: usize, identity: usize) -> (r: Result<Value, Fault>)
        ensures
            match r {
                Ok(v) => function_made(*self, *program, body, base, identity) == Ok::<ValueView, Fault>(v@),
                Err(f) => function_made(*self, *program, body, base, identity) == Err::<ValueView, Fault>(f),
            },
    {
        if body >= program.bodies.len() {
            return Err(Fault::Confused("a function was built from a body that is not there"));
        }
        if body > u32::MAX as usize {
            return Err(Fault::Confused("a function was built from a body that is not there"));
        }
        let shape = &program.bodies[body];
        let mut captures: Vec<Value> = Vec::new();
        let mut i: usize = 0;
        while i < shape.captures.len()
            invariant
                body < program.bodies@.len(),
                body <= u32::MAX,
                *shape == program.bodies@[body as int],
                i <= shape.captures@.len(),
                captures@.len() == i,
                captures_made(*self, base, shape.captures@, i as int) == Ok::<Seq<ValueView>, Fault>(views(captures@)),
            decreases shape.captures.len() - i,
        {
            let held = match shape.captures[i] {
                Capture::Local(slot) => self.slot(base, slot),
                Capture::Upvalue(index) => self.upvalue(index),
            };
            let held = match held {
                Ok(v) => v,
                Err(f) => {
                    proof { lemma_captures_fail(*self, base, shape.captures@, i as int + 1, shape.captures@.len() as int, f); }
                    return Err(f);
                },
            };
            proof { lemma_views_push(captures@, held); }
            captures.push(held);
            i = i + 1;
        }
        proof { assert(shape.captures@.subrange(0, i as int) =~= shape.captures@); }
        Ok(Value::Function(Box::new(Closure { identity, body: body as u32, name: shape.name.clone(), captures })))
    }

    /// Where the machine is, innermost call first: each call's body and the
    /// span of the instruction it was running.
    pub fn trace(&self, program: &Program) -> (r: Vec<Level>)
        ensures
            r@.len() == self.frame_count(),
            forall|i: int| 0 <= i < r@.len() ==> ((#[trigger] r@[i]).name@, r@[i].at)
                == level_of(self.frames_seq()[self.frames_seq().len() - 1 - i], *program),
    {
        proof { self.reveal_views(); }
        let mut out: Vec<Level> = Vec::new();
        let mut k: usize = self.frames.len();
        while k > 0
            invariant
                k <= self.frames@.len(),
                out@.len() == self.frames@.len() - k,
                forall|i: int| 0 <= i < out@.len() ==> ((#[trigger] out@[i]).name@, out@[i].at)
                    == level_of(self.frames@[self.frames@.len() - 1 - i], *program),
            decreases k,
        {
            k = k - 1;
            let frame = &self.frames[k];
            let level = if frame.body < program.bodies.len() {
                let body = &program.bodies[frame.body];
                // `pc` has already moved on, so the instruction that was
                // running is the one before it.
                let at_pc = if frame.pc > 0 { frame.pc - 1 } else { 0 };
                let at = if at_pc < body.spans.len() { body.spans[at_pc] } else { Span::none() };
                Level { name: body.name.clone(), at }
            } else {
                Level { name: String::from_str("an unknown body"), at: Span::none() }
            };
            out.push(level);
        }
        out
    }
}

} // verus!

verus! {

/// What a trace says of one call: the name of the body it runs and the
/// span of the instruction it was running (the one before `pc`, which has
/// already moved on).
pub open spec fn level_of(f: Frame, program: Program) -> (Seq<char>, Span) {
    if (f.body as int) < program.bodies@.len() {
        let body = program.bodies@[f.body as int];
        let at_pc: int = if f.pc > 0 { f.pc - 1 } else { 0 };
        (body.name@, if at_pc < body.spans@.len() { body.spans@[at_pc] } else { Span { start: 0, end: 0 } })
    } else {
        ("an unknown body"@, Span { start: 0, end: 0 })
    }
}

} // verus!

verus! {

/// What a function captures from the frame making it, whose slots start at
/// `base`: the value in one of its slots, or one its own function captured.
pub open spec fn captured(m: Machine, base: usize, capture: Capture) -> Result<ValueView, Fault> {
    match capture {
        Capture::Local(slot) => if base + slot < m.stack_seq().len() {
            Ok(m.stack_seq()[base + slot]@)
        } else {
            Err(Fault::Confused("a local was read out of range"))
        },
        Capture::Upvalue(index) => if m.frames_seq().len() == 0 {
            Err(Fault::Confused("a captured value was read with no frame"))
        } else {
            match m.frames_seq().last().closure {
                Some(c) => if index < c.captures@.len() {
                    Ok(c.captures@[index as int]@)
                } else {
                    Err(Fault::Confused("a captured value was read out of range"))
                },
                None => Err(Fault::Confused("a captured value was read out of range")),
            }
        },
    }
}

/// What the first `k` captures of a function come to, or the first fault.
pub open spec fn captures_made(m: Machine, base: usize, captures: Seq<Capture>, k: int) -> Result<Seq<ValueView>, Fault>
    decreases k,
{
    if k <= 0 {
        Ok(Seq::empty())
    } else {
        match captures_made(m, base, captures, k - 1) {
            Ok(before) => match captured(m, base, captures[k - 1]) {
                Ok(v) => Ok(before.push(v)),
                Err(f) => Err(f),
            },
            Err(f) => Err(f),
        }
    }
}

/// The function value made from a body, with the frame whose slots start
/// at `base` supplying its captures, or why none can be made.
pub open spec fn function_made(m: Machine, program: Program, body: usize, base: usize, identity: usize) -> Result<ValueView, Fault> {
    if body >= program.bodies@.len() || body > u32::MAX {
        Err(Fault::Confused("a function was built from a body that is not there"))
    } else {
        let shape = program.bodies@[body as int];
        match captures_made(m, base, shape.captures@, shape.captures@.len() as int) {
            Ok(captures) => Ok(ValueView::Function { identity, body: body as u32, name: shape.name@, captures }),
            Err(f) => Err(f),
        }
    }
}

/// Captures read only the value stack and the innermost call's function, so
/// two machines that agree on those make the same captures.
pub proof fn lemma_captures_same(a: Machine, b: Machine, base: usize, captures: Seq<Capture>, k: int)
    requires
        a.stack_seq() == b.stack_seq(),
        a.frames_seq().len() == b.frames_seq().len(),
        a.frames_seq().len() > 0 ==> a.frames_seq().last().closure == b.frames_seq().last().closure,
    ensures
        captures_made(a, base, captures, k) == captures_made(b, base, captures, k),
    decreases k,
{
    if k > 0 {
        lemma_captures_same(a, b, base, captures, k - 1);
    }
}

/// Two machines that agree on the value stack and the innermost call's
/// function make the same function values.
pub proof fn lemma_function_made_same(a: Machine, b: Machine, program: Program, body: usize, base: usize, identity: usize)
    requires
        a.stack_seq() == b.stack_seq(),
        a.frames_seq().len() == b.frames_seq().len(),
        a.frames_seq().len() > 0 ==> a.frames_seq().last().closure == b.frames_seq().last().closure,
    ensures
        function_made(a, program, body, base, identity) == function_made(b, program, body, base, identity),
{
    if body < program.bodies@.len() {
        let shape = program.bodies@[body as int];
        lemma_captures_same(a, b, base, shape.captures@, shape.captures@.len() as int);
    }
}

/// Once a capture fails, every longer run of captures fails the same way.
pub proof fn lemma_captures_fail(m: Machine, base: usize, captures: Seq<Capture>, k: int, n: int, f: Fault)
    requires
        1 <= k <= n,
        captures_made(m, base, captures, k) == Err::<Seq<ValueView>, Fault>(f),
    ensures
        captures_made(m, base, captures, n) == Err::<Seq<ValueView>, Fault>(f),
    decreases n - k,
{
    if k < n {
        lemma_captures_fail(m, base, captures, k + 1, n, f);
    }
}

} // verus!
