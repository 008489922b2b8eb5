//! The loggers a program opens, by handle: where each one writes, how loud
//! it is, how its lines read, and the lines a memory logger has kept.
//!
//! Writing to a terminal or a file is left to whoever holds the book: a
//! line sent to a logger comes back as the list of places it must go.

use vstd::prelude::*;
use crate::json::Json;
use crate::log::{Level, Format, keeps, rank, render_text, render_pretty, render_json};
use crate::text::{push_text, push_digits, view_texts, copy_texts};

verus! {

/// Where a logger writes.
pub enum Sink {
    Stdout,
    Stderr,
    /// A file, by its path; the one who opened it keeps it open.
    File(String),
    /// Memory, where its lines can be read back.
    Memory,
    /// Every logger in the list, by handle.
    Multi(Vec<u32>),
}

/// Where a logger writes, as plain values.
pub enum SinkView {
    Stdout,
    Stderr,
    File(Seq<char>),
    Memory,
    Multi(Seq<u32>),
}

pub open spec fn sink_view(s: Sink) -> SinkView {
    match s {
        Sink::Stdout => SinkView::Stdout,
        Sink::Stderr => SinkView::Stderr,
        Sink::File(path) => SinkView::File(path@),
        Sink::Memory => SinkView::Memory,
        Sink::Multi(children) => SinkView::Multi(children@),
    }
}

/// A line that must be written somewhere outside the book.
pub enum Delivery {
    Stdout(String),
    Stderr(String),
    /// To the file of the logger with this handle.
    File(u32, String),
}

/// A delivery as plain values.
pub enum DeliveryView {
    Stdout(Seq<char>),
    Stderr(Seq<char>),
    File(u32, Seq<char>),
}

pub open spec fn delivery_view(d: Delivery) -> DeliveryView {
    match d {
        Delivery::Stdout(line) => DeliveryView::Stdout(line@),
        Delivery::Stderr(line) => DeliveryView::Stderr(line@),
        Delivery::File(h, line) => DeliveryView::File(h, line@),
    }
}

/// What a kept message reads as: text, or JSON still to be written out.
pub enum LogLine {
    Text(String),
    Json(Json),
}

/// The loggers a line sent to `h` ends up at, in the order it reaches
/// them: `h` itself, or for a multi-logger, those its children reach in
/// turn. A child is always an earlier logger than its parent.
pub open spec fn reached(sinks: Seq<SinkView>, h: int) -> Seq<int>
    decreases h, 1int, 0int,
{
    if 0 <= h < sinks.len() {
        match sinks[h] {
            SinkView::Multi(children) => reached_from(sinks, children, h, children.len() as int),
            _ => seq![h],
        }
    } else {
        Seq::empty()
    }
}

/// The loggers the first `k` children of `h` reach, one child after another.
pub open spec fn reached_from(sinks: Seq<SinkView>, children: Seq<u32>, h: int, k: int) -> Seq<int>
    decreases h, 0int, k,
{
    if k <= 0 || k > children.len() {
        Seq::empty()
    } else {
        reached_from(sinks, children, h, k - 1) + if (children[k - 1] as int) < h {
            reached(sinks, children[k - 1] as int)
        } else {
            Seq::empty()
        }
    }
}

/// What must be written outside for a line reaching these loggers.
pub open spec fn outputs(sinks: Seq<SinkView>, reach: Seq<int>, line: Seq<char>) -> Seq<DeliveryView>
    decreases reach.len(),
{
    if reach.len() == 0 {
        Seq::empty()
    } else {
        outputs(sinks, reach.drop_last(), line) + match sinks[reach.last()] {
            SinkView::Stdout => seq![DeliveryView::Stdout(line)],
            SinkView::Stderr => seq![DeliveryView::Stderr(line)],
            SinkView::File(_) => seq![DeliveryView::File(reach.last() as u32, line)],
            _ => Seq::empty(),
        }
    }
}

/// How many times logger `k` is reached.
pub open spec fn hits(reach: Seq<int>, k: int) -> nat
    decreases reach.len(),
{
    if reach.len() == 0 { 0 } else { hits(reach.drop_last(), k) + if reach.last() == k { 1nat } else { 0nat } }
}

/// A line, `n` times.
pub open spec fn repeated(line: Seq<char>, n: nat) -> Seq<Seq<char>> {
    Seq::new(n, |_i: int| line)
}

proof fn lemma_outputs_concat(sinks: Seq<SinkView>, a: Seq<int>, b: Seq<int>, line: Seq<char>)
    ensures
        outputs(sinks, a + b, line) == outputs(sinks, a, line) + outputs(sinks, b, line),
    decreases b.len(),
{
    if b.len() == 0 {
        assert(a + b =~= a);
        assert(outputs(sinks, a, line) + outputs(sinks, b, line) =~= outputs(sinks, a, line));
    } else {
        assert((a + b).drop_last() =~= a + b.drop_last());
        assert((a + b).last() == b.last());
        lemma_outputs_concat(sinks, a, b.drop_last(), line);
        let tail = outputs(sinks, b, line);
        assert(outputs(sinks, a + b, line) =~= outputs(sinks, a, line) + outputs(sinks, b, line));
    }
}

proof fn lemma_hits_concat(a: Seq<int>, b: Seq<int>, k: int)
    ensures
        hits(a + b, k) == hits(a, k) + hits(b, k),
    decreases b.len(),
{
    if b.len() == 0 {
        assert(a + b =~= a);
    } else {
        assert((a + b).drop_last() =~= a + b.drop_last());
        assert((a + b).last() == b.last());
        lemma_hits_concat(a, b.drop_last(), k);
    }
}

/// The first logger a multi-logger names that is not open yet, if any.
pub open spec fn first_unknown(children: Seq<u32>, count: nat) -> Option<u32>
    decreases children.len(),
{
    if children.len() == 0 {
        None
    } else if children[0] as int >= count {
        Some(children[0])
    } else {
        first_unknown(children.drop_first(), count)
    }
}

/// The fault opening a logger on `sink` comes to, with `count` loggers open.
pub open spec fn open_fault(sink: SinkView, count: nat) -> Option<Seq<char>> {
    if count >= u32::MAX {
        Some("no more loggers can be opened"@)
    } else {
        match sink {
            SinkView::Multi(children) => match first_unknown(children, count) {
                Some(h) => Some(unknown_logger(h)),
                None => None,
            },
            _ => None,
        }
    }
}

/// A multi-logger's children all came before handle `h`.
pub open spec fn children_before(s: Sink, h: int) -> bool {
    match s {
        Sink::Multi(children) => forall|i: int| 0 <= i < children@.len() ==> (children@[i] as int) < h,
        _ => true,
    }
}

struct LoggerState {
    sink: Sink,
    level: Level,
    format: Format,
}

/// Every logger opened so far, by handle.
pub struct LogBook {
    loggers: Vec<LoggerState>,
    /// The lines each logger keeps; only a memory logger keeps any.
    memory: Vec<Vec<String>>,
}

/// The fault a handle that names no logger comes to.
pub open spec fn unknown_logger(h: u32) -> Seq<char> {
    "unknown logger "@ + crate::text::digits(h as nat)
}

fn unknown(h: u32) -> (r: String)
    ensures
        r@ == unknown_logger(h),
{
    let mut out = String::new();
    push_text(&mut out, "unknown logger ");
    push_digits(&mut out, h as u64);
    out
}

fn copy_handles(handles: &Vec<u32>) -> (r: Vec<u32>)
    ensures
        r@ == handles@,
{
    let mut out: Vec<u32> = Vec::new();
    let mut i: usize = 0;
    while i < handles.len()
        invariant
            i <= handles@.len(),
            out@ == handles@.subrange(0, i as int),
        decreases handles.len() - i,
    {
        out.push(handles[i]);
        proof { assert(out@ =~= handles@.subrange(0, i + 1)); }
        i = i + 1;
    }
    proof { assert(out@ =~= handles@); }
    out
}

impl LogBook {
    /// How many loggers there are.
    pub closed spec fn count(&self) -> nat {
        self.loggers@.len()
    }

    /// Where each logger writes.
    pub closed spec fn sinks(&self) -> Seq<SinkView> {
        self.loggers@.map_values(|e: LoggerState| sink_view(e.sink))
    }

    /// How loud logger `h` is.
    pub closed spec fn level_at(&self, h: int) -> Level {
        self.loggers@[h].level
    }

    /// How logger `h` lays its lines out.
    pub closed spec fn format_at(&self, h: int) -> Format {
        self.loggers@[h].format
    }

    /// The lines logger `h` has kept.
    pub closed spec fn lines_at(&self, h: int) -> Seq<Seq<char>> {
        view_texts(self.memory@[h]@)
    }

    /// The book's invariant: handles fit in a `u32`, each logger has its
    /// list of kept lines, and a multi-logger's children came before it.
    pub closed spec fn wf(&self) -> bool {
        &&& self.loggers@.len() <= u32::MAX
        &&& self.memory@.len() == self.loggers@.len()
        &&& forall|h: int| 0 <= h < self.loggers@.len() ==> children_before((#[trigger] self.loggers@[h]).sink, h)
    }

    /// No loggers yet.
    pub fn new() -> (b: LogBook)
        ensures
            b.wf(),
            b.count() == 0,
    {
        LogBook { loggers: Vec::new(), memory: Vec::new() }
    }

    /// Opens a logger writing to `sink`, at the info level with text lines.
    /// A multi-logger may only name loggers that are already open.
    pub fn open(&mut self, sink: Sink) -> (r: Result<u32, String>)
        requires
            old(self).wf(),
        ensures
            final(self).wf(),
            match r {
                Ok(h) => open_fault(sink_view(sink), old(self).count()) is None
                    && h == old(self).count() && final(self).count() == old(self).count() + 1
                    && final(self).sinks() == old(self).sinks().push(sink_view(sink))
                    && final(self).level_at(h as int) == Level::Info
                    && final(self).format_at(h as int) == Format::Text
                    && final(self).lines_at(h as int).len() == 0
                    && forall|k: int| 0 <= k < old(self).count() ==> #[trigger] final(self).level_at(k) == old(self).level_at(k)
                        && final(self).format_at(k) == old(self).format_at(k)
                        && final(self).lines_at(k) == old(self).lines_at(k),
                Err(m) => *final(self) == *old(self) && open_fault(sink_view(sink), old(self).count()) == Some(m@),
            },
    {
        let count = self.loggers.len();
        if count >= u32::MAX as usize {
            return Err(String::from_str("no more loggers can be opened"));
        }
        match &sink {
            Sink::Multi(children) => {
                let mut i: usize = 0;
                assert(children@.skip(0) =~= children@);
                while i < children.len()
                    invariant
                        i <= children@.len(),
                        count == self.loggers@.len(),
                        count < u32::MAX,
                        *self == *old(self),
                        old(self).wf(),
                        sink_view(sink) == SinkView::Multi(children@),
                        first_unknown(children@, count as nat) == first_unknown(children@.skip(i as int), count as nat),
                        forall|k: int| 0 <= k < i ==> (children@[k] as int) < count,
                    decreases children.len() - i,
                {
                    let ghost rest = children@.skip(i as int);
                    assert(rest[0] == children@[i as int]);
                    assert(rest.drop_first() =~= children@.skip(i + 1));
                    if children[i] as usize >= count {
                        return Err(unknown(children[i]));
                    }
                    i = i + 1;
                }
                assert(children@.skip(i as int).len() == 0);
            },
            _ => {},
        }
        let ghost before = *self;
        self.loggers.push(LoggerState { sink, level: Level::Info, format: Format::Text });
        self.memory.push(Vec::new());
        proof {
            assert(self.sinks() =~= before.sinks().push(sink_view(sink)));
            assert(self.lines_at(count as int) =~= Seq::<Seq<char>>::empty());
            assert forall|k: int| 0 <= k < before.count() implies #[trigger] self.level_at(k) == before.level_at(k)
                && self.format_at(k) == before.format_at(k) && self.lines_at(k) == before.lines_at(k) by {
                assert(self.loggers@[k] == before.loggers@[k]);
                assert(self.memory@[k] == before.memory@[k]);
            }
            assert forall|h: int| 0 <= h < self.loggers@.len() implies children_before((#[trigger] self.loggers@[h]).sink, h) by {
                if h < count {
                    assert(self.loggers@[h] == before.loggers@[h]);
                }
            }
        }
        Ok(count as u32)
    }

    /// Which loggers setting `h` changes: `h`, and for a multi-logger, the
    /// loggers it names.
    pub open spec fn touched(&self, h: int, k: int) -> bool {
        k == h || (self.sinks()[h] matches SinkView::Multi(children) && children.contains(k as u32))
    }

    /// Sets how loud a logger is, and the loggers a multi-logger names.
    pub fn set_level(&mut self, h: u32, level: Level) -> (r: Result<(), String>)
        requires
            old(self).wf(),
        ensures
            final(self).wf(),
            final(self).count() == old(self).count(),
            final(self).sinks() == old(self).sinks(),
            (h as int) < old(self).count() ==> r is Ok && forall|k: int| 0 <= k < old(self).count() ==> {
                &&& #[trigger] final(self).level_at(k) == if old(self).touched(h as int, k) { level } else { old(self).level_at(k) }
                &&& final(self).format_at(k) == old(self).format_at(k)
                &&& final(self).lines_at(k) == old(self).lines_at(k)
            },
            (h as int) >= old(self).count() ==> (r matches Err(m) && m@ == unknown_logger(h)) && *final(self) == *old(self),
    {
        self.configure(h, Some(level), None)
    }

    /// Sets how a logger lays its lines out, and the loggers a multi-logger
    /// names.
    pub fn set_format(&mut self, h: u32, format: Format) -> (r: Result<(), String>)
        requires
            old(self).wf(),
        ensures
            final(self).wf(),
            final(self).count() == old(self).count(),
            final(self).sinks() == old(self).sinks(),
            (h as int) < old(self).count() ==> r is Ok && forall|k: int| 0 <= k < old(self).count() ==> {
                &&& #[trigger] final(self).format_at(k) == if old(self).touched(h as int, k) { format } else { old(self).format_at(k) }
                &&& final(self).level_at(k) == old(self).level_at(k)
                &&& final(self).lines_at(k) == old(self).lines_at(k)
            },
            (h as int) >= old(self).count() ==> (r matches Err(m) && m@ == unknown_logger(h)) && *final(self) == *old(self),
    {
        self.configure(h, None, Some(format))
    }

    fn set_one(&mut self, k: usize, level: Option<Level>, format: Option<Format>)
        requires
            old(self).wf(),
            k < old(self).loggers@.len(),
        ensures
            final(self).wf(),
            final(self).memory == old(self).memory,
            final(self).loggers@.len() == old(self).loggers@.len(),
            forall|j: int| 0 <= j < old(self).loggers@.len() ==> (#[trigger] final(self).loggers@[j]).sink == old(self).loggers@[j].sink,
            forall|j: int| 0 <= j < old(self).loggers@.len() && j != k ==> #[trigger] final(self).loggers@[j] == old(self).loggers@[j],
            final(self).loggers@[k as int].level == match level { Some(l) => l, None => old(self).loggers@[k as int].level },
            final(self).loggers@[k as int].format == match format { Some(f) => f, None => old(self).loggers@[k as int].format },
    {
        let ghost before = self.loggers@;
        let mut entry = self.loggers.remove(k);
        match level { Some(l) => entry.level = l, None => {} }
        match format { Some(f) => entry.format = f, None => {} }
        self.loggers.insert(k, entry);
        proof {
            assert forall|j: int| 0 <= j < self.loggers@.len() && j != k implies #[trigger] self.loggers@[j] == before[j] by {}
            assert forall|h: int| 0 <= h < self.loggers@.len() implies children_before((#[trigger] self.loggers@[h]).sink, h) by {
                assert(self.loggers@[h].sink == before[h].sink);
            }
        }
    }

    fn configure(&mut self, h: u32, level: Option<Level>, format: Option<Format>) -> (r: Result<(), String>)
        requires
            old(self).wf(),
        ensures
            final(self).wf(),
            final(self).count() == old(self).count(),
            final(self).sinks() == old(self).sinks(),
            (h as int) < old(self).count() ==> r is Ok && forall|k: int| 0 <= k < old(self).count() ==> {
                &&& #[trigger] final(self).level_at(k) == if old(self).touched(h as int, k) && level is Some { level->0 } else { old(self).level_at(k) }
                &&& final(self).format_at(k) == if old(self).touched(h as int, k) && format is Some { format->0 } else { old(self).format_at(k) }
                &&& final(self).lines_at(k) == old(self).lines_at(k)
            },
            (h as int) >= old(self).count() ==> (r matches Err(m) && m@ == unknown_logger(h)) && *final(self) == *old(self),
    {
        let n = self.loggers.len();
        if h as usize >= n {
            return Err(unknown(h));
        }
        let ghost start = *self;
        let ghost kids: Seq<u32> = match start.loggers@[h as int].sink { Sink::Multi(c) => c@, _ => Seq::empty() };
        let children: Vec<u32> = match &self.loggers[h as usize].sink {
            Sink::Multi(children) => copy_handles(children),
            _ => Vec::new(),
        };
        assert(children@ == kids);
        let ghost is_multi = start.sinks()[h as int] is Multi;
        proof {
            assert(start.sinks()[h as int] == sink_view(start.loggers@[h as int].sink));
            assert(children_before(start.loggers@[h as int].sink, h as int));
        }
        let mut i: usize = 0;
        while i < children.len()
            invariant
                self.wf(),
                n == self.loggers@.len(),
                (h as int) < n,
                i <= children@.len(),
                self.memory == start.memory,
                forall|j: int| 0 <= j < n ==> (#[trigger] self.loggers@[j]).sink == start.loggers@[j].sink,
                is_multi ==> start.sinks()[h as int] == SinkView::Multi(children@),
                !is_multi ==> children@.len() == 0,
                forall|j: int| 0 <= j < children@.len() ==> (children@[j] as int) < h,
                forall|j: int| 0 <= j < n ==> {
                    let set_now = j == h || children@.subrange(0, i as int).contains(j as u32);
                    &&& #[trigger] self.loggers@[j].level == if set_now && j != h && level is Some { level->0 } else { start.loggers@[j].level }
                    &&& self.loggers@[j].format == if set_now && j != h && format is Some { format->0 } else { start.loggers@[j].format }
                },
            decreases children.len() - i,
        {
            let child = children[i];
            assert((children@[i as int] as int) < h);
            let ghost before = self.loggers@;
            self.set_one(child as usize, level, format);
            proof {
                let was = children@.subrange(0, i as int);
                let now = children@.subrange(0, i + 1);
                assert(now =~= was.push(child));
                assert forall|j: int| 0 <= j < n implies {
                    let set_now = j == h || now.contains(j as u32);
                    &&& #[trigger] self.loggers@[j].level == if set_now && j != h && level is Some { level->0 } else { start.loggers@[j].level }
                    &&& self.loggers@[j].format == if set_now && j != h && format is Some { format->0 } else { start.loggers@[j].format }
                } by {
                    if j == child as int {
                        assert(now[i as int] == child);
                        assert(now.contains(j as u32));
                        assert(j != h);
                        if !(level is Some) {
                            assert(before[j].level == start.loggers@[j].level || was.contains(j as u32));
                        }
                    } else {
                        assert(self.loggers@[j] == before[j]);
                        if now.contains(j as u32) {
                            let m = choose|m: int| 0 <= m < now.len() && now[m] == j as u32;
                            if m == i { assert(now[m] == child); }
                            assert(was[m] == now[m]);
                            assert(was.contains(j as u32));
                        }
                        if was.contains(j as u32) {
                            let m = choose|m: int| 0 <= m < was.len() && was[m] == j as u32;
                            assert(now[m] == was[m]);
                        }
                    }
                }
            }
            i = i + 1;
        }
        self.set_one(h as usize, level, format);
        proof {
            assert(children@.subrange(0, children@.len() as int) =~= children@);
            assert forall|k: int| 0 <= k < start.count() implies {
                &&& #[trigger] self.level_at(k) == if start.touched(h as int, k) && level is Some { level->0 } else { start.level_at(k) }
                &&& self.format_at(k) == if start.touched(h as int, k) && format is Some { format->0 } else { start.format_at(k) }
                &&& self.lines_at(k) == start.lines_at(k)
            } by {
                if !is_multi {
                    assert(!children@.contains(k as u32));
                }
            }
            assert(self.sinks() =~= start.sinks()) by {
                assert forall|j: int| 0 <= j < n implies #[trigger] self.sinks()[j] == start.sinks()[j] by {}
            }
        }
        Ok(())
    }
}

} // verus!

verus! {

/// How logger `h` writes a line it keeps.
pub open spec fn line_view(l: LogLine) -> Result<Seq<char>, crate::json::JsonView> {
    match l {
        LogLine::Text(t) => Ok(t@),
        LogLine::Json(j) => Err(j@),
    }
}

impl LogBook {
    /// How loud a logger is.
    pub fn level(&self, h: u32) -> (r: Result<Level, String>)
        requires
            self.wf(),
        ensures
            (h as int) < self.count() ==> r == Ok::<Level, String>(self.level_at(h as int)),
            (h as int) >= self.count() ==> (r matches Err(m) && m@ == unknown_logger(h)),
    {
        if h as usize >= self.loggers.len() {
            return Err(unknown(h));
        }
        Ok(self.loggers[h as usize].level)
    }

    /// How a logger lays its lines out.
    pub fn format(&self, h: u32) -> (r: Result<Format, String>)
        requires
            self.wf(),
        ensures
            (h as int) < self.count() ==> r == Ok::<Format, String>(self.format_at(h as int)),
            (h as int) >= self.count() ==> (r matches Err(m) && m@ == unknown_logger(h)),
    {
        if h as usize >= self.loggers.len() {
            return Err(unknown(h));
        }
        Ok(self.loggers[h as usize].format)
    }

    /// The line logger `h` writes for a message, stamped `stamp`: none when
    /// the message is quieter than the logger, else laid out as the logger's
    /// format says.
    pub fn line(&self, h: u32, level: Level, message: &str, fields: &Vec<(String, String)>, stamp: &str) -> (r: Result<Option<LogLine>, String>)
        requires
            self.wf(),
        ensures
            (h as int) >= self.count() ==> (r matches Err(m) && m@ == unknown_logger(h)),
            (h as int) < self.count() ==> match r {
                Ok(None) => rank(level) < rank(self.level_at(h as int)),
                Ok(Some(l)) => rank(level) >= rank(self.level_at(h as int)) && line_view(l) == match self.format_at(h as int) {
                    Format::Text => Ok(crate::log::spec_text_line(stamp@, level, message@, crate::auth::header_views(fields@))),
                    Format::Pretty => Ok(crate::log::spec_pretty_line(level, message@, crate::auth::header_views(fields@))),
                    Format::Json => Err(crate::log::spec_json_line(stamp@, level, message@, crate::auth::header_views(fields@))),
                },
                Err(_) => false,
            },
    {
        if h as usize >= self.loggers.len() {
            return Err(unknown(h));
        }
        let entry = &self.loggers[h as usize];
        if !keeps(entry.level, level) {
            return Ok(None);
        }
        let line = match entry.format {
            Format::Text => LogLine::Text(render_text(stamp, level, message, fields)),
            Format::Pretty => LogLine::Text(render_pretty(level, message, fields)),
            Format::Json => LogLine::Json(render_json(stamp, level, message, fields)),
        };
        Ok(Some(line))
    }

    /// Sends a line to logger `h`: a memory logger keeps it, and the places
    /// outside that it must be written to come back, in order.
    pub fn deliver(&mut self, h: u32, line: &String) -> (r: Vec<Delivery>)
        requires
            old(self).wf(),
            (h as int) < old(self).count(),
        ensures
            final(self).wf(),
            final(self).count() == old(self).count(),
            final(self).sinks() == old(self).sinks(),
            forall|k: int| 0 <= k < old(self).count() ==> #[trigger] final(self).level_at(k) == old(self).level_at(k)
                && final(self).format_at(k) == old(self).format_at(k)
                && final(self).lines_at(k) == old(self).lines_at(k) + if old(self).sinks()[k] is Memory {
                    repeated(line@, hits(reached(old(self).sinks(), h as int), k))
                } else {
                    Seq::empty()
                },
            r@.map_values(|d: Delivery| delivery_view(d)) == outputs(old(self).sinks(), reached(old(self).sinks(), h as int), line@),
    {
        let mut out: Vec<Delivery> = Vec::new();
        self.deliver_from(h, line, &mut out);
        proof { assert(out@.map_values(|d: Delivery| delivery_view(d)) =~= outputs(old(self).sinks(), reached(old(self).sinks(), h as int), line@)); }
        out
    }

    fn deliver_from(&mut self, h: u32, line: &String, out: &mut Vec<Delivery>)
        requires
            old(self).wf(),
            (h as int) < old(self).count(),
        ensures
            final(self).wf(),
            final(self).loggers == old(self).loggers,
            final(self).memory@.len() == old(self).memory@.len(),
            forall|k: int| 0 <= k < old(self).count() ==> #[trigger] final(self).lines_at(k) == old(self).lines_at(k)
                + if old(self).sinks()[k] is Memory { repeated(line@, hits(reached(old(self).sinks(), h as int), k)) } else { Seq::empty() },
            final(out)@.map_values(|d: Delivery| delivery_view(d))
                == old(out)@.map_values(|d: Delivery| delivery_view(d)) + outputs(old(self).sinks(), reached(old(self).sinks(), h as int), line@),
        decreases h,
    {
        let ghost sinks = self.sinks();
        let ghost start = *self;
        let ghost out0 = out@.map_values(|d: Delivery| delivery_view(d));
        proof { assert(sinks[h as int] == sink_view(self.loggers@[h as int].sink)); }
        let children: Vec<u32> = match &self.loggers[h as usize].sink {
            Sink::Stdout => {
                let ghost before = out@;
                out.push(Delivery::Stdout(line.clone()));
                proof {
                    LogBook::lemma_one(sinks, h as int, line@);
                    assert(reached(sinks, h as int) == seq![h as int]);
                    assert(out@.map_values(|d: Delivery| delivery_view(d)) =~= before.map_values(|d: Delivery| delivery_view(d)).push(delivery_view(out@.last())));
                    assert(out@.map_values(|d: Delivery| delivery_view(d)) =~= out0 + outputs(sinks, reached(sinks, h as int), line@));
                    assert forall|k: int| 0 <= k < start.count() implies #[trigger] self.lines_at(k) == start.lines_at(k)
                        + if sinks[k] is Memory { repeated(line@, hits(reached(sinks, h as int), k)) } else { Seq::empty() } by {
                        if sinks[k] is Memory {
                            assert(k != h);
                            assert(repeated(line@, 0) =~= Seq::<Seq<char>>::empty());
                        }
                        assert(start.lines_at(k) + Seq::<Seq<char>>::empty() =~= start.lines_at(k));
                    }
                }
                return;
            },
            Sink::Stderr => {
                let ghost before = out@;
                out.push(Delivery::Stderr(line.clone()));
                proof {
                    LogBook::lemma_one(sinks, h as int, line@);
                    assert(reached(sinks, h as int) == seq![h as int]);
                    assert(out@.map_values(|d: Delivery| delivery_view(d)) =~= before.map_values(|d: Delivery| delivery_view(d)).push(delivery_view(out@.last())));
                    assert(out@.map_values(|d: Delivery| delivery_view(d)) =~= out0 + outputs(sinks, reached(sinks, h as int), line@));
                    assert forall|k: int| 0 <= k < start.count() implies #[trigger] self.lines_at(k) == start.lines_at(k)
                        + if sinks[k] is Memory { repeated(line@, hits(reached(sinks, h as int), k)) } else { Seq::empty() } by {
                        if sinks[k] is Memory {
                            assert(k != h);
                            assert(repeated(line@, 0) =~= Seq::<Seq<char>>::empty());
                        }
                        assert(start.lines_at(k) + Seq::<Seq<char>>::empty() =~= start.lines_at(k));
                    }
                }
                return;
            },
            Sink::File(_) => {
                let ghost before = out@;
                out.push(Delivery::File(h, line.clone()));
                proof {
                    LogBook::lemma_one(sinks, h as int, line@);
                    assert(reached(sinks, h as int) == seq![h as int]);
                    assert(out@.map_values(|d: Delivery| delivery_view(d)) =~= before.map_values(|d: Delivery| delivery_view(d)).push(delivery_view(out@.last())));
                    assert(out@.map_values(|d: Delivery| delivery_view(d)) =~= out0 + outputs(sinks, reached(sinks, h as int), line@));
                    assert forall|k: int| 0 <= k < start.count() implies #[trigger] self.lines_at(k) == start.lines_at(k)
                        + if sinks[k] is Memory { repeated(line@, hits(reached(sinks, h as int), k)) } else { Seq::empty() } by {
                        if sinks[k] is Memory {
                            assert(k != h);
                            assert(repeated(line@, 0) =~= Seq::<Seq<char>>::empty());
                        }
                        assert(start.lines_at(k) + Seq::<Seq<char>>::empty() =~= start.lines_at(k));
                    }
                }
                return;
            },
            Sink::Memory => {
                let mut kept = copy_texts(&self.memory[h as usize]);
                kept.push(line.clone());
                self.memory.set(h as usize, kept);
                proof {
                    LogBook::lemma_one(sinks, h as int, line@);
                    assert(reached(sinks, h as int) == seq![h as int]);
                    assert forall|k: int| 0 <= k < start.count() implies #[trigger] self.lines_at(k) == start.lines_at(k)
                        + if sinks[k] is Memory { repeated(line@, hits(reached(sinks, h as int), k)) } else { Seq::empty() } by {
                        assert(hits(seq![h as int], k) == if k == h { 1nat } else { 0nat });
                        if k == h {
                            assert(view_texts(self.memory@[k]@) =~= view_texts(start.memory@[k]@).push(line@));
                            assert(repeated(line@, 1) =~= seq![line@]);
                        } else {
                            assert(self.memory@[k] == start.memory@[k]);
                            assert(repeated(line@, 0) =~= Seq::<Seq<char>>::empty());
                        }
                    }
                    assert(outputs(sinks, seq![h as int], line@) =~= Seq::<DeliveryView>::empty());
                    assert(out0 + Seq::<DeliveryView>::empty() =~= out0);
                }
                return;
            },
            Sink::Multi(children) => copy_handles(children),
        };
        let ghost kids = children@;
        proof {
            assert(sinks[h as int] == SinkView::Multi(kids));
            assert(children_before(start.loggers@[h as int].sink, h as int));
        }
        let mut i: usize = 0;
        while i < children.len()
            invariant
                i <= children@.len(),
                children@ == kids,
                sinks == start.sinks(),
                sinks[h as int] == SinkView::Multi(kids),
                (h as int) < start.count(),
                forall|j: int| 0 <= j < kids.len() ==> (kids[j] as int) < h,
                self.wf(),
                self.loggers == start.loggers,
                self.memory@.len() == start.memory@.len(),
                forall|k: int| 0 <= k < start.count() ==> #[trigger] self.lines_at(k) == start.lines_at(k)
                    + if sinks[k] is Memory { repeated(line@, hits(reached_from(sinks, kids, h as int, i as int), k)) } else { Seq::empty() },
                out@.map_values(|d: Delivery| delivery_view(d)) == out0 + outputs(sinks, reached_from(sinks, kids, h as int, i as int), line@),
            decreases children.len() - i,
        {
            let child = children[i];
            let ghost mid = *self;
            let ghost out_mid = out@.map_values(|d: Delivery| delivery_view(d));
            proof { assert(mid.sinks() == sinks); }
            self.deliver_from(child, line, out);
            proof {
                let before = reached_from(sinks, kids, h as int, i as int);
                let here = reached(sinks, child as int);
                assert(reached_from(sinks, kids, h as int, i + 1) == before + here);
                lemma_outputs_concat(sinks, before, here, line@);
                assert forall|k: int| 0 <= k < start.count() implies #[trigger] self.lines_at(k) == start.lines_at(k)
                    + if sinks[k] is Memory { repeated(line@, hits(reached_from(sinks, kids, h as int, i + 1), k)) } else { Seq::empty() } by {
                    lemma_hits_concat(before, here, k);
                    assert(self.lines_at(k) == mid.lines_at(k) + if sinks[k] is Memory { repeated(line@, hits(here, k)) } else { Seq::empty() });
                    if sinks[k] is Memory {
                        assert(repeated(line@, hits(before, k)) + repeated(line@, hits(here, k)) =~= repeated(line@, hits(before, k) + hits(here, k)));
                    } else {
                        assert(Seq::<Seq<char>>::empty() + Seq::<Seq<char>>::empty() =~= Seq::<Seq<char>>::empty());
                    }
                }
                assert(out@.map_values(|d: Delivery| delivery_view(d)) =~= out0 + outputs(sinks, reached_from(sinks, kids, h as int, i + 1), line@));
            }
            i = i + 1;
        }
        proof {
            assert(reached(sinks, h as int) == reached_from(sinks, kids, h as int, kids.len() as int));
        }
    }

    /// A line reaching just one logger.
    proof fn lemma_one(sinks: Seq<SinkView>, h: int, line: Seq<char>)
        ensures
            forall|k: int| #[trigger] hits(seq![h], k) == if k == h { 1nat } else { 0nat },
            outputs(sinks, seq![h], line) == match sinks[h] {
                SinkView::Stdout => seq![DeliveryView::Stdout(line)],
                SinkView::Stderr => seq![DeliveryView::Stderr(line)],
                SinkView::File(_) => seq![DeliveryView::File(h as u32, line)],
                _ => Seq::<DeliveryView>::empty(),
            },
    {
        reveal_with_fuel(hits, 2);
        reveal_with_fuel(outputs, 2);
        assert(seq![h].drop_last() =~= Seq::<int>::empty());
        assert forall|k: int| #[trigger] hits(seq![h], k) == if k == h { 1nat } else { 0nat } by {
            assert(hits(seq![h].drop_last(), k) == 0);
        }
        assert(outputs(sinks, seq![h].drop_last(), line) == Seq::<DeliveryView>::empty());
        assert(Seq::<DeliveryView>::empty() + seq![DeliveryView::Stdout(line)] =~= seq![DeliveryView::Stdout(line)]);
        assert(Seq::<DeliveryView>::empty() + seq![DeliveryView::Stderr(line)] =~= seq![DeliveryView::Stderr(line)]);
        assert(Seq::<DeliveryView>::empty() + seq![DeliveryView::File(h as u32, line)] =~= seq![DeliveryView::File(h as u32, line)]);
        assert(Seq::<DeliveryView>::empty() + Seq::<DeliveryView>::empty() =~= Seq::<DeliveryView>::empty());
    }
}

} // verus!

verus! {

impl LogBook {
    /// The lines a logger gives back: a memory logger its own, a
    /// multi-logger those of the memory loggers it names, one after another.
    pub open spec fn lines_seen(&self, h: int) -> Seq<Seq<char>> {
        match self.sinks()[h] {
            SinkView::Memory => self.lines_at(h),
            SinkView::Multi(children) => self.gathered(children, children.len()),
            _ => Seq::empty(),
        }
    }

    /// The lines of the memory loggers among the first `n` children.
    pub open spec fn gathered(&self, children: Seq<u32>, n: nat) -> Seq<Seq<char>>
        decreases n,
    {
        if n == 0 || n > children.len() {
            Seq::empty()
        } else {
            self.gathered(children, (n - 1) as nat) + if (children[n - 1] as int) < self.count()
                && self.sinks()[children[n - 1] as int] is Memory {
                self.lines_at(children[n - 1] as int)
            } else {
                Seq::empty()
            }
        }
    }

    /// The lines a logger has kept, newest last.
    pub fn lines(&self, h: u32) -> (r: Result<Vec<String>, String>)
        requires
            self.wf(),
        ensures
            (h as int) >= self.count() ==> (r matches Err(m) && m@ == unknown_logger(h)),
            (h as int) < self.count() ==> (r matches Ok(lines) && view_texts(lines@) == self.lines_seen(h as int)),
    {
        if h as usize >= self.loggers.len() {
            return Err(unknown(h));
        }
        proof { assert(self.sinks()[h as int] == sink_view(self.loggers@[h as int].sink)); }
        match &self.loggers[h as usize].sink {
            Sink::Memory => Ok(copy_texts(&self.memory[h as usize])),
            Sink::Multi(children) => {
                let mut out: Vec<String> = Vec::new();
                let mut i: usize = 0;
                assert(view_texts(out@) =~= Seq::<Seq<char>>::empty());
                while i < children.len()
                    invariant
                        self.wf(),
                        i <= children@.len(),
                        view_texts(out@) == self.gathered(children@, i as nat),
                    decreases children.len() - i,
                {
                    let c = children[i] as usize;
                    let ghost before = out@;
                    if c < self.loggers.len() {
                        proof { assert(self.sinks()[c as int] == sink_view(self.loggers@[c as int].sink)); }
                        match &self.loggers[c].sink {
                            Sink::Memory => {
                                let mut j: usize = 0;
                                while j < self.memory[c].len()
                                    invariant
                                        self.wf(),
                                        c < self.memory@.len(),
                                        j <= self.memory@[c as int]@.len(),
                                        view_texts(out@) == view_texts(before) + view_texts(self.memory@[c as int]@).take(j as int),
                                    decreases self.memory@[c as int]@.len() - j,
                                {
                                    let ghost was = out@;
                                    out.push(self.memory[c][j].clone());
                                    proof {
                                        assert(view_texts(out@) =~= view_texts(was).push(self.memory@[c as int]@[j as int]@));
                                        assert(view_texts(self.memory@[c as int]@).take(j + 1) =~= view_texts(self.memory@[c as int]@).take(j as int).push(self.memory@[c as int]@[j as int]@));
                                    }
                                    j = j + 1;
                                }
                                proof { assert(view_texts(self.memory@[c as int]@).take(j as int) =~= self.lines_at(c as int)); }
                            },
                            _ => {
                                proof { assert(view_texts(out@) =~= view_texts(before) + Seq::<Seq<char>>::empty()); }
                            },
                        }
                    } else {
                        proof { assert(view_texts(out@) =~= view_texts(before) + Seq::<Seq<char>>::empty()); }
                    }
                    i = i + 1;
                }
                Ok(out)
            },
            _ => {
                let out: Vec<String> = Vec::new();
                assert(view_texts(out@) =~= Seq::<Seq<char>>::empty());
                Ok(out)
            },
        }
    }

    /// What a logger writes to, in words.
    pub fn describe(&self, h: u32) -> (r: Result<String, String>)
        requires
            self.wf(),
        ensures
            (h as int) >= self.count() ==> (r matches Err(m) && m@ == unknown_logger(h)),
            (h as int) < self.count() ==> (r matches Ok(text) && text@ == match self.sinks()[h as int] {
                SinkView::Stdout => "logger stdout"@,
                SinkView::Stderr => "logger stderr"@,
                SinkView::File(path) => "logger file "@ + path,
                SinkView::Memory => "logger memory"@,
                SinkView::Multi(children) => "logger multi("@ + crate::text::digits(children.len()) + ")"@,
            }),
    {
        if h as usize >= self.loggers.len() {
            return Err(unknown(h));
        }
        proof { assert(self.sinks()[h as int] == sink_view(self.loggers@[h as int].sink)); }
        let mut out = String::new();
        match &self.loggers[h as usize].sink {
            Sink::Stdout => push_text(&mut out, "logger stdout"),
            Sink::Stderr => push_text(&mut out, "logger stderr"),
            Sink::File(path) => {
                push_text(&mut out, "logger file ");
                push_text(&mut out, path.as_str());
            },
            Sink::Memory => push_text(&mut out, "logger memory"),
            Sink::Multi(children) => {
                push_text(&mut out, "logger multi(");
                push_digits(&mut out, children.len() as u64);
                push_text(&mut out, ")");
            },
        }
        Ok(out)
    }
}

} // verus!

verus! {

/// A line handed to a memory logger is kept by it once, and by no other
/// logger; a message reaches the line stage exactly when its level is at
/// or above the logger's (see `LogBook::line`).
pub proof fn lemma_memory_logger_keeps_its_line(sinks: Seq<SinkView>, h: int, k: int, line: Seq<char>)
    requires
        0 <= h < sinks.len(),
        sinks[h] is Memory,
    ensures
        hits(reached(sinks, h), h) == 1,
        k != h ==> hits(reached(sinks, h), k) == 0,
        repeated(line, 1) == seq![line],
{
    let r = reached(sinks, h);
    assert(r == seq![h]);
    assert(r.drop_last() =~= Seq::<int>::empty());
    assert(hits(r.drop_last(), h) == 0);
    assert(hits(r.drop_last(), k) == 0);
    assert(r.last() == h);
    assert(repeated(line, 1) =~= seq![line]);
}

} // verus!
