//! Channels, tasks, `together` and `select`: the state every task's machine
//! reaches into, and the scheduler that takes the tasks in turn.
//!
//! Tasks take turns on one scheduler: a task runs until it finishes, fails,
//! has used up its budget, or waits for something another task must do. A
//! waiting task is parked on the thing it waits for and woken when that
//! thing happens.

use vstd::prelude::*;
use crate::error::{Fault, RuntimeError, Span};
use crate::value::Value;

verus! {

/// How many instructions a task runs before another gets a turn.
pub const PREEMPT_AFTER: u64 = 10_000;

/// What a parked task is waiting for.
pub enum WaitSite {
    Send { channel: u32, span: Span },
    Receive { channel: u32, span: Span },
    WaitTask { task: usize, span: Span },
    Together { group: usize },
    Select { descriptor: usize, resume_pc: usize },
}

/// An operation a machine started and must finish when it is woken.
pub enum Pending {
    Send { channel: u32, value: Value, span: Span },
    Select { descriptor: usize, channels: Vec<Value>, resume_pc: usize, span: Span },
}

/// Where a task is in its life.
#[derive(Clone, Copy, Debug, PartialEq, Eq, Structural)]
pub enum TaskLife {
    Running,
    Runnable,
    Parked,
    Done,
}

/// What the scheduler knows of one task.
pub struct TaskMeta {
    pub state: TaskLife,
    pub waiting: Option<WaitSite>,
    pub outcome: Option<Result<Value, RuntimeError>>,
    /// The `together` group the task was started in.
    pub together: Option<usize>,
    pub cancelled: bool,
    /// The `select` arm a timeout fired for.
    pub select_fire: Option<usize>,
}

/// One channel between tasks.
pub struct ChannelState {
    pub buffer: Vec<Value>,
    pub capacity: usize,
    pub closed: bool,
    pub send_waiters: Vec<usize>,
    pub recv_waiters: Vec<usize>,
    /// Values from senders waiting for a rendezvous partner, oldest first.
    pub rendezvous_sends: Vec<(usize, Value)>,
    /// Values handed to a receiver that has not woken yet, by receiver.
    pub rendezvous_to: Vec<(usize, Value)>,
}

/// The tasks one `together` block started.
pub struct TogetherGroup {
    pub tasks: Vec<usize>,
    pub waiter: Option<usize>,
    pub failed: Option<RuntimeError>,
}

/// A `select` timeout not yet due.
pub struct PendingTimeout {
    /// When it is due, in milliseconds on the scheduler's clock.
    pub at: u64,
    pub task: usize,
    pub select_arm: usize,
}

/// What a channel, task or `together` operation came to.
pub enum OpResult {
    Done,
    Ready(Value),
    Park(WaitSite),
    Stop(Fault),
    Failed(RuntimeError),
}

/// What a `select` came to.
pub enum SelectStep {
    Arm { arm: usize, value: Option<Value> },
    Otherwise,
    Park { resume_pc: usize },
}

/// Channel, task and `together` state the machine reaches into while it runs.
pub struct Host {
    pub channels: Vec<ChannelState>,
    pub tasks: Vec<TaskMeta>,
    pub together_groups: Vec<TogetherGroup>,
    pub active_together: Vec<usize>,
    pub timeouts: Vec<PendingTimeout>,
    pub current: usize,
    pub pending_spawns: Vec<(crate::machine::Machine, usize)>,
    pub pending_wakeups: Vec<usize>,
    pub completed_sends: Vec<usize>,
}

} // verus!

verus! {

// ---------------------------------------------------------------------------
// Keyed lists: a value handed to one task, by that task's number
// ---------------------------------------------------------------------------

/// Where the entry for `task` sits, if there is one.
pub open spec fn keyed_index(entries: Seq<(usize, Value)>, task: usize) -> Option<int>
    decreases entries.len(),
{
    if entries.len() == 0 {
        None
    } else {
        match keyed_index(entries.drop_last(), task) {
            Some(i) => Some(i),
            None => if entries.last().0 == task { Some(entries.len() - 1) } else { None },
        }
    }
}

proof fn lemma_keyed_index(entries: Seq<(usize, Value)>, task: usize)
    ensures
        match keyed_index(entries, task) {
            Some(i) => 0 <= i < entries.len() && entries[i].0 == task
                && forall|k: int| 0 <= k < i ==> (#[trigger] entries[k]).0 != task,
            None => forall|k: int| 0 <= k < entries.len() ==> (#[trigger] entries[k]).0 != task,
        },
    decreases entries.len(),
{
    if entries.len() > 0 {
        let p = entries.drop_last();
        lemma_keyed_index(p, task);
        assert forall|k: int| 0 <= k < p.len() implies #[trigger] entries[k] == p[k] by {}
    }
}

fn find_keyed(entries: &Vec<(usize, Value)>, task: usize) -> (r: Option<usize>)
    ensures
        match r {
            Some(i) => i < entries@.len() && keyed_index(entries@, task) == Some(i as int),
            None => keyed_index(entries@, task) is None,
        },
{
    proof { lemma_keyed_index(entries@, task); }
    let mut i: usize = 0;
    while i < entries.len()
        invariant
            i <= entries@.len(),
            forall|k: int| 0 <= k < i ==> (#[trigger] entries@[k]).0 != task,
            match keyed_index(entries@, task) {
                Some(j) => 0 <= j < entries@.len() && entries@[j].0 == task
                    && forall|k: int| 0 <= k < j ==> (#[trigger] entries@[k]).0 != task,
                None => forall|k: int| 0 <= k < entries@.len() ==> (#[trigger] entries@[k]).0 != task,
            },
        decreases entries.len() - i,
    {
        if entries[i].0 == task {
            proof {
                match keyed_index(entries@, task) {
                    Some(j) => {
                        if j < i { assert(entries@[j].0 != task); }
                        if j > i { assert(entries@[i as int].0 != task); }
                    },
                    None => { assert(entries@[i as int].0 != task); },
                }
            }
            return Some(i);
        }
        i = i + 1;
    }
    proof {
        match keyed_index(entries@, task) {
            Some(j) => { assert(entries@[j].0 != task); },
            None => {},
        }
    }
    None
}

/// Whether a list of task numbers holds `task`.
fn holds_task(tasks: &Vec<usize>, task: usize) -> (r: bool)
    ensures
        r == tasks@.contains(task),
{
    let mut i: usize = 0;
    while i < tasks.len()
        invariant
            i <= tasks@.len(),
            forall|k: int| 0 <= k < i ==> tasks@[k] != task,
        decreases tasks.len() - i,
    {
        if tasks[i] == task {
            assert(tasks@[i as int] == task);
            return true;
        }
        i = i + 1;
    }
    false
}

/// The queue with every entry for `task` taken out, the rest in order.
pub open spec fn other_tasks(queue: Seq<usize>, task: usize) -> Seq<usize> {
    queue.filter(|t: usize| t != task)
}

fn without_task(tasks: &Vec<usize>, task: usize) -> (r: Vec<usize>)
    ensures
        r@ == other_tasks(tasks@, task),
{
    let mut out: Vec<usize> = Vec::new();
    let mut i: usize = 0;
    while i < tasks.len()
        invariant
            i <= tasks@.len(),
            out@ == other_tasks(tasks@.subrange(0, i as int), task),
        decreases tasks.len() - i,
    {
        let ghost prev = tasks@.subrange(0, i as int);
        let ghost next = tasks@.subrange(0, i + 1);
        proof {
            assert(next.drop_last() =~= prev);
            assert(next.last() == tasks@[i as int]);
            reveal(Seq::filter);
        }
        if tasks[i] != task {
            out.push(tasks[i]);
        }
        i = i + 1;
    }
    assert(tasks@.subrange(0, tasks@.len() as int) =~= tasks@);
    out
}

/// Whether a task is waiting to send to a channel.
pub open spec fn waits_to_send(meta: TaskMeta, channel: u32) -> bool {
    meta.waiting matches Some(WaitSite::Send { channel: c, .. }) && c == channel
}

/// Whether a task is waiting to receive from a channel.
pub open spec fn waits_to_receive(meta: TaskMeta, channel: u32) -> bool {
    meta.waiting matches Some(WaitSite::Receive { channel: c, .. }) && c == channel
}

/// A value and a copy of it that reads the same.
pub open spec fn found_of(v: Value) -> crate::value::ValueView {
    crate::value::ValueView::Maybe(Some(Box::new(v@)))
}

/// What a receive by task `current` hands out from a channel, if it does not
/// park: a value handed to that task, else the oldest buffered value, else
/// the oldest parked sender's value, else `nothing` from a closed channel.
pub open spec fn next_received(ch: ChannelState, current: usize) -> Option<crate::value::ValueView> {
    match keyed_index(ch.rendezvous_to@, current) {
        Some(i) => Some(found_of(ch.rendezvous_to@[i].1)),
        None => if ch.buffer@.len() > 0 {
            Some(found_of(ch.buffer@[0]))
        } else if ch.rendezvous_sends@.len() > 0 {
            Some(found_of(ch.rendezvous_sends@[0].1))
        } else if ch.closed {
            Some(crate::value::ValueView::Maybe(None))
        } else {
            None
        },
    }
}

/// Closing a channel loses nothing that was on its way: whatever a receive
/// would have handed out before the close, it hands out after it.
pub proof fn lemma_close_keeps_what_is_queued(ch: ChannelState, current: usize)
    requires
        next_received(ch, current) is Some,
    ensures
        next_received(ChannelState { closed: true, ..ch }, current) == next_received(ch, current),
{
}

impl Host {
    /// A host whose only task is the file's own, runnable, with nothing else
    /// started yet.
    pub fn scratch() -> (h: Host)
        ensures
            h.tasks@.len() == 1,
            h.tasks@[0].state == TaskLife::Runnable,
            h.tasks@[0].outcome is None,
            !h.tasks@[0].cancelled,
            h.channels@.len() == 0,
            h.together_groups@.len() == 0,
            h.active_together@.len() == 0,
            h.timeouts@.len() == 0,
            h.current == 0,
            h.pending_spawns@.len() == 0,
            h.pending_wakeups@.len() == 0,
            h.completed_sends@.len() == 0,
    {
        let mut tasks: Vec<TaskMeta> = Vec::new();
        tasks.push(TaskMeta { state: TaskLife::Runnable, waiting: None, outcome: None, together: None, cancelled: false, select_fire: None });
        Host {
            channels: Vec::new(),
            tasks,
            together_groups: Vec::new(),
            active_together: Vec::new(),
            timeouts: Vec::new(),
            current: 0,
            pending_spawns: Vec::new(),
            pending_wakeups: Vec::new(),
            completed_sends: Vec::new(),
        }
    }

    /// The task that is running.
    pub fn current(&self) -> (r: usize)
        ensures
            r == self.current,
    {
        self.current
    }

    /// Whether a send that parked `task` has since been taken by a receiver;
    /// the mark is cleared as it is read.
    pub fn take_completed_send(&mut self, task: usize) -> (r: bool)
        ensures
            final(self).current == old(self).current,
            r == old(self).completed_sends@.contains(task),
            final(self).completed_sends@ == other_tasks(old(self).completed_sends@, task),
            final(self).channels == old(self).channels,
            final(self).tasks == old(self).tasks,
            final(self).pending_wakeups == old(self).pending_wakeups,
    {
        let r = holds_task(&self.completed_sends, task);
        self.completed_sends = without_task(&self.completed_sends, task);
        r
    }

    /// Opens a channel that holds up to `capacity` values (none for a
    /// rendezvous channel, or when the size is below zero).
    pub fn channel_new(&mut self, capacity: i64) -> (r: Result<Value, Fault>)
        ensures
            final(self).current == old(self).current,
            match r {
                Ok(v) => old(self).channels@.len() < u32::MAX
                    && v == Value::Channel(old(self).channels@.len() as u32)
                    && final(self).channels@.len() == old(self).channels@.len() + 1
                    && final(self).channels@.drop_last() == old(self).channels@
                    && final(self).channels@.last().capacity == (if capacity < 0 || capacity > usize::MAX { 0 } else { capacity as usize })
                    && final(self).channels@.last().buffer@.len() == 0
                    && !final(self).channels@.last().closed
                    && final(self).channels@.last().send_waiters@.len() == 0
                    && final(self).channels@.last().recv_waiters@.len() == 0
                    && final(self).channels@.last().rendezvous_sends@.len() == 0
                    && final(self).channels@.last().rendezvous_to@.len() == 0,
                Err(f) => old(self).channels@.len() >= u32::MAX && final(self).channels == old(self).channels
                    && f == Fault::Confused("no more channels can be opened"),
            },
            final(self).tasks == old(self).tasks,
            final(self).current == old(self).current,
            final(self).pending_wakeups == old(self).pending_wakeups,
    {
        let id = self.channels.len();
        if id >= u32::MAX as usize {
            return Err(Fault::Confused("no more channels can be opened"));
        }
        let cap: usize = if capacity < 0 { 0 } else if (capacity as u64) > (usize::MAX as u64) { 0 } else { capacity as usize };
        self.channels.push(ChannelState {
            buffer: Vec::new(),
            capacity: cap,
            closed: false,
            send_waiters: Vec::new(),
            recv_waiters: Vec::new(),
            rendezvous_sends: Vec::new(),
            rendezvous_to: Vec::new(),
        });
        proof { assert(self.channels@.drop_last() =~= old(self).channels@); }
        Ok(Value::Channel(id as u32))
    }

    /// The channel a value names, if it names one.
    pub fn channel_id(value: &Value) -> (r: Option<u32>)
        ensures
            r == (match *value {
                Value::Channel(id) => Some(id),
                _ => None,
            }),
    {
        match value {
            Value::Channel(id) => Some(*id),
            _ => None,
        }
    }

    /// Marks a task to be taken up again.
    fn wake(&mut self, task: usize)
        ensures
            final(self).pending_wakeups@ == old(self).pending_wakeups@.push(task),
            final(self).channels == old(self).channels,
            final(self).tasks == old(self).tasks,
            final(self).completed_sends == old(self).completed_sends,
            final(self).current == old(self).current,
            final(self).together_groups == old(self).together_groups,
            final(self).active_together == old(self).active_together,
            final(self).timeouts == old(self).timeouts,
    {
        self.pending_wakeups.push(task);
    }
}

} // verus!

verus! {

/// A runnable list with the first `n` of `ids` added in order, each one
/// only if it is not there already.
pub open spec fn with_new(runnable: Seq<usize>, ids: Seq<usize>, n: int) -> Seq<usize>
    decreases n,
{
    if n <= 0 {
        runnable
    } else {
        let before = with_new(runnable, ids, n - 1);
        if before.contains(ids[n - 1]) { before } else { before.push(ids[n - 1]) }
    }
}

/// Whether a task can take its turn: it is there, has a machine, and has
/// neither finished nor been cancelled.
pub open spec fn runs(s: Scheduler, t: usize) -> bool {
    t < s.host.tasks@.len() && t < s.machines@.len() && !s.host.tasks@[t as int].cancelled
        && s.host.tasks@[t as int].state != TaskLife::Done
}

/// Whether every task that waited for `task` is queued to run, or was
/// cancelled.
pub open spec fn waiters_woken(before: Seq<TaskMeta>, task: usize, after: Seq<TaskMeta>, runnable: Seq<usize>) -> bool {
    forall|k: int| 0 <= k < task_waiters(before, task, before.len() as int).len()
        ==> runnable.contains(#[trigger] task_waiters(before, task, before.len() as int)[k])
            || after[task_waiters(before, task, before.len() as int)[k] as int].cancelled
}

/// Whether, after `task` failed, every other member of its `together` group
/// (the file's own task aside) has an outcome, and each that had none was
/// cancelled.
pub open spec fn siblings_cancelled(before: Seq<TaskMeta>, groups: Seq<TogetherGroup>, task: usize, after: Seq<TaskMeta>) -> bool {
    match before[task as int].together {
        Some(g) => g < groups.len() ==> forall|j: int| 0 <= j < groups[g as int].tasks@.len() ==> {
            let v = #[trigger] groups[g as int].tasks@[j];
            (v != 0 && v < after.len()) ==> (after[v as int].outcome is Some
                && ((v != task && before[v as int].outcome is None) ==> after[v as int].cancelled))
        },
        None => true,
    }
}

/// The tasks waiting for `finished` among the first `n` are among them.
pub proof fn lemma_task_waiters_below(tasks: Seq<TaskMeta>, finished: usize, n: int)
    ensures
        forall|k: int| 0 <= k < task_waiters(tasks, finished, n).len() ==> #[trigger] task_waiters(tasks, finished, n)[k] < n,
    decreases n,
{
    if n > 0 {
        lemma_task_waiters_below(tasks, finished, n - 1);
        let before = task_waiters(tasks, finished, n - 1);
        let after = task_waiters(tasks, finished, n);
        assert forall|k: int| 0 <= k < after.len() implies #[trigger] after[k] < n by {
            if k < before.len() {
                assert(after[k] == before[k]);
            }
        }
    }
}

/// Which tasks wait for another depends only on what each task waits for.
pub proof fn lemma_task_waiters_same(a: Seq<TaskMeta>, b: Seq<TaskMeta>, finished: usize, n: int)
    requires
        a.len() == b.len(),
        n <= a.len(),
        forall|t: int| 0 <= t < a.len() ==> #[trigger] a[t].waiting == b[t].waiting,
    ensures
        task_waiters(a, finished, n) == task_waiters(b, finished, n),
    decreases n,
{
    if n > 0 {
        lemma_task_waiters_same(a, b, finished, n - 1);
        assert(a[n - 1].waiting == b[n - 1].waiting);
    }
}

/// Whether two hosts hold the same channels, tasks, groups, timeouts and
/// pending work.
pub open spec fn same_host(a: Host, b: Host) -> bool {
    &&& a.channels@ == b.channels@
    &&& a.tasks == b.tasks
    &&& a.together_groups == b.together_groups
    &&& a.active_together == b.active_together
    &&& a.timeouts == b.timeouts
    &&& a.current == b.current
    &&& a.pending_spawns == b.pending_spawns
    &&& a.pending_wakeups == b.pending_wakeups
    &&& a.completed_sends == b.completed_sends
}

/// The timeouts a `select` that parks sets for its first `k` arms, in order:
/// one for each timeout arm of more than zero milliseconds, due that long
/// after `now` (or at the end of the clock).
pub open spec fn select_timeouts(arms: Seq<SelectArm>, task: usize, now: u64, k: int) -> Seq<PendingTimeout>
    decreases k,
{
    if k <= 0 || k > arms.len() {
        Seq::empty()
    } else {
        select_timeouts(arms, task, now, k - 1) + match arms[k - 1] {
            SelectArm::Timeout { milliseconds, .. } => if milliseconds > 0 {
                seq![PendingTimeout {
                    at: if now > u64::MAX - milliseconds { u64::MAX } else { (now + milliseconds) as u64 },
                    task,
                    select_arm: (k - 1) as usize,
                }]
            } else {
                Seq::empty()
            },
            _ => Seq::empty(),
        }
    }
}

/// How a `select` that parks leaves the channels: each open channel one of
/// its first `k` receive arms names has `task` among its receivers; no
/// channel changes in any other way.
pub open spec fn select_parked(before: Seq<ChannelState>, after: Seq<ChannelState>, task: usize,
    arms: Seq<SelectArm>, chans: Seq<Value>, k: int) -> bool
{
    &&& after.len() == before.len()
    &&& forall|c: int| 0 <= c < before.len() ==> (#[trigger] after[c]) == (ChannelState { recv_waiters: after[c].recv_waiters, ..before[c] })
        && (after[c].recv_waiters@ == before[c].recv_waiters@ || after[c].recv_waiters@ == before[c].recv_waiters@.push(task))
    &&& forall|j: int| 0 <= j < k && (#[trigger] arms[j]) is Receive ==> {
        let ci = receives_before(arms, j) as int;
        ci < chans.len() ==> (chans[ci] matches Value::Channel(c)
            ==> ((c as int) < before.len() && !before[c as int].closed ==> after[c as int].recv_waiters@.contains(task)))
    }
}

/// Whether a task waits for `finished` to finish.
pub open spec fn waits_for_task(meta: TaskMeta, finished: usize) -> bool {
    meta.waiting matches Some(WaitSite::WaitTask { task, .. }) && task == finished
}

/// The tasks among the first `n` that wait for `finished`, in order.
pub open spec fn task_waiters(tasks: Seq<TaskMeta>, finished: usize, n: int) -> Seq<usize>
    decreases n,
{
    if n <= 0 {
        Seq::empty()
    } else {
        task_waiters(tasks, finished, n - 1)
            + if waits_for_task(tasks[n - 1], finished) { seq![(n - 1) as usize] } else { Seq::empty() }
    }
}

/// The task to wake when `task` has an outcome: the one waiting at the end
/// of its `together`, once every task of the group has an outcome.
pub open spec fn together_waiter(tasks: Seq<TaskMeta>, groups: Seq<TogetherGroup>, task: usize) -> Option<usize> {
    if task < tasks.len() {
        match tasks[task as int].together {
            Some(group) => if group < groups.len() && group_settled(groups[group as int].tasks@, tasks) {
                match groups[group as int].waiter {
                    Some(w) => if w < tasks.len()
                        && (tasks[w as int].waiting matches Some(WaitSite::Together { group: g }) && g == group) {
                        Some(w)
                    } else {
                        None
                    },
                    None => None,
                }
            } else {
                None
            },
            None => None,
        }
    } else {
        None
    }
}

/// Whether a task is parked on a receive from (`receiving`) or a send to a
/// channel.
pub open spec fn parked_on(meta: TaskMeta, channel: u32, receiving: bool) -> bool {
    if receiving { waits_to_receive(meta, channel) } else { waits_to_send(meta, channel) }
}

/// A task made ready to run again.
pub open spec fn woken_meta(meta: TaskMeta) -> TaskMeta {
    TaskMeta { state: TaskLife::Runnable, waiting: None, ..meta }
}

/// The tasks among the first `n` waiters that are woken, in order: each
/// the first time it is listed, if it was parked on the channel.
pub open spec fn woken_list(waiters: Seq<usize>, tasks: Seq<TaskMeta>, channel: u32, receiving: bool, n: int) -> Seq<usize>
    decreases n,
{
    if n <= 0 {
        Seq::empty()
    } else {
        let t = waiters[n - 1];
        woken_list(waiters, tasks, channel, receiving, n - 1)
            + if (t as int) < tasks.len() && parked_on(tasks[t as int], channel, receiving)
                && !waiters.subrange(0, n - 1).contains(t) { seq![t] } else { Seq::empty() }
    }
}

/// A keyed list with `value` handed to `task`, replacing what it had.
pub open spec fn keyed_put(entries: Seq<(usize, Value)>, task: usize, value: Value) -> Seq<(usize, Value)> {
    match keyed_index(entries, task) {
        Some(i) => entries.update(i, (task, value)),
        None => entries.push((task, value)),
    }
}

/// Everything about a channel but the part an operation changes is as it was.
pub open spec fn channels_unchanged_but(before: Seq<ChannelState>, after: Seq<ChannelState>, c: int) -> bool {
    &&& after.len() == before.len()
    &&& forall|k: int| 0 <= k < before.len() && k != c ==> #[trigger] after[k] == before[k]
}

impl Host {
    /// Takes the state of one channel out, leaving an empty one in its place.
    fn take_channel(&mut self, c: usize) -> (r: ChannelState)
        requires
            c < old(self).channels@.len(),
        ensures
            r == old(self).channels@[c as int],
            channels_unchanged_but(old(self).channels@, final(self).channels@, c as int),
            final(self).tasks == old(self).tasks,
            final(self).pending_wakeups == old(self).pending_wakeups,
            final(self).completed_sends == old(self).completed_sends,
            final(self).current == old(self).current,
            final(self).together_groups == old(self).together_groups,
            final(self).active_together == old(self).active_together,
            final(self).timeouts == old(self).timeouts,
            final(self).pending_spawns == old(self).pending_spawns,
    {
        let state = self.channels.remove(c);
        self.channels.insert(c, ChannelState {
            buffer: Vec::new(),
            capacity: 0,
            closed: false,
            send_waiters: Vec::new(),
            recv_waiters: Vec::new(),
            rendezvous_sends: Vec::new(),
            rendezvous_to: Vec::new(),
        });
        state
    }

    /// Puts a channel's state back.
    fn put_channel(&mut self, c: usize, state: ChannelState)
        requires
            c < old(self).channels@.len(),
        ensures
            final(self).channels@ == old(self).channels@.update(c as int, state),
            final(self).tasks == old(self).tasks,
            final(self).pending_wakeups == old(self).pending_wakeups,
            final(self).completed_sends == old(self).completed_sends,
            final(self).current == old(self).current,
            final(self).together_groups == old(self).together_groups,
            final(self).active_together == old(self).active_together,
            final(self).timeouts == old(self).timeouts,
            final(self).pending_spawns == old(self).pending_spawns,
    {
        self.channels.remove(c);
        self.channels.insert(c, state);
        proof { assert(self.channels@ =~= old(self).channels@.update(c as int, state)); }
    }

    /// Takes one task's record out, leaving a blank one in its place.
    fn take_task(&mut self, t: usize) -> (r: TaskMeta)
        requires
            t < old(self).tasks@.len(),
        ensures
            r == old(self).tasks@[t as int],
            final(self).tasks@.len() == old(self).tasks@.len(),
            forall|k: int| 0 <= k < old(self).tasks@.len() && k != t ==> #[trigger] final(self).tasks@[k] == old(self).tasks@[k],
            final(self).channels == old(self).channels,
            final(self).pending_wakeups == old(self).pending_wakeups,
            final(self).completed_sends == old(self).completed_sends,
            final(self).current == old(self).current,
            final(self).together_groups == old(self).together_groups,
            final(self).active_together == old(self).active_together,
            final(self).timeouts == old(self).timeouts,
            final(self).pending_spawns == old(self).pending_spawns,
    {
        let meta = self.tasks.remove(t);
        self.tasks.insert(t, TaskMeta { state: TaskLife::Done, waiting: None, outcome: None, together: None, cancelled: false, select_fire: None });
        meta
    }

    /// Puts a task's record back.
    fn put_task(&mut self, t: usize, meta: TaskMeta)
        requires
            t < old(self).tasks@.len(),
        ensures
            final(self).tasks@ == old(self).tasks@.update(t as int, meta),
            final(self).channels == old(self).channels,
            final(self).pending_wakeups == old(self).pending_wakeups,
            final(self).completed_sends == old(self).completed_sends,
            final(self).current == old(self).current,
            final(self).together_groups == old(self).together_groups,
            final(self).active_together == old(self).active_together,
            final(self).timeouts == old(self).timeouts,
            final(self).pending_spawns == old(self).pending_spawns,
    {
        self.tasks.remove(t);
        self.tasks.insert(t, meta);
        proof { assert(self.tasks@ =~= old(self).tasks@.update(t as int, meta)); }
    }

    /// Wakes a task that is parked on a receive from `channel`; any other
    /// task is left as it is.
    fn try_wake_receiver(&mut self, task: usize, channel: u32) -> (r: bool)
        ensures
            r == (task < old(self).tasks@.len() && waits_to_receive(old(self).tasks@[task as int], channel)),
            r ==> final(self).tasks@ == old(self).tasks@.update(task as int, TaskMeta {
                state: TaskLife::Runnable, waiting: None, ..old(self).tasks@[task as int]
            }) && final(self).pending_wakeups@ == old(self).pending_wakeups@.push(task),
            !r ==> final(self).tasks@ == old(self).tasks@ && final(self).pending_wakeups == old(self).pending_wakeups,
            final(self).channels == old(self).channels,
            final(self).completed_sends == old(self).completed_sends,
            final(self).current == old(self).current,
            final(self).together_groups == old(self).together_groups,
            final(self).active_together == old(self).active_together,
            final(self).timeouts == old(self).timeouts,
    {
        if task >= self.tasks.len() {
            return false;
        }
        let fits = match &self.tasks[task].waiting {
            Some(WaitSite::Receive { channel: c, .. }) => *c == channel,
            _ => false,
        };
        if !fits {
            return false;
        }
        let mut meta = self.take_task(task);
        meta.waiting = None;
        meta.state = TaskLife::Runnable;
        self.put_task(task, meta);
        proof { assert(self.tasks@ =~= old(self).tasks@.update(task as int, TaskMeta {
                state: TaskLife::Runnable, waiting: None, ..old(self).tasks@[task as int] })); }
        self.wake(task);
        true
    }

    /// Wakes a task that is parked on a send to `channel`.
    fn try_wake_sender(&mut self, task: usize, channel: u32) -> (r: bool)
        ensures
            r == (task < old(self).tasks@.len() && waits_to_send(old(self).tasks@[task as int], channel)),
            r ==> final(self).tasks@ == old(self).tasks@.update(task as int, TaskMeta {
                state: TaskLife::Runnable, waiting: None, ..old(self).tasks@[task as int]
            }) && final(self).pending_wakeups@ == old(self).pending_wakeups@.push(task),
            !r ==> final(self).tasks@ == old(self).tasks@ && final(self).pending_wakeups == old(self).pending_wakeups,
            final(self).channels == old(self).channels,
            final(self).completed_sends == old(self).completed_sends,
            final(self).current == old(self).current,
            final(self).together_groups == old(self).together_groups,
            final(self).active_together == old(self).active_together,
            final(self).timeouts == old(self).timeouts,
    {
        if task >= self.tasks.len() {
            return false;
        }
        let fits = match &self.tasks[task].waiting {
            Some(WaitSite::Send { channel: c, .. }) => *c == channel,
            _ => false,
        };
        if !fits {
            return false;
        }
        let mut meta = self.take_task(task);
        meta.waiting = None;
        meta.state = TaskLife::Runnable;
        self.put_task(task, meta);
        proof { assert(self.tasks@ =~= old(self).tasks@.update(task as int, TaskMeta {
                state: TaskLife::Runnable, waiting: None, ..old(self).tasks@[task as int] })); }
        self.wake(task);
        true
    }

    /// Wakes each of the tasks listed that is parked on a receive from
    /// `channel`.
    fn wake_receivers(&mut self, waiters: &Vec<usize>, channel: u32)
        ensures
            final(self).tasks@.len() == old(self).tasks@.len(),
            final(self).channels == old(self).channels,
            final(self).completed_sends == old(self).completed_sends,
            final(self).current == old(self).current,
            final(self).together_groups == old(self).together_groups,
            final(self).active_together == old(self).active_together,
            final(self).timeouts == old(self).timeouts,
            forall|t: usize| t < old(self).tasks@.len() ==> #[trigger] final(self).tasks@[t as int] == (
                if waiters@.contains(t) && parked_on(old(self).tasks@[t as int], channel, true) {
                    woken_meta(old(self).tasks@[t as int])
                } else {
                    old(self).tasks@[t as int]
                }),
            final(self).pending_wakeups@ == old(self).pending_wakeups@
                + woken_list(waiters@, old(self).tasks@, channel, true, waiters@.len() as int),
    {
        let mut i: usize = 0;
        while i < waiters.len()
            invariant
                i <= waiters@.len(),
                self.tasks@.len() == old(self).tasks@.len(),
                self.channels == old(self).channels,
                self.completed_sends == old(self).completed_sends,
                self.current == old(self).current,
                self.together_groups == old(self).together_groups,
                self.active_together == old(self).active_together,
                self.timeouts == old(self).timeouts,
                forall|t: usize| t < old(self).tasks@.len() ==> #[trigger] self.tasks@[t as int] == (
                    if waiters@.subrange(0, i as int).contains(t) && parked_on(old(self).tasks@[t as int], channel, true) {
                        woken_meta(old(self).tasks@[t as int])
                    } else {
                        old(self).tasks@[t as int]
                    }),
                self.pending_wakeups@ == old(self).pending_wakeups@
                    + woken_list(waiters@, old(self).tasks@, channel, true, i as int),
            decreases waiters.len() - i,
        {
            let ghost before = self.tasks@;
            let ghost wakeups = self.pending_wakeups@;
            let w = waiters[i];
            self.try_wake_receiver(w, channel);
            proof {
                let prefix = waiters@.subrange(0, i as int);
                assert(waiters@.subrange(0, i + 1) =~= prefix.push(w));
                assert(prefix.push(w)[i as int] == w);
                assert(prefix.push(w).contains(w));
                assert forall|t: usize| t != w implies
                    (#[trigger] prefix.push(w).contains(t) == prefix.contains(t)) by {
                    if prefix.contains(t) {
                        let k = choose|k: int| 0 <= k < prefix.len() && prefix[k] == t;
                        assert(prefix.push(w)[k] == t);
                    }
                    if prefix.push(w).contains(t) {
                        let k = choose|k: int| 0 <= k < prefix.push(w).len() && prefix.push(w)[k] == t;
                        assert(prefix[k] == t);
                    }
                }
                assert(forall|t: usize| t < old(self).tasks@.len() && t != w ==> #[trigger] self.tasks@[t as int] == before[t as int]);
                assert(self.pending_wakeups@ =~= old(self).pending_wakeups@
                    + woken_list(waiters@, old(self).tasks@, channel, true, i + 1));
            }
            i = i + 1;
        }
        proof { assert(waiters@.subrange(0, waiters@.len() as int) =~= waiters@); }
    }

    /// Wakes each of the tasks listed that is parked on a send to `channel`.
    fn wake_senders(&mut self, waiters: &Vec<usize>, channel: u32)
        ensures
            final(self).tasks@.len() == old(self).tasks@.len(),
            final(self).channels == old(self).channels,
            final(self).completed_sends == old(self).completed_sends,
            final(self).current == old(self).current,
            final(self).together_groups == old(self).together_groups,
            final(self).active_together == old(self).active_together,
            final(self).timeouts == old(self).timeouts,
            forall|t: usize| t < old(self).tasks@.len() ==> #[trigger] final(self).tasks@[t as int] == (
                if waiters@.contains(t) && parked_on(old(self).tasks@[t as int], channel, false) {
                    woken_meta(old(self).tasks@[t as int])
                } else {
                    old(self).tasks@[t as int]
                }),
            final(self).pending_wakeups@ == old(self).pending_wakeups@
                + woken_list(waiters@, old(self).tasks@, channel, false, waiters@.len() as int),
    {
        let mut i: usize = 0;
        while i < waiters.len()
            invariant
                i <= waiters@.len(),
                self.tasks@.len() == old(self).tasks@.len(),
                self.channels == old(self).channels,
                self.completed_sends == old(self).completed_sends,
                self.current == old(self).current,
                self.together_groups == old(self).together_groups,
                self.active_together == old(self).active_together,
                self.timeouts == old(self).timeouts,
                forall|t: usize| t < old(self).tasks@.len() ==> #[trigger] self.tasks@[t as int] == (
                    if waiters@.subrange(0, i as int).contains(t) && parked_on(old(self).tasks@[t as int], channel, false) {
                        woken_meta(old(self).tasks@[t as int])
                    } else {
                        old(self).tasks@[t as int]
                    }),
                self.pending_wakeups@ == old(self).pending_wakeups@
                    + woken_list(waiters@, old(self).tasks@, channel, false, i as int),
            decreases waiters.len() - i,
        {
            let ghost before = self.tasks@;
            let ghost wakeups = self.pending_wakeups@;
            let w = waiters[i];
            self.try_wake_sender(w, channel);
            proof {
                let prefix = waiters@.subrange(0, i as int);
                assert(waiters@.subrange(0, i + 1) =~= prefix.push(w));
                assert(prefix.push(w)[i as int] == w);
                assert(prefix.push(w).contains(w));
                assert forall|t: usize| t != w implies
                    (#[trigger] prefix.push(w).contains(t) == prefix.contains(t)) by {
                    if prefix.contains(t) {
                        let k = choose|k: int| 0 <= k < prefix.len() && prefix[k] == t;
                        assert(prefix.push(w)[k] == t);
                    }
                    if prefix.push(w).contains(t) {
                        let k = choose|k: int| 0 <= k < prefix.push(w).len() && prefix.push(w)[k] == t;
                        assert(prefix[k] == t);
                    }
                }
                assert(forall|t: usize| t < old(self).tasks@.len() && t != w ==> #[trigger] self.tasks@[t as int] == before[t as int]);
                assert(self.pending_wakeups@ =~= old(self).pending_wakeups@
                    + woken_list(waiters@, old(self).tasks@, channel, false, i + 1));
            }
            i = i + 1;
        }
        proof { assert(waiters@.subrange(0, waiters@.len() as int) =~= waiters@); }
    }
}

} // verus!

verus! {

impl Host {
    /// Sends a value down a channel: straight to a receiver that is waiting,
    /// else into the buffer while there is room, else the sender parks until
    /// a receiver takes it.
    pub fn send(&mut self, channel: u32, value: Value, span: Span) -> (r: OpResult)
        ensures
            channel >= old(self).channels@.len() ==> r == OpResult::Stop(Fault::Confused("a send named a channel that is not there"))
                && final(self).channels == old(self).channels && final(self).pending_wakeups == old(self).pending_wakeups,
            channel < old(self).channels@.len() ==> {
                let before = old(self).channels@[channel as int];
                let after = final(self).channels@[channel as int];
                &&& channels_unchanged_but(old(self).channels@, final(self).channels@, channel as int)
                &&& if before.closed {
                    r == OpResult::Stop(Fault::Confused("a send reached a channel that is closed"))
                        && final(self).channels == old(self).channels
                        && final(self).pending_wakeups == old(self).pending_wakeups
                } else if before.recv_waiters@.len() > 0 {
                    let receiver = before.recv_waiters@[0];
                    &&& r is Done
                    &&& after.recv_waiters@ == before.recv_waiters@.drop_first()
                    &&& after.rendezvous_to@ == keyed_put(before.rendezvous_to@, receiver, value)
                    &&& after.buffer == before.buffer
                    &&& after.rendezvous_sends == before.rendezvous_sends
                    &&& after.send_waiters == before.send_waiters
                    &&& after.capacity == before.capacity && after.closed == before.closed
                    &&& final(self).pending_wakeups@ == old(self).pending_wakeups@.push(receiver)
                } else if before.buffer@.len() < before.capacity {
                    after == (ChannelState { buffer: after.buffer, ..before })
                    && r is Done
                    && after.buffer@ == before.buffer@.push(value)
                    && final(self).pending_wakeups == old(self).pending_wakeups
                } else {
                    after == (ChannelState { rendezvous_sends: after.rendezvous_sends, ..before })
                    && r == OpResult::Park(WaitSite::Send { channel, span })
                    && after.rendezvous_sends@ == before.rendezvous_sends@.push((old(self).current, value))
                    && final(self).pending_wakeups == old(self).pending_wakeups
                }
            },
            final(self).tasks == old(self).tasks,
            final(self).current == old(self).current,
            final(self).completed_sends == old(self).completed_sends,
    {
        let c = channel as usize;
        if c >= self.channels.len() {
            return OpResult::Stop(Fault::Confused("a send named a channel that is not there"));
        }
        if self.channels[c].closed {
            return OpResult::Stop(Fault::Confused("a send reached a channel that is closed"));
        }
        let mut state = self.take_channel(c);
        if state.recv_waiters.len() > 0 {
            let receiver = state.recv_waiters.remove(0);
            proof { assert(state.recv_waiters@ =~= old(self).channels@[c as int].recv_waiters@.drop_first()); }
            match find_keyed(&state.rendezvous_to, receiver) {
                Some(i) => { state.rendezvous_to.set(i, (receiver, value)); },
                None => { state.rendezvous_to.push((receiver, value)); },
            }
            self.put_channel(c, state);
            self.wake(receiver);
            return OpResult::Done;
        }
        if state.buffer.len() < state.capacity {
            state.buffer.push(value);
            self.put_channel(c, state);
            return OpResult::Done;
        }
        let current = self.current;
        state.rendezvous_sends.push((current, value));
        self.put_channel(c, state);
        OpResult::Park(WaitSite::Send { channel, span })
    }

    /// Receives from a channel, which is a queue. A value a sender handed to
    /// this very task comes first; then the oldest buffered value, the oldest
    /// parked sender's value taking the freed place at the back; then, on a
    /// channel with nothing buffered, the oldest parked sender's value; then
    /// `nothing` from a closed channel; otherwise the receiver parks.
    pub fn receive(&mut self, channel: u32, span: Span) -> (r: OpResult)
        ensures
            channel >= old(self).channels@.len() ==> r == OpResult::Stop(Fault::Confused("a receive named a channel that is not there"))
                && final(self).channels == old(self).channels,
            channel < old(self).channels@.len() ==> {
                let before = old(self).channels@[channel as int];
                let after = final(self).channels@[channel as int];
                &&& channels_unchanged_but(old(self).channels@, final(self).channels@, channel as int)
                &&& match keyed_index(before.rendezvous_to@, old(self).current) {
                    Some(i) => r matches OpResult::Ready(v) && v@ == found_of(before.rendezvous_to@[i].1)
                        && after.rendezvous_to@ == before.rendezvous_to@.remove(i)
                        && after.buffer == before.buffer && after.rendezvous_sends == before.rendezvous_sends,
                    None => if before.buffer@.len() > 0 {
                        &&& r matches OpResult::Ready(v) && v@ == found_of(before.buffer@[0])
                        &&& after.capacity == before.capacity && after.closed == before.closed
                        &&& after.rendezvous_to == before.rendezvous_to
                        &&& if before.rendezvous_sends@.len() > 0 {
                            let (sender, sent) = before.rendezvous_sends@[0];
                            &&& after.buffer@ == before.buffer@.drop_first().push(sent)
                            &&& after.rendezvous_sends@ == before.rendezvous_sends@.drop_first()
                            &&& after.send_waiters@ == other_tasks(before.send_waiters@, sender)
                            &&& final(self).completed_sends@ == old(self).completed_sends@.push(sender)
                            &&& final(self).pending_wakeups@ == old(self).pending_wakeups@.push(sender)
                        } else {
                            &&& after.buffer@ == before.buffer@.drop_first()
                            &&& after.rendezvous_sends == before.rendezvous_sends
                            &&& after.send_waiters == before.send_waiters
                        }
                    } else if before.rendezvous_sends@.len() > 0 {
                        let (sender, sent) = before.rendezvous_sends@[0];
                        &&& r matches OpResult::Ready(v) && v@ == found_of(sent)
                        &&& after.rendezvous_sends@ == before.rendezvous_sends@.drop_first()
                        &&& after.send_waiters@ == other_tasks(before.send_waiters@, sender)
                        &&& final(self).completed_sends@ == old(self).completed_sends@.push(sender)
                        &&& final(self).pending_wakeups@ == old(self).pending_wakeups@.push(sender)
                        &&& after.buffer == before.buffer
                    } else if before.closed {
                        r matches OpResult::Ready(v) && v == Value::Maybe(None)
                    } else {
                        r == OpResult::Park(WaitSite::Receive { channel, span })
                            && final(self).channels@ == old(self).channels@
                    },
                }
            },
            channel < old(self).channels@.len() ==> match next_received(old(self).channels@[channel as int], old(self).current) {
                Some(v) => r matches OpResult::Ready(x) && x@ == v,
                None => r == OpResult::Park(WaitSite::Receive { channel, span }),
            },
            final(self).current == old(self).current,
            final(self).tasks@.len() == old(self).tasks@.len(),
    {
        let c = channel as usize;
        if c >= self.channels.len() {
            return OpResult::Stop(Fault::Confused("a receive named a channel that is not there"));
        }
        let current = self.current;
        let mut state = self.take_channel(c);
        match find_keyed(&state.rendezvous_to, current) {
            Some(i) => {
                let (_, v) = state.rendezvous_to.remove(i);
                self.put_channel(c, state);
                return OpResult::Ready(Value::Maybe(Some(Box::new(v))));
            },
            None => {},
        }
        if state.buffer.len() > 0 {
            // The oldest value goes first; a sender parked on a full
            // channel then has its value take the place at the back.
            let v = state.buffer.remove(0);
            proof { assert(state.buffer@ =~= old(self).channels@[c as int].buffer@.drop_first()); }
            if state.rendezvous_sends.len() > 0 {
                let (sender, sent) = state.rendezvous_sends.remove(0);
                proof { assert(state.rendezvous_sends@ =~= old(self).channels@[c as int].rendezvous_sends@.drop_first()); }
                state.buffer.push(sent);
                state.send_waiters = without_task(&state.send_waiters, sender);
                self.put_channel(c, state);
                self.completed_sends.push(sender);
                self.wake(sender);
                return OpResult::Ready(Value::Maybe(Some(Box::new(v))));
            }
            let waiters = crate::concurrency::copy_tasks(&state.send_waiters);
            self.put_channel(c, state);
            self.wake_senders(&waiters, channel);
            return OpResult::Ready(Value::Maybe(Some(Box::new(v))));
        }
        if state.rendezvous_sends.len() > 0 {
            let (sender, v) = state.rendezvous_sends.remove(0);
            proof { assert(state.rendezvous_sends@ =~= old(self).channels@[c as int].rendezvous_sends@.drop_first()); }
            state.send_waiters = without_task(&state.send_waiters, sender);
            self.put_channel(c, state);
            self.completed_sends.push(sender);
            self.wake(sender);
            return OpResult::Ready(Value::Maybe(Some(Box::new(v))));
        }
        let closed = state.closed;
        self.put_channel(c, state);
        proof { assert(self.channels@ =~= old(self).channels@); }
        if closed {
            return OpResult::Ready(Value::Maybe(None));
        }
        OpResult::Park(WaitSite::Receive { channel, span })
    }

    /// Closes a channel, waking every task parked on a receive from it.
    pub fn close(&mut self, channel: u32) -> (r: OpResult)
        ensures
            channel >= old(self).channels@.len() ==> r == OpResult::Stop(Fault::Confused("a close named a channel that is not there"))
                && final(self).channels == old(self).channels,
            channel < old(self).channels@.len() ==> r is Done
                && final(self).channels@[channel as int] == (ChannelState { closed: true, ..old(self).channels@[channel as int] })
                && channels_unchanged_but(old(self).channels@, final(self).channels@, channel as int),
            final(self).current == old(self).current,
            final(self).tasks@.len() == old(self).tasks@.len(),
    {
        let c = channel as usize;
        if c >= self.channels.len() {
            return OpResult::Stop(Fault::Confused("a close named a channel that is not there"));
        }
        let mut state = self.take_channel(c);
        state.closed = true;
        let waiters = copy_tasks(&state.recv_waiters);
        self.put_channel(c, state);
        self.wake_receivers(&waiters, channel);
        OpResult::Done
    }
}

/// A copy of a list of task numbers.
pub fn copy_tasks(tasks: &Vec<usize>) -> (r: Vec<usize>)
    ensures
        r@ == tasks@,
{
    let mut out: Vec<usize> = Vec::new();
    let mut i: usize = 0;
    while i < tasks.len()
        invariant
            i <= tasks@.len(),
            out@ == tasks@.subrange(0, i as int),
        decreases tasks.len() - i,
    {
        out.push(tasks[i]);
        proof { assert(out@ =~= tasks@.subrange(0, i + 1)); }
        i = i + 1;
    }
    proof { assert(out@ =~= tasks@); }
    out
}

} // verus!

verus! {

/// A list with its last entry taken off, when it has one.
pub open spec fn popped(s: Seq<usize>) -> Seq<usize> {
    if s.len() > 0 { s.drop_last() } else { s }
}

/// Whether every task of a group has an outcome.
pub open spec fn group_settled(group: Seq<usize>, tasks: Seq<TaskMeta>) -> bool {
    forall|k: int| 0 <= k < group.len() ==> #[trigger] group[k] < tasks.len() && tasks[group[k] as int].outcome is Some
}

fn settled(group: &Vec<usize>, tasks: &Vec<TaskMeta>) -> (r: bool)
    ensures
        r == group_settled(group@, tasks@),
{
    let mut i: usize = 0;
    while i < group.len()
        invariant
            i <= group@.len(),
            forall|k: int| 0 <= k < i ==> #[trigger] group@[k] < tasks@.len() && tasks@[group@[k] as int].outcome is Some,
        decreases group.len() - i,
    {
        let t = group[i];
        if t >= tasks.len() || tasks[t].outcome.is_none() {
            return false;
        }
        i = i + 1;
    }
    true
}

/// A fresh record for a task just started.
pub open spec fn fresh_task(meta: TaskMeta, together: Option<usize>) -> bool {
    meta.state == TaskLife::Runnable && meta.waiting is None && meta.outcome is None
        && meta.together == together && !meta.cancelled && meta.select_fire is None
}

impl Host {
    /// Starts a task running a function value, in the innermost `together`
    /// block that is open, if any.
    pub fn spawn(&mut self, program: &crate::bytecode::Program, function: Value) -> (r: Result<Value, RuntimeError>)
        ensures
            final(self).current == old(self).current,
            match r {
                Ok(v) => (function matches Value::Function(c) && (c.body as usize) < program.bodies@.len())
                    && v == Value::Task(old(self).tasks@.len() as usize)
                    && final(self).tasks@.len() == old(self).tasks@.len() + 1
                    && final(self).tasks@.drop_last() == old(self).tasks@
                    && fresh_task(final(self).tasks@.last(),
                        if old(self).active_together@.len() > 0 { Some(old(self).active_together@.last()) } else { None })
                    && final(self).pending_spawns@.len() == old(self).pending_spawns@.len() + 1
                    && final(self).pending_spawns@.last().1 == old(self).tasks@.len(),
                Err(e) => final(self).tasks == old(self).tasks && (if function matches Value::Function(_) {
                    e.fault == Fault::Confused("a call named a body that is not there")
                } else {
                    e.fault == Fault::Confused("a task was started from something that is not a function")
                }),
            },
            final(self).channels == old(self).channels,
            final(self).current == old(self).current,
            final(self).active_together == old(self).active_together,
    {
        let closure = match function {
            Value::Function(c) => *c,
            _ => return Err(RuntimeError {
                fault: Fault::Confused("a task was started from something that is not a function"),
                trace: Vec::new(),
            }),
        };
        let body = closure.body as usize;
        let machine = match crate::machine::Machine::for_body(program, body, 0, Some(closure)) {
            Ok(m) => m,
            Err(fault) => return Err(RuntimeError { fault, trace: Vec::new() }),
        };
        let together = if self.active_together.len() > 0 {
            Some(self.active_together[self.active_together.len() - 1])
        } else {
            None
        };
        let id = self.tasks.len();
        self.tasks.push(TaskMeta { state: TaskLife::Runnable, waiting: None, outcome: None, together, cancelled: false, select_fire: None });
        proof { assert(self.tasks@.drop_last() =~= old(self).tasks@); }
        match together {
            Some(group) => {
                if group < self.together_groups.len() {
                    let mut entry = self.together_groups.remove(group);
                    entry.tasks.push(id);
                    self.together_groups.insert(group, entry);
                }
            },
            None => {},
        }
        self.pending_spawns.push((machine, id));
        Ok(Value::Task(id))
    }

    /// What waiting for a task comes to: its answer, its failure, or a park
    /// until it has one.
    pub fn wait_task(&self, target: usize, span: Span) -> (r: OpResult)
        ensures
            target >= self.tasks@.len() ==> r == OpResult::Stop(Fault::Confused("a wait named a task that is not there")),
            target < self.tasks@.len() ==> {
                let entry = self.tasks@[target as int];
                if entry.cancelled {
                    r == OpResult::Stop(Fault::Confused("a wait reached a task that was cancelled"))
                } else {
                    match entry.outcome {
                        Some(Ok(v)) => r matches OpResult::Ready(w) && w@ == v@,
                        Some(Err(e)) => r matches OpResult::Failed(f) && crate::error::same_error(f, e),
                        None => r == OpResult::Park(WaitSite::WaitTask { task: target, span }),
                    }
                }
            },
    {
        if target >= self.tasks.len() {
            return OpResult::Stop(Fault::Confused("a wait named a task that is not there"));
        }
        let entry = &self.tasks[target];
        if entry.cancelled {
            return OpResult::Stop(Fault::Confused("a wait reached a task that was cancelled"));
        }
        match &entry.outcome {
            Some(Ok(v)) => OpResult::Ready(crate::value::copy_value(v)),
            Some(Err(e)) => OpResult::Failed(crate::error::copy_error(e)),
            None => OpResult::Park(WaitSite::WaitTask { task: target, span }),
        }
    }

    /// Opens a `together` block, giving back its number.
    pub fn begin_together(&mut self) -> (r: usize)
        ensures
            r == old(self).together_groups@.len(),
            final(self).together_groups@.len() == old(self).together_groups@.len() + 1,
            final(self).together_groups@.drop_last() == old(self).together_groups@,
            final(self).together_groups@.last().tasks@.len() == 0,
            final(self).together_groups@.last().waiter is None,
            final(self).together_groups@.last().failed is None,
            final(self).active_together@ == old(self).active_together@.push(r),
            final(self).tasks == old(self).tasks,
            final(self).channels == old(self).channels,
            final(self).current == old(self).current,
    {
        let group = self.together_groups.len();
        self.together_groups.push(TogetherGroup { tasks: Vec::new(), waiter: None, failed: None });
        proof { assert(self.together_groups@.drop_last() =~= old(self).together_groups@); }
        self.active_together.push(group);
        group
    }

    /// The end of a `together` block: done once every task it started has an
    /// outcome, failed as soon as one of them failed, else the waiter parks.
    pub fn end_together(&mut self, group: usize, waiter: usize) -> (r: OpResult)
        ensures
            final(self).current == old(self).current,
            group >= old(self).together_groups@.len() ==> r == OpResult::Stop(Fault::Confused("a together named a group that is not there")),
            group < old(self).together_groups@.len() ==> {
                let entry = old(self).together_groups@[group as int];
                &&& final(self).together_groups@[group as int].waiter == Some(waiter)
                &&& match entry.failed {
                    Some(e) => r matches OpResult::Failed(f) && crate::error::same_error(f, e)
                        && final(self).active_together@ == popped(old(self).active_together@),
                    None => if group_settled(entry.tasks@, old(self).tasks@) {
                        r is Done && final(self).active_together@ == popped(old(self).active_together@)
                    } else {
                        r == OpResult::Park(WaitSite::Together { group })
                            && final(self).active_together == old(self).active_together
                    },
                }
            },
            final(self).tasks == old(self).tasks,
            final(self).channels == old(self).channels,
            final(self).current == old(self).current,
    {
        if group >= self.together_groups.len() {
            return OpResult::Stop(Fault::Confused("a together named a group that is not there"));
        }
        let mut entry = self.together_groups.remove(group);
        entry.waiter = Some(waiter);
        let failed = match &entry.failed {
            Some(e) => Some(crate::error::copy_error(e)),
            None => None,
        };
        let done = settled(&entry.tasks, &self.tasks);
        self.together_groups.insert(group, entry);
        match failed {
            Some(e) => {
                let _ = self.active_together.pop();
                proof { assert(self.active_together@ =~= popped(old(self).active_together@)); }
                OpResult::Failed(e)
            },
            None => if done {
                let _ = self.active_together.pop();
                proof { assert(self.active_together@ =~= popped(old(self).active_together@)); }
                OpResult::Done
            } else {
                OpResult::Park(WaitSite::Together { group })
            },
        }
    }
}

} // verus!

verus! {

use crate::bytecode::{SelectArm, SelectDescriptor};

/// How many receive arms come before arm `k`: which of the channels taken
/// off the stack arm `k` reads, when it is a receive arm.
pub open spec fn receives_before(arms: Seq<SelectArm>, k: int) -> nat
    decreases k,
{
    if k <= 0 || k > arms.len() {
        0
    } else {
        receives_before(arms, k - 1) + if arms[k - 1] is Receive { 1nat } else { 0nat }
    }
}

/// What taking a ready value from a channel for `task` does: a value
/// handed to the task comes first, then the oldest buffered value (the
/// oldest parked sender's value taking the freed place), then, with nothing
/// buffered, the oldest parked sender's value; `r` is what was taken.
pub open spec fn takes(before: ChannelState, after: ChannelState, task: usize, r: Option<Value>) -> bool {
    match keyed_index(before.rendezvous_to@, task) {
        Some(i) => r == Some(before.rendezvous_to@[i].1)
            && after.rendezvous_to@ == before.rendezvous_to@.remove(i)
            && after.buffer == before.buffer && after.rendezvous_sends == before.rendezvous_sends,
        None => if before.buffer@.len() > 0 {
            &&& r == Some(before.buffer@[0])
            &&& after.rendezvous_to == before.rendezvous_to
            &&& if before.rendezvous_sends@.len() > 0 {
                let (sender, sent) = before.rendezvous_sends@[0];
                &&& after.buffer@ == before.buffer@.drop_first().push(sent)
                &&& after.rendezvous_sends@ == before.rendezvous_sends@.drop_first()
                &&& after.send_waiters@ == other_tasks(before.send_waiters@, sender)
            } else {
                after.buffer@ == before.buffer@.drop_first() && after.rendezvous_sends == before.rendezvous_sends
            }
        } else if before.rendezvous_sends@.len() > 0 {
            let (sender, sent) = before.rendezvous_sends@[0];
            &&& r == Some(sent)
            &&& after.rendezvous_sends@ == before.rendezvous_sends@.drop_first()
            &&& after.send_waiters@ == other_tasks(before.send_waiters@, sender)
            &&& after.buffer == before.buffer && after.rendezvous_to == before.rendezvous_to
        } else {
            r is None && after == before
        },
    }
}

/// Whether a channel has something for `task` to take without waiting.
pub open spec fn has_ready(state: ChannelState, task: usize) -> bool {
    keyed_index(state.rendezvous_to@, task) is Some || state.rendezvous_sends@.len() > 0 || state.buffer@.len() > 0
}

/// Whether arm `k` of a `select` can go ahead without waiting.
pub open spec fn arm_ready(h: Host, task: usize, arms: Seq<SelectArm>, channels: Seq<Value>, k: int) -> bool {
    match arms[k] {
        SelectArm::Receive { .. } => {
            let ci = receives_before(arms, k) as int;
            ci < channels.len() && (channels[ci] matches Value::Channel(c)
                && (c as int) < h.channels@.len() && has_ready(h.channels@[c as int], task))
        },
        SelectArm::Timeout { milliseconds, .. } => milliseconds <= 0
            || (task < h.tasks@.len() && h.tasks@[task as int].select_fire == Some(k as usize)),
    }
}

impl Host {
    /// Takes what a channel has ready for `task`, in the order `receive`
    /// would.
    fn take_ready(&mut self, c: usize, task: usize) -> (r: Option<Value>)
        requires
            c < old(self).channels@.len(),
        ensures
            r is Some == has_ready(old(self).channels@[c as int], task),
            takes(old(self).channels@[c as int], final(self).channels@[c as int], task, r),
            !has_ready(old(self).channels@[c as int], task) ==> final(self).channels@ == old(self).channels@,
            channels_unchanged_but(old(self).channels@, final(self).channels@, c as int),
            final(self).tasks == old(self).tasks,
            final(self).current == old(self).current,
            !has_ready(old(self).channels@[c as int], task) ==> same_host(*old(self), *final(self)),
    {
        let mut state = self.take_channel(c);
        match find_keyed(&state.rendezvous_to, task) {
            Some(i) => {
                let (_, v) = state.rendezvous_to.remove(i);
                self.put_channel(c, state);
                return Some(v);
            },
            None => {},
        }
        if state.buffer.len() > 0 {
            let v = state.buffer.remove(0);
            proof { assert(state.buffer@ =~= old(self).channels@[c as int].buffer@.drop_first()); }
            if state.rendezvous_sends.len() > 0 {
                let (sender, sent) = state.rendezvous_sends.remove(0);
                proof { assert(state.rendezvous_sends@ =~= old(self).channels@[c as int].rendezvous_sends@.drop_first()); }
                state.buffer.push(sent);
                state.send_waiters = without_task(&state.send_waiters, sender);
                self.put_channel(c, state);
                self.completed_sends.push(sender);
                self.wake(sender);
                return Some(v);
            }
            self.put_channel(c, state);
            return Some(v);
        }
        if state.rendezvous_sends.len() > 0 {
            let (sender, v) = state.rendezvous_sends.remove(0);
            proof { assert(state.rendezvous_sends@ =~= old(self).channels@[c as int].rendezvous_sends@.drop_first()); }
            state.send_waiters = without_task(&state.send_waiters, sender);
            self.put_channel(c, state);
            self.completed_sends.push(sender);
            self.wake(sender);
            return Some(v);
        }
        self.put_channel(c, state);
        proof { assert(self.channels@ =~= old(self).channels@); }
        None
    }

    /// One go at a `select`: the first arm that can go ahead does, else the
    /// `otherwise` arm runs, else the task parks on every channel and
    /// timeout the `select` names. `now` is the scheduler's clock, in
    /// milliseconds.
    pub fn try_select(&mut self, task: usize, descriptor: &SelectDescriptor, channels: &Vec<Value>, resume_pc: usize, now: u64) -> (r: SelectStep)
        ensures
            match r {
                SelectStep::Arm { arm, value } => arm < descriptor.arms@.len()
                    && arm_ready(*old(self), task, descriptor.arms@, channels@, arm as int)
                    && (forall|k: int| 0 <= k < arm ==> !arm_ready(*old(self), task, descriptor.arms@, channels@, k))
                    && (value is Some == descriptor.arms@[arm as int] is Receive)
                    && (descriptor.arms@[arm as int] is Receive ==> ({
                        let ci = receives_before(descriptor.arms@, arm as int) as int;
                        channels@[ci] matches Value::Channel(c)
                            && takes(old(self).channels@[c as int], final(self).channels@[c as int], task, value)
                            && channels_unchanged_but(old(self).channels@, final(self).channels@, c as int)
                    })),
                SelectStep::Otherwise => descriptor.otherwise is Some
                    && forall|k: int| 0 <= k < descriptor.arms@.len() ==> !arm_ready(*old(self), task, descriptor.arms@, channels@, k)
                    && same_host(*old(self), *final(self)),
                SelectStep::Park { resume_pc: p } => p == resume_pc && descriptor.otherwise is None
                    && forall|k: int| 0 <= k < descriptor.arms@.len() ==> !arm_ready(*old(self), task, descriptor.arms@, channels@, k)
                    && select_parked(old(self).channels@, final(self).channels@, task, descriptor.arms@, channels@,
                        descriptor.arms@.len() as int)
                    && final(self).timeouts@ == old(self).timeouts@ + select_timeouts(descriptor.arms@, task, now, descriptor.arms@.len() as int)
                    && final(self).tasks == old(self).tasks
                    && final(self).together_groups == old(self).together_groups
                    && final(self).active_together == old(self).active_together
                    && final(self).pending_spawns == old(self).pending_spawns
                    && final(self).pending_wakeups == old(self).pending_wakeups
                    && final(self).completed_sends == old(self).completed_sends,
            },
            final(self).current == old(self).current,
            final(self).tasks@.len() == old(self).tasks@.len(),
    {
        let ghost start = *self;
        let arms = &descriptor.arms;
        let mut ci: usize = 0;
        let mut k: usize = 0;
        while k < arms.len()
            invariant
                k <= arms@.len(),
                arms@ == descriptor.arms@,
                ci == receives_before(arms@, k as int),
                ci <= k,
                self.channels@ == start.channels@,
                same_host(start, *self),
                self.tasks == start.tasks,
                self.current == start.current,
                start == *old(self),
                forall|j: int| 0 <= j < k ==> !arm_ready(start, task, arms@, channels@, j),
            decreases arms.len() - k,
        {
            match arms[k] {
                SelectArm::Receive { .. } => {
                    if ci < channels.len() {
                        match &channels[ci] {
                            Value::Channel(c) => {
                                let c = *c as usize;
                                if c < self.channels.len() {
                                    let taken = self.take_ready(c, task);
                                    match taken {
                                        Some(v) => return SelectStep::Arm { arm: k, value: Some(v) },
                                        None => {},
                                    }
                                }
                            },
                            _ => {},
                        }
                    }
                    ci = ci + 1;
                },
                SelectArm::Timeout { milliseconds, .. } => {
                    if milliseconds <= 0 {
                        proof {
                            assert(arms@[k as int] is Timeout);
                            assert(arm_ready(start, task, arms@, channels@, k as int));
                        }
                        return SelectStep::Arm { arm: k, value: None };
                    }
                    if task < self.tasks.len() {
                        let fired = match self.tasks[task].select_fire {
                            Some(a) => a == k,
                            None => false,
                        };
                        if fired {
                            let mut meta = self.take_task(task);
                            meta.select_fire = None;
                            self.put_task(task, meta);
                            return SelectStep::Arm { arm: k, value: None };
                        }
                    }
                },
            }
            k = k + 1;
        }
        if descriptor.otherwise.is_some() {
            return SelectStep::Otherwise;
        }
        let mut ci: usize = 0;
        let mut k: usize = 0;
        assert(select_timeouts(arms@, task, now, 0) =~= Seq::<PendingTimeout>::empty());
        while k < arms.len()
            invariant
                k <= arms@.len(),
                arms@ == descriptor.arms@,
                ci == receives_before(arms@, k as int),
                ci <= k,
                same_host(start, *old(self)),
                self.current == old(self).current,
                self.tasks == old(self).tasks,
                self.together_groups == old(self).together_groups,
                self.active_together == old(self).active_together,
                self.pending_spawns == old(self).pending_spawns,
                self.pending_wakeups == old(self).pending_wakeups,
                self.completed_sends == old(self).completed_sends,
                self.timeouts@ == old(self).timeouts@ + select_timeouts(arms@, task, now, k as int),
                select_parked(old(self).channels@, self.channels@, task, arms@, channels@, k as int),
            decreases arms.len() - k,
        {
            let ghost prev = self.channels@;
            let ghost before = old(self).channels@;
            match arms[k] {
                SelectArm::Receive { .. } => {
                    if ci < channels.len() {
                        match &channels[ci] {
                            Value::Channel(c) => {
                                let c = *c as usize;
                                if c < self.channels.len() && !self.channels[c].closed && !holds_task(&self.channels[c].recv_waiters, task) {
                                    let mut state = self.take_channel(c);
                                    state.recv_waiters.push(task);
                                    self.put_channel(c, state);
                                    proof {
                                        assert(prev[c as int] == (ChannelState { recv_waiters: prev[c as int].recv_waiters, ..before[c as int] }));
                                        if prev[c as int].recv_waiters@ == before[c as int].recv_waiters@.push(task) {
                                            assert(prev[c as int].recv_waiters@[before[c as int].recv_waiters@.len() as int] == task);
                                        }
                                        assert(prev[c as int].recv_waiters@ == before[c as int].recv_waiters@);
                                        assert(self.channels@[c as int].recv_waiters@ == before[c as int].recv_waiters@.push(task));
                                        assert forall|d: int| 0 <= d < before.len() implies (#[trigger] self.channels@[d])
                                            == (ChannelState { recv_waiters: self.channels@[d].recv_waiters, ..before[d] })
                                            && (self.channels@[d].recv_waiters@ == before[d].recv_waiters@
                                                || self.channels@[d].recv_waiters@ == before[d].recv_waiters@.push(task)) by {
                                            if d != c as int {
                                                assert(self.channels@[d] == prev[d]);
                                            }
                                        }
                                        assert forall|d: int| 0 <= d < before.len() && prev[d].recv_waiters@.contains(task)
                                            implies #[trigger] self.channels@[d].recv_waiters@.contains(task) by {
                                            if d == c as int {
                                            } else {
                                                assert(self.channels@[d] == prev[d]);
                                            }
                                        }
                                        assert(self.channels@[c as int].recv_waiters@[before[c as int].recv_waiters@.len() as int] == task);
                                    }
                                } else {
                                    proof {
                                        if (c as int) < before.len() && !before[c as int].closed {
                                            assert(prev[c as int] == (ChannelState { recv_waiters: prev[c as int].recv_waiters, ..before[c as int] }));
                                            assert(prev[c as int].recv_waiters@.contains(task));
                                        }
                                    }
                                }
                            },
                            _ => {},
                        }
                    }
                    proof {
                        assert forall|j: int| 0 <= j < k + 1 && (#[trigger] arms@[j]) is Receive implies ({
                            let cj = receives_before(arms@, j) as int;
                            cj < channels@.len() ==> (channels@[cj] matches Value::Channel(c)
                                ==> ((c as int) < before.len() && !before[c as int].closed ==> self.channels@[c as int].recv_waiters@.contains(task)))
                        }) by {
                            let cj = receives_before(arms@, j) as int;
                            if j == k {
                                assert(cj == ci as int);
                            }
                            if j < k {
                                if cj < channels@.len() {
                                    if let Value::Channel(c) = channels@[cj] {
                                        if (c as int) < before.len() && !before[c as int].closed {
                                            assert(prev[c as int].recv_waiters@.contains(task));
                                        }
                                    }
                                }
                            }
                        }
                    }
                    ci = ci + 1;
                },
                SelectArm::Timeout { milliseconds, .. } => {
                    if milliseconds > 0 {
                        let wait = milliseconds as u64;
                        let at = if now > u64::MAX - wait { u64::MAX } else { now + wait };
                        self.timeouts.push(PendingTimeout { at, task, select_arm: k });
                    }
                },
            }
            k = k + 1;
        }
        SelectStep::Park { resume_pc }
    }
}

} // verus!

verus! {

use crate::machine::{Machine, World, Step, Budget};
use crate::outside::{Request, Answer};
use crate::text::{push_text, push_digits};

/// Whether every task is parked, finished or cancelled: nothing can run.
pub open spec fn every_task_stuck(tasks: Seq<TaskMeta>) -> bool {
    forall|k: int| 0 <= k < tasks.len() ==> (#[trigger] tasks[k]).state == TaskLife::Parked
        || tasks[k].state == TaskLife::Done || tasks[k].cancelled
}

/// How the channels change when `task` waits at `site`: a task that waits
/// to send or to receive is put at the back of that channel's waiters, once;
/// any other wait leaves the channels as they are.
pub open spec fn wait_registered(before: Seq<ChannelState>, after: Seq<ChannelState>, task: usize, site: WaitSite) -> bool {
    match site {
        WaitSite::Send { channel, .. } => if (channel as int) < before.len()
            && !before[channel as int].send_waiters@.contains(task) {
            channels_unchanged_but(before, after, channel as int)
                && after[channel as int].send_waiters@ =~= before[channel as int].send_waiters@.push(task)
                && after[channel as int].recv_waiters == before[channel as int].recv_waiters
                && after[channel as int].buffer == before[channel as int].buffer
        } else {
            after =~= before
        },
        WaitSite::Receive { channel, .. } => if (channel as int) < before.len()
            && !before[channel as int].recv_waiters@.contains(task) {
            channels_unchanged_but(before, after, channel as int)
                && after[channel as int].recv_waiters@ =~= before[channel as int].recv_waiters@.push(task)
                && after[channel as int].send_waiters == before[channel as int].send_waiters
                && after[channel as int].buffer == before[channel as int].buffer
        } else {
            after =~= before
        },
        _ => after =~= before,
    }
}

impl Host {
    /// Whether no task can run.
    pub fn all_parked(&self) -> (r: bool)
        ensures
            r == every_task_stuck(self.tasks@),
    {
        let mut i: usize = 0;
        while i < self.tasks.len()
            invariant
                i <= self.tasks@.len(),
                forall|k: int| 0 <= k < i ==> (#[trigger] self.tasks@[k]).state == TaskLife::Parked
                    || self.tasks@[k].state == TaskLife::Done || self.tasks@[k].cancelled,
            decreases self.tasks.len() - i,
        {
            let entry = &self.tasks[i];
            if !(entry.state == TaskLife::Parked || entry.state == TaskLife::Done || entry.cancelled) {
                return false;
            }
            i = i + 1;
        }
        true
    }

    /// Puts a parked task on the list of the channel it waits on.
    fn register_wait(&mut self, task: usize, site: &WaitSite)
        ensures
            final(self).current == old(self).current,
            final(self).tasks == old(self).tasks,
            final(self).channels@.len() == old(self).channels@.len(),
            wait_registered(old(self).channels@, final(self).channels@, task, *site),
    {
        match site {
            WaitSite::Send { channel, .. } => {
                let c = *channel as usize;
                if c < self.channels.len() && !holds_task(&self.channels[c].send_waiters, task) {
                    let mut state = self.take_channel(c);
                    state.send_waiters.push(task);
                    self.put_channel(c, state);
                }
            },
            WaitSite::Receive { channel, .. } => {
                let c = *channel as usize;
                if c < self.channels.len() && !holds_task(&self.channels[c].recv_waiters, task) {
                    let mut state = self.take_channel(c);
                    state.recv_waiters.push(task);
                    self.put_channel(c, state);
                }
            },
            _ => {},
        }
    }

    /// Makes runnable every task waiting for `finished`.
    fn wake_task_waiters(&mut self, finished: usize, runnable: &mut Vec<usize>)
        ensures
            final(self).current == old(self).current,
            final(self).together_groups == old(self).together_groups,
            final(self).tasks@.len() == old(self).tasks@.len(),
            final(self).channels == old(self).channels,
            forall|t: int| 0 <= t < old(self).tasks@.len() ==> #[trigger] final(self).tasks@[t] == (
                if waits_for_task(old(self).tasks@[t], finished) { woken_meta(old(self).tasks@[t]) } else { old(self).tasks@[t] }),
            final(runnable)@ == old(runnable)@ + task_waiters(old(self).tasks@, finished, old(self).tasks@.len() as int),
    {
        let mut id: usize = 0;
        while id < self.tasks.len()
            invariant
                id <= self.tasks@.len(),
                self.tasks@.len() == old(self).tasks@.len(),
                self.channels == old(self).channels,
                self.current == old(self).current,
                self.together_groups == old(self).together_groups,
                forall|t: int| 0 <= t < old(self).tasks@.len() ==> #[trigger] self.tasks@[t] == (
                    if t < id && waits_for_task(old(self).tasks@[t], finished) { woken_meta(old(self).tasks@[t]) } else { old(self).tasks@[t] }),
                runnable@ == old(runnable)@ + task_waiters(old(self).tasks@, finished, id as int),
            decreases self.tasks.len() - id,
        {
            let waits = match &self.tasks[id].waiting {
                Some(WaitSite::WaitTask { task, .. }) => *task == finished,
                _ => false,
            };
            if waits {
                let mut meta = self.take_task(id);
                meta.waiting = None;
                meta.state = TaskLife::Runnable;
                self.put_task(id, meta);
                runnable.push(id);
            }
            proof {
                assert(runnable@ =~= old(runnable)@ + task_waiters(old(self).tasks@, finished, id + 1));
            }
            id = id + 1;
        }
    }

    /// When the last task of a `together` has an outcome, wakes the task
    /// waiting at its end.
    fn finish_together_task(&mut self, task: usize, runnable: &mut Vec<usize>)
        ensures
            final(self).current == old(self).current,
            final(self).tasks@.len() == old(self).tasks@.len(),
            final(self).channels == old(self).channels,
            match together_waiter(old(self).tasks@, old(self).together_groups@, task) {
                Some(w) => final(self).tasks@ == old(self).tasks@.update(w as int, woken_meta(old(self).tasks@[w as int]))
                    && final(runnable)@ == old(runnable)@.push(w),
                None => final(self).tasks@ == old(self).tasks@ && final(runnable)@ == old(runnable)@,
            },
    {
        if task >= self.tasks.len() {
            return;
        }
        let group = match self.tasks[task].together {
            Some(g) => g,
            None => return,
        };
        if group >= self.together_groups.len() {
            return;
        }
        if !settled(&self.together_groups[group].tasks, &self.tasks) {
            return;
        }
        let waiter = match self.together_groups[group].waiter {
            Some(w) => w,
            None => return,
        };
        if waiter < self.tasks.len() {
            let waits = match &self.tasks[waiter].waiting {
                Some(WaitSite::Together { group: g }) => *g == group,
                _ => false,
            };
            if waits {
                let mut meta = self.take_task(waiter);
                meta.waiting = None;
                meta.state = TaskLife::Runnable;
                self.put_task(waiter, meta);
                runnable.push(waiter);
            }
        }
    }

    /// Cancels a task that has no outcome yet, because another task of its
    /// `together` failed.
    fn cancel_task(&mut self, task: usize, runnable: &mut Vec<usize>, trace: Vec<crate::error::Level>)
        ensures
            final(self).current == old(self).current,
            final(self).tasks@.len() == old(self).tasks@.len(),
            final(self).channels == old(self).channels,
            (task < old(self).tasks@.len() && old(self).tasks@[task as int].outcome is Some) ==>
                final(self).tasks@ == old(self).tasks@ && final(runnable)@ == old(runnable)@,
            !(task < old(self).tasks@.len() && old(self).tasks@[task as int].outcome is Some) ==> ({
                let cancelled = if task < old(self).tasks@.len() {
                    old(self).tasks@.update(task as int, TaskMeta {
                        cancelled: true,
                        state: TaskLife::Done,
                        outcome: Some(Err(RuntimeError {
                            fault: Fault::Confused("a task was cancelled because another in the same `together` failed"),
                            trace,
                        })),
                        waiting: None,
                        ..old(self).tasks@[task as int]
                    })
                } else {
                    old(self).tasks@
                };
                &&& forall|t: int| 0 <= t < cancelled.len() ==> #[trigger] final(self).tasks@[t] == (
                    if waits_for_task(cancelled[t], task) { woken_meta(cancelled[t]) } else { cancelled[t] })
                &&& final(runnable)@ == other_tasks(old(runnable)@, task) + task_waiters(cancelled, task, cancelled.len() as int)
            }),
    {
        if task < self.tasks.len() {
            if self.tasks[task].outcome.is_some() {
                return;
            }
            let mut meta = self.take_task(task);
            meta.cancelled = true;
            meta.state = TaskLife::Done;
            meta.outcome = Some(Err(RuntimeError {
                fault: Fault::Confused("a task was cancelled because another in the same `together` failed"),
                trace,
            }));
            meta.waiting = None;
            self.put_task(task, meta);
            assert(self.tasks@ =~= old(self).tasks@.update(task as int, TaskMeta {
                cancelled: true,
                state: TaskLife::Done,
                outcome: Some(Err(RuntimeError {
                    fault: Fault::Confused("a task was cancelled because another in the same `together` failed"),
                    trace,
                })),
                waiting: None,
                ..old(self).tasks@[task as int]
            }));
        }
        let kept = without_task(runnable, task);
        *runnable = kept;
        self.wake_task_waiters(task, runnable);
    }

    /// Moves every `select` timeout that is due by `now` onto the runnable
    /// list, marking which arm fired.
    fn fire_timeouts(&mut self, runnable: &mut Vec<usize>, now: u64)
        ensures
            final(self).tasks@.len() == old(self).tasks@.len(),
            final(self).channels == old(self).channels,
            final(self).current == old(self).current,
            (forall|k: int| 0 <= k < old(self).timeouts@.len() ==> (#[trigger] old(self).timeouts@[k]).at > now)
                ==> final(self).tasks == old(self).tasks,
            forall|k: int| 0 <= k < final(self).timeouts@.len() ==> (#[trigger] final(self).timeouts@[k]).at > now,
            (forall|k: int| 0 <= k < old(self).timeouts@.len() ==> (#[trigger] old(self).timeouts@[k]).at > now)
                ==> final(self).timeouts@ == old(self).timeouts@ && final(runnable)@ == old(runnable)@,
            final(self).together_groups == old(self).together_groups,
            final(self).active_together == old(self).active_together,
            final(self).pending_spawns == old(self).pending_spawns,
            final(self).pending_wakeups == old(self).pending_wakeups,
            final(self).completed_sends == old(self).completed_sends,
    {
        let ghost none_due = forall|k: int| 0 <= k < old(self).timeouts@.len() ==> (#[trigger] old(self).timeouts@[k]).at > now;
        let mut due: Vec<PendingTimeout> = Vec::new();
        let mut kept: Vec<PendingTimeout> = Vec::new();
        while self.timeouts.len() > 0
            invariant
                self.tasks == old(self).tasks,
                self.channels == old(self).channels,
                self.current == old(self).current,
                forall|k: int| 0 <= k < kept@.len() ==> (#[trigger] kept@[k]).at > now,
                none_due == forall|k: int| 0 <= k < old(self).timeouts@.len() ==> (#[trigger] old(self).timeouts@[k]).at > now,
                none_due ==> kept@ + self.timeouts@ == old(self).timeouts@ && due@.len() == 0,
                self.together_groups == old(self).together_groups,
                self.active_together == old(self).active_together,
                self.pending_spawns == old(self).pending_spawns,
                self.pending_wakeups == old(self).pending_wakeups,
                self.completed_sends == old(self).completed_sends,
            decreases self.timeouts.len(),
        {
            let ghost before = self.timeouts@;
            let ghost kept_before = kept@;
            let pending = self.timeouts.remove(0);
            proof {
                if none_due {
                    assert(before[0] == old(self).timeouts@[kept_before.len() as int]);
                }
            }
            if pending.at <= now {
                due.push(pending);
            } else {
                kept.push(pending);
                proof {
                    if none_due {
                        assert(kept@ + self.timeouts@ =~= kept_before + before);
                    }
                }
            }
        }
        proof { if none_due { assert(kept@ + self.timeouts@ =~= kept@); } }
        self.timeouts = kept;
        let mut i: usize = 0;
        while i < due.len()
            invariant
                self.tasks@.len() == old(self).tasks@.len(),
                self.channels == old(self).channels,
                self.current == old(self).current,
                forall|k: int| 0 <= k < self.timeouts@.len() ==> (#[trigger] self.timeouts@[k]).at > now,
                none_due ==> due@.len() == 0 && self.timeouts@ == old(self).timeouts@ && runnable@ == old(runnable)@
                    && self.tasks == old(self).tasks,
                self.together_groups == old(self).together_groups,
                self.active_together == old(self).active_together,
                self.pending_spawns == old(self).pending_spawns,
                self.pending_wakeups == old(self).pending_wakeups,
                self.completed_sends == old(self).completed_sends,
            decreases due.len() - i,
        {
            let task = due[i].task;
            let arm = due[i].select_arm;
            if task < self.tasks.len() && self.tasks[task].state == TaskLife::Parked {
                let mut meta = self.take_task(task);
                meta.select_fire = Some(arm);
                meta.waiting = None;
                meta.state = TaskLife::Runnable;
                self.put_task(task, meta);
                runnable.push(task);
            }
            i = i + 1;
        }
    }
}

} // verus!

verus! {

/// What a task blocked at a wait site is doing, in a deadlock report.
pub open spec fn site_text(site: Option<WaitSite>) -> Seq<char> {
    match site {
        Some(WaitSite::Send { channel, .. }) => "sending to channel "@ + crate::text::digits(channel as nat),
        Some(WaitSite::Receive { channel, .. }) => "receiving from channel "@ + crate::text::digits(channel as nat),
        Some(WaitSite::WaitTask { task, .. }) => "waiting for task "@ + crate::text::digits(task as nat),
        Some(WaitSite::Together { .. }) => "waiting in `together`"@,
        Some(WaitSite::Select { .. }) => "waiting in `select`"@,
        None => "blocked"@,
    }
}

/// What a deadlock report calls a task: the body its innermost call runs,
/// or its number when its machine has no call.
pub open spec fn task_label(machines: Seq<Machine>, program: crate::bytecode::Program, id: int) -> Seq<char> {
    if id < machines.len() && machines[id].frame_count() > 0 {
        crate::machine::level_of(machines[id].frames_seq().last(), program).0
    } else {
        "task "@ + crate::text::digits(id as nat)
    }
}

/// The report's line for a parked task.
pub open spec fn parked_line(tasks: Seq<TaskMeta>, machines: Seq<Machine>, program: crate::bytecode::Program, id: int) -> Seq<char> {
    "  task "@ + crate::text::digits(id as nat) + " ("@ + task_label(machines, program, id) + "): "@ + site_text(tasks[id].waiting)
}

/// The lines for the parked tasks among the first `n`, one to a line.
pub open spec fn parked_lines(tasks: Seq<TaskMeta>, machines: Seq<Machine>, program: crate::bytecode::Program, n: int) -> Seq<char>
    decreases n,
{
    if n <= 0 {
        Seq::empty()
    } else {
        let before = parked_lines(tasks, machines, program, n - 1);
        if tasks[n - 1].state == TaskLife::Parked {
            (if before.len() > 0 { before + "\n"@ } else { before }) + parked_line(tasks, machines, program, n - 1)
        } else {
            before
        }
    }
}

/// What a deadlock says: one line for each parked task, or that none can
/// be woken when no task is parked.
pub open spec fn deadlock_detail(tasks: Seq<TaskMeta>, machines: Seq<Machine>, program: crate::bytecode::Program) -> Seq<char> {
    let lines = parked_lines(tasks, machines, program, tasks.len() as int);
    if lines.len() > 0 {
        "every task is blocked:\n"@ + lines
    } else {
        "every task is blocked and none can be woken"@
    }
}

fn describe_site(out: &mut String, site: &Option<WaitSite>)
    ensures
        final(out)@ == old(out)@ + site_text(*site),
{
    match site {
        Some(WaitSite::Send { channel, .. }) => {
            push_text(out, "sending to channel ");
            push_digits(out, *channel as u64);
        },
        Some(WaitSite::Receive { channel, .. }) => {
            push_text(out, "receiving from channel ");
            push_digits(out, *channel as u64);
        },
        Some(WaitSite::WaitTask { task, .. }) => {
            push_text(out, "waiting for task ");
            push_digits(out, *task as u64);
        },
        Some(WaitSite::Together { .. }) => push_text(out, "waiting in `together`"),
        Some(WaitSite::Select { .. }) => push_text(out, "waiting in `select`"),
        None => push_text(out, "blocked"),
    }
}

impl Host {
    /// The error a scheduler stops with when every task is blocked: one line
    /// for each parked task, saying what it waits for.
    pub fn deadlock(&self, machines: &Vec<Machine>, program: &crate::bytecode::Program) -> (r: RuntimeError)
        ensures
            r.fault matches Fault::Deadlock { detail } && detail@ == deadlock_detail(self.tasks@, machines@, *program),
            machines@.len() == 0 ==> r.trace@.len() == 0,
            machines@.len() > 0 ==> r.trace@.len() == machines@[0].frame_count()
                && forall|i: int| 0 <= i < r.trace@.len() ==> ((#[trigger] r.trace@[i]).name@, r.trace@[i].at)
                    == crate::machine::level_of(machines@[0].frames_seq()[machines@[0].frames_seq().len() - 1 - i], *program),
    {
        let mut lines = String::new();
        let mut id: usize = 0;
        while id < self.tasks.len()
            invariant
                id <= self.tasks@.len(),
                lines@ == parked_lines(self.tasks@, machines@, *program, id as int),
            decreases self.tasks.len() - id,
        {
            let entry = &self.tasks[id];
            if entry.state == TaskLife::Parked {
                let ghost before = lines@;
                if lines.as_str().unicode_len() > 0 {
                    push_text(&mut lines, "\n");
                }
                push_text(&mut lines, "  task ");
                push_digits(&mut lines, id as u64);
                push_text(&mut lines, " (");
                let mut named = false;
                if id < machines.len() {
                    let trace = machines[id].trace(program);
                    if trace.len() > 0 {
                        push_text(&mut lines, trace[0].name.as_str());
                        named = true;
                    }
                }
                if !named {
                    push_text(&mut lines, "task ");
                    push_digits(&mut lines, id as u64);
                }
                push_text(&mut lines, "): ");
                describe_site(&mut lines, &entry.waiting);
                proof {
                    assert(lines@ =~= (if before.len() > 0 { before + "\n"@ } else { before })
                        + parked_line(self.tasks@, machines@, *program, id as int));
                }
            }
            id = id + 1;
        }
        let detail = if lines.as_str().unicode_len() > 0 {
            let mut d = String::from_str("every task is blocked:\n");
            push_text(&mut d, lines.as_str());
            d
        } else {
            String::from_str("every task is blocked and none can be woken")
        };
        let trace = if machines.len() > 0 { machines[0].trace(program) } else { Vec::new() };
        RuntimeError { fault: Fault::Deadlock { detail }, trace }
    }
}

/// Every task's machine, and the host they share, taken in turns.
pub struct Scheduler {
    pub host: Host,
    /// One machine per task, by task number.
    pub machines: Vec<Machine>,
    /// The tasks ready to run, in the order they will.
    pub runnable: Vec<usize>,
    /// The task waiting for an answer from outside, if any.
    pub outside: Option<usize>,
}

/// What one turn of the scheduler came to.
pub enum Turn {
    /// A task ran for its slice, or there was nothing to do; take another turn.
    Busy,
    /// Every task is waiting on a timeout that is not due yet.
    Sleep,
    /// The file's own task finished, with this value.
    Finished(Value),
    /// The file's own task failed, or every task is blocked.
    Failed(RuntimeError),
    /// A task needs work done outside: do it, hand the answer to
    /// [`Scheduler::answer`], and take another turn.
    Outside(Request),
}

/// What settling a task's step does to the scheduler: `s0` before,
/// `s1` after, `r` what the turn comes to, as `Scheduler::settle` states it.
pub open spec fn settles(s0: Scheduler, s1: Scheduler, task: usize, step: Step, r: Turn) -> bool {
    &&& s1.host.current == s0.host.current
    &&& s1.machines == s0.machines
    &&& s1.host.tasks@.len() == s0.host.tasks@.len()
    &&& match step {
        Step::Yielded => r is Busy
            && s1.host.tasks@ == s0.host.tasks@.update(task as int,
                TaskMeta { state: TaskLife::Runnable, ..s0.host.tasks@[task as int] })
            && s1.runnable@ == s0.runnable@.push(task)
            && s1.outside == s0.outside,
        Step::Parked(site) => r is Busy
            && s1.host.tasks@ == s0.host.tasks@.update(task as int,
                TaskMeta { state: TaskLife::Parked, waiting: Some(site), ..s0.host.tasks@[task as int] })
            && s1.runnable@ == s0.runnable@
            && s1.outside == s0.outside
            && wait_registered(s0.host.channels@, s1.host.channels@, task, site),
        Step::Outside(request) => r == Turn::Outside(request)
            && s1.outside == Some(task)
            && s1.host == s0.host
            && s1.runnable == s0.runnable,
        Step::Finished(value) => if task == 0 {
            r == Turn::Finished(value) && s1 == s0
        } else {
            let done = s0.host.tasks@.update(task as int, TaskMeta {
                state: TaskLife::Done,
                outcome: Some(Ok(value)),
                ..s0.host.tasks@[task as int]
            });
            &&& r is Busy
            &&& s1.host.tasks@[task as int].outcome == Some(Ok::<Value, RuntimeError>(value))
            &&& s1.runnable@.subrange(0, (other_tasks(s0.runnable@, task).len()
                    + task_waiters(done, task, done.len() as int).len()) as int)
                == other_tasks(s0.runnable@, task) + task_waiters(done, task, done.len() as int)
            &&& s1.outside == s0.outside
        },
        Step::Failed(error) => if task == 0 {
            r == Turn::Failed(*error) && s1 == s0
        } else {
            &&& r is Busy
            &&& s1.host.tasks@[task as int].outcome matches Some(Err(kept)) && crate::error::same_error(kept, *error)
            &&& s1.outside == s0.outside
            &&& waiters_woken(s0.host.tasks@, task, s1.host.tasks@, s1.runnable@)
            &&& siblings_cancelled(s0.host.tasks@, s0.host.together_groups@, task, s1.host.tasks@)
        },
    }
}

/// The host a task runs its slice on: the one the turn began with, with that
/// task current and marked running.
pub open spec fn running_host(h0: Host, h: Host, t: usize) -> bool {
    &&& h.current == t
    &&& h.tasks@ == h0.tasks@.update(t as int, TaskMeta { state: TaskLife::Running, ..h0.tasks@[t as int] })
    &&& h.channels == h0.channels
    &&& h.timeouts@ == h0.timeouts@
    &&& h.together_groups == h0.together_groups
    &&& h.active_together == h0.active_together
    &&& h.pending_spawns == h0.pending_spawns
    &&& h.pending_wakeups == h0.pending_wakeups
    &&& h.completed_sends == h0.completed_sends
}

/// One turn that runs task `t`, from the scheduler `s0` and the world `w0`
/// it began with: the task's machine runs its slice on the host `h`, as
/// `resumes` states, and comes to `step`, leaving the machine `m1`, the host
/// `h1` and the world `w1`; the scheduler takes that machine back and gathers
/// the tasks spawned and woken, which gives `mid`; and `mid` settles the
/// step, which gives `s1` and the turn's result `r`.
pub open spec fn turned(s0: Scheduler, w0: World, t: usize, h: Host, step: Step, m1: Machine, h1: Host,
    mid: Scheduler, s1: Scheduler, w1: World, r: Turn) -> bool {
    &&& running_host(s0.host, h, t)
    &&& crate::step::resumes(s0.machines@[t as int], w0, h, PREEMPT_AFTER, m1, w1, h1, step)
    &&& mid.outside is None
    &&& mid.machines@ == s0.machines@.update(t as int, m1) + h1.pending_spawns@.map_values(|p: (Machine, usize)| p.0)
    &&& mid.runnable@ == with_new(s0.runnable@.drop_first(), h1.pending_spawns@.map_values(|p: (Machine, usize)| p.1),
            h1.pending_spawns@.len() as int) + h1.pending_wakeups@
    &&& mid.host.tasks == h1.tasks
    &&& mid.host.channels == h1.channels
    &&& mid.host.current == h1.current
    &&& mid.host.together_groups == h1.together_groups
    &&& mid.host.active_together == h1.active_together
    &&& mid.host.timeouts == h1.timeouts
    &&& mid.host.completed_sends == h1.completed_sends
    &&& mid.host.pending_spawns@.len() == 0
    &&& mid.host.pending_wakeups@.len() == 0
    &&& if t < h1.tasks@.len() { settles(mid, s1, t, step, r) } else { r is Busy && s1 == mid }
}

impl Scheduler {
    /// A scheduler about to run a whole file as task 0.
    pub fn new(program: &crate::bytecode::Program) -> (s: Scheduler)
        ensures
            s.machines@.len() == 1,
            s.runnable@ == seq![0usize],
            s.outside is None,
            s.host.tasks@.len() == 1,
    {
        let mut machines: Vec<Machine> = Vec::new();
        machines.push(Machine::start(program));
        let mut runnable: Vec<usize> = Vec::new();
        runnable.push(0);
        proof { assert(runnable@ =~= seq![0usize]); }
        Scheduler { host: Host::scratch(), machines, runnable, outside: None }
    }

    /// Hands the outside world's answer to the task that asked, which runs
    /// next.
    pub fn answer(&mut self, world: &mut World, answer: Answer) -> (r: Result<(), Fault>)
        ensures
            final(self).outside is None,
            final(world).program == old(world).program,
            match old(self).outside {
                None => r == Err::<(), Fault>(Fault::Confused("an answer came with nothing waiting for it"))
                    && final(self).machines == old(self).machines && final(self).runnable == old(self).runnable,
                Some(t) => if t >= old(self).machines@.len() {
                    r == Err::<(), Fault>(Fault::Confused("an answer came for a task that is not there"))
                        && final(self).machines == old(self).machines && final(self).runnable == old(self).runnable
                } else {
                    &&& final(self).runnable@ == old(self).runnable@.insert(0, t)
                    &&& final(self).machines@.len() == old(self).machines@.len()
                    &&& forall|k: int| 0 <= k < old(self).machines@.len() && k != t
                        ==> #[trigger] final(self).machines@[k] == old(self).machines@[k]
                    &&& crate::step::completes(old(self).machines@[t as int], final(self).machines@[t as int],
                        old(world).program, final(world).response, answer, r)
                },
            },
            final(self).host == old(self).host,
    {
        let task = match self.outside {
            Some(t) => t,
            None => return Err(Fault::Confused("an answer came with nothing waiting for it")),
        };
        self.outside = None;
        if task >= self.machines.len() {
            return Err(Fault::Confused("an answer came for a task that is not there"));
        }
        let ghost before = self.machines@;
        let mut machine = self.machines.remove(task);
        let answered = machine.complete(world, answer);
        self.machines.insert(task, machine);
        proof {
            assert forall|k: int| 0 <= k < before.len() && k != task implies #[trigger] self.machines@[k] == before[k] by {
                if k < task { } else { }
            }
        }
        self.runnable.insert(0, task);
        answered
    }

    /// Takes newly spawned tasks and woken tasks from the host.
    fn gather(&mut self)
        ensures
            final(self).outside == old(self).outside,
            final(self).host.pending_spawns@.len() == 0,
            final(self).host.pending_wakeups@.len() == 0,
            final(self).host.tasks == old(self).host.tasks,
            final(self).host.channels == old(self).host.channels,
            final(self).host.current == old(self).host.current,
            final(self).host.together_groups == old(self).host.together_groups,
            final(self).host.active_together == old(self).host.active_together,
            final(self).host.timeouts == old(self).host.timeouts,
            final(self).host.completed_sends == old(self).host.completed_sends,
            final(self).machines@ == old(self).machines@
                + old(self).host.pending_spawns@.map_values(|p: (Machine, usize)| p.0),
            final(self).runnable@ == with_new(old(self).runnable@,
                old(self).host.pending_spawns@.map_values(|p: (Machine, usize)| p.1),
                old(self).host.pending_spawns@.len() as int) + old(self).host.pending_wakeups@,
    {
        let ghost spawns = self.host.pending_spawns@;
        let ghost ids = spawns.map_values(|p: (Machine, usize)| p.1);
        let ghost made = spawns.map_values(|p: (Machine, usize)| p.0);
        let ghost mut k: int = 0;
        while self.host.pending_spawns.len() > 0
            invariant
                self.outside == old(self).outside,
                spawns == old(self).host.pending_spawns@,
                made == spawns.map_values(|p: (Machine, usize)| p.0),
                ids == spawns.map_values(|p: (Machine, usize)| p.1),
                0 <= k <= spawns.len(),
                self.host.pending_spawns@ == spawns.subrange(k, spawns.len() as int),
                self.host.pending_wakeups == old(self).host.pending_wakeups,
                self.host.tasks == old(self).host.tasks,
                self.host.channels == old(self).host.channels,
                self.host.current == old(self).host.current,
                self.host.together_groups == old(self).host.together_groups,
                self.host.active_together == old(self).host.active_together,
                self.host.timeouts == old(self).host.timeouts,
                self.host.completed_sends == old(self).host.completed_sends,
                self.machines@ == old(self).machines@ + made.subrange(0, k),
                self.runnable@ == with_new(old(self).runnable@, ids, k),
            decreases self.host.pending_spawns.len(),
        {
            let (machine, id) = self.host.pending_spawns.remove(0);
            proof {
                assert(k < spawns.len());
                assert(spawns[k] == (machine, id));
                assert(made[k] == machine && ids[k] == id);
                assert(made.subrange(0, k + 1) =~= made.subrange(0, k).push(machine));
                assert(self.host.pending_spawns@ =~= spawns.subrange(k + 1, spawns.len() as int));
            }
            self.machines.push(machine);
            if !holds_task(&self.runnable, id) {
                self.runnable.push(id);
            }
            proof {
                assert(self.runnable@ == with_new(old(self).runnable@, ids, k + 1));
                k = k + 1;
            }
        }
        proof { assert(made.subrange(0, k) =~= made); }
        let ghost gathered = self.runnable@;
        let ghost wakeups = self.host.pending_wakeups@;
        let ghost mut j: int = 0;
        while self.host.pending_wakeups.len() > 0
            invariant
                self.outside == old(self).outside,
                wakeups == old(self).host.pending_wakeups@,
                0 <= j <= wakeups.len(),
                self.host.pending_wakeups@ == wakeups.subrange(j, wakeups.len() as int),
                self.host.pending_spawns@.len() == 0,
                self.host.tasks == old(self).host.tasks,
                self.host.channels == old(self).host.channels,
                self.host.current == old(self).host.current,
                self.host.together_groups == old(self).host.together_groups,
                self.host.active_together == old(self).host.active_together,
                self.host.timeouts == old(self).host.timeouts,
                self.host.completed_sends == old(self).host.completed_sends,
                self.machines@ == old(self).machines@ + made,
                self.runnable@ == gathered + wakeups.subrange(0, j),
            decreases self.host.pending_wakeups.len(),
        {
            let woken = self.host.pending_wakeups.remove(0);
            proof {
                assert(wakeups[j] == woken);
                assert(self.host.pending_wakeups@ =~= wakeups.subrange(j + 1, wakeups.len() as int));
            }
            self.runnable.push(woken);
            proof {
                assert(wakeups.subrange(0, j + 1) =~= wakeups.subrange(0, j).push(woken));
                j = j + 1;
            }
        }
        proof { assert(wakeups.subrange(0, j) =~= wakeups); }
    }

    /// One turn: fire the timeouts that are due by `now` (milliseconds on
    /// the scheduler's clock), then run the next runnable task for its
    /// slice and settle what it came to.
    pub fn turn(&mut self, world: &mut World, now: u64) -> (r: Turn)
        ensures
            final(world).program == old(world).program,
            r is Outside ==> final(self).outside is Some,
            old(self).outside is Some ==> (r matches Turn::Failed(e) && e.fault is Confused) && *final(self) == *old(self),
            old(self).outside is None && old(self).runnable@.len() == 0 && old(self).host.timeouts@.len() == 0
                ==> (r matches Turn::Failed(e) && e.fault is Deadlock),
            old(self).outside is None && old(self).runnable@.len() == 0 && old(self).host.timeouts@.len() > 0
                && (forall|k: int| 0 <= k < old(self).host.timeouts@.len() ==> (#[trigger] old(self).host.timeouts@[k]).at > now)
                ==> r is Sleep,
            r is Sleep ==> final(self).runnable@.len() == 0 && final(self).host.timeouts@.len() > 0,
            old(self).outside is None && old(self).runnable@.len() > 0
                && (forall|k: int| 0 <= k < old(self).host.timeouts@.len() ==> (#[trigger] old(self).host.timeouts@[k]).at > now)
                ==> ({
                    let t = old(self).runnable@[0];
                    if runs(*old(self), t) {
                        &&& final(self).host.current == t
                        &&& !(r is Sleep)
                        &&& r is Outside ==> final(self).outside == Some(t)
                        &&& r is Finished ==> t == 0 && final(self).machines@[0].frame_count() == 0
                        &&& r is Failed ==> t == 0
                        &&& (r is Busy && t < final(self).host.tasks@.len()) ==> (
                            (final(self).host.tasks@[t as int].state == TaskLife::Runnable
                                && final(self).runnable@.len() > 0 && final(self).runnable@.last() == t)
                            || (final(self).host.tasks@[t as int].state == TaskLife::Parked
                                && final(self).host.tasks@[t as int].waiting is Some)
                            || (t != 0 && final(self).host.tasks@[t as int].outcome is Some))
                    } else {
                        r is Busy && final(self).runnable@ == old(self).runnable@.drop_first()
                            && final(self).host.tasks == old(self).host.tasks && final(self).machines == old(self).machines
                    }
                }),
            old(self).outside is None && old(self).runnable@.len() > 0
                && (forall|k: int| 0 <= k < old(self).host.timeouts@.len() ==> (#[trigger] old(self).host.timeouts@[k]).at > now)
                && runs(*old(self), old(self).runnable@[0])
                ==> exists|h: Host, step: Step, m1: Machine, h1: Host, mid: Scheduler|
                    #[trigger] turned(*old(self), *old(world), old(self).runnable@[0], h, step, m1, h1, mid,
                        *final(self), *final(world), r),
    {
        let ghost none_due = forall|k: int| 0 <= k < old(self).host.timeouts@.len() ==> (#[trigger] old(self).host.timeouts@[k]).at > now;
        if self.outside.is_some() {
            return Turn::Failed(RuntimeError {
                fault: Fault::Confused("the scheduler was run while a task waits for an answer"),
                trace: Vec::new(),
            });
        }
        self.host.fire_timeouts(&mut self.runnable, now);
        if self.runnable.len() == 0 {
            if self.host.timeouts.len() == 0 {
                return Turn::Failed(self.host.deadlock(&self.machines, &world.program));
            }
            return Turn::Sleep;
        }
        let task = self.runnable.remove(0);
        if task >= self.host.tasks.len() || task >= self.machines.len() {
            return Turn::Busy;
        }
        if self.host.tasks[task].cancelled || self.host.tasks[task].state == TaskLife::Done {
            return Turn::Busy;
        }
        self.host.current = task;
        let mut meta = self.host.take_task(task);
        meta.state = TaskLife::Running;
        self.host.put_task(task, meta);
        proof {
            if none_due {
                assert(self.host.tasks@ =~= old(self).host.tasks@.update(task as int,
                    TaskMeta { state: TaskLife::Running, ..old(self).host.tasks@[task as int] }));
            }
        }
        let ghost h = self.host;
        let ghost w0 = *world;
        let ghost before = self.machines@;
        let mut machine = self.machines.remove(task);
        let step = machine.resume(world, &mut self.host, Budget::of(PREEMPT_AFTER), now);
        let ghost h1 = self.host;
        let ghost m1 = machine;
        let ghost stepped = step;
        self.machines.insert(task, machine);
        proof { assert(self.machines@ =~= before.update(task as int, m1)); }
        self.gather();
        let ghost mid = *self;
        if task >= self.host.tasks.len() {
            proof {
                if none_due && old(self).outside is None {
                    assert(turned(*old(self), w0, task, h, stepped, m1, h1, mid, *self, *world, Turn::Busy));
                }
            }
            return Turn::Busy;
        }
        let r = self.settle(world, task, step);
        proof {
            if none_due && old(self).outside is None {
                assert(turned(*old(self), w0, task, h, stepped, m1, h1, mid, *self, *world, r));
            }
        }
        r
    }

    /// What a turn makes of what running a task came to. A task that used up
    /// its slice goes back to the end of the queue; a parked task waits where
    /// it parked; a task that needs the outside world ends the turn with its
    /// request; a task other than the file's own that finished or failed is
    /// done with that outcome, and those waiting for it are woken. The file's
    /// own task finishing or failing ends the program.
    #[verifier::rlimit(100)]
    #[verifier::spinoff_prover]
    pub fn settle(&mut self, world: &World, task: usize, step: Step) -> (r: Turn)
        requires
            task < old(self).host.tasks@.len(),
        ensures
            settles(*old(self), *final(self), task, step, r),
    {
        match step {
            Step::Yielded => {
                let mut meta = self.host.take_task(task);
                meta.state = TaskLife::Runnable;
                self.host.put_task(task, meta);
                self.runnable.push(task);
                assert(self.host.tasks@ =~= old(self).host.tasks@.update(task as int,
                    TaskMeta { state: TaskLife::Runnable, ..old(self).host.tasks@[task as int] }));
                Turn::Busy
            },
            Step::Parked(site) => {
                self.host.register_wait(task, &site);
                let mut meta = self.host.take_task(task);
                meta.state = TaskLife::Parked;
                meta.waiting = Some(site);
                self.host.put_task(task, meta);
                assert(self.host.tasks@ =~= old(self).host.tasks@.update(task as int,
                    TaskMeta { state: TaskLife::Parked, waiting: Some(site), ..old(self).host.tasks@[task as int] }));
                Turn::Busy
            },
            Step::Outside(request) => {
                self.outside = Some(task);
                Turn::Outside(request)
            },
            Step::Finished(value) => {
                if task == 0 {
                    return Turn::Finished(value);
                }
                let mut meta = self.host.take_task(task);
                meta.state = TaskLife::Done;
                meta.outcome = Some(Ok(value));
                self.host.put_task(task, meta);
                let ghost done = self.host.tasks@;
                assert(done =~= old(self).host.tasks@.update(task as int, TaskMeta {
                    state: TaskLife::Done,
                    outcome: Some(Ok(value)),
                    ..old(self).host.tasks@[task as int]
                }));
                self.runnable = without_task(&self.runnable, task);
                self.host.wake_task_waiters(task, &mut self.runnable);
                let ghost woken = self.runnable@;
                self.host.finish_together_task(task, &mut self.runnable);
                assert(self.runnable@.subrange(0, woken.len() as int) =~= woken);
                Turn::Busy
            },
            Step::Failed(error) => {
                let error = *error;
                if task == 0 {
                    return Turn::Failed(error);
                }
                let kept = crate::error::copy_error(&error);
                let ghost kept_v = kept;
                let ghost cur = self.host.current;
                let ghost machines0 = self.machines;
                let ghost outside0 = self.outside;
                let ghost ntasks = self.host.tasks@.len();
                let ghost t0 = self.host.tasks@;
                let ghost w = task_waiters(t0, task, ntasks as int);
                let mut meta = self.host.take_task(task);
                meta.state = TaskLife::Done;
                meta.outcome = Some(Err(kept));
                let together = meta.together;
                self.host.put_task(task, meta);
                proof {
                    lemma_task_waiters_same(t0, self.host.tasks@, task, ntasks as int);
                    lemma_task_waiters_below(t0, task, ntasks as int);
                }
                let ghost queued = self.runnable@;
                self.host.wake_task_waiters(task, &mut self.runnable);
                let ghost t1 = self.host.tasks@;
                proof {
                    assert forall|k: int| 0 <= k < w.len() implies self.runnable@.contains(#[trigger] w[k]) by {
                        assert(self.runnable@[queued.len() + k] == w[k]);
                    }
                    assert forall|v: int| 0 <= v < ntasks && v != task implies #[trigger] t1[v].outcome == t0[v].outcome by {}
                }
                match together {
                    Some(group) => {
                        if group < self.host.together_groups.len() {
                            let mut entry = self.host.together_groups.remove(group);
                            if entry.failed.is_none() {
                                entry.failed = Some(crate::error::copy_error(&error));
                            }
                            let victims = copy_tasks(&entry.tasks);
                            self.host.together_groups.insert(group, entry);
                            let mut k: usize = 0;
                            while k < victims.len()
                                invariant
                                    self.host.current == cur,
                                    self.host.tasks@.len() == ntasks,
                                    task < ntasks,
                                    self.host.tasks@[task as int].outcome == Some(Err::<Value, RuntimeError>(kept_v)),
                                    self.machines == machines0,
                                    self.outside == outside0,
                                    forall|i: int| 0 <= i < w.len() ==> #[trigger] w[i] < ntasks,
                                    forall|i: int| 0 <= i < w.len() ==> self.runnable@.contains(#[trigger] w[i])
                                        || self.host.tasks@[w[i] as int].cancelled,
                                    forall|v: int| 0 <= v < ntasks && v != task && t1[v].outcome is None
                                        && (#[trigger] self.host.tasks@[v]).outcome is Some ==> self.host.tasks@[v].cancelled,
                                    forall|j: int| 0 <= j < k ==> {
                                        let v = #[trigger] victims@[j];
                                        (v != 0 && v < ntasks) ==> (self.host.tasks@[v as int].outcome is Some
                                            && ((v != task && t1[v as int].outcome is None) ==> self.host.tasks@[v as int].cancelled))
                                    },
                                decreases victims.len() - k,
                            {
                                let victim = victims[k];
                                if victim != 0 {
                                    let trace = if victim < self.machines.len() {
                                        self.machines[victim].trace(&world.program)
                                    } else {
                                        Vec::new()
                                    };
                                    let ghost r0 = self.runnable@;
                                    let ghost before = self.host.tasks@;
                                    self.host.cancel_task(victim, &mut self.runnable, trace);
                                    proof {
                                        r0.filter_lemma(|t: usize| t != victim);
                                        assert forall|i: int| 0 <= i < w.len() implies self.runnable@.contains(#[trigger] w[i])
                                            || self.host.tasks@[w[i] as int].cancelled by {
                                            if victim < ntasks && before[victim as int].outcome is Some {
                                            } else if r0.contains(w[i]) && w[i] != victim {
                                                let m = choose|m: int| 0 <= m < r0.len() && r0[m] == w[i];
                                                assert(other_tasks(r0, victim).contains(r0[m]));
                                                let f = other_tasks(r0, victim);
                                                let m2 = choose|m2: int| 0 <= m2 < f.len() && f[m2] == w[i];
                                                assert(self.runnable@[m2] == w[i]);
                                            }
                                        }
                                    }
                                }
                                k = k + 1;
                            }
                            proof {
                                assert(victims@ == old(self).host.together_groups@[group as int].tasks@);
                            }
                        }
                    },
                    None => {},
                }
                let ghost rb = self.runnable@;
                let ghost tb = self.host.tasks@;
                self.host.finish_together_task(task, &mut self.runnable);
                proof {
                    assert forall|i: int| 0 <= i < w.len() implies self.runnable@.contains(#[trigger] w[i])
                        || self.host.tasks@[w[i] as int].cancelled by {
                        if rb.contains(w[i]) {
                            let m = choose|m: int| 0 <= m < rb.len() && rb[m] == w[i];
                            assert(self.runnable@[m] == w[i]);
                        }
                    }
                    assert forall|v: int| 0 <= v < ntasks implies
                        (#[trigger] self.host.tasks@[v]).outcome == tb[v].outcome && self.host.tasks@[v].cancelled == tb[v].cancelled by {}
                }
                Turn::Busy
            },
        }
    }
}


} // verus!

verus! {

impl Host {
    /// When the next timeout is due, if any is pending: the earliest of them.
    pub fn next_due(&self) -> (r: Option<u64>)
        ensures
            match r {
                Some(at) => (exists|k: int| 0 <= k < self.timeouts@.len() && (#[trigger] self.timeouts@[k]).at == at)
                    && forall|k: int| 0 <= k < self.timeouts@.len() ==> at <= (#[trigger] self.timeouts@[k]).at,
                None => self.timeouts@.len() == 0,
            },
    {
        if self.timeouts.len() == 0 {
            return None;
        }
        let mut best: u64 = self.timeouts[0].at;
        let mut k: usize = 1;
        while k < self.timeouts.len()
            invariant
                1 <= k <= self.timeouts@.len(),
                exists|j: int| 0 <= j < k && (#[trigger] self.timeouts@[j]).at == best,
                forall|j: int| 0 <= j < k ==> best <= (#[trigger] self.timeouts@[j]).at,
            decreases self.timeouts.len() - k,
        {
            if self.timeouts[k].at < best {
                best = self.timeouts[k].at;
            }
            k = k + 1;
        }
        Some(best)
    }
}

} // verus!
