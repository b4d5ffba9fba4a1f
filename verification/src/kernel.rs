//! A cooperative kernel for a single-core, interrupt-driven target.
//!
//! Tasks are resumable computations written as small scripts of
//! operations (`Op`): send to or receive from a bounded channel, sleep,
//! wait on an edge flag, write shared cells, or wait on the first of
//! several operations (`Op::Select`). The kernel's run loop polls each
//! task in index order; a task runs until its current operation either
//! completes or cannot proceed, in which case the task suspends and the
//! loop moves on. A suspended task resumes when its condition is
//! satisfied at a later poll; it never blocks the processor.
//!
//! Interrupt lines are registered with a handler action and start out
//! masked. Firing a line runs its handler to completion: the handler
//! performs one bounded mutation of shared state (toggle or set a flag
//! cell, store a sample, push to a channel) and its pending mark is
//! cleared before control returns, so a line never re-enters its own
//! handler. While a line is masked, a firing only marks it pending;
//! unmasking delivers the pending firing once.
//!
//! A periodic tick source models a timer interrupt: advancing time
//! fires the tick's line once per elapsed interval.
//!
//! Tie-breaking is deterministic and documented where the choice is
//! observable: the run loop polls tasks in ascending index order, a
//! receive hands its freed slot to the *lowest-indexed* blocked sender,
//! and a multi-way wait resolves to the *first listed* ready branch.
//!
//! There is no isolation boundary between tasks: on the target, a task
//! that panics is fatal to the whole process, since no supervisor
//! exists to restart it. Every operation of this kernel is verified
//! free of panics, so such a failure can only come from unverified
//! code around it.

use vstd::prelude::*;
use crate::cell::GuardedCell;
use crate::channel::Channel;

verus! {

/// Upper bound on the kernel clock; keeping `now` below it means no
/// deadline computation can overflow a 64-bit counter.
pub const TIME_BOUND: u64 = 0x8000_0000_0000_0000;

#[derive(Clone, Copy, PartialEq, Eq, Structural, Debug)]
pub enum Status {
    Ready,
    Blocked,
    Done,
}

/// One branch of a multi-way wait.
#[derive(Clone, Copy, PartialEq, Eq, Structural, Debug)]
pub enum WaitOp {
    /// Ready when the channel holds a message; completing it receives.
    Recv(usize),
    /// Ready when this much time has passed since the task suspended.
    Elapsed(u64),
    /// Ready when the flag cell holds `true`; completing it clears the
    /// flag, like acknowledging an edge detection.
    Flag(usize),
}

/// One operation of a task script; each is a suspension point or an
/// immediate step.
pub enum Op {
    /// Enqueue the message; suspends while the channel is full.
    Send(usize, u32),
    /// Dequeue the oldest message; suspends while the channel is empty.
    Recv(usize),
    /// Suspend for this many ticks of the kernel clock.
    Sleep(u64),
    /// Suspend until the flag cell holds `true`, then clear it.
    WaitFlag(usize),
    /// Write the flag cell; never suspends.
    SetFlag(usize, bool),
    /// Toggle the flag cell if it is populated, else skip; never
    /// suspends.
    ToggleFlag(usize),
    /// Suspend until the first of the listed branches is ready; the
    /// first listed ready branch wins and the others are left as they
    /// were.
    Select(Vec<WaitOp>),
}

pub struct Task {
    pub program: Vec<Op>,
    pub pc: usize,
    pub status: Status,
    /// Kernel time at which the task last suspended.
    pub blocked_since: u64,
    /// Every message the task has received, oldest first.
    pub received: Vec<u32>,
    /// For each completed multi-way wait, the index of the winning
    /// branch.
    pub winners: Vec<usize>,
}

/// The bounded mutation an interrupt handler performs on shared state.
#[derive(Clone, Copy, PartialEq, Eq, Structural, Debug)]
pub enum HandlerAction {
    /// Toggle a flag cell if it is populated; an unpopulated cell is a
    /// valid start-up state and the action is skipped.
    ToggleFlag(usize),
    /// Write a flag cell.
    SetFlag(usize, bool),
    /// Store the firing's payload into a sample cell.
    StoreSample(usize),
    /// Push the firing's payload into a channel; a handler never
    /// blocks, so the message is dropped when the channel is full.
    PushChannel(usize),
}

pub struct IrqLine {
    pub action: HandlerAction,
    pub masked: bool,
    /// A firing that arrived while the line was masked, with its
    /// payload; a later firing overwrites an earlier one, as a
    /// hardware pending bit would.
    pub pending: Option<u32>,
}

/// A periodic timer: fires `irq` once per `interval` clock ticks.
#[derive(Clone, Copy)]
pub struct Tick {
    pub irq: usize,
    pub interval: u64,
    pub next_fire: u64,
}

pub struct Kernel {
    pub now: u64,
    pub tasks: Vec<Task>,
    pub channels: Vec<Channel<u32>>,
    pub flags: Vec<GuardedCell<bool>>,
    pub cells: Vec<GuardedCell<u32>>,
    pub irqs: Vec<IrqLine>,
    pub tick: Option<Tick>,
}

pub open spec fn wait_valid(w: WaitOp, nchan: int, nflag: int) -> bool {
    match w {
        WaitOp::Recv(c) => c < nchan,
        WaitOp::Elapsed(_) => true,
        WaitOp::Flag(f) => f < nflag,
    }
}

pub open spec fn op_valid(op: Op, nchan: int, nflag: int) -> bool {
    match op {
        Op::Send(c, _) => c < nchan,
        Op::Recv(c) => c < nchan,
        Op::Sleep(_) => true,
        Op::WaitFlag(f) => f < nflag,
        Op::SetFlag(f, _) => f < nflag,
        Op::ToggleFlag(f) => f < nflag,
        Op::Select(ws) => forall|b: int|
            0 <= b < ws@.len() ==> wait_valid(#[trigger] ws@[b], nchan, nflag),
    }
}

pub open spec fn program_valid(p: Seq<Op>, nchan: int, nflag: int) -> bool {
    forall|j: int| 0 <= j < p.len() ==> op_valid(#[trigger] p[j], nchan, nflag)
}

pub open spec fn action_valid(a: HandlerAction, nchan: int, nflag: int, ncell: int) -> bool {
    match a {
        HandlerAction::ToggleFlag(f) => f < nflag,
        HandlerAction::SetFlag(f, _) => f < nflag,
        HandlerAction::StoreSample(s) => s < ncell,
        HandlerAction::PushChannel(c) => c < nchan,
    }
}

pub open spec fn task_wf(t: Task, nchan: int, nflag: int, now: u64) -> bool {
    &&& t.pc <= t.program@.len()
    &&& (t.status == Status::Done <==> t.pc == t.program@.len())
    &&& t.blocked_since <= now
    &&& program_valid(t.program@, nchan, nflag)
}

impl Kernel {
    pub open spec fn nchan(&self) -> int {
        self.channels@.len() as int
    }

    pub open spec fn nflag(&self) -> int {
        self.flags@.len() as int
    }

    pub open spec fn ncell(&self) -> int {
        self.cells@.len() as int
    }

    pub open spec fn wf(&self) -> bool {
        &&& self.now < TIME_BOUND
        &&& forall|i: int|
            0 <= i < self.channels@.len() ==> (#[trigger] self.channels@[i]).wf()
        &&& forall|i: int|
            0 <= i < self.tasks@.len() ==> task_wf(
                #[trigger] self.tasks@[i],
                self.nchan(),
                self.nflag(),
                self.now,
            )
        &&& forall|i: int|
            0 <= i < self.irqs@.len() ==> action_valid(
                (#[trigger] self.irqs@[i]).action,
                self.nchan(),
                self.nflag(),
                self.ncell(),
            )
        &&& forall|i: int|
            0 <= i < self.irqs@.len() ==> (!(#[trigger] self.irqs@[i]).masked ==> self.irqs@[
                i
            ].pending is None)
        &&& match self.tick {
            Some(t) => t.irq < self.irqs@.len() && 1 <= t.interval < TIME_BOUND,
            None => true,
        }
    }

    /// An idle kernel: no tasks, channels, cells, interrupt lines or
    /// tick source, with the clock at zero.
    pub fn new() -> (k: Kernel)
        ensures
            k.wf(),
            k.now == 0,
            k.tasks@.len() == 0,
            k.channels@.len() == 0,
            k.flags@.len() == 0,
            k.cells@.len() == 0,
            k.irqs@.len() == 0,
            k.tick is None,
    {
        Kernel {
            now: 0,
            tasks: Vec::new(),
            channels: Vec::new(),
            flags: Vec::new(),
            cells: Vec::new(),
            irqs: Vec::new(),
            tick: None,
        }
    }

    /// Create a bounded channel with `cap` slots and return its id.
    pub fn add_channel(&mut self, cap: usize) -> (id: usize)
        requires
            old(self).wf(),
            cap >= 1,
        ensures
            final(self).wf(),
            id == old(self).channels@.len(),
            final(self).channels@.len() == old(self).channels@.len() + 1,
            forall|j: int|
                0 <= j < old(self).channels@.len() ==> final(self).channels@[j] == old(
                    self,
                ).channels@[j],
            final(self).channels@[id as int].cap == cap,
            final(self).channels@[id as int].queue@ == Seq::<u32>::empty(),
            final(self).channels@[id as int].sent@ == Seq::<u32>::empty(),
            final(self).channels@[id as int].taken@ == Seq::<u32>::empty(),
            final(self).now == old(self).now,
            final(self).tasks == old(self).tasks,
            final(self).flags == old(self).flags,
            final(self).cells == old(self).cells,
            final(self).irqs == old(self).irqs,
            final(self).tick == old(self).tick,
    {
        let id = self.channels.len();
        self.channels.push(Channel::new(cap));
        id
    }

    /// Create a flag cell, empty or pre-populated, and return its id.
    pub fn add_flag(&mut self, initial: Option<bool>) -> (id: usize)
        requires
            old(self).wf(),
        ensures
            final(self).wf(),
            id == old(self).flags@.len(),
            final(self).flags@.len() == old(self).flags@.len() + 1,
            forall|j: int|
                0 <= j < old(self).flags@.len() ==> final(self).flags@[j] == old(self).flags@[j],
            final(self).flags@[id as int]@ == initial,
            final(self).now == old(self).now,
            final(self).tasks == old(self).tasks,
            final(self).channels == old(self).channels,
            final(self).cells == old(self).cells,
            final(self).irqs == old(self).irqs,
            final(self).tick == old(self).tick,
    {
        let id = self.flags.len();
        match initial {
            Some(b) => self.flags.push(GuardedCell::with_value(b)),
            None => self.flags.push(GuardedCell::empty()),
        }
        id
    }

    /// Create a sample cell, empty or pre-populated, and return its id.
    pub fn add_cell(&mut self, initial: Option<u32>) -> (id: usize)
        requires
            old(self).wf(),
        ensures
            final(self).wf(),
            id == old(self).cells@.len(),
            final(self).cells@.len() == old(self).cells@.len() + 1,
            forall|j: int|
                0 <= j < old(self).cells@.len() ==> final(self).cells@[j] == old(self).cells@[j],
            final(self).cells@[id as int]@ == initial,
            final(self).now == old(self).now,
            final(self).tasks == old(self).tasks,
            final(self).channels == old(self).channels,
            final(self).flags == old(self).flags,
            final(self).irqs == old(self).irqs,
            final(self).tick == old(self).tick,
    {
        let id = self.cells.len();
        match initial {
            Some(v) => self.cells.push(GuardedCell::with_value(v)),
            None => self.cells.push(GuardedCell::empty()),
        }
        id
    }

    /// Spawn a task running `program` from its first operation and
    /// return its id. A task with an empty script is already complete.
    pub fn spawn(&mut self, program: Vec<Op>) -> (id: usize)
        requires
            old(self).wf(),
            program_valid(program@, old(self).nchan(), old(self).nflag()),
        ensures
            final(self).wf(),
            id == old(self).tasks@.len(),
            final(self).tasks@.len() == old(self).tasks@.len() + 1,
            forall|j: int|
                0 <= j < old(self).tasks@.len() ==> final(self).tasks@[j] == old(self).tasks@[j],
            final(self).tasks@[id as int].program == program,
            final(self).tasks@[id as int].pc == 0,
            final(self).tasks@[id as int].status == (if program@.len() == 0 {
                Status::Done
            } else {
                Status::Ready
            }),
            final(self).tasks@[id as int].received@ == Seq::<u32>::empty(),
            final(self).tasks@[id as int].winners@ == Seq::<usize>::empty(),
            final(self).now == old(self).now,
            final(self).channels == old(self).channels,
            final(self).flags == old(self).flags,
            final(self).cells == old(self).cells,
            final(self).irqs == old(self).irqs,
            final(self).tick == old(self).tick,
    {
        let id = self.tasks.len();
        let status = if program.len() == 0 {
            Status::Done
        } else {
            Status::Ready
        };
        let now = self.now;
        self.tasks.push(
            Task {
                program,
                pc: 0,
                status,
                blocked_since: now,
                received: Vec::new(),
                winners: Vec::new(),
            },
        );
        id
    }

    /// Register an interrupt line with its handler action. The line
    /// starts out masked, as hardware lines do until start-up code
    /// unmasks them.
    pub fn register_irq(&mut self, action: HandlerAction) -> (id: usize)
        requires
            old(self).wf(),
            action_valid(action, old(self).nchan(), old(self).nflag(), old(self).ncell()),
        ensures
            final(self).wf(),
            id == old(self).irqs@.len(),
            final(self).irqs@.len() == old(self).irqs@.len() + 1,
            forall|j: int|
                0 <= j < old(self).irqs@.len() ==> final(self).irqs@[j] == old(self).irqs@[j],
            final(self).irqs@[id as int].action == action,
            final(self).irqs@[id as int].masked == true,
            final(self).irqs@[id as int].pending is None,
            final(self).now == old(self).now,
            final(self).tasks == old(self).tasks,
            final(self).channels == old(self).channels,
            final(self).flags == old(self).flags,
            final(self).cells == old(self).cells,
            final(self).tick == old(self).tick,
    {
        let id = self.irqs.len();
        self.irqs.push(IrqLine { action, masked: true, pending: None });
        id
    }
}

/// What toggling does to a flag cell: an unpopulated cell stays
/// unpopulated, a populated one holds the negated value.
pub open spec fn flag_toggle(s: Option<bool>) -> Option<bool> {
    match s {
        Some(b) => Some(!b),
        None => None,
    }
}

/// How one handler run with `payload` relates the shared state after
/// (`post`) to the state before (`pre`): exactly the handler's one
/// bounded mutation, and nothing else. The clock, the tasks, the
/// interrupt lines and the tick source are untouched.
pub open spec fn dispatch_rel(pre: Kernel, post: Kernel, action: HandlerAction, payload: u32) -> bool {
    &&& post.now == pre.now
    &&& post.tasks == pre.tasks
    &&& post.irqs == pre.irqs
    &&& post.tick == pre.tick
    &&& post.channels@.len() == pre.channels@.len()
    &&& post.flags@.len() == pre.flags@.len()
    &&& post.cells@.len() == pre.cells@.len()
    &&& match action {
        HandlerAction::ToggleFlag(f) => {
            &&& post.flags@[f as int]@ == flag_toggle(pre.flags@[f as int]@)
            &&& forall|j: int|
                0 <= j < pre.flags@.len() && j != f ==> post.flags@[j] == pre.flags@[j]
            &&& post.cells == pre.cells
            &&& post.channels == pre.channels
        },
        HandlerAction::SetFlag(f, b) => {
            &&& post.flags@[f as int]@ == Some(b)
            &&& forall|j: int|
                0 <= j < pre.flags@.len() && j != f ==> post.flags@[j] == pre.flags@[j]
            &&& post.cells == pre.cells
            &&& post.channels == pre.channels
        },
        HandlerAction::StoreSample(s) => {
            &&& post.cells@[s as int]@ == Some(payload)
            &&& forall|j: int|
                0 <= j < pre.cells@.len() && j != s ==> post.cells@[j] == pre.cells@[j]
            &&& post.flags == pre.flags
            &&& post.channels == pre.channels
        },
        HandlerAction::PushChannel(c) => {
            &&& if pre.channels@[c as int].spec_len() < pre.channels@[c as int].cap {
                &&& post.channels@[c as int].queue@ == pre.channels@[c as int].queue@.push(payload)
                &&& post.channels@[c as int].sent@ == pre.channels@[c as int].sent@.push(payload)
                &&& post.channels@[c as int].taken@ == pre.channels@[c as int].taken@
                &&& post.channels@[c as int].cap == pre.channels@[c as int].cap
            } else {
                post.channels@[c as int] == pre.channels@[c as int]
            }
            &&& forall|j: int|
                0 <= j < pre.channels@.len() && j != c ==> post.channels@[j] == pre.channels@[j]
            &&& post.flags == pre.flags
            &&& post.cells == pre.cells
        },
    }
}

impl Kernel {
    /// Run one handler action to completion. A handler acquires the
    /// cell or channel it needs, performs its one mutation, and never
    /// blocks: a push into a full channel drops the message.
    fn dispatch(&mut self, action: HandlerAction, payload: u32)
        requires
            old(self).wf(),
            action_valid(action, old(self).nchan(), old(self).nflag(), old(self).ncell()),
        ensures
            final(self).wf(),
            dispatch_rel(*old(self), *final(self), action, payload),
    {
        match action {
            HandlerAction::ToggleFlag(f) => {
                let prev = self.flags[f].take();
                if let Some(b) = prev {
                    let _ = self.flags[f].replace(!b);
                }
            },
            HandlerAction::SetFlag(f, b) => {
                let _ = self.flags[f].replace(b);
            },
            HandlerAction::StoreSample(s) => {
                let _ = self.cells[s].replace(payload);
            },
            HandlerAction::PushChannel(c) => {
                let _ = self.channels[c].try_send(payload);
            },
        }
    }

    /// Deliver a firing of interrupt line `irq` carrying `payload`.
    /// On an unmasked line the handler runs to completion and the
    /// line's pending mark is clear on return, so the handler is never
    /// immediately re-entered. On a masked line the firing is only
    /// recorded as pending, a later firing overwriting an earlier one.
    pub fn fire_irq(&mut self, irq: usize, payload: u32)
        requires
            old(self).wf(),
            irq < old(self).irqs@.len(),
        ensures
            final(self).wf(),
            old(self).irqs@[irq as int].masked ==> {
                &&& final(self).irqs@ == old(self).irqs@.update(
                    irq as int,
                    IrqLine {
                        pending: Some(payload),
                        ..old(self).irqs@[irq as int]
                    },
                )
                &&& final(self).now == old(self).now
                &&& final(self).tasks == old(self).tasks
                &&& final(self).channels == old(self).channels
                &&& final(self).flags == old(self).flags
                &&& final(self).cells == old(self).cells
                &&& final(self).tick == old(self).tick
            },
            !old(self).irqs@[irq as int].masked ==> {
                &&& dispatch_rel(*old(self), *final(self), old(self).irqs@[irq as int].action, payload)
                &&& final(self).irqs == old(self).irqs
            },
    {
        if self.irqs[irq].masked {
            self.irqs[irq].pending = Some(payload);
        } else {
            let action = self.irqs[irq].action;
            self.dispatch(action, payload);
        }
    }

    /// Unmask interrupt line `irq`. If a firing arrived while the line
    /// was masked, its handler runs now, once, and the pending mark is
    /// cleared.
    pub fn unmask(&mut self, irq: usize)
        requires
            old(self).wf(),
            irq < old(self).irqs@.len(),
        ensures
            final(self).wf(),
            final(self).irqs@ == old(self).irqs@.update(
                irq as int,
                IrqLine { masked: false, pending: None, ..old(self).irqs@[irq as int] },
            ),
            match old(self).irqs@[irq as int].pending {
                Some(p) => dispatch_rel(
                    *old(self),
                    Kernel { irqs: old(self).irqs, ..*final(self) },
                    old(self).irqs@[irq as int].action,
                    p,
                ),
                None => {
                    &&& final(self).now == old(self).now
                    &&& final(self).tasks == old(self).tasks
                    &&& final(self).channels == old(self).channels
                    &&& final(self).flags == old(self).flags
                    &&& final(self).cells == old(self).cells
                    &&& final(self).tick == old(self).tick
                },
            },
    {
        let pending = self.irqs[irq].pending;
        self.irqs[irq].masked = false;
        self.irqs[irq].pending = None;
        if let Some(p) = pending {
            let action = self.irqs[irq].action;
            self.dispatch(action, p);
        }
    }

    /// Mask interrupt line `irq`: firings are recorded but not
    /// delivered until the line is unmasked again.
    pub fn mask(&mut self, irq: usize)
        requires
            old(self).wf(),
            irq < old(self).irqs@.len(),
        ensures
            final(self).wf(),
            final(self).irqs@ == old(self).irqs@.update(
                irq as int,
                IrqLine { masked: true, ..old(self).irqs@[irq as int] },
            ),
            final(self).now == old(self).now,
            final(self).tasks == old(self).tasks,
            final(self).channels == old(self).channels,
            final(self).flags == old(self).flags,
            final(self).cells == old(self).cells,
            final(self).tick == old(self).tick,
    {
        self.irqs[irq].masked = true;
    }

    /// Configure the periodic tick source: interrupt line `irq` fires
    /// every `interval` clock ticks, the first time `delay` ticks from
    /// now.
    pub fn set_tick(&mut self, irq: usize, interval: u64, delay: u64)
        requires
            old(self).wf(),
            irq < old(self).irqs@.len(),
            1 <= interval < TIME_BOUND,
            delay < TIME_BOUND,
        ensures
            final(self).wf(),
            final(self).tick == Some(
                Tick { irq, interval, next_fire: (old(self).now + delay) as u64 },
            ),
            final(self).now == old(self).now,
            final(self).tasks == old(self).tasks,
            final(self).channels == old(self).channels,
            final(self).flags == old(self).flags,
            final(self).cells == old(self).cells,
            final(self).irqs == old(self).irqs,
    {
        let next_fire = self.now + delay;
        self.tick = Some(Tick { irq, interval, next_fire });
    }
}

/// Whether one branch of a multi-way wait is ready in kernel state
/// `k`, for a task that suspended at time `bs`.
pub open spec fn wait_ready(k: Kernel, w: WaitOp, bs: u64) -> bool {
    match w {
        WaitOp::Recv(c) => k.channels@[c as int].spec_len() > 0,
        WaitOp::Elapsed(d) => k.now - bs >= d,
        WaitOp::Flag(f) => k.flags@[f as int]@ == Some(true),
    }
}

/// The first listed ready branch at or after `from`, if any. This is
/// the tie-break rule of a multi-way wait: when several branches are
/// ready in the same pass, the first listed one wins.
pub open spec fn first_ready(k: Kernel, ws: Seq<WaitOp>, bs: u64, from: int) -> Option<int>
    decreases ws.len() - from,
{
    if from < 0 || from >= ws.len() {
        None
    } else if wait_ready(k, ws[from], bs) {
        Some(from)
    } else {
        first_ready(k, ws, bs, from + 1)
    }
}

/// What a resolved multi-way wait means: the winning branch is ready,
/// and no branch listed before it is — the first listed ready branch
/// always wins.
pub proof fn lemma_first_ready_some(k: Kernel, ws: Seq<WaitOp>, bs: u64, from: int, b: int)
    requires
        first_ready(k, ws, bs, from) == Some(b),
    ensures
        from <= b < ws.len(),
        wait_ready(k, ws[b], bs),
        forall|m: int| from <= m < b ==> !wait_ready(k, ws[m], bs),
    decreases ws.len() - from,
{
    if from < 0 || from >= ws.len() {
    } else if wait_ready(k, ws[from], bs) {
    } else {
        lemma_first_ready_some(k, ws, bs, from + 1, b);
    }
}

/// A task suspended on sending into channel `c`.
pub open spec fn task_waiting_send(t: Task, c: int) -> bool {
    &&& t.status == Status::Blocked
    &&& t.pc < t.program@.len()
    &&& match t.program@[t.pc as int] {
        Op::Send(c2, _) => c2 == c,
        _ => false,
    }
}

/// The message a task suspended on a send is waiting to enqueue.
pub open spec fn blocked_send_msg(t: Task) -> u32 {
    match t.program@[t.pc as int] {
        Op::Send(_, v) => v,
        _ => 0,
    }
}

/// The lowest-indexed task (other than `skip`, at or after `from`)
/// suspended on sending into channel `c`. This is the tie-break rule
/// for waking senders: a receive hands its freed slot to the
/// lowest-indexed blocked sender.
pub open spec fn find_blocked_sender_spec(k: Kernel, c: int, skip: int, from: int) -> Option<int>
    decreases k.tasks@.len() - from,
{
    if from < 0 || from >= k.tasks@.len() {
        None
    } else if from != skip && task_waiting_send(k.tasks@[from], c) {
        Some(from)
    } else {
        find_blocked_sender_spec(k, c, skip, from + 1)
    }
}

/// What a found sender means: it is a task suspended on sending into
/// the channel, and no lower-indexed task (other than the receiver)
/// is — the lowest-indexed blocked sender is woken first.
pub proof fn lemma_find_sender_some(k: Kernel, c: int, skip: int, from: int, j: int)
    requires
        find_blocked_sender_spec(k, c, skip, from) == Some(j),
    ensures
        from <= j < k.tasks@.len(),
        j != skip,
        task_waiting_send(k.tasks@[j], c),
        forall|m: int|
            from <= m < j && m != skip ==> !task_waiting_send(#[trigger] k.tasks@[m], c),
    decreases k.tasks@.len() - from,
{
    if from < 0 || from >= k.tasks@.len() {
    } else if from != skip && task_waiting_send(k.tasks@[from], c) {
    } else {
        lemma_find_sender_some(k, c, skip, from + 1, j);
    }
}

/// Frames that every poll step keeps: the clock, the interrupt lines,
/// the tick source, the sample cells, and every collection's length.
pub open spec fn step_common(pre: Kernel, post: Kernel) -> bool {
    &&& post.now == pre.now
    &&& post.irqs == pre.irqs
    &&& post.tick == pre.tick
    &&& post.cells == pre.cells
    &&& post.tasks@.len() == pre.tasks@.len()
    &&& post.channels@.len() == pre.channels@.len()
    &&& post.flags@.len() == pre.flags@.len()
}

/// Control-flow fields of a task after its current operation
/// completed: the script is unchanged, the program counter moved one
/// step, and the task is done exactly when the script is exhausted.
pub open spec fn completed_task(t: Task, u: Task) -> bool {
    &&& u.program == t.program
    &&& u.pc == t.pc + 1
    &&& u.status == (if t.pc + 1 == t.program@.len() {
        Status::Done
    } else {
        Status::Ready
    })
    &&& u.blocked_since == t.blocked_since
}

pub open spec fn logs_unchanged(t: Task, u: Task) -> bool {
    &&& u.received == t.received
    &&& u.winners == t.winners
}

/// The winners log after a poll step: unchanged, or extended with the
/// index of the branch that won a multi-way wait.
pub open spec fn winners_after(t: Task, u: Task, w: Option<int>) -> bool {
    match w {
        None => u.winners == t.winners,
        Some(b) => u.winners@ == t.winners@.push(b as usize),
    }
}

pub open spec fn tasks_unchanged_except(pre: Kernel, post: Kernel, i: int) -> bool {
    forall|j: int|
        0 <= j < pre.tasks@.len() && j != i ==> post.tasks@[j] == pre.tasks@[j]
}

pub open spec fn tasks_unchanged_except_2(pre: Kernel, post: Kernel, i: int, j: int) -> bool {
    forall|m: int|
        0 <= m < pre.tasks@.len() && m != i && m != j ==> post.tasks@[m] == pre.tasks@[m]
}

pub open spec fn chans_unchanged_except(pre: Kernel, post: Kernel, c: int) -> bool {
    forall|j: int|
        0 <= j < pre.channels@.len() && j != c ==> post.channels@[j] == pre.channels@[j]
}

pub open spec fn flags_unchanged_except(pre: Kernel, post: Kernel, f: int) -> bool {
    forall|j: int|
        0 <= j < pre.flags@.len() && j != f ==> post.flags@[j] == pre.flags@[j]
}

/// The task suspends: a running task blocks and records the time, an
/// already suspended task (whose condition is still unsatisfied) is
/// left exactly as it was.
pub open spec fn suspend_rel(pre: Kernel, post: Kernel, i: int) -> bool {
    if pre.tasks@[i].status == Status::Ready {
        &&& step_common(pre, post)
        &&& tasks_unchanged_except(pre, post, i)
        &&& post.tasks@[i] == Task {
            status: Status::Blocked,
            blocked_since: pre.now,
            ..pre.tasks@[i]
        }
        &&& post.channels == pre.channels
        &&& post.flags == pre.flags
    } else {
        post == pre
    }
}

/// The current operation completes without touching any shared state.
pub open spec fn quiet_complete_rel(pre: Kernel, post: Kernel, i: int, winner: Option<int>) -> bool {
    &&& step_common(pre, post)
    &&& tasks_unchanged_except(pre, post, i)
    &&& completed_task(pre.tasks@[i], post.tasks@[i])
    &&& post.tasks@[i].received == pre.tasks@[i].received
    &&& winners_after(pre.tasks@[i], post.tasks@[i], winner)
    &&& post.channels == pre.channels
    &&& post.flags == pre.flags
}

/// The current operation completes and writes flag cell `f`.
pub open spec fn flag_complete_rel(
    pre: Kernel,
    post: Kernel,
    i: int,
    f: int,
    newval: Option<bool>,
    winner: Option<int>,
) -> bool {
    &&& step_common(pre, post)
    &&& tasks_unchanged_except(pre, post, i)
    &&& completed_task(pre.tasks@[i], post.tasks@[i])
    &&& post.tasks@[i].received == pre.tasks@[i].received
    &&& winners_after(pre.tasks@[i], post.tasks@[i], winner)
    &&& post.channels == pre.channels
    &&& post.flags@[f]@ == newval
    &&& flags_unchanged_except(pre, post, f)
}

/// A send completes: the message enters channel `c` and the sender
/// moves on.
pub open spec fn send_complete_rel(pre: Kernel, post: Kernel, i: int, c: int, v: u32) -> bool {
    &&& step_common(pre, post)
    &&& tasks_unchanged_except(pre, post, i)
    &&& completed_task(pre.tasks@[i], post.tasks@[i])
    &&& logs_unchanged(pre.tasks@[i], post.tasks@[i])
    &&& post.channels@[c].queue@ == pre.channels@[c].queue@.push(v)
    &&& post.channels@[c].sent@ == pre.channels@[c].sent@.push(v)
    &&& post.channels@[c].taken@ == pre.channels@[c].taken@
    &&& post.channels@[c].cap == pre.channels@[c].cap
    &&& chans_unchanged_except(pre, post, c)
    &&& post.flags == pre.flags
}

/// A receive completes on channel `c`: the oldest message moves into
/// task `i`'s received log. If some task is suspended on sending into
/// `c`, the lowest-indexed such sender's message enters the freed slot
/// and that sender resumes within the same step — it does not wait for
/// another pass.
pub open spec fn recv_rel(pre: Kernel, post: Kernel, i: int, c: int, winner: Option<int>) -> bool {
    let ch = pre.channels@[c];
    let v = ch.queue@[0];
    &&& step_common(pre, post)
    &&& completed_task(pre.tasks@[i], post.tasks@[i])
    &&& post.tasks@[i].received@ == pre.tasks@[i].received@.push(v)
    &&& winners_after(pre.tasks@[i], post.tasks@[i], winner)
    &&& post.flags == pre.flags
    &&& chans_unchanged_except(pre, post, c)
    &&& post.channels@[c].cap == ch.cap
    &&& post.channels@[c].taken@ == ch.taken@.push(v)
    &&& match find_blocked_sender_spec(pre, c, i, 0) {
        None => {
            &&& tasks_unchanged_except(pre, post, i)
            &&& post.channels@[c].queue@ == ch.queue@.subrange(1, ch.queue@.len() as int)
            &&& post.channels@[c].sent@ == ch.sent@
        },
        Some(j) => {
            let w = blocked_send_msg(pre.tasks@[j]);
            &&& tasks_unchanged_except_2(pre, post, i, j)
            &&& completed_task(pre.tasks@[j], post.tasks@[j])
            &&& logs_unchanged(pre.tasks@[j], post.tasks@[j])
            &&& post.channels@[c].queue@ == ch.queue@.subrange(1, ch.queue@.len() as int).push(w)
            &&& post.channels@[c].sent@ == ch.sent@.push(w)
        },
    }
}

/// What `n` repeated toggles do to a flag cell.
pub open spec fn toggle_iter(s: Option<bool>, n: nat) -> Option<bool>
    decreases n,
{
    if n == 0 {
        s
    } else {
        flag_toggle(toggle_iter(s, (n - 1) as nat))
    }
}

/// Toggling is an involution, so `n` toggles leave the cell unchanged
/// when `n` is even and negate it when `n` is odd.
pub proof fn lemma_toggle_parity(s: Option<bool>, n: nat)
    ensures
        toggle_iter(s, n) == if n % 2 == 0 {
            s
        } else {
            flag_toggle(s)
        },
    decreases n,
{
    if n > 0 {
        lemma_toggle_parity(s, (n - 1) as nat);
    }
}

pub open spec fn zeros(n: nat) -> Seq<u32> {
    Seq::new(n, |i: int| 0u32)
}

/// The effect of `k` runs of one handler action, each carrying payload
/// zero — what a periodic tick does to shared state when it fires `k`
/// times. The tasks and the interrupt lines are untouched; the tick
/// source itself is accounted for separately.
pub open spec fn dispatch_n_rel(pre: Kernel, post: Kernel, action: HandlerAction, k: nat) -> bool {
    &&& post.now == pre.now
    &&& post.tasks == pre.tasks
    &&& post.channels@.len() == pre.channels@.len()
    &&& post.flags@.len() == pre.flags@.len()
    &&& post.cells@.len() == pre.cells@.len()
    &&& match action {
        HandlerAction::ToggleFlag(f) => {
            &&& post.flags@[f as int]@ == toggle_iter(pre.flags@[f as int]@, k)
            &&& flags_unchanged_except(pre, post, f as int)
            &&& post.cells == pre.cells
            &&& post.channels == pre.channels
        },
        HandlerAction::SetFlag(f, b) => {
            &&& post.flags@[f as int]@ == (if k > 0 {
                Some(b)
            } else {
                pre.flags@[f as int]@
            })
            &&& flags_unchanged_except(pre, post, f as int)
            &&& post.cells == pre.cells
            &&& post.channels == pre.channels
        },
        HandlerAction::StoreSample(s) => {
            &&& post.cells@[s as int]@ == (if k > 0 {
                Some(0u32)
            } else {
                pre.cells@[s as int]@
            })
            &&& forall|j: int|
                0 <= j < pre.cells@.len() && j != s ==> post.cells@[j] == pre.cells@[j]
            &&& post.flags == pre.flags
            &&& post.channels == pre.channels
        },
        HandlerAction::PushChannel(c) => {
            let ch = pre.channels@[c as int];
            let space = ch.cap - ch.spec_len();
            let m: int = if k <= space {
                k as int
            } else {
                space
            };
            &&& post.channels@[c as int].queue@ == ch.queue@ + zeros(m as nat)
            &&& post.channels@[c as int].sent@ == ch.sent@ + zeros(m as nat)
            &&& post.channels@[c as int].taken@ == ch.taken@
            &&& post.channels@[c as int].cap == ch.cap
            &&& chans_unchanged_except(pre, post, c as int)
            &&& post.flags == pre.flags
            &&& post.cells == pre.cells
        },
    }
}

/// Composing one more handler run onto `k` previous ones gives the
/// `k + 1`-fold effect.
proof fn lemma_dispatch_n_step(pre: Kernel, mid: Kernel, post: Kernel, action: HandlerAction, k: nat)
    requires
        pre.wf(),
        action_valid(action, pre.nchan(), pre.nflag(), pre.ncell()),
        dispatch_n_rel(pre, mid, action, k),
        dispatch_rel(mid, post, action, 0),
    ensures
        dispatch_n_rel(pre, post, action, k + 1),
{
    match action {
        HandlerAction::ToggleFlag(f) => {},
        HandlerAction::SetFlag(f, b) => {},
        HandlerAction::StoreSample(s) => {},
        HandlerAction::PushChannel(c) => {
            let ch = pre.channels@[c as int];
            let space = ch.cap - ch.spec_len();
            let m: int = if k <= space {
                k as int
            } else {
                space
            };
            let m2: int = if k + 1 <= space {
                k as int + 1
            } else {
                space
            };
            assert(ch.wf());
            if mid.channels@[c as int].spec_len() < mid.channels@[c as int].cap {
                assert(m == k);
                assert(m2 == m + 1);
                assert(ch.queue@ + zeros((m + 1) as nat) =~= (ch.queue@ + zeros(
                    m as nat,
                )).push(0u32));
                assert(ch.sent@ + zeros((m + 1) as nat) =~= (ch.sent@ + zeros(m as nat)).push(
                    0u32,
                ));
            } else {
                assert(m == space);
                assert(m2 == space);
            }
        },
    }
}

/// What any number of scheduler polls preserves: the clock, the
/// interrupt lines, the tick source, the sample cells, every
/// collection's length and every task's script; program counters only
/// move forward, a completed task stays exactly as it is, and the
/// received, winner and channel histories only grow.
pub open spec fn sched_frame(pre: Kernel, post: Kernel) -> bool {
    &&& post.now == pre.now
    &&& post.irqs == pre.irqs
    &&& post.tick == pre.tick
    &&& post.cells == pre.cells
    &&& post.tasks@.len() == pre.tasks@.len()
    &&& post.channels@.len() == pre.channels@.len()
    &&& post.flags@.len() == pre.flags@.len()
    &&& forall|j: int|
        0 <= j < pre.tasks@.len() ==> {
            &&& (#[trigger] post.tasks@[j]).program == pre.tasks@[j].program
            &&& post.tasks@[j].pc >= pre.tasks@[j].pc
            &&& (pre.tasks@[j].status == Status::Done ==> post.tasks@[j] == pre.tasks@[j])
            &&& pre.tasks@[j].received@.is_prefix_of(post.tasks@[j].received@)
            &&& pre.tasks@[j].winners@.is_prefix_of(post.tasks@[j].winners@)
        }
    &&& forall|c: int|
        0 <= c < pre.channels@.len() ==> {
            &&& (#[trigger] post.channels@[c]).cap == pre.channels@[c].cap
            &&& pre.channels@[c].sent@.is_prefix_of(post.channels@[c].sent@)
            &&& pre.channels@[c].taken@.is_prefix_of(post.channels@[c].taken@)
        }
}

/// One poll keeps the scheduler frame.
proof fn lemma_poll_frame(pre: Kernel, post: Kernel, i: int)
    requires
        pre.wf(),
        0 <= i < pre.tasks@.len(),
        poll_rel(pre, post, i),
    ensures
        sched_frame(pre, post),
{
    let t = pre.tasks@[i];
    if t.status != Status::Done {
        match t.program@[t.pc as int] {
            Op::Recv(c) => {
                if pre.channels@[c as int].spec_len() > 0 {
                    match find_blocked_sender_spec(pre, c as int, i, 0) {
                        Some(j2) => {
                            lemma_find_sender_some(pre, c as int, i, 0, j2);
                        },
                        None => {},
                    }
                }
            },
            Op::Select(ws) => {
                let bs = if t.status == Status::Ready {
                    pre.now
                } else {
                    t.blocked_since
                };
                match first_ready(pre, ws@, bs, 0) {
                    Some(b) => {
                        match ws@[b] {
                            WaitOp::Recv(c) => {
                                match find_blocked_sender_spec(pre, c as int, i, 0) {
                                    Some(j2) => {
                                        lemma_find_sender_some(pre, c as int, i, 0, j2);
                                    },
                                    None => {},
                                }
                            },
                            _ => {},
                        }
                    },
                    None => {},
                }
            },
            _ => {},
        }
    }
    assert forall|s: Seq<u32>, u: Seq<u32>| s == u implies #[trigger] s.is_prefix_of(u) by {
        assert(s =~= u.subrange(0, s.len() as int));
    }
    assert forall|s: Seq<usize>, u: Seq<usize>| s == u implies #[trigger] s.is_prefix_of(u) by {
        assert(s =~= u.subrange(0, s.len() as int));
    }
    assert forall|s: Seq<u32>, u: Seq<u32>, v: u32|
        #![trigger s.push(v), s.is_prefix_of(u)]
        u == s.push(v) implies s.is_prefix_of(u) by {
        assert(s =~= u.subrange(0, s.len() as int));
    }
    assert forall|s: Seq<usize>, u: Seq<usize>, v: usize|
        #![trigger s.push(v), s.is_prefix_of(u)]
        u == s.push(v) implies s.is_prefix_of(u) by {
        assert(s =~= u.subrange(0, s.len() as int));
    }
}

/// The scheduler frame is reflexive.
proof fn lemma_frame_refl(k: Kernel)
    ensures
        sched_frame(k, k),
{
    assert forall|s: Seq<u32>, u: Seq<u32>| s == u implies #[trigger] s.is_prefix_of(u) by {
        assert(s =~= u.subrange(0, s.len() as int));
    }
    assert forall|s: Seq<usize>, u: Seq<usize>| s == u implies #[trigger] s.is_prefix_of(u) by {
        assert(s =~= u.subrange(0, s.len() as int));
    }
}

/// The scheduler frame composes across successive polls.
proof fn lemma_frame_trans(a: Kernel, b: Kernel, c: Kernel)
    requires
        sched_frame(a, b),
        sched_frame(b, c),
    ensures
        sched_frame(a, c),
{
    assert(forall|x: Seq<u32>, y: Seq<u32>, z: Seq<u32>|
        #![trigger x.is_prefix_of(y), y.is_prefix_of(z)]
        x.is_prefix_of(y) && y.is_prefix_of(z) ==> x.is_prefix_of(z));
    assert(forall|x: Seq<usize>, y: Seq<usize>, z: Seq<usize>|
        #![trigger x.is_prefix_of(y), y.is_prefix_of(z)]
        x.is_prefix_of(y) && y.is_prefix_of(z) ==> x.is_prefix_of(z));
}

/// What one poll of task `i` can do to another task `j`: nothing, or
/// — when `j` was suspended on a send and `i`'s receive freed the slot
/// — complete `j`'s send.
proof fn lemma_poll_other_task(pre: Kernel, post: Kernel, i: int, j: int)
    requires
        pre.wf(),
        0 <= i < pre.tasks@.len(),
        0 <= j < pre.tasks@.len(),
        j != i,
        poll_rel(pre, post, i),
    ensures
        post.tasks@[j] == pre.tasks@[j] || (pre.tasks@[j].status == Status::Blocked
            && completed_task(pre.tasks@[j], post.tasks@[j]) && logs_unchanged(
            pre.tasks@[j],
            post.tasks@[j],
        )),
{
    let t = pre.tasks@[i];
    if t.status != Status::Done {
        match t.program@[t.pc as int] {
            Op::Recv(c) => {
                if pre.channels@[c as int].spec_len() > 0 {
                    match find_blocked_sender_spec(pre, c as int, i, 0) {
                        Some(j2) => {
                            lemma_find_sender_some(pre, c as int, i, 0, j2);
                        },
                        None => {},
                    }
                }
            },
            Op::Select(ws) => {
                let bs = if t.status == Status::Ready {
                    pre.now
                } else {
                    t.blocked_since
                };
                match first_ready(pre, ws@, bs, 0) {
                    Some(b) => {
                        match ws@[b] {
                            WaitOp::Recv(c) => {
                                match find_blocked_sender_spec(pre, c as int, i, 0) {
                                    Some(j2) => {
                                        lemma_find_sender_some(pre, c as int, i, 0, j2);
                                    },
                                    None => {},
                                }
                            },
                            _ => {},
                        }
                    },
                    None => {},
                }
            },
            _ => {},
        }
    }
}

/// A poll serves a running task: its operation either completes — the
/// program counter moves — or cannot proceed and the task suspends.
/// It is never left runnable and unserved.
proof fn lemma_poll_ready_progress(pre: Kernel, post: Kernel, i: int)
    requires
        pre.wf(),
        0 <= i < pre.tasks@.len(),
        pre.tasks@[i].status == Status::Ready,
        poll_rel(pre, post, i),
    ensures
        post.tasks@[i].pc > pre.tasks@[i].pc || post.tasks@[i].status == Status::Blocked,
{
}

/// A poll step leads from a well-formed kernel to a well-formed one.
pub proof fn lemma_poll_preserves_wf(pre: Kernel, post: Kernel, i: int)
    requires
        pre.wf(),
        0 <= i < pre.tasks@.len(),
        poll_rel(pre, post, i),
    ensures
        post.wf(),
{
    let t = pre.tasks@[i];
    if t.status != Status::Done {
        match t.program@[t.pc as int] {
            Op::Send(c, v) => {
                if pre.channels@[c as int].spec_len() < pre.channels@[c as int].cap {
                    let ch = pre.channels@[c as int];
                    assert(post.channels@[c as int].taken@ + post.channels@[c as int].queue@
                        =~= ch.sent@.push(v));
                }
            },
            Op::Recv(c) => {
                if pre.channels@[c as int].spec_len() > 0 {
                    match find_blocked_sender_spec(pre, c as int, i, 0) {
                        Some(j2) => {
                            lemma_find_sender_some(pre, c as int, i, 0, j2);
                        },
                        None => {},
                    }
                    lemma_recv_channel_wf(pre, post, i, c as int);
                }
            },
            Op::Select(ws) => {
                let bs = if t.status == Status::Ready {
                    pre.now
                } else {
                    t.blocked_since
                };
                match first_ready(pre, ws@, bs, 0) {
                    Some(b) => {
                        lemma_first_ready_some(pre, ws@, bs, 0, b);
                        assert(wait_valid(ws@[b], pre.nchan(), pre.nflag()));
                        match ws@[b] {
                            WaitOp::Recv(c) => {
                                match find_blocked_sender_spec(pre, c as int, i, 0) {
                                    Some(j2) => {
                                        lemma_find_sender_some(pre, c as int, i, 0, j2);
                                    },
                                    None => {},
                                }
                                lemma_recv_channel_wf(pre, post, i, c as int);
                            },
                            _ => {},
                        }
                    },
                    None => {},
                }
            },
            _ => {},
        }
    }
}

/// The channel a completed receive drained (and possibly refilled
/// from a suspended sender) is still well-formed.
proof fn lemma_recv_channel_wf(pre: Kernel, post: Kernel, i: int, c: int)
    requires
        pre.wf(),
        0 <= i < pre.tasks@.len(),
        0 <= c < pre.channels@.len(),
        pre.channels@[c].spec_len() > 0,
        exists|winner: Option<int>| recv_rel(pre, post, i, c, winner),
    ensures
        post.channels@[c].wf(),
{
    let ch = pre.channels@[c];
    let v = ch.queue@[0];
    match find_blocked_sender_spec(pre, c, i, 0) {
        None => {
            assert(post.channels@[c].taken@ + post.channels@[c].queue@ =~= ch.sent@);
        },
        Some(j) => {
            lemma_find_sender_some(pre, c, i, 0, j);
            let w = blocked_send_msg(pre.tasks@[j]);
            assert(post.channels@[c].taken@ + post.channels@[c].queue@ =~= ch.sent@.push(w));
        },
    }
}

/// The messages the first `upto` operations of a script send into
/// channel `c`, in program order.
pub open spec fn sends_upto(prog: Seq<Op>, upto: int, c: int) -> Seq<u32>
    decreases upto,
{
    if upto <= 0 {
        Seq::empty()
    } else {
        let rest = sends_upto(prog, upto - 1, c);
        match prog[upto - 1] {
            Op::Send(c2, v) => if c2 == c {
                rest.push(v)
            } else {
                rest
            },
            _ => rest,
        }
    }
}

/// The messages task `t` has already sent into channel `c`: the sends
/// among the operations its program counter has passed. An operation
/// completes exactly when the counter moves past it.
pub open spec fn completed_sends(t: Task, c: int) -> Seq<u32> {
    sends_upto(t.program@, t.pc as int, c)
}

/// The sub-sequence of `s` at the positions `owners` marks with `j`.
pub open spec fn owned_part(s: Seq<u32>, owners: Seq<int>, j: int) -> Seq<u32>
    decreases s.len(),
{
    if s.len() == 0 {
        Seq::empty()
    } else {
        let rest = owned_part(s.drop_last(), owners.drop_last(), j);
        if owners.last() == j {
            rest.push(s.last())
        } else {
            rest
        }
    }
}

/// Channel `c`'s send history is an order-preserving interleaving of
/// the tasks' own sends: `owners` names, for each message of the
/// history, the task that sent it (`-1` for one pushed by an
/// interrupt handler), and each task's part of the history is exactly
/// the sends its program has completed, in program order.
pub open spec fn send_ownership(k: Kernel, c: int, owners: Seq<int>) -> bool {
    &&& owners.len() == k.channels@[c].sent@.len()
    &&& forall|j: int|
        0 <= j < k.tasks@.len() ==> owned_part(k.channels@[c].sent@, owners, j)
            == completed_sends(#[trigger] k.tasks@[j], c)
}

/// A fresh channel is trivially owner-labelled: nothing was sent and
/// no task has completed a send into it.
pub proof fn lemma_send_ownership_empty(k: Kernel, c: int)
    requires
        0 <= c < k.channels@.len(),
        k.channels@[c].sent@ == Seq::<u32>::empty(),
        forall|j: int|
            0 <= j < k.tasks@.len() ==> completed_sends(#[trigger] k.tasks@[j], c)
                == Seq::<u32>::empty(),
    ensures
        send_ownership(k, c, Seq::empty()),
{
}

/// One poll step keeps a channel's send history an order-preserving
/// interleaving: when the poll completes a send — the polled task's
/// own, or a suspended sender's during a receive hand-off — the new
/// message is appended both to the history and to that one task's
/// completed sends, and no other task's part moves.
pub proof fn lemma_poll_preserves_send_ownership(
    pre: Kernel,
    post: Kernel,
    i: int,
    c: int,
    owners: Seq<int>,
) -> (owners2: Seq<int>)
    requires
        pre.wf(),
        0 <= i < pre.tasks@.len(),
        0 <= c < pre.channels@.len(),
        poll_rel(pre, post, i),
        send_ownership(pre, c, owners),
    ensures
        send_ownership(post, c, owners2),
{
    let t = pre.tasks@[i];
    if t.status == Status::Done {
        owners
    } else {
        match t.program@[t.pc as int] {
            Op::Send(c2, v) => {
                if pre.channels@[c2 as int].spec_len() < pre.channels@[c2 as int].cap {
                    if c2 == c {
                        let owners2 = owners.push(i);
                        assert forall|j: int| 0 <= j < post.tasks@.len() implies owned_part(
                            post.channels@[c].sent@,
                            owners2,
                            j,
                        ) == completed_sends(#[trigger] post.tasks@[j], c) by {
                            assert(post.channels@[c].sent@.drop_last() =~= pre.channels@[c].sent@);
                            assert(owners2.drop_last() =~= owners);
                        }
                        owners2
                    } else {
                        owners
                    }
                } else {
                    owners
                }
            },
            Op::Recv(c2) => {
                if pre.channels@[c2 as int].spec_len() > 0 {
                    lemma_recv_ownership(pre, post, i, c2 as int, c, owners)
                } else {
                    owners
                }
            },
            Op::Select(ws) => {
                let bs = if t.status == Status::Ready {
                    pre.now
                } else {
                    t.blocked_since
                };
                match first_ready(pre, ws@, bs, 0) {
                    Some(b) => {
                        lemma_first_ready_some(pre, ws@, bs, 0, b);
                        assert(wait_valid(ws@[b], pre.nchan(), pre.nflag()));
                        match ws@[b] {
                            WaitOp::Recv(c2) => lemma_recv_ownership(
                                pre,
                                post,
                                i,
                                c2 as int,
                                c,
                                owners,
                            ),
                            _ => owners,
                        }
                    },
                    None => owners,
                }
            },
            _ => owners,
        }
    }
}

/// The receive hand-off case of the ownership argument: the freed
/// slot's refill is the suspended sender's next message in its own
/// program order.
proof fn lemma_recv_ownership(
    pre: Kernel,
    post: Kernel,
    i: int,
    c2: int,
    c: int,
    owners: Seq<int>,
) -> (owners2: Seq<int>)
    requires
        pre.wf(),
        0 <= i < pre.tasks@.len(),
        0 <= c < pre.channels@.len(),
        0 <= c2 < pre.channels@.len(),
        pre.channels@[c2].spec_len() > 0,
        pre.tasks@[i].pc < pre.tasks@[i].program@.len(),
        match pre.tasks@[i].program@[pre.tasks@[i].pc as int] {
            Op::Send(_, _) => false,
            _ => true,
        },
        exists|winner: Option<int>| recv_rel(pre, post, i, c2, winner),
        send_ownership(pre, c, owners),
    ensures
        send_ownership(post, c, owners2),
{
    match find_blocked_sender_spec(pre, c2, i, 0) {
        None => {
            owners
        },
        Some(j2) => {
            lemma_find_sender_some(pre, c2, i, 0, j2);
            if c2 == c {
                let owners2 = owners.push(j2);
                assert forall|j: int| 0 <= j < post.tasks@.len() implies owned_part(
                    post.channels@[c].sent@,
                    owners2,
                    j,
                ) == completed_sends(#[trigger] post.tasks@[j], c) by {
                    assert(post.channels@[c].sent@.drop_last() =~= pre.channels@[c].sent@);
                    assert(owners2.drop_last() =~= owners);
                }
                owners2
            } else {
                owners
            }
        },
    }
}

/// Ownership carried along a prefix of a pass's poll trace.
proof fn ownership_along_trace(
    tr: Seq<Kernel>,
    n: int,
    upto: int,
    c: int,
    owners: Seq<int>,
) -> (owners2: Seq<int>)
    requires
        0 <= upto <= n,
        tr.len() == n + 1,
        tr[0].wf(),
        n == tr[0].tasks@.len(),
        0 <= c < tr[0].channels@.len(),
        forall|i: int| 0 <= i < n ==> poll_rel(#[trigger] tr[i], tr[i + 1], i),
        send_ownership(tr[0], c, owners),
    ensures
        tr[upto].wf(),
        tr[upto].tasks@.len() == n,
        tr[upto].channels@.len() == tr[0].channels@.len(),
        send_ownership(tr[upto], c, owners2),
    decreases upto,
{
    if upto == 0 {
        owners
    } else {
        let prev_owners = ownership_along_trace(tr, n, upto - 1, c, owners);
        lemma_poll_frame(tr[upto - 1], tr[upto], upto - 1);
        lemma_poll_preserves_wf(tr[upto - 1], tr[upto], upto - 1);
        lemma_poll_preserves_send_ownership(tr[upto - 1], tr[upto], upto - 1, c, prev_owners)
    }
}

/// A whole scheduler pass keeps a channel's send history an
/// order-preserving interleaving of the tasks' own sends.
pub proof fn lemma_pass_preserves_send_ownership(
    pre: Kernel,
    post: Kernel,
    progressed: nat,
    c: int,
    owners: Seq<int>,
) -> (owners2: Seq<int>)
    requires
        pre.wf(),
        0 <= c < pre.channels@.len(),
        pass_rel(pre, post, progressed),
        send_ownership(pre, c, owners),
    ensures
        post.wf(),
        post.tasks@.len() == pre.tasks@.len(),
        post.channels@.len() == pre.channels@.len(),
        send_ownership(post, c, owners2),
{
    let n = pre.tasks@.len() as int;
    let tr = choose|tr: Seq<Kernel>|
        {
            &&& tr.len() == pre.tasks@.len() + 1
            &&& tr[0] == pre
            &&& tr[pre.tasks@.len() as int] == post
            &&& (forall|i: int|
                0 <= i < pre.tasks@.len() ==> poll_rel(#[trigger] tr[i], tr[i + 1], i))
            &&& progressed == moved_count(tr, pre.tasks@.len() as int)
        };
    ownership_along_trace(tr, n, n, c, owners)
}

/// Ownership carried along a prefix of a run's chain of passes.
proof fn ownership_along_run(
    states: Seq<Kernel>,
    counts: Seq<nat>,
    upto: int,
    c: int,
    owners: Seq<int>,
) -> (owners2: Seq<int>)
    requires
        0 <= upto <= counts.len(),
        states.len() == counts.len() + 1,
        states[0].wf(),
        0 <= c < states[0].channels@.len(),
        forall|p: int|
            0 <= p < counts.len() ==> pass_rel(#[trigger] states[p], states[p + 1], counts[p]),
        send_ownership(states[0], c, owners),
    ensures
        states[upto].wf(),
        states[upto].channels@.len() == states[0].channels@.len(),
        send_ownership(states[upto], c, owners2),
    decreases upto,
{
    if upto == 0 {
        owners
    } else {
        let prev_owners = ownership_along_run(states, counts, upto - 1, c, owners);
        lemma_pass_preserves_send_ownership(
            states[upto - 1],
            states[upto],
            counts[upto - 1],
            c,
            prev_owners,
        )
    }
}

/// A whole bounded run keeps a channel's send history an
/// order-preserving interleaving of the tasks' own sends.
pub proof fn lemma_run_preserves_send_ownership(
    pre: Kernel,
    post: Kernel,
    passes: nat,
    made: nat,
    c: int,
    owners: Seq<int>,
) -> (owners2: Seq<int>)
    requires
        pre.wf(),
        0 <= c < pre.channels@.len(),
        run_rel(pre, post, passes, made),
        send_ownership(pre, c, owners),
    ensures
        post.wf(),
        send_ownership(post, c, owners2),
{
    let (states, counts) = choose|states: Seq<Kernel>, counts: Seq<nat>|
        {
            &&& states.len() == counts.len() + 1
            &&& states[0] == pre
            &&& states[counts.len() as int] == post
            &&& (forall|p: int|
                0 <= p < counts.len() ==> pass_rel(#[trigger] states[p], states[p + 1], counts[p]))
            &&& (counts.len() == passes || (counts.len() < passes && counts.len() >= 1
                && counts.last() == 0))
            &&& made == (if sum_counts(counts) <= usize::MAX as nat {
                sum_counts(counts)
            } else {
                usize::MAX as nat
            })
        };
    ownership_along_run(states, counts, counts.len() as int, c, owners)
}

/// A producer's part of the first `k` messages of a history is a
/// prefix of its part of the whole history.
proof fn lemma_owned_part_prefix(s: Seq<u32>, owners: Seq<int>, k: int, j: int)
    requires
        0 <= k <= s.len(),
        owners.len() == s.len(),
    ensures
        owned_part(s.subrange(0, k), owners.subrange(0, k), j).is_prefix_of(
            owned_part(s, owners, j),
        ),
    decreases s.len() - k,
{
    let a = owned_part(s.subrange(0, k), owners.subrange(0, k), j);
    let full = owned_part(s, owners, j);
    if k == s.len() {
        assert(s.subrange(0, k) =~= s);
        assert(owners.subrange(0, k) =~= owners);
        assert(a =~= full.subrange(0, a.len() as int));
    } else {
        lemma_owned_part_prefix(s.drop_last(), owners.drop_last(), k, j);
        assert(s.subrange(0, k) =~= s.drop_last().subrange(0, k));
        assert(owners.subrange(0, k) =~= owners.drop_last().subrange(0, k));
        let b = owned_part(s.drop_last(), owners.drop_last(), j);
        assert(a =~= b.subrange(0, a.len() as int));
        assert(a =~= full.subrange(0, a.len() as int));
    }
}

/// The multi-producer order law: however the scheduler interleaves
/// any number of producers, each producer's own messages stand in a
/// channel's send history in that producer's program order, with
/// nothing lost, duplicated or reordered within them; and since
/// receives hand out the oldest prefix of the history, the receive
/// order restricted to one producer is a prefix of that producer's
/// own send order.
pub proof fn lemma_producer_order(k: Kernel, c: int, owners: Seq<int>, j: int)
    requires
        k.wf(),
        0 <= c < k.channels@.len(),
        send_ownership(k, c, owners),
        0 <= j < k.tasks@.len(),
    ensures
        owned_part(k.channels@[c].sent@, owners, j) == completed_sends(k.tasks@[j], c),
        k.channels@[c].taken@ == k.channels@[c].sent@.subrange(
            0,
            k.channels@[c].taken@.len() as int,
        ),
        owned_part(
            k.channels@[c].taken@,
            owners.subrange(0, k.channels@[c].taken@.len() as int),
            j,
        ).is_prefix_of(completed_sends(k.tasks@[j], c)),
{
    crate::channel::lemma_fifo(k.channels@[c]);
    lemma_owned_part_prefix(k.channels@[c].sent@, owners, k.channels@[c].taken@.len() as int, j);
    assert(k.channels@[c].taken@ =~= k.channels@[c].sent@.subrange(
        0,
        k.channels@[c].taken@.len() as int,
    ));
}

/// How many polls of the trace `tr` moved their task's program
/// counter, among the first `upto` polls: poll `i` steps `tr[i]` to
/// `tr[i + 1]` and belongs to task `i`.
pub open spec fn moved_count(tr: Seq<Kernel>, upto: int) -> nat
    decreases upto,
{
    if upto <= 0 {
        0
    } else {
        moved_count(tr, upto - 1) + (if tr[upto].tasks@[upto - 1].pc != tr[upto - 1].tasks@[upto
            - 1].pc {
            1nat
        } else {
            0nat
        })
    }
}

/// One scheduler pass as a relation: a trace of states leads from
/// `pre` to `post` by polling every task exactly once, in ascending
/// index order, each poll stepping by the transition relation
/// `poll_rel`; and `progressed` is the number of polls that moved
/// their task's program counter.
pub open spec fn pass_rel(pre: Kernel, post: Kernel, progressed: nat) -> bool {
    exists|tr: Seq<Kernel>|
        #![trigger tr.len()]
        {
            &&& tr.len() == pre.tasks@.len() + 1
            &&& tr[0] == pre
            &&& tr[pre.tasks@.len() as int] == post
            &&& (forall|i: int|
                0 <= i < pre.tasks@.len() ==> poll_rel(#[trigger] tr[i], tr[i + 1], i))
            &&& progressed == moved_count(tr, pre.tasks@.len() as int)
        }
}

/// `moved_count` reads only the first `upto + 1` states of a trace.
proof fn lemma_moved_count_prefix(tr1: Seq<Kernel>, tr2: Seq<Kernel>, upto: int)
    requires
        forall|k: int| 0 <= k <= upto ==> tr1[k] == tr2[k],
    ensures
        moved_count(tr1, upto) == moved_count(tr2, upto),
    decreases upto,
{
    if upto > 0 {
        lemma_moved_count_prefix(tr1, tr2, upto - 1);
    }
}

/// The operations a chain of passes completed, totalled.
pub open spec fn sum_counts(counts: Seq<nat>) -> nat
    decreases counts.len(),
{
    if counts.len() == 0 {
        0
    } else {
        sum_counts(counts.drop_last()) + counts.last()
    }
}

/// A bounded run as a relation: a chain of scheduler passes, each by
/// `pass_rel`, leads from `pre` to `post`. The chain holds at most
/// `passes` passes, and fewer only when its last pass moved no
/// program counter — the kernel had gone quiescent and further passes
/// could change nothing. `made` totals the operations the passes
/// completed, saturating at the machine's limit; in particular it is
/// zero exactly when every pass of the chain was quiescent.
pub open spec fn run_rel(pre: Kernel, post: Kernel, passes: nat, made: nat) -> bool {
    exists|states: Seq<Kernel>, counts: Seq<nat>|
        #![trigger states.len(), counts.len()]
        {
            &&& states.len() == counts.len() + 1
            &&& states[0] == pre
            &&& states[counts.len() as int] == post
            &&& (forall|p: int|
                0 <= p < counts.len() ==> pass_rel(#[trigger] states[p], states[p + 1], counts[p]))
            &&& (counts.len() == passes || (counts.len() < passes && counts.len() >= 1
                && counts.last() == 0))
            &&& made == (if sum_counts(counts) <= usize::MAX as nat {
                sum_counts(counts)
            } else {
                usize::MAX as nat
            })
        }
}

/// The multi-way wait tie-break law: when several branches are ready
/// in the same pass — both channels of a two-channel wait holding a
/// message, say — the wait resolves to the branch listed first.
pub proof fn lemma_select_first_listed(k: Kernel, ws: Seq<WaitOp>, bs: u64)
    requires
        ws.len() > 0,
        wait_ready(k, ws[0], bs),
    ensures
        first_ready(k, ws, bs, 0) == Some(0int),
{
}

/// The same-pass hand-off law: when a receive drains one slot of a
/// channel on which a sender is suspended, that sender's send
/// completes within the very poll step of the receive — its message
/// enters the freed slot and its program counter moves on. It does
/// not wait for another scheduler pass.
pub proof fn lemma_receive_resumes_sender(pre: Kernel, post: Kernel, i: int, c: usize, j: int)
    requires
        pre.wf(),
        0 <= i < pre.tasks@.len(),
        pre.tasks@[i].status != Status::Done,
        pre.tasks@[i].program@[pre.tasks@[i].pc as int] == Op::Recv(c),
        pre.channels@[c as int].spec_len() > 0,
        find_blocked_sender_spec(pre, c as int, i, 0) == Some(j),
        poll_rel(pre, post, i),
    ensures
        completed_task(pre.tasks@[j], post.tasks@[j]),
        post.tasks@[j].status != Status::Blocked,
        post.channels@[c as int].sent@ == pre.channels@[c as int].sent@.push(
            blocked_send_msg(pre.tasks@[j]),
        ),
{
    lemma_find_sender_some(pre, c as int, i, 0, j);
}

/// Copyable summary of a task's current operation; the branch list of
/// a multi-way wait is read in place instead.
#[derive(Clone, Copy)]
enum OpKind {
    Send(usize, u32),
    Recv(usize),
    Sleep(u64),
    WaitFlag(usize),
    SetFlag(usize, bool),
    ToggleFlag(usize),
    SelectOp,
}

/// The scheduler's transition relation: how one poll of task `i`
/// relates the kernel state after (`post`) to the state before
/// (`pre`). A completed task is left alone; otherwise the task's
/// current operation either completes with its documented effect or
/// the task suspends.
pub open spec fn poll_rel(pre: Kernel, post: Kernel, i: int) -> bool
    recommends
        pre.wf(),
        0 <= i < pre.tasks@.len(),
{
    let t = pre.tasks@[i];
    if t.status == Status::Done {
        post == pre
    } else {
        match t.program@[t.pc as int] {
            Op::Send(c, v) => {
                if pre.channels@[c as int].spec_len() < pre.channels@[c as int].cap {
                    send_complete_rel(pre, post, i, c as int, v)
                } else {
                    suspend_rel(pre, post, i)
                }
            },
            Op::Recv(c) => {
                if pre.channels@[c as int].spec_len() > 0 {
                    recv_rel(pre, post, i, c as int, None)
                } else {
                    suspend_rel(pre, post, i)
                }
            },
            Op::Sleep(d) => {
                if t.status == Status::Blocked && pre.now - t.blocked_since >= d {
                    quiet_complete_rel(pre, post, i, None)
                } else {
                    suspend_rel(pre, post, i)
                }
            },
            Op::WaitFlag(f) => {
                if pre.flags@[f as int]@ == Some(true) {
                    flag_complete_rel(pre, post, i, f as int, Some(false), None)
                } else {
                    suspend_rel(pre, post, i)
                }
            },
            Op::SetFlag(f, b) => flag_complete_rel(pre, post, i, f as int, Some(b), None),
            Op::ToggleFlag(f) => flag_complete_rel(
                pre,
                post,
                i,
                f as int,
                flag_toggle(pre.flags@[f as int]@),
                None,
            ),
            Op::Select(ws) => {
                let bs = if t.status == Status::Ready {
                    pre.now
                } else {
                    t.blocked_since
                };
                match first_ready(pre, ws@, bs, 0) {
                    None => suspend_rel(pre, post, i),
                    Some(b) => match ws@[b] {
                        WaitOp::Recv(c) => recv_rel(pre, post, i, c as int, Some(b)),
                        WaitOp::Elapsed(_) => quiet_complete_rel(pre, post, i, Some(b)),
                        WaitOp::Flag(f) => flag_complete_rel(
                            pre,
                            post,
                            i,
                            f as int,
                            Some(false),
                            Some(b),
                        ),
                    },
                }
            },
        }
    }
}

impl Kernel {
    /// Move task `i` past its completed operation.
    fn advance(&mut self, i: usize)
        requires
            i < old(self).tasks@.len(),
            old(self).tasks@[i as int].pc < old(self).tasks@[i as int].program@.len(),
        ensures
            final(self).tasks@.len() == old(self).tasks@.len(),
            completed_task(old(self).tasks@[i as int], final(self).tasks@[i as int]),
            logs_unchanged(old(self).tasks@[i as int], final(self).tasks@[i as int]),
            tasks_unchanged_except(*old(self), *final(self), i as int),
            final(self).now == old(self).now,
            final(self).channels == old(self).channels,
            final(self).flags == old(self).flags,
            final(self).cells == old(self).cells,
            final(self).irqs == old(self).irqs,
            final(self).tick == old(self).tick,
    {
        let len = self.tasks[i].program.len();
        let newpc = self.tasks[i].pc + 1;
        self.tasks[i].pc = newpc;
        self.tasks[i].status = if newpc == len {
            Status::Done
        } else {
            Status::Ready
        };
    }

    /// Suspend task `i`: a running task blocks and records the time;
    /// one already suspended is left as it is.
    fn suspend(&mut self, i: usize)
        requires
            i < old(self).tasks@.len(),
            old(self).tasks@[i as int].status != Status::Done,
        ensures
            suspend_rel(*old(self), *final(self), i as int),
    {
        match self.tasks[i].status {
            Status::Ready => {
                let now = self.now;
                self.tasks[i].status = Status::Blocked;
                self.tasks[i].blocked_since = now;
            },
            _ => {},
        }
    }

    /// Whether one wait branch is ready now, for a task suspended at
    /// `bs`.
    fn wait_is_ready(&self, w: WaitOp, bs: u64) -> (r: bool)
        requires
            wait_valid(w, self.nchan(), self.nflag()),
            bs <= self.now,
        ensures
            r == wait_ready(*self, w, bs),
    {
        match w {
            WaitOp::Recv(c) => self.channels[c].len() > 0,
            WaitOp::Elapsed(d) => self.now - bs >= d,
            WaitOp::Flag(f) => match self.flags[f].peek() {
                Some(b) => *b,
                None => false,
            },
        }
    }

    /// Find the first listed ready branch of a multi-way wait.
    fn find_ready_branch(&self, ws: &Vec<WaitOp>, bs: u64) -> (r: Option<(usize, WaitOp)>)
        requires
            forall|b: int|
                0 <= b < ws@.len() ==> wait_valid(#[trigger] ws@[b], self.nchan(), self.nflag()),
            bs <= self.now,
        ensures
            match r {
                None => first_ready(*self, ws@, bs, 0) is None,
                Some((b, w)) => first_ready(*self, ws@, bs, 0) == Some(b as int) && w == ws@[
                    b as int
                ],
            },
    {
        let mut b: usize = 0;
        while b < ws.len()
            invariant
                b <= ws@.len(),
                forall|m: int|
                    0 <= m < ws@.len() ==> wait_valid(#[trigger] ws@[m], self.nchan(), self.nflag()),
                bs <= self.now,
                first_ready(*self, ws@, bs, 0) == first_ready(*self, ws@, bs, b as int),
            decreases ws@.len() - b,
        {
            let w = ws[b];
            if self.wait_is_ready(w, bs) {
                return Some((b, w));
            }
            b = b + 1;
        }
        None
    }

    /// Find the lowest-indexed task other than `skip` suspended on
    /// sending into channel `c`.
    fn find_blocked_sender(&self, c: usize, skip: usize) -> (r: Option<usize>)
        ensures
            match r {
                None => find_blocked_sender_spec(*self, c as int, skip as int, 0) is None,
                Some(j) => find_blocked_sender_spec(*self, c as int, skip as int, 0) == Some(
                    j as int,
                ) && j < self.tasks@.len() && j != skip && task_waiting_send(
                    self.tasks@[j as int],
                    c as int,
                ),
            },
    {
        let mut j: usize = 0;
        while j < self.tasks.len()
            invariant
                j <= self.tasks@.len(),
                find_blocked_sender_spec(*self, c as int, skip as int, 0)
                    == find_blocked_sender_spec(*self, c as int, skip as int, j as int),
            decreases self.tasks@.len() - j,
        {
            if j != skip {
                let matches_send = match self.tasks[j].status {
                    Status::Blocked => {
                        let pc = self.tasks[j].pc;
                        if pc < self.tasks[j].program.len() {
                            match &self.tasks[j].program[pc] {
                                Op::Send(c2, _) => *c2 == c,
                                _ => false,
                            }
                        } else {
                            false
                        }
                    },
                    _ => false,
                };
                if matches_send {
                    return Some(j);
                }
            }
            j = j + 1;
        }
        None
    }

    /// Complete a receive on channel `c` for task `i`: take the oldest
    /// message, and if some task is suspended on sending into `c`,
    /// complete the lowest-indexed such sender's send into the freed
    /// slot so that it resumes within this same step.
    fn complete_recv(&mut self, i: usize, c: usize, winner: Option<usize>)
        requires
            old(self).wf(),
            i < old(self).tasks@.len(),
            old(self).tasks@[i as int].status != Status::Done,
            c < old(self).channels@.len(),
            old(self).channels@[c as int].spec_len() > 0,
        ensures
            final(self).wf(),
            recv_rel(
                *old(self),
                *final(self),
                i as int,
                c as int,
                match winner {
                    None => None,
                    Some(b) => Some(b as int),
                },
            ),
            final(self).tasks@[i as int].pc == old(self).tasks@[i as int].pc + 1,
    {
        let sender = self.find_blocked_sender(c, i);
        let v = self.channels[c].try_recv().unwrap();
        self.tasks[i].received.push(v);
        match winner {
            Some(b) => self.tasks[i].winners.push(b),
            None => {},
        }
        self.advance(i);
        match sender {
            Some(j) => {
                let spc = self.tasks[j].pc;
                let w: u32 = match &self.tasks[j].program[spc] {
                    Op::Send(_, v2) => *v2,
                    _ => 0,
                };
                let r = self.channels[c].try_send(w);
                self.advance(j);
            },
            None => {},
        }
    }

    /// Poll task `i` once: a completed task is left alone; otherwise
    /// its current operation either completes with its documented
    /// effect (`poll_rel`) or the task suspends. Returns whether the
    /// task made progress.
    pub fn poll_task(&mut self, i: usize) -> (progressed: bool)
        requires
            old(self).wf(),
            i < old(self).tasks@.len(),
        ensures
            final(self).wf(),
            poll_rel(*old(self), *final(self), i as int),
            progressed == (final(self).tasks@[i as int].pc != old(self).tasks@[i as int].pc),
    {
        let status = self.tasks[i].status;
        match status {
            Status::Done => {
                return false;
            },
            _ => {},
        }
        let pc = self.tasks[i].pc;
        let kind: OpKind = match &self.tasks[i].program[pc] {
            Op::Send(c, v) => OpKind::Send(*c, *v),
            Op::Recv(c) => OpKind::Recv(*c),
            Op::Sleep(d) => OpKind::Sleep(*d),
            Op::WaitFlag(f) => OpKind::WaitFlag(*f),
            Op::SetFlag(f, b) => OpKind::SetFlag(*f, *b),
            Op::ToggleFlag(f) => OpKind::ToggleFlag(*f),
            Op::Select(_) => OpKind::SelectOp,
        };
        match kind {
            OpKind::Send(c, v) => {
                if self.channels[c].len() < self.channels[c].capacity() {
                    let r = self.channels[c].try_send(v);
                    self.advance(i);
                    true
                } else {
                    self.suspend(i);
                    false
                }
            },
            OpKind::Recv(c) => {
                if self.channels[c].len() > 0 {
                    self.complete_recv(i, c, None);
                    true
                } else {
                    self.suspend(i);
                    false
                }
            },
            OpKind::Sleep(d) => {
                match status {
                    Status::Blocked => {
                        if self.now - self.tasks[i].blocked_since >= d {
                            self.advance(i);
                            true
                        } else {
                            false
                        }
                    },
                    _ => {
                        self.suspend(i);
                        false
                    },
                }
            },
            OpKind::WaitFlag(f) => {
                let ready = match self.flags[f].peek() {
                    Some(b) => *b,
                    None => false,
                };
                if ready {
                    let _ = self.flags[f].replace(false);
                    self.advance(i);
                    true
                } else {
                    self.suspend(i);
                    false
                }
            },
            OpKind::SetFlag(f, b) => {
                let _ = self.flags[f].replace(b);
                self.advance(i);
                true
            },
            OpKind::ToggleFlag(f) => {
                let prev = self.flags[f].take();
                if let Some(b) = prev {
                    let _ = self.flags[f].replace(!b);
                }
                self.advance(i);
                true
            },
            OpKind::SelectOp => {
                let bs = match status {
                    Status::Ready => self.now,
                    _ => self.tasks[i].blocked_since,
                };
                let won: Option<(usize, WaitOp)> = match &self.tasks[i].program[pc] {
                    Op::Select(ws) => self.find_ready_branch(ws, bs),
                    _ => None,
                };
                match won {
                    None => {
                        self.suspend(i);
                        false
                    },
                    Some((b, w)) => {
                        proof {
                            let t = self.tasks@[i as int];
                            match t.program@[t.pc as int] {
                                Op::Select(wsv) => {
                                    lemma_first_ready_some(*self, wsv@, bs, 0, b as int);
                                    assert(wait_valid(wsv@[b as int], self.nchan(), self.nflag()));
                                },
                                _ => {
                                    assert(false);
                                },
                            }
                        }
                        match w {
                            WaitOp::Recv(c) => {
                                self.complete_recv(i, c, Some(b));
                            },
                            WaitOp::Elapsed(_) => {
                                self.tasks[i].winners.push(b);
                                self.advance(i);
                            },
                            WaitOp::Flag(f) => {
                                let _ = self.flags[f].replace(false);
                                self.tasks[i].winners.push(b);
                                self.advance(i);
                            },
                        }
                        true
                    },
                }
            },
        }
    }

    /// One scheduler pass: poll every task once, in ascending index
    /// order. The whole pass is pinned by `pass_rel`: the final state
    /// arises from the initial one by a trace of `poll_rel` steps, one
    /// per task, and the returned count is the number of polls that
    /// moved their task's program counter. No runnable task starves
    /// within a pass: every task that was runnable when the pass began
    /// has, by its end, either made progress or suspended on an
    /// unsatisfied condition. When nothing progressed and no interrupt
    /// arrives, the processor may idle until one does.
    pub fn pass(&mut self) -> (progressed: usize)
        requires
            old(self).wf(),
        ensures
            final(self).wf(),
            pass_rel(*old(self), *final(self), progressed as nat),
            sched_frame(*old(self), *final(self)),
            forall|j: int|
                0 <= j < old(self).tasks@.len() && old(self).tasks@[j].status == Status::Ready
                    ==> ((#[trigger] final(self).tasks@[j]).pc > old(self).tasks@[j].pc
                    || final(self).tasks@[j].status == Status::Blocked),
    {
        let n = self.tasks.len();
        let mut i: usize = 0;
        let mut progressed: usize = 0;
        let ghost mut tr: Seq<Kernel> = seq![*self];
        proof {
            lemma_frame_refl(*self);
        }
        while i < n
            invariant
                self.wf(),
                n == self.tasks@.len(),
                i <= n,
                progressed <= i,
                tr.len() == i + 1,
                tr[0] == *old(self),
                tr[i as int] == *self,
                forall|j: int| 0 <= j < i ==> poll_rel(#[trigger] tr[j], tr[j + 1], j),
                progressed == moved_count(tr, i as int),
                sched_frame(*old(self), *self),
                forall|j: int|
                    0 <= j < i && old(self).tasks@[j].status == Status::Ready ==> ((
                    #[trigger] self.tasks@[j]).pc > old(self).tasks@[j].pc || self.tasks@[j].status
                        == Status::Blocked),
                forall|j: int|
                    i <= j < n && old(self).tasks@[j].status == Status::Ready ==> (
                    #[trigger] self.tasks@[j]) == old(self).tasks@[j],
            decreases n - i,
        {
            let ghost prev: Kernel = *self;
            let moved = self.poll_task(i);
            proof {
                let tr_before = tr;
                tr = tr.push(*self);
                lemma_moved_count_prefix(tr_before, tr, i as int);
                lemma_poll_frame(prev, *self, i as int);
                lemma_frame_trans(*old(self), prev, *self);
                if old(self).tasks@[i as int].status == Status::Ready {
                    lemma_poll_ready_progress(prev, *self, i as int);
                }
                assert forall|j: int|
                    0 <= j < i && old(self).tasks@[j].status == Status::Ready implies ((
                #[trigger] self.tasks@[j]).pc > old(self).tasks@[j].pc || self.tasks@[j].status
                    == Status::Blocked) by {
                    lemma_poll_other_task(prev, *self, i as int, j);
                }
                assert forall|j: int|
                    i < j < n && old(self).tasks@[j].status == Status::Ready implies (
                #[trigger] self.tasks@[j]) == old(self).tasks@[j] by {
                    lemma_poll_other_task(prev, *self, i as int, j);
                }
            }
            if moved {
                progressed = progressed + 1;
            }
            i = i + 1;
        }
        proof {
            assert(pass_rel(*old(self), *self, progressed as nat)) by {
                assert(tr.len() == old(self).tasks@.len() + 1);
                assert(tr[0] == *old(self));
                assert(tr[old(self).tasks@.len() as int] == *self);
                assert(progressed == moved_count(tr, old(self).tasks@.len() as int));
            }
        }
        progressed
    }

    /// Run up to `passes` scheduler passes, stopping early once a pass
    /// moves no program counter: after a quiescent pass a further pass
    /// could change nothing, so only an interrupt or the clock can
    /// wake the kernel again. The whole run is pinned by `run_rel`: a
    /// chain of `pass_rel` passes leads to the final state, and the
    /// returned total counts the operations they completed.
    pub fn run(&mut self, passes: usize) -> (made: usize)
        requires
            old(self).wf(),
        ensures
            final(self).wf(),
            run_rel(*old(self), *final(self), passes as nat, made as nat),
            sched_frame(*old(self), *final(self)),
    {
        let mut p: usize = 0;
        let mut made: usize = 0;
        let ghost mut states: Seq<Kernel> = seq![*self];
        let ghost mut counts: Seq<nat> = Seq::empty();
        proof {
            lemma_frame_refl(*self);
        }
        while p < passes
            invariant
                self.wf(),
                p <= passes,
                states.len() == counts.len() + 1,
                counts.len() == p,
                states[0] == *old(self),
                states[p as int] == *self,
                forall|q: int|
                    0 <= q < p ==> pass_rel(#[trigger] states[q], states[q + 1], counts[q]),
                made == (if sum_counts(counts) <= usize::MAX as nat {
                    sum_counts(counts)
                } else {
                    usize::MAX as nat
                }),
                sched_frame(*old(self), *self),
            decreases passes - p,
        {
            let ghost prev: Kernel = *self;
            let moved = self.pass();
            proof {
                lemma_frame_trans(*old(self), prev, *self);
                let counts_before = counts;
                states = states.push(*self);
                counts = counts.push(moved as nat);
                assert(counts.drop_last() =~= counts_before);
            }
            if moved == 0 {
                proof {
                    assert(run_rel(*old(self), *self, passes as nat, made as nat)) by {
                        assert(states.len() == counts.len() + 1);
                        assert(states[counts.len() as int] == *self);
                        assert(counts.last() == 0);
                    }
                }
                return made;
            }
            made = if moved <= usize::MAX - made {
                made + moved
            } else {
                usize::MAX
            };
            p = p + 1;
        }
        proof {
            assert(run_rel(*old(self), *self, passes as nat, made as nat)) by {
                assert(states.len() == counts.len() + 1);
                assert(counts.len() == passes);
                assert(states[counts.len() as int] == *self);
            }
        }
        made
    }

    /// Advance the kernel clock by `dt` ticks and deliver every firing
    /// of the periodic tick source that falls due, oldest first: one
    /// firing per elapsed interval. Returns how many times the tick
    /// fired. Tasks are not run here — a task whose sleep expired
    /// resumes at its next poll.
    pub fn advance_time(&mut self, dt: u64) -> (fires: u64)
        requires
            old(self).wf(),
            old(self).now + dt < TIME_BOUND,
        ensures
            final(self).wf(),
            final(self).now == old(self).now + dt,
            final(self).tasks == old(self).tasks,
            match old(self).tick {
                None => {
                    &&& fires == 0
                    &&& final(self).channels == old(self).channels
                    &&& final(self).flags == old(self).flags
                    &&& final(self).cells == old(self).cells
                    &&& final(self).irqs == old(self).irqs
                    &&& final(self).tick == old(self).tick
                },
                Some(t0) => {
                    let act = old(self).irqs@[t0.irq as int].action;
                    let was_masked = old(self).irqs@[t0.irq as int].masked;
                    &&& match final(self).tick {
                        Some(t2) => {
                            &&& t2.irq == t0.irq
                            &&& t2.interval == t0.interval
                            &&& t2.next_fire == t0.next_fire + (fires as int) * (t0.interval as int)
                            &&& t2.next_fire > final(self).now
                            &&& (fires > 0 ==> t2.next_fire - t0.interval <= final(self).now)
                        },
                        None => false,
                    }
                    &&& if was_masked {
                        &&& final(self).channels == old(self).channels
                        &&& final(self).flags == old(self).flags
                        &&& final(self).cells == old(self).cells
                        &&& final(self).irqs@ == (if fires > 0 {
                            old(self).irqs@.update(
                                t0.irq as int,
                                IrqLine { pending: Some(0u32), ..old(self).irqs@[t0.irq as int] },
                            )
                        } else {
                            old(self).irqs@
                        })
                    } else {
                        &&& final(self).irqs == old(self).irqs
                        &&& dispatch_n_rel(
                            Kernel { now: (old(self).now + dt) as u64, ..*old(self) },
                            Kernel { tick: old(self).tick, ..*final(self) },
                            act,
                            fires as nat,
                        )
                    }
                },
            },
    {
        self.now = self.now + dt;
        let tick_opt: Option<Tick> = self.tick;
        match tick_opt {
            None => 0,
            Some(t0) => {
                let ghost snap: Kernel = *self;
                let irq = t0.irq;
                let interval = t0.interval;
                let mut next = t0.next_fire;
                let mut fires: u64 = 0;
                proof {
                    if !snap.irqs@[irq as int].masked {
                        match snap.irqs@[irq as int].action {
                            HandlerAction::PushChannel(c) => {
                                assert(snap.channels@[c as int].queue@ + zeros(0)
                                    =~= snap.channels@[c as int].queue@);
                                assert(snap.channels@[c as int].sent@ + zeros(0)
                                    =~= snap.channels@[c as int].sent@);
                            },
                            _ => {},
                        }
                        assert(dispatch_n_rel(snap, snap, snap.irqs@[irq as int].action, 0));
                    }
                }
                while next <= self.now
                    invariant
                        self.wf(),
                        snap.wf(),
                        self.now == snap.now,
                        self.now < TIME_BOUND,
                        self.tasks == snap.tasks,
                        self.tick == snap.tick,
                        snap.tick == Some(t0),
                        irq == t0.irq,
                        interval == t0.interval,
                        irq < snap.irqs@.len(),
                        1 <= interval < TIME_BOUND,
                        next == t0.next_fire + (fires as int) * (interval as int),
                        fires > 0 ==> next - interval <= self.now,
                        snap.irqs@[irq as int].masked ==> {
                            &&& self.channels == snap.channels
                            &&& self.flags == snap.flags
                            &&& self.cells == snap.cells
                            &&& self.irqs@ == (if fires > 0 {
                                snap.irqs@.update(
                                    irq as int,
                                    IrqLine { pending: Some(0u32), ..snap.irqs@[irq as int] },
                                )
                            } else {
                                snap.irqs@
                            })
                        },
                        !snap.irqs@[irq as int].masked ==> {
                            &&& self.irqs == snap.irqs
                            &&& dispatch_n_rel(
                                snap,
                                Kernel { tick: snap.tick, ..*self },
                                snap.irqs@[irq as int].action,
                                fires as nat,
                            )
                        },
                    decreases self.now + interval - next,
                {
                    let ghost mid: Kernel = *self;
                    self.fire_irq(irq, 0);
                    proof {
                        if !snap.irqs@[irq as int].masked {
                            lemma_dispatch_n_step(
                                snap,
                                Kernel { tick: snap.tick, ..mid },
                                Kernel { tick: snap.tick, ..*self },
                                snap.irqs@[irq as int].action,
                                fires as nat,
                            );
                        } else {
                            if fires > 0 {
                                assert(self.irqs@ =~= snap.irqs@.update(
                                    irq as int,
                                    IrqLine { pending: Some(0u32), ..snap.irqs@[irq as int] },
                                ));
                            }
                        }
                        assert((fires + 1) as int * (interval as int) == (fires as int) * (
                        interval as int) + interval) by (nonlinear_arith);
                        assert(fires as int <= (fires as int) * (interval as int))
                            by (nonlinear_arith)
                            requires
                                interval >= 1,
                                fires >= 0,
                        ;
                        assert(fires < TIME_BOUND);
                    }
                    next = next + interval;
                    fires = fires + 1;
                }
                self.tick = Some(Tick { irq, interval, next_fire: next });
                proof {
                    if !snap.irqs@[irq as int].masked {
                        assert(dispatch_n_rel(
                            snap,
                            Kernel { tick: snap.tick, ..*self },
                            snap.irqs@[irq as int].action,
                            fires as nat,
                        ));
                    }
                }
                fires
            },
        }
    }
}

} // verus!
