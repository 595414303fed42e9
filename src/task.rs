//! The task: a stateful node with one input port and one output port. Its
//! decisions (what a message, a timer firing or a lifecycle hook does) are
//! made here; the runtime that delivers messages and fires timers acts on
//! what these functions return.
use core::marker::PhantomData;
use vstd::prelude::*;

use crate::logic::{output_of, state_after, Logic, Trigger};
use crate::port::{ends, events, payloads, Message};

verus! {

/// Where a task stands in the graph. It documents the position and limits
/// the wiring that makes sense; it does not change behaviour.
#[derive(Clone, Copy, Debug, PartialEq, Eq, Structural)]
pub enum Role {
    Producer,
    ProducerConsumer,
    Consumer,
}

/// The life of a task. `Running` to `Terminated` is taken at once when the
/// end of the stream arrives or is raised, bypassing `Stopping`.
#[derive(Clone, Copy, Debug, PartialEq, Eq, Structural)]
pub enum Lifecycle {
    Created,
    Running,
    Stopping,
    Terminated,
}

/// A one-shot timer for the runtime to schedule: it fires after `delay_ms`
/// milliseconds, carrying `id`.
#[derive(Clone, Copy, Debug, PartialEq, Eq, Structural)]
pub struct TimerRequest {
    pub id: u64,
    pub delay_ms: u64,
}

/// What a timer firing means to the task.
#[derive(Clone, Copy, Debug, PartialEq, Eq, Structural)]
pub enum TimerVerdict {
    /// The armed timer fired: run the trigger.
    Fire,
    /// Another timer than the armed one: a race with cancellation, ignored.
    Stale,
    /// No timer was armed: logged and ignored.
    Unexpected,
}

/// The part of a task that does not depend on its payload types: its name,
/// role, lifecycle, and its optional periodic timer, which is a one-shot
/// timer armed again after every firing.
pub struct Control {
    pub name: &'static str,
    pub role: Role,
    pub life: Lifecycle,
    /// The period of the timer in milliseconds, if the task has one.
    pub period: Option<u64>,
    /// The id of the timer now scheduled, if any.
    pub armed: Option<u64>,
    /// The id that the next timer will carry.
    pub next_timer: u64,
    /// How many input edges have not yet brought the end of the stream.
    pub inputs: u64,
}

/// The id after `id`, wrapping at the top of `u64`.
pub open spec fn next_id(id: u64) -> u64 {
    if id == u64::MAX {
        0
    } else {
        (id + 1) as u64
    }
}

impl Control {
    /// A timer is armed only while the task runs.
    pub open spec fn wf(&self) -> bool {
        self.armed is Some ==> self.life is Running
    }

    pub open spec fn is_terminated_spec(&self) -> bool {
        self.life is Terminated
    }

    #[verifier::when_used_as_spec(is_terminated_spec)]
    pub fn is_terminated(&self) -> (r: bool)
        ensures
            r == self.is_terminated_spec(),
    {
        matches!(self.life, Lifecycle::Terminated)
    }

    /// The control with its timer armed, if it has one, and the request
    /// for the runtime.
    pub open spec fn armed_spec(self) -> (Control, Option<TimerRequest>) {
        match self.period {
            Some(d) => (
                Control { armed: Some(self.next_timer), next_timer: next_id(self.next_timer), ..self },
                Some(TimerRequest { id: self.next_timer, delay_ms: d }),
            ),
            None => (self, None),
        }
    }

    /// The control after the end of the stream arrives: terminated, with no
    /// timer armed.
    pub open spec fn ended_spec(self) -> Control {
        if self.life is Terminated {
            self
        } else {
            Control { life: Lifecycle::Terminated, armed: None, ..self }
        }
    }

    /// The control after the end of the stream arrives on one input edge,
    /// and whether the task forwards it: only the last open input ends the
    /// task; before that, one input fewer is open.
    pub open spec fn end_input_spec(self) -> (Control, bool) {
        if self.life is Terminated {
            (self, false)
        } else if self.inputs > 1 {
            (Control { inputs: (self.inputs - 1) as u64, ..self }, false)
        } else {
            (self.ended_spec(), true)
        }
    }

    /// The control and the verdict after a timer carrying `id` fired.
    pub open spec fn timeout_spec(self, id: u64) -> (Control, TimerVerdict) {
        match self.armed {
            Some(a) => if a == id {
                (Control { armed: None, ..self }, TimerVerdict::Fire)
            } else {
                (self, TimerVerdict::Stale)
            },
            None => (self, TimerVerdict::Unexpected),
        }
    }

    /// The control and the request after arming again: only a running task
    /// with no timer armed arms one.
    pub open spec fn rearm_spec(self) -> (Control, Option<TimerRequest>) {
        if self.life is Running && self.armed is None {
            self.armed_spec()
        } else {
            (self, None)
        }
    }

    /// The control after the stop hook.
    pub open spec fn stopped_spec(self) -> Control {
        Control {
            life: if self.life is Running {
                Lifecycle::Stopping
            } else {
                self.life
            },
            armed: None,
            ..self
        }
    }

    /// A control with no timer and the role `ProducerConsumer`.
    pub fn new(name: &'static str) -> (r: Control)
        ensures
            r == (Control {
                name,
                role: Role::ProducerConsumer,
                life: Lifecycle::Created,
                period: None,
                armed: None,
                next_timer: 0,
                inputs: 1,
            }),
            r.wf(),
    {
        Control {
            name,
            role: Role::ProducerConsumer,
            life: Lifecycle::Created,
            period: None,
            armed: None,
            next_timer: 0,
            inputs: 1,
        }
    }

    /// A control whose timer fires every `period_ms` milliseconds once started.
    pub fn with_timer(name: &'static str, period_ms: u64) -> (r: Control)
        ensures
            r == (Control {
                name,
                role: Role::ProducerConsumer,
                life: Lifecycle::Created,
                period: Some(period_ms),
                armed: None,
                next_timer: 0,
                inputs: 1,
            }),
            r.wf(),
    {
        Control { period: Some(period_ms), ..Control::new(name) }
    }

    pub fn set_role(self, role: Role) -> (r: Control)
        ensures
            r == (Control { role, ..self }),
    {
        Control { role, ..self }
    }

    /// Sets how many input edges feed the task: two for the combining task
    /// of a merge.
    pub fn set_inputs(self, inputs: u64) -> (r: Control)
        ensures
            r == (Control { inputs, ..self }),
    {
        Control { inputs, ..self }
    }

    /// The end of the stream arrived on one input edge. Returns whether the
    /// task forwards it, which it does when that was its last open input.
    pub fn end_input(&mut self) -> (forward: bool)
        ensures
            (*final(self), forward) == old(self).end_input_spec(),
            old(self).wf() ==> final(self).wf(),
    {
        if matches!(self.life, Lifecycle::Terminated) {
            false
        } else if self.inputs > 1 {
            self.inputs = self.inputs - 1;
            false
        } else {
            self.end()
        }
    }

    fn arm(&mut self) -> (r: Option<TimerRequest>)
        ensures
            (*final(self), r) == old(self).armed_spec(),
    {
        match self.period {
            Some(d) => {
                let id = self.next_timer;
                self.armed = Some(id);
                self.next_timer = if id == u64::MAX {
                    0
                } else {
                    id + 1
                };
                Some(TimerRequest { id, delay_ms: d })
            },
            None => None,
        }
    }

    /// The start hook: a created or stopped task runs, and arms its timer if
    /// it has one. Starting a task that runs or has ended does nothing.
    pub fn on_start(&mut self) -> (r: Option<TimerRequest>)
        ensures
            match old(self).life {
                Lifecycle::Created | Lifecycle::Stopping => (*final(self), r) == (Control {
                    life: Lifecycle::Running,
                    armed: None,
                    ..*old(self)
                }).armed_spec(),
                _ => *final(self) == *old(self) && r is None,
            },
            old(self).wf() ==> final(self).wf(),
    {
        match self.life {
            Lifecycle::Created | Lifecycle::Stopping => {
                self.life = Lifecycle::Running;
                self.armed = None;
                self.arm()
            },
            _ => None,
        }
    }

    /// A timer carrying `id` fired. Only the armed timer fires the trigger,
    /// and it is then no longer armed.
    pub fn accept_timeout(&mut self, id: u64) -> (r: TimerVerdict)
        ensures
            (*final(self), r) == old(self).timeout_spec(id),
            old(self).wf() ==> final(self).wf(),
    {
        match self.armed {
            Some(a) => {
                if a == id {
                    self.armed = None;
                    TimerVerdict::Fire
                } else {
                    TimerVerdict::Stale
                }
            },
            None => TimerVerdict::Unexpected,
        }
    }

    /// Arms the timer again after a firing, while the task runs and no
    /// timer is armed; otherwise does nothing.
    pub fn rearm(&mut self) -> (r: Option<TimerRequest>)
        ensures
            (*final(self), r) == old(self).rearm_spec(),
            old(self).wf() ==> final(self).wf(),
    {
        if matches!(self.life, Lifecycle::Running) && self.armed.is_none() {
            self.arm()
        } else {
            None
        }
    }

    /// The stop hook: returns the timer to cancel, if one is armed, and
    /// leaves none armed. A running task is then stopping.
    pub fn on_stop(&mut self) -> (r: Option<u64>)
        ensures
            r == old(self).armed,
            *final(self) == old(self).stopped_spec(),
            final(self).wf(),
    {
        if matches!(self.life, Lifecycle::Running) {
            self.life = Lifecycle::Stopping;
        }
        self.armed.take()
    }

    /// The kill hook: the task is gone. Nothing is left to release.
    pub fn on_kill(&mut self)
        ensures
            *final(self) == (Control { life: Lifecycle::Terminated, armed: None, ..*old(self) }),
            final(self).wf(),
    {
        self.life = Lifecycle::Terminated;
        self.armed = None;
    }

    /// The end of the stream arrived, or the task raised it: unless it has
    /// already ended, the task ends, and says so by returning `true`, which
    /// means that it forwards the end downstream.
    pub fn end(&mut self) -> (forward: bool)
        ensures
            *final(self) == old(self).ended_spec(),
            forward == !old(self).is_terminated(),
            old(self).wf() ==> final(self).wf(),
    {
        if matches!(self.life, Lifecycle::Terminated) {
            false
        } else {
            self.life = Lifecycle::Terminated;
            self.armed = None;
            true
        }
    }
}

/// Each payload of `v` as an event, in order.
fn to_events<T>(v: Vec<T>) -> (r: Vec<Message<T>>)
    ensures
        r@ == events(v@),
{
    let ghost all = v@;
    let total: usize = v.len();
    let mut rest = v;
    let mut r: Vec<Message<T>> = Vec::new();
    let mut done: usize = 0;
    while rest.len() > 0
        invariant
            done + rest@.len() == all.len(),
            all.len() == total,
            rest@ == all.subrange(done as int, all.len() as int),
            r@ == events(all.subrange(0, done as int)),
        decreases rest@.len(),
    {
        let x = rest.remove(0);
        r.push(Message::Event(x));
        done = done + 1;
        assert(rest@ =~= all.subrange(done as int, all.len() as int));
        assert(r@ =~= events(all.subrange(0, done as int)));
    }
    assert(all.subrange(0, done as int) =~= all);
    r
}

/// What a task with control `c` and state `s` becomes, and sends, when
/// `m` arrives on its input port.
pub open spec fn handle_spec<I, O, L: Logic<I, O>>(c: Control, s: L::V, m: Message<I>) -> (
    Control,
    L::V,
    Seq<Message<O>>,
) {
    if c.is_terminated() {
        (c, s, seq![])
    } else {
        match m {
            Message::Event(x) => (c, L::next(s, x), events(L::out(s, x))),
            Message::End => {
                let (c2, forward) = c.end_input_spec();
                (c2, s, if forward {
                    seq![Message::End]
                } else {
                    seq![]
                })
            },
        }
    }
}

/// What a task becomes, and sends, when the messages `ms` arrive in order.
pub open spec fn run_messages<I, O, L: Logic<I, O>>(c: Control, s: L::V, ms: Seq<Message<I>>) -> (
    Control,
    L::V,
    Seq<Message<O>>,
)
    decreases ms.len(),
{
    if ms.len() == 0 {
        (c, s, seq![])
    } else {
        let (c1, s1, o1) = run_messages::<I, O, L>(c, s, ms.drop_last());
        let (c2, s2, o2) = handle_spec::<I, O, L>(c1, s1, ms.last());
        (c2, s2, o1 + o2)
    }
}

/// What one firing of a task's timer yields: what the firing was, the
/// messages to send, and the timer to schedule next, if any.
pub struct Firing<O> {
    pub verdict: TimerVerdict,
    pub out: Vec<Message<O>>,
    pub timer: Option<TimerRequest>,
}

/// The end of the stream, unless the control has already ended.
pub open spec fn closing<O>(c: Control) -> Seq<Message<O>> {
    if c.is_terminated() {
        seq![]
    } else {
        seq![Message::End]
    }
}

/// A task: its control, and its logic, which holds its state.
pub struct Task<I, O, L> {
    pub control: Control,
    pub logic: L,
    pub marker: PhantomData<(I, O)>,
}

impl<I, O, L: Logic<I, O>> Task<I, O, L> {
    /// A task with no timer and the role `ProducerConsumer`.
    pub fn new(name: &'static str, logic: L) -> (r: Self)
        ensures
            r.control == (Control {
                name,
                role: Role::ProducerConsumer,
                life: Lifecycle::Created,
                period: None,
                armed: None,
                next_timer: 0,
                inputs: 1,
            }),
            r.logic == logic,
    {
        Task { control: Control::new(name), logic, marker: PhantomData }
    }

    pub fn set_role(self, role: Role) -> (r: Self)
        ensures
            r.control == (Control { role, ..self.control }),
            r.logic == self.logic,
    {
        let Task { control, logic, marker } = self;
        Task { control: control.set_role(role), logic, marker }
    }

    /// A message arrived on the input port. An event goes through the logic,
    /// and what it emits goes out as events. The end of the stream closes
    /// one input; when it closes the last, it is forwarded and ends the task.
    /// An ended task receives nothing.
    pub fn handle(&mut self, msg: Message<I>) -> (out: Vec<Message<O>>)
        ensures
            (final(self).control, final(self).logic@, out@) == handle_spec::<I, O, L>(
                old(self).control,
                old(self).logic@,
                msg,
            ),
            old(self).control.wf() ==> final(self).control.wf(),
    {
        if matches!(self.control.life, Lifecycle::Terminated) {
            return Vec::new();
        }
        match msg {
            Message::Event(x) => {
                let emitted = self.logic.step(x);
                to_events(emitted)
            },
            Message::End => {
                let mut out: Vec<Message<O>> = Vec::new();
                if self.control.end_input() {
                    out.push(Message::End);
                }
                out
            },
        }
    }

    /// Hands `msgs` to the task one by one, in order, and returns all it sent.
    pub fn deliver(&mut self, msgs: Vec<Message<I>>) -> (out: Vec<Message<O>>)
        ensures
            (final(self).control, final(self).logic@, out@) == run_messages::<I, O, L>(
                old(self).control,
                old(self).logic@,
                msgs@,
            ),
    {
        let ghost c0 = self.control;
        let ghost s0 = self.logic@;
        let ghost all = msgs@;
        let total: usize = msgs.len();
        let mut rest = msgs;
        let mut out: Vec<Message<O>> = Vec::new();
        let mut done: usize = 0;
        while rest.len() > 0
            invariant
                done + rest@.len() == all.len(),
                all.len() == total,
                rest@ == all.subrange(done as int, all.len() as int),
                (self.control, self.logic@, out@) == run_messages::<I, O, L>(
                    c0,
                    s0,
                    all.subrange(0, done as int),
                ),
            decreases rest@.len(),
        {
            let m = rest.remove(0);
            let ghost before = all.subrange(0, done as int);
            let mut sent = self.handle(m);
            out.append(&mut sent);
            done = done + 1;
            proof {
                let now = all.subrange(0, done as int);
                assert(now.drop_last() =~= before);
                assert(now.last() == m);
            }
            assert(rest@ =~= all.subrange(done as int, all.len() as int));
        }
        assert(all.subrange(0, done as int) =~= all);
        out
    }

    /// Sets how many input edges feed the task.
    pub fn set_inputs(self, inputs: u64) -> (r: Self)
        ensures
            r.control == (Control { inputs, ..self.control }),
            r.logic == self.logic,
    {
        let Task { control, logic, marker } = self;
        Task { control: control.set_inputs(inputs), logic, marker }
    }

    /// The task ends of its own accord: it sends the end of the stream
    /// downstream, unless it has already ended, and is terminated.
    pub fn terminate(&mut self) -> (out: Vec<Message<O>>)
        ensures
            final(self).control == old(self).control.ended_spec(),
            final(self).logic == old(self).logic,
            out@ == (if old(self).control.is_terminated() {
                Seq::<Message<O>>::empty()
            } else {
                seq![Message::<O>::End]
            }),
            old(self).control.wf() ==> final(self).control.wf(),
    {
        let mut out: Vec<Message<O>> = Vec::new();
        if self.control.end() {
            out.push(Message::End);
        }
        out
    }
}

impl<I, O, L: Logic<I, O> + Trigger<O>> Task<I, O, L> {
    /// A task whose timer, once it starts, fires every `period_ms`
    /// milliseconds and runs the trigger of its logic.
    pub fn with_timer(name: &'static str, logic: L, period_ms: u64) -> (r: Self)
        ensures
            r.control == (Control {
                name,
                role: Role::ProducerConsumer,
                life: Lifecycle::Created,
                period: Some(period_ms),
                armed: None,
                next_timer: 0,
                inputs: 1,
            }),
            r.logic == logic,
    {
        Task { control: Control::with_timer(name, period_ms), logic, marker: PhantomData }
    }

    /// The timer carrying `id` fired. If it is the armed one, the trigger
    /// runs and what it emits is sent; if it ends the stream, the task ends
    /// and arms nothing, else the timer is armed again. Any other firing is
    /// ignored.
    pub fn on_timer(&mut self, id: u64) -> (r: Firing<O>)
        ensures
            ({
                let (c1, v) = old(self).control.timeout_spec(id);
                let s = old(self).logic@;
                &&& r.verdict == v
                &&& if v is Fire {
                    &&& final(self).logic@ == L::fired(s)
                    &&& if L::finishes(s) {
                        &&& final(self).control == c1.ended_spec()
                        &&& r.out@ == events(L::fired_out(s)) + closing::<O>(c1)
                        &&& r.timer is None
                    } else {
                        &&& (final(self).control, r.timer) == c1.rearm_spec()
                        &&& r.out@ == events(L::fired_out(s))
                    }
                } else {
                    &&& final(self).logic@ == s
                    &&& final(self).control == old(self).control
                    &&& r.out@ == Seq::<Message<O>>::empty()
                    &&& r.timer is None
                }
            }),
            old(self).control.wf() ==> final(self).control.wf(),
    {
        let verdict = self.control.accept_timeout(id);
        match verdict {
            TimerVerdict::Fire => {
                let (emitted, finish) = self.logic.fire();
                let mut out = to_events(emitted);
                if finish {
                    let mut end = self.terminate();
                    out.append(&mut end);
                    Firing { verdict, out, timer: None }
                } else {
                    let timer = self.control.rearm();
                    Firing { verdict, out, timer }
                }
            },
            _ => Firing { verdict, out: Vec::new(), timer: None },
        }
    }
}

/// The controls of a chain of tasks after the end of the stream reaches the
/// first: each task takes it as `Task::handle` does, and passes it to the
/// next only if it forwards it.
pub open spec fn propagate_end(cs: Seq<Control>) -> Seq<Control>
    decreases cs.len(),
{
    if cs.len() == 0 {
        cs
    } else {
        let (c0, forward) = cs[0].end_input_spec();
        seq![c0] + if forward {
            propagate_end(cs.drop_first())
        } else {
            cs.drop_first()
        }
    }
}

/// How many tasks of the chain receive the end of the stream when it
/// reaches the first; each receives it over its one input edge.
pub open spec fn end_deliveries(cs: Seq<Control>) -> nat
    decreases cs.len(),
{
    if cs.len() == 0 {
        0
    } else if cs[0].end_input_spec().1 {
        1 + end_deliveries(cs.drop_first())
    } else {
        1
    }
}

/// Termination reaches every task of a chain exactly once. When the end of
/// the stream reaches the first of a chain of live tasks, each fed by one
/// input, every task receives it once and ends with no timer armed. A later
/// end reaching the first task goes no further and changes nothing.
pub proof fn lemma_end_reaches_every_task(cs: Seq<Control>)
    requires
        forall|i: int|
            0 <= i < cs.len() ==> !(#[trigger] cs[i]).is_terminated() && cs[i].inputs <= 1,
    ensures
        propagate_end(cs).len() == cs.len(),
        forall|i: int|
            0 <= i < cs.len() ==> #[trigger] propagate_end(cs)[i] == cs[i].ended_spec(),
        forall|i: int|
            0 <= i < cs.len() ==> (#[trigger] propagate_end(cs)[i]).is_terminated()
                && propagate_end(cs)[i].armed is None,
        end_deliveries(cs) == cs.len(),
        propagate_end(propagate_end(cs)) == propagate_end(cs),
        cs.len() > 0 ==> end_deliveries(propagate_end(cs)) == 1,
    decreases cs.len(),
{
    if cs.len() > 0 {
        let rest = cs.drop_first();
        assert forall|i: int| 0 <= i < rest.len() implies !(#[trigger] rest[i]).is_terminated()
            && rest[i].inputs <= 1 by {
            assert(rest[i] == cs[i + 1]);
        }
        lemma_end_reaches_every_task(rest);
        let p = propagate_end(cs);
        assert(p == seq![cs[0].ended_spec()] + propagate_end(rest));
        assert forall|i: int| 0 <= i < cs.len() implies #[trigger] p[i] == cs[i].ended_spec() by {
            if i > 0 {
                assert(p[i] == propagate_end(rest)[i - 1]);
                assert(rest[i - 1] == cs[i]);
            }
        }
        assert(p[0].is_terminated());
        assert(p.drop_first() =~= propagate_end(rest));
        assert(propagate_end(p) == p);
    }
}

/// The controls of `ts`, in order.
pub open spec fn controls<I, O, L>(ts: Seq<Task<I, O, L>>) -> Seq<Control> {
    ts.map_values(|t: Task<I, O, L>| t.control)
}

/// Delivers the end of the stream to the first of a chain of tasks, and
/// each end that a task forwards to the next one, through `Task::handle`.
/// Returns the tasks and how many of them received the end.
pub fn pass_end<I, L: Logic<I, I>>(chain: Vec<Task<I, I, L>>) -> (r: (Vec<Task<I, I, L>>, usize))
    ensures
        controls(r.0@) == propagate_end(controls(chain@)),
        r.1 == end_deliveries(controls(chain@)),
        r.0@.len() == chain@.len(),
        forall|i: int| 0 <= i < chain@.len() ==> (#[trigger] r.0@[i]).logic@ == chain@[i].logic@,
{
    let ghost all = chain@;
    let total: usize = chain.len();
    let mut rest = chain;
    let mut done: Vec<Task<I, I, L>> = Vec::new();
    let mut carry = true;
    let mut received: usize = 0;
    while rest.len() > 0
        invariant
            done@.len() + rest@.len() == all.len(),
            all.len() == total,
            received <= done@.len(),
            rest@ == all.subrange(done@.len() as int, all.len() as int),
            forall|i: int| 0 <= i < done@.len() ==> (#[trigger] done@[i]).logic@ == all[i].logic@,
            controls(done@) + (if carry {
                propagate_end(controls(rest@))
            } else {
                controls(rest@)
            }) == propagate_end(controls(all)),
            received + (if carry {
                end_deliveries(controls(rest@))
            } else {
                0
            }) == end_deliveries(controls(all)),
        decreases rest@.len(),
    {
        let ghost rs = controls(rest@);
        let ghost ds = controls(done@);
        let ghost was_carrying = carry;
        let mut t = rest.remove(0);
        assert(rs[0] == t.control);
        assert(rs.drop_first() =~= controls(rest@));
        if carry {
            let sent = t.handle(Message::End);
            carry = sent.len() > 0;
            received = received + 1;
        }
        done.push(t);
        assert(controls(done@) =~= ds.push(t.control));
        proof {
            if !was_carrying {
                assert(controls(done@) + controls(rest@) =~= ds + rs);
            } else if carry {
                assert(controls(done@) + propagate_end(controls(rest@)) =~= ds + propagate_end(rs));
            } else {
                assert(controls(done@) + controls(rest@) =~= ds + propagate_end(rs));
            }
        }
    }
    (done, received)
}

proof fn lemma_events_append<T>(a: Seq<T>, b: Seq<T>)
    ensures
        events(a + b) == events(a) + events(b),
{
    assert(events(a + b) =~= events(a) + events(b));
}

/// Before its last input closes, a task handles every event as its logic
/// says, and each end of the stream only closes one input.
proof fn lemma_open_inputs<I, O, L: Logic<I, O>>(c: Control, s: L::V, ms: Seq<Message<I>>)
    requires
        !c.is_terminated(),
        ends(ms) < c.inputs,
    ensures
        run_messages::<I, O, L>(c, s, ms) == (
            Control { inputs: (c.inputs - ends(ms)) as u64, ..c },
            state_after::<I, O, L>(s, payloads(ms)),
            events(output_of::<I, O, L>(s, payloads(ms))),
        ),
    decreases ms.len(),
{
    if ms.len() == 0 {
        assert(Control { inputs: (c.inputs - 0) as u64, ..c } == c);
    } else {
        let p = ms.drop_last();
        lemma_open_inputs::<I, O, L>(c, s, p);
        match ms.last() {
            Message::Event(x) => {
                let ps = payloads(p);
                assert(payloads(ms) == ps.push(x));
                assert(ps.push(x).drop_last() =~= ps);
                lemma_events_append(
                    output_of::<I, O, L>(s, ps),
                    L::out(state_after::<I, O, L>(s, ps), x),
                );
            },
            Message::End => {
                assert(events(output_of::<I, O, L>(s, payloads(p))) + Seq::<Message<O>>::empty()
                    =~= events(output_of::<I, O, L>(s, payloads(p))));
            },
        }
    }
}

/// A task fed by `c.inputs` input edges ends exactly when the last of them
/// brings the end of the stream: having handled every event that came
/// before, it forwards that one end and is terminated.
pub proof fn lemma_last_end_ends_task<I, O, L: Logic<I, O>>(
    c: Control,
    s: L::V,
    ms: Seq<Message<I>>,
)
    requires
        !c.is_terminated(),
        c.inputs >= 1,
        ms.len() > 0,
        ms.last() is End,
        ends(ms.drop_last()) == c.inputs - 1,
    ensures
        run_messages::<I, O, L>(c, s, ms).0.is_terminated(),
        run_messages::<I, O, L>(c, s, ms).1 == state_after::<I, O, L>(s, payloads(ms)),
        run_messages::<I, O, L>(c, s, ms).2 == events(output_of::<I, O, L>(s, payloads(ms)))
            + seq![Message::<O>::End],
{
    let p = ms.drop_last();
    lemma_open_inputs::<I, O, L>(c, s, p);
    assert(payloads(ms) == payloads(p));
}

/// Stopping is idempotent and never schedules. A stopped task has no timer
/// armed and does not run, so stopping it again cancels nothing and changes
/// nothing, a late firing of a timer (one that had already fired, or was
/// cancelled) is ignored as unexpected, and nothing arms a new timer.
pub proof fn lemma_stop_is_idempotent(c: Control, id: u64)
    ensures
        c.stopped_spec().armed is None,
        c.stopped_spec().stopped_spec() == c.stopped_spec(),
        c.stopped_spec().timeout_spec(id) == (c.stopped_spec(), TimerVerdict::Unexpected),
        c.stopped_spec().rearm_spec() == (c.stopped_spec(), Option::<TimerRequest>::None),
        c.armed == Some(id) ==> c.timeout_spec(id).0.armed is None
            && c.timeout_spec(id).0.stopped_spec() == c.stopped_spec(),
{
}

} // verus!
