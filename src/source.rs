//! The source: a task with no input whose trigger emits one item of a
//! finite sequence on each firing of its timer, and ends the stream once the
//! sequence is exhausted.
use core::marker::PhantomData;
use vstd::prelude::*;

use crate::logic::{output_of, state_after, Logic, Trigger};
use crate::port::{events, Message};
use crate::task::{Control, Lifecycle, Role, Task};

verus! {

/// The items that a source has still to emit.
pub struct Items<T> {
    pub items: Vec<T>,
}

impl<T> View for Items<T> {
    type V = Seq<T>;

    open spec fn view(&self) -> Seq<T> {
        self.items@
    }
}

/// A source has no input: nothing arrives, so nothing happens on input.
impl<T> Logic<(), T> for Items<T> {
    open spec fn next(s: Seq<T>, input: ()) -> Seq<T> {
        s
    }

    open spec fn out(s: Seq<T>, input: ()) -> Seq<T> {
        seq![]
    }

    fn step(&mut self, input: ()) -> (r: Vec<T>) {
        Vec::new()
    }
}

/// Each firing emits the next item; the firing that finds none left ends
/// the stream.
impl<T> Trigger<T> for Items<T> {
    open spec fn fired(s: Seq<T>) -> Seq<T> {
        if s.len() > 0 {
            s.drop_first()
        } else {
            s
        }
    }

    open spec fn fired_out(s: Seq<T>) -> Seq<T> {
        if s.len() > 0 {
            seq![s[0]]
        } else {
            seq![]
        }
    }

    open spec fn finishes(s: Seq<T>) -> bool {
        s.len() == 0
    }

    fn fire(&mut self) -> (r: (Vec<T>, bool)) {
        let mut out: Vec<T> = Vec::new();
        if self.items.len() > 0 {
            let item = self.items.remove(0);
            out.push(item);
            (out, false)
        } else {
            (out, true)
        }
    }
}

impl<T> Task<(), T, Items<T>> {
    /// A source over `items` whose timer fires every `period_ms` milliseconds.
    pub fn source(items: Vec<T>, period_ms: u64) -> (r: Self)
        ensures
            r.control == (Control {
                name: "Source",
                role: Role::Producer,
                life: Lifecycle::Created,
                period: Some(period_ms),
                armed: None,
                next_timer: 0,
                inputs: 0,
            }),
            r.logic@ == items@,
    {
        let control = Control::with_timer("Source", period_ms).set_role(Role::Producer).set_inputs(0);
        Task { control, logic: Items { items }, marker: PhantomData }
    }
}

proof fn lemma_events_append<T>(a: Seq<T>, b: Seq<T>)
    ensures
        events(a + b) == events(a) + events(b),
{
    assert(events(a + b) =~= events(a) + events(b));
}

/// Runs a source into one task on this thread, in the order the runtime
/// keeps on one edge: the task starts before the source, and each firing of
/// the source's timer hands what the source sent to the task. Returns all
/// that the task sent, which ends with the end of the stream.
pub fn run_local<T, O, L: Logic<T, O>>(src: &mut Task<(), T, Items<T>>, task: &mut Task<T, O, L>) -> (out: Vec<
    Message<O>,
>)
    requires
        old(src).control.life is Created,
        old(src).control.period is Some,
        !old(task).control.is_terminated(),
        old(task).control.inputs == 1,
    ensures
        out@ == events(output_of::<T, O, L>(old(task).logic@, old(src).logic@)) + seq![
            Message::<O>::End,
        ],
        final(task).logic@ == state_after::<T, O, L>(old(task).logic@, old(src).logic@),
        final(task).control.is_terminated(),
        final(src).control.is_terminated(),
        final(src).logic@.len() == 0,
{
    let ghost all = src.logic@;
    let ghost logic0 = task.logic@;
    let total: usize = src.logic.items.len();
    task.control.on_start();
    let mut pending = src.control.on_start();
    let mut out: Vec<Message<O>> = Vec::new();
    let mut done: usize = 0;
    while pending.is_some()
        invariant
            all.len() == total,
            done <= total,
            src.control.period is Some,
            src.logic@ == all.subrange(done as int, all.len() as int),
            !src.control.is_terminated() ==> {
                &&& pending is Some
                &&& src.control.armed == Some(pending->Some_0.id)
                &&& src.control.life is Running
                &&& !task.control.is_terminated()
                &&& task.control.inputs == 1
                &&& task.logic@ == state_after::<T, O, L>(logic0, all.subrange(0, done as int))
                &&& out@ == events(output_of::<T, O, L>(logic0, all.subrange(0, done as int)))
            },
            src.control.is_terminated() ==> {
                &&& pending is None
                &&& done == total
                &&& task.control.is_terminated()
                &&& task.logic@ == state_after::<T, O, L>(logic0, all)
                &&& out@ == events(output_of::<T, O, L>(logic0, all)) + seq![Message::<O>::End]
            },
        decreases src.logic@.len() + (if src.control.is_terminated() {
            0int
        } else {
            1int
        }),
    {
        let req = pending.unwrap();
        let ghost before = all.subrange(0, done as int);
        let firing = src.on_timer(req.id);
        pending = firing.timer;
        let mut sent = firing.out;
        if sent.len() > 0 {
            let m = sent.remove(0);
            let is_event = !m.is_end();
            let mut got = task.handle(m);
            out.append(&mut got);
            if is_event {
                done = done + 1;
                proof {
                    let now = all.subrange(0, done as int);
                    assert(now.drop_last() =~= before);
                    lemma_events_append(
                        output_of::<T, O, L>(logic0, before),
                        L::out(state_after::<T, O, L>(logic0, before), now.last()),
                    );
                }
                assert(src.logic@ =~= all.subrange(done as int, all.len() as int));
            } else {
                assert(before =~= all);
            }
        }
    }
    out
}

} // verus!
