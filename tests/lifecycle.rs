use arctime::port::Message;
use arctime::source::Items;
use arctime::stages::{Forward, Increment};
use arctime::task::{pass_end, Control, Lifecycle, Role, Task, TimerRequest, TimerVerdict};

#[test]
fn new_task_is_created_without_timer() {
    let t = Task::new("Map", Increment);
    assert_eq!(t.control.life, Lifecycle::Created);
    assert_eq!(t.control.role, Role::ProducerConsumer);
    assert_eq!(t.control.period, None);
    assert_eq!(t.control.armed, None);
    let t = t.set_role(Role::Consumer);
    assert_eq!(t.control.role, Role::Consumer);
}

#[test]
fn event_runs_logic_and_end_terminates() {
    let mut t = Task::new("Map", Increment);
    t.control.on_start();
    assert_eq!(t.handle(Message::Event(4)), vec![Message::Event(5)]);
    assert_eq!(t.handle(Message::End), vec![Message::End]);
    assert!(t.control.is_terminated());
    assert_eq!(t.handle(Message::Event(5)), Vec::<Message<i64>>::new());
    assert_eq!(t.handle(Message::End), Vec::<Message<i64>>::new());
}

#[test]
fn end_reaches_each_task_of_a_chain_once() {
    let mut chain = vec![
        Task::new("A", Increment),
        Task::new("B", Increment),
        Task::new("C", Increment),
    ];
    for t in chain.iter_mut() {
        t.control.on_start();
    }
    let mut received = vec![0, 0, 0];
    let mut incoming = vec![Message::End];
    for (i, t) in chain.iter_mut().enumerate() {
        let mut next = Vec::new();
        for m in incoming {
            if m == Message::End {
                received[i] += 1;
            }
            next.extend(t.handle(m));
        }
        incoming = next;
    }
    assert_eq!(received, vec![1, 1, 1]);
    assert_eq!(incoming, vec![Message::End]);
    assert!(chain.iter().all(|t| t.control.is_terminated()));
    // a second end stops at the first task
    assert_eq!(chain[0].handle(Message::End), Vec::<Message<i64>>::new());
}

#[test]
fn start_arms_timer_with_period() {
    let mut c = Control::with_timer("Tick", 10);
    let r = c.on_start();
    assert_eq!(r, Some(TimerRequest { id: 0, delay_ms: 10 }));
    assert_eq!(c.armed, Some(0));
    assert_eq!(c.next_timer, 1);
    assert_eq!(c.life, Lifecycle::Running);
    // starting again schedules nothing more
    assert_eq!(c.on_start(), None);
    assert_eq!(c.armed, Some(0));
}

#[test]
fn start_without_timer_arms_nothing() {
    let mut c = Control::new("Plain");
    assert_eq!(c.on_start(), None);
    assert_eq!(c.life, Lifecycle::Running);
    assert_eq!(c.armed, None);
}

#[test]
fn timer_verdicts() {
    let mut c = Control::with_timer("Tick", 3);
    assert_eq!(c.accept_timeout(0), TimerVerdict::Unexpected);
    c.on_start();
    assert_eq!(c.accept_timeout(9), TimerVerdict::Stale);
    assert_eq!(c.armed, Some(0));
    assert_eq!(c.accept_timeout(0), TimerVerdict::Fire);
    assert_eq!(c.armed, None);
    assert_eq!(c.rearm(), Some(TimerRequest { id: 1, delay_ms: 3 }));
    assert_eq!(c.rearm(), None);
}

#[test]
fn timer_ids_wrap_at_the_top() {
    let mut c = Control::with_timer("Tick", 1);
    c.next_timer = u64::MAX;
    assert_eq!(c.on_start(), Some(TimerRequest { id: u64::MAX, delay_ms: 1 }));
    assert_eq!(c.next_timer, 0);
}

#[test]
fn stop_is_idempotent() {
    let mut c = Control::new("Plain");
    assert_eq!(c.on_stop(), None);
    assert_eq!(c.on_stop(), None);
    assert_eq!(c.life, Lifecycle::Created);

    let mut t = Control::with_timer("Tick", 7);
    t.on_start();
    assert_eq!(t.on_stop(), Some(0));
    assert_eq!(t.life, Lifecycle::Stopping);
    assert_eq!(t.on_stop(), None);
    // the cancelled timer fires late: ignored, nothing re-armed
    assert_eq!(t.accept_timeout(0), TimerVerdict::Unexpected);
    assert_eq!(t.rearm(), None);
    assert_eq!(t.armed, None);
}

#[test]
fn stop_after_fired_timer_cancels_nothing() {
    let mut t = Control::with_timer("Tick", 7);
    t.on_start();
    assert_eq!(t.accept_timeout(0), TimerVerdict::Fire);
    assert_eq!(t.on_stop(), None);
    assert_eq!(t.on_stop(), None);
}

#[test]
fn restart_after_stop_arms_a_fresh_timer() {
    let mut t = Control::with_timer("Tick", 7);
    t.on_start();
    t.on_stop();
    assert_eq!(t.on_start(), Some(TimerRequest { id: 1, delay_ms: 7 }));
    assert_eq!(t.life, Lifecycle::Running);
}

#[test]
fn kill_terminates() {
    let mut t = Control::with_timer("Tick", 7);
    t.on_start();
    t.on_kill();
    assert_eq!(t.life, Lifecycle::Terminated);
    assert_eq!(t.armed, None);
    assert!(!t.end());
}

#[test]
fn source_emits_one_item_per_tick_then_ends() {
    let mut s = Task::source(vec![5i64, 6], 10);
    assert_eq!(s.control.role, Role::Producer);
    let first = s.control.on_start().unwrap();
    let t1 = s.on_timer(first.id);
    assert_eq!(t1.out, vec![Message::Event(5)]);
    let second = t1.timer.unwrap();
    assert_eq!(second.delay_ms, 10);
    // a stale firing is ignored
    let stale = s.on_timer(first.id);
    assert_eq!(stale.verdict, TimerVerdict::Stale);
    assert!(stale.out.is_empty());
    assert_eq!(stale.timer, None);
    let t2 = s.on_timer(second.id);
    assert_eq!(t2.out, vec![Message::Event(6)]);
    let t3 = s.on_timer(t2.timer.unwrap().id);
    assert_eq!(t3.out, vec![Message::End]);
    assert_eq!(t3.timer, None);
    assert!(s.control.is_terminated());
    assert!(s.logic.items.is_empty());
    // nothing is armed any more: a late firing sends nothing
    let late = s.on_timer(0);
    assert_eq!(late.verdict, TimerVerdict::Unexpected);
    assert!(late.out.is_empty());
}

#[test]
fn terminate_sends_the_end_once() {
    let mut t = Task::new("Map", Increment);
    t.control.on_start();
    assert_eq!(t.terminate(), vec![Message::End]);
    assert!(t.control.is_terminated());
    assert_eq!(t.terminate(), Vec::<Message<i64>>::new());
    assert_eq!(t.handle(Message::Event(1)), Vec::<Message<i64>>::new());
}

#[test]
fn combining_task_ends_only_after_both_inputs_end() {
    let mut t = Task::new("Combine", Increment).set_inputs(2);
    t.control.on_start();
    assert_eq!(t.handle(Message::Event(1)), vec![Message::Event(2)]);
    // the first input ends: nothing forwarded, the task goes on
    assert_eq!(t.handle(Message::End), Vec::<Message<i64>>::new());
    assert!(!t.control.is_terminated());
    assert_eq!(t.control.inputs, 1);
    assert_eq!(t.handle(Message::Event(5)), vec![Message::Event(6)]);
    // the second input ends: forwarded once, the task ends
    assert_eq!(t.handle(Message::End), vec![Message::End]);
    assert!(t.control.is_terminated());
    assert_eq!(t.handle(Message::Event(7)), Vec::<Message<i64>>::new());
}

#[test]
fn deliver_runs_messages_in_order() {
    let mut t = Task::new("Map", Increment);
    t.control.on_start();
    let out = t.deliver(vec![Message::Event(1), Message::Event(2), Message::End, Message::Event(3)]);
    assert_eq!(out, vec![Message::Event(2), Message::Event(3), Message::End]);
}

#[test]
fn pass_end_reaches_each_task_once() {
    let mut chain = vec![Task::new("A", Increment), Task::new("B", Increment), Task::new("C", Increment)];
    for t in chain.iter_mut() {
        t.control.on_start();
    }
    let (chain, received) = pass_end(chain);
    assert_eq!(received, 3);
    assert!(chain.iter().all(|t| t.control.is_terminated()));
    let (chain, received) = pass_end(chain);
    assert_eq!(received, 1);
    assert_eq!(chain.len(), 3);
}

#[test]
fn pass_end_stops_at_a_task_with_another_open_input() {
    let chain = vec![
        Task::new("A", Increment),
        Task::new("B", Increment).set_inputs(2),
        Task::new("C", Increment),
    ];
    let (chain, received) = pass_end(chain);
    assert_eq!(received, 2);
    assert!(chain[0].control.is_terminated());
    assert!(!chain[1].control.is_terminated());
    assert_eq!(chain[1].control.inputs, 1);
    assert!(!chain[2].control.is_terminated());
}

#[test]
fn task_with_timer_runs_its_trigger() {
    let mut t = Task::with_timer("Ticker", Items { items: vec![7i64] }, 4);
    assert_eq!(t.control.period, Some(4));
    assert_eq!(t.control.armed, None);
    let first = t.control.on_start().unwrap();
    assert_eq!(first, TimerRequest { id: 0, delay_ms: 4 });
    let f1 = t.on_timer(first.id);
    assert_eq!(f1.verdict, TimerVerdict::Fire);
    assert_eq!(f1.out, vec![Message::Event(7)]);
    let next = f1.timer.unwrap();
    assert_eq!(next, TimerRequest { id: 1, delay_ms: 4 });
    let f2 = t.on_timer(next.id);
    assert_eq!(f2.out, vec![Message::End]);
    assert_eq!(f2.timer, None);
    assert!(t.control.is_terminated());
}

#[test]
fn forward_passes_values_unchanged() {
    let mut t = Task::new("Pass", Forward::<i64>::new());
    assert_eq!(
        t.deliver(vec![Message::Event(3), Message::Event(-1), Message::End]),
        vec![Message::Event(3), Message::Event(-1), Message::End]
    );
}
