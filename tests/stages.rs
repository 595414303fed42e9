use arctime::data::Union;
use arctime::logic::{feed, Chain, Logic};
use arctime::port::Message;
use arctime::relay::{SplitLeft, SplitRight, TagLeft, TagRight, Unify};
use arctime::source::run_local;
use arctime::stages::{ByParity, Collect, Increment, KeepEven, RunningSum};
use arctime::task::Task;

#[test]
fn source_add_one_keep_even_collects_two_and_four() {
    let mut src = Task::source(vec![0, 1, 2, 3, 4], 10);
    let logic = Chain::new(Chain::new(Increment, KeepEven), Collect { items: vec![] });
    let mut sink = Task::new("Collect", logic);
    let out = run_local(&mut src, &mut sink);
    assert_eq!(sink.logic.second.items, vec![2, 4]);
    assert_eq!(out, vec![Message::End]);
    assert!(sink.control.is_terminated());
    assert!(src.control.is_terminated());
}

#[test]
fn run_local_forwards_every_event_then_the_end() {
    let mut src = Task::source(vec![1, 2, 3], 5);
    let mut task = Task::new("Sum", RunningSum { total: 0 });
    let out = run_local(&mut src, &mut task);
    assert_eq!(
        out,
        vec![Message::Event(1), Message::Event(3), Message::Event(6), Message::End]
    );
    assert_eq!(task.logic.total, 6);
}

#[test]
fn run_local_on_empty_source_sends_only_the_end() {
    let mut src = Task::source(Vec::<i64>::new(), 5);
    let mut task = Task::new("Map", Increment);
    let out = run_local(&mut src, &mut task);
    assert_eq!(out, vec![Message::End]);
    assert!(task.control.is_terminated());
}

#[test]
fn chain_equals_composition_of_stages() {
    let input = vec![0, 1, 2, 3, 4, 5, 6, 7];
    let mut chained = Chain::new(Increment, Chain::new(KeepEven, RunningSum { total: 0 }));
    let together = feed(&mut chained, input.clone());
    let mut a = Increment;
    let mut b = KeepEven;
    let mut c = RunningSum { total: 0 };
    let one = feed(&mut a, input);
    let two = feed(&mut b, one);
    let apart = feed(&mut c, two);
    assert_eq!(together, apart);
    assert_eq!(together, vec![2, 6, 12, 20]);
    assert_eq!(chained.second.second.total, c.total);
}

#[test]
fn feed_keeps_order() {
    let mut a = Increment;
    assert_eq!(feed(&mut a, vec![5, 3, 9]), vec![6, 4, 10]);
    assert_eq!(feed(&mut a, vec![]), Vec::<i64>::new());
}

#[test]
fn merge_keeps_every_value_once() {
    let mut left: TagLeft<i64, i64> = TagLeft::new();
    let mut right: TagRight<i64, i64> = TagRight::new();
    let tagged_left = feed(&mut left, vec![1, 2, 3]);
    let tagged_right = feed(&mut right, vec![10, 20]);
    assert_eq!(tagged_left, vec![Union::L(1), Union::L(2), Union::L(3)]);
    assert_eq!(tagged_right, vec![Union::R(10), Union::R(20)]);
    // one interleaving the runtime may pick
    let arrived = vec![
        tagged_left[0].clone(),
        tagged_right[0].clone(),
        tagged_left[1].clone(),
        tagged_left[2].clone(),
        tagged_right[1].clone(),
    ];
    let mut combine: Unify<i64> = Unify::new();
    let mut out = feed(&mut combine, arrived);
    assert_eq!(out, vec![1, 10, 2, 3, 20]);
    out.sort();
    assert_eq!(out, vec![1, 2, 3, 10, 20]);
}

#[test]
fn split_by_parity_keeps_relative_order() {
    let input = vec![0, 1, 2, 3, 4, 5];
    let mut left = Chain::new(ByParity, SplitLeft::new());
    let mut right = Chain::new(ByParity, SplitRight::new());
    assert_eq!(feed(&mut left, input.clone()), vec![0, 2, 4]);
    assert_eq!(feed(&mut right, input), vec![1, 3, 5]);
}

#[test]
fn split_relays_drop_the_other_tag() {
    let mut l: SplitLeft<i64, i64> = SplitLeft::new();
    let mut r: SplitRight<i64, i64> = SplitRight::new();
    assert_eq!(l.step(Union::R(7)), Vec::<i64>::new());
    assert_eq!(r.step(Union::L(7)), Vec::<i64>::new());
    assert_eq!(l.step(Union::L(8)), vec![8]);
    assert_eq!(r.step(Union::R(9)), vec![9]);
}

#[test]
fn increment_wraps_at_the_top() {
    let mut a = Increment;
    assert_eq!(a.step(i64::MAX), vec![i64::MIN]);
    assert_eq!(a.step(-1), vec![0]);
}

#[test]
fn keep_even_handles_negatives() {
    let mut k = KeepEven;
    assert_eq!(feed(&mut k, vec![-4, -3, 0, 7, 10]), vec![-4, 0, 10]);
}

#[test]
fn running_sum_reduces() {
    let mut r = RunningSum { total: 0 };
    assert_eq!(feed(&mut r, vec![2, 4, 6]), vec![2, 6, 12]);
    assert_eq!(r.total, 12);
}

#[test]
fn merge_through_tasks_waits_for_both_ends() {
    let mut left = Task::new("Merge Left", TagLeft::<i64, i64>::new());
    let mut right = Task::new("Merge Right", TagRight::<i64, i64>::new());
    let mut combine = Task::new("Combine", Unify::<i64>::new()).set_inputs(2);
    let from_left = left.deliver(vec![Message::Event(1), Message::Event(2), Message::Event(3), Message::End]);
    let from_right = right.deliver(vec![Message::Event(10), Message::Event(20), Message::End]);
    // the right input ends first, the left one goes on
    let arrived = vec![
        from_right[0].clone(),
        from_left[0].clone(),
        from_right[1].clone(),
        from_right[2].clone(),
        from_left[1].clone(),
        from_left[2].clone(),
        from_left[3].clone(),
    ];
    let out = combine.deliver(arrived);
    assert_eq!(
        out,
        vec![
            Message::Event(10),
            Message::Event(1),
            Message::Event(20),
            Message::Event(2),
            Message::Event(3),
            Message::End
        ]
    );
    assert!(combine.control.is_terminated());
}
