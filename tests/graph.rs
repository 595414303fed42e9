use arctime::pipeline::{Edge, NodeKind, Pipeline, Stream};

fn has_edge(edges: &[Edge], from: usize, to: usize) -> bool {
    edges.iter().any(|e| e.from == from && e.to == to)
}

fn position(order: &[usize], node: usize) -> usize {
    order.iter().position(|&k| k == node).unwrap()
}

#[test]
fn chain_starts_consumers_first() {
    let mut p = Pipeline::new();
    let a: Stream<i32> = p.source();
    let b: Stream<i32> = p.apply(a);
    let c: Stream<i32> = p.apply(b);
    p.sink(c);
    let plan = p.finalize();
    assert_eq!(plan.order, vec![3, 2, 1, 0]);
    assert_eq!(plan.edges.len(), 3);
    for e in plan.edges.iter() {
        assert!(position(&plan.order, e.to) < position(&plan.order, e.from));
    }
    assert_eq!(plan.nodes[0].kind, NodeKind::Source);
    assert_eq!(plan.nodes[3].kind, NodeKind::Sink);
}

#[test]
fn consumed_stream_is_no_longer_held() {
    let mut p = Pipeline::new();
    let a: Stream<i32> = p.source();
    assert!(p.holds(&a));
    let tail = a.tail();
    let b: Stream<i32> = p.apply(a);
    assert!(p.holds(&b));
    assert_eq!(b.tail(), tail + 1);
    let mut other = Pipeline::new();
    assert!(!other.holds(&b));
    let _ = other.source::<i32>();
    assert!(!other.holds(&b));
}

#[test]
fn merge_wires_two_relays_into_one_task() {
    let mut p = Pipeline::new();
    let a: Stream<i32> = p.source();
    let b: Stream<i32> = p.source();
    let m: Stream<i32> = p.merge(a, b);
    assert_eq!(m.tail(), 4);
    p.sink(m);
    let plan = p.finalize();
    assert_eq!(plan.nodes[2].kind, NodeKind::MergeLeft);
    assert_eq!(plan.nodes[3].kind, NodeKind::MergeRight);
    assert_eq!(plan.nodes[4].kind, NodeKind::Combine);
    assert!(has_edge(&plan.edges, 0, 2));
    assert!(has_edge(&plan.edges, 1, 3));
    assert!(has_edge(&plan.edges, 2, 4));
    assert!(has_edge(&plan.edges, 3, 4));
    assert!(has_edge(&plan.edges, 4, 5));
    assert_eq!(plan.order, vec![5, 4, 3, 2, 1, 0]);
}

#[test]
fn split_feeds_two_relays_from_the_tagging_task() {
    let mut p = Pipeline::new();
    let a: Stream<i32> = p.source();
    let (l, r): (Stream<i32>, Stream<i32>) = p.split(a);
    assert_eq!(l.tail(), 2);
    assert_eq!(r.tail(), 3);
    p.sink(l);
    p.sink(r);
    let plan = p.finalize();
    assert_eq!(plan.nodes[1].kind, NodeKind::Split);
    assert!(has_edge(&plan.edges, 0, 1));
    assert!(has_edge(&plan.edges, 1, 2));
    assert!(has_edge(&plan.edges, 1, 3));
    for e in plan.edges.iter() {
        assert!(position(&plan.order, e.to) < position(&plan.order, e.from));
    }
}

#[test]
fn empty_pipeline_starts_nothing() {
    let p = Pipeline::new();
    assert_eq!(p.len(), 0);
    let plan = p.finalize();
    assert!(plan.order.is_empty());
    assert!(plan.edges.is_empty());
}
