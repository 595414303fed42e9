//! The graph builder. A `Pipeline` records nodes and edges as streams are
//! extended; a `Stream<T>` is the output of the node added last on one
//! branch, carrying payloads of type `T`. Finalizing yields a plan: the whole
//! graph, wired, and the order in which to start its nodes.
use core::marker::PhantomData;
use vstd::prelude::*;

use crate::task::Role;

verus! {

/// What a node of the graph does.
#[derive(Clone, Copy, Debug, PartialEq, Eq, Structural)]
pub enum NodeKind {
    /// Emits a finite sequence on a timer.
    Source,
    /// A task added by `apply`.
    Stage,
    /// Tags the left input of a merge.
    MergeLeft,
    /// Tags the right input of a merge.
    MergeRight,
    /// The task that reads the tagged inputs of a merge.
    Combine,
    /// The task that tags its outputs for the two branches of a split.
    Split,
    /// Forwards the left-tagged outputs of a split.
    SplitLeft,
    /// Forwards the right-tagged outputs of a split.
    SplitRight,
    /// The last task of a branch.
    Sink,
}

#[derive(Clone, Copy, Debug, PartialEq, Eq, Structural)]
pub struct Node {
    pub kind: NodeKind,
    pub role: Role,
    /// How many input edges feed the node: the ends of the stream it
    /// waits for before it ends.
    pub inputs: u64,
}

/// The output port of node `from` wired to the input port of node `to`.
#[derive(Clone, Copy, Debug, PartialEq, Eq, Structural)]
pub struct Edge {
    pub from: usize,
    pub to: usize,
}

/// The storage of a graph under construction.
struct Parts {
    nodes: Vec<Node>,
    edges: Vec<Edge>,
    open: Vec<bool>,
}

/// A graph under construction. It is always well formed.
pub struct Pipeline {
    parts: Parts,
}

/// The output of a node that nothing reads yet.
pub struct Stream<T> {
    tail: usize,
    marker: PhantomData<T>,
}

/// What a `Pipeline` holds: its nodes in the order they were added, which
/// is the order of their deferred starts; its edges; and, for each node,
/// whether its output is a stream still to be consumed.
pub struct Graph {
    pub nodes: Seq<Node>,
    pub edges: Seq<Edge>,
    pub open: Seq<bool>,
}

impl Graph {
    /// Every edge runs from an earlier node to a later one; an open output
    /// is not wired yet; nothing feeds a producer and a consumer feeds
    /// nothing; only a split node feeds more than one node.
    pub open spec fn wf(self) -> bool {
        &&& self.open.len() == self.nodes.len()
        &&& forall|i: int|
            0 <= i < self.edges.len() ==> (#[trigger] self.edges[i]).from < self.edges[i].to
                < self.nodes.len()
        &&& forall|i: int| 0 <= i < self.edges.len() ==> !self.open[(#[trigger] self.edges[i]).from as int]
        &&& forall|i: int|
            0 <= i < self.edges.len() ==> !(self.nodes[(#[trigger] self.edges[i]).to as int].role is Producer)
                && !(self.nodes[self.edges[i].from as int].role is Consumer)
        &&& forall|i: int, j: int|
            0 <= i < self.edges.len() && 0 <= j < self.edges.len() && i != j && (#[trigger] self.edges[i]).from
                == (#[trigger] self.edges[j]).from ==> self.nodes[self.edges[i].from as int].kind is Split
        &&& forall|k: int|
            0 <= k < self.nodes.len() && #[trigger] self.open[k] ==> !(self.nodes[k].role is Consumer)
    }

    /// The graph after adding a node with no input.
    pub open spec fn add_source(self) -> Graph {
        Graph {
            nodes: self.nodes.push(Node { kind: NodeKind::Source, role: Role::Producer, inputs: 0 }),
            edges: self.edges,
            open: self.open.push(true),
        }
    }

    /// The graph after adding a node fed by the open output `from`; its own
    /// output is open unless it is a consumer.
    pub open spec fn add_fed(self, from: usize, kind: NodeKind, role: Role) -> Graph {
        Graph {
            nodes: self.nodes.push(Node { kind, role, inputs: 1 }),
            edges: self.edges.push(Edge { from, to: self.nodes.len() as usize }),
            open: self.open.update(from as int, false).push(!(role is Consumer)),
        }
    }

    /// The graph after adding the two branches of the split node `t`, both
    /// fed by it, their outputs open.
    pub open spec fn add_branches(self, t: usize) -> Graph {
        Graph {
            nodes: self.nodes.push(Node { kind: NodeKind::SplitLeft, role: Role::ProducerConsumer, inputs: 1 }).push(
                Node { kind: NodeKind::SplitRight, role: Role::ProducerConsumer, inputs: 1 },
            ),
            edges: self.edges.push(Edge { from: t, to: self.nodes.len() as usize }).push(
                Edge { from: t, to: (self.nodes.len() + 1) as usize },
            ),
            open: self.open.update(t as int, false).push(true).push(true),
        }
    }

    /// The graph after adding a node fed by the two open outputs `a` and `b`.
    pub open spec fn add_joined(self, a: usize, b: usize, kind: NodeKind) -> Graph {
        Graph {
            nodes: self.nodes.push(Node { kind, role: Role::ProducerConsumer, inputs: 2 }),
            edges: self.edges.push(Edge { from: a, to: self.nodes.len() as usize }).push(
                Edge { from: b, to: self.nodes.len() as usize },
            ),
            open: self.open.update(a as int, false).update(b as int, false).push(true),
        }
    }
}

/// Whether node `a` starts before node `b` in `order`.
pub open spec fn starts_before(order: Seq<usize>, a: usize, b: usize) -> bool {
    exists|i: int, j: int|
        0 <= i < j < order.len() && #[trigger] order[i] == a && #[trigger] order[j] == b
}

impl View for Parts {
    type V = Graph;

    closed spec fn view(&self) -> Graph {
        Graph { nodes: self.nodes@, edges: self.edges@, open: self.open@ }
    }
}

impl View for Pipeline {
    type V = Graph;

    closed spec fn view(&self) -> Graph {
        self.parts@
    }
}

impl<T> Stream<T> {
    /// The node whose output this stream is.
    pub closed spec fn tail_spec(&self) -> usize {
        self.tail
    }

    pub fn tail(&self) -> (r: usize)
        ensures
            r == self.tail_spec(),
    {
        self.tail
    }
}

/// The graph once built, and the order in which to start its nodes.
pub struct Plan {
    pub nodes: Vec<Node>,
    pub edges: Vec<Edge>,
    pub order: Vec<usize>,
}

impl Parts {
    fn add_node(&mut self, kind: NodeKind, role: Role, inputs: u64, open: bool) -> (k: usize)
        requires
            old(self)@.nodes.len() < usize::MAX,
        ensures
            k == old(self)@.nodes.len(),
            final(self)@.nodes == old(self)@.nodes.push(Node { kind, role, inputs }),
            final(self)@.open == old(self)@.open.push(open),
            final(self)@.edges == old(self)@.edges,
    {
        let k = self.nodes.len();
        self.nodes.push(Node { kind, role, inputs });
        self.open.push(open);
        k
    }

    fn wire(&mut self, from: usize, to: usize)
        requires
            from < old(self)@.open.len(),
        ensures
            final(self)@.nodes == old(self)@.nodes,
            final(self)@.edges == old(self)@.edges.push(Edge { from, to }),
            final(self)@.open == old(self)@.open.update(from as int, false),
    {
        self.edges.push(Edge { from, to });
        self.open.set(from, false);
    }

    fn add_fed(&mut self, from: usize, kind: NodeKind, role: Role) -> (k: usize)
        requires
            old(self)@.wf(),
            from < old(self)@.nodes.len(),
            old(self)@.open[from as int],
            old(self)@.nodes.len() < usize::MAX,
            !(role is Producer),
        ensures
            final(self)@ == old(self)@.add_fed(from, kind, role),
            k == old(self)@.nodes.len(),
            final(self)@.wf(),
    {
        let ghost g = self@;
        let k = self.add_node(kind, role, 1, !matches!(role, Role::Consumer));
        self.wire(from, k);
        proof {
            assert(self@.open =~= g.add_fed(from, kind, role).open);
            let h = self@;
            assert forall|i: int, j: int|
                0 <= i < h.edges.len() && 0 <= j < h.edges.len() && i != j && (#[trigger] h.edges[i]).from
                    == (#[trigger] h.edges[j]).from implies h.nodes[h.edges[i].from as int].kind is Split by {
                if i < g.edges.len() && j < g.edges.len() {
                    assert(h.edges[i] == g.edges[i] && h.edges[j] == g.edges[j]);
                } else if i < g.edges.len() {
                    assert(!g.open[g.edges[i].from as int]);
                } else {
                    assert(!g.open[g.edges[j].from as int]);
                }
            }
        }
        k
    }

    fn add_joined(&mut self, a: usize, b: usize, kind: NodeKind) -> (k: usize)
        requires
            old(self)@.wf(),
            a < old(self)@.nodes.len(),
            b < old(self)@.nodes.len(),
            a != b,
            old(self)@.open[a as int],
            old(self)@.open[b as int],
            old(self)@.nodes.len() < usize::MAX,
        ensures
            final(self)@ == old(self)@.add_joined(a, b, kind),
            k == old(self)@.nodes.len(),
            final(self)@.wf(),
    {
        let ghost g = self@;
        let k = self.add_node(kind, Role::ProducerConsumer, 2, true);
        self.wire(a, k);
        self.wire(b, k);
        proof {
            assert(self@.open =~= g.add_joined(a, b, kind).open);
            let h = self@;
            let n = g.edges.len();
            assert forall|i: int, j: int|
                0 <= i < h.edges.len() && 0 <= j < h.edges.len() && i != j && (#[trigger] h.edges[i]).from
                    == (#[trigger] h.edges[j]).from implies h.nodes[h.edges[i].from as int].kind is Split by {
                if i < n && j < n {
                } else if i < n {
                    assert(!g.open[g.edges[i].from as int]);
                } else if j < n {
                    assert(!g.open[g.edges[j].from as int]);
                }
            }
            assert forall|i: int| 0 <= i < h.edges.len() implies !h.open[(#[trigger] h.edges[i]).from as int] by {
                if i < n {
                    assert(!g.open[g.edges[i].from as int]);
                }
            }
        }
        k
    }

    fn add_branches(&mut self, t: usize) -> (k: usize)
        requires
            old(self)@.wf(),
            t < old(self)@.nodes.len(),
            old(self)@.open[t as int],
            old(self)@.nodes[t as int].kind is Split,
            old(self)@.nodes.len() + 1 < usize::MAX,
        ensures
            final(self)@ == old(self)@.add_branches(t),
            k == old(self)@.nodes.len(),
            final(self)@.wf(),
    {
        let ghost g = self@;
        let k = self.add_node(NodeKind::SplitLeft, Role::ProducerConsumer, 1, true);
        let k2 = self.add_node(NodeKind::SplitRight, Role::ProducerConsumer, 1, true);
        self.wire(t, k);
        self.wire(t, k2);
        proof {
            assert(self@.open =~= g.add_branches(t).open);
            let h = self@;
            let n = g.edges.len();
            assert forall|i: int, j: int|
                0 <= i < h.edges.len() && 0 <= j < h.edges.len() && i != j && (#[trigger] h.edges[i]).from
                    == (#[trigger] h.edges[j]).from implies h.nodes[h.edges[i].from as int].kind is Split by {
                if i < n && j < n {
                } else if i < n {
                    assert(!g.open[g.edges[i].from as int]);
                } else if j < n {
                    assert(!g.open[g.edges[j].from as int]);
                }
            }
            assert forall|i: int| 0 <= i < h.edges.len() implies !h.open[(#[trigger] h.edges[i]).from as int] by {
                if i < n {
                    assert(!g.open[g.edges[i].from as int]);
                }
            }
        }
        k
    }
}

impl Pipeline {
    #[verifier::type_invariant]
    closed spec fn inv(self) -> bool {
        self.parts@.wf()
    }

    /// Takes the storage out, leaving an empty graph in its place.
    fn take_parts(&mut self) -> (p: Parts)
        ensures
            p@ == old(self)@,
            p@.wf(),
            final(self)@ == (Graph { nodes: seq![], edges: seq![], open: seq![] }),
    {
        proof {
            use_type_invariant(&*self);
        }
        let mut p = Parts { nodes: Vec::new(), edges: Vec::new(), open: Vec::new() };
        proof {
            assert(p@.wf());
        }
        core::mem::swap(&mut self.parts, &mut p);
        p
    }

    /// Puts well-formed storage back.
    fn put_parts(&mut self, p: Parts)
        requires
            p@.wf(),
        ensures
            final(self)@ == p@,
    {
        let mut p = p;
        core::mem::swap(&mut self.parts, &mut p);
    }

    /// Whether `s` is an output of this graph that nothing reads yet.
    pub open spec fn holds_spec<T>(&self, s: &Stream<T>) -> bool {
        s.tail_spec() < self@.nodes.len() && self@.open[s.tail_spec() as int]
    }

    pub fn new() -> (r: Pipeline)
        ensures
            r@ == (Graph { nodes: seq![], edges: seq![], open: seq![] }),
            r@.wf(),
    {
        let parts = Parts { nodes: Vec::new(), edges: Vec::new(), open: Vec::new() };
        proof {
            assert(parts@.wf());
        }
        Pipeline { parts }
    }

    /// The number of nodes.
    pub fn len(&self) -> (r: usize)
        ensures
            r == self@.nodes.len(),
    {
        self.parts.nodes.len()
    }

    /// Whether `s` is an output of this graph that nothing reads yet.
    pub fn holds<T>(&self, s: &Stream<T>) -> (r: bool)
        ensures
            r == self.holds_spec(s),
    {
        proof {
            use_type_invariant(self);
        }
        s.tail < self.parts.nodes.len() && self.parts.open[s.tail]
    }

    /// Adds a source node; its output is the stream returned.
    pub fn source<T>(&mut self) -> (s: Stream<T>)
        requires
            old(self)@.nodes.len() < usize::MAX,
        ensures
            final(self)@ == old(self)@.add_source(),
            s.tail_spec() == old(self)@.nodes.len(),
            final(self).holds_spec(&s),
            final(self)@.wf(),
    {
        let mut parts = self.take_parts();
        let k = parts.add_node(NodeKind::Source, Role::Producer, 0, true);
        self.put_parts(parts);
        Stream { tail: k, marker: PhantomData }
    }

    /// Adds a task fed by `s`; its output is the stream returned.
    pub fn apply<I, O>(&mut self, s: Stream<I>) -> (r: Stream<O>)
        requires
            old(self).holds_spec(&s),
            old(self)@.nodes.len() < usize::MAX,
        ensures
            final(self)@ == old(self)@.add_fed(s.tail_spec(), NodeKind::Stage, Role::ProducerConsumer),
            r.tail_spec() == old(self)@.nodes.len(),
            final(self).holds_spec(&r),
            final(self)@.wf(),
    {
        let mut parts = self.take_parts();
        let k = parts.add_fed(s.tail, NodeKind::Stage, Role::ProducerConsumer);
        self.put_parts(parts);
        Stream { tail: k, marker: PhantomData }
    }

    /// Merges `a` and `b`: a relay tags what `a` carries as left, another
    /// tags what `b` carries as right, and both feed one combining task,
    /// which has two inputs and so ends only once both have ended. Its output
    /// is the stream returned. They start in that order.
    pub fn merge<I, X, O>(&mut self, a: Stream<I>, b: Stream<X>) -> (r: Stream<O>)
        requires
            old(self).holds_spec(&a),
            old(self).holds_spec(&b),
            a.tail_spec() != b.tail_spec(),
            old(self)@.nodes.len() + 2 < usize::MAX,
        ensures
            final(self)@ == old(self)@.add_fed(a.tail_spec(), NodeKind::MergeLeft, Role::ProducerConsumer).add_fed(
                b.tail_spec(),
                NodeKind::MergeRight,
                Role::ProducerConsumer,
            ).add_joined(
                old(self)@.nodes.len() as usize,
                (old(self)@.nodes.len() + 1) as usize,
                NodeKind::Combine,
            ),
            r.tail_spec() == old(self)@.nodes.len() + 2,
            final(self).holds_spec(&r),
            final(self)@.wf(),
    {
        let mut parts = self.take_parts();
        let ml = parts.add_fed(a.tail, NodeKind::MergeLeft, Role::ProducerConsumer);
        let mr = parts.add_fed(b.tail, NodeKind::MergeRight, Role::ProducerConsumer);
        let c = parts.add_joined(ml, mr, NodeKind::Combine);
        self.put_parts(parts);
        Stream { tail: c, marker: PhantomData }
    }

    /// Splits `s`: a tagging task reads it, and two relays forward its left
    /// and its right outputs; their outputs are the two streams returned.
    pub fn split<I, L, R>(&mut self, s: Stream<I>) -> (r: (Stream<L>, Stream<R>))
        requires
            old(self).holds_spec(&s),
            old(self)@.nodes.len() + 2 < usize::MAX,
        ensures
            final(self)@ == old(self)@.add_fed(s.tail_spec(), NodeKind::Split, Role::ProducerConsumer).add_branches(
                old(self)@.nodes.len() as usize,
            ),
            r.0.tail_spec() == old(self)@.nodes.len() + 1,
            r.1.tail_spec() == old(self)@.nodes.len() + 2,
            final(self).holds_spec(&r.0),
            final(self).holds_spec(&r.1),
            final(self)@.wf(),
    {
        let mut parts = self.take_parts();
        let t = parts.add_fed(s.tail, NodeKind::Split, Role::ProducerConsumer);
        let l = parts.add_branches(t);
        self.put_parts(parts);
        (Stream { tail: l, marker: PhantomData }, Stream { tail: l + 1, marker: PhantomData })
    }

    /// Ends the branch `s` in a consuming task, whose output nothing reads.
    pub fn sink<I>(&mut self, s: Stream<I>)
        requires
            old(self).holds_spec(&s),
            old(self)@.nodes.len() < usize::MAX,
        ensures
            final(self)@ == old(self)@.add_fed(s.tail_spec(), NodeKind::Sink, Role::Consumer),
            final(self)@.wf(),
    {
        let mut parts = self.take_parts();
        parts.add_fed(s.tail, NodeKind::Sink, Role::Consumer);
        self.put_parts(parts);
    }

    /// Ends construction. Every edge is wired by now, and the plan starts the
    /// nodes in the reverse of the order they were added, so that each
    /// consumer starts before every producer that feeds it.
    pub fn finalize(self) -> (p: Plan)
        ensures
            p.nodes@ == self@.nodes,
            p.edges@ == self@.edges,
            p.order@.len() == self@.nodes.len(),
            forall|i: int| 0 <= i < p.order@.len() ==> #[trigger] p.order@[i] == p.order@.len() - 1 - i,
            forall|e: int|
                0 <= e < p.edges@.len() ==> starts_before(
                    p.order@,
                    (#[trigger] p.edges@[e]).to,
                    p.edges@[e].from,
                ),
    {
        proof {
            use_type_invariant(&self);
        }
        let Pipeline { parts } = self;
        let Parts { nodes, edges, open } = parts;
        let n = nodes.len();
        let mut order: Vec<usize> = Vec::new();
        let mut k: usize = n;
        while k > 0
            invariant
                k <= n,
                order@.len() == n - k,
                forall|i: int| 0 <= i < order@.len() ==> #[trigger] order@[i] == n - 1 - i,
            decreases k,
        {
            k = k - 1;
            order.push(k);
        }
        proof {
            assert forall|e: int| 0 <= e < edges@.len() implies starts_before(
                order@,
                (#[trigger] edges@[e]).to,
                edges@[e].from,
            ) by {
                let to = edges@[e].to;
                let from = edges@[e].from;
                let i = n - 1 - to;
                let j = n - 1 - from;
                assert(order@[i] == to);
                assert(order@[j] == from);
            }
        }
        Plan { nodes, edges, order }
    }
}

} // verus!
