//! The port protocol: what moves along one edge of the graph.
use vstd::prelude::*;

verus! {

/// What travels downstream on an edge: a payload, or the sentinel that
/// tells the consumer that the producer will send nothing more.
#[derive(Clone, Debug, PartialEq, Eq)]
pub enum Message<T> {
    Event(T),
    End,
}

/// Credit that a consumer may send upstream. It is advisory: no task acts on it.
#[derive(Clone, Copy, Debug, PartialEq, Eq, Structural)]
pub enum FlowControl {
    Pull,
}

impl<T> Message<T> {
    pub fn is_end(&self) -> (r: bool)
        ensures
            r == (*self is End),
    {
        match self {
            Message::Event(_) => false,
            Message::End => true,
        }
    }
}

/// Each payload of `s` as an event, in order.
pub open spec fn events<T>(s: Seq<T>) -> Seq<Message<T>> {
    s.map_values(|x: T| Message::Event(x))
}

/// How many ends of the stream `ms` holds.
pub open spec fn ends<T>(ms: Seq<Message<T>>) -> nat
    decreases ms.len(),
{
    if ms.len() == 0 {
        0
    } else {
        ends(ms.drop_last()) + if ms.last() is End {
            1nat
        } else {
            0nat
        }
    }
}

/// The payloads of the events of `ms`, in order.
pub open spec fn payloads<T>(ms: Seq<Message<T>>) -> Seq<T>
    decreases ms.len(),
{
    if ms.len() == 0 {
        seq![]
    } else {
        match ms.last() {
            Message::Event(x) => payloads(ms.drop_last()).push(x),
            Message::End => payloads(ms.drop_last()),
        }
    }
}

/// Events carry no end of the stream, and give back their payloads.
pub proof fn lemma_events_payloads<T>(s: Seq<T>)
    ensures
        ends(events(s)) == 0,
        payloads(events(s)) == s,
    decreases s.len(),
{
    if s.len() > 0 {
        lemma_events_payloads(s.drop_last());
        assert(events(s).drop_last() =~= events(s.drop_last()));
        assert(payloads(events(s)) =~= s);
    }
}

} // verus!
