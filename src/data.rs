//! The two-way tagged union through which one task reads two typed streams
//! (merge) or writes two typed streams (split).
use vstd::prelude::*;

verus! {

/// A value from (or for) the left or the right of two streams.
#[derive(Clone, Debug, PartialEq, Eq)]
pub enum Union<L, R> {
    L(L),
    R(R),
}

/// The left payloads of `s`, in order.
pub open spec fn lefts<L, R>(s: Seq<Union<L, R>>) -> Seq<L>
    decreases s.len(),
{
    if s.len() == 0 {
        seq![]
    } else {
        match s.last() {
            Union::L(x) => lefts(s.drop_last()).push(x),
            Union::R(_) => lefts(s.drop_last()),
        }
    }
}

/// The right payloads of `s`, in order.
pub open spec fn rights<L, R>(s: Seq<Union<L, R>>) -> Seq<R>
    decreases s.len(),
{
    if s.len() == 0 {
        seq![]
    } else {
        match s.last() {
            Union::L(_) => rights(s.drop_last()),
            Union::R(y) => rights(s.drop_last()).push(y),
        }
    }
}

} // verus!
