//! Stages that pipelines commonly apply: a map, a filter, a reduction, a
//! pass-through, a collecting sink, and a tagging task for a split.
use vstd::prelude::*;

use crate::data::{lefts, rights, Union};
use crate::logic::{output_of, Chain, Logic};
use crate::relay::{lemma_split_routes, SplitLeft, SplitRight};

verus! {

/// Maps each integer to its successor, wrapping at the top of `i64`.
pub struct Increment;

/// Keeps the even integers and drops the odd ones.
pub struct KeepEven;

/// Emits the running total of its inputs, wrapping at the bounds of `i64`.
pub struct RunningSum {
    pub total: i64,
}

/// A sink that keeps every input, in order, and emits nothing.
pub struct Collect<T> {
    pub items: Vec<T>,
}

/// Passes every input on unchanged.
pub struct Forward<T> {
    pub marker: core::marker::PhantomData<T>,
}

impl<T> Forward<T> {
    pub fn new() -> Self {
        Forward { marker: core::marker::PhantomData }
    }
}

impl<T> View for Forward<T> {
    type V = ();

    open spec fn view(&self) -> () {
        ()
    }
}

impl<T> Logic<T, T> for Forward<T> {
    open spec fn next(s: (), input: T) -> () {
        ()
    }

    open spec fn out(s: (), input: T) -> Seq<T> {
        seq![input]
    }

    fn step(&mut self, input: T) -> (r: Vec<T>) {
        let mut r: Vec<T> = Vec::new();
        r.push(input);
        r
    }
}

/// Tags even integers for the left branch of a split and odd ones for the
/// right branch.
pub struct ByParity;

impl View for Increment {
    type V = ();

    open spec fn view(&self) -> () {
        ()
    }
}

impl View for KeepEven {
    type V = ();

    open spec fn view(&self) -> () {
        ()
    }
}

impl View for RunningSum {
    type V = i64;

    open spec fn view(&self) -> i64 {
        self.total
    }
}

impl<T> View for Collect<T> {
    type V = Seq<T>;

    open spec fn view(&self) -> Seq<T> {
        self.items@
    }
}

impl View for ByParity {
    type V = ();

    open spec fn view(&self) -> () {
        ()
    }
}

impl Logic<i64, i64> for Increment {
    open spec fn next(s: (), input: i64) -> () {
        ()
    }

    open spec fn out(s: (), input: i64) -> Seq<i64> {
        seq![input.wrapping_add(1)]
    }

    fn step(&mut self, input: i64) -> (r: Vec<i64>) {
        let mut r: Vec<i64> = Vec::new();
        r.push(input.wrapping_add(1));
        r
    }
}

impl Logic<i64, i64> for KeepEven {
    open spec fn next(s: (), input: i64) -> () {
        ()
    }

    open spec fn out(s: (), input: i64) -> Seq<i64> {
        if input % 2 == 0 {
            seq![input]
        } else {
            seq![]
        }
    }

    fn step(&mut self, input: i64) -> (r: Vec<i64>) {
        let mut r: Vec<i64> = Vec::new();
        if input % 2 == 0 {
            r.push(input);
        }
        r
    }
}

impl Logic<i64, i64> for RunningSum {
    open spec fn next(s: i64, input: i64) -> i64 {
        s.wrapping_add(input)
    }

    open spec fn out(s: i64, input: i64) -> Seq<i64> {
        seq![s.wrapping_add(input)]
    }

    fn step(&mut self, input: i64) -> (r: Vec<i64>) {
        self.total = self.total.wrapping_add(input);
        let mut r: Vec<i64> = Vec::new();
        r.push(self.total);
        r
    }
}

impl<T> Logic<T, T> for Collect<T> {
    open spec fn next(s: Seq<T>, input: T) -> Seq<T> {
        s.push(input)
    }

    open spec fn out(s: Seq<T>, input: T) -> Seq<T> {
        seq![]
    }

    fn step(&mut self, input: T) -> (r: Vec<T>) {
        self.items.push(input);
        Vec::new()
    }
}

impl Logic<i64, Union<i64, i64>> for ByParity {
    open spec fn next(s: (), input: i64) -> () {
        ()
    }

    open spec fn out(s: (), input: i64) -> Seq<Union<i64, i64>> {
        if input % 2 == 0 {
            seq![Union::L(input)]
        } else {
            seq![Union::R(input)]
        }
    }

    fn step(&mut self, input: i64) -> (r: Vec<Union<i64, i64>>) {
        let mut r: Vec<Union<i64, i64>> = Vec::new();
        if input % 2 == 0 {
            r.push(Union::L(input));
        } else {
            r.push(Union::R(input));
        }
        r
    }
}

/// The even values of `xs`, in order.
pub open spec fn evens(xs: Seq<i64>) -> Seq<i64> {
    xs.filter(|x: i64| x % 2 == 0)
}

/// The odd values of `xs`, in order.
pub open spec fn odds(xs: Seq<i64>) -> Seq<i64> {
    xs.filter(|x: i64| x % 2 != 0)
}

proof fn lemma_parity_tags(xs: Seq<i64>)
    ensures
        lefts(output_of::<i64, Union<i64, i64>, ByParity>((), xs)) == evens(xs),
        rights(output_of::<i64, Union<i64, i64>, ByParity>((), xs)) == odds(xs),
    decreases xs.len(),
{
    if xs.len() > 0 {
        let p = xs.drop_last();
        let x = xs.last();
        lemma_parity_tags(p);
        let o = output_of::<i64, Union<i64, i64>, ByParity>((), p);
        let u = if x % 2 == 0 {
            Union::<i64, i64>::L(x)
        } else {
            Union::<i64, i64>::R(x)
        };
        let all = o + seq![u];
        assert(output_of::<i64, Union<i64, i64>, ByParity>((), xs) == all);
        assert(all.drop_last() =~= o);
        assert(all.last() == u);
        reveal_with_fuel(Seq::filter, 1);
    }
}

/// A split by parity sends the even inputs to the left branch and the odd
/// ones to the right branch, each in the order they came.
pub proof fn lemma_parity_split(xs: Seq<i64>)
    ensures
        output_of::<i64, i64, Chain<ByParity, SplitLeft<i64, i64>, Union<i64, i64>>>(((), ()), xs)
            == evens(xs),
        output_of::<i64, i64, Chain<ByParity, SplitRight<i64, i64>, Union<i64, i64>>>(((), ()), xs)
            == odds(xs),
{
    lemma_split_routes::<i64, i64, i64, ByParity>((), xs);
    lemma_parity_tags(xs);
}

} // verus!
