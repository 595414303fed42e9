//! The stateless relays that merge and split place around a task: two that
//! tag values from two streams for one union-typed input, and two that pick
//! the values of one tag out of a union-typed output.
use core::marker::PhantomData;
use vstd::multiset::Multiset;
use vstd::prelude::*;
use vstd::seq_lib::group_to_multiset_ensures;

use crate::data::{lefts, rights, Union};
use crate::logic::{lemma_chain_composes, output_of, state_after, Chain, Logic};
use crate::port::{ends, events, lemma_events_payloads, payloads, Message};
use crate::task::{lemma_last_end_ends_task, run_messages, Control};

verus! {

/// Wraps each value of the left stream of a merge as `Union::L`.
pub struct TagLeft<L, R> {
    pub marker: PhantomData<(L, R)>,
}

/// Wraps each value of the right stream of a merge as `Union::R`.
pub struct TagRight<L, R> {
    pub marker: PhantomData<(L, R)>,
}

/// Forwards the payload of each `Union::L` and drops each `Union::R`.
pub struct SplitLeft<L, R> {
    pub marker: PhantomData<(L, R)>,
}

/// Forwards the payload of each `Union::R` and drops each `Union::L`.
pub struct SplitRight<L, R> {
    pub marker: PhantomData<(L, R)>,
}

/// Unwraps either tag of a union of one type: the combining task of a merge
/// of two streams of the same payload type.
pub struct Unify<T> {
    pub marker: PhantomData<T>,
}

impl<L, R> TagLeft<L, R> {
    pub fn new() -> Self {
        TagLeft { marker: PhantomData }
    }
}

impl<L, R> TagRight<L, R> {
    pub fn new() -> Self {
        TagRight { marker: PhantomData }
    }
}

impl<L, R> SplitLeft<L, R> {
    pub fn new() -> Self {
        SplitLeft { marker: PhantomData }
    }
}

impl<L, R> SplitRight<L, R> {
    pub fn new() -> Self {
        SplitRight { marker: PhantomData }
    }
}

impl<T> Unify<T> {
    pub fn new() -> Self {
        Unify { marker: PhantomData }
    }
}

impl<L, R> View for TagLeft<L, R> {
    type V = ();

    open spec fn view(&self) -> () {
        ()
    }
}

impl<L, R> View for TagRight<L, R> {
    type V = ();

    open spec fn view(&self) -> () {
        ()
    }
}

impl<L, R> View for SplitLeft<L, R> {
    type V = ();

    open spec fn view(&self) -> () {
        ()
    }
}

impl<L, R> View for SplitRight<L, R> {
    type V = ();

    open spec fn view(&self) -> () {
        ()
    }
}

impl<T> View for Unify<T> {
    type V = ();

    open spec fn view(&self) -> () {
        ()
    }
}

impl<L, R> Logic<L, Union<L, R>> for TagLeft<L, R> {
    open spec fn next(s: (), input: L) -> () {
        ()
    }

    open spec fn out(s: (), input: L) -> Seq<Union<L, R>> {
        seq![Union::L(input)]
    }

    fn step(&mut self, input: L) -> (out: Vec<Union<L, R>>) {
        let mut out: Vec<Union<L, R>> = Vec::new();
        out.push(Union::L(input));
        out
    }
}

impl<L, R> Logic<R, Union<L, R>> for TagRight<L, R> {
    open spec fn next(s: (), input: R) -> () {
        ()
    }

    open spec fn out(s: (), input: R) -> Seq<Union<L, R>> {
        seq![Union::R(input)]
    }

    fn step(&mut self, input: R) -> (out: Vec<Union<L, R>>) {
        let mut out: Vec<Union<L, R>> = Vec::new();
        out.push(Union::R(input));
        out
    }
}

impl<L, R> Logic<Union<L, R>, L> for SplitLeft<L, R> {
    open spec fn next(s: (), input: Union<L, R>) -> () {
        ()
    }

    open spec fn out(s: (), input: Union<L, R>) -> Seq<L> {
        match input {
            Union::L(x) => seq![x],
            Union::R(_) => seq![],
        }
    }

    fn step(&mut self, input: Union<L, R>) -> (out: Vec<L>) {
        let mut out: Vec<L> = Vec::new();
        match input {
            Union::L(x) => out.push(x),
            Union::R(_) => {},
        }
        out
    }
}

impl<L, R> Logic<Union<L, R>, R> for SplitRight<L, R> {
    open spec fn next(s: (), input: Union<L, R>) -> () {
        ()
    }

    open spec fn out(s: (), input: Union<L, R>) -> Seq<R> {
        match input {
            Union::L(_) => seq![],
            Union::R(y) => seq![y],
        }
    }

    fn step(&mut self, input: Union<L, R>) -> (out: Vec<R>) {
        let mut out: Vec<R> = Vec::new();
        match input {
            Union::L(_) => {},
            Union::R(y) => out.push(y),
        }
        out
    }
}

impl<T> Logic<Union<T, T>, T> for Unify<T> {
    open spec fn next(s: (), input: Union<T, T>) -> () {
        ()
    }

    open spec fn out(s: (), input: Union<T, T>) -> Seq<T> {
        match input {
            Union::L(x) => seq![x],
            Union::R(y) => seq![y],
        }
    }

    fn step(&mut self, input: Union<T, T>) -> (out: Vec<T>) {
        let mut out: Vec<T> = Vec::new();
        match input {
            Union::L(x) => out.push(x),
            Union::R(y) => out.push(y),
        }
        out
    }
}

/// The payload of a union of one type, whichever its tag.
pub open spec fn either<T>(z: Union<T, T>) -> T {
    match z {
        Union::L(x) => x,
        Union::R(y) => y,
    }
}

/// `zs` is one way to interleave `a` and `b`: it holds all of both, and
/// keeps the order within each.
pub open spec fn interleaves<A>(zs: Seq<A>, a: Seq<A>, b: Seq<A>) -> bool
    decreases zs.len(),
{
    if zs.len() == 0 {
        a.len() == 0 && b.len() == 0
    } else {
        (a.len() > 0 && a.last() == zs.last() && interleaves(zs.drop_last(), a.drop_last(), b)) || (
        b.len() > 0 && b.last() == zs.last() && interleaves(zs.drop_last(), a, b.drop_last()))
    }
}

proof fn lemma_tag_left_run<L, R>(xs: Seq<L>)
    ensures
        state_after::<L, Union<L, R>, TagLeft<L, R>>((), xs) == (),
        output_of::<L, Union<L, R>, TagLeft<L, R>>((), xs) == xs.map_values(
            |x: L| Union::<L, R>::L(x),
        ),
    decreases xs.len(),
{
    if xs.len() > 0 {
        lemma_tag_left_run::<L, R>(xs.drop_last());
        assert(output_of::<L, Union<L, R>, TagLeft<L, R>>((), xs) =~= xs.map_values(
            |x: L| Union::<L, R>::L(x),
        ));
    }
}

proof fn lemma_tag_right_run<L, R>(ys: Seq<R>)
    ensures
        state_after::<R, Union<L, R>, TagRight<L, R>>((), ys) == (),
        output_of::<R, Union<L, R>, TagRight<L, R>>((), ys) == ys.map_values(
            |y: R| Union::<L, R>::R(y),
        ),
    decreases ys.len(),
{
    if ys.len() > 0 {
        lemma_tag_right_run::<L, R>(ys.drop_last());
        assert(output_of::<R, Union<L, R>, TagRight<L, R>>((), ys) =~= ys.map_values(
            |y: R| Union::<L, R>::R(y),
        ));
    }
}

proof fn lemma_unify_run<T>(zs: Seq<Union<T, T>>)
    ensures
        state_after::<Union<T, T>, T, Unify<T>>((), zs) == (),
        output_of::<Union<T, T>, T, Unify<T>>((), zs) == zs.map_values(|z: Union<T, T>| either(z)),
    decreases zs.len(),
{
    if zs.len() > 0 {
        lemma_unify_run::<T>(zs.drop_last());
        assert(output_of::<Union<T, T>, T, Unify<T>>((), zs) =~= zs.map_values(
            |z: Union<T, T>| either(z),
        ));
    }
}

proof fn lemma_interleave_multiset<A, B>(zs: Seq<A>, a: Seq<A>, b: Seq<A>, f: spec_fn(A) -> B)
    requires
        interleaves(zs, a, b),
    ensures
        zs.map_values(f).to_multiset() == a.map_values(f).to_multiset().add(
            b.map_values(f).to_multiset(),
        ),
    decreases zs.len(),
{
    broadcast use group_to_multiset_ensures;

    if zs.len() == 0 {
        assert(zs.map_values(f) =~= Seq::<B>::empty());
        assert(a.map_values(f) =~= Seq::<B>::empty());
        assert(b.map_values(f) =~= Seq::<B>::empty());
        assert(Multiset::<B>::empty().add(Multiset::<B>::empty()) =~= Multiset::<B>::empty());
    } else {
        let v = f(zs.last());
        assert(zs.map_values(f) =~= zs.drop_last().map_values(f).push(v));
        if a.len() > 0 && a.last() == zs.last() && interleaves(zs.drop_last(), a.drop_last(), b) {
            lemma_interleave_multiset(zs.drop_last(), a.drop_last(), b, f);
            assert(a.map_values(f) =~= a.drop_last().map_values(f).push(v));
            assert(zs.map_values(f).to_multiset() =~= a.map_values(f).to_multiset().add(
                b.map_values(f).to_multiset(),
            ));
        } else {
            lemma_interleave_multiset(zs.drop_last(), a, b.drop_last(), f);
            assert(b.map_values(f) =~= b.drop_last().map_values(f).push(v));
            assert(zs.map_values(f).to_multiset() =~= a.map_values(f).to_multiset().add(
                b.map_values(f).to_multiset(),
            ));
        }
    }
}

/// Interleaving messages interleaves their payloads and adds up their ends
/// of the stream.
proof fn lemma_interleave_messages<T>(ms: Seq<Message<T>>, a: Seq<Message<T>>, b: Seq<Message<T>>)
    requires
        interleaves(ms, a, b),
    ensures
        ends(ms) == ends(a) + ends(b),
        interleaves(payloads(ms), payloads(a), payloads(b)),
    decreases ms.len(),
{
    if ms.len() > 0 {
        let m = ms.last();
        if a.len() > 0 && a.last() == m && interleaves(ms.drop_last(), a.drop_last(), b) {
            lemma_interleave_messages(ms.drop_last(), a.drop_last(), b);
            match m {
                Message::Event(x) => {
                    assert(payloads(ms).drop_last() =~= payloads(ms.drop_last()));
                    assert(payloads(a).drop_last() =~= payloads(a.drop_last()));
                },
                Message::End => {},
            }
        } else {
            lemma_interleave_messages(ms.drop_last(), a, b.drop_last());
            match m {
                Message::Event(x) => {
                    assert(payloads(ms).drop_last() =~= payloads(ms.drop_last()));
                    assert(payloads(b).drop_last() =~= payloads(b.drop_last()));
                },
                Message::End => {},
            }
        }
    }
}

/// In an interleaving of left-tagged `xs` and right-tagged `ys`, the left
/// payloads are `xs` and the right ones `ys`, each in its order.
proof fn lemma_interleave_tags<T>(zs: Seq<Union<T, T>>, xs: Seq<T>, ys: Seq<T>)
    requires
        interleaves(
            zs,
            xs.map_values(|x: T| Union::<T, T>::L(x)),
            ys.map_values(|y: T| Union::<T, T>::R(y)),
        ),
    ensures
        lefts(zs) == xs,
        rights(zs) == ys,
    decreases zs.len(),
{
    let a = xs.map_values(|x: T| Union::<T, T>::L(x));
    let b = ys.map_values(|y: T| Union::<T, T>::R(y));
    if zs.len() == 0 {
        assert(xs =~= Seq::<T>::empty());
        assert(ys =~= Seq::<T>::empty());
    } else if a.len() > 0 && a.last() == zs.last() && interleaves(zs.drop_last(), a.drop_last(), b) {
        assert(a.drop_last() =~= xs.drop_last().map_values(|x: T| Union::<T, T>::L(x)));
        lemma_interleave_tags(zs.drop_last(), xs.drop_last(), ys);
        assert(xs.drop_last().push(xs.last()) =~= xs);
    } else {
        assert(b.drop_last() =~= ys.drop_last().map_values(|y: T| Union::<T, T>::R(y)));
        lemma_interleave_tags(zs.drop_last(), xs, ys.drop_last());
        assert(ys.drop_last().push(ys.last()) =~= ys);
    }
}

/// Merge loses and duplicates nothing. The left relay sends `xs` tagged,
/// then the end of the stream; the right relay sends `ys` tagged, then the
/// end of the stream. The combining task, fed by those two inputs, receives
/// some interleaving `ms` of the two, in an order that the runtime picks;
/// either input may end first. Whatever that order, the combining task
/// receives every value of each input once, in that input's order, emits
/// each value of `xs` and of `ys` exactly as often as it occurs there, and
/// then sends the end of the stream once, and ends.
pub proof fn lemma_merge_keeps_all<T>(c: Control, xs: Seq<T>, ys: Seq<T>, ms: Seq<Message<Union<T, T>>>)
    requires
        !c.is_terminated(),
        c.inputs == 2,
        interleaves(
            ms,
            events(output_of::<T, Union<T, T>, TagLeft<T, T>>((), xs)).push(Message::End),
            events(output_of::<T, Union<T, T>, TagRight<T, T>>((), ys)).push(Message::End),
        ),
    ensures
        lefts(payloads(ms)) == xs,
        rights(payloads(ms)) == ys,
        run_messages::<Union<T, T>, T, Unify<T>>(c, (), ms).0.is_terminated(),
        run_messages::<Union<T, T>, T, Unify<T>>(c, (), ms).2 == events(
            payloads(ms).map_values(|z: Union<T, T>| either(z)),
        ) + seq![Message::<T>::End],
        payloads(ms).map_values(|z: Union<T, T>| either(z)).to_multiset() == xs.to_multiset().add(
            ys.to_multiset(),
        ),
{
    let f = |z: Union<T, T>| either(z);
    lemma_tag_left_run::<T, T>(xs);
    lemma_tag_right_run::<T, T>(ys);
    let la = xs.map_values(|x: T| Union::<T, T>::L(x));
    let lb = ys.map_values(|y: T| Union::<T, T>::R(y));
    let a = events(la).push(Message::End);
    let b = events(lb).push(Message::End);
    lemma_events_payloads(la);
    lemma_events_payloads(lb);
    assert(a.drop_last() =~= events(la));
    assert(b.drop_last() =~= events(lb));
    lemma_interleave_messages(ms, a, b);
    lemma_interleave_tags(payloads(ms), xs, ys);
    // the last message is the end of one of the two inputs
    assert(ms.len() > 0);
    assert(ms.last() is End);
    assert(ends(ms.drop_last()) == 1);
    lemma_last_end_ends_task::<Union<T, T>, T, Unify<T>>(c, (), ms);
    lemma_unify_run::<T>(payloads(ms));
    lemma_interleave_multiset(payloads(ms), la, lb, f);
    assert(la.map_values(f) =~= xs);
    assert(lb.map_values(f) =~= ys);
}

/// What the left relay of a split emits is the left payloads of its input.
proof fn lemma_split_left_run<L, R>(us: Seq<Union<L, R>>)
    ensures
        state_after::<Union<L, R>, L, SplitLeft<L, R>>((), us) == (),
        output_of::<Union<L, R>, L, SplitLeft<L, R>>((), us) == lefts(us),
    decreases us.len(),
{
    if us.len() > 0 {
        lemma_split_left_run::<L, R>(us.drop_last());
        let o = output_of::<Union<L, R>, L, SplitLeft<L, R>>((), us.drop_last());
        assert(o + Seq::<L>::empty() =~= o);
        match us.last() {
            Union::L(x) => assert(o + seq![x] =~= o.push(x)),
            Union::R(_) => {},
        }
    }
}

/// What the right relay of a split emits is the right payloads of its input.
proof fn lemma_split_right_run<L, R>(us: Seq<Union<L, R>>)
    ensures
        state_after::<Union<L, R>, R, SplitRight<L, R>>((), us) == (),
        output_of::<Union<L, R>, R, SplitRight<L, R>>((), us) == rights(us),
    decreases us.len(),
{
    if us.len() > 0 {
        lemma_split_right_run::<L, R>(us.drop_last());
        let o = output_of::<Union<L, R>, R, SplitRight<L, R>>((), us.drop_last());
        assert(o + Seq::<R>::empty() =~= o);
        match us.last() {
            Union::L(_) => {},
            Union::R(y) => assert(o + seq![y] =~= o.push(y)),
        }
    }
}

proof fn lemma_lefts_rights_len<L, R>(us: Seq<Union<L, R>>)
    ensures
        lefts(us).len() + rights(us).len() == us.len(),
    decreases us.len(),
{
    if us.len() > 0 {
        lemma_lefts_rights_len(us.drop_last());
    }
}

/// Split routes every value to exactly one branch and keeps the order in
/// each: behind a tagging task `T` in state `t`, the left branch emits the
/// left-tagged outputs of `T` in order, the right branch the right-tagged
/// ones in order, and together they emit as many values as `T` did.
pub proof fn lemma_split_routes<I, L, R, T: Logic<I, Union<L, R>>>(t: T::V, xs: Seq<I>)
    ensures
        output_of::<I, L, Chain<T, SplitLeft<L, R>, Union<L, R>>>((t, ()), xs) == lefts(
            output_of::<I, Union<L, R>, T>(t, xs),
        ),
        output_of::<I, R, Chain<T, SplitRight<L, R>, Union<L, R>>>((t, ()), xs) == rights(
            output_of::<I, Union<L, R>, T>(t, xs),
        ),
        lefts(output_of::<I, Union<L, R>, T>(t, xs)).len() + rights(
            output_of::<I, Union<L, R>, T>(t, xs),
        ).len() == output_of::<I, Union<L, R>, T>(t, xs).len(),
{
    let us = output_of::<I, Union<L, R>, T>(t, xs);
    lemma_chain_composes::<I, Union<L, R>, L, T, SplitLeft<L, R>>((t, ()), xs);
    lemma_chain_composes::<I, Union<L, R>, R, T, SplitRight<L, R>>((t, ()), xs);
    lemma_split_left_run::<L, R>(us);
    lemma_split_right_run::<L, R>(us);
    lemma_lefts_rights_len(us);
}

} // verus!
