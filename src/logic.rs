//! The transition rule of a task, and what a run of it over a sequence yields.
use core::marker::PhantomData;
use vstd::prelude::*;

verus! {

/// The logic of a task: on each input it updates its own state and emits
/// outputs. The state is the implementing value, seen through its view.
pub trait Logic<I, O>: View + Sized {
    /// The state after one input.
    spec fn next(s: Self::V, input: I) -> Self::V;

    /// What one input emits, in order.
    spec fn out(s: Self::V, input: I) -> Seq<O>;

    fn step(&mut self, input: I) -> (r: Vec<O>)
        ensures
            final(self)@ == Self::next(old(self)@, input),
            r@ == Self::out(old(self)@, input),
    ;
}

/// What a task with a timer does, apart from its input, each time its timer
/// fires: it updates its state, emits outputs, and may end the stream.
pub trait Trigger<O>: View + Sized {
    /// The state after a firing.
    spec fn fired(s: Self::V) -> Self::V;

    /// What a firing emits, in order.
    spec fn fired_out(s: Self::V) -> Seq<O>;

    /// Whether a firing ends the stream after emitting.
    spec fn finishes(s: Self::V) -> bool;

    fn fire(&mut self) -> (r: (Vec<O>, bool))
        ensures
            final(self)@ == Self::fired(old(self)@),
            r.0@ == Self::fired_out(old(self)@),
            r.1 == Self::finishes(old(self)@),
    ;
}

/// The state after the inputs `xs`, one after the other.
pub open spec fn state_after<I, O, L: Logic<I, O>>(s: L::V, xs: Seq<I>) -> L::V
    decreases xs.len(),
{
    if xs.len() == 0 {
        s
    } else {
        L::next(state_after::<I, O, L>(s, xs.drop_last()), xs.last())
    }
}

/// Everything that the inputs `xs` emit, in order.
pub open spec fn output_of<I, O, L: Logic<I, O>>(s: L::V, xs: Seq<I>) -> Seq<O>
    decreases xs.len(),
{
    if xs.len() == 0 {
        seq![]
    } else {
        output_of::<I, O, L>(s, xs.drop_last()) + L::out(
            state_after::<I, O, L>(s, xs.drop_last()),
            xs.last(),
        )
    }
}

/// Hands `inputs` to `l` one by one, in order, and returns all it emitted.
pub fn feed<I, O, L: Logic<I, O>>(l: &mut L, inputs: Vec<I>) -> (out: Vec<O>)
    ensures
        final(l)@ == state_after::<I, O, L>(old(l)@, inputs@),
        out@ == output_of::<I, O, L>(old(l)@, inputs@),
{
    let ghost start = l@;
    let ghost all = inputs@;
    let total: usize = inputs.len();
    let mut rest = inputs;
    let mut out: Vec<O> = Vec::new();
    let mut done: usize = 0;
    while rest.len() > 0
        invariant
            done + rest@.len() == all.len(),
            all.len() == total,
            rest@ == all.subrange(done as int, all.len() as int),
            l@ == state_after::<I, O, L>(start, all.subrange(0, done as int)),
            out@ == output_of::<I, O, L>(start, all.subrange(0, done as int)),
        decreases rest@.len(),
    {
        let x = rest.remove(0);
        let ghost before = all.subrange(0, done as int);
        let mut emitted = l.step(x);
        out.append(&mut emitted);
        done = done + 1;
        proof {
            let now = all.subrange(0, done as int);
            assert(now.drop_last() =~= before);
            assert(now.last() == x);
            assert(rest@ =~= all.subrange(done as int, all.len() as int));
        }
    }
    assert(all.subrange(0, done as int) =~= all);
    out
}

/// Running `s` and then `t` is running `s + t`.
proof fn lemma_run_append<I, O, L: Logic<I, O>>(l: L::V, s: Seq<I>, t: Seq<I>)
    ensures
        state_after::<I, O, L>(l, s + t) == state_after::<I, O, L>(
            state_after::<I, O, L>(l, s),
            t,
        ),
        output_of::<I, O, L>(l, s + t) == output_of::<I, O, L>(l, s) + output_of::<I, O, L>(
            state_after::<I, O, L>(l, s),
            t,
        ),
    decreases t.len(),
{
    if t.len() == 0 {
        assert(s + t =~= s);
        assert(output_of::<I, O, L>(l, s) + Seq::<O>::empty() =~= output_of::<I, O, L>(l, s));
    } else {
        let t0 = t.drop_last();
        lemma_run_append::<I, O, L>(l, s, t0);
        assert((s + t).drop_last() =~= s + t0);
        assert((s + t).last() == t.last());
        let mid = state_after::<I, O, L>(l, s);
        let tail = L::out(state_after::<I, O, L>(mid, t0), t.last());
        assert(output_of::<I, O, L>(l, s) + output_of::<I, O, L>(mid, t0) + tail
            =~= output_of::<I, O, L>(l, s) + (output_of::<I, O, L>(mid, t0) + tail));
    }
}

/// A stage that keeps no state (its state `s` never changes) emits, for a
/// sequence of inputs, what it emits for each of them, concatenated in the
/// order of the inputs: nothing is lost, duplicated or reordered.
pub proof fn lemma_stateless_stage<I, O, L: Logic<I, O>>(s: L::V, xs: Seq<I>)
    requires
        forall|x: I| #[trigger] L::next(s, x) == s,
    ensures
        state_after::<I, O, L>(s, xs) == s,
        output_of::<I, O, L>(s, xs) == xs.map_values(|x: I| L::out(s, x)).flatten(),
    decreases xs.len(),
{
    if xs.len() > 0 {
        let p = xs.drop_last();
        lemma_stateless_stage::<I, O, L>(s, p);
        let f = |x: I| L::out(s, x);
        assert(xs.map_values(f) =~= p.map_values(f).push(f(xs.last())));
        p.map_values(f).lemma_flatten_push(f(xs.last()));
    }
}

/// Two tasks joined by one edge, run as one: every output of `first` goes,
/// in the order emitted, to `second`.
pub struct Chain<A, B, M> {
    pub first: A,
    pub second: B,
    pub marker: PhantomData<M>,
}

impl<A, B, M> Chain<A, B, M> {
    pub fn new(first: A, second: B) -> (r: Self)
        ensures
            r.first == first,
            r.second == second,
    {
        Chain { first, second, marker: PhantomData }
    }
}

impl<A: View, B: View, M> View for Chain<A, B, M> {
    type V = (A::V, B::V);

    open spec fn view(&self) -> (A::V, B::V) {
        (self.first@, self.second@)
    }
}

impl<I, M, O, A: Logic<I, M>, B: Logic<M, O>> Logic<I, O> for Chain<A, B, M> {
    open spec fn next(s: (A::V, B::V), input: I) -> (A::V, B::V) {
        (A::next(s.0, input), state_after::<M, O, B>(s.1, A::out(s.0, input)))
    }

    open spec fn out(s: (A::V, B::V), input: I) -> Seq<O> {
        output_of::<M, O, B>(s.1, A::out(s.0, input))
    }

    fn step(&mut self, input: I) -> (r: Vec<O>) {
        let mids = self.first.step(input);
        feed(&mut self.second, mids)
    }
}

/// Events pass a chain of stages without loss, duplication or reordering:
/// from the states `s` of its two stages, what the chain emits for `xs` is
/// what the second emits when fed, in order, everything that the first
/// emits for `xs`; and both stages end in the states they would reach on
/// their own.
pub proof fn lemma_chain_composes<I, M, O, A: Logic<I, M>, B: Logic<M, O>>(
    s: (A::V, B::V),
    xs: Seq<I>,
)
    ensures
        output_of::<I, O, Chain<A, B, M>>(s, xs) == output_of::<M, O, B>(
            s.1,
            output_of::<I, M, A>(s.0, xs),
        ),
        state_after::<I, O, Chain<A, B, M>>(s, xs) == (
            state_after::<I, M, A>(s.0, xs),
            state_after::<M, O, B>(s.1, output_of::<I, M, A>(s.0, xs)),
        ),
    decreases xs.len(),
{
    if xs.len() > 0 {
        let p = xs.drop_last();
        let x = xs.last();
        lemma_chain_composes::<I, M, O, A, B>(s, p);
        let a_p = state_after::<I, M, A>(s.0, p);
        let mids = output_of::<I, M, A>(s.0, p);
        lemma_run_append::<M, O, B>(s.1, mids, A::out(a_p, x));
    }
}

} // verus!
