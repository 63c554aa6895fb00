//! Folding with an accumulator that cannot fail.
//!
//! Nothing is assumed of an accumulator. What a fold gives is stated over
//! `call_ensures`, that is over whatever the accumulator's own `init`, `fold`
//! and `get_result` promise: the result is one that `get_result` can return
//! for a state reached from a state that `init` can return by `fold`, taking
//! the items in their order. For an accumulator whose contracts fix what each
//! operation returns, `lemma_fold_in_model` turns this into an equation.

use vstd::prelude::*;
use vstd::std_specs::iter::IteratorSpec;

verus! {

/// A state that is folded over the items of a sequence and then turned into
/// a result.
pub trait Foldable<Item>: Default {
    /// What the finished state is turned into.
    type Result;

    /// The state before any item is absorbed. Unless an impl says otherwise,
    /// this is `Default::default()`.
    fn init() -> (state: Self)
        default_ensures
            call_ensures(<Self as Default>::default, (), state),
    {
        Default::default()
    }

    /// Absorbs one item: takes the state and gives the next one.
    fn fold(self, item: Item) -> Self;

    /// Turns the state that has absorbed every item into the result.
    fn get_result(self) -> Self::Result;
}

/// `states` is a run of `Fold` over `items`: its first state is one that
/// `init` can return, and the state after each item is one that `fold` can
/// return for the state before that item and the item itself. No item is
/// skipped and none is taken out of turn.
pub open spec fn is_fold_trace<Item, Fold: Foldable<Item>>(
    states: Seq<Fold>,
    items: Seq<Item>,
) -> bool {
    &&& states.len() == items.len() + 1
    &&& call_ensures(Fold::init, (), states[0])
    &&& forall|i: int|
        0 <= i < items.len() ==> call_ensures(
            Fold::fold,
            (#[trigger] states[i], items[i]),
            states[i + 1],
        )
}

/// `result` is what folding `items` with `Fold` can give: what `get_result`
/// can return for the last state of a run over `items`.
pub open spec fn fold_outcome<Item, Fold: Foldable<Item>>(
    items: Seq<Item>,
    result: Fold::Result,
) -> bool {
    exists|states: Seq<Fold>| #[trigger]
        is_fold_trace::<Item, Fold>(states, items) && call_ensures(
            Fold::get_result,
            (states.last(),),
            result,
        )
}

/// Gives every iterator the method `fold_with_state`.
pub trait StatefulFold<Item>: Iterator<Item = Item> + Sized {
    /// Folds the items that the iterator yields, in their order, with `Fold`:
    /// starts from `Fold::init()`, hands each item to `fold`, and finishes
    /// with `get_result` once the iterator is exhausted.
    ///
    /// The iterator has to follow vstd's laws of iterators and to come to an
    /// end; `remaining` is the sequence of the items that it yields.
    fn fold_with_state<Fold>(self) -> (result: Fold::Result) where Fold: Foldable<Item>
        requires
            self.obeys_prophetic_iter_laws(),
            self.decrease() is Some,
        ensures
            fold_outcome::<Item, Fold>(self.remaining(), result),
    ;
}

impl<Iter> StatefulFold<Iter::Item> for Iter where Iter: Iterator + Sized {
    fn fold_with_state<Fold>(self) -> (result: Fold::Result) where Fold: Foldable<Iter::Item> {
        let mut iter = self;
        let mut state = Fold::init();
        let ghost mut states: Seq<Fold> = seq![state];
        let ghost mut seen: Seq<Iter::Item> = Seq::empty();
        loop
            invariant
                iter.obeys_prophetic_iter_laws(),
                iter.decrease() is Some,
                seen + iter.remaining() == self.remaining(),
                is_fold_trace::<Iter::Item, Fold>(states, seen),
                states.last() == state,
            decreases iter.decrease()->0,
        {
            match iter.next() {
                Some(item) => {
                    state = state.fold(item);
                    proof {
                        states = states.push(state);
                        seen = seen.push(item);
                    }
                },
                None => {
                    return state.get_result();
                },
            }
        }
    }
}

/// Folding no items gives what `get_result` makes of a state that `init`
/// returns, and nothing else.
pub proof fn lemma_fold_empty<Item, Fold: Foldable<Item>>(result: Fold::Result)
    ensures
        fold_outcome::<Item, Fold>(Seq::empty(), result) <==> exists|state: Fold|
            call_ensures(Fold::init, (), state) && call_ensures(
                Fold::get_result,
                (state,),
                result,
            ),
{
    if fold_outcome::<Item, Fold>(Seq::empty(), result) {
        let states = choose|states: Seq<Fold>| #[trigger]
            is_fold_trace::<Item, Fold>(states, Seq::empty()) && call_ensures(
                Fold::get_result,
                (states.last(),),
                result,
            );
        assert(call_ensures(Fold::init, (), states[0]) && call_ensures(
            Fold::get_result,
            (states[0],),
            result,
        ));
    }
    if exists|state: Fold|
        call_ensures(Fold::init, (), state) && call_ensures(Fold::get_result, (state,), result) {
        let state = choose|state: Fold|
            call_ensures(Fold::init, (), state) && call_ensures(
                Fold::get_result,
                (state,),
                result,
            );
        assert(is_fold_trace::<Item, Fold>(seq![state], Seq::empty()));
        assert(seq![state].last() == state);
    }
}

/// The contracts of `Fold` fix what each operation returns. Read through
/// `model`, a state is a plain value, and a result is one through `out`; on
/// these values `init` returns `start`, `fold` computes `step` and
/// `get_result` computes `finish`.
pub open spec fn folds_as<Item, Fold: Foldable<Item>, Model, Out>(
    model: spec_fn(Fold) -> Model,
    out: spec_fn(Fold::Result) -> Out,
    start: Model,
    step: spec_fn(Model, Item) -> Model,
    finish: spec_fn(Model) -> Out,
) -> bool {
    &&& forall|state: Fold| call_ensures(Fold::init, (), state) ==> model(state) == start
    &&& forall|state: Fold, item: Item, next: Fold|
        call_ensures(Fold::fold, (state, item), next) ==> model(next) == step(model(state), item)
    &&& forall|state: Fold, result: Fold::Result|
        call_ensures(Fold::get_result, (state,), result) ==> out(result) == finish(model(state))
}

/// Along a run, the model of the state after the first `upto` items is the
/// left fold of `step` over those items.
proof fn lemma_trace_in_model<Item, Fold: Foldable<Item>, Model, Out>(
    states: Seq<Fold>,
    items: Seq<Item>,
    model: spec_fn(Fold) -> Model,
    out: spec_fn(Fold::Result) -> Out,
    start: Model,
    step: spec_fn(Model, Item) -> Model,
    finish: spec_fn(Model) -> Out,
    upto: int,
)
    requires
        folds_as::<Item, Fold, Model, Out>(model, out, start, step, finish),
        is_fold_trace::<Item, Fold>(states, items),
        0 <= upto <= items.len(),
    ensures
        model(states[upto]) == items.take(upto).fold_left(start, step),
    decreases upto,
{
    if upto > 0 {
        lemma_trace_in_model(states, items, model, out, start, step, finish, upto - 1);
        assert(call_ensures(Fold::fold, (states[upto - 1], items[upto - 1]), states[upto]));
        assert(items.take(upto).drop_last() == items.take(upto - 1));
    }
}

/// Folding is the left fold of the accumulator's own step: for an
/// accumulator that folds as `start`, `step` and `finish`, folding `items`
/// gives `finish` of the state that `step` reaches from `start` over the
/// items in their order, and nothing else.
pub proof fn lemma_fold_in_model<Item, Fold: Foldable<Item>, Model, Out>(
    items: Seq<Item>,
    result: Fold::Result,
    model: spec_fn(Fold) -> Model,
    out: spec_fn(Fold::Result) -> Out,
    start: Model,
    step: spec_fn(Model, Item) -> Model,
    finish: spec_fn(Model) -> Out,
)
    requires
        folds_as::<Item, Fold, Model, Out>(model, out, start, step, finish),
        fold_outcome::<Item, Fold>(items, result),
    ensures
        out(result) == finish(items.fold_left(start, step)),
{
    let states = choose|states: Seq<Fold>| #[trigger]
        is_fold_trace::<Item, Fold>(states, items) && call_ensures(
            Fold::get_result,
            (states.last(),),
            result,
        );
    let all = items.len() as int;
    lemma_trace_in_model(states, items, model, out, start, step, finish, all);
    assert(items.take(all) == items);
}

/// The left fold over two items applies `step` to the first and then to the
/// second.
proof fn lemma_fold_left_of_two<Item, Model>(
    a: Item,
    b: Item,
    start: Model,
    step: spec_fn(Model, Item) -> Model,
)
    ensures
        seq![a, b].fold_left(start, step) == step(step(start, a), b),
{
    reveal_with_fuel(Seq::fold_left, 3);
}

/// The order of the items counts. For an accumulator that folds as `start`,
/// `step` and `finish`: where absorbing `a` and then `b` finishes differently
/// from absorbing `b` and then `a`, folding `[a, b]` and folding `[b, a]`
/// give different results.
pub proof fn lemma_fold_order<Item, Fold: Foldable<Item>, Model, Out>(
    a: Item,
    b: Item,
    forward: Fold::Result,
    backward: Fold::Result,
    model: spec_fn(Fold) -> Model,
    out: spec_fn(Fold::Result) -> Out,
    start: Model,
    step: spec_fn(Model, Item) -> Model,
    finish: spec_fn(Model) -> Out,
)
    requires
        folds_as::<Item, Fold, Model, Out>(model, out, start, step, finish),
        finish(step(step(start, a), b)) != finish(step(step(start, b), a)),
        fold_outcome::<Item, Fold>(seq![a, b], forward),
        fold_outcome::<Item, Fold>(seq![b, a], backward),
    ensures
        forward != backward,
{
    lemma_fold_in_model(seq![a, b], forward, model, out, start, step, finish);
    lemma_fold_in_model(seq![b, a], backward, model, out, start, step, finish);
    lemma_fold_left_of_two(a, b, start, step);
    lemma_fold_left_of_two(b, a, start, step);
}

} // verus!
