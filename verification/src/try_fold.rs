//! Folding with an accumulator that can refuse an item. The first refusal
//! ends the fold: no further item is pulled, nothing is finished, and the
//! error of that refusal is the outcome.
//!
//! As in `fold`, nothing is assumed of an accumulator, and the outcome is
//! stated over what its own `init`, `try_fold` and `get_result` promise.

use crate::fold::{fold_outcome, folds_as, lemma_fold_in_model, Foldable};
use vstd::prelude::*;
use vstd::std_specs::iter::IteratorSpec;

verus! {

/// A state that is folded over the items of a sequence and then turned into
/// a result, and that can refuse an item instead of absorbing it. If the
/// fold must not fail, use `Foldable`.
pub trait TryFoldable<Item>: Default {
    /// What the finished state is turned into.
    type Result;

    /// Why an item was refused.
    type Error;

    /// The state before any item is absorbed. Unless an impl says otherwise,
    /// this is `Default::default()`.
    fn init() -> (state: Self)
        default_ensures
            call_ensures(<Self as Default>::default, (), state),
    {
        Default::default()
    }

    /// Absorbs one item and gives the next state, or refuses the item; a
    /// refusal gives no state.
    fn try_fold(self, item: Item) -> Result<Self, Self::Error>;

    /// Turns the state that has absorbed every item into the result.
    fn get_result(self) -> Self::Result;
}

/// `states` is a run of `Fold` over `items` in which no item is refused: its
/// first state is one that `init` can return, and the state after each item
/// is one that `try_fold` can return for the state before that item and the
/// item itself.
pub open spec fn is_try_fold_trace<Item, Fold: TryFoldable<Item>>(
    states: Seq<Fold>,
    items: Seq<Item>,
) -> bool {
    &&& states.len() == items.len() + 1
    &&& call_ensures(Fold::init, (), states[0])
    &&& forall|i: int|
        0 <= i < items.len() ==> call_ensures(
            Fold::try_fold,
            (#[trigger] states[i], items[i]),
            Ok::<Fold, Fold::Error>(states[i + 1]),
        )
}

/// Every item of `items` can be absorbed in its turn, and `result` is what
/// `get_result` can return for the state that has absorbed them all.
pub open spec fn try_fold_succeeds<Item, Fold: TryFoldable<Item>>(
    items: Seq<Item>,
    result: Fold::Result,
) -> bool {
    exists|states: Seq<Fold>| #[trigger]
        is_try_fold_trace::<Item, Fold>(states, items) && call_ensures(
            Fold::get_result,
            (states.last(),),
            result,
        )
}

/// The items before place `at` can be absorbed in their turn, and the state
/// that has absorbed them can refuse the item at `at` with `error`.
pub open spec fn try_fold_fails_at<Item, Fold: TryFoldable<Item>>(
    items: Seq<Item>,
    at: int,
    error: Fold::Error,
) -> bool {
    &&& 0 <= at < items.len()
    &&& exists|states: Seq<Fold>| #[trigger]
        is_try_fold_trace::<Item, Fold>(states, items.take(at)) && call_ensures(
            Fold::try_fold,
            (states.last(), items[at]),
            Err::<Fold, Fold::Error>(error),
        )
}

/// `outcome` is what folding `items` with `Fold` can give: the result of a
/// run over all items, or the error of the first refusal.
pub open spec fn try_fold_outcome<Item, Fold: TryFoldable<Item>>(
    items: Seq<Item>,
    outcome: Result<Fold::Result, Fold::Error>,
) -> bool {
    match outcome {
        Ok(result) => try_fold_succeeds::<Item, Fold>(items, result),
        Err(error) => exists|at: int| try_fold_fails_at::<Item, Fold>(items, at, error),
    }
}

/// Folds the items that `iter` yields with `Fold`, and leaves in `iter` what
/// it did not pull. After a success `iter` is exhausted. After a refusal the
/// refused item is the last one pulled, and every item after it is still to
/// come from `iter`.
///
/// The iterator has to follow vstd's laws of iterators and to come to an
/// end; `remaining` is the sequence of the items that it yields.
pub fn try_fold_by_ref<Iter, Fold>(iter: &mut Iter) -> (outcome: Result<
    Fold::Result,
    Fold::Error,
>) where Iter: Iterator, Fold: TryFoldable<Iter::Item>
    requires
        (*old(iter)).obeys_prophetic_iter_laws(),
        (*old(iter)).decrease() is Some,
    ensures
        (*final(iter)).obeys_prophetic_iter_laws(),
        (*final(iter)).decrease() is Some,
        match outcome {
            Ok(result) => {
                &&& try_fold_succeeds::<Iter::Item, Fold>((*old(iter)).remaining(), result)
                &&& (*final(iter)).remaining().len() == 0
            },
            Err(error) => exists|at: int|
                {
                    &&& #[trigger] try_fold_fails_at::<Iter::Item, Fold>(
                        (*old(iter)).remaining(),
                        at,
                        error,
                    )
                    &&& (*final(iter)).remaining() == (*old(iter)).remaining().skip(at + 1)
                },
        },
{
    let ghost items = (*old(iter)).remaining();
    let mut state = Fold::init();
    let ghost mut states: Seq<Fold> = seq![state];
    let ghost mut seen: Seq<Iter::Item> = Seq::empty();
    loop
        invariant
            (*iter).obeys_prophetic_iter_laws(),
            (*iter).decrease() is Some,
            items == (*old(iter)).remaining(),
            seen + (*iter).remaining() == items,
            is_try_fold_trace::<Iter::Item, Fold>(states, seen),
            states.last() == state,
        decreases (*iter).decrease()->0,
    {
        match iter.next() {
            Some(item) => {
                match state.try_fold(item) {
                    Ok(next) => {
                        state = next;
                        proof {
                            states = states.push(state);
                            seen = seen.push(item);
                        }
                    },
                    Err(error) => {
                        let outcome = Err(error);
                        proof {
                            let at = seen.len() as int;
                            assert(outcome->Err_0 == error);
                            assert(items.take(at) == seen);
                            assert((*iter).remaining() == items.skip(at + 1));
                            assert(try_fold_fails_at::<Iter::Item, Fold>(items, at, error));
                        }
                        return outcome;
                    },
                }
            },
            None => {
                return Ok(state.get_result());
            },
        }
    }
}

/// Gives every iterator the method `try_fold_with_state`.
pub trait TryStatefulFold<Item>: Iterator<Item = Item> + Sized {
    /// Folds the items that the iterator yields, in their order, with `Fold`:
    /// starts from `Fold::init()` and hands each item to `try_fold`. The
    /// first refusal ends the fold with its error. If no item is refused,
    /// the fold finishes with `get_result` once the iterator is exhausted;
    /// with no items at all it cannot fail.
    ///
    /// The iterator has to follow vstd's laws of iterators and to come to an
    /// end; `remaining` is the sequence of the items that it yields.
    fn try_fold_with_state<Fold>(self) -> (outcome: Result<Fold::Result, Fold::Error>) where
        Fold: TryFoldable<Item>,

        requires
            self.obeys_prophetic_iter_laws(),
            self.decrease() is Some,
        ensures
            try_fold_outcome::<Item, Fold>(self.remaining(), outcome),
            self.remaining().len() == 0 ==> outcome is Ok,
    ;
}

impl<Iter> TryStatefulFold<Iter::Item> for Iter where Iter: Iterator + Sized {
    fn try_fold_with_state<Fold>(self) -> (outcome: Result<Fold::Result, Fold::Error>) where
        Fold: TryFoldable<Iter::Item>,
     {
        let mut iter = self;
        try_fold_by_ref::<Iter, Fold>(&mut iter)
    }
}

/// The left fold of a step that can refuse an item: `step` applied to the
/// items in their order, from `start`, up to the first refusal.
pub open spec fn try_fold_left<Item, Model, Failure>(
    items: Seq<Item>,
    start: Model,
    step: spec_fn(Model, Item) -> Result<Model, Failure>,
) -> Result<Model, Failure>
    decreases items.len(),
{
    if items.len() == 0 {
        Ok(start)
    } else {
        match try_fold_left(items.drop_last(), start, step) {
            Ok(state) => step(state, items.last()),
            Err(failure) => Err(failure),
        }
    }
}

/// `try_fold_left` ends at the first item that `step` refuses, with that
/// refusal, whatever comes after it.
pub proof fn lemma_try_fold_left_stops<Item, Model, Failure>(
    items: Seq<Item>,
    start: Model,
    step: spec_fn(Model, Item) -> Result<Model, Failure>,
    at: int,
)
    requires
        0 <= at < items.len(),
        try_fold_left(items.take(at), start, step) matches Ok(state) && step(state, items[at])
            is Err,
    ensures
        try_fold_left(items.take(at), start, step) matches Ok(state) && try_fold_left(
            items,
            start,
            step,
        ) == step(state, items[at]),
    decreases items.len(),
{
    if at == items.len() - 1 {
        assert(items.drop_last() == items.take(at));
    } else {
        assert(items.drop_last().take(at) == items.take(at));
        lemma_try_fold_left_stops(items.drop_last(), start, step, at);
    }
}

/// Where `try_step` refuses no item of `items` and succeeds with what `step`
/// gives, `try_fold_left` succeeds with the left fold of `step`.
pub proof fn lemma_try_fold_left_total<Item, Model, Failure>(
    items: Seq<Item>,
    start: Model,
    try_step: spec_fn(Model, Item) -> Result<Model, Failure>,
    step: spec_fn(Model, Item) -> Model,
)
    requires
        forall|state: Model, at: int|
            0 <= at < items.len() ==> #[trigger] try_step(state, items[at]) == Ok::<
                Model,
                Failure,
            >(step(state, items[at])),
    ensures
        try_fold_left(items, start, try_step) == Ok::<Model, Failure>(
            items.fold_left(start, step),
        ),
    decreases items.len(),
{
    if items.len() > 0 {
        let front = items.drop_last();
        assert forall|state: Model, at: int| 0 <= at < front.len() implies #[trigger] try_step(
            state,
            front[at],
        ) == Ok::<Model, Failure>(step(state, front[at])) by {
            assert(front[at] == items[at]);
        }
        lemma_try_fold_left_total(front, start, try_step, step);
    }
}

/// Folding no items succeeds, with what `get_result` makes of a state that
/// `init` returns, and nothing else.
pub proof fn lemma_try_fold_empty<Item, Fold: TryFoldable<Item>>(
    outcome: Result<Fold::Result, Fold::Error>,
)
    ensures
        try_fold_outcome::<Item, Fold>(Seq::empty(), outcome) <==> (outcome matches Ok(result)
            && exists|state: Fold|
            call_ensures(Fold::init, (), state) && call_ensures(
                Fold::get_result,
                (state,),
                result,
            )),
{
    if try_fold_outcome::<Item, Fold>(Seq::empty(), outcome) {
        let result = outcome->Ok_0;
        let states = choose|states: Seq<Fold>| #[trigger]
            is_try_fold_trace::<Item, Fold>(states, Seq::empty()) && call_ensures(
                Fold::get_result,
                (states.last(),),
                result,
            );
        assert(call_ensures(Fold::init, (), states[0]) && call_ensures(
            Fold::get_result,
            (states[0],),
            result,
        ));
    }
    if let Ok(result) = outcome {
        if exists|state: Fold|
            call_ensures(Fold::init, (), state) && call_ensures(
                Fold::get_result,
                (state,),
                result,
            ) {
            let state = choose|state: Fold|
                call_ensures(Fold::init, (), state) && call_ensures(
                    Fold::get_result,
                    (state,),
                    result,
                );
            assert(is_try_fold_trace::<Item, Fold>(seq![state], Seq::empty()));
            assert(seq![state].last() == state);
        }
    }
}

/// Where no item of `items` can be refused in its turn, folding `items`
/// succeeds, with what `get_result` makes of the state that has absorbed
/// them all.
pub proof fn lemma_try_fold_total<Item, Fold: TryFoldable<Item>>(
    items: Seq<Item>,
    outcome: Result<Fold::Result, Fold::Error>,
)
    requires
        forall|at: int, error: Fold::Error| !try_fold_fails_at::<Item, Fold>(items, at, error),
        try_fold_outcome::<Item, Fold>(items, outcome),
    ensures
        outcome matches Ok(result) && try_fold_succeeds::<Item, Fold>(items, result),
{
}

/// The contracts of `Fold` fix what each operation returns. Read through
/// `model`, a state is a plain value, a result is one through `out` and an
/// error one through `failure`; on these values `init` returns `start`,
/// `try_fold` computes `step` and `get_result` computes `finish`.
pub open spec fn try_folds_as<Item, Fold: TryFoldable<Item>, Model, Out, Failure>(
    model: spec_fn(Fold) -> Model,
    out: spec_fn(Fold::Result) -> Out,
    failure: spec_fn(Fold::Error) -> Failure,
    start: Model,
    step: spec_fn(Model, Item) -> Result<Model, Failure>,
    finish: spec_fn(Model) -> Out,
) -> bool {
    &&& forall|state: Fold| call_ensures(Fold::init, (), state) ==> model(state) == start
    &&& forall|state: Fold, item: Item, stepped: Result<Fold, Fold::Error>|
        call_ensures(Fold::try_fold, (state, item), stepped) ==> step(model(state), item)
            == match stepped {
            Ok(next) => Ok(model(next)),
            Err(error) => Err(failure(error)),
        }
    &&& forall|state: Fold, result: Fold::Result|
        call_ensures(Fold::get_result, (state,), result) ==> out(result) == finish(model(state))
}

/// Along a run without refusal, the left fold of `step` over the first
/// `upto` items succeeds with the model of the state after them.
proof fn lemma_try_trace_in_model<Item, Fold: TryFoldable<Item>, Model, Out, Failure>(
    states: Seq<Fold>,
    items: Seq<Item>,
    model: spec_fn(Fold) -> Model,
    out: spec_fn(Fold::Result) -> Out,
    failure: spec_fn(Fold::Error) -> Failure,
    start: Model,
    step: spec_fn(Model, Item) -> Result<Model, Failure>,
    finish: spec_fn(Model) -> Out,
    upto: int,
)
    requires
        try_folds_as::<Item, Fold, Model, Out, Failure>(model, out, failure, start, step, finish),
        is_try_fold_trace::<Item, Fold>(states, items),
        0 <= upto <= items.len(),
    ensures
        try_fold_left(items.take(upto), start, step) == Ok::<Model, Failure>(model(states[upto])),
    decreases upto,
{
    if upto > 0 {
        lemma_try_trace_in_model(
            states,
            items,
            model,
            out,
            failure,
            start,
            step,
            finish,
            upto - 1,
        );
        assert(call_ensures(
            Fold::try_fold,
            (states[upto - 1], items[upto - 1]),
            Ok::<Fold, Fold::Error>(states[upto]),
        ));
        assert(items.take(upto).drop_last() == items.take(upto - 1));
    }
}

/// Folding is the left fold of the accumulator's own step, up to the first
/// refusal: for an accumulator that folds as `start`, `step` and `finish`,
/// folding `items` succeeds exactly when `step` refuses none of them in its
/// turn, and gives `finish` of the state reached; otherwise it fails with
/// the first refusal.
pub proof fn lemma_try_fold_in_model<Item, Fold: TryFoldable<Item>, Model, Out, Failure>(
    items: Seq<Item>,
    outcome: Result<Fold::Result, Fold::Error>,
    model: spec_fn(Fold) -> Model,
    out: spec_fn(Fold::Result) -> Out,
    failure: spec_fn(Fold::Error) -> Failure,
    start: Model,
    step: spec_fn(Model, Item) -> Result<Model, Failure>,
    finish: spec_fn(Model) -> Out,
)
    requires
        try_folds_as::<Item, Fold, Model, Out, Failure>(model, out, failure, start, step, finish),
        try_fold_outcome::<Item, Fold>(items, outcome),
    ensures
        match try_fold_left(items, start, step) {
            Ok(last) => outcome matches Ok(result) && out(result) == finish(last),
            Err(refusal) => outcome matches Err(error) && failure(error) == refusal,
        },
{
    match outcome {
        Ok(result) => {
            let states = choose|states: Seq<Fold>| #[trigger]
                is_try_fold_trace::<Item, Fold>(states, items) && call_ensures(
                    Fold::get_result,
                    (states.last(),),
                    result,
                );
            let all = items.len() as int;
            lemma_try_trace_in_model(
                states,
                items,
                model,
                out,
                failure,
                start,
                step,
                finish,
                all,
            );
            assert(items.take(all) == items);
        },
        Err(error) => {
            let at = choose|at: int| try_fold_fails_at::<Item, Fold>(items, at, error);
            let states = choose|states: Seq<Fold>| #[trigger]
                is_try_fold_trace::<Item, Fold>(states, items.take(at)) && call_ensures(
                    Fold::try_fold,
                    (states.last(), items[at]),
                    Err::<Fold, Fold::Error>(error),
                );
            lemma_try_trace_in_model(
                states,
                items.take(at),
                model,
                out,
                failure,
                start,
                step,
                finish,
                at,
            );
            assert(items.take(at).take(at) == items.take(at));
            lemma_try_fold_left_stops(items, start, step, at);
        },
    }
}

/// An accumulator that refuses none of `items` folds them as an accumulator
/// that cannot fail does. Let `Try` fold as `start`, `try_step` and `finish`,
/// and `Plain` as `start`, `step` and `finish`, where on the items of `items`
/// `try_step` always succeeds with what `step` gives. Then folding `items`
/// with `Try` succeeds, and its result reads as the result of folding them
/// with `Plain`.
pub proof fn lemma_try_fold_as_fold<
    Item,
    Try: TryFoldable<Item>,
    Plain: Foldable<Item>,
    Model,
    Out,
    Failure,
>(
    items: Seq<Item>,
    outcome: Result<Try::Result, Try::Error>,
    plain: Plain::Result,
    try_model: spec_fn(Try) -> Model,
    try_out: spec_fn(Try::Result) -> Out,
    failure: spec_fn(Try::Error) -> Failure,
    try_step: spec_fn(Model, Item) -> Result<Model, Failure>,
    plain_model: spec_fn(Plain) -> Model,
    plain_out: spec_fn(Plain::Result) -> Out,
    step: spec_fn(Model, Item) -> Model,
    start: Model,
    finish: spec_fn(Model) -> Out,
)
    requires
        try_folds_as::<Item, Try, Model, Out, Failure>(
            try_model,
            try_out,
            failure,
            start,
            try_step,
            finish,
        ),
        folds_as::<Item, Plain, Model, Out>(plain_model, plain_out, start, step, finish),
        forall|state: Model, at: int|
            0 <= at < items.len() ==> #[trigger] try_step(state, items[at]) == Ok::<
                Model,
                Failure,
            >(step(state, items[at])),
        try_fold_outcome::<Item, Try>(items, outcome),
        fold_outcome::<Item, Plain>(items, plain),
    ensures
        outcome matches Ok(result) && try_out(result) == plain_out(plain),
{
    lemma_try_fold_in_model(items, outcome, try_model, try_out, failure, start, try_step, finish);
    lemma_fold_in_model(items, plain, plain_model, plain_out, start, step, finish);
    lemma_try_fold_left_total(items, start, try_step, step);
}

} // verus!
