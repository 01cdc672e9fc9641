use vstd::prelude::*;

verus! {

/// The state reached by a sequence of steps, and the error that stopped it, if any.
pub struct Outcome<S> {
    pub state: S,
    pub error: Option<Seq<char>>,
}

/// Applies `step` to each item in turn, starting from `start`, and stops at the
/// first step that reports an error.
pub open spec fn run<S, A>(start: S, items: Seq<A>, step: spec_fn(S, A) -> Outcome<S>) -> Outcome<S>
    decreases items.len(),
{
    if items.len() == 0 {
        Outcome { state: start, error: None }
    } else {
        let before = run(start, items.drop_last(), step);
        if before.error is Some {
            before
        } else {
            step(before.state, items.last())
        }
    }
}

/// Every step that `run` takes is one that `ok` admits.
pub open spec fn run_ok<S, A>(
    start: S,
    items: Seq<A>,
    step: spec_fn(S, A) -> Outcome<S>,
    ok: spec_fn(S, A) -> bool,
) -> bool
    decreases items.len(),
{
    items.len() == 0 || (run_ok(start, items.drop_last(), step, ok) && {
        let before = run(start, items.drop_last(), step);
        before.error is Some || ok(before.state, items.last())
    })
}

/// One more item: the run over a longer prefix is one step after the run over the shorter one.
pub proof fn lemma_run_next<S, A>(start: S, items: Seq<A>, step: spec_fn(S, A) -> Outcome<S>, i: int)
    requires
        0 <= i < items.len(),
    ensures
        run(start, items.take(i + 1), step) == ({
            let before = run(start, items.take(i), step);
            if before.error is Some {
                before
            } else {
                step(before.state, items[i])
            }
        }),
{
    assert(items.take(i + 1).drop_last() =~= items.take(i));
}

/// The whole sequence is its longest prefix.
pub proof fn lemma_run_all<S, A>(start: S, items: Seq<A>, step: spec_fn(S, A) -> Outcome<S>)
    ensures
        run(start, items.take(items.len() as int), step) == run(start, items, step),
{
    assert(items.take(items.len() as int) =~= items);
}

/// Once a run has stopped on an error, longer prefixes stop at the same place.
pub proof fn lemma_run_stops<S, A>(start: S, items: Seq<A>, step: spec_fn(S, A) -> Outcome<S>, i: int, j: int)
    requires
        0 <= i <= j <= items.len(),
        run(start, items.take(i), step).error is Some,
    ensures
        run(start, items.take(j), step) == run(start, items.take(i), step),
    decreases j - i,
{
    if j > i {
        lemma_run_stops(start, items, step, i, j - 1);
        lemma_run_next(start, items, step, j - 1);
    }
}

/// A run whose steps are all admitted has its prefixes' steps admitted too.
pub proof fn lemma_run_ok_prefix<S, A>(
    start: S,
    items: Seq<A>,
    step: spec_fn(S, A) -> Outcome<S>,
    ok: spec_fn(S, A) -> bool,
    i: int,
)
    requires
        0 <= i <= items.len(),
        run_ok(start, items, step, ok),
    ensures
        run_ok(start, items.take(i), step, ok),
    decreases items.len() - i,
{
    if i == items.len() {
        assert(items.take(i) =~= items);
    } else {
        lemma_run_ok_prefix(start, items.drop_last(), step, ok, i);
        assert(items.drop_last().take(i) =~= items.take(i));
    }
}

/// The step taken at position `i` of an admitted run is admitted.
pub proof fn lemma_run_ok_at<S, A>(
    start: S,
    items: Seq<A>,
    step: spec_fn(S, A) -> Outcome<S>,
    ok: spec_fn(S, A) -> bool,
    i: int,
)
    requires
        0 <= i < items.len(),
        run_ok(start, items, step, ok),
    ensures
        run(start, items.take(i), step).error is Some || ok(run(start, items.take(i), step).state, items[i]),
{
    lemma_run_ok_prefix(start, items, step, ok, i + 1);
    assert(items.take(i + 1).drop_last() =~= items.take(i));
}

/// A run over nothing stays where it started.
pub proof fn lemma_run_empty<S, A>(start: S, step: spec_fn(S, A) -> Outcome<S>, ok: spec_fn(S, A) -> bool)
    ensures
        run(start, Seq::<A>::empty(), step) == (Outcome { state: start, error: None::<Seq<char>> }),
        run_ok(start, Seq::<A>::empty(), step, ok),
{
}

/// A run over one item is one step.
pub proof fn lemma_run_one<S, A>(start: S, a: A, step: spec_fn(S, A) -> Outcome<S>, ok: spec_fn(S, A) -> bool)
    ensures
        run(start, seq![a], step) == step(start, a),
        run_ok(start, seq![a], step, ok) == ok(start, a),
{
    assert(seq![a].drop_last() =~= Seq::<A>::empty());
    lemma_run_empty(start, step, ok);
}

/// A run over two items is two steps, the second taken only when the first reports no error.
pub proof fn lemma_run_two<S, A>(start: S, a: A, b: A, step: spec_fn(S, A) -> Outcome<S>, ok: spec_fn(S, A) -> bool)
    ensures
        run(start, seq![a, b], step) == (if step(start, a).error is Some {
            step(start, a)
        } else {
            step(step(start, a).state, b)
        }),
        run_ok(start, seq![a, b], step, ok) == (ok(start, a) && (step(start, a).error is Some || ok(step(start, a).state, b))),
{
    assert(seq![a, b].drop_last() =~= seq![a]);
    lemma_run_one(start, a, step, ok);
}

/// What every step keeps holds where a run ends, whether it stopped or not.
pub proof fn lemma_run_keeps<S, A>(start: S, items: Seq<A>, step: spec_fn(S, A) -> Outcome<S>, p: spec_fn(S) -> bool)
    requires
        p(start),
        forall|s: S, a: A| p(s) ==> #[trigger] p(step(s, a).state),
    ensures
        p(run(start, items, step).state),
    decreases items.len(),
{
    if items.len() > 0 {
        lemma_run_keeps(start, items.drop_last(), step, p);
    }
}

/// What every admitted step keeps holds where an admitted run ends.
pub proof fn lemma_run_ok_keeps<S, A>(
    start: S,
    items: Seq<A>,
    step: spec_fn(S, A) -> Outcome<S>,
    ok: spec_fn(S, A) -> bool,
    p: spec_fn(S) -> bool,
)
    requires
        p(start),
        run_ok(start, items, step, ok),
        forall|s: S, a: A| p(s) && ok(s, a) ==> #[trigger] p(step(s, a).state),
    ensures
        p(run(start, items, step).state),
    decreases items.len(),
{
    if items.len() > 0 {
        lemma_run_ok_keeps(start, items.drop_last(), step, ok, p);
    }
}

} // verus!
