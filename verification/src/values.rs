//! The quantifiers as functions. Where a sub-combinator acts as a function
//! of the state of the pipeline, as the expectations of this library do,
//! what a quantifier hands back is a function of the state too. These
//! functions, and the proofs that the quantifiers compute them, stand here.

use crate::pipeline::{outcome_view, MatchingPipeline, PipelineResult};
use crate::quantifiers::{
    at_least_allows, at_least_ends, at_most_allows, at_most_ends, exactly_allows, exactly_ends,
    is_complete, is_run, is_step, makes_progress, zero_or_one_allows, Attempts,
};
use crate::state::{Outcome, PipelineState};
use crate::symbol::Symbol;
use vstd::prelude::*;

verus! {

/// A sub-combinator as a function of the state.
pub type Step<S> = spec_fn(PipelineState<S>) -> Outcome<S>;

/// The sub-combinator acts as `step`: whatever it returns for a pipeline is,
/// as a value, what `step` makes of the state of that pipeline.
pub open spec fn acts_as<'a, S: Symbol + 'a>(attempts: Attempts<'a, S>, step: Step<S>) -> bool {
    forall|pipeline: MatchingPipeline<S>, attempt: PipelineResult<'a, S>| #[trigger]
        attempts(pipeline, attempt) ==> outcome_view(attempt) == step(pipeline@)
}

/// `step` applied `count` times in a row, up to its first failure.
pub open spec fn exactly_value<S>(step: Step<S>, state: PipelineState<S>, count: nat) -> Outcome<S>
    decreases count,
{
    if count == 0 {
        Ok(state)
    } else {
        match step(state) {
            Ok(next) => exactly_value(step, next, (count - 1) as nat),
            Err(error) => Err(error),
        }
    }
}

/// `step` applied once, its failure counting for nothing.
pub open spec fn zero_or_one_value<S>(step: Step<S>, state: PipelineState<S>) -> Outcome<S> {
    match step(state) {
        Ok(next) => Ok(next),
        Err(_) => Ok(state),
    }
}

/// The state in which `step` first fails, or that `limit` successes lead to.
pub open spec fn repeated_at_most<S>(
    step: Step<S>,
    state: PipelineState<S>,
    limit: nat,
) -> PipelineState<S>
    decreases limit,
{
    if limit == 0 {
        state
    } else {
        match step(state) {
            Ok(next) => repeated_at_most(step, next, (limit - 1) as nat),
            Err(_) => state,
        }
    }
}

/// `step` applied up to `count` times: the failure of the first attempt, or
/// the state in which a later attempt failed or that `count` successes led
/// to.
pub open spec fn at_most_value<S>(step: Step<S>, state: PipelineState<S>, count: nat) -> Outcome<S> {
    if count == 0 {
        Ok(state)
    } else {
        match step(state) {
            Ok(next) => Ok(repeated_at_most(step, next, (count - 1) as nat)),
            Err(error) => Err(error),
        }
    }
}

/// The state in which nothing is left or `step` first fails, each success
/// leaving fewer symbols than there were.
pub open spec fn repeated<S>(step: Step<S>, state: PipelineState<S>) -> PipelineState<S>
    decreases state.unmatched.len(),
{
    if state.exhausted() {
        state
    } else {
        match step(state) {
            Ok(next) => if next.unmatched.len() < state.unmatched.len() {
                repeated(step, next)
            } else {
                state
            },
            Err(_) => state,
        }
    }
}

/// `step` applied `count` times and then for as long as symbols are left and
/// it succeeds: the failure if it came before `count` successes, else the
/// state in which nothing was left or `step` failed.
pub open spec fn at_least_value<S>(step: Step<S>, state: PipelineState<S>, count: nat) -> Outcome<S> {
    match exactly_value(step, state, count) {
        Ok(reached) => Ok(repeated(step, reached)),
        Err(error) => Err(error),
    }
}

/// Along a run, what is still to be applied of `count` applications gives
/// the same as all of them from the start.
proof fn lemma_exactly_along_run<'a, S: Symbol + 'a>(
    attempts: Attempts<'a, S>,
    step: Step<S>,
    start: MatchingPipeline<S>,
    states: Seq<MatchingPipeline<S>>,
    count: nat,
    i: nat,
)
    requires
        acts_as(attempts, step),
        is_run(attempts, start, states),
        i < states.len(),
        i <= count,
    ensures
        exactly_value(step, start@, count) == exactly_value(step, states[i as int]@, (count - i) as nat),
    decreases i,
{
    if i > 0 {
        lemma_exactly_along_run(attempts, step, start, states, count, (i - 1) as nat);
        assert(is_step(attempts, states, i - 1));
    }
}

/// The same for the repetition that `AtMost` makes after its first success.
proof fn lemma_at_most_along_run<'a, S: Symbol + 'a>(
    attempts: Attempts<'a, S>,
    step: Step<S>,
    start: MatchingPipeline<S>,
    states: Seq<MatchingPipeline<S>>,
    count: nat,
    i: nat,
)
    requires
        acts_as(attempts, step),
        is_run(attempts, start, states),
        1 <= i < states.len(),
        i <= count,
    ensures
        repeated_at_most(step, states[1]@, (count - 1) as nat) == repeated_at_most(
            step,
            states[i as int]@,
            (count - i) as nat,
        ),
    decreases i,
{
    if i > 1 {
        lemma_at_most_along_run(attempts, step, start, states, count, (i - 1) as nat);
        assert(is_step(attempts, states, i - 1));
    }
}

/// The same for the repetition without a limit, along a part of the run in
/// which symbols are left before each success.
proof fn lemma_repeated_along_run<'a, S: Symbol + 'a>(
    attempts: Attempts<'a, S>,
    step: Step<S>,
    start: MatchingPipeline<S>,
    states: Seq<MatchingPipeline<S>>,
    from: nat,
    to: nat,
)
    requires
        acts_as(attempts, step),
        makes_progress(attempts),
        is_run(attempts, start, states),
        from <= to < states.len(),
        forall|i: int| from <= i < to ==> !(#[trigger] states[i])@.exhausted(),
    ensures
        repeated(step, states[from as int]@) == repeated(step, states[to as int]@),
    decreases to - from,
{
    if from < to {
        lemma_repeated_along_run(attempts, step, start, states, from + 1, to);
        assert(is_step(attempts, states, from as int));
    }
}

/// Where the sub-combinator acts as a function of the state, so does
/// `Exactly`: its outcome is that function applied `count` times in a row,
/// up to its first failure.
pub proof fn lemma_exactly_value<'a, S: Symbol + 'a>(
    start: MatchingPipeline<S>,
    count: nat,
    attempts: Attempts<'a, S>,
    step: Step<S>,
    outcome: PipelineResult<'a, S>,
)
    requires
        acts_as(attempts, step),
        exactly_allows(start, count, attempts, outcome),
    ensures
        outcome_view(outcome) == exactly_value(step, start@, count),
{
    let states = choose|states: Seq<MatchingPipeline<S>>| #[trigger]
        exactly_ends(start, count, attempts, outcome, states);
    lemma_exactly_along_run(attempts, step, start, states, count, (states.len() - 1) as nat);
}

/// Where the sub-combinator acts as a function of the state, so does
/// `ZeroOrOne`: its outcome is what that function makes of the state, or the
/// state itself where the function fails.
pub proof fn lemma_zero_or_one_value<'a, S: Symbol + 'a>(
    start: MatchingPipeline<S>,
    attempts: Attempts<'a, S>,
    step: Step<S>,
    outcome: PipelineResult<'a, S>,
)
    requires
        acts_as(attempts, step),
        zero_or_one_allows(start, attempts, outcome),
    ensures
        outcome_view(outcome) == zero_or_one_value(step, start@),
{
}

/// Where the sub-combinator acts as a function of the state and makes
/// progress, `AtLeast` and `ZeroOrMore` act as a function too: the failure
/// that came before `count` successes, or else the state in which nothing
/// was left or the function first failed.
pub proof fn lemma_at_least_value<'a, S: Symbol + 'a>(
    start: MatchingPipeline<S>,
    count: nat,
    attempts: Attempts<'a, S>,
    step: Step<S>,
    outcome: PipelineResult<'a, S>,
)
    requires
        acts_as(attempts, step),
        makes_progress(attempts),
        at_least_allows(start, count, attempts, outcome),
    ensures
        outcome_view(outcome) == at_least_value(step, start@, count),
{
    let (states, failure) = choose|
        states: Seq<MatchingPipeline<S>>,
        failure: PipelineResult<'a, S>,
    | #[trigger] at_least_ends(start, count, attempts, outcome, states, failure);
    let last = (states.len() - 1) as nat;
    if last >= count {
        lemma_exactly_along_run(attempts, step, start, states, count, count);
        assert forall|i: int| count <= i < last implies !(#[trigger] states[i])@.exhausted() by {
            assert(!is_complete(states, count, i));
        }
        lemma_repeated_along_run(attempts, step, start, states, count, last);
    } else {
        lemma_exactly_along_run(attempts, step, start, states, count, last);
    }
}

/// Where the sub-combinator acts as a function of the state, so does
/// `AtMost`: the failure of the first attempt, or else the state in which
/// the function failed later or that `count` successes led to.
pub proof fn lemma_at_most_value<'a, S: Symbol + 'a>(
    start: MatchingPipeline<S>,
    count: nat,
    attempts: Attempts<'a, S>,
    step: Step<S>,
    outcome: PipelineResult<'a, S>,
)
    requires
        acts_as(attempts, step),
        at_most_allows(start, count, attempts, outcome),
    ensures
        outcome_view(outcome) == at_most_value(step, start@, count),
{
    let states = choose|states: Seq<MatchingPipeline<S>>| #[trigger]
        at_most_ends(start, count, attempts, outcome, states);
    let last = (states.len() - 1) as nat;
    if last >= 1 {
        assert(is_step(attempts, states, 0));
        lemma_at_most_along_run(attempts, step, start, states, count, last);
    }
}

} // verus!
