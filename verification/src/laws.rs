//! Laws that relate several operations of the library, proved from what the
//! contracts of these operations state.

use crate::digesters::{Digester, StringDigester};
use crate::error::{ErrorView, PipelineError};
use crate::matchable::Matchable;
use crate::pipeline::{MatchingPipeline, PipelineResult};
use crate::quantifiers::{
    at_least_allows, at_least_ends, at_most_allows, at_most_ends, exactly_allows, exactly_ends,
    is_run, is_step, zero_or_one_allows, Attempts,
};
use crate::state::{
    lemma_advance_to_end, lemma_advance_twice, lemma_advance_zero, lemma_reaches_chains,
    lemma_reaches_itself, PipelineState,
};
use crate::symbol::{Symbol, SymbolGroup};
use vstd::prelude::*;

verus! {

/// Every combinator but `skip` does nothing but consume symbols: the state
/// of the pipeline that it hands back is reached from the state of the
/// pipeline that it was applied to. So these combinators, in whatever order
/// they are applied to a fresh pipeline, keep `matched` followed by
/// `unmatched` equal to the input (see `lemma_partition`).
pub proof fn lemma_combinators_only_consume<'a, S: Symbol + 'a>(
    start: MatchingPipeline<S>,
    next: MatchingPipeline<S>,
    symbol: &'a S,
    symbols: &'a [S],
    group: &'a SymbolGroup<S>,
    match_delim: bool,
)
    requires
        ({
            ||| call_ensures(MatchingPipeline::<S>::consume, (start,), next)
            ||| call_ensures(MatchingPipeline::<S>::match_until_eos, (start,), next)
            ||| call_ensures(MatchingPipeline::<S>::match_until, (start, symbols, match_delim), next)
            ||| call_ensures(MatchingPipeline::<S>::expect_symbol, (start, symbol), Ok(next))
            ||| call_ensures(MatchingPipeline::<S>::expect_pattern, (start, symbols), Ok(next))
            ||| call_ensures(MatchingPipeline::<S>::expect_any_of, (start, symbols), Ok(next))
            ||| call_ensures(MatchingPipeline::<S>::expect_group, (start, group), Ok(next))
        }),
    ensures
        start@.reaches(next@),
{
    lemma_advance_zero(start@);
}

/// The same for the combinators that take a predicate.
pub proof fn lemma_predicates_only_consume<'a, S: Symbol + 'a, F: Fn(&S) -> bool>(
    start: MatchingPipeline<S>,
    next: MatchingPipeline<S>,
    predicate: F,
)
    requires
        ({
            ||| call_ensures(MatchingPipeline::<S>::match_while_true::<F>, (start, predicate), next)
            ||| call_ensures(
                MatchingPipeline::<S>::expect_predicate::<F>,
                (start, predicate),
                Ok::<_, PipelineError<'a, S>>(next),
            )
        }),
    ensures
        start@.reaches(next@),
{
}

/// Whenever the sub-combinator succeeds, it has done nothing but consume
/// symbols.
pub open spec fn only_consumes<'a, S: Symbol + 'a>(attempts: Attempts<'a, S>) -> bool {
    forall|before: MatchingPipeline<S>, after: MatchingPipeline<S>| #[trigger]
        attempts(before, Ok(after)) ==> before@.reaches(after@)
}

/// The sub-combinator takes one symbol whenever the current symbol is
/// eligible.
pub open spec fn takes_eligible<'a, S: Symbol + 'a>(
    attempts: Attempts<'a, S>,
    eligible: spec_fn(S) -> bool,
) -> bool {
    forall|before: MatchingPipeline<S>, attempt: PipelineResult<'a, S>| #[trigger]
        attempts(before, attempt) && !before@.exhausted() && eligible(before@.head()) ==> attempt is Ok
            && attempt->Ok_0@ == before@.advance(1)
}

/// The sub-combinator cannot succeed on `pipeline`.
pub open spec fn cannot_succeed<'a, S: Symbol + 'a>(
    attempts: Attempts<'a, S>,
    pipeline: MatchingPipeline<S>,
) -> bool {
    forall|next: MatchingPipeline<S>| !attempts(pipeline, Ok(next))
}

/// `Exactly(1)` is the sub-combinator applied once: it allows the results
/// that the sub-combinator may give for the pipeline, and no others.
pub proof fn lemma_exactly_once<'a, S: Symbol + 'a>(
    start: MatchingPipeline<S>,
    attempts: Attempts<'a, S>,
    outcome: PipelineResult<'a, S>,
)
    ensures
        exactly_allows(start, 1, attempts, outcome) <==> attempts(start, outcome),
{
    if exactly_allows(start, 1, attempts, outcome) {
        let states = choose|states: Seq<MatchingPipeline<S>>| #[trigger]
            exactly_ends(start, 1, attempts, outcome, states);
        if states.len() == 2 {
            assert(is_step(attempts, states, 0));
        }
    }
    if attempts(start, outcome) {
        let states = match outcome {
            Ok(next) => seq![start, next],
            Err(_) => seq![start],
        };
        assert forall|i: int| 0 <= i < states.len() - 1 implies #[trigger] is_step(
            attempts,
            states,
            i,
        ) by {}
        assert(exactly_ends(start, 1, attempts, outcome, states));
    }
}

/// Where `Exactly` fails, it fails with what the sub-combinator returned,
/// unchanged, in a state that fewer successes than asked for had led to. This
/// holds already where the first attempt fails.
pub proof fn lemma_exactly_fails_verbatim<'a, S: Symbol + 'a>(
    start: MatchingPipeline<S>,
    count: nat,
    attempts: Attempts<'a, S>,
    outcome: PipelineResult<'a, S>,
)
    requires
        exactly_allows(start, count, attempts, outcome),
        outcome is Err,
    ensures
        exists|states: Seq<MatchingPipeline<S>>|
            {
                &&& #[trigger] is_run(attempts, start, states)
                &&& states.len() <= count
                &&& attempts(states.last(), outcome)
            },
{
    let states = choose|states: Seq<MatchingPipeline<S>>| #[trigger]
        exactly_ends(start, count, attempts, outcome, states);
}

/// The sub-combinator fails on an exhausted pipeline, and says that the
/// input ran out.
pub open spec fn fails_at_end<'a, S: Symbol + 'a>(attempts: Attempts<'a, S>) -> bool {
    forall|pipeline: MatchingPipeline<S>, attempt: PipelineResult<'a, S>| #[trigger]
        attempts(pipeline, attempt) && pipeline@.exhausted() ==> attempt is Err && attempt->Err_0@
            == ErrorView::<S>::UnexpectedEos
}

/// Where the input runs out before `Exactly` has its count of successes, and
/// the sub-combinator is one that fails on an exhausted pipeline by saying
/// so, `Exactly` fails with that error.
pub proof fn lemma_exactly_runs_out<'a, S: Symbol + 'a>(
    start: MatchingPipeline<S>,
    count: nat,
    attempts: Attempts<'a, S>,
    outcome: PipelineResult<'a, S>,
    states: Seq<MatchingPipeline<S>>,
)
    requires
        exactly_ends(start, count, attempts, outcome, states),
        fails_at_end(attempts),
        states.len() <= count,
        states.last()@.exhausted(),
    ensures
        outcome is Err,
        outcome->Err_0@ == ErrorView::<S>::UnexpectedEos,
{
}

/// `ZeroOrOne` never fails, and where the sub-combinator cannot succeed on
/// the pipeline, the pipeline comes back in the state it had.
pub proof fn lemma_zero_or_one_keeps_state<'a, S: Symbol + 'a>(
    start: MatchingPipeline<S>,
    attempts: Attempts<'a, S>,
    outcome: PipelineResult<'a, S>,
)
    requires
        zero_or_one_allows(start, attempts, outcome),
    ensures
        outcome is Ok,
        cannot_succeed(attempts, start) ==> outcome->Ok_0@ == start@,
{
}

/// `ZeroOrMore` never fails, and where the sub-combinator cannot succeed on
/// the pipeline, it consumes nothing: the pipeline comes back in the state it
/// had.
pub proof fn lemma_zero_or_more_never_fails<'a, S: Symbol + 'a>(
    start: MatchingPipeline<S>,
    attempts: Attempts<'a, S>,
    outcome: PipelineResult<'a, S>,
)
    requires
        at_least_allows(start, 0, attempts, outcome),
    ensures
        outcome is Ok,
        cannot_succeed(attempts, start) ==> outcome->Ok_0@ == start@,
{
    let (states, failure) = choose|
        states: Seq<MatchingPipeline<S>>,
        failure: PipelineResult<'a, S>,
    | #[trigger] at_least_ends(start, 0, attempts, outcome, states, failure);
    if cannot_succeed(attempts, start) && states.len() > 1 {
        assert(is_step(attempts, states, 0));
    }
}

/// The sub-combinator never fails.
pub open spec fn never_fails<'a, S: Symbol + 'a>(attempts: Attempts<'a, S>) -> bool {
    forall|pipeline: MatchingPipeline<S>, attempt: PipelineResult<'a, S>| #[trigger]
        attempts(pipeline, attempt) ==> attempt is Ok
}

/// `AtLeast` and `ZeroOrMore` stop where nothing is left. Over a
/// sub-combinator that never fails and only consumes symbols they succeed
/// with every symbol matched: the pipeline that comes back is exhausted, and
/// its `matched` is what `matched` followed by `unmatched` was.
pub proof fn lemma_at_least_runs_to_the_end<'a, S: Symbol + 'a>(
    start: MatchingPipeline<S>,
    count: nat,
    attempts: Attempts<'a, S>,
    outcome: PipelineResult<'a, S>,
)
    requires
        at_least_allows(start, count, attempts, outcome),
        never_fails(attempts),
        only_consumes(attempts),
    ensures
        outcome is Ok,
        outcome->Ok_0@ == start@.advance(start@.unmatched.len()),
        outcome->Ok_0@.exhausted(),
        outcome->Ok_0@.matched == start@.source(),
{
    let (states, failure) = choose|
        states: Seq<MatchingPipeline<S>>,
        failure: PipelineResult<'a, S>,
    | #[trigger] at_least_ends(start, count, attempts, outcome, states, failure);
    lemma_run_reaches(start, attempts, states);
    lemma_advance_to_end(start@);
}

/// An expectation that fails has consumed nothing. Where `expect_symbol`,
/// `expect_pattern`, `expect_any_of` or `expect_group` fails on the state of
/// a pipeline, it cannot succeed on the pipeline; tried under `ZeroOrOne`,
/// it gives the pipeline back in the state it had, with `matched` and
/// `unmatched` as they were.
pub proof fn lemma_failed_expectation_consumes_nothing<'a, S: Symbol + 'a>(
    start: MatchingPipeline<S>,
    symbol: &'a S,
    symbols: &'a [S],
    group: &'a SymbolGroup<S>,
    outcome: PipelineResult<'a, S>,
)
    ensures
        start@.expect_symbol(*symbol) is Err && zero_or_one_allows(
            start,
            |pipeline: MatchingPipeline<S>, attempt: PipelineResult<'a, S>|
                call_ensures(MatchingPipeline::<S>::expect_symbol, (pipeline, symbol), attempt),
            outcome,
        ) ==> outcome is Ok && outcome->Ok_0@ == start@,
        start@.expect_pattern(symbols@) is Err && zero_or_one_allows(
            start,
            |pipeline: MatchingPipeline<S>, attempt: PipelineResult<'a, S>|
                call_ensures(MatchingPipeline::<S>::expect_pattern, (pipeline, symbols), attempt),
            outcome,
        ) ==> outcome is Ok && outcome->Ok_0@ == start@,
        start@.expect_any_of(symbols@) is Err && zero_or_one_allows(
            start,
            |pipeline: MatchingPipeline<S>, attempt: PipelineResult<'a, S>|
                call_ensures(MatchingPipeline::<S>::expect_any_of, (pipeline, symbols), attempt),
            outcome,
        ) ==> outcome is Ok && outcome->Ok_0@ == start@,
        start@.expect_group(group@) is Err && zero_or_one_allows(
            start,
            |pipeline: MatchingPipeline<S>, attempt: PipelineResult<'a, S>|
                call_ensures(MatchingPipeline::<S>::expect_group, (pipeline, group), attempt),
            outcome,
        ) ==> outcome is Ok && outcome->Ok_0@ == start@,
{
}

/// The same for a predicate: where the pipeline is exhausted or the
/// predicate does not accept its current symbol, `expect_predicate` cannot
/// succeed; tried under `ZeroOrOne`, it gives the pipeline back in the state
/// it had.
pub proof fn lemma_failed_predicate_consumes_nothing<'a, S: Symbol + 'a, F: Fn(&S) -> bool>(
    start: MatchingPipeline<S>,
    predicate: F,
    outcome: PipelineResult<'a, S>,
)
    requires
        start@.exhausted() || !call_ensures(predicate, (&start@.head(),), true),
        zero_or_one_allows(
            start,
            |pipeline: MatchingPipeline<S>, attempt: PipelineResult<'a, S>|
                call_ensures(
                    MatchingPipeline::<S>::expect_predicate::<F>,
                    (pipeline, predicate),
                    attempt,
                ),
            outcome,
        ),
    ensures
        outcome is Ok,
        outcome->Ok_0@ == start@,
{
}

/// Along a run of a sub-combinator that takes one eligible symbol at a time,
/// the state after `i` successes is the start advanced by `i`.
proof fn lemma_run_of_single_steps<'a, S: Symbol + 'a>(
    start: MatchingPipeline<S>,
    attempts: Attempts<'a, S>,
    eligible: spec_fn(S) -> bool,
    states: Seq<MatchingPipeline<S>>,
    count: nat,
    i: nat,
)
    requires
        takes_eligible(attempts, eligible),
        is_run(attempts, start, states),
        count <= start@.unmatched.len(),
        forall|j: int| 0 <= j < count ==> eligible(#[trigger] start@.unmatched[j]),
        i < states.len(),
        i <= count,
    ensures
        states[i as int]@ == start@.advance(i),
    decreases i,
{
    if i == 0 {
        lemma_advance_zero(start@);
    } else {
        let before = (i - 1) as nat;
        lemma_run_of_single_steps(start, attempts, eligible, states, count, before);
        assert(is_step(attempts, states, before as int));
        lemma_advance_twice(start@, before, 1);
    }
}

/// `AtMost(count)`, applied where the next `count` symbols are eligible for
/// a sub-combinator that takes one eligible symbol at a time, consumes these
/// `count` symbols and leaves the rest as it was, whatever follows them.
pub proof fn lemma_at_most_takes_count<'a, S: Symbol + 'a>(
    start: MatchingPipeline<S>,
    count: nat,
    attempts: Attempts<'a, S>,
    eligible: spec_fn(S) -> bool,
    outcome: PipelineResult<'a, S>,
)
    requires
        at_most_allows(start, count, attempts, outcome),
        takes_eligible(attempts, eligible),
        count <= start@.unmatched.len(),
        forall|j: int| 0 <= j < count ==> eligible(#[trigger] start@.unmatched[j]),
    ensures
        outcome is Ok,
        outcome->Ok_0@ == start@.advance(count),
        outcome->Ok_0@.unmatched == start@.unmatched.skip(count as int),
{
    let states = choose|states: Seq<MatchingPipeline<S>>| #[trigger]
        at_most_ends(start, count, attempts, outcome, states);
    let last = (states.len() - 1) as nat;
    lemma_run_of_single_steps(start, attempts, eligible, states, count, last);
}

/// A run of a sub-combinator that only consumes symbols ends in a state that
/// its start reaches.
pub proof fn lemma_run_reaches<'a, S: Symbol + 'a>(
    start: MatchingPipeline<S>,
    attempts: Attempts<'a, S>,
    states: Seq<MatchingPipeline<S>>,
)
    requires
        only_consumes(attempts),
        is_run(attempts, start, states),
    ensures
        start@.reaches(states.last()@),
    decreases states.len(),
{
    if states.len() == 1 {
        lemma_reaches_itself(start@);
    } else {
        let shorter = states.drop_last();
        assert forall|i: int| 0 <= i < shorter.len() - 1 implies #[trigger] is_step(
            attempts,
            shorter,
            i,
        ) by {
            assert(is_step(attempts, states, i));
        }
        lemma_run_reaches(start, attempts, shorter);
        assert(is_step(attempts, states, states.len() - 2));
        lemma_reaches_chains(start@, shorter.last()@, states.last()@);
    }
}

/// Under every quantifier, a sub-combinator that only consumes symbols
/// yields a pipeline that the start reaches: what was matched stays matched,
/// in its order, and `matched` followed by `unmatched` is what it was.
pub proof fn lemma_quantifiers_only_consume<'a, S: Symbol + 'a>(
    start: MatchingPipeline<S>,
    count: nat,
    attempts: Attempts<'a, S>,
    outcome: PipelineResult<'a, S>,
)
    requires
        only_consumes(attempts),
        outcome is Ok,
        exactly_allows(start, count, attempts, outcome) || zero_or_one_allows(
            start,
            attempts,
            outcome,
        ) || at_least_allows(start, count, attempts, outcome) || at_most_allows(
            start,
            count,
            attempts,
            outcome,
        ),
    ensures
        start@.reaches(outcome->Ok_0@),
{
    if exactly_allows(start, count, attempts, outcome) {
        let states = choose|states: Seq<MatchingPipeline<S>>| #[trigger]
            exactly_ends(start, count, attempts, outcome, states);
        lemma_run_reaches(start, attempts, states);
    } else if zero_or_one_allows(start, attempts, outcome) {
        lemma_reaches_itself(start@);
    } else if at_least_allows(start, count, attempts, outcome) {
        let (states, failure) = choose|
            states: Seq<MatchingPipeline<S>>,
            failure: PipelineResult<'a, S>,
        | #[trigger] at_least_ends(start, count, attempts, outcome, states, failure);
        lemma_run_reaches(start, attempts, states);
    } else {
        let states = choose|states: Seq<MatchingPipeline<S>>| #[trigger]
            at_most_ends(start, count, attempts, outcome, states);
        lemma_run_reaches(start, attempts, states);
    }
}

/// The round trip of digestion: the string that `StringDigester` makes of a
/// matched run stands for the symbols of that run, so that a pipeline begun
/// from it and matched to its end has matched the same symbols again.
pub proof fn lemma_digestion_round_trip(matched: Seq<char>, text: String)
    requires
        <StringDigester as Digester<char>>::digests(matched, text),
    ensures
        <String as Matchable<char>>::symbols(text) == matched,
        PipelineState::fresh(<String as Matchable<char>>::symbols(text)).advance(
            matched.len(),
        ).matched == matched,
{
    let again = PipelineState::fresh(matched);
    lemma_advance_to_end(again);
}

} // verus!
