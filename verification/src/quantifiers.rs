//! Quantifiers: how often a sub-combinator is applied, and what becomes of
//! its failures.
//!
//! Every quantifier works in the same way. It keeps a snapshot of the
//! pipeline, applies the sub-combinator, and then decides: a success is
//! adopted, a failure is either handed on or dropped in favour of the
//! snapshot. The quantifiers without an upper bound also stop, without a
//! further attempt, where their count is met and nothing is left.

use crate::error::PipelineError;
use crate::pipeline::{MatchingPipeline, PipelineResult};
use crate::symbol::Symbol;
use vstd::prelude::*;

verus! {

/// A repetition policy.
pub trait Quantifier {}

/// The sub-combinator must succeed this many times in a row. The count is at
/// least one.
pub struct Exactly(pub usize);

/// The sub-combinator is tried once, and its failure does not count.
pub struct ZeroOrOne;

/// The sub-combinator is applied until it fails or nothing is left, and must
/// have succeeded at least this many times.
pub struct AtLeast(pub usize);

/// The sub-combinator is applied until it fails, and at most this many times.
/// The count is at least one.
pub struct AtMost(pub usize);

/// The sub-combinator is applied until it fails or nothing is left.
pub struct ZeroOrMore;

impl Quantifier for Exactly {}

impl Quantifier for ZeroOrOne {}

impl Quantifier for AtLeast {}

impl Quantifier for AtMost {}

impl Quantifier for ZeroOrMore {}

/// A sub-combinator as the quantifiers see it: which results it may give for
/// which pipeline.
pub type Attempts<'a, S> = spec_fn(MatchingPipeline<S>, PipelineResult<'a, S>) -> bool;

/// The results that `callback` may give, as a relation.
pub open spec fn attempts_of<'a, S: Symbol + 'a, F: Fn(MatchingPipeline<S>) -> PipelineResult<'a, S>>(
    callback: F,
) -> Attempts<'a, S> {
    |pipeline: MatchingPipeline<S>, attempt: PipelineResult<'a, S>|
        call_ensures(callback, (pipeline,), attempt)
}

/// Whenever the sub-combinator succeeds on a pipeline that has symbols left,
/// fewer are left than before; where it succeeds on an exhausted pipeline,
/// the pipeline stays exhausted.
pub open spec fn makes_progress<'a, S: Symbol + 'a>(attempts: Attempts<'a, S>) -> bool {
    forall|before: MatchingPipeline<S>, after: MatchingPipeline<S>| #[trigger]
        attempts(before, Ok(after)) ==> if before@.exhausted() {
            after@.exhausted()
        } else {
            after@.unmatched.len() < before@.unmatched.len()
        }
}

/// The sub-combinator made `states[i + 1]` of `states[i]`.
pub open spec fn is_step<'a, S: Symbol + 'a>(
    attempts: Attempts<'a, S>,
    states: Seq<MatchingPipeline<S>>,
    i: int,
) -> bool {
    attempts(states[i], Ok(states[i + 1]))
}

/// `states` is a run of successes of the sub-combinator: it begins with
/// `start`, and each further state is what the sub-combinator made of the
/// one before. A run of `n` successes has `n + 1` states.
pub open spec fn is_run<'a, S: Symbol + 'a>(
    attempts: Attempts<'a, S>,
    start: MatchingPipeline<S>,
    states: Seq<MatchingPipeline<S>>,
) -> bool {
    &&& states.len() >= 1
    &&& states[0] == start
    &&& forall|i: int| 0 <= i < states.len() - 1 ==> #[trigger] is_step(attempts, states, i)
}

/// The sub-combinator failed with `failure` in the last state of the run.
pub open spec fn run_fails<'a, S: Symbol + 'a>(
    attempts: Attempts<'a, S>,
    states: Seq<MatchingPipeline<S>>,
    failure: PipelineResult<'a, S>,
) -> bool {
    failure is Err && attempts(states.last(), failure)
}

/// `outcome` is the pipeline in the state in which the run ended.
pub open spec fn keeps_last<'a, S: Symbol + 'a>(
    states: Seq<MatchingPipeline<S>>,
    outcome: PipelineResult<'a, S>,
) -> bool {
    outcome is Ok && outcome->Ok_0@ == states.last()@
}

/// `Exactly(count)` hands back `outcome` after the run `states`: the run has
/// `count` successes and `outcome` is its last state, or it has fewer and
/// `outcome` is the failure that ended it, as the sub-combinator returned it.
pub open spec fn exactly_ends<'a, S: Symbol + 'a>(
    start: MatchingPipeline<S>,
    count: nat,
    attempts: Attempts<'a, S>,
    outcome: PipelineResult<'a, S>,
    states: Seq<MatchingPipeline<S>>,
) -> bool {
    &&& is_run(attempts, start, states)
    &&& states.len() <= count + 1
    &&& if states.len() == count + 1 {
        outcome == Ok::<_, PipelineError<'a, S>>(states.last())
    } else {
        run_fails(attempts, states, outcome)
    }
}

/// What `Exactly(count)` may hand back.
pub open spec fn exactly_allows<'a, S: Symbol + 'a>(
    start: MatchingPipeline<S>,
    count: nat,
    attempts: Attempts<'a, S>,
    outcome: PipelineResult<'a, S>,
) -> bool {
    exists|states: Seq<MatchingPipeline<S>>| #[trigger]
        exactly_ends(start, count, attempts, outcome, states)
}

/// What `ZeroOrOne` may hand back: what the sub-combinator made of the
/// pipeline, or, where it failed, the pipeline in the state it had.
pub open spec fn zero_or_one_allows<'a, S: Symbol + 'a>(
    start: MatchingPipeline<S>,
    attempts: Attempts<'a, S>,
    outcome: PipelineResult<'a, S>,
) -> bool {
    exists|attempt: PipelineResult<'a, S>|
        {
            &&& #[trigger] attempts(start, attempt)
            &&& if attempt is Ok {
                outcome == attempt
            } else {
                outcome is Ok && outcome->Ok_0@ == start@
            }
        }
}

/// After `i` successes of a run under `AtLeast(count)` nothing is left to
/// do: the count is met and the pipeline is exhausted.
pub open spec fn is_complete<S: Symbol>(
    states: Seq<MatchingPipeline<S>>,
    count: nat,
    i: int,
) -> bool {
    i >= count && states[i]@.exhausted()
}

/// `AtLeast(count)` hands back `outcome` after the run `states`. The run
/// goes on for as long as the count is not met or symbols are left. Where it
/// ends with the count met and nothing left, `outcome` is its last state,
/// and no further attempt is made. Otherwise `failure` ended it, and
/// `outcome` is the state in which the sub-combinator failed if the run has
/// `count` successes or more, and `failure` if it has fewer.
pub open spec fn at_least_ends<'a, S: Symbol + 'a>(
    start: MatchingPipeline<S>,
    count: nat,
    attempts: Attempts<'a, S>,
    outcome: PipelineResult<'a, S>,
    states: Seq<MatchingPipeline<S>>,
    failure: PipelineResult<'a, S>,
) -> bool {
    &&& is_run(attempts, start, states)
    &&& forall|i: int| 0 <= i < states.len() - 1 ==> !#[trigger] is_complete(states, count, i)
    &&& if is_complete(states, count, states.len() - 1) {
        outcome == Ok::<_, PipelineError<'a, S>>(states.last())
    } else {
        &&& run_fails(attempts, states, failure)
        &&& if states.len() - 1 >= count {
            keeps_last(states, outcome)
        } else {
            outcome == failure
        }
    }
}

/// What `AtLeast(count)` may hand back.
pub open spec fn at_least_allows<'a, S: Symbol + 'a>(
    start: MatchingPipeline<S>,
    count: nat,
    attempts: Attempts<'a, S>,
    outcome: PipelineResult<'a, S>,
) -> bool {
    exists|states: Seq<MatchingPipeline<S>>, failure: PipelineResult<'a, S>| #[trigger]
        at_least_ends(start, count, attempts, outcome, states, failure)
}

/// `AtMost(count)` hands back `outcome` after the run `states`: the run has
/// `count` successes and `outcome` is its last state; or it has fewer, a
/// failure ended it, and `outcome` is the state in which the sub-combinator
/// failed if it had succeeded before, and that failure if it had not.
pub open spec fn at_most_ends<'a, S: Symbol + 'a>(
    start: MatchingPipeline<S>,
    count: nat,
    attempts: Attempts<'a, S>,
    outcome: PipelineResult<'a, S>,
    states: Seq<MatchingPipeline<S>>,
) -> bool {
    &&& is_run(attempts, start, states)
    &&& states.len() <= count + 1
    &&& if states.len() == count + 1 {
        outcome == Ok::<_, PipelineError<'a, S>>(states.last())
    } else {
        exists|failure: PipelineResult<'a, S>|
            {
                &&& #[trigger] run_fails(attempts, states, failure)
                &&& if states.len() == 1 {
                    outcome == failure
                } else {
                    keeps_last(states, outcome)
                }
            }
    }
}

/// What `AtMost(count)` may hand back.
pub open spec fn at_most_allows<'a, S: Symbol + 'a>(
    start: MatchingPipeline<S>,
    count: nat,
    attempts: Attempts<'a, S>,
    outcome: PipelineResult<'a, S>,
) -> bool {
    exists|states: Seq<MatchingPipeline<S>>| #[trigger]
        at_most_ends(start, count, attempts, outcome, states)
}

/// A run with one success more is a run.
pub proof fn lemma_run_grows<'a, S: Symbol + 'a>(
    attempts: Attempts<'a, S>,
    start: MatchingPipeline<S>,
    states: Seq<MatchingPipeline<S>>,
    next: MatchingPipeline<S>,
)
    requires
        is_run(attempts, start, states),
        attempts(states.last(), Ok(next)),
    ensures
        is_run(attempts, start, states.push(next)),
{
    let longer = states.push(next);
    assert forall|i: int| 0 <= i < longer.len() - 1 implies #[trigger] is_step(
        attempts,
        longer,
        i,
    ) by {
        if i < states.len() - 1 {
            assert(is_step(attempts, states, i));
        }
    }
}

/// Applying a sub-combinator under a quantifier.
pub trait WithQuantifier<'a, Q: Quantifier, S: Symbol + 'a>: Sized {
    /// What the quantifier asks of its count and of the sub-combinator.
    spec fn admits(
        self,
        quantifier: Q,
        attempts: spec_fn(Self, PipelineResult<'a, S>) -> bool,
    ) -> bool;

    /// The outcomes that the quantifier's policy allows.
    spec fn allows(
        self,
        quantifier: Q,
        attempts: spec_fn(Self, PipelineResult<'a, S>) -> bool,
        outcome: PipelineResult<'a, S>,
    ) -> bool;

    /// Applies `callback` as often as `quantifier` says and decides by its
    /// policy what becomes of a failure. The callback must be applicable to
    /// every pipeline.
    fn with_quantifier<F>(self, quantifier: Q, callback: F) -> (outcome: PipelineResult<'a, S>) where
        F: Fn(Self) -> PipelineResult<'a, S>,

        requires
            forall|pipeline: Self| #[trigger] call_requires(callback, (pipeline,)),
            self.admits(
                quantifier,
                |pipeline: Self, attempt: PipelineResult<'a, S>|
                    call_ensures(callback, (pipeline,), attempt),
            ),
        ensures
            self.allows(
                quantifier,
                |pipeline: Self, attempt: PipelineResult<'a, S>|
                    call_ensures(callback, (pipeline,), attempt),
                outcome,
            ),
    ;
}

impl<'a, S: Symbol + 'a> WithQuantifier<'a, Exactly, S> for MatchingPipeline<S> {
    /// The count is at least one.
    open spec fn admits(self, quantifier: Exactly, attempts: Attempts<'a, S>) -> bool {
        quantifier.0 >= 1
    }

    open spec fn allows(
        self,
        quantifier: Exactly,
        attempts: Attempts<'a, S>,
        outcome: PipelineResult<'a, S>,
    ) -> bool {
        exactly_allows(self, quantifier.0 as nat, attempts, outcome)
    }

    fn with_quantifier<F>(self, quantifier: Exactly, callback: F) -> (outcome: PipelineResult<
        'a,
        S,
    >) where F: Fn(Self) -> PipelineResult<'a, S> {
        let ghost attempts = attempts_of(callback);
        let ghost mut states = seq![self];
        let mut current = self;
        let mut successes: usize = 0;
        while successes < quantifier.0
            invariant
                forall|pipeline: Self| #[trigger] call_requires(callback, (pipeline,)),
                attempts == attempts_of(callback),
                is_run(attempts, self, states),
                states.last() == current,
                states.len() == successes + 1,
                successes <= quantifier.0,
            decreases quantifier.0 - successes,
        {
            let attempt = callback(current);
            match attempt {
                Ok(next) => {
                    proof {
                        lemma_run_grows(attempts, self, states, next);
                        states = states.push(next);
                    }
                    current = next;
                    successes += 1;
                },
                Err(error) => {
                    assert(exactly_ends(self, quantifier.0 as nat, attempts, attempt, states));
                    return Err(error);
                },
            }
        }
        assert(exactly_ends(self, quantifier.0 as nat, attempts, Ok(current), states));
        Ok(current)
    }
}

impl<'a, S: Symbol + 'a> WithQuantifier<'a, ZeroOrOne, S> for MatchingPipeline<S> {
    /// Nothing is asked.
    open spec fn admits(self, quantifier: ZeroOrOne, attempts: Attempts<'a, S>) -> bool {
        true
    }

    open spec fn allows(
        self,
        quantifier: ZeroOrOne,
        attempts: Attempts<'a, S>,
        outcome: PipelineResult<'a, S>,
    ) -> bool {
        zero_or_one_allows(self, attempts, outcome)
    }

    fn with_quantifier<F>(self, quantifier: ZeroOrOne, callback: F) -> (outcome: PipelineResult<
        'a,
        S,
    >) where F: Fn(Self) -> PipelineResult<'a, S> {
        let ghost attempts = attempts_of(callback);
        let snapshot = self.clone();
        let attempt = callback(self);
        assert(attempts(self, attempt));
        match attempt {
            Ok(next) => Ok(next),
            Err(_) => Ok(snapshot),
        }
    }
}

impl<'a, S: Symbol + 'a> WithQuantifier<'a, AtLeast, S> for MatchingPipeline<S> {
    /// The sub-combinator leaves fewer symbols whenever it succeeds on a
    /// pipeline that has some left, and leaves an exhausted pipeline
    /// exhausted: without that, the repetition would not come to an end.
    open spec fn admits(self, quantifier: AtLeast, attempts: Attempts<'a, S>) -> bool {
        makes_progress(attempts)
    }

    open spec fn allows(
        self,
        quantifier: AtLeast,
        attempts: Attempts<'a, S>,
        outcome: PipelineResult<'a, S>,
    ) -> bool {
        at_least_allows(self, quantifier.0 as nat, attempts, outcome)
    }

    fn with_quantifier<F>(self, quantifier: AtLeast, callback: F) -> (outcome: PipelineResult<
        'a,
        S,
    >) where F: Fn(Self) -> PipelineResult<'a, S> {
        let ghost attempts = attempts_of(callback);
        let ghost mut states = seq![self];
        let mut current = self;
        let mut missing: usize = quantifier.0;
        loop
            invariant
                forall|pipeline: Self| #[trigger] call_requires(callback, (pipeline,)),
                attempts == attempts_of(callback),
                makes_progress(attempts),
                is_run(attempts, self, states),
                states.last() == current,
                missing == if states.len() - 1 >= quantifier.0 {
                    0
                } else {
                    quantifier.0 - (states.len() - 1)
                },
                forall|i: int|
                    0 <= i < states.len() - 1 ==> !#[trigger] is_complete(
                        states,
                        quantifier.0 as nat,
                        i,
                    ),
            decreases current@.unmatched.len(), missing,
        {
            if missing == 0 && current.reached_eos() {
                assert(at_least_ends(
                    self,
                    quantifier.0 as nat,
                    attempts,
                    Ok(current),
                    states,
                    Ok(current),
                ));
                return Ok(current);
            }
            let snapshot = current.clone();
            let attempt = callback(current);
            assert(attempts(current, attempt));
            match attempt {
                Ok(next) => {
                    proof {
                        lemma_run_grows(attempts, self, states, next);
                        let longer = states.push(next);
                        assert forall|i: int| 0 <= i < longer.len() - 1 implies !#[trigger] is_complete(
                            longer,
                            quantifier.0 as nat,
                            i,
                        ) by {
                            if i < states.len() - 1 {
                                assert(!is_complete(states, quantifier.0 as nat, i));
                            }
                        }
                        states = longer;
                    }
                    current = next;
                    if missing > 0 {
                        missing -= 1;
                    }
                },
                Err(error) => {
                    let outcome = if missing == 0 {
                        Ok(snapshot)
                    } else {
                        Err(error)
                    };
                    assert(at_least_ends(
                        self,
                        quantifier.0 as nat,
                        attempts,
                        outcome,
                        states,
                        attempt,
                    ));
                    return outcome;
                },
            }
        }
    }
}

impl<'a, S: Symbol + 'a> WithQuantifier<'a, AtMost, S> for MatchingPipeline<S> {
    /// The count is at least one.
    open spec fn admits(self, quantifier: AtMost, attempts: Attempts<'a, S>) -> bool {
        quantifier.0 >= 1
    }

    open spec fn allows(
        self,
        quantifier: AtMost,
        attempts: Attempts<'a, S>,
        outcome: PipelineResult<'a, S>,
    ) -> bool {
        at_most_allows(self, quantifier.0 as nat, attempts, outcome)
    }

    fn with_quantifier<F>(self, quantifier: AtMost, callback: F) -> (outcome: PipelineResult<
        'a,
        S,
    >) where F: Fn(Self) -> PipelineResult<'a, S> {
        let ghost attempts = attempts_of(callback);
        let ghost mut states = seq![self];
        let mut current = self;
        let mut successes: usize = 0;
        while successes < quantifier.0
            invariant
                forall|pipeline: Self| #[trigger] call_requires(callback, (pipeline,)),
                attempts == attempts_of(callback),
                is_run(attempts, self, states),
                states.last() == current,
                states.len() == successes + 1,
                successes <= quantifier.0,
            decreases quantifier.0 - successes,
        {
            let snapshot = current.clone();
            let attempt = callback(current);
            match attempt {
                Ok(next) => {
                    proof {
                        lemma_run_grows(attempts, self, states, next);
                        states = states.push(next);
                    }
                    current = next;
                    successes += 1;
                },
                Err(error) => {
                    let outcome = if successes == 0 {
                        Err(error)
                    } else {
                        Ok(snapshot)
                    };
                    assert(run_fails(attempts, states, attempt));
                    assert(at_most_ends(self, quantifier.0 as nat, attempts, outcome, states));
                    return outcome;
                },
            }
        }
        assert(at_most_ends(self, quantifier.0 as nat, attempts, Ok(current), states));
        Ok(current)
    }
}

impl<'a, S: Symbol + 'a> WithQuantifier<'a, ZeroOrMore, S> for MatchingPipeline<S> {
    /// The sub-combinator leaves fewer symbols whenever it succeeds on a
    /// pipeline that has some left, and leaves an exhausted pipeline
    /// exhausted: without that, the repetition would not come to an end.
    open spec fn admits(self, quantifier: ZeroOrMore, attempts: Attempts<'a, S>) -> bool {
        makes_progress(attempts)
    }

    open spec fn allows(
        self,
        quantifier: ZeroOrMore,
        attempts: Attempts<'a, S>,
        outcome: PipelineResult<'a, S>,
    ) -> bool {
        at_least_allows(self, 0, attempts, outcome)
    }

    fn with_quantifier<F>(self, quantifier: ZeroOrMore, callback: F) -> (outcome: PipelineResult<
        'a,
        S,
    >) where F: Fn(Self) -> PipelineResult<'a, S> {
        self.with_quantifier(AtLeast(0), callback)
    }
}

} // verus!
