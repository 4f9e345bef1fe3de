//! What a pipeline can be begun from.

use crate::error::PipelineError;
use crate::pipeline::{MatchingPipeline, TerminatedPipeline};
use crate::state::PipelineState;
use crate::symbol::Symbol;
use vstd::prelude::*;
use vstd::std_specs::convert::FromSpecImpl;

verus! {

/// A value that a pipeline can be begun from: it stands for a sequence of
/// symbols and converts into the fresh pipeline over them.
pub trait Matchable<S: Symbol>: Into<MatchingPipeline<S>> {
    /// The symbols that the value stands for.
    spec fn symbols(self) -> Seq<S>;

    /// The conversion yields the fresh pipeline over these symbols.
    proof fn lemma_conversion(self, pipeline: MatchingPipeline<S>)
        requires
            call_ensures(<Self as Into<MatchingPipeline<S>>>::into, (self,), pipeline),
        ensures
            pipeline@ == PipelineState::fresh(self.symbols()),
    ;
}

impl<'s> From<&'s str> for MatchingPipeline<char> {
    /// The pipeline over the characters of `value`.
    fn from(value: &'s str) -> (pipeline: Self)
        ensures
            pipeline@ == PipelineState::fresh(value@),
    {
        let mut symbols: Vec<char> = Vec::new();
        for symbol in it: value.chars()
            invariant
                it.seq() == value@,
                symbols@ == value@.take(it.index()),
        {
            symbols.push(symbol);
        }
        assert(symbols@ =~= value@);
        MatchingPipeline::new(symbols)
    }
}

/// Two pipelines in the same state need not be the same value, so the
/// conversion is no function of the text. What it yields is stated on `from`.
impl<'s> FromSpecImpl<&'s str> for MatchingPipeline<char> {
    open spec fn obeys_from_spec() -> bool {
        false
    }

    open spec fn from_spec(value: &'s str) -> Self {
        arbitrary()
    }
}

impl From<String> for MatchingPipeline<char> {
    /// The pipeline over the characters of `value`.
    fn from(value: String) -> (pipeline: Self)
        ensures
            pipeline@ == PipelineState::fresh(value@),
    {
        MatchingPipeline::from(value.as_str())
    }
}

/// As for `&str`: what the conversion yields is stated on `from`.
impl FromSpecImpl<String> for MatchingPipeline<char> {
    open spec fn obeys_from_spec() -> bool {
        false
    }

    open spec fn from_spec(value: String) -> Self {
        arbitrary()
    }
}

impl Matchable<char> for String {
    open spec fn symbols(self) -> Seq<char> {
        self@
    }

    proof fn lemma_conversion(self, pipeline: MatchingPipeline<char>) {
    }
}

impl<'s> Matchable<char> for &'s str {
    open spec fn symbols(self) -> Seq<char> {
        self@
    }

    proof fn lemma_conversion(self, pipeline: MatchingPipeline<char>) {
    }
}

/// Begins a pipeline over the symbols of `candidate`.
pub fn begin_match<S: Symbol>(candidate: impl Matchable<S>) -> (pipeline: MatchingPipeline<S>)
    ensures
        pipeline@ == PipelineState::fresh(candidate.symbols()),
{
    let pipeline = candidate.into();
    proof {
        candidate.lemma_conversion(pipeline);
    }
    pipeline
}

/// `pipeline` is a fresh pipeline over the symbols of a clone of `value`.
pub open spec fn begun_from<S: Symbol, T: Matchable<S> + Clone>(
    value: T,
    pipeline: MatchingPipeline<S>,
) -> bool {
    exists|copy: T| #[trigger] cloned(value, copy) && pipeline@ == PipelineState::fresh(copy.symbols())
}

/// Matching a value against a pattern that is given as a function, and
/// keeping only whether it matched.
pub trait MatchAgainst<'a, S: Symbol + 'a, F>: Clone where
    F: Fn(MatchingPipeline<S>) -> Result<TerminatedPipeline<S>, PipelineError<'a, S>>,
 {
    /// Applies `callback` to a pipeline. What the callback terminated comes
    /// back; where the callback failed, nothing does, and its error is
    /// dropped.
    fn match_against(&self, callback: F) -> (found: Option<TerminatedPipeline<S>>)
        requires
            forall|pipeline: MatchingPipeline<S>| #[trigger] call_requires(callback, (pipeline,)),
        ensures
            exists|
                pipeline: MatchingPipeline<S>,
                verdict: Result<TerminatedPipeline<S>, PipelineError<'a, S>>,
            |
                {
                    &&& #[trigger] call_ensures(callback, (pipeline,), verdict)
                    &&& found == match verdict {
                        Ok(terminated) => Some(terminated),
                        Err(_) => None,
                    }
                },
    ;
}

impl<'a, S: Symbol + 'a, F, T: Clone> MatchAgainst<'a, S, F> for T where
    F: Fn(MatchingPipeline<S>) -> Result<TerminatedPipeline<S>, PipelineError<'a, S>>,
    T: Matchable<S>,
 {
    /// The pipeline that `callback` is applied to is begun from a clone of
    /// the value.
    fn match_against(&self, callback: F) -> (found: Option<TerminatedPipeline<S>>)
        ensures
            exists|
                pipeline: MatchingPipeline<S>,
                verdict: Result<TerminatedPipeline<S>, PipelineError<'a, S>>,
            |
                {
                    &&& begun_from(*self, pipeline)
                    &&& #[trigger] call_ensures(callback, (pipeline,), verdict)
                    &&& found == match verdict {
                        Ok(terminated) => Some(terminated),
                        Err(_) => None,
                    }
                },
    {
        let copy = self.clone();
        assert(cloned(*self, copy));
        let pipeline = begin_match(copy);
        match callback(pipeline) {
            Ok(terminated) => Some(terminated),
            Err(_) => None,
        }
    }
}

} // verus!
