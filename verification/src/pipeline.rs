//! The matching pipeline: its state and the combinators that move it on.

use crate::digesters::Digester;
use crate::error::PipelineError;
use crate::state::{Outcome, PipelineState};
use crate::symbol::{duplicate_run, occurs_in, run_at, Symbol, SymbolGroup};
use vstd::prelude::*;

verus! {

/// A pipeline that is still matching. Every combinator takes the pipeline by
/// value and hands back the pipeline that follows, or an error; to try
/// something and keep the way back open, apply it to a clone.
#[derive(Debug, PartialEq)]
pub struct MatchingPipeline<S: Symbol> {
    matched: Vec<S>,
    unmatched: Vec<S>,
    reached_eos: bool,
    offset: usize,
}

/// What a combinator hands back.
pub type PipelineResult<'a, S> = Result<MatchingPipeline<S>, PipelineError<'a, S>>;

/// What a result is, as a value.
pub open spec fn outcome_view<'a, S: Symbol>(outcome: PipelineResult<'a, S>) -> Outcome<S> {
    match outcome {
        Ok(pipeline) => Ok(pipeline@),
        Err(error) => Err(error@),
    }
}

impl<S: Symbol> View for MatchingPipeline<S> {
    type V = PipelineState<S>;

    closed spec fn view(&self) -> PipelineState<S> {
        PipelineState {
            matched: self.matched@,
            unmatched: self.unmatched@,
            cursor: self.offset as nat,
        }
    }
}

impl<S: Symbol> Clone for MatchingPipeline<S> {
    /// A snapshot: a second pipeline in the same state.
    fn clone(&self) -> (snapshot: Self)
        ensures
            snapshot@ == self@,
    {
        proof {
            use_type_invariant(self);
        }
        let matched = duplicate_run(self.matched.as_slice(), self.matched.len());
        let unmatched = duplicate_run(self.unmatched.as_slice(), self.unmatched.len());
        assert(matched@ =~= self.matched@);
        assert(unmatched@ =~= self.unmatched@);
        MatchingPipeline { matched, unmatched, reached_eos: self.reached_eos, offset: self.offset }
    }
}

impl<S: Symbol> MatchingPipeline<S> {
    #[verifier::type_invariant]
    spec fn well_formed(self) -> bool {
        &&& self.reached_eos <==> self.unmatched@.len() == 0
        &&& self.offset + self.unmatched@.len() <= usize::MAX
    }

    /// A pipeline over `candidate`, with nothing matched yet.
    pub fn new(candidate: Vec<S>) -> (pipeline: Self)
        ensures
            pipeline@ == PipelineState::fresh(candidate@),
    {
        let reached_eos = candidate.len() == 0;
        MatchingPipeline { matched: Vec::new(), unmatched: candidate, reached_eos, offset: 0 }
    }

    /// The symbols matched so far.
    pub fn matched(&self) -> (matched: &[S])
        ensures
            matched@ == self@.matched,
    {
        self.matched.as_slice()
    }

    /// The symbols that are left.
    pub fn unmatched(&self) -> (unmatched: &[S])
        ensures
            unmatched@ == self@.unmatched,
    {
        self.unmatched.as_slice()
    }

    /// Whether no symbol is left.
    pub fn reached_eos(&self) -> (exhausted: bool)
        ensures
            exhausted == self@.exhausted(),
    {
        proof {
            use_type_invariant(self);
        }
        self.reached_eos
    }

    /// The cursor: how many symbols were passed, consumed or skipped. It
    /// rests at the end position exactly when the pipeline is exhausted.
    pub fn offset(&self) -> (cursor: usize)
        ensures
            cursor == self@.cursor,
            self@.end() <= usize::MAX,
    {
        proof {
            use_type_invariant(self);
        }
        self.offset
    }

    /// Moves the first `count` unmatched symbols to the tail of `matched`.
    fn advance(self, count: usize) -> (next: Self)
        requires
            count <= self@.unmatched.len(),
        ensures
            next@ == self@.advance(count as nat),
    {
        proof {
            use_type_invariant(&self);
        }
        let mut matched = self.matched;
        let mut head = self.unmatched;
        let unmatched = head.split_off(count);
        matched.append(&mut head);
        let reached_eos = unmatched.len() == 0;
        MatchingPipeline { matched, unmatched, reached_eos, offset: self.offset + count }
    }

    /// Matches the current symbol: it joins the matched symbols and the
    /// pipeline moves to the next one. An exhausted pipeline stays as it is.
    pub fn consume(self) -> (next: Self)
        ensures
            next@ == self@.consume(),
    {
        proof {
            use_type_invariant(&self);
        }
        if self.reached_eos {
            return self;
        }
        self.advance(1)
    }

    /// Moves to the next symbol without keeping the current one. An exhausted
    /// pipeline stays as it is.
    pub fn skip(self) -> (next: Self)
        ensures
            next@ == self@.skip(),
    {
        proof {
            use_type_invariant(&self);
        }
        if self.reached_eos {
            return self;
        }
        let mut unmatched = self.unmatched;
        unmatched.remove(0);
        let reached_eos = unmatched.len() == 0;
        MatchingPipeline { matched: self.matched, unmatched, reached_eos, offset: self.offset + 1 }
    }

    /// Expects `symbol` as the current symbol.
    pub fn expect_symbol<'a>(self, symbol: &'a S) -> (outcome: PipelineResult<'a, S>)
        ensures
            outcome_view(outcome) == self@.expect_symbol(*symbol),
    {
        proof {
            use_type_invariant(&self);
        }
        if self.reached_eos {
            return Err(PipelineError::UnexpectedEos);
        }
        if symbol.same_as(&self.unmatched[0]) {
            return Ok(self.advance(1));
        }
        let actual = self.unmatched[0].duplicate();
        Err(PipelineError::WrongSymbol { expected: symbol, actual })
    }

    /// Expects the pattern at the head of what is left. It is matched whole
    /// or not at all.
    pub fn expect_pattern<'a>(self, pattern: &'a [S]) -> (outcome: PipelineResult<'a, S>)
        ensures
            outcome_view(outcome) == self@.expect_pattern(pattern@),
    {
        proof {
            use_type_invariant(&self);
        }
        if run_at(self.unmatched.as_slice(), 0, pattern) {
            return Ok(self.advance(pattern.len()));
        }
        assert(self.unmatched@.skip(0) =~= self.unmatched@);
        let available = if pattern.len() < self.unmatched.len() {
            pattern.len()
        } else {
            self.unmatched.len()
        };
        let actual = duplicate_run(self.unmatched.as_slice(), available);
        Err(PipelineError::WrongPattern { expected: pattern, actual })
    }

    /// Expects the current symbol to be one of `symbols`, whose order and
    /// repetitions do not matter.
    pub fn expect_any_of<'a>(self, symbols: &'a [S]) -> (outcome: PipelineResult<'a, S>)
        ensures
            outcome_view(outcome) == self@.expect_any_of(symbols@),
    {
        proof {
            use_type_invariant(&self);
        }
        if self.reached_eos {
            return Err(PipelineError::UnexpectedEos);
        }
        if occurs_in(symbols, &self.unmatched[0]) {
            return Ok(self.advance(1));
        }
        let actual = self.unmatched[0].duplicate();
        Err(PipelineError::SymbolNotMatchAnyOf { expected: symbols, actual })
    }

    /// Expects the current symbol to be in `group`. Where it is not, the
    /// error names the group instead of listing its members.
    pub fn expect_group<'a>(self, group: &'a SymbolGroup<S>) -> (outcome: PipelineResult<'a, S>)
        ensures
            outcome_view(outcome) == self@.expect_group(group@),
    {
        proof {
            use_type_invariant(&self);
        }
        if self.reached_eos {
            return Err(PipelineError::UnexpectedEos);
        }
        if group.accepts(&self.unmatched[0]) {
            return Ok(self.advance(1));
        }
        let actual = self.unmatched[0].duplicate();
        Err(PipelineError::SymbolNotInGroup { expected: group, actual })
    }

    /// Expects the predicate to accept the current symbol.
    pub fn expect_predicate<'a, F>(self, predicate: F) -> (outcome: PipelineResult<'a, S>) where
        F: Fn(&S) -> bool,

        requires
            !self@.exhausted() ==> call_requires(predicate, (&self@.head(),)),
        ensures
            self@.exhausted() ==> outcome_view(outcome) == self@.expect_predicate(false),
            !self@.exhausted() ==> exists|accepted: bool|
                {
                    &&& #[trigger] call_ensures(predicate, (&self@.head(),), accepted)
                    &&& outcome_view(outcome) == self@.expect_predicate(accepted)
                },
    {
        proof {
            use_type_invariant(&self);
        }
        if self.reached_eos {
            return Err(PipelineError::UnexpectedEos);
        }
        if predicate(&self.unmatched[0]) {
            return Ok(self.advance(1));
        }
        let actual = self.unmatched[0].duplicate();
        Err(PipelineError::SymbolNotMatchingPredicate { actual })
    }

    /// Matches symbols up to the first place where `delim` stands, or up to
    /// the end where it stands nowhere. With `match_delim` the delimiter that
    /// was found is matched too.
    pub fn match_until<'a>(self, delim: &'a [S], match_delim: bool) -> (next: Self)
        ensures
            exists|at: nat| #[trigger]
                self@.first_delimiter(delim@, at) && next@ == self@.advance(
                    if match_delim && at < self@.unmatched.len() {
                        at + delim@.len()
                    } else {
                        at
                    },
                ),
    {
        proof {
            use_type_invariant(&self);
        }
        let mut at: usize = 0;
        while at < self.unmatched.len()
            invariant
                at <= self.unmatched@.len(),
                forall|j: int| 0 <= j < at ==> !self@.delimiter_at(delim@, j),
            ensures
                self@.first_delimiter(delim@, at as nat),
            decreases self.unmatched@.len() - at,
        {
            if run_at(self.unmatched.as_slice(), at, delim) {
                break ;
            }
            at += 1;
        }
        let count = if match_delim && at < self.unmatched.len() {
            at + delim.len()
        } else {
            at
        };
        self.advance(count)
    }

    /// Matches symbols for as long as the predicate accepts the current one.
    pub fn match_while_true<F>(self, predicate: F) -> (next: Self) where F: Fn(&S) -> bool
        requires
            forall|j: int|
                0 <= j < self@.unmatched.len() ==> call_requires(
                    predicate,
                    (&#[trigger] self@.unmatched[j],),
                ),
        ensures
            exists|count: nat| #[trigger]
                self@.accepted_run(predicate, count) && next@ == self@.advance(count),
    {
        proof {
            use_type_invariant(&self);
        }
        let mut count: usize = 0;
        while count < self.unmatched.len()
            invariant
                count <= self.unmatched@.len(),
                forall|j: int|
                    0 <= j < self@.unmatched.len() ==> call_requires(
                        predicate,
                        (&#[trigger] self@.unmatched[j],),
                    ),
                forall|j: int|
                    0 <= j < count ==> call_ensures(
                        predicate,
                        (&#[trigger] self@.unmatched[j],),
                        true,
                    ),
            ensures
                self@.accepted_run(predicate, count as nat),
            decreases self.unmatched@.len() - count,
        {
            assert(self.unmatched@[count as int] == self@.unmatched[count as int]);
            if !predicate(&self.unmatched[count]) {
                break ;
            }
            count += 1;
        }
        self.advance(count)
    }

    /// Matches every symbol that is left.
    pub fn match_until_eos(self) -> (next: Self)
        ensures
            next@ == self@.advance(self@.unmatched.len()),
    {
        let count = self.unmatched.len();
        self.advance(count)
    }

    /// Applies `callback` to the pipeline and hands back what it returns.
    pub fn block<'a, F>(self, callback: F) -> (outcome: PipelineResult<'a, S>) where
        F: Fn(Self) -> PipelineResult<'a, S>,

        requires
            call_requires(callback, (self,)),
        ensures
            call_ensures(callback, (self,), outcome),
    {
        callback(self)
    }

    /// Ends the matching. What comes out can only be read and digested.
    pub fn terminate(self) -> (terminated: TerminatedPipeline<S>)
        ensures
            terminated@ == self@,
    {
        TerminatedPipeline { matched: self.matched, unmatched: self.unmatched, offset: self.offset }
    }
}

/// A pipeline after its matching has ended.
#[derive(Debug)]
pub struct TerminatedPipeline<S: Symbol> {
    matched: Vec<S>,
    unmatched: Vec<S>,
    offset: usize,
}

impl<S: Symbol> View for TerminatedPipeline<S> {
    type V = PipelineState<S>;

    closed spec fn view(&self) -> PipelineState<S> {
        PipelineState {
            matched: self.matched@,
            unmatched: self.unmatched@,
            cursor: self.offset as nat,
        }
    }
}

impl<S: Symbol> TerminatedPipeline<S> {
    /// The symbols that were matched.
    pub fn matched(&self) -> (matched: &[S])
        ensures
            matched@ == self@.matched,
    {
        self.matched.as_slice()
    }

    /// The symbols that were left.
    pub fn unmatched(&self) -> (unmatched: &[S])
        ensures
            unmatched@ == self@.unmatched,
    {
        self.unmatched.as_slice()
    }

    /// The cursor at the end of the matching.
    pub fn offset(&self) -> (cursor: usize)
        ensures
            cursor == self@.cursor,
    {
        self.offset
    }

    /// Hands the matched symbols, and nothing else, to the digester `D`.
    pub fn digest<D>(self) -> (output: D::Output) where D: Digester<S>
        requires
            D::accepts(self@.matched),
        ensures
            D::digests(self@.matched, output),
    {
        D::digest(self.matched.as_slice())
    }
}

} // verus!
