//! The mathematical model of a pipeline.
//!
//! A pipeline is described by three values: the symbols matched so far, the
//! symbols still to be looked at, and the cursor. Every contract of the
//! executable pipeline is stated over this model.

use crate::error::ErrorView;
use crate::symbol::SymbolGroupView;
use vstd::prelude::*;

verus! {

/// The value of a pipeline at one moment.
pub ghost struct PipelineState<S> {
    /// The symbols matched so far, in the order of the input.
    pub matched: Seq<S>,
    /// The symbols not looked at yet, in the order of the input.
    pub unmatched: Seq<S>,
    /// The number of symbols passed so far, consumed or skipped.
    pub cursor: nat,
}

/// What a combinator makes of a state: the state that follows, or an error.
pub type Outcome<S> = Result<PipelineState<S>, ErrorView<S>>;

impl<S> PipelineState<S> {
    /// The state of a pipeline that was just built from `source`.
    pub open spec fn fresh(source: Seq<S>) -> Self {
        PipelineState { matched: Seq::empty(), unmatched: source, cursor: 0 }
    }

    /// No symbol is left to look at.
    pub open spec fn exhausted(self) -> bool {
        self.unmatched.len() == 0
    }

    /// The state after the first `n` unmatched symbols have been consumed:
    /// they leave the head of `unmatched` and join the tail of `matched`.
    pub open spec fn advance(self, n: nat) -> Self
        recommends
            n <= self.unmatched.len(),
    {
        PipelineState {
            matched: self.matched + self.unmatched.take(n as int),
            unmatched: self.unmatched.skip(n as int),
            cursor: self.cursor + n,
        }
    }

    /// The state after the head of `unmatched` has been passed over without
    /// being kept.
    pub open spec fn discard_head(self) -> Self
        recommends
            !self.exhausted(),
    {
        PipelineState {
            matched: self.matched,
            unmatched: self.unmatched.skip(1),
            cursor: self.cursor + 1,
        }
    }

    /// Everything the state holds, matched symbols first.
    pub open spec fn source(self) -> Seq<S> {
        self.matched + self.unmatched
    }

    /// The position at which the cursor rests once the pipeline is exhausted:
    /// one past the last symbol. No operation changes it.
    pub open spec fn end(self) -> nat {
        self.cursor + self.unmatched.len()
    }

    /// `pattern` stands at the head of `unmatched`, term by term.
    pub open spec fn starts_with(self, pattern: Seq<S>) -> bool {
        pattern.is_prefix_of(self.unmatched)
    }

    /// The current symbol: the first one that is left.
    pub open spec fn head(self) -> S
        recommends
            !self.exhausted(),
    {
        self.unmatched[0]
    }

    /// `predicate` accepted each of the first `count` unmatched symbols, and
    /// turned down the one after them where there is one.
    pub open spec fn accepted_run<F: Fn(&S) -> bool>(self, predicate: F, count: nat) -> bool {
        &&& count <= self.unmatched.len()
        &&& forall|j: int|
            0 <= j < count ==> call_ensures(predicate, (&#[trigger] self.unmatched[j],), true)
        &&& count < self.unmatched.len() ==> call_ensures(
            predicate,
            (&self.unmatched[count as int],),
            false,
        )
    }

    /// The first `n` unmatched symbols, or all of them where fewer are left.
    pub open spec fn available(self, n: nat) -> Seq<S> {
        if n <= self.unmatched.len() {
            self.unmatched.take(n as int)
        } else {
            self.unmatched
        }
    }

    /// `delimiter` stands at position `at` of `unmatched`, term by term.
    pub open spec fn delimiter_at(self, delimiter: Seq<S>, at: int) -> bool {
        delimiter.is_prefix_of(self.unmatched.skip(at))
    }

    /// `at` is the first position of `unmatched` at which `delimiter` stands,
    /// or the length of `unmatched` where it stands at none.
    pub open spec fn first_delimiter(self, delimiter: Seq<S>, at: nat) -> bool {
        &&& at <= self.unmatched.len()
        &&& forall|j: int| 0 <= j < at ==> !self.delimiter_at(delimiter, j)
        &&& at < self.unmatched.len() ==> self.delimiter_at(delimiter, at as int)
    }

    /// The current symbol is consumed, if there is one.
    pub open spec fn consume(self) -> Self {
        if self.exhausted() {
            self
        } else {
            self.advance(1)
        }
    }

    /// The current symbol is passed over, if there is one.
    pub open spec fn skip(self) -> Self {
        if self.exhausted() {
            self
        } else {
            self.discard_head()
        }
    }

    /// The current symbol is consumed if it is `symbol`.
    pub open spec fn expect_symbol(self, symbol: S) -> Outcome<S> {
        if self.exhausted() {
            Err(ErrorView::UnexpectedEos)
        } else if self.head() == symbol {
            Ok(self.advance(1))
        } else {
            Err(ErrorView::WrongSymbol { expected: symbol, actual: self.head() })
        }
    }

    /// `pattern` is consumed whole if it stands at the head of `unmatched`.
    /// Where it does not, the error holds what there was to compare: as many
    /// symbols as the pattern has, or all that are left where they are fewer.
    pub open spec fn expect_pattern(self, pattern: Seq<S>) -> Outcome<S> {
        if self.starts_with(pattern) {
            Ok(self.advance(pattern.len()))
        } else {
            Err(
                ErrorView::WrongPattern {
                    expected: pattern,
                    actual: self.available(pattern.len()),
                },
            )
        }
    }

    /// The current symbol is consumed if it occurs in `symbols`.
    pub open spec fn expect_any_of(self, symbols: Seq<S>) -> Outcome<S> {
        if self.exhausted() {
            Err(ErrorView::UnexpectedEos)
        } else if symbols.contains(self.head()) {
            Ok(self.advance(1))
        } else {
            Err(ErrorView::SymbolNotMatchAnyOf { expected: symbols, actual: self.head() })
        }
    }

    /// The current symbol is consumed if it is a member of `group`.
    pub open spec fn expect_group(self, group: SymbolGroupView<S>) -> Outcome<S> {
        if self.exhausted() {
            Err(ErrorView::UnexpectedEos)
        } else if group.members.contains(self.head()) {
            Ok(self.advance(1))
        } else {
            Err(ErrorView::SymbolNotInGroup { expected: group, actual: self.head() })
        }
    }

    /// The current symbol is consumed if a predicate accepted it; `accepted`
    /// is what the predicate said of it.
    pub open spec fn expect_predicate(self, accepted: bool) -> Outcome<S> {
        if self.exhausted() {
            Err(ErrorView::UnexpectedEos)
        } else if accepted {
            Ok(self.advance(1))
        } else {
            Err(ErrorView::SymbolNotMatchingPredicate { actual: self.head() })
        }
    }

    /// `later` is this state after some number of symbols were consumed.
    pub open spec fn reaches(self, later: Self) -> bool {
        exists|n: nat| n <= self.unmatched.len() && later == #[trigger] self.advance(n)
    }
}

/// Consuming nothing changes nothing.
pub proof fn lemma_advance_zero<S>(state: PipelineState<S>)
    ensures
        state.advance(0) == state,
{
    assert(state.unmatched.skip(0) =~= state.unmatched);
}

/// Consuming `a` symbols and then `b` more is consuming `a + b` at once.
pub proof fn lemma_advance_twice<S>(state: PipelineState<S>, a: nat, b: nat)
    requires
        a + b <= state.unmatched.len(),
    ensures
        state.advance(a).advance(b) == state.advance(a + b),
{
    let once = state.advance(a);
    assert(once.matched + once.unmatched.take(b as int) =~= state.matched + state.unmatched.take(
        (a + b) as int,
    ));
    assert(once.unmatched.skip(b as int) =~= state.unmatched.skip((a + b) as int));
}

/// Consuming all that is left exhausts the pipeline and gathers the whole
/// source in `matched`.
pub proof fn lemma_advance_to_end<S>(state: PipelineState<S>)
    ensures
        state.advance(state.unmatched.len()).exhausted(),
        state.advance(state.unmatched.len()).matched == state.source(),
{
}

/// However many symbols are consumed, `matched` followed by `unmatched` stays
/// the same sequence, `matched` only grows at its tail, and the end position
/// does not move.
pub proof fn lemma_advance_keeps_source<S>(state: PipelineState<S>, n: nat)
    requires
        n <= state.unmatched.len(),
    ensures
        state.advance(n).source() == state.source(),
        state.matched.is_prefix_of(state.advance(n).matched),
        state.advance(n).end() == state.end(),
{
}

/// There is one first position of a delimiter, so that `first_delimiter`
/// names it.
pub proof fn lemma_first_delimiter_is_unique<S>(
    state: PipelineState<S>,
    delimiter: Seq<S>,
    one: nat,
    other: nat,
)
    requires
        state.first_delimiter(delimiter, one),
        state.first_delimiter(delimiter, other),
    ensures
        one == other,
{
}

/// Every state reaches itself.
pub proof fn lemma_reaches_itself<S>(state: PipelineState<S>)
    ensures
        state.reaches(state),
{
    lemma_advance_zero(state);
}

/// What is reached from a reached state is reached from the first one.
pub proof fn lemma_reaches_chains<S>(
    first: PipelineState<S>,
    second: PipelineState<S>,
    third: PipelineState<S>,
)
    requires
        first.reaches(second),
        second.reaches(third),
    ensures
        first.reaches(third),
{
    let a = choose|n: nat| n <= first.unmatched.len() && second == #[trigger] first.advance(n);
    let b = choose|n: nat| n <= second.unmatched.len() && third == #[trigger] second.advance(n);
    lemma_advance_twice(first, a, b);
}

/// The partition law: in every state reached from a fresh pipeline by
/// consuming symbols, in whatever steps, `matched` followed by `unmatched` is
/// the input in its order, and the cursor counts the matched symbols.
pub proof fn lemma_partition<S>(source: Seq<S>, state: PipelineState<S>)
    requires
        PipelineState::fresh(source).reaches(state),
    ensures
        state.source() == source,
        state.matched.is_prefix_of(source),
        state.cursor == state.matched.len(),
        state.end() == source.len(),
{
    let start = PipelineState::fresh(source);
    let n = choose|n: nat| n <= start.unmatched.len() && state == #[trigger] start.advance(n);
    lemma_advance_keeps_source(start, n);
}

/// The exhaustion law: the cursor rests at the end position exactly when no
/// symbol is left, and passing over a symbol, kept or not, leaves the end
/// position where it was.
pub proof fn lemma_cursor_at_end<S>(state: PipelineState<S>)
    ensures
        state.cursor == state.end() <==> state.exhausted(),
        !state.exhausted() ==> state.advance(1).end() == state.end(),
        !state.exhausted() ==> state.discard_head().end() == state.end(),
{
}

} // verus!
