//! The failures that a combinator can report.

use crate::symbol::{Symbol, SymbolGroup, SymbolGroupView};
use std::fmt::Debug;
use vstd::prelude::*;

verus! {

/// Why a combinator gave up. The error carries what was expected and what was
/// found; the place is the cursor of the pipeline it was applied to.
#[derive(Debug, PartialEq)]
#[allow(inconsistent_fields)]
pub enum PipelineError<'a, S: Symbol> {
    /// A symbol was expected and none was left.
    UnexpectedEos,
    /// The next symbol is not the expected one.
    WrongSymbol { expected: &'a S, actual: S },
    /// The next symbols are not the expected run. `actual` holds what was
    /// there to compare, which is shorter than `expected` where the input
    /// ran out.
    WrongPattern { expected: &'a [S], actual: Vec<S> },
    /// The next symbol is none of the expected ones.
    SymbolNotMatchAnyOf { expected: &'a [S], actual: S },
    /// The next symbol is not in the expected group.
    SymbolNotInGroup { expected: &'a SymbolGroup<S>, actual: S },
    /// The predicate turned the next symbol down.
    SymbolNotMatchingPredicate { actual: S },
    /// Any other failure, in words.
    Unexpected { message: &'a str },
}

/// What an error is, as a value: the same cases, each with the values of
/// what the error carries.
#[allow(inconsistent_fields)]
pub ghost enum ErrorView<S> {
    UnexpectedEos,
    WrongSymbol { expected: S, actual: S },
    WrongPattern { expected: Seq<S>, actual: Seq<S> },
    SymbolNotMatchAnyOf { expected: Seq<S>, actual: S },
    SymbolNotInGroup { expected: SymbolGroupView<S>, actual: S },
    SymbolNotMatchingPredicate { actual: S },
    Unexpected { message: Seq<char> },
}

impl<'a, S: Symbol> View for PipelineError<'a, S> {
    type V = ErrorView<S>;

    open spec fn view(&self) -> ErrorView<S> {
        match *self {
            PipelineError::UnexpectedEos => ErrorView::UnexpectedEos,
            PipelineError::WrongSymbol { expected, actual } => ErrorView::WrongSymbol {
                expected: *expected,
                actual,
            },
            PipelineError::WrongPattern { expected, actual } => ErrorView::WrongPattern {
                expected: expected@,
                actual: actual@,
            },
            PipelineError::SymbolNotMatchAnyOf { expected, actual } => {
                ErrorView::SymbolNotMatchAnyOf { expected: expected@, actual }
            },
            PipelineError::SymbolNotInGroup { expected, actual } => ErrorView::SymbolNotInGroup {
                expected: expected@,
                actual,
            },
            PipelineError::SymbolNotMatchingPredicate { actual } => {
                ErrorView::SymbolNotMatchingPredicate { actual }
            },
            PipelineError::Unexpected { message } => ErrorView::Unexpected { message: message@ },
        }
    }
}

impl<S> ErrorView<S> {
    /// The text that the error reads as, where `expected` and `actual` are
    /// the renderings of the symbols it carries. An error that carries none
    /// reads the same whatever they are.
    pub open spec fn reads_as(self, expected: Seq<char>, actual: Seq<char>) -> Seq<char> {
        match self {
            ErrorView::UnexpectedEos => "Unexpected end of stream"@,
            ErrorView::WrongSymbol { .. } => "Expected "@ + expected + " but instead got "@ + actual,
            ErrorView::WrongPattern { .. } => "Expected pattern "@ + expected
                + " but instead got "@ + actual,
            ErrorView::SymbolNotMatchAnyOf { .. } => "Expected one of "@ + expected
                + " but instead got "@ + actual,
            ErrorView::SymbolNotInGroup { expected: group, .. } => "Expected "@ + group.description
                + " but instead got "@ + actual,
            ErrorView::SymbolNotMatchingPredicate { .. } => actual
                + " does not match the given predicate"@,
            ErrorView::Unexpected { message } => "Unexpected error: "@ + message,
        }
    }
}

/// The `Debug` rendering of a value, as `format!` gives it. What the text
/// holds is up to the type of the value, so nothing is stated of it.
#[verifier::external_body]
fn rendered<T: Debug + ?Sized>(value: &T) -> (text: String) {
    format!("{:?}", value)
}

/// The three parts in a row, with `middle` between `first` and `last`.
fn joined(first: &str, middle: &str, last: &str) -> (text: String)
    ensures
        text@ == first@ + middle@ + last@,
{
    let mut text = String::from_str(first);
    text.append(middle);
    text.append(last);
    text
}

impl<'a, S: Symbol> PipelineError<'a, S> {
    /// The error in words, for a diagnostic. The symbols that the error
    /// carries appear in their `Debug` rendering; a group appears under its
    /// description.
    pub fn message(&self) -> (text: String)
        ensures
            exists|expected: Seq<char>, actual: Seq<char>|
                text@ == #[trigger] self@.reads_as(expected, actual),
    {
        match self {
            PipelineError::UnexpectedEos => {
                let text = String::from_str("Unexpected end of stream");
                assert(text@ == self@.reads_as(Seq::empty(), Seq::empty()));
                text
            },
            PipelineError::WrongSymbol { expected, actual } => {
                let expected = rendered(*expected);
                let actual = rendered(actual);
                let mut text = joined("Expected ", expected.as_str(), " but instead got ");
                text.append(actual.as_str());
                assert(text@ == self@.reads_as(expected@, actual@));
                text
            },
            PipelineError::WrongPattern { expected, actual } => {
                let expected = rendered(*expected);
                let actual = rendered(actual.as_slice());
                let mut text = joined("Expected pattern ", expected.as_str(), " but instead got ");
                text.append(actual.as_str());
                assert(text@ == self@.reads_as(expected@, actual@));
                text
            },
            PipelineError::SymbolNotMatchAnyOf { expected, actual } => {
                let expected = rendered(*expected);
                let actual = rendered(actual);
                let mut text = joined("Expected one of ", expected.as_str(), " but instead got ");
                text.append(actual.as_str());
                assert(text@ == self@.reads_as(expected@, actual@));
                text
            },
            PipelineError::SymbolNotInGroup { expected, actual } => {
                let actual = rendered(actual);
                let mut text = joined("Expected ", expected.description(), " but instead got ");
                text.append(actual.as_str());
                assert(text@ == self@.reads_as(Seq::empty(), actual@));
                text
            },
            PipelineError::SymbolNotMatchingPredicate { actual } => {
                let actual = rendered(actual);
                let mut text = actual.clone();
                text.append(" does not match the given predicate");
                assert(text@ == self@.reads_as(Seq::empty(), actual@));
                text
            },
            PipelineError::Unexpected { message } => {
                let mut text = String::from_str("Unexpected error: ");
                text.append(*message);
                assert(text@ == self@.reads_as(Seq::empty(), Seq::empty()));
                text
            },
        }
    }
}

} // verus!
