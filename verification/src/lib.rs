//! A pipeline that matches symbols, runs of symbols, sets, groups and
//! predicates against a sequence that is known in full.
//!
//! A pipeline is begun from a sequence of symbols ([`begin_match`],
//! [`MatchingPipeline::new`]). Each combinator takes the pipeline by value and
//! hands back the pipeline that follows, or an error; a quantifier
//! ([`WithQuantifier`]) applies a sub-combinator as often as its policy says.
//! When the matching has ended the pipeline is terminated, and a [`Digester`]
//! turns the matched symbols into a value.
//!
//! The contracts speak of a pipeline through its state ([`PipelineState`]):
//! the symbols matched, the symbols left, and the cursor. The laws that hold
//! of these states stand in [`state`], those of the quantifiers and of
//! digestion in [`laws`], and the quantifiers as functions of the state in
//! [`values`].

pub mod digesters;
pub mod error;
pub mod laws;
pub mod matchable;
pub mod pipeline;
pub mod quantifiers;
pub mod state;
pub mod symbol;
pub mod values;

pub use digesters::{Digester, IntDigester, StringDigester};
pub use error::{ErrorView, PipelineError};
pub use matchable::{begin_match, MatchAgainst, Matchable};
pub use pipeline::{outcome_view, MatchingPipeline, PipelineResult, TerminatedPipeline};
pub use quantifiers::{
    AtLeast, AtMost, Exactly, Quantifier, WithQuantifier, ZeroOrMore, ZeroOrOne,
};
pub use state::{Outcome, PipelineState};
pub use symbol::{Symbol, SymbolGroup, SymbolGroupView};
