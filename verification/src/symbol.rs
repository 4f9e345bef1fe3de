//! Symbols, the atomic units of the input, and named groups of them.

use std::fmt::Debug;
use vstd::prelude::*;

verus! {

/// What a type must offer to serve as the unit of a pipeline's input:
/// equality by value, duplication, and a rendering for diagnostics (`Debug`).
pub trait Symbol: PartialEq + Clone + Debug + Sized {
    /// Whether the two symbols have the same value.
    fn same_as(&self, other: &Self) -> (same: bool)
        ensures
            same == (*self == *other),
    ;

    /// A second symbol of the same value.
    fn duplicate(&self) -> (copy: Self)
        ensures
            copy == *self,
    ;
}

impl Symbol for char {
    fn same_as(&self, other: &char) -> (same: bool) {
        *self == *other
    }

    fn duplicate(&self) -> (copy: char) {
        *self
    }
}

/// Whether `symbol` occurs among `symbols`.
pub(crate) fn occurs_in<S: Symbol>(symbols: &[S], symbol: &S) -> (found: bool)
    ensures
        found == symbols@.contains(*symbol),
{
    let mut i: usize = 0;
    while i < symbols.len()
        invariant
            i <= symbols@.len(),
            forall|j: int| 0 <= j < i ==> symbols@[j] != *symbol,
        decreases symbols@.len() - i,
    {
        if symbols[i].same_as(symbol) {
            return true;
        }
        i += 1;
    }
    false
}

/// A copy of the first `count` symbols of `symbols`.
pub(crate) fn duplicate_run<S: Symbol>(symbols: &[S], count: usize) -> (copy: Vec<S>)
    requires
        count <= symbols@.len(),
    ensures
        copy@ == symbols@.take(count as int),
{
    let mut copy: Vec<S> = Vec::with_capacity(count);
    let mut i: usize = 0;
    while i < count
        invariant
            i <= count <= symbols@.len(),
            copy@ == symbols@.take(i as int),
        decreases count - i,
    {
        copy.push(symbols[i].duplicate());
        i += 1;
    }
    copy
}

/// Whether `pattern` stands at position `at` of `symbols`, term by term.
pub(crate) fn run_at<S: Symbol>(symbols: &[S], at: usize, pattern: &[S]) -> (found: bool)
    requires
        at <= symbols@.len(),
    ensures
        found == pattern@.is_prefix_of(symbols@.skip(at as int)),
{
    if pattern.len() > symbols.len() - at {
        return false;
    }
    let mut i: usize = 0;
    while i < pattern.len()
        invariant
            at <= symbols@.len() <= usize::MAX,
            i <= pattern@.len() <= symbols@.len() - at,
            forall|j: int| 0 <= j < i ==> pattern@[j] == symbols@[at + j],
        decreases pattern@.len() - i,
    {
        if !pattern[i].same_as(&symbols[at + i]) {
            return false;
        }
        i += 1;
    }
    true
}

/// A set of accepted symbols under a name that reads better in a diagnostic
/// than the list of its members.
#[derive(Debug, PartialEq)]
pub struct SymbolGroup<S: Symbol> {
    members: Vec<S>,
    description: String,
}

/// What a group is, as a value.
pub ghost struct SymbolGroupView<S> {
    /// The accepted symbols; their order and repetitions do not matter.
    pub members: Seq<S>,
    /// The text that stands for the group in diagnostics.
    pub description: Seq<char>,
}

impl<S: Symbol> View for SymbolGroup<S> {
    type V = SymbolGroupView<S>;

    closed spec fn view(&self) -> SymbolGroupView<S> {
        SymbolGroupView { members: self.members@, description: self.description@ }
    }
}

impl<S: Symbol> SymbolGroup<S> {
    /// The group of `members`, described as `description`.
    pub fn new(members: Vec<S>, description: String) -> (group: Self)
        ensures
            group@.members == members@,
            group@.description == description@,
    {
        SymbolGroup { members, description }
    }

    /// Whether the group accepts `symbol`.
    pub fn accepts(&self, symbol: &S) -> (accepted: bool)
        ensures
            accepted == self@.members.contains(*symbol),
    {
        occurs_in(self.members.as_slice(), symbol)
    }

    /// The accepted symbols.
    pub fn members(&self) -> (members: &[S])
        ensures
            members@ == self@.members,
    {
        self.members.as_slice()
    }

    /// The text that stands for the group in diagnostics.
    pub fn description(&self) -> (description: &str)
        ensures
            description@ == self@.description,
    {
        self.description.as_str()
    }
}

} // verus!
