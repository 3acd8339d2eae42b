//! The parsed form of a comprehension: a yield expression and its clauses.
//!
//! Expressions and patterns are kept as opaque source fragments; the model of
//! each type views them as character sequences.
use vstd::prelude::*;

verus! {

/// The character sequences of a list of fragments.
pub open spec fn fragments_view(v: Seq<String>) -> Seq<Seq<char>> {
    v.map_values(|s: String| s@)
}

/// One clause of a comprehension.
#[derive(Debug, PartialEq, Eq)]
pub enum Clause {
    /// `for pattern in source`: one nesting level over the items of `source`.
    ForIn { pattern: String, source: String },
    /// `if condition`: keeps the candidate only when `condition` holds.
    Filter { condition: String },
    /// `if let pat | pat | ... = source`: keeps the candidate only when one of
    /// the alternatives matches the value of `source`, binding its names.
    Binder { patterns: Vec<String>, source: String },
}

/// Mathematical model of a [`Clause`].
pub enum ClauseModel {
    ForIn { pattern: Seq<char>, source: Seq<char> },
    Filter { condition: Seq<char> },
    Binder { patterns: Seq<Seq<char>>, source: Seq<char> },
}

impl View for Clause {
    type V = ClauseModel;

    open spec fn view(&self) -> ClauseModel {
        match self {
            Clause::ForIn { pattern, source } => ClauseModel::ForIn {
                pattern: pattern@,
                source: source@,
            },
            Clause::Filter { condition } => ClauseModel::Filter { condition: condition@ },
            Clause::Binder { patterns, source } => ClauseModel::Binder {
                patterns: fragments_view(patterns@),
                source: source@,
            },
        }
    }
}

/// The models of a list of clauses.
pub open spec fn clauses_view(v: Seq<Clause>) -> Seq<ClauseModel> {
    v.map_values(|c: Clause| c@)
}

/// A whole comprehension: `yield_expr; clause; clause; ...`.
#[derive(Debug, PartialEq, Eq)]
pub struct Comprehension {
    pub yield_expr: String,
    pub clauses: Vec<Clause>,
}

/// Mathematical model of a [`Comprehension`].
pub struct ComprehensionModel {
    pub yield_expr: Seq<char>,
    pub clauses: Seq<ClauseModel>,
}

impl View for Comprehension {
    type V = ComprehensionModel;

    open spec fn view(&self) -> ComprehensionModel {
        ComprehensionModel { yield_expr: self.yield_expr@, clauses: clauses_view(self.clauses@) }
    }
}

/// A clause sequence has the shape the lowering walks: it opens with a `for`
/// clause, and every `if let` clause offers at least one alternative.
pub open spec fn well_formed(cs: Seq<ClauseModel>) -> bool {
    &&& cs.len() >= 1
    &&& cs[0] is ForIn
    &&& forall|i: int|
        0 <= i < cs.len() && #[trigger] cs[i] is Binder ==> cs[i]->Binder_patterns.len() >= 1
}

impl Comprehension {
    /// The comprehension is well formed.
    pub open spec fn wf(&self) -> bool {
        well_formed(self@.clauses)
    }
}

} // verus!
