//! Lowering a clause sequence into a nested pipeline of iterator stages.
//!
//! The clauses are taken one nesting level at a time: a `for` clause, the run
//! of `if` / `if let` clauses after it (its guard chain), and what follows.
//! Each level becomes one stage over the `for` source:
//! - no guards, nothing after: `map` to the yield expression;
//! - guards, nothing after: `filter_map` through the guards to the yield;
//! - no guards, more levels: `flat_map` into the lowered rest;
//! - guards and more levels: `filter_map` through the guards into the lowered
//!   rest, then `flatten` one level.
use vstd::prelude::*;
use crate::clause::{Clause, ClauseModel, Comprehension, clauses_view, fragments_view};

verus! {

/// One guard of a stage, from an `if` or an `if let` clause.
#[derive(Debug, PartialEq, Eq)]
pub enum Guard {
    Test { condition: String },
    Match { patterns: Vec<String>, source: String },
}

/// Mathematical model of a [`Guard`].
pub enum GuardModel {
    Test { condition: Seq<char> },
    Match { patterns: Seq<Seq<char>>, source: Seq<char> },
}

impl View for Guard {
    type V = GuardModel;

    open spec fn view(&self) -> GuardModel {
        match self {
            Guard::Test { condition } => GuardModel::Test { condition: condition@ },
            Guard::Match { patterns, source } => GuardModel::Match {
                patterns: fragments_view(patterns@),
                source: source@,
            },
        }
    }
}

pub open spec fn guards_view(v: Seq<Guard>) -> Seq<GuardModel> {
    v.map_values(|g: Guard| g@)
}

/// A lowered comprehension: a stage over the items of `source`, each bound
/// to `pattern`.
#[derive(Debug, PartialEq, Eq)]
pub enum Pipeline {
    /// `source.into_iter().map(|pattern| yield_expr)`
    Transform { pattern: String, source: String, yield_expr: String },
    /// `source.into_iter().filter_map(|pattern| guards ? Some(yield_expr) : None)`
    FilterTransform { pattern: String, source: String, guards: Vec<Guard>, yield_expr: String },
    /// `source.into_iter().flat_map(|pattern| inner)`
    ExpandEach { pattern: String, source: String, inner: Box<Pipeline> },
    /// `source.into_iter().filter_map(|pattern| guards ? Some(inner) : None).flatten()`
    FilterExpand { pattern: String, source: String, guards: Vec<Guard>, inner: Box<Pipeline> },
}

/// Mathematical model of a [`Pipeline`].
pub enum PipelineModel {
    Transform { pattern: Seq<char>, source: Seq<char>, yield_expr: Seq<char> },
    FilterTransform {
        pattern: Seq<char>,
        source: Seq<char>,
        guards: Seq<GuardModel>,
        yield_expr: Seq<char>,
    },
    ExpandEach { pattern: Seq<char>, source: Seq<char>, inner: Box<PipelineModel> },
    FilterExpand {
        pattern: Seq<char>,
        source: Seq<char>,
        guards: Seq<GuardModel>,
        inner: Box<PipelineModel>,
    },
}

pub open spec fn pipeline_view(p: Pipeline) -> PipelineModel
    decreases p,
{
    match p {
        Pipeline::Transform { pattern, source, yield_expr } => PipelineModel::Transform {
            pattern: pattern@,
            source: source@,
            yield_expr: yield_expr@,
        },
        Pipeline::FilterTransform { pattern, source, guards, yield_expr } =>
            PipelineModel::FilterTransform {
            pattern: pattern@,
            source: source@,
            guards: guards_view(guards@),
            yield_expr: yield_expr@,
        },
        Pipeline::ExpandEach { pattern, source, inner } => PipelineModel::ExpandEach {
            pattern: pattern@,
            source: source@,
            inner: Box::new(pipeline_view(*inner)),
        },
        Pipeline::FilterExpand { pattern, source, guards, inner } => PipelineModel::FilterExpand {
            pattern: pattern@,
            source: source@,
            guards: guards_view(guards@),
            inner: Box::new(pipeline_view(*inner)),
        },
    }
}

impl View for Pipeline {
    type V = PipelineModel;

    open spec fn view(&self) -> PipelineModel {
        pipeline_view(*self)
    }
}

/// The guard that an `if` or `if let` clause becomes.
pub open spec fn guard_of(c: ClauseModel) -> GuardModel {
    match c {
        ClauseModel::Binder { patterns, source } => GuardModel::Match { patterns, source },
        ClauseModel::Filter { condition } => GuardModel::Test { condition },
        ClauseModel::ForIn { .. } => GuardModel::Test { condition: Seq::empty() },
    }
}

/// How many clauses from position `i` on come before the next `for` clause.
pub open spec fn chain_len(cs: Seq<ClauseModel>, i: int) -> int
    decreases cs.len() - i,
{
    if i < 0 || i >= cs.len() || cs[i] is ForIn {
        0
    } else {
        1 + chain_len(cs, i + 1)
    }
}

pub proof fn lemma_chain_len_bounds(cs: Seq<ClauseModel>, i: int)
    requires
        0 <= i,
    ensures
        0 <= chain_len(cs, i),
        i <= cs.len() ==> i + chain_len(cs, i) <= cs.len(),
    decreases cs.len() - i,
{
    if 0 <= i < cs.len() && !(cs[i] is ForIn) {
        lemma_chain_len_bounds(cs, i + 1);
    }
}

/// The guard chain of the first level of `cs`.
pub open spec fn first_guards(cs: Seq<ClauseModel>) -> Seq<GuardModel> {
    cs.subrange(1, 1 + chain_len(cs, 1)).map_values(|c: ClauseModel| guard_of(c))
}

/// The clauses after the first level of `cs`.
pub open spec fn after_first(cs: Seq<ClauseModel>) -> Seq<ClauseModel> {
    cs.skip(1 + chain_len(cs, 1))
}

/// The pipeline that the clauses `cs` with yield expression `y` lower to.
pub open spec fn lower_spec(y: Seq<char>, cs: Seq<ClauseModel>) -> PipelineModel
    recommends
        cs.len() >= 1,
        cs[0] is ForIn,
    decreases cs.len(),
    via lower_spec_decreases
{
    if cs.len() == 0 {
        PipelineModel::Transform { pattern: Seq::empty(), source: Seq::empty(), yield_expr: y }
    } else {
        let pattern = cs[0]->ForIn_pattern;
        let source = cs[0]->ForIn_source;
        let guards = first_guards(cs);
        let rest = after_first(cs);
        if rest.len() == 0 {
            if guards.len() == 0 {
                PipelineModel::Transform { pattern, source, yield_expr: y }
            } else {
                PipelineModel::FilterTransform { pattern, source, guards, yield_expr: y }
            }
        } else {
            let inner = Box::new(lower_spec(y, rest));
            if guards.len() == 0 {
                PipelineModel::ExpandEach { pattern, source, inner }
            } else {
                PipelineModel::FilterExpand { pattern, source, guards, inner }
            }
        }
    }
}

#[via_fn]
proof fn lower_spec_decreases(y: Seq<char>, cs: Seq<ClauseModel>) {
    if cs.len() > 0 {
        lemma_chain_len_bounds(cs, 1);
    }
}

fn copy_text(s: &String) -> (r: String)
    ensures
        r@ == s@,
{
    s.clone()
}

fn copy_texts(v: &Vec<String>) -> (r: Vec<String>)
    ensures
        fragments_view(r@) == fragments_view(v@),
{
    let mut out: Vec<String> = Vec::new();
    let mut i: usize = 0;
    while i < v.len()
        invariant
            i <= v.len(),
            out@.len() == i,
            forall|j: int| 0 <= j < i ==> #[trigger] out@[j]@ == v@[j]@,
        decreases v.len() - i,
    {
        out.push(copy_text(&v[i]));
        i += 1;
    }
    assert(fragments_view(out@) =~= fragments_view(v@));
    out
}

/// The guard of an `if` or `if let` clause.
fn guard_from(c: &Clause) -> (r: Guard)
    requires
        !(c@ is ForIn),
    ensures
        r@ == guard_of(c@),
{
    match c {
        Clause::Filter { condition } => Guard::Test { condition: copy_text(condition) },
        Clause::Binder { patterns, source } => Guard::Match {
            patterns: copy_texts(patterns),
            source: copy_text(source),
        },
        Clause::ForIn { .. } => Guard::Test { condition: String::new() },
    }
}

fn lower_from(y: &String, cs: &Vec<Clause>, start: usize) -> (r: Pipeline)
    requires
        start < cs.len(),
        cs@[start as int]@ is ForIn,
    ensures
        r@ == lower_spec(y@, clauses_view(cs@).skip(start as int)),
    decreases cs.len() - start,
{
    let ghost sk = clauses_view(cs@).skip(start as int);
    let ghost k = chain_len(sk, 1);
    proof {
        lemma_chain_len_bounds(sk, 1);
    }
    let mut guards: Vec<Guard> = Vec::new();
    let mut end: usize = start + 1;
    while end < cs.len() && !(matches!(cs[end], Clause::ForIn { .. }))
        invariant
            start < end <= cs.len(),
            sk == clauses_view(cs@).skip(start as int),
            chain_len(sk, 1) == (end - start - 1) + chain_len(sk, end - start),
            guards@.len() == end - start - 1,
            forall|j: int| 0 <= j < guards@.len() ==> #[trigger] guards@[j]@ == guard_of(sk[j + 1]),
        decreases cs.len() - end,
    {
        assert(sk[end - start] == cs@[end as int]@);
        guards.push(guard_from(&cs[end]));
        end += 1;
    }
    assert(guards_view(guards@) =~= first_guards(sk));
    assert(chain_len(sk, end - start) == 0) by {
        if end < cs.len() {
            assert(sk[end - start] == cs@[end as int]@);
        }
    }
    let (pattern, source) = match &cs[start] {
        Clause::ForIn { pattern, source } => (copy_text(pattern), copy_text(source)),
        _ => (String::new(), String::new()),
    };
    assert(sk[0] == cs@[start as int]@);
    if end == cs.len() {
        if guards.len() == 0 {
            Pipeline::Transform { pattern, source, yield_expr: copy_text(y) }
        } else {
            Pipeline::FilterTransform { pattern, source, guards, yield_expr: copy_text(y) }
        }
    } else {
        let inner = lower_from(y, cs, end);
        assert(after_first(sk) =~= clauses_view(cs@).skip(end as int));
        if guards.len() == 0 {
            Pipeline::ExpandEach { pattern, source, inner: Box::new(inner) }
        } else {
            Pipeline::FilterExpand { pattern, source, guards, inner: Box::new(inner) }
        }
    }
}

/// Lowers a well-formed comprehension into its pipeline.
pub fn lower(c: &Comprehension) -> (r: Pipeline)
    requires
        c.wf(),
    ensures
        r@ == lower_spec(c@.yield_expr, c@.clauses),
{
    assert(clauses_view(c.clauses@)[0] == c.clauses@[0]@);
    let r = lower_from(&c.yield_expr, &c.clauses, 0);
    assert(clauses_view(c.clauses@).skip(0) =~= clauses_view(c.clauses@));
    r
}

} // verus!
