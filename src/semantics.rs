//! What a comprehension and its pipeline do when driven to completion.
//!
//! Expressions and patterns are opaque here as everywhere: a [`Host`] says
//! how the host language evaluates them in an environment of bound names.
//! Both forms are given as the log of [`Event`]s they cause, in order: which
//! fragment was evaluated in which environment, and which items came out.
//! - [`nested`] is the comprehension read as nested `for` loops and `if`s;
//! - [`run`] is a lowered pipeline driven to its end.
use vstd::prelude::*;
use crate::clause::ClauseModel;
use crate::lower::{GuardModel, PipelineModel};

verus! {

/// How the host language evaluates fragments. `E` is an environment of bound
/// names, `V` a value, `O` an output item.
#[verifier::reject_recursive_types(E)]
#[verifier::reject_recursive_types(V)]
pub struct Host<E, V, O> {
    /// The items that a `for` source yields in an environment, in order.
    pub items: spec_fn(E, Seq<char>) -> Seq<V>,
    /// The environment after an irrefutable pattern binds an item.
    pub bind: spec_fn(E, Seq<char>, V) -> E,
    /// Whether a condition holds in an environment.
    pub test: spec_fn(E, Seq<char>) -> bool,
    /// The value of an `if let` scrutinee in an environment.
    pub eval: spec_fn(E, Seq<char>) -> V,
    /// The environment after the first matching alternative binds a value,
    /// or `None` when no alternative matches.
    pub try_bind: spec_fn(E, Seq<Seq<char>>, V) -> Option<E>,
    /// The value of the yield expression in an environment.
    pub output: spec_fn(E, Seq<char>) -> O,
}

/// One step of evaluation.
pub enum Event<E, O> {
    /// A `for` source was evaluated.
    Source { expr: Seq<char>, env: E },
    /// A condition was evaluated.
    Test { expr: Seq<char>, env: E },
    /// The scrutinee of an `if let` was evaluated.
    Scrutinee { expr: Seq<char>, env: E },
    /// The yield expression was evaluated: an output item.
    Yield { item: O },
}

/// The clauses `cs` run as nested loops in `env`, yielding `y` innermost.
pub open spec fn nested<E, V, O>(
    h: Host<E, V, O>,
    env: E,
    cs: Seq<ClauseModel>,
    y: Seq<char>,
) -> Seq<Event<E, O>>
    decreases cs.len(), 0nat,
{
    if cs.len() == 0 {
        seq![Event::Yield { item: (h.output)(env, y) }]
    } else {
        let rest = cs.drop_first();
        match cs[0] {
            ClauseModel::ForIn { pattern, source } => seq![Event::Source { expr: source, env }]
                + nested_each(h, env, pattern, (h.items)(env, source), rest, y),
            ClauseModel::Filter { condition } => seq![Event::Test { expr: condition, env }] + if (
            h.test)(env, condition) {
                nested(h, env, rest, y)
            } else {
                Seq::empty()
            },
            ClauseModel::Binder { patterns, source } => seq![Event::Scrutinee { expr: source, env }]
                + match (h.try_bind)(env, patterns, (h.eval)(env, source)) {
                Some(e) => nested(h, e, rest, y),
                None => Seq::empty(),
            },
        }
    }
}

/// The body `rest` of a `for` loop over `its`, each item bound to `pattern`.
pub open spec fn nested_each<E, V, O>(
    h: Host<E, V, O>,
    env: E,
    pattern: Seq<char>,
    its: Seq<V>,
    rest: Seq<ClauseModel>,
    y: Seq<char>,
) -> Seq<Event<E, O>>
    decreases rest.len(), its.len(),
{
    if its.len() == 0 {
        Seq::empty()
    } else {
        nested(h, (h.bind)(env, pattern, its[0]), rest, y) + nested_each(
            h,
            env,
            pattern,
            its.drop_first(),
            rest,
            y,
        )
    }
}

/// The guards `gs` evaluated in order from `env`, stopping at the first that
/// fails: the log, and the environment they leave when all pass.
pub open spec fn guards_run<E, V, O>(
    h: Host<E, V, O>,
    env: E,
    gs: Seq<GuardModel>) -> (Seq<Event<E, O>>, Option<E>,
)
    decreases gs.len(),
{
    if gs.len() == 0 {
        (Seq::empty(), Some(env))
    } else {
        match gs[0] {
            GuardModel::Test { condition } => {
                let ev = Event::Test { expr: condition, env };
                if (h.test)(env, condition) {
                    let r = guards_run(h, env, gs.drop_first());
                    (seq![ev] + r.0, r.1)
                } else {
                    (seq![ev], None)
                }
            },
            GuardModel::Match { patterns, source } => {
                let ev = Event::Scrutinee { expr: source, env };
                match (h.try_bind)(env, patterns, (h.eval)(env, source)) {
                    Some(e) => {
                        let r = guards_run(h, e, gs.drop_first());
                        (seq![ev] + r.0, r.1)
                    },
                    None => (seq![ev], None),
                }
            },
        }
    }
}

/// How many stages a pipeline nests.
pub open spec fn height(p: PipelineModel) -> nat
    decreases p,
{
    match p {
        PipelineModel::ExpandEach { inner, .. } => 1 + height(*inner),
        PipelineModel::FilterExpand { inner, .. } => 1 + height(*inner),
        _ => 0,
    }
}

pub open spec fn stage_pattern(p: PipelineModel) -> Seq<char> {
    match p {
        PipelineModel::Transform { pattern, .. } => pattern,
        PipelineModel::FilterTransform { pattern, .. } => pattern,
        PipelineModel::ExpandEach { pattern, .. } => pattern,
        PipelineModel::FilterExpand { pattern, .. } => pattern,
    }
}

pub open spec fn stage_source(p: PipelineModel) -> Seq<char> {
    match p {
        PipelineModel::Transform { source, .. } => source,
        PipelineModel::FilterTransform { source, .. } => source,
        PipelineModel::ExpandEach { source, .. } => source,
        PipelineModel::FilterExpand { source, .. } => source,
    }
}

/// The guards of the first stage of `p`; none for a stage without any.
pub open spec fn stage_guards(p: PipelineModel) -> Seq<GuardModel> {
    match p {
        PipelineModel::FilterTransform { guards, .. } => guards,
        PipelineModel::FilterExpand { guards, .. } => guards,
        _ => Seq::empty(),
    }
}

/// The pipeline `p` created in `env` and driven to its end.
pub open spec fn run<E, V, O>(h: Host<E, V, O>, env: E, p: PipelineModel) -> Seq<Event<E, O>>
    decreases height(p), 1nat, 0nat,
{
    seq![Event::Source { expr: stage_source(p), env }] + run_each(
        h,
        env,
        p,
        (h.items)(env, stage_source(p)),
    )
}

/// The candidates `its` of the first stage of `p`, one after the other.
pub open spec fn run_each<E, V, O>(
    h: Host<E, V, O>,
    env: E,
    p: PipelineModel,
    its: Seq<V>,
) -> Seq<Event<E, O>>
    decreases height(p), 0nat, its.len(),
{
    if its.len() == 0 {
        Seq::empty()
    } else {
        candidate(h, env, p, its[0]) + run_each(h, env, p, its.drop_first())
    }
}

/// What the first stage of `p` does with one item of its source.
pub open spec fn candidate<E, V, O>(
    h: Host<E, V, O>,
    env: E,
    p: PipelineModel,
    item: V,
) -> Seq<Event<E, O>>
    decreases height(p), 0nat, 0nat,
{
    let e = (h.bind)(env, stage_pattern(p), item);
    match p {
        PipelineModel::Transform { yield_expr, .. } => seq![
            Event::Yield { item: (h.output)(e, yield_expr) },
        ],
        PipelineModel::FilterTransform { guards, yield_expr, .. } => {
            let r = guards_run(h, e, guards);
            r.0 + match r.1 {
                Some(e2) => seq![Event::Yield { item: (h.output)(e2, yield_expr) }],
                None => Seq::empty(),
            }
        },
        PipelineModel::ExpandEach { inner, .. } => run(h, e, *inner),
        PipelineModel::FilterExpand { guards, inner, .. } => {
            let r = guards_run(h, e, guards);
            r.0 + match r.1 {
                Some(e2) => run(h, e2, *inner),
                None => Seq::empty(),
            }
        },
    }
}

/// The output items of a log, in order.
pub open spec fn outputs<E, O>(ev: Seq<Event<E, O>>) -> Seq<O>
    decreases ev.len(),
{
    if ev.len() == 0 {
        Seq::empty()
    } else {
        outputs(ev.drop_last()) + match ev.last() {
            Event::Yield { item } => seq![item],
            _ => Seq::empty(),
        }
    }
}

} // verus!
