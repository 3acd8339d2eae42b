//! Laws of lowering, proved over the semantics of [`crate::semantics`].
use vstd::prelude::*;
use crate::clause::ClauseModel;
use crate::lower::{
    GuardModel, PipelineModel, after_first, chain_len, first_guards, guard_of,
    lemma_chain_len_bounds, lower_spec,
};
use crate::semantics::{
    Event, Host, candidate, guards_run, nested, nested_each, outputs, run, run_each, stage_guards,
    stage_pattern,
};

verus! {

/// The outputs of two logs one after the other are the outputs of each.
pub proof fn lemma_outputs_concat<E, O>(a: Seq<Event<E, O>>, b: Seq<Event<E, O>>)
    ensures
        outputs(a + b) == outputs(a) + outputs(b),
    decreases b.len(),
{
    if b.len() == 0 {
        assert(a + b =~= a);
        assert(outputs(a) + outputs(b) =~= outputs(a));
    } else {
        lemma_outputs_concat(a, b.drop_last());
        assert((a + b).drop_last() =~= a + b.drop_last());
        assert(outputs(a) + outputs(b) =~= outputs(a) + outputs(b.drop_last()) + match b.last() {
            Event::Yield { item } => seq![item],
            _ => Seq::empty(),
        });
    }
}

proof fn lemma_outputs_single<E, O>(ev: Event<E, O>)
    ensures
        outputs(seq![ev]) == match ev {
            Event::Yield { item } => seq![item],
            _ => Seq::<O>::empty(),
        },
{
    assert(seq![ev].drop_last() =~= Seq::<Event<E, O>>::empty());
    assert(outputs(Seq::<Event<E, O>>::empty()) + match ev {
        Event::Yield { item } => seq![item],
        _ => Seq::<O>::empty(),
    } =~= match ev {
        Event::Yield { item } => seq![item],
        _ => Seq::<O>::empty(),
    });
}

/// The clauses counted by `chain_len(cs, i)` are guards, and the clause after
/// them, if any, is a `for` clause.
proof fn lemma_chain_len_shape(cs: Seq<ClauseModel>, i: int)
    requires
        0 <= i <= cs.len(),
    ensures
        forall|j: int| i <= j < i + chain_len(cs, i) ==> !(#[trigger] cs[j] is ForIn),
        i + chain_len(cs, i) < cs.len() ==> cs[i + chain_len(cs, i)] is ForIn,
    decreases cs.len() - i,
{
    lemma_chain_len_bounds(cs, i);
    if i < cs.len() && !(cs[i] is ForIn) {
        lemma_chain_len_shape(cs, i + 1);
    }
}

/// Nested loops through `n` leading guard clauses of `t` are those guards
/// run as a chain, followed by the loops of what comes after them.
proof fn lemma_nested_guards<E, V, O>(
    h: Host<E, V, O>,
    e: E,
    t: Seq<ClauseModel>,
    n: int,
    y: Seq<char>,
)
    requires
        0 <= n <= t.len(),
        forall|j: int| 0 <= j < n ==> !(#[trigger] t[j] is ForIn),
    ensures
        ({
            let r = guards_run(h, e, t.take(n).map_values(|c: ClauseModel| guard_of(c)));
            nested(h, e, t, y) == r.0 + match r.1 {
                Some(e2) => nested(h, e2, t.skip(n), y),
                None => Seq::empty(),
            }
        }),
    decreases n,
{
    let gs = t.take(n).map_values(|c: ClauseModel| guard_of(c));
    if n == 0 {
        assert(gs =~= Seq::<GuardModel>::empty());
        assert(t.skip(0) =~= t);
        assert(Seq::<Event<E, O>>::empty() + nested(h, e, t, y) =~= nested(h, e, t, y));
    } else {
        let t1 = t.drop_first();
        assert(gs.drop_first() =~= t1.take(n - 1).map_values(|c: ClauseModel| guard_of(c)));
        assert(t1.skip(n - 1) =~= t.skip(n));
        assert(gs[0] == guard_of(t[0]));
        assert(!(t[0] is ForIn));
        match t[0] {
            ClauseModel::Filter { condition } => {
                if (h.test)(e, condition) {
                    lemma_nested_guards(h, e, t1, n - 1, y);
                    let r1 = guards_run(h, e, gs.drop_first());
                    let tail = match r1.1 {
                        Some(e2) => nested(h, e2, t.skip(n), y),
                        None => Seq::empty(),
                    };
                    assert(seq![Event::Test { expr: condition, env: e }] + (r1.0 + tail) =~= (
                    seq![Event::Test { expr: condition, env: e }] + r1.0) + tail);
                } else {
                    assert(seq![Event::<E, O>::Test { expr: condition, env: e }] + Seq::empty()
                        =~= seq![Event::<E, O>::Test { expr: condition, env: e }]);
                }
            },
            ClauseModel::Binder { patterns, source } => {
                match (h.try_bind)(e, patterns, (h.eval)(e, source)) {
                    Some(e1) => {
                        lemma_nested_guards(h, e1, t1, n - 1, y);
                        let r1 = guards_run(h, e1, gs.drop_first());
                        let tail = match r1.1 {
                            Some(e2) => nested(h, e2, t.skip(n), y),
                            None => Seq::empty(),
                        };
                        assert(seq![Event::Scrutinee { expr: source, env: e }] + (r1.0 + tail) =~= (
                        seq![Event::Scrutinee { expr: source, env: e }] + r1.0) + tail);
                    },
                    None => {
                        assert(seq![Event::<E, O>::Scrutinee { expr: source, env: e }]
                            + Seq::empty() =~= seq![
                            Event::<E, O>::Scrutinee { expr: source, env: e },
                        ]);
                    },
                }
            },
            ClauseModel::ForIn { .. } => {},
        }
    }
}

/// What the first stage of the lowered `cs` does with one item is the body
/// of the outermost loop of `cs` for that item.
proof fn lemma_candidate<E, V, O>(
    h: Host<E, V, O>,
    env: E,
    cs: Seq<ClauseModel>,
    y: Seq<char>,
    item: V,
)
    requires
        cs.len() >= 1,
        cs[0] is ForIn,
        after_first(cs).len() > 0 ==> forall|e: E|
            run(h, e, lower_spec(y, after_first(cs))) == #[trigger] nested(
                h,
                e,
                after_first(cs),
                y,
            ),
    ensures
        candidate(h, env, lower_spec(y, cs), item) == nested(
            h,
            (h.bind)(env, cs[0]->ForIn_pattern, item),
            cs.drop_first(),
            y,
        ),
{
    let t = cs.drop_first();
    let k = chain_len(cs, 1);
    lemma_chain_len_bounds(cs, 1);
    lemma_chain_len_shape(cs, 1);
    assert forall|j: int| 0 <= j < k implies !(#[trigger] t[j] is ForIn) by {
        assert(t[j] == cs[j + 1]);
    }
    let e = (h.bind)(env, cs[0]->ForIn_pattern, item);
    lemma_nested_guards(h, e, t, k, y);
    assert(first_guards(cs) =~= t.take(k).map_values(|c: ClauseModel| guard_of(c)));
    assert(after_first(cs) =~= t.skip(k));
    let gs = first_guards(cs);
    let rest = after_first(cs);
    let r = guards_run(h, e, gs);
    if rest.len() == 0 {
        if gs.len() == 0 {
            assert(t =~= Seq::<ClauseModel>::empty());
        } else {
            match r.1 {
                Some(e2) => {},
                None => {},
            }
        }
    } else {
        if gs.len() == 0 {
            assert(t =~= rest);
        } else {
            match r.1 {
                Some(e2) => {
                    assert(nested(h, e2, rest, y) == run(h, e2, lower_spec(y, rest)));
                },
                None => {},
            }
        }
    }
}

proof fn lemma_each<E, V, O>(
    h: Host<E, V, O>,
    env: E,
    cs: Seq<ClauseModel>,
    y: Seq<char>,
    its: Seq<V>,
)
    requires
        cs.len() >= 1,
        cs[0] is ForIn,
        after_first(cs).len() > 0 ==> forall|e: E|
            run(h, e, lower_spec(y, after_first(cs))) == #[trigger] nested(
                h,
                e,
                after_first(cs),
                y,
            ),
    ensures
        run_each(h, env, lower_spec(y, cs), its) == nested_each(
            h,
            env,
            cs[0]->ForIn_pattern,
            its,
            cs.drop_first(),
            y,
        ),
    decreases its.len(),
{
    if its.len() > 0 {
        lemma_candidate(h, env, cs, y, its[0]);
        lemma_each(h, env, cs, y, its.drop_first());
    }
}

/// Equivalence: a lowered pipeline, driven to its end, evaluates the same
/// fragments in the same environments and in the same order, and yields the
/// same items in the same order, as the nested loops and `if`s that its
/// clauses spell out; guards short-circuit alike.
pub proof fn law_pipeline_equals_nested_loops<E, V, O>(
    h: Host<E, V, O>,
    env: E,
    cs: Seq<ClauseModel>,
    y: Seq<char>,
)
    requires
        cs.len() >= 1,
        cs[0] is ForIn,
    ensures
        run(h, env, lower_spec(y, cs)) == nested(h, env, cs, y),
        outputs(run(h, env, lower_spec(y, cs))) == outputs(nested(h, env, cs, y)),
    decreases cs.len(),
{
    lemma_chain_len_bounds(cs, 1);
    lemma_chain_len_shape(cs, 1);
    let rest = after_first(cs);
    if rest.len() > 0 {
        assert(rest[0] == cs[1 + chain_len(cs, 1)]);
        assert forall|e: E| run(h, e, lower_spec(y, rest)) == #[trigger] nested(h, e, rest, y) by {
            law_pipeline_equals_nested_loops(h, e, rest, y);
        }
    }
    let p = lower_spec(y, cs);
    lemma_each(h, env, cs, y, (h.items)(env, cs[0]->ForIn_source));
}

proof fn lemma_each_quiet<E, V, O>(
    h: Host<E, V, O>,
    env: E,
    pattern: Seq<char>,
    its: Seq<V>,
    rest: Seq<ClauseModel>,
    y: Seq<char>,
)
    requires
        forall|e: E| outputs(#[trigger] nested(h, e, rest, y)) == Seq::<O>::empty(),
    ensures
        outputs(nested_each(h, env, pattern, its, rest, y)) == Seq::<O>::empty(),
    decreases its.len(),
{
    if its.len() > 0 {
        let e = (h.bind)(env, pattern, its[0]);
        lemma_each_quiet(h, env, pattern, its.drop_first(), rest, y);
        lemma_outputs_concat(
            nested(h, e, rest, y),
            nested_each(h, env, pattern, its.drop_first(), rest, y),
        );
        assert(outputs(nested(h, e, rest, y)) == Seq::<O>::empty());
        assert(Seq::<O>::empty() + Seq::<O>::empty() =~= Seq::<O>::empty());
    }
}

proof fn lemma_nested_quiet<E, V, O>(
    h: Host<E, V, O>,
    env: E,
    cs: Seq<ClauseModel>,
    y: Seq<char>,
    k: int,
)
    requires
        0 <= k < cs.len(),
        cs[k] is ForIn,
        forall|e: E| (#[trigger] (h.items)(e, cs[k]->ForIn_source)).len() == 0,
    ensures
        outputs(nested(h, env, cs, y)) == Seq::<O>::empty(),
    decreases cs.len(),
{
    let rest = cs.drop_first();
    let first = nested(h, env, cs, y)[0];
    if k > 0 {
        assert(rest[k - 1] == cs[k]);
        assert forall|e: E| outputs(#[trigger] nested(h, e, rest, y)) == Seq::<O>::empty() by {
            lemma_nested_quiet(h, e, rest, y, k - 1);
        }
    }
    match cs[0] {
        ClauseModel::ForIn { pattern, source } => {
            let its = (h.items)(env, source);
            if k == 0 {
                assert(its.len() == 0);
                assert(nested_each(h, env, pattern, its, rest, y) == Seq::<Event<E, O>>::empty());
            } else {
                lemma_each_quiet(h, env, pattern, its, rest, y);
            }
            lemma_outputs_single(first);
            lemma_outputs_concat(seq![first], nested_each(h, env, pattern, its, rest, y));
            if k == 0 {
                assert(outputs(Seq::<Event<E, O>>::empty()) == Seq::<O>::empty());
            }
        },
        ClauseModel::Filter { condition } => {
            let tail = if (h.test)(env, condition) {
                nested(h, env, rest, y)
            } else {
                Seq::empty()
            };
            lemma_outputs_single(first);
            lemma_outputs_concat(seq![first], tail);
            assert(outputs(Seq::<Event<E, O>>::empty()) == Seq::<O>::empty());
        },
        ClauseModel::Binder { patterns, source } => {
            let tail = match (h.try_bind)(env, patterns, (h.eval)(env, source)) {
                Some(e) => nested(h, e, rest, y),
                None => Seq::empty(),
            };
            lemma_outputs_single(first);
            lemma_outputs_concat(seq![first], tail);
            assert(outputs(Seq::<Event<E, O>>::empty()) == Seq::<O>::empty());
        },
    }
}

/// Emptiness: when the source of any `for` clause, at any level, is empty in
/// every environment, the pipeline yields nothing, whatever the other levels
/// hold.
pub proof fn law_empty_source_yields_nothing<E, V, O>(
    h: Host<E, V, O>,
    env: E,
    cs: Seq<ClauseModel>,
    y: Seq<char>,
    k: int,
)
    requires
        cs.len() >= 1,
        cs[0] is ForIn,
        0 <= k < cs.len(),
        cs[k] is ForIn,
        forall|e: E| (#[trigger] (h.items)(e, cs[k]->ForIn_source)).len() == 0,
    ensures
        outputs(run(h, env, lower_spec(y, cs))) == Seq::<O>::empty(),
{
    law_pipeline_equals_nested_loops(h, env, cs, y);
    lemma_nested_quiet(h, env, cs, y, k);
}

/// The log of a guard chain holds no output item.
proof fn lemma_guards_quiet<E, V, O>(h: Host<E, V, O>, e: E, gs: Seq<GuardModel>)
    ensures
        outputs(guards_run(h, e, gs).0) == Seq::<O>::empty(),
    decreases gs.len(),
{
    if gs.len() > 0 {
        let r = guards_run(h, e, gs);
        let first = r.0[0];
        match gs[0] {
            GuardModel::Test { condition } => {
                if (h.test)(e, condition) {
                    lemma_guards_quiet(h, e, gs.drop_first());
                    lemma_outputs_concat(seq![first], guards_run(h, e, gs.drop_first()).0);
                }
            },
            GuardModel::Match { patterns, source } => {
                match (h.try_bind)(e, patterns, (h.eval)(e, source)) {
                    Some(e1) => {
                        lemma_guards_quiet(h, e1, gs.drop_first());
                        lemma_outputs_concat(seq![first], guards_run(h, e1, gs.drop_first()).0);
                    },
                    None => {},
                }
            },
        }
        lemma_outputs_single(first);
        assert(Seq::<O>::empty() + Seq::<O>::empty() =~= Seq::<O>::empty());
    }
}

/// Short circuit in a guard chain: when the guards before position `j` pass
/// and the guard at `j` fails, the chain rejects the candidate having
/// evaluated exactly those `j + 1` guards; no later guard is evaluated.
pub proof fn law_guard_chain_short_circuits<E, V, O>(
    h: Host<E, V, O>,
    e: E,
    gs: Seq<GuardModel>,
    j: int,
)
    requires
        0 <= j < gs.len(),
        guards_run(h, e, gs.take(j)).1 is Some,
        guards_run(h, e, gs.take(j + 1)).1 is None,
    ensures
        guards_run(h, e, gs) == guards_run(h, e, gs.take(j + 1)),
        guards_run(h, e, gs).0.len() == j + 1,
        guards_run(h, e, gs).1 is None,
    decreases j,
{
    let g1 = gs.take(j + 1);
    assert(g1[0] == gs[0]);
    assert(g1.drop_first() =~= gs.drop_first().take(j));
    if j > 0 {
        let g0 = gs.take(j);
        assert(g0[0] == gs[0]);
        assert(g0.drop_first() =~= gs.drop_first().take(j - 1));
        match gs[0] {
            GuardModel::Test { condition } => {
                let ev = Event::<E, O>::Test { expr: condition, env: e };
                assert((h.test)(e, condition));
                law_guard_chain_short_circuits(h, e, gs.drop_first(), j - 1);
                let r = guards_run(h, e, gs.drop_first());
                assert(guards_run(h, e, gs) == (seq![ev] + r.0, r.1));
                assert(guards_run(h, e, g1) == (seq![ev] + r.0, r.1));
            },
            GuardModel::Match { patterns, source } => {
                let ev = Event::<E, O>::Scrutinee { expr: source, env: e };
                assert((h.try_bind)(e, patterns, (h.eval)(e, source)) is Some);
                let e1 = (h.try_bind)(e, patterns, (h.eval)(e, source))->Some_0;
                law_guard_chain_short_circuits(h, e1, gs.drop_first(), j - 1);
                let r = guards_run(h, e1, gs.drop_first());
                assert(guards_run(h, e, gs) == (seq![ev] + r.0, r.1));
                assert(guards_run(h, e, g1) == (seq![ev] + r.0, r.1));
            },
        }
    } else {
        assert(g1.drop_first() =~= Seq::<GuardModel>::empty());
        assert(guards_run(h, e, Seq::<GuardModel>::empty()).1 is Some);
        match gs[0] {
            GuardModel::Test { condition } => {
                assert(!(h.test)(e, condition));
            },
            GuardModel::Match { patterns, source } => {
                if let Some(e1) = (h.try_bind)(e, patterns, (h.eval)(e, source)) {
                    assert(guards_run(h, e1, Seq::<GuardModel>::empty()).1 is Some);
                }
            },
        }
    }
}

/// Short circuit across levels: when the guards of a stage reject a
/// candidate, all that the candidate causes is the evaluation of those
/// guards. Neither the yield expression nor any part of the nested pipeline
/// is evaluated for it, and it yields nothing.
pub proof fn law_rejected_candidate_goes_no_further<E, V, O>(
    h: Host<E, V, O>,
    env: E,
    p: PipelineModel,
    item: V,
)
    requires
        p is FilterTransform || p is FilterExpand,
        guards_run(
            h,
            (h.bind)(env, stage_pattern(p), item),
            stage_guards(p),
        ).1 is None,
    ensures
        candidate(h, env, p, item) == guards_run(
            h,
            (h.bind)(env, stage_pattern(p), item),
            stage_guards(p),
        ).0,
        outputs(candidate(h, env, p, item)) == Seq::<O>::empty(),
{
    let e = (h.bind)(env, stage_pattern(p), item);
    let r = guards_run(h, e, stage_guards(p));
    assert(r.0 + Seq::<Event<E, O>>::empty() =~= r.0);
    lemma_guards_quiet(h, e, stage_guards(p));
}

/// An `if let` that does not match skips the candidate exactly as an `if`
/// whose condition is false: swapping the one guard for the other at the
/// point of failure changes only that guard's own entry in the log. Both
/// chains reject, neither evaluates a later guard, and the entries before it
/// agree.
pub proof fn law_failed_match_skips_like_false_test<E, V, O>(
    h: Host<E, V, O>,
    e: E,
    gs: Seq<GuardModel>,
    j: int,
    condition: Seq<char>,
)
    requires
        0 <= j < gs.len(),
        gs[j] is Match,
        guards_run(h, e, gs.take(j)).1 is Some,
        ({
            let ej = guards_run(h, e, gs.take(j)).1->Some_0;
            (h.try_bind)(ej, gs[j]->Match_patterns, (h.eval)(ej, gs[j]->Match_source)) is None
                && !(h.test)(ej, condition)
        }),
    ensures
        ({
            let swapped = gs.update(j, GuardModel::Test { condition });
            &&& guards_run(h, e, gs).1 is None
            &&& guards_run(h, e, swapped).1 is None
            &&& guards_run(h, e, gs).0.len() == j + 1
            &&& guards_run(h, e, swapped).0.len() == j + 1
            &&& guards_run(h, e, gs).0.take(j) == guards_run(h, e, swapped).0.take(j)
        }),
    decreases j,
{
    let swapped = gs.update(j, GuardModel::Test { condition });
    assert(swapped.take(j) =~= gs.take(j));
    if j > 0 {
        let g0 = gs.take(j);
        assert(g0[0] == gs[0]);
        assert(swapped[0] == gs[0]);
        assert(g0.drop_first() =~= gs.drop_first().take(j - 1));
        assert(swapped.drop_first() =~= gs.drop_first().update(
            j - 1,
            GuardModel::Test { condition },
        ));
        let e1 = match gs[0] {
            GuardModel::Test { condition: c0 } => e,
            GuardModel::Match { patterns, source } => {
                (h.try_bind)(e, patterns, (h.eval)(e, source))->Some_0
            },
        };
        law_failed_match_skips_like_false_test(h, e1, gs.drop_first(), j - 1, condition);
        let a = guards_run(h, e1, gs.drop_first()).0;
        let b = guards_run(h, e1, swapped.drop_first()).0;
        let ev = guards_run(h, e, gs).0[0];
        assert(guards_run(h, e, gs).0 == seq![ev] + a);
        assert(guards_run(h, e, swapped).0 == seq![ev] + b);
        assert((seq![ev] + a).take(j) =~= seq![ev] + a.take(j - 1));
        assert((seq![ev] + b).take(j) =~= seq![ev] + b.take(j - 1));
    } else {
        assert(gs.take(0) =~= Seq::<GuardModel>::empty());
    }
}

proof fn lemma_block_index(i: int, q: int, r: int, n: int)
    requires
        0 <= i < n,
        0 <= r < q,
    ensures
        0 <= i * q + r < n * q,
        i > 0 ==> i * q + r - q == (i - 1) * q + r,
        i > 0 ==> i * q + r >= q,
{
    assert(0 <= i * q + r < n * q) by (nonlinear_arith)
        requires
            0 <= i < n,
            0 <= r < q,
    ;
    assert(i * q - q == (i - 1) * q) by (nonlinear_arith);
    assert(i > 0 ==> i * q >= q) by (nonlinear_arith)
        requires
            0 <= r < q,
            0 <= i,
    ;
}

/// A `for` loop over `its` whose body yields `q` items in every environment
/// yields `q` items per item of `its`, in blocks, in the order of `its`.
proof fn lemma_each_blocks<E, V, O>(
    h: Host<E, V, O>,
    env: E,
    pattern: Seq<char>,
    its: Seq<V>,
    rest: Seq<ClauseModel>,
    y: Seq<char>,
    q: int,
)
    requires
        0 <= q,
        forall|e: E| (#[trigger] outputs(nested(h, e, rest, y))).len() == q,
    ensures
        outputs(nested_each(h, env, pattern, its, rest, y)).len() == its.len() * q,
        forall|i: int, r: int|
            0 <= i < its.len() && 0 <= r < q ==> #[trigger] outputs(
                nested_each(h, env, pattern, its, rest, y),
            )[i * q + r] == outputs(nested(h, (h.bind)(env, pattern, its[i]), rest, y))[r],
    decreases its.len(),
{
    if its.len() == 0 {
        assert(outputs(Seq::<Event<E, O>>::empty()) == Seq::<O>::empty());
    } else {
        let t = its.drop_first();
        let a = nested(h, (h.bind)(env, pattern, its[0]), rest, y);
        let b = nested_each(h, env, pattern, t, rest, y);
        lemma_each_blocks(h, env, pattern, t, rest, y, q);
        lemma_outputs_concat(a, b);
        assert(nested_each(h, env, pattern, its, rest, y) == a + b);
        let oa = outputs(a);
        let ob = outputs(b);
        assert(oa.len() == q);
        assert(its.len() * q == q + t.len() * q) by (nonlinear_arith)
            requires
                its.len() == t.len() + 1,
        ;
        assert forall|i: int, r: int| 0 <= i < its.len() && 0 <= r < q implies #[trigger] outputs(
            nested_each(h, env, pattern, its, rest, y),
        )[i * q + r] == outputs(nested(h, (h.bind)(env, pattern, its[i]), rest, y))[r] by {
            lemma_block_index(i, q, r, its.len() as int);
            if i > 0 {
                lemma_block_index(i - 1, q, r, t.len() as int);
                assert(t[i - 1] == its[i]);
                assert(ob[(i - 1) * q + r] == outputs(
                    nested(h, (h.bind)(env, pattern, t[i - 1]), rest, y),
                )[r]);
                assert((oa + ob)[i * q + r] == ob[i * q + r - q]);
            } else {
                assert(i * q + r == r) by (nonlinear_arith)
                    requires
                        i == 0,
                ;
                assert((oa + ob)[r] == oa[r]);
            }
        }
    }
}

/// The same for a whole `for` clause: its log starts with the evaluation of
/// the source, which yields nothing.
proof fn lemma_for_blocks<E, V, O>(
    h: Host<E, V, O>,
    env: E,
    cs: Seq<ClauseModel>,
    y: Seq<char>,
    q: int,
)
    requires
        0 <= q,
        cs.len() >= 1,
        cs[0] is ForIn,
        forall|e: E| (#[trigger] outputs(nested(h, e, cs.drop_first(), y))).len() == q,
    ensures
        ({
            let its = (h.items)(env, cs[0]->ForIn_source);
            &&& outputs(nested(h, env, cs, y)).len() == its.len() * q
            &&& forall|i: int, r: int|
                0 <= i < its.len() && 0 <= r < q ==> #[trigger] outputs(nested(h, env, cs, y))[i * q
                    + r] == outputs(
                    nested(h, (h.bind)(env, cs[0]->ForIn_pattern, its[i]), cs.drop_first(), y),
                )[r]
        }),
{
    let its = (h.items)(env, cs[0]->ForIn_source);
    let pattern = cs[0]->ForIn_pattern;
    let body = nested_each(h, env, pattern, its, cs.drop_first(), y);
    let first = nested(h, env, cs, y)[0];
    lemma_each_blocks(h, env, pattern, its, cs.drop_first(), y, q);
    lemma_outputs_single(first);
    lemma_outputs_concat(seq![first], body);
    assert(outputs(nested(h, env, cs, y)) =~= outputs(body));
}

/// Flattening: three `for` levels over sources that hold `m`, `n` and `p`
/// items in every environment yield exactly `m * n * p` items, in nested
/// order: the item for the `i`-th outer, `j`-th middle and `k`-th inner item
/// stands at position `(i * n + j) * p + k`.
pub proof fn law_three_levels_flatten<E, V, O>(
    h: Host<E, V, O>,
    env: E,
    pattern1: Seq<char>,
    source1: Seq<char>,
    pattern2: Seq<char>,
    source2: Seq<char>,
    pattern3: Seq<char>,
    source3: Seq<char>,
    y: Seq<char>,
    m: nat,
    n: nat,
    p: nat,
)
    requires
        forall|e: E| (#[trigger] (h.items)(e, source1)).len() == m,
        forall|e: E| (#[trigger] (h.items)(e, source2)).len() == n,
        forall|e: E| (#[trigger] (h.items)(e, source3)).len() == p,
    ensures
        ({
            let cs = seq![
                ClauseModel::ForIn { pattern: pattern1, source: source1 },
                ClauseModel::ForIn { pattern: pattern2, source: source2 },
                ClauseModel::ForIn { pattern: pattern3, source: source3 },
            ];
            let out = outputs(run(h, env, lower_spec(y, cs)));
            &&& out.len() == m * n * p
            &&& forall|i: int, j: int, k: int|
                0 <= i < m && 0 <= j < n && 0 <= k < p ==> {
                    let e1 = (h.bind)(env, pattern1, (h.items)(env, source1)[i]);
                    let e2 = (h.bind)(e1, pattern2, (h.items)(e1, source2)[j]);
                    let e3 = (h.bind)(e2, pattern3, (h.items)(e2, source3)[k]);
                    #[trigger] out[(i * n + j) * p + k] == (h.output)(e3, y)
                }
        }),
{
    let c3 = seq![ClauseModel::ForIn { pattern: pattern3, source: source3 }];
    let c23 = seq![ClauseModel::ForIn { pattern: pattern2, source: source2 }].add(c3);
    let cs = seq![ClauseModel::ForIn { pattern: pattern1, source: source1 }].add(c23);
    assert(cs =~= seq![
        ClauseModel::ForIn { pattern: pattern1, source: source1 },
        ClauseModel::ForIn { pattern: pattern2, source: source2 },
        ClauseModel::ForIn { pattern: pattern3, source: source3 },
    ]);
    assert(cs.drop_first() =~= c23);
    assert(c23.drop_first() =~= c3);
    assert(c3.drop_first() =~= Seq::<ClauseModel>::empty());
    assert forall|e: E| (#[trigger] outputs(nested(h, e, c3.drop_first(), y))).len() == 1 by {
        lemma_outputs_single(Event::<E, O>::Yield { item: (h.output)(e, y) });
    }
    assert forall|e: E| (#[trigger] outputs(nested(h, e, c23.drop_first(), y))).len() == p by {
        lemma_for_blocks(h, e, c3, y, 1);
    }
    assert forall|e: E| (#[trigger] outputs(nested(h, e, cs.drop_first(), y))).len() == n * p by {
        lemma_for_blocks(h, e, c23, y, p as int);
        assert(n * p >= 0) by (nonlinear_arith);
    }
    assert(n * p >= 0) by (nonlinear_arith);
    lemma_for_blocks(h, env, cs, y, (n * p) as int);
    law_pipeline_equals_nested_loops(h, env, cs, y);
    let out = outputs(run(h, env, lower_spec(y, cs)));
    assert(m * (n * p) == m * n * p) by (nonlinear_arith);
    assert forall|i: int, j: int, k: int| 0 <= i < m && 0 <= j < n && 0 <= k < p implies {
        let e1 = (h.bind)(env, pattern1, (h.items)(env, source1)[i]);
        let e2 = (h.bind)(e1, pattern2, (h.items)(e1, source2)[j]);
        let e3 = (h.bind)(e2, pattern3, (h.items)(e2, source3)[k]);
        #[trigger] out[(i * n + j) * p + k] == (h.output)(e3, y)
    } by {
        let e1 = (h.bind)(env, pattern1, (h.items)(env, source1)[i]);
        let e2 = (h.bind)(e1, pattern2, (h.items)(e1, source2)[j]);
        let e3 = (h.bind)(e2, pattern3, (h.items)(e2, source3)[k]);
        assert((i * n + j) * p + k == i * (n * p) + (j * p + k)) by (nonlinear_arith);
        lemma_block_index(j, p as int, k, n as int);
        lemma_for_blocks(h, e1, c23, y, p as int);
        lemma_for_blocks(h, e2, c3, y, 1);
        lemma_outputs_single(Event::<E, O>::Yield { item: (h.output)(e3, y) });
        assert(outputs(nested(h, e2, c3, y))[k * 1 + 0] == outputs(
            nested(h, e3, c3.drop_first(), y),
        )[0]);
        assert(k * 1 + 0 == k);
        assert(outputs(nested(h, e1, c23, y))[j * p + k] == outputs(
            nested(h, e2, c23.drop_first(), y),
        )[k]);
        assert(out[i * (n * p) + (j * p + k)] == outputs(
            nested(h, e1, cs.drop_first(), y),
        )[j * p + k]);
    }
}

} // verus!
