//! Writing a pipeline out as Rust source.
//!
//! Each stage binds its source once, checks it with
//! `__py_comp_assert_impl_into_iter`, and chains the iterator adapters of its
//! case. Guards become nested `if` / `if let` expressions that yield `None` as
//! soon as one fails.
use vstd::prelude::*;
use crate::clause::fragments_view;
use crate::lower::{Guard, GuardModel, Pipeline, PipelineModel, guards_view, lower, lower_spec};
use crate::parse::{ParseError, parse, parse_spec};
use crate::text::{chars_of, string_of};
use vstd::seq_lib::lemma_concat_associative;

verus! {

/// The start of every stage: bind the source, check it, start iterating.
pub open spec fn stage_head(source: Seq<char>) -> Seq<char> {
    "{ let into_iterator = "@ + source
        + "; ::py_comp::__py_comp_assert_impl_into_iter(&into_iterator); into_iterator.into_iter()"@
}

/// The alternatives of an `if let`, separated by ` | `.
pub open spec fn alternatives(ps: Seq<Seq<char>>) -> Seq<char>
    decreases ps.len(),
{
    if ps.len() == 0 {
        Seq::empty()
    } else if ps.len() == 1 {
        ps[0]
    } else {
        alternatives(ps.drop_last()) + " | "@ + ps.last()
    }
}

/// The opening of the `if` that a guard becomes.
pub open spec fn guard_open(g: GuardModel) -> Seq<char> {
    match g {
        GuardModel::Test { condition } => "if "@ + condition + " { "@,
        GuardModel::Match { patterns, source } => "if let "@ + alternatives(patterns) + " = "@
            + source + " { "@,
    }
}

pub open spec fn guard_close() -> Seq<char> {
    " } else { None }"@
}

/// The openings of the guards `gs`, outermost first.
pub open spec fn guard_opens(gs: Seq<GuardModel>) -> Seq<char>
    decreases gs.len(),
{
    if gs.len() == 0 {
        Seq::empty()
    } else {
        guard_opens(gs.drop_last()) + guard_open(gs.last())
    }
}

/// `n` closings of a guard.
pub open spec fn guard_closes(n: nat) -> Seq<char>
    decreases n,
{
    if n == 0 {
        Seq::empty()
    } else {
        guard_closes((n - 1) as nat) + guard_close()
    }
}

/// `body`, evaluated only when every guard of `gs` passes, in order.
pub open spec fn guarded(gs: Seq<GuardModel>, body: Seq<char>) -> Seq<char> {
    guard_opens(gs) + body + guard_closes(gs.len())
}

pub open spec fn some_of(body: Seq<char>) -> Seq<char> {
    "Some("@ + body + ")"@
}

/// The Rust source of the pipeline `p`.
pub open spec fn code(p: PipelineModel) -> Seq<char>
    decreases p,
{
    match p {
        PipelineModel::Transform { pattern, source, yield_expr } => stage_head(source)
            + ".map(move |"@ + pattern + "| "@ + yield_expr + ") }"@,
        PipelineModel::FilterTransform { pattern, source, guards, yield_expr } => stage_head(source)
            + ".filter_map(move |"@ + pattern + "| "@ + guarded(guards, some_of(yield_expr))
            + ") }"@,
        PipelineModel::ExpandEach { pattern, source, inner } => stage_head(source)
            + ".flat_map(move |"@ + pattern + "| "@ + code(*inner) + ") }"@,
        PipelineModel::FilterExpand { pattern, source, guards, inner } => stage_head(source)
            + ".filter_map(move |"@ + pattern + "| "@ + guarded(guards, some_of(code(*inner)))
            + ").flatten() }"@,
    }
}

fn push_chars(out: &mut Vec<char>, cs: &Vec<char>)
    ensures
        final(out)@ == old(out)@ + cs@,
{
    let ghost start = out@;
    let mut i: usize = 0;
    while i < cs.len()
        invariant
            i <= cs.len(),
            out@ == start + cs@.take(i as int),
        decreases cs.len() - i,
    {
        out.push(cs[i]);
        i += 1;
        assert(out@ =~= start + cs@.take(i as int));
    }
    assert(cs@.take(cs.len() as int) =~= cs@);
}

/// Appends `s` to `out`, which holds `start` followed by `done`.
fn push_str(
    out: &mut Vec<char>,
    s: &str,
    Ghost(start): Ghost<Seq<char>>,
    Ghost(done): Ghost<Seq<char>>,
)
    requires
        old(out)@ == start + done,
    ensures
        final(out)@ == start + (done + s@),
{
    let cs = chars_of(s);
    push_chars(out, &cs);
    proof {
        lemma_concat_associative(start, done, s@);
    }
}

fn push_text(
    out: &mut Vec<char>,
    s: &String,
    Ghost(start): Ghost<Seq<char>>,
    Ghost(done): Ghost<Seq<char>>,
)
    requires
        old(out)@ == start + done,
    ensures
        final(out)@ == start + (done + s@),
{
    push_str(out, s.as_str(), Ghost(start), Ghost(done));
}

fn push_alternatives(
    out: &mut Vec<char>,
    ps: &Vec<String>,
    Ghost(start): Ghost<Seq<char>>,
    Ghost(done): Ghost<Seq<char>>,
)
    requires
        old(out)@ == start + done,
    ensures
        final(out)@ == start + (done + alternatives(fragments_view(ps@))),
{
    let ghost all = fragments_view(ps@);
    let mut i: usize = 0;
    assert(all.take(0) =~= Seq::<Seq<char>>::empty());
    assert(done + alternatives(all.take(0)) =~= done);
    while i < ps.len()
        invariant
            i <= ps.len(),
            all == fragments_view(ps@),
            out@ == start + (done + alternatives(all.take(i as int))),
        decreases ps.len() - i,
    {
        let ghost before = done + alternatives(all.take(i as int));
        assert(all.take(i + 1).drop_last() =~= all.take(i as int));
        assert(all.take(i + 1).last() == ps@[i as int]@);
        if i > 0 {
            push_str(out, " | ", Ghost(start), Ghost(before));
            push_text(out, &ps[i], Ghost(start), Ghost(before + " | "@));
            proof {
                lemma_concat_associative(
                    done,
                    alternatives(all.take(i as int)) + " | "@,
                    ps@[i as int]@,
                );
                lemma_concat_associative(done, alternatives(all.take(i as int)), " | "@);
            }
        } else {
            push_text(out, &ps[i], Ghost(start), Ghost(before));
            assert(alternatives(all.take(1)) == ps@[0]@);
            assert(alternatives(all.take(0)) =~= Seq::<char>::empty());
        }
        i += 1;
    }
    assert(all.take(ps.len() as int) =~= all);
}

fn push_guard_open(
    out: &mut Vec<char>,
    g: &Guard,
    Ghost(start): Ghost<Seq<char>>,
    Ghost(done): Ghost<Seq<char>>,
)
    requires
        old(out)@ == start + done,
    ensures
        final(out)@ == start + (done + guard_open(g@)),
{
    match g {
        Guard::Test { condition } => {
            let ghost d1 = "if "@;
            let ghost d2 = d1 + condition@;
            push_str(out, "if ", Ghost(start), Ghost(done));
            push_text(out, condition, Ghost(start), Ghost(done + d1));
            push_str(out, " { ", Ghost(start), Ghost(done + d1 + condition@));
            proof {
                lemma_concat_associative(done, d1, condition@);
                lemma_concat_associative(done, d2, " { "@);
            }
        },
        Guard::Match { patterns, source } => {
            let ghost alts = alternatives(fragments_view(patterns@));
            let ghost d1 = "if let "@;
            let ghost d2 = d1 + alts;
            let ghost d3 = d2 + " = "@;
            let ghost d4 = d3 + source@;
            push_str(out, "if let ", Ghost(start), Ghost(done));
            push_alternatives(out, patterns, Ghost(start), Ghost(done + d1));
            proof {
                lemma_concat_associative(done, d1, alts);
            }
            push_str(out, " = ", Ghost(start), Ghost(done + d2));
            proof {
                lemma_concat_associative(done, d2, " = "@);
            }
            push_text(out, source, Ghost(start), Ghost(done + d3));
            proof {
                lemma_concat_associative(done, d3, source@);
            }
            push_str(out, " { ", Ghost(start), Ghost(done + d4));
            proof {
                lemma_concat_associative(done, d4, " { "@);
            }
        },
    }
}

fn push_guard_opens(
    out: &mut Vec<char>,
    gs: &Vec<Guard>,
    Ghost(start): Ghost<Seq<char>>,
    Ghost(done): Ghost<Seq<char>>,
)
    requires
        old(out)@ == start + done,
    ensures
        final(out)@ == start + (done + guard_opens(guards_view(gs@))),
{
    let ghost all = guards_view(gs@);
    let mut i: usize = 0;
    assert(all.take(0) =~= Seq::<GuardModel>::empty());
    assert(done + guard_opens(all.take(0)) =~= done);
    while i < gs.len()
        invariant
            i <= gs.len(),
            all == guards_view(gs@),
            out@ == start + (done + guard_opens(all.take(i as int))),
        decreases gs.len() - i,
    {
        assert(all.take(i + 1).drop_last() =~= all.take(i as int));
        let ghost before = guard_opens(all.take(i as int));
        push_guard_open(out, &gs[i], Ghost(start), Ghost(done + before));
        proof {
            lemma_concat_associative(done, before, guard_open(gs@[i as int]@));
        }
        i += 1;
    }
    assert(all.take(gs.len() as int) =~= all);
}

fn push_guard_closes(
    out: &mut Vec<char>,
    n: usize,
    Ghost(start): Ghost<Seq<char>>,
    Ghost(done): Ghost<Seq<char>>,
)
    requires
        old(out)@ == start + done,
    ensures
        final(out)@ == start + (done + guard_closes(n as nat)),
{
    let mut i: usize = 0;
    assert(done + guard_closes(0) =~= done);
    while i < n
        invariant
            i <= n,
            out@ == start + (done + guard_closes(i as nat)),
        decreases n - i,
    {
        push_str(out, " } else { None }", Ghost(start), Ghost(done + guard_closes(i as nat)));
        proof {
            lemma_concat_associative(done, guard_closes(i as nat), guard_close());
        }
        i += 1;
    }
}

fn push_stage_head(
    out: &mut Vec<char>,
    source: &String,
    Ghost(start): Ghost<Seq<char>>,
    Ghost(done): Ghost<Seq<char>>,
)
    requires
        old(out)@ == start + done,
    ensures
        final(out)@ == start + (done + stage_head(source@)),
{
    let ghost d1 = "{ let into_iterator = "@;
    push_str(out, "{ let into_iterator = ", Ghost(start), Ghost(done));
    push_text(out, source, Ghost(start), Ghost(done + d1));
    proof {
        lemma_concat_associative(done, d1, source@);
    }
    push_str(
        out,
        "; ::py_comp::__py_comp_assert_impl_into_iter(&into_iterator); into_iterator.into_iter()",
        Ghost(start),
        Ghost(done + (d1 + source@)),
    );
    proof {
        lemma_concat_associative(
            done,
            d1 + source@,
            "; ::py_comp::__py_comp_assert_impl_into_iter(&into_iterator); into_iterator.into_iter()"@,
        );
    }
}

/// Appends `opening`, the pattern and `| `: the start of a stage's closure.
fn push_closure_start(
    out: &mut Vec<char>,
    source: &String,
    opening: &str,
    pattern: &String,
    Ghost(start): Ghost<Seq<char>>,
    Ghost(done): Ghost<Seq<char>>,
)
    requires
        old(out)@ == start + done,
    ensures
        final(out)@ == start + (done + (stage_head(source@) + opening@ + pattern@ + "| "@)),
{
    let ghost d1 = stage_head(source@);
    let ghost d2 = d1 + opening@;
    let ghost d3 = d2 + pattern@;
    push_stage_head(out, source, Ghost(start), Ghost(done));
    push_str(out, opening, Ghost(start), Ghost(done + d1));
    proof {
        lemma_concat_associative(done, d1, opening@);
    }
    push_text(out, pattern, Ghost(start), Ghost(done + d2));
    proof {
        lemma_concat_associative(done, d2, pattern@);
    }
    push_str(out, "| ", Ghost(start), Ghost(done + d3));
    proof {
        lemma_concat_associative(done, d3, "| "@);
    }
}

/// Appends `Some(`, the yield expression, `)` and the guards' closings.
fn push_some_yield(
    out: &mut Vec<char>,
    yield_expr: &String,
    n: usize,
    Ghost(start): Ghost<Seq<char>>,
    Ghost(done): Ghost<Seq<char>>,
)
    requires
        old(out)@ == start + done,
    ensures
        final(out)@ == start + (done + (some_of(yield_expr@) + guard_closes(n as nat))),
{
    let ghost a1 = done + "Some("@;
    let ghost a2 = a1 + yield_expr@;
    let ghost a3 = a2 + ")"@;
    push_str(out, "Some(", Ghost(start), Ghost(done));
    push_text(out, yield_expr, Ghost(start), Ghost(a1));
    push_str(out, ")", Ghost(start), Ghost(a2));
    push_guard_closes(out, n, Ghost(start), Ghost(a3));
    assert(a3 + guard_closes(n as nat) =~= done + (some_of(yield_expr@) + guard_closes(n as nat)));
}

fn push_pipeline(
    out: &mut Vec<char>,
    p: &Pipeline,
    Ghost(start): Ghost<Seq<char>>,
    Ghost(done): Ghost<Seq<char>>,
)
    requires
        old(out)@ == start + done,
    ensures
        final(out)@ == start + (done + code(p@)),
    decreases p,
{
    match p {
        Pipeline::Transform { pattern, source, yield_expr } => {
            let ghost a1 = done + (stage_head(source@) + ".map(move |"@ + pattern@ + "| "@);
            let ghost a2 = a1 + yield_expr@;
            push_closure_start(out, source, ".map(move |", pattern, Ghost(start), Ghost(done));
            push_text(out, yield_expr, Ghost(start), Ghost(a1));
            push_str(out, ") }", Ghost(start), Ghost(a2));
            assert(a2 + ") }"@ =~= done + code(p@));
        },
        Pipeline::FilterTransform { pattern, source, guards, yield_expr } => {
            let ghost a1 = done + (stage_head(source@) + ".filter_map(move |"@ + pattern@ + "| "@);
            let ghost a2 = a1 + guard_opens(guards_view(guards@));
            let ghost a3 = a2 + (some_of(yield_expr@) + guard_closes(guards@.len() as nat));
            let opening = ".filter_map(move |";
            push_closure_start(out, source, opening, pattern, Ghost(start), Ghost(done));
            push_guard_opens(out, guards, Ghost(start), Ghost(a1));
            push_some_yield(out, yield_expr, guards.len(), Ghost(start), Ghost(a2));
            push_str(out, ") }", Ghost(start), Ghost(a3));
            assert(a3 + ") }"@ =~= done + code(p@));
        },
        Pipeline::ExpandEach { pattern, source, inner } => {
            let ghost a1 = done + (stage_head(source@) + ".flat_map(move |"@ + pattern@ + "| "@);
            let ghost a2 = a1 + code(inner@);
            push_closure_start(out, source, ".flat_map(move |", pattern, Ghost(start), Ghost(done));
            push_pipeline(out, inner, Ghost(start), Ghost(a1));
            push_str(out, ") }", Ghost(start), Ghost(a2));
            assert(a2 + ") }"@ =~= done + code(p@));
        },
        Pipeline::FilterExpand { pattern, source, guards, inner } => {
            let ghost a1 = done + (stage_head(source@) + ".filter_map(move |"@ + pattern@ + "| "@);
            let ghost a2 = a1 + guard_opens(guards_view(guards@));
            let ghost a3 = a2 + "Some("@;
            let ghost a4 = a3 + code(inner@);
            let ghost a5 = a4 + ")"@;
            let ghost a6 = a5 + guard_closes(guards@.len() as nat);
            let opening = ".filter_map(move |";
            push_closure_start(out, source, opening, pattern, Ghost(start), Ghost(done));
            push_guard_opens(out, guards, Ghost(start), Ghost(a1));
            push_str(out, "Some(", Ghost(start), Ghost(a2));
            push_pipeline(out, inner, Ghost(start), Ghost(a3));
            push_str(out, ")", Ghost(start), Ghost(a4));
            push_guard_closes(out, guards.len(), Ghost(start), Ghost(a5));
            push_str(out, ").flatten() }", Ghost(start), Ghost(a6));
            assert(a6 + ").flatten() }"@ =~= done + code(p@));
        },
    }
}

/// The Rust source of the pipeline `p`.
pub fn emit(p: &Pipeline) -> (r: String)
    ensures
        r@ == code(p@),
{
    let mut out: Vec<char> = Vec::new();
    assert(out@ =~= Seq::<char>::empty() + Seq::<char>::empty());
    push_pipeline(&mut out, p, Ghost(Seq::empty()), Ghost(Seq::empty()));
    assert(out@ =~= code(p@));
    string_of(out.as_slice())
}

/// Compiles the text of a comprehension into the Rust source of its pipeline.
///
/// Fails exactly when `text` does not parse, with the parser's error.
pub fn compile(text: &str) -> (r: Result<String, ParseError>)
    ensures
        match parse_spec(text@) {
            Ok(c) => r matches Ok(s) && s@ == code(lower_spec(c.yield_expr, c.clauses)),
            Err(e) => r == Err::<String, ParseError>(e),
        },
{
    match parse(text) {
        Err(e) => Err(e),
        Ok(c) => {
            let p = lower(&c);
            Ok(emit(&p))
        },
    }
}

} // verus!
