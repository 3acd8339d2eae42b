//! Parsing the text of a comprehension into a [`Comprehension`].
//!
//! ```text
//! comprehension ::= yield_expr ";" comp_for [";"]
//! comp_for      ::= "for" pattern "in" expr [";" comp_iter]
//! comp_iter     ::= comp_for | comp_if | comp_if_let
//! comp_if       ::= "if" expr [";" comp_iter]
//! comp_if_let   ::= "if" "let" pattern ("|" pattern)* "=" expr [";" comp_iter]
//! ```
//!
//! Expressions and patterns are delimited, trimmed and passed on as text; they
//! are never interpreted.
use vstd::prelude::*;
use crate::clause::{
    Clause, ClauseModel, Comprehension, ComprehensionModel, clauses_view, fragments_view,
};
use crate::split::{Mark, cuts, first_cut, ident_char, split_top, split_trimmed};
use crate::text::{balanced, chars_of, copy_range, string_of, top_mask, trim, trimmed_range};

verus! {

/// Why a text is not a comprehension. `index` counts the clauses after the
/// yield expression from zero.
#[derive(Clone, Copy, Debug, PartialEq, Eq, Structural)]
pub enum ParseError {
    /// A bracket or string literal is left open, or a bracket closes none.
    Unbalanced,
    /// Nothing stands before the first `;`.
    EmptyYield,
    /// The yield expression is followed by no clause.
    NoClauses,
    /// A clause starts with neither `for` nor `if`.
    UnknownClause { index: usize },
    /// A `for` clause has no `in`.
    MissingIn { index: usize },
    /// An `if let` clause has no `=`.
    MissingAssign { index: usize },
    /// A pattern, source or condition of a clause is empty.
    EmptyFragment { index: usize },
    /// The first clause is not a `for` clause.
    FirstNotFor,
}

pub open spec fn kw_for() -> Seq<char> {
    seq!['f', 'o', 'r']
}

pub open spec fn kw_if() -> Seq<char> {
    seq!['i', 'f']
}

pub open spec fn kw_let() -> Seq<char> {
    seq!['l', 'e', 't']
}

/// `t` starts with the keyword `kw`, as a whole word.
pub open spec fn starts_kw(t: Seq<char>, kw: Seq<char>) -> bool {
    &&& t.len() >= kw.len()
    &&& t.take(kw.len() as int) == kw
    &&& (t.len() == kw.len() || !ident_char(t[kw.len() as int]))
}

/// The clause written as the (trimmed) text `t`, the `index`-th clause.
pub open spec fn parse_clause(t: Seq<char>, index: usize) -> Result<ClauseModel, ParseError> {
    if starts_kw(t, kw_for()) {
        let rest = t.skip(3);
        let cs = cuts(rest, Mark::In, rest.len() as int);
        if cs.len() == 0 {
            Err(ParseError::MissingIn { index })
        } else {
            let pattern = trim(rest.take(cs[0]));
            let source = trim(rest.skip(cs[0] + 2));
            if pattern.len() == 0 || source.len() == 0 {
                Err(ParseError::EmptyFragment { index })
            } else {
                Ok(ClauseModel::ForIn { pattern, source })
            }
        }
    } else if starts_kw(t, kw_if()) {
        let rest = trim(t.skip(2));
        if starts_kw(rest, kw_let()) {
            let body = rest.skip(3);
            let cs = cuts(body, Mark::Assign, body.len() as int);
            if cs.len() == 0 {
                Err(ParseError::MissingAssign { index })
            } else {
                let patterns = split_top(body.take(cs[0]), Mark::Bar);
                let source = trim(body.skip(cs[0] + 1));
                if source.len() == 0 || exists|k: int|
                    0 <= k < patterns.len() && #[trigger] patterns[k].len() == 0 {
                    Err(ParseError::EmptyFragment { index })
                } else {
                    Ok(ClauseModel::Binder { patterns, source })
                }
            }
        } else if rest.len() == 0 {
            Err(ParseError::EmptyFragment { index })
        } else {
            Ok(ClauseModel::Filter { condition: rest })
        }
    } else {
        Err(ParseError::UnknownClause { index })
    }
}

/// The first `n` clause texts of `ps`, parsed; or the first error among them.
pub open spec fn parse_prefix(ps: Seq<Seq<char>>, n: int) -> Result<Seq<ClauseModel>, ParseError>
    decreases n,
{
    if n <= 0 {
        Ok(Seq::empty())
    } else {
        match parse_prefix(ps, n - 1) {
            Err(e) => Err(e),
            Ok(cs) => match parse_clause(ps[n - 1], (n - 1) as usize) {
                Err(e) => Err(e),
                Ok(c) => Ok(cs.push(c)),
            },
        }
    }
}

/// The pieces of a comprehension's text: the yield expression, then one per
/// clause. A `;` after the last clause adds no piece.
pub open spec fn sections(s: Seq<char>) -> Seq<Seq<char>> {
    let ps = split_top(s, Mark::Semi);
    if ps.len() >= 2 && ps.last().len() == 0 {
        ps.drop_last()
    } else {
        ps
    }
}

/// The comprehension written as `s`, or why `s` is not one.
pub open spec fn parse_spec(s: Seq<char>) -> Result<ComprehensionModel, ParseError> {
    if !balanced(s) {
        Err(ParseError::Unbalanced)
    } else {
        let ps = sections(s);
        if ps[0].len() == 0 {
            Err(ParseError::EmptyYield)
        } else if ps.len() < 2 {
            Err(ParseError::NoClauses)
        } else {
            match parse_prefix(ps.skip(1), ps.len() - 1) {
                Err(e) => Err(e),
                Ok(cs) => if cs[0] is ForIn {
                    Ok(ComprehensionModel { yield_expr: ps[0], clauses: cs })
                } else {
                    Err(ParseError::FirstNotFor)
                },
            }
        }
    }
}

fn starts_with_kw(t: &Vec<char>, kw: &Vec<char>) -> (r: bool)
    ensures
        r == starts_kw(t@, kw@),
{
    if t.len() < kw.len() {
        return false;
    }
    let mut i: usize = 0;
    while i < kw.len()
        invariant
            kw.len() <= t.len(),
            i <= kw.len(),
            t@.take(i as int) == kw@.take(i as int),
        decreases kw.len() - i,
    {
        if t[i] != kw[i] {
            assert(t@.take(kw.len() as int)[i as int] != kw@[i as int]);
            return false;
        }
        assert(t@.take(i + 1) =~= kw@.take(i + 1));
        i += 1;
    }
    assert(kw@.take(kw.len() as int) =~= kw@);
    if t.len() == kw.len() {
        true
    } else {
        let c = t[kw.len()];
        !(('a' <= c && c <= 'z') || ('A' <= c && c <= 'Z') || ('0' <= c && c <= '9') || c == '_')
    }
}

fn text_of(cs: &Vec<char>) -> (r: String)
    ensures
        r@ == cs@,
{
    string_of(cs.as_slice())
}

/// The pieces as strings, or `None` where one of them is empty.
fn nonempty_texts(pieces: &Vec<Vec<char>>) -> (r: Option<Vec<String>>)
    ensures
        r is None <==> exists|j: int| 0 <= j < pieces@.len() && #[trigger] pieces@[j]@.len() == 0,
        r matches Some(v) ==> v@.len() == pieces@.len() && forall|j: int|
            0 <= j < v@.len() ==> #[trigger] v@[j]@ == pieces@[j]@,
{
    let mut out: Vec<String> = Vec::new();
    let mut k: usize = 0;
    while k < pieces.len()
        invariant
            k <= pieces.len(),
            out@.len() == k,
            forall|j: int| 0 <= j < k ==> #[trigger] out@[j]@ == pieces@[j]@,
            forall|j: int| 0 <= j < k ==> #[trigger] pieces@[j]@.len() > 0,
        decreases pieces.len() - k,
    {
        if pieces[k].len() == 0 {
            return None;
        }
        out.push(text_of(&pieces[k]));
        k += 1;
    }
    Some(out)
}

/// Parses the trimmed text `t` of the `index`-th clause.
pub fn parse_clause_chars(t: &Vec<char>, index: usize) -> (r: Result<Clause, ParseError>)
    ensures
        match r {
            Ok(c) => parse_clause(t@, index) == Ok::<ClauseModel, ParseError>(c@),
            Err(e) => parse_clause(t@, index) == Err::<ClauseModel, ParseError>(e),
        },
{
    let kw_f = vec!['f', 'o', 'r'];
    let kw_i = vec!['i', 'f'];
    let kw_l = vec!['l', 'e', 't'];
    assert(kw_f@ =~= kw_for());
    assert(kw_i@ =~= kw_if());
    assert(kw_l@ =~= kw_let());
    if starts_with_kw(t, &kw_f) {
        let rest = copy_range(t, 3, t.len());
        assert(rest@ =~= t@.skip(3));
        match first_cut(&rest, Mark::In) {
            None => Err(ParseError::MissingIn { index }),
            Some(i) => {
                let pattern = trimmed_range(&rest, 0, i);
                let source = trimmed_range(&rest, i + 2, rest.len());
                assert(rest@.subrange(0, i as int) =~= rest@.take(i as int));
                assert(rest@.subrange(i + 2, rest.len() as int) =~= rest@.skip(i + 2));
                if pattern.len() == 0 || source.len() == 0 {
                    Err(ParseError::EmptyFragment { index })
                } else {
                    Ok(Clause::ForIn { pattern: text_of(&pattern), source: text_of(&source) })
                }
            },
        }
    } else if starts_with_kw(t, &kw_i) {
        let rest = trimmed_range(t, 2, t.len());
        assert(t@.subrange(2, t.len() as int) =~= t@.skip(2));
        if starts_with_kw(&rest, &kw_l) {
            let body = copy_range(&rest, 3, rest.len());
            assert(body@ =~= rest@.skip(3));
            match first_cut(&body, Mark::Assign) {
                None => Err(ParseError::MissingAssign { index }),
                Some(i) => {
                    let head = copy_range(&body, 0, i);
                    assert(head@ =~= body@.take(i as int));
                    let pieces = split_trimmed(&head, Mark::Bar);
                    let source = trimmed_range(&body, i + 1, body.len());
                    assert(body@.subrange(i + 1, body.len() as int) =~= body@.skip(i + 1));
                    let ghost spec_pats = split_top(head@, Mark::Bar);
                    if source.len() == 0 {
                        return Err(ParseError::EmptyFragment { index });
                    }
                    match nonempty_texts(&pieces) {
                        None => {
                            proof {
                                let j = choose|j: int|
                                    0 <= j < pieces@.len() && #[trigger] pieces@[j]@.len() == 0;
                                assert(spec_pats[j].len() == 0);
                            }
                            Err(ParseError::EmptyFragment { index })
                        },
                        Some(patterns) => {
                            assert forall|j: int| 0 <= j < spec_pats.len() implies
                                #[trigger] spec_pats[j].len() != 0 by {
                                assert(pieces@[j]@ == spec_pats[j]);
                            }
                            assert(fragments_view(patterns@) =~= spec_pats);
                            Ok(Clause::Binder { patterns, source: text_of(&source) })
                        },
                    }
                },
            }
        } else if rest.len() == 0 {
            Err(ParseError::EmptyFragment { index })
        } else {
            Ok(Clause::Filter { condition: text_of(&rest) })
        }
    } else {
        Err(ParseError::UnknownClause { index })
    }
}

} // verus!

verus! {

proof fn lemma_prefix_error_stays(ps: Seq<Seq<char>>, n: int, m: int)
    requires
        0 <= n <= m,
        parse_prefix(ps, n) is Err,
    ensures
        parse_prefix(ps, m) == parse_prefix(ps, n),
    decreases m - n,
{
    if m > n {
        lemma_prefix_error_stays(ps, n, m - 1);
    }
}

proof fn lemma_prefix_len(ps: Seq<Seq<char>>, n: int)
    requires
        0 <= n,
        parse_prefix(ps, n) is Ok,
    ensures
        parse_prefix(ps, n)->Ok_0.len() == n,
    decreases n,
{
    if n > 0 {
        lemma_prefix_len(ps, n - 1);
    }
}

/// Parses the text of a comprehension.
///
/// Succeeds exactly when `text` is a comprehension of the grammar above; the
/// result is then well formed. Otherwise the error says what is wrong first:
/// the nesting of brackets and string literals, then the yield expression,
/// then the clauses in order, and last that the first clause is no `for`.
pub fn parse(text: &str) -> (r: Result<Comprehension, ParseError>)
    ensures
        match r {
            Ok(c) => parse_spec(text@) == Ok::<ComprehensionModel, ParseError>(c@) && c.wf(),
            Err(e) => parse_spec(text@) == Err::<ComprehensionModel, ParseError>(e),
        },
{
    let s = chars_of(text);
    let mask = top_mask(&s);
    if !mask[s.len()] {
        return Err(ParseError::Unbalanced);
    }
    let mut ps = split_trimmed(&s, Mark::Semi);
    let ghost sec = sections(s@);
    if ps.len() >= 2 && ps[ps.len() - 1].len() == 0 {
        ps.pop();
    }
    assert(ps@.len() == sec.len());
    assert(forall|j: int| 0 <= j < sec.len() ==> #[trigger] ps@[j]@ == sec[j]);
    if ps[0].len() == 0 {
        return Err(ParseError::EmptyYield);
    }
    if ps.len() < 2 {
        return Err(ParseError::NoClauses);
    }
    let ghost rest = sec.skip(1);
    let mut clauses: Vec<Clause> = Vec::new();
    assert(clauses_view(clauses@) =~= Seq::<ClauseModel>::empty());
    let mut i: usize = 1;
    while i < ps.len()
        invariant
            1 <= i <= ps.len(),
            balanced(s@),
            sec == sections(s@),
            sec.len() >= 2,
            sec[0].len() != 0,
            s@ == text@,
            ps@.len() == sec.len(),
            rest == sec.skip(1),
            forall|j: int| 0 <= j < sec.len() ==> #[trigger] ps@[j]@ == sec[j],
            parse_prefix(rest, i - 1) == Ok::<Seq<ClauseModel>, ParseError>(
                clauses_view(clauses@),
            ),
            forall|j: int|
                0 <= j < clauses@.len() && (#[trigger] clauses@[j])@ is Binder
                    ==> clauses@[j]@->Binder_patterns.len() >= 1,
        decreases ps.len() - i,
    {
        assert(rest[i - 1] == sec[i as int]);
        let ghost before = clauses@;
        let parsed = parse_clause_chars(&ps[i], i - 1);
        assert(parse_prefix(rest, i as int) == match parse_clause(rest[i - 1], (i - 1) as usize) {
            Err(e) => Err(e),
            Ok(c) => Ok::<Seq<ClauseModel>, ParseError>(clauses_view(clauses@).push(c)),
        });
        match parsed {
            Err(e) => {
                proof {
                    lemma_prefix_error_stays(rest, i as int, rest.len() as int);
                }
                return Err(e);
            },
            Ok(c) => {
                clauses.push(c);
                assert(clauses@.drop_last() =~= before);
                assert(clauses_view(clauses@) =~= clauses_view(clauses@.drop_last()).push(c@));
            },
        }
        i += 1;
    }
    assert(rest.len() == i - 1);
    let ghost cs = clauses_view(clauses@);
    proof {
        lemma_prefix_len(rest, rest.len() as int);
    }
    assert(cs[0] == clauses@[0]@);
    match &clauses[0] {
        Clause::ForIn { .. } => {},
        _ => {
            return Err(ParseError::FirstNotFor);
        },
    }
    assert forall|j: int| 0 <= j < cs.len() && #[trigger] cs[j] is Binder implies
        cs[j]->Binder_patterns.len() >= 1 by {
        assert(cs[j] == clauses@[j]@);
    }
    Ok(Comprehension { yield_expr: text_of(&ps[0]), clauses })
}

} // verus!
