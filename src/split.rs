//! Cutting text into fragments at separators of the outermost level.
use vstd::prelude::*;
use crate::text::{at_top, top_mask, trim, trimmed_range};

verus! {

/// The separators that delimit fragments of a comprehension.
#[derive(Clone, Copy, PartialEq, Eq, Debug)]
pub enum Mark {
    /// `;` between the yield expression and the clauses, and between clauses.
    Semi,
    /// `|` between the alternatives of an `if let` (not half of `||`).
    Bar,
    /// The `=` of an `if let` (not part of `==`, `=>`, `<=`, `..=` and the like).
    Assign,
    /// The keyword `in` of a `for` clause.
    In,
}

pub open spec fn ident_char(c: char) -> bool {
    ('a' <= c && c <= 'z') || ('A' <= c && c <= 'Z') || ('0' <= c && c <= '9') || c == '_'
}

/// Characters that, just before a `=`, make it part of an operator.
pub open spec fn joins_assign(c: char) -> bool {
    c == '=' || c == '!' || c == '<' || c == '>' || c == '.' || c == '+' || c == '-' || c == '*'
        || c == '/' || c == '%' || c == '^' || c == '&' || c == '|'
}

/// A separator of kind `m` starts at position `i` of `s`.
pub open spec fn mark_at(s: Seq<char>, i: int, m: Mark) -> bool {
    &&& 0 <= i < s.len()
    &&& match m {
        Mark::Semi => s[i] == ';',
        Mark::Bar => s[i] == '|' && (i == 0 || s[i - 1] != '|') && (i + 1 == s.len() || s[i + 1]
            != '|'),
        Mark::Assign => s[i] == '=' && (i == 0 || !joins_assign(s[i - 1])) && (i + 1 == s.len() || (
        s[i + 1] != '=' && s[i + 1] != '>')),
        Mark::In => i + 2 <= s.len() && s[i] == 'i' && s[i + 1] == 'n' && (i == 0 || !ident_char(
            s[i - 1],
        )) && (i + 2 == s.len() || !ident_char(s[i + 2])),
    }
}

/// The positions below `n`, in increasing order, where a separator of kind
/// `m` stands at the top level of `s`.
pub open spec fn cuts(s: Seq<char>, m: Mark, n: int) -> Seq<int>
    decreases n,
{
    if n <= 0 {
        Seq::empty()
    } else {
        let c = cuts(s, m, n - 1);
        if at_top(s, n - 1) && mark_at(s, n - 1, m) {
            c.push(n - 1)
        } else {
            c
        }
    }
}

/// The pieces of `s` between consecutive one-character cuts `cs`.
pub open spec fn pieces(s: Seq<char>, cs: Seq<int>) -> Seq<Seq<char>> {
    Seq::new(
        cs.len() + 1,
        |k: int|
            s.subrange(
                if k == 0 { 0 } else { cs[k - 1] + 1 },
                if k == cs.len() { s.len() as int } else { cs[k] },
            ),
    )
}

/// `s` cut at its top-level separators of kind `m`, each piece trimmed.
pub open spec fn split_top(s: Seq<char>, m: Mark) -> Seq<Seq<char>> {
    pieces(s, cuts(s, m, s.len() as int)).map_values(|p: Seq<char>| trim(p))
}

proof fn lemma_cuts_sorted(s: Seq<char>, m: Mark, n: int)
    ensures
        forall|i: int| 0 <= i < cuts(s, m, n).len() ==> 0 <= #[trigger] cuts(s, m, n)[i] < n,
        forall|i: int, j: int|
            0 <= i < j < cuts(s, m, n).len() ==> cuts(s, m, n)[i] < cuts(s, m, n)[j],
        forall|i: int|
            0 <= i < cuts(s, m, n).len() ==> mark_at(s, #[trigger] cuts(s, m, n)[i], m),
    decreases n,
{
    if n > 0 {
        lemma_cuts_sorted(s, m, n - 1);
        let c = cuts(s, m, n - 1);
        let d = cuts(s, m, n);
        assert forall|i: int| 0 <= i < d.len() implies
            0 <= #[trigger] d[i] < n && mark_at(s, d[i], m) by {
            if i < c.len() {
                assert(d[i] == c[i]);
            }
        }
        assert forall|i: int, j: int| 0 <= i < j < d.len() implies d[i] < d[j] by {
            assert(d[i] == c[i]);
            if j < c.len() {
                assert(d[j] == c[j]);
            }
        }
    }
}

fn is_ident_char(c: char) -> (r: bool)
    ensures
        r == ident_char(c),
{
    ('a' <= c && c <= 'z') || ('A' <= c && c <= 'Z') || ('0' <= c && c <= '9') || c == '_'
}

fn is_mark(s: &Vec<char>, i: usize, m: Mark) -> (r: bool)
    requires
        i < s.len(),
    ensures
        r == mark_at(s@, i as int, m),
{
    let n = s.len();
    match m {
        Mark::Semi => s[i] == ';',
        Mark::Bar => s[i] == '|' && (i == 0 || s[i - 1] != '|') && (i + 1 == n || s[i + 1] != '|'),
        Mark::Assign => {
            if s[i] != '=' {
                return false;
            }
            if i > 0 {
                let p = s[i - 1];
                if p == '=' || p == '!' || p == '<' || p == '>' || p == '.' || p == '+' || p == '-'
                    || p == '*' || p == '/' || p == '%' || p == '^' || p == '&' || p == '|' {
                    return false;
                }
            }
            i + 1 == n || (s[i + 1] != '=' && s[i + 1] != '>')
        },
        Mark::In => n - i >= 2 && s[i] == 'i' && s[i + 1] == 'n' && (i == 0 || !is_ident_char(
            s[i - 1],
        )) && (i + 2 == n || !is_ident_char(s[i + 2])),
    }
}

/// The top-level positions of the separators of kind `m` in `s`.
pub fn find_cuts(s: &Vec<char>, m: Mark) -> (r: Vec<usize>)
    ensures
        r@.len() == cuts(s@, m, s.len() as int).len(),
        forall|k: int| 0 <= k < r@.len() ==> r@[k] as int == cuts(s@, m, s.len() as int)[k],
{
    let mask = top_mask(s);
    let mut out: Vec<usize> = Vec::new();
    let mut i: usize = 0;
    while i < s.len()
        invariant
            i <= s.len(),
            mask.len() == s.len() + 1,
            forall|j: int| 0 <= j <= s.len() ==> mask[j] == at_top(s@, j),
            out@.len() == cuts(s@, m, i as int).len(),
            forall|k: int| 0 <= k < out@.len() ==> out@[k] as int == cuts(s@, m, i as int)[k],
        decreases s.len() - i,
    {
        if mask[i] && is_mark(s, i, m) {
            out.push(i);
        }
        i += 1;
    }
    out
}

/// `s` cut at its top-level separators of kind `m`, each piece trimmed.
pub fn split_trimmed(s: &Vec<char>, m: Mark) -> (r: Vec<Vec<char>>)
    ensures
        r@.len() == split_top(s@, m).len(),
        forall|k: int| 0 <= k < r@.len() ==> r@[k]@ == split_top(s@, m)[k],
{
    let cs = find_cuts(s, m);
    let ghost gc = cuts(s@, m, s.len() as int);
    proof {
        lemma_cuts_sorted(s@, m, s.len() as int);
    }
    let mut out: Vec<Vec<char>> = Vec::new();
    let mut k: usize = 0;
    let mut lo: usize = 0;
    while k < cs.len()
        invariant
            k <= cs.len(),
            cs@.len() == gc.len(),
            forall|j: int| 0 <= j < cs@.len() ==> cs@[j] as int == gc[j],
            forall|j: int| 0 <= j < gc.len() ==> 0 <= #[trigger] gc[j] < s.len(),
            forall|i: int, j: int| 0 <= i < j < gc.len() ==> gc[i] < gc[j],
            lo == (if k == 0 { 0 } else { gc[k - 1] + 1 }),
            out@.len() == k,
            forall|j: int| 0 <= j < k ==> out@[j]@ == trim(#[trigger] pieces(s@, gc)[j]),
        decreases cs.len() - k,
    {
        let hi = cs[k];
        assert(k > 0 ==> gc[k - 1] < gc[k as int]);
        assert(0 <= gc[k as int] < s.len());
        let piece = trimmed_range(s, lo, hi);
        out.push(piece);
        lo = hi + 1;
        k += 1;
    }
    let last = trimmed_range(s, lo, s.len());
    out.push(last);
    out
}

/// The first top-level position of a separator of kind `m` in `s`.
pub fn first_cut(s: &Vec<char>, m: Mark) -> (r: Option<usize>)
    ensures
        r is None <==> cuts(s@, m, s.len() as int).len() == 0,
        r matches Some(i) ==> i == cuts(s@, m, s.len() as int)[0] && i < s.len() && mark_at(
            s@,
            i as int,
            m,
        ),
{
    let cs = find_cuts(s, m);
    proof {
        lemma_cuts_sorted(s@, m, s.len() as int);
    }
    if cs.len() == 0 {
        None
    } else {
        Some(cs[0])
    }
}

} // verus!
