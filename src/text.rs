//! Characters of source text: conversions, bracket nesting and trimming.
//!
//! Fragments are delimited only at the outermost level of nesting: a
//! separator inside parentheses, brackets, braces or a string literal belongs
//! to the fragment that contains it.
use vstd::prelude::*;

verus! {

/// The characters of `s`, in order.
pub fn chars_of(s: &str) -> (r: Vec<char>)
    ensures
        r@ == s@,
{
    proof {
        broadcast use vstd::string::axiom_spec_iter;
    }
    let mut out: Vec<char> = Vec::new();
    for c in it: s.chars()
        invariant
            out@ == it.seq().take(it.index() as int),
    {
        out.push(c);
        assert(out@ =~= it.seq().take(it.index() as int + 1));
    }
    assert(out@ =~= s@);
    out
}

/// Relies on `<String as FromIterator<char>>::from_iter`: the string holds
/// the given characters in order.
#[verifier::external_body]
pub(crate) fn string_of(cs: &[char]) -> (r: String)
    ensures
        r@ == cs@,
{
    cs.iter().collect()
}

/// The characters of `s[lo..hi]`.
pub fn copy_range(s: &Vec<char>, lo: usize, hi: usize) -> (r: Vec<char>)
    requires
        lo <= hi <= s.len(),
    ensures
        r@ == s@.subrange(lo as int, hi as int),
{
    let mut out: Vec<char> = Vec::new();
    let mut i: usize = lo;
    while i < hi
        invariant
            lo <= i <= hi <= s.len(),
            out@ == s@.subrange(lo as int, i as int),
        decreases hi - i,
    {
        out.push(s[i]);
        i += 1;
        assert(out@ =~= s@.subrange(lo as int, i as int));
    }
    out
}

pub open spec fn is_opener(c: char) -> bool {
    c == '(' || c == '[' || c == '{'
}

pub open spec fn is_closer(c: char) -> bool {
    c == ')' || c == ']' || c == '}'
}

/// Where a scan of text stands: how many brackets are open, whether it is
/// inside a string literal (and just after a backslash there), and whether a
/// closing bracket came with none open.
pub struct Nesting {
    pub depth: nat,
    pub in_str: bool,
    pub escaped: bool,
    pub broken: bool,
}

pub open spec fn step(n: Nesting, c: char) -> Nesting {
    if n.broken {
        n
    } else if n.in_str {
        if n.escaped {
            Nesting { escaped: false, ..n }
        } else if c == '\\' {
            Nesting { escaped: true, ..n }
        } else if c == '"' {
            Nesting { in_str: false, ..n }
        } else {
            n
        }
    } else if c == '"' {
        Nesting { in_str: true, ..n }
    } else if is_opener(c) {
        Nesting { depth: n.depth + 1, ..n }
    } else if is_closer(c) {
        if n.depth == 0 {
            Nesting { broken: true, ..n }
        } else {
            Nesting { depth: (n.depth - 1) as nat, ..n }
        }
    } else {
        n
    }
}

/// The nesting after scanning all of `s`.
pub open spec fn nesting(s: Seq<char>) -> Nesting
    decreases s.len(),
{
    if s.len() == 0 {
        Nesting { depth: 0, in_str: false, escaped: false, broken: false }
    } else {
        step(nesting(s.drop_last()), s.last())
    }
}

pub open spec fn outermost(n: Nesting) -> bool {
    n.depth == 0 && !n.in_str && !n.broken
}

/// Position `i` of `s` lies outside every bracket and string literal.
pub open spec fn at_top(s: Seq<char>, i: int) -> bool {
    outermost(nesting(s.take(i)))
}

/// Every bracket and string literal of `s` is closed, and no bracket closes
/// before it was opened.
pub open spec fn balanced(s: Seq<char>) -> bool {
    at_top(s, s.len() as int)
}

/// For each position `i` from `0` to `s.len()`, whether it is at the top level.
pub fn top_mask(s: &Vec<char>) -> (r: Vec<bool>)
    ensures
        r.len() == s.len() + 1,
        forall|i: int| 0 <= i <= s.len() ==> r[i] == at_top(s@, i),
{
    let mut out: Vec<bool> = Vec::new();
    let mut depth: usize = 0;
    let mut in_str = false;
    let mut escaped = false;
    let mut broken = false;
    let mut i: usize = 0;
    out.push(true);
    assert(s@.take(0) =~= Seq::<char>::empty());
    while i < s.len()
        invariant
            i <= s.len(),
            depth <= i,
            out.len() == i + 1,
            nesting(s@.take(i as int)) == (Nesting {
                depth: depth as nat,
                in_str,
                escaped,
                broken,
            }),
            forall|j: int| 0 <= j <= i ==> out[j] == at_top(s@, j),
        decreases s.len() - i,
    {
        let c = s[i];
        assert(s@.take(i as int + 1).drop_last() =~= s@.take(i as int));
        if broken {
        } else if in_str {
            if escaped {
                escaped = false;
            } else if c == '\\' {
                escaped = true;
            } else if c == '"' {
                in_str = false;
            }
        } else if c == '"' {
            in_str = true;
        } else if c == '(' || c == '[' || c == '{' {
            depth = depth + 1;
        } else if c == ')' || c == ']' || c == '}' {
            if depth == 0 {
                broken = true;
            } else {
                depth = depth - 1;
            }
        }
        i = i + 1;
        out.push(depth == 0 && !in_str && !broken);
    }
    out
}

pub open spec fn is_space(c: char) -> bool {
    c == ' ' || c == '\t' || c == '\n' || c == '\r'
}

pub open spec fn trim_start(s: Seq<char>) -> Seq<char>
    decreases s.len(),
{
    if s.len() > 0 && is_space(s[0]) {
        trim_start(s.drop_first())
    } else {
        s
    }
}

pub open spec fn trim_end(s: Seq<char>) -> Seq<char>
    decreases s.len(),
{
    if s.len() > 0 && is_space(s.last()) {
        trim_end(s.drop_last())
    } else {
        s
    }
}

/// `s` without the white space at either end.
pub open spec fn trim(s: Seq<char>) -> Seq<char> {
    trim_end(trim_start(s))
}

fn is_space_char(c: char) -> (r: bool)
    ensures
        r == is_space(c),
{
    c == ' ' || c == '\t' || c == '\n' || c == '\r'
}

/// The characters of `s[lo..hi]` without the white space at either end.
pub fn trimmed_range(s: &Vec<char>, lo: usize, hi: usize) -> (r: Vec<char>)
    requires
        lo <= hi <= s.len(),
    ensures
        r@ == trim(s@.subrange(lo as int, hi as int)),
{
    let mut a: usize = lo;
    while a < hi && is_space_char(s[a])
        invariant
            lo <= a <= hi <= s.len(),
            trim_start(s@.subrange(lo as int, hi as int)) == trim_start(
                s@.subrange(a as int, hi as int),
            ),
        decreases hi - a,
    {
        assert(s@.subrange(a as int, hi as int).drop_first() =~= s@.subrange(a + 1, hi as int));
        a += 1;
    }
    let mut b: usize = hi;
    while b > a && is_space_char(s[b - 1])
        invariant
            lo <= a <= b <= hi <= s.len(),
            trim_end(s@.subrange(a as int, hi as int)) == trim_end(s@.subrange(a as int, b as int)),
        decreases b - a,
    {
        assert(s@.subrange(a as int, b as int).drop_last() =~= s@.subrange(a as int, b - 1));
        b -= 1;
    }
    copy_range(s, a, b)
}

} // verus!
