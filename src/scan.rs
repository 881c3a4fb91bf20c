//! The scanning state machine that finds top-level separators: characters
//! outside string literals and outside nested parentheses.
use vstd::prelude::*;

use crate::error::SyntaxIssue;
use crate::text::slice_chars;

verus! {

/// Scanner state before a character: inside a string literal, just after a
/// backslash inside one, and the parenthesis depth outside strings.
pub struct ScanState {
    pub in_string: bool,
    pub escape: bool,
    pub depth: int,
}

pub open spec fn step(st: ScanState, c: char) -> ScanState {
    if st.escape {
        ScanState { escape: false, ..st }
    } else if st.in_string {
        if c == '\\' {
            ScanState { escape: true, ..st }
        } else if c == '"' {
            ScanState { in_string: false, ..st }
        } else {
            st
        }
    } else if c == '"' {
        ScanState { in_string: true, ..st }
    } else if c == '(' {
        ScanState { depth: st.depth + 1, ..st }
    } else if c == ')' {
        ScanState { depth: st.depth - 1, ..st }
    } else {
        st
    }
}

/// The state after scanning `s[..i]`.
pub open spec fn state_at(s: Seq<char>, i: int) -> ScanState
    decreases i,
{
    if i <= 0 {
        ScanState { in_string: false, escape: false, depth: 0 }
    } else {
        step(state_at(s, i - 1), s[i - 1])
    }
}

pub open spec fn top_level(s: Seq<char>, i: int) -> bool {
    !state_at(s, i).in_string && state_at(s, i).depth == 0
}

/// Whether `s[i]` separates two pieces: a top-level `sep`; a `+` needs a space
/// on each side.
pub open spec fn is_cut(s: Seq<char>, sep: char, i: int) -> bool {
    &&& top_level(s, i)
    &&& s[i] == sep
    &&& (sep == '+' ==> 0 < i && i + 1 < s.len() && s[i - 1] == ' ' && s[i + 1] == ' ')
}

/// Positions of the separators in `s[..n]`, in order.
pub open spec fn cuts(s: Seq<char>, sep: char, n: int) -> Seq<int>
    decreases n,
{
    if n <= 0 {
        Seq::empty()
    } else if is_cut(s, sep, n - 1) {
        cuts(s, sep, n - 1).push(n - 1)
    } else {
        cuts(s, sep, n - 1)
    }
}

pub open spec fn cut_start(c: Seq<int>, k: int) -> int {
    if k == 0 {
        0
    } else {
        c[k - 1] + 1
    }
}

/// The pieces of `s` between its separators.
pub open spec fn pieces(s: Seq<char>, sep: char) -> Seq<Seq<char>> {
    let c = cuts(s, sep, s.len() as int);
    Seq::new(
        c.len() + 1,
        |k: int| s.subrange(cut_start(c, k), if k < c.len() { c[k] } else { s.len() as int }),
    )
}

/// Parentheses close below depth zero somewhere in `s`.
pub open spec fn dips(s: Seq<char>) -> bool {
    exists|i: int| 0 <= i <= s.len() && #[trigger] state_at(s, i).depth < 0
}

/// How `s` splits at `sep`, or why it cannot be scanned.
pub open spec fn split_of(s: Seq<char>, sep: char) -> Result<Seq<Seq<char>>, SyntaxIssue> {
    if dips(s) {
        Err(SyntaxIssue::UnbalancedParens)
    } else if state_at(s, s.len() as int).in_string {
        Err(SyntaxIssue::UnterminatedString)
    } else if state_at(s, s.len() as int).depth != 0 {
        Err(SyntaxIssue::UnbalancedParens)
    } else {
        Ok(pieces(s, sep))
    }
}

pub open spec fn views(v: Seq<Vec<char>>) -> Seq<Seq<char>> {
    v.map_values(|x: Vec<char>| x@)
}

/// An escape is only pending inside a string literal.
pub proof fn lemma_escape_in_string(s: Seq<char>, i: int)
    requires
        0 <= i,
    ensures
        state_at(s, i).escape ==> state_at(s, i).in_string,
    decreases i,
{
    if i > 0 {
        lemma_escape_in_string(s, i - 1);
    }
}

/// Splits `s` at its top-level `sep` characters (with the spacing rule for `+`).
pub fn split_top(s: &[char], sep: char) -> (r: Result<Vec<Vec<char>>, SyntaxIssue>)
    ensures
        match (r, split_of(s@, sep)) {
            (Ok(v), Ok(p)) => views(v@) == p,
            (Err(e), Err(f)) => e == f,
            _ => false,
        },
{
    let n = s.len();
    let mut in_string = false;
    let mut escape = false;
    let mut depth: usize = 0;
    let mut out: Vec<Vec<char>> = Vec::new();
    let mut start: usize = 0;
    let mut i: usize = 0;
    while i < n
        invariant
            n == s@.len(),
            i <= n,
            depth <= i,
            start <= i,
            state_at(s@, i as int) == (ScanState { in_string, escape, depth: depth as int }),
            forall|j: int| 0 <= j <= i ==> #[trigger] state_at(s@, j).depth >= 0,
            out@.len() == cuts(s@, sep, i as int).len(),
            start == cut_start(cuts(s@, sep, i as int), out@.len() as int),
            forall|k: int|
                0 <= k < out@.len() ==> (#[trigger] out@[k])@ == s@.subrange(
                    cut_start(cuts(s@, sep, i as int), k),
                    cuts(s@, sep, i as int)[k],
                ),
        decreases n - i,
    {
        let c = s[i];
        let ghost c0 = cuts(s@, sep, i as int);
        proof {
            lemma_escape_in_string(s@, i as int);
        }
        let cut = !in_string && depth == 0 && c == sep && (sep != '+' || (0 < i && i + 1 < n && s[i
            - 1] == ' ' && s[i + 1] == ' '));
        assert(cut == is_cut(s@, sep, i as int));
        if cut {
            let piece = slice_chars(s, start, i);
            out.push(piece);
            start = i + 1;
        }
        if escape {
            escape = false;
        } else if in_string {
            if c == '\\' {
                escape = true;
            } else if c == '"' {
                in_string = false;
            }
        } else if c == '"' {
            in_string = true;
        } else if c == '(' {
            depth = depth + 1;
        } else if c == ')' {
            if depth == 0 {
                assert(state_at(s@, i + 1).depth < 0);
                return Err(SyntaxIssue::UnbalancedParens);
            }
            depth = depth - 1;
        }
        i = i + 1;
        proof {
            let c1 = cuts(s@, sep, i as int);
            if cut {
                assert(c1 == c0.push(i - 1));
                assert forall|k: int| 0 <= k < out@.len() implies (#[trigger] out@[k])@ == s@.subrange(
                    cut_start(c1, k),
                    c1[k],
                ) by {
                    if k < c0.len() {
                        assert(cut_start(c1, k) == cut_start(c0, k));
                    }
                }
            } else {
                assert(c1 == c0);
            }
            assert(state_at(s@, i as int) == step(state_at(s@, i - 1), s@[i - 1]));
        }
    }
    if in_string {
        proof {
            assert forall|j: int| 0 <= j <= s@.len() implies #[trigger] state_at(s@, j).depth >= 0 by {}
        }
        return Err(SyntaxIssue::UnterminatedString);
    }
    if depth != 0 {
        return Err(SyntaxIssue::UnbalancedParens);
    }
    let last = slice_chars(s, start, n);
    out.push(last);
    proof {
        let c = cuts(s@, sep, n as int);
        assert(!dips(s@));
        assert(views(out@) =~= pieces(s@, sep));
    }
    Ok(out)
}

} // verus!
