//! Line-level grammar: operand chains, calls, conditions and one-line statements.
use vstd::prelude::*;

use crate::error::SyntaxIssue;
use crate::literal::{atom_of, decode_atom, Atom, AtomV};
use crate::scan::{lemma_escape_in_string, split_of, split_top, state_at, top_level, views};
use crate::text::{slice_chars, string_of, trim, trim_chars};

verus! {

/// The operands of a `+` chain, decoded in order; the first bad one decides.
pub open spec fn atoms_of(ps: Seq<Seq<char>>) -> Result<Seq<AtomV>, SyntaxIssue>
    decreases ps.len(),
{
    if ps.len() == 0 {
        Ok(Seq::empty())
    } else {
        match atom_of(trim(ps[0]), false) {
            Err(e) => Err(e),
            Ok(a) => match atoms_of(ps.drop_first()) {
                Err(e) => Err(e),
                Ok(r) => Ok(seq![a] + r),
            },
        }
    }
}

/// A term: one operand, or several joined by ` + `.
pub open spec fn term_of(t: Seq<char>) -> Result<Seq<AtomV>, SyntaxIssue> {
    match split_of(t, '+') {
        Err(e) => Err(e),
        Ok(ps) => atoms_of(ps),
    }
}

pub open spec fn atom_views(v: Seq<Atom>) -> Seq<AtomV> {
    v.map_values(|a: Atom| a@)
}

/// Decodes every operand of a term.
pub fn parse_term(t: &[char]) -> (r: Result<Vec<Atom>, SyntaxIssue>)
    ensures
        match (r, term_of(t@)) {
            (Ok(v), Ok(m)) => atom_views(v@) == m,
            (Err(e), Err(f)) => e == f,
            _ => false,
        },
{
    let ps = match split_top(t, '+') {
        Ok(ps) => ps,
        Err(e) => {
            return Err(e);
        },
    };
    let ghost pv = views(ps@);
    let mut out: Vec<Atom> = Vec::new();
    let mut i: usize = 0;
    assert(pv.subrange(0, pv.len() as int) =~= pv);
    while i < ps.len()
        invariant
            pv == views(ps@),
            split_of(t@, '+') == Ok::<Seq<Seq<char>>, SyntaxIssue>(pv),
            i <= ps@.len(),
            atoms_of(pv) == (match atoms_of(pv.subrange(i as int, pv.len() as int)) {
                Err(e) => Err(e),
                Ok(r) => Ok(atom_views(out@) + r),
            }),
        decreases ps@.len() - i,
    {
        let ghost rest = pv.subrange(i as int, pv.len() as int);
        assert(rest.drop_first() =~= pv.subrange(i + 1, pv.len() as int));
        let piece = trim_chars(ps[i].as_slice());
        match decode_atom(piece.as_slice(), false) {
            Err(e) => {
                assert(rest[0] == pv[i as int]);
                assert(atoms_of(rest) == Err::<Seq<AtomV>, SyntaxIssue>(e));
                return Err(e);
            },
            Ok(a) => {
                let ghost before = atom_views(out@);
                out.push(a);
                proof {
                    assert(atom_views(out@) =~= before + seq![a@]);
                    match atoms_of(pv.subrange(i + 1, pv.len() as int)) {
                        Err(e) => {},
                        Ok(r) => {
                            assert(before + (seq![a@] + r) =~= atom_views(out@) + r);
                        },
                    }
                }
            },
        }
        i = i + 1;
    }
    assert(atom_views(out@) + Seq::<AtomV>::empty() =~= atom_views(out@));
    Ok(out)
}

/// Characters allowed in a (qualified) name.
pub open spec fn name_char(c: char) -> bool {
    ('a' <= c && c <= 'z') || ('A' <= c && c <= 'Z') || ('0' <= c && c <= '9') || c == '_' || c == '.'
}

pub open spec fn is_name(s: Seq<char>) -> bool {
    s.len() > 0 && forall|i: int| 0 <= i < s.len() ==> name_char(#[trigger] s[i])
}

pub fn check_name(s: &[char]) -> (r: bool)
    ensures
        r == is_name(s@),
{
    if s.len() == 0 {
        return false;
    }
    let mut i: usize = 0;
    while i < s.len()
        invariant
            i <= s@.len(),
            forall|j: int| 0 <= j < i ==> name_char(#[trigger] s@[j]),
        decreases s@.len() - i,
    {
        let c = s[i];
        if !(('a' <= c && c <= 'z') || ('A' <= c && c <= 'Z') || ('0' <= c && c <= '9') || c == '_'
            || c == '.') {
            return false;
        }
        i = i + 1;
    }
    true
}

/// Position of the first `(` in `s`.
pub open spec fn first_paren(s: Seq<char>) -> Option<int> {
    if exists|i: int| 0 <= i < s.len() && s[i] == '(' {
        Some(choose|i: int| 0 <= i < s.len() && s[i] == '(' && forall|j: int| 0 <= j < i ==> s[j] != '(')
    } else {
        None
    }
}

pub fn find_paren(s: &[char]) -> (r: Option<usize>)
    ensures
        match r {
            Some(p) => first_paren(s@) == Some(p as int),
            None => first_paren(s@) is None,
        },
{
    let mut i: usize = 0;
    while i < s.len()
        invariant
            i <= s@.len(),
            forall|j: int| 0 <= j < i ==> s@[j] != '(',
        decreases s@.len() - i,
    {
        if s[i] == '(' {
            proof {
                let k = choose|k: int| 0 <= k < s@.len() && s@[k] == '(' && forall|j: int| 0 <= j < k ==> s@[j] != '(';
                if k < i {
                } else if k > i {
                    assert(s@[i as int] != '(');
                }
            }
            return Some(i);
        }
        i = i + 1;
    }
    None
}

pub open spec fn reserved(n: Seq<char>) -> bool {
    n == seq!['v', 'a', 'r'] || n == seq!['s', 'e', 'l', 'f'] || n == seq!['i', 'f'] || n == seq![
        'f',
        'u',
        'n',
        'c',
    ] || n == seq!['r', 'e', 'q', 'u', 'i', 'r', 'e']
}

/// Whether `t` has the shape `name(...)` of a call.
pub open spec fn call_shaped(t: Seq<char>) -> bool {
    &&& first_paren(t) is Some
    &&& is_name(t.subrange(0, first_paren(t)->0))
    &&& !reserved(t.subrange(0, first_paren(t)->0))
    &&& t.last() == ')'
    &&& first_paren(t)->0 < t.len() - 1
}

/// The model of a call: its qualified name and its argument terms.
pub struct CallV {
    pub name: Seq<char>,
    pub args: Seq<Seq<AtomV>>,
}

/// The argument terms of a call, decoded in order.
pub open spec fn args_of(ps: Seq<Seq<char>>) -> Result<Seq<Seq<AtomV>>, SyntaxIssue>
    decreases ps.len(),
{
    if ps.len() == 0 {
        Ok(Seq::empty())
    } else if trim(ps[0]).len() == 0 {
        Err(SyntaxIssue::EmptyArgument)
    } else {
        match term_of(trim(ps[0])) {
            Err(e) => Err(e),
            Ok(a) => match args_of(ps.drop_first()) {
                Err(e) => Err(e),
                Ok(r) => Ok(seq![a] + r),
            },
        }
    }
}

/// A call-shaped text as a call: arguments split at top-level commas.
pub open spec fn call_of(t: Seq<char>) -> Result<CallV, SyntaxIssue> {
    let p = first_paren(t)->0;
    let body = t.subrange(p + 1, t.len() - 1);
    if trim(body).len() == 0 {
        Ok(CallV { name: t.subrange(0, p), args: Seq::empty() })
    } else {
        match split_of(body, ',') {
            Err(e) => Err(e),
            Ok(ps) => match args_of(ps) {
                Err(e) => Err(e),
                Ok(a) => Ok(CallV { name: t.subrange(0, p), args: a }),
            },
        }
    }
}

/// An expression: a call, or a term.
#[derive(Debug, Clone, PartialEq, Eq)]
pub enum Expr {
    Term(Vec<Atom>),
    Call(String, Vec<Vec<Atom>>),
}

pub enum ExprV {
    Term(Seq<AtomV>),
    Call(CallV),
}

pub open spec fn arg_views(v: Seq<Vec<Atom>>) -> Seq<Seq<AtomV>> {
    v.map_values(|a: Vec<Atom>| atom_views(a@))
}

impl View for Expr {
    type V = ExprV;

    open spec fn view(&self) -> ExprV {
        match self {
            Expr::Term(v) => ExprV::Term(atom_views(v@)),
            Expr::Call(n, a) => ExprV::Call(CallV { name: n@, args: arg_views(a@) }),
        }
    }
}

/// What a (trimmed) expression text means.
#[verifier::opaque]
pub open spec fn expr_of(t: Seq<char>) -> Result<ExprV, SyntaxIssue> {
    if call_shaped(t) {
        match call_of(t) {
            Err(e) => Err(e),
            Ok(c) => Ok(ExprV::Call(c)),
        }
    } else {
        match term_of(t) {
            Err(e) => Err(e),
            Ok(a) => Ok(ExprV::Term(a)),
        }
    }
}

fn parse_args(body: &[char]) -> (r: Result<Vec<Vec<Atom>>, SyntaxIssue>)
    ensures
        match (r, split_of(body@, ',')) {
            (_, Err(f)) => r == Err::<Vec<Vec<Atom>>, SyntaxIssue>(f),
            (Ok(v), Ok(ps)) => args_of(ps) == Ok::<Seq<Seq<AtomV>>, SyntaxIssue>(arg_views(v@)),
            (Err(e), Ok(ps)) => args_of(ps) == Err::<Seq<Seq<AtomV>>, SyntaxIssue>(e),
        },
{
    let ps = match split_top(body, ',') {
        Ok(ps) => ps,
        Err(e) => {
            return Err(e);
        },
    };
    let ghost pv = views(ps@);
    let mut out: Vec<Vec<Atom>> = Vec::new();
    let mut i: usize = 0;
    assert(pv.subrange(0, pv.len() as int) =~= pv);
    while i < ps.len()
        invariant
            pv == views(ps@),
            split_of(body@, ',') == Ok::<Seq<Seq<char>>, SyntaxIssue>(pv),
            i <= ps@.len(),
            args_of(pv) == (match args_of(pv.subrange(i as int, pv.len() as int)) {
                Err(e) => Err(e),
                Ok(r) => Ok(arg_views(out@) + r),
            }),
        decreases ps@.len() - i,
    {
        let ghost rest = pv.subrange(i as int, pv.len() as int);
        assert(rest.drop_first() =~= pv.subrange(i + 1, pv.len() as int));
        let piece = trim_chars(ps[i].as_slice());
        assert(rest[0] == pv[i as int]);
        if piece.len() == 0 {
            assert(args_of(rest) == Err::<Seq<Seq<AtomV>>, SyntaxIssue>(SyntaxIssue::EmptyArgument));
            return Err(SyntaxIssue::EmptyArgument);
        }
        match parse_term(piece.as_slice()) {
            Err(e) => {
                assert(args_of(rest) == Err::<Seq<Seq<AtomV>>, SyntaxIssue>(e));
                return Err(e);
            },
            Ok(a) => {
                let ghost before = arg_views(out@);
                out.push(a);
                proof {
                    assert(arg_views(out@) =~= before + seq![atom_views(a@)]);
                    match args_of(pv.subrange(i + 1, pv.len() as int)) {
                        Err(e) => {},
                        Ok(r) => {
                            assert(before + (seq![atom_views(a@)] + r) =~= arg_views(out@) + r);
                        },
                    }
                }
            },
        }
        i = i + 1;
    }
    assert(arg_views(out@) + Seq::<Seq<AtomV>>::empty() =~= arg_views(out@));
    Ok(out)
}

fn is_reserved(n: &[char]) -> (r: bool)
    ensures
        r == reserved(n@),
{
    let v = crate::text::chars_eq(n, &['v', 'a', 'r']);
    let s = crate::text::chars_eq(n, &['s', 'e', 'l', 'f']);
    let i = crate::text::chars_eq(n, &['i', 'f']);
    let f = crate::text::chars_eq(n, &['f', 'u', 'n', 'c']);
    let q = crate::text::chars_eq(n, &['r', 'e', 'q', 'u', 'i', 'r', 'e']);
    v || s || i || f || q
}

/// Parses a trimmed expression text.
pub fn parse_expr(t: &[char]) -> (r: Result<Expr, SyntaxIssue>)
    ensures
        match (r, expr_of(t@)) {
            (Ok(e), Ok(m)) => e@ == m,
            (Err(e), Err(f)) => e == f,
            _ => false,
        },
{
    reveal(expr_of);
    let n = t.len();
    if let Some(p) = find_paren(t) {
        if n > 0 && t[n - 1] == ')' && p < n - 1 {
            let name = slice_chars(t, 0, p);
            if check_name(name.as_slice()) && !is_reserved(name.as_slice()) {
                assert(call_shaped(t@));
                let body = slice_chars(t, p + 1, n - 1);
                let tb = trim_chars(body.as_slice());
                if tb.len() == 0 {
                    let e = Expr::Call(string_of(name.as_slice()), Vec::new());
                    assert(arg_views(Seq::<Vec<Atom>>::empty()) =~= Seq::<Seq<AtomV>>::empty());
                    return Ok(e);
                }
                return match parse_args(body.as_slice()) {
                    Ok(a) => Ok(Expr::Call(string_of(name.as_slice()), a)),
                    Err(e) => Err(e),
                };
            }
        }
    }
    match parse_term(t) {
        Ok(a) => Ok(Expr::Term(a)),
        Err(e) => Err(e),
    }
}

} // verus!

verus! {

/// A comparison operator of a condition.
#[derive(Debug, Clone, Copy, PartialEq, Eq, Structural)]
pub enum CmpOp {
    Gt,
    Lt,
    Eq,
    Ne,
}

/// A condition: two operands and the comparison between them.
#[derive(Debug, Clone, PartialEq, Eq)]
pub struct Condition {
    pub op: CmpOp,
    pub left: Atom,
    pub right: Atom,
}

pub struct CondV {
    pub op: CmpOp,
    pub left: AtomV,
    pub right: AtomV,
}

impl View for Condition {
    type V = CondV;

    open spec fn view(&self) -> CondV {
        CondV { op: self.op, left: self.left@, right: self.right@ }
    }
}

/// The operator starting at `t[i]` and its width.
pub open spec fn op_at(t: Seq<char>, i: int) -> Option<(CmpOp, int)> {
    if i + 1 < t.len() && t[i] == '=' && t[i + 1] == '=' {
        Some((CmpOp::Eq, 2))
    } else if i + 1 < t.len() && t[i] == '!' && t[i + 1] == '=' {
        Some((CmpOp::Ne, 2))
    } else if t[i] == '>' {
        Some((CmpOp::Gt, 1))
    } else if t[i] == '<' {
        Some((CmpOp::Lt, 1))
    } else {
        None
    }
}

/// An operator at `i`, outside strings and parentheses, with no parenthesis
/// closed too early before it.
pub open spec fn op_here(t: Seq<char>, i: int) -> bool {
    &&& 0 <= i < t.len()
    &&& top_level(t, i)
    &&& op_at(t, i) is Some
    &&& forall|j: int| 0 <= j <= i ==> #[trigger] state_at(t, j).depth >= 0
}

/// What a condition text means: split at its first operator.
#[verifier::opaque]
pub open spec fn cond_of(t: Seq<char>) -> Result<CondV, SyntaxIssue> {
    if exists|i: int| op_here(t, i) {
        let i = choose|i: int| op_here(t, i) && forall|j: int| 0 <= j < i ==> !op_here(t, j);
        let (op, w) = op_at(t, i)->0;
        match (atom_of(trim(t.subrange(0, i)), true), atom_of(trim(t.subrange(i + w, t.len() as int)), true)) {
            (Err(e), _) => Err(e),
            (Ok(_), Err(e)) => Err(e),
            (Ok(l), Ok(r)) => Ok(CondV { op, left: l, right: r }),
        }
    } else {
        Err(SyntaxIssue::BadCondition)
    }
}

fn find_op(t: &[char]) -> (r: Option<(usize, CmpOp, usize)>)
    ensures
        match r {
            Some((i, op, w)) => op_here(t@, i as int) && (forall|j: int|
                0 <= j < i ==> !op_here(t@, j)) && op_at(t@, i as int) == Some((op, w as int)),
            None => forall|i: int| !op_here(t@, i),
        },
{
    let n = t.len();
    let mut in_string = false;
    let mut escape = false;
    let mut depth: usize = 0;
    let mut i: usize = 0;
    while i < n
        invariant
            n == t@.len(),
            i <= n,
            depth <= i,
            state_at(t@, i as int) == (crate::scan::ScanState { in_string, escape, depth: depth as int }),
            forall|j: int| 0 <= j <= i ==> #[trigger] state_at(t@, j).depth >= 0,
            forall|j: int| 0 <= j < i ==> !op_here(t@, j),
        decreases n - i,
    {
        let c = t[i];
        proof {
            lemma_escape_in_string(t@, i as int);
        }
        if !in_string && depth == 0 {
            let hit: Option<(CmpOp, usize)> = if i + 1 < n && c == '=' && t[i + 1] == '=' {
                Some((CmpOp::Eq, 2))
            } else if i + 1 < n && c == '!' && t[i + 1] == '=' {
                Some((CmpOp::Ne, 2))
            } else if c == '>' {
                Some((CmpOp::Gt, 1))
            } else if c == '<' {
                Some((CmpOp::Lt, 1))
            } else {
                None
            };
            if let Some((op, w)) = hit {
                assert(op_here(t@, i as int));
                return Some((i, op, w));
            }
        }
        if escape {
            escape = false;
        } else if in_string {
            if c == '\\' {
                escape = true;
            } else if c == '"' {
                in_string = false;
            }
        } else if c == '"' {
            in_string = true;
        } else if c == '(' {
            depth = depth + 1;
        } else if c == ')' {
            if depth == 0 {
                proof {
                    assert(state_at(t@, i + 1).depth < 0);
                    assert forall|k: int| !op_here(t@, k) by {
                        if op_here(t@, k) && k > i {
                            assert(state_at(t@, i + 1).depth >= 0);
                        }
                    }
                }
                return None;
            }
            depth = depth - 1;
        }
        i = i + 1;
        assert(state_at(t@, i as int) == crate::scan::step(state_at(t@, i - 1), t@[i - 1]));
    }
    None
}

/// Parses a condition text.
pub fn parse_condition(t: &[char]) -> (r: Result<Condition, SyntaxIssue>)
    ensures
        match (r, cond_of(t@)) {
            (Ok(c), Ok(m)) => c@ == m,
            (Err(e), Err(f)) => e == f,
            _ => false,
        },
{
    reveal(cond_of);
    let n = t.len();
    match find_op(t) {
        None => Err(SyntaxIssue::BadCondition),
        Some((i, op, w)) => {
            proof {
                let k = choose|k: int| op_here(t@, k) && forall|j: int| 0 <= j < k ==> !op_here(t@, j);
                assert(k == i);
                assert(i + w <= t@.len());
            }
            let l = trim_chars(slice_chars(t, 0, i).as_slice());
            let rr = trim_chars(slice_chars(t, i + w, n).as_slice());
            match decode_atom(l.as_slice(), true) {
                Err(e) => Err(e),
                Ok(left) => match decode_atom(rr.as_slice(), true) {
                    Err(e) => Err(e),
                    Ok(right) => Ok(Condition { op, left, right }),
                },
            }
        },
    }
}

} // verus!
