//! Statements and blocks: the program a source unit parses into.
use std::rc::Rc;
use vstd::prelude::*;

use crate::error::{Fault, LangError, SyntaxIssue};
use crate::literal::{has_prefix, inner, var_open, wrapped};
use crate::scan::{split_top, views};
use crate::syntax::{
    check_name, cond_of, expr_of, find_paren, is_name, parse_condition,
    parse_expr, CondV, Condition, Expr, ExprV,
};
use crate::text::{
    chars_eq, chars_of, ends_with, find_first, find_last, find_seq, first_index, first_occurrence,
    last_index, slice_chars, starts_with, string_of, trim, trim_chars,
};

verus! {

/// A statement of the language.
#[derive(Debug, PartialEq, Eq)]
pub enum Stmt {
    /// `require("name")`: load a module before going on.
    Require(String),
    /// `var(name) = expr`: bind a variable.
    VarDecl(String, Expr),
    /// An expression evaluated for its effect (or, last in a function body, its value).
    Expr(Expr),
    /// `if(cond) { ... } else { ... }`.
    If(Condition, Vec<Stmt>, Option<Vec<Stmt>>),
    /// `func(name(self(a), ...)) = { ... }`.
    FuncDef(String, Rc<FuncBody>),
}

/// The parameters and body of a user function.
#[derive(Debug, PartialEq, Eq)]
pub struct FuncBody {
    pub params: Vec<String>,
    pub body: Vec<Stmt>,
}

pub open spec fn param_names(p: Seq<String>) -> Seq<Seq<char>> {
    p.map_values(|s: String| s@)
}

/// The model of a user function: its parameter names and its body.
pub struct FuncV {
    pub params: Seq<Seq<char>>,
    pub body: Seq<Stmt>,
}

impl View for FuncBody {
    type V = FuncV;

    open spec fn view(&self) -> FuncV {
        FuncV { params: param_names(self.params@), body: self.body@ }
    }
}

/// The model of a one-line statement.
pub enum SimpleV {
    Require(Seq<char>),
    VarDecl(Seq<char>, ExprV),
    Expr(ExprV),
}

pub open spec fn require_open() -> Seq<char> {
    seq!['r', 'e', 'q', 'u', 'i', 'r', 'e', '(']
}

pub open spec fn assign_mark() -> Seq<char> {
    seq![' ', '=', ' ']
}

/// The module name of a `require` line: the text between its first and last quote.
pub open spec fn require_of(t: Seq<char>) -> Result<Seq<char>, SyntaxIssue> {
    match (first_index(t, '"'), last_index(t, '"')) {
        (Some(a), Some(b)) => if a < b {
            Ok(t.subrange(a + 1, b))
        } else {
            Err(SyntaxIssue::BadRequire)
        },
        _ => Err(SyntaxIssue::BadRequire),
    }
}

/// What a `var(name) = expr` line means, split at its first ` = `.
pub open spec fn assign_of(t: Seq<char>) -> Result<SimpleV, SyntaxIssue> {
    let k = first_occurrence(t, assign_mark())->0;
    let lhs = trim(t.subrange(0, k));
    let rhs = trim(t.subrange(k + 3, t.len() as int));
    if wrapped(lhs, var_open()) && is_name(inner(lhs, 4)) {
        match expr_of(rhs) {
            Ok(e) => Ok(SimpleV::VarDecl(inner(lhs, 4), e)),
            Err(e) => Err(e),
        }
    } else {
        Err(SyntaxIssue::BadAssignment)
    }
}

/// What a one-line statement (trimmed, without its `;`) means.
pub open spec fn simple_of(t: Seq<char>) -> Result<SimpleV, SyntaxIssue> {
    if has_prefix(t, require_open()) {
        match require_of(t) {
            Ok(n) => Ok(SimpleV::Require(n)),
            Err(e) => Err(e),
        }
    } else if has_prefix(t, var_open()) && first_occurrence(t, assign_mark()) is Some {
        assign_of(t)
    } else {
        match expr_of(t) {
            Ok(e) => Ok(SimpleV::Expr(e)),
            Err(e) => Err(e),
        }
    }
}

/// Whether a parsed statement is the one-line statement `m`.
pub open spec fn is_simple(s: Stmt, m: SimpleV) -> bool {
    match (s, m) {
        (Stmt::Require(n), SimpleV::Require(k)) => n@ == k,
        (Stmt::VarDecl(n, e), SimpleV::VarDecl(k, f)) => n@ == k && e@ == f,
        (Stmt::Expr(e), SimpleV::Expr(f)) => e@ == f,
        _ => false,
    }
}

pub open spec fn matches_simple(r: Result<Stmt, SyntaxIssue>, m: Result<SimpleV, SyntaxIssue>) -> bool {
    match (r, m) {
        (Ok(s), Ok(m)) => is_simple(s, m),
        (Err(e), Err(f)) => e == f,
        _ => false,
    }
}

fn parse_require(t: &[char]) -> (r: Result<Stmt, SyntaxIssue>)
    ensures
        match (r, require_of(t@)) {
            (Ok(s), Ok(n)) => is_simple(s, SimpleV::Require(n)),
            (Err(e), Err(f)) => e == f,
            _ => false,
        },
{
    match (find_first(t, '"'), find_last(t, '"')) {
        (Some(a), Some(b)) => {
            if a < b {
                Ok(Stmt::Require(string_of(slice_chars(t, a + 1, b).as_slice())))
            } else {
                Err(SyntaxIssue::BadRequire)
            }
        },
        _ => Err(SyntaxIssue::BadRequire),
    }
}

fn parse_assignment(t: &[char], k: usize) -> (r: Result<Stmt, SyntaxIssue>)
    requires
        k + 3 <= t@.len(),
        first_occurrence(t@, assign_mark()) == Some(k as int),
    ensures
        matches_simple(r, assign_of(t@)),
{
    let n = t.len();
    let lhs = trim_chars(slice_chars(t, 0, k).as_slice());
    let rhs = trim_chars(slice_chars(t, k + 3, n).as_slice());
    let m = lhs.len();
    if m > 4 && starts_with(lhs.as_slice(), &['v', 'a', 'r', '(']) && lhs[m - 1] == ')' {
        assert(lhs@.subrange(0, 4) == var_open());
        let name = slice_chars(lhs.as_slice(), 4, m - 1);
        if check_name(name.as_slice()) {
            return match parse_expr(rhs.as_slice()) {
                Ok(e) => Ok(Stmt::VarDecl(string_of(name.as_slice()), e)),
                Err(e) => Err(e),
            };
        }
    }
    Err(SyntaxIssue::BadAssignment)
}

/// Parses a one-line statement.
pub fn parse_simple(t: &[char]) -> (r: Result<Stmt, SyntaxIssue>)
    ensures
        matches_simple(r, simple_of(t@)),
{
    if starts_with(t, &['r', 'e', 'q', 'u', 'i', 'r', 'e', '(']) {
        assert(t@.subrange(0, 8) == require_open());
        return parse_require(t);
    }
    assert(!has_prefix(t@, require_open())) by {
        if has_prefix(t@, require_open()) {
            assert(require_open().len() == 8);
        }
    }
    if starts_with(t, &['v', 'a', 'r', '(']) {
        assert(t@.subrange(0, 4) == var_open());
        if let Some(k) = find_seq(t, &[' ', '=', ' ']) {
            assert(seq![' ', '=', ' '] == assign_mark());
            return parse_assignment(t, k);
        }
        assert(seq![' ', '=', ' '] == assign_mark());
    } else {
        assert(!has_prefix(t@, var_open())) by {
            if has_prefix(t@, var_open()) {
                assert(var_open().len() == 4);
            }
        }
    }
    match parse_expr(t) {
        Ok(e) => Ok(Stmt::Expr(e)),
        Err(e) => Err(e),
    }
}

} // verus!

verus! {

/// How a block's statement list ended.
#[derive(Debug, Clone, Copy, PartialEq, Eq, Structural)]
pub enum BlockEnd {
    /// The end of the source unit.
    Eof,
    /// A closing brace: `}` (or `})` after a function body).
    Close,
    /// `} else {`: the block closed and an `else` block opened.
    CloseElse,
}

/// The error for `issue` on the line with index `i`: an unterminated string
/// is a lexical error, anything else a parse error. Lines count from 1.
pub open spec fn error_at(i: int, issue: SyntaxIssue) -> LangError {
    if issue == SyntaxIssue::UnterminatedString {
        LangError::Lex { line: (i + 1) as usize, issue }
    } else {
        LangError::Parse { line: (i + 1) as usize, issue }
    }
}

/// The model of `error_at`.
pub open spec fn fault_at(i: int, issue: SyntaxIssue) -> Fault {
    if issue == SyntaxIssue::UnterminatedString {
        Fault::Lex((i + 1) as usize, issue)
    } else {
        Fault::Parse((i + 1) as usize, issue)
    }
}

/// Lines of a text: the pieces between its `\n` characters.
pub open spec fn split_nl(s: Seq<char>) -> Seq<Seq<char>>
    decreases s.len(),
{
    if s.len() == 0 {
        seq![Seq::empty()]
    } else {
        let p = split_nl(s.drop_last());
        if s.last() == '\n' {
            p.push(Seq::empty())
        } else {
            p.update(p.len() - 1, p.last().push(s.last()))
        }
    }
}

proof fn lemma_split_nl_nonempty(s: Seq<char>)
    ensures
        split_nl(s).len() >= 1,
    decreases s.len(),
{
    if s.len() > 0 {
        lemma_split_nl_nonempty(s.drop_last());
    }
}

pub open spec fn trail_semis(t: Seq<char>) -> nat
    decreases t.len(),
{
    if t.len() > 0 && t.last() == ';' {
        1 + trail_semis(t.drop_last())
    } else {
        0
    }
}

/// The text of a statement line: trimmed, without trailing `;`, trimmed again.
pub open spec fn stmt_text(line: Seq<char>) -> Seq<char> {
    let t = trim(uncommented(line));
    trim(t.subrange(0, t.len() - trail_semis(t)))
}

/// A `//` outside any string literal starts at `i`.
pub open spec fn comment_at(s: Seq<char>, i: int) -> bool {
    0 <= i && i + 1 < s.len() && s[i] == '/' && s[i + 1] == '/' && !crate::scan::state_at(s, i).in_string
}

/// A line without its comment: everything before the first `//` that
/// stands outside a string literal.
pub open spec fn uncommented(s: Seq<char>) -> Seq<char> {
    if exists|i: int| comment_at(s, i) {
        s.subrange(0, choose|i: int| comment_at(s, i) && forall|j: int| 0 <= j < i ==> !comment_at(s, j))
    } else {
        s
    }
}

/// A line with no statement: blank, a comment, or only `;`.
pub open spec fn skip_line(line: Seq<char>) -> bool {
    stmt_text(line).len() == 0
}

pub open spec fn else_word() -> Seq<char> {
    seq!['e', 'l', 's', 'e']
}

pub open spec fn close_line(u: Seq<char>) -> bool {
    u == seq!['}'] || u == seq!['}', ')']
}

pub open spec fn close_else_line(u: Seq<char>) -> bool {
    u.len() >= 2 && u[0] == '}' && u.last() == '{' && trim(u.subrange(1, u.len() - 1)) == else_word()
}

pub open spec fn else_open_line(u: Seq<char>) -> bool {
    u == else_word() || (u.len() >= 1 && u.last() == '{' && trim(u.subrange(0, u.len() - 1)) == else_word())
}

pub open spec fn func_header_line(u: Seq<char>) -> bool {
    u.len() >= 9 && has_prefix(u, seq!['f', 'u', 'n', 'c', '(']) && u.subrange(u.len() - 4, u.len() as int)
        == seq![' ', '=', ' ', '{']
}

pub fn syntax_error(i: usize, issue: SyntaxIssue) -> (r: LangError)
    requires
        i < usize::MAX,
    ensures
        r == error_at(i as int, issue),
        r@ == fault_at(i as int, issue),
{
    if issue == SyntaxIssue::UnterminatedString {
        LangError::Lex { line: i + 1, issue }
    } else {
        LangError::Parse { line: i + 1, issue }
    }
}

/// `line` up to its first `//` outside a string literal.
pub fn strip_comment(line: &[char]) -> (r: Vec<char>)
    ensures
        r@ == uncommented(line@),
{
    let n = line.len();
    let mut in_string = false;
    let mut escape = false;
    let mut i: usize = 0;
    while i < n
        invariant
            n == line@.len(),
            i <= n,
            crate::scan::state_at(line@, i as int).in_string == in_string,
            crate::scan::state_at(line@, i as int).escape == escape,
            forall|j: int| 0 <= j < i ==> !comment_at(line@, j),
        decreases n - i,
    {
        let c = line[i];
        proof {
            crate::scan::lemma_escape_in_string(line@, i as int);
        }
        if !in_string && c == '/' && i + 1 < n && line[i + 1] == '/' {
            proof {
                assert(comment_at(line@, i as int));
                let k = choose|k: int| comment_at(line@, k) && forall|j: int| 0 <= j < k ==> !comment_at(line@, j);
                if k > i {
                    assert(!comment_at(line@, i as int));
                }
            }
            return slice_chars(line, 0, i);
        }
        if escape {
            escape = false;
        } else if in_string {
            if c == '\\' {
                escape = true;
            } else if c == '"' {
                in_string = false;
            }
        } else if c == '"' {
            in_string = true;
        }
        i = i + 1;
        assert(crate::scan::state_at(line@, i as int) == crate::scan::step(
            crate::scan::state_at(line@, i - 1),
            line@[i - 1],
        ));
    }
    proof {
        assert forall|j: int| !comment_at(line@, j) by {
            if j >= n {
            }
        }
    }
    assert(line@.subrange(0, n as int) =~= line@);
    slice_chars(line, 0, n)
}

/// The text of a statement line: trimmed, without trailing `;`.
pub fn statement_text(line: &[char]) -> (r: Vec<char>)
    ensures
        r@ == stmt_text(line@),
{
    let code = strip_comment(line);
    let t = trim_chars(code.as_slice());
    let mut k: usize = t.len();
    assert(t@.subrange(0, k as int) =~= t@);
    while k > 0 && t[k - 1] == ';'
        invariant
            k <= t@.len(),
            trail_semis(t@) == (t@.len() - k) + trail_semis(t@.subrange(0, k as int)),
        decreases k,
    {
        assert(t@.subrange(0, k as int).drop_last() =~= t@.subrange(0, k - 1));
        k = k - 1;
    }
    assert(trail_semis(t@.subrange(0, k as int)) == 0);
    trim_chars(slice_chars(t.as_slice(), 0, k).as_slice())
}

/// Splits source text into lines at `\n`.
pub fn split_lines(src: &[char]) -> (r: Vec<Vec<char>>)
    ensures
        views(r@) == split_nl(src@),
{
    let mut out: Vec<Vec<char>> = Vec::new();
    let mut cur: Vec<char> = Vec::new();
    let mut i: usize = 0;
    assert(views(out@).push(cur@) =~= split_nl(src@.subrange(0, 0)));
    while i < src.len()
        invariant
            i <= src@.len(),
            views(out@).push(cur@) == split_nl(src@.subrange(0, i as int)),
        decreases src@.len() - i,
    {
        let ghost p = split_nl(src@.subrange(0, i as int));
        assert(src@.subrange(0, i + 1).drop_last() =~= src@.subrange(0, i as int));
        assert(src@.subrange(0, i + 1).last() == src@[i as int]);
        if src[i] == '\n' {
            out.push(cur);
            cur = Vec::new();
            assert(views(out@).push(cur@) =~= p.push(Seq::empty()));
        } else {
            let ghost before = views(out@);
            cur.push(src[i]);
            assert(views(out@).push(cur@) =~= p.update(p.len() - 1, p.last().push(src@[i as int])));
        }
        i = i + 1;
    }
    assert(src@.subrange(0, src@.len() as int) =~= src@);
    let ghost before = views(out@);
    out.push(cur);
    assert(views(out@) =~= before.push(cur@));
    out
}

fn is_close(u: &[char]) -> (r: bool)
    ensures
        r == close_line(u@),
{
    let n = u.len();
    let r = (n == 1 && u[0] == '}') || (n == 2 && u[0] == '}' && u[1] == ')');
    proof {
        if n == 1 && u@[0] == '}' {
            assert(u@ =~= seq!['}']);
        }
        if n == 2 && u@[0] == '}' && u@[1] == ')' {
            assert(u@ =~= seq!['}', ')']);
        }
    }
    r
}

fn is_close_else(u: &[char]) -> (r: bool)
    ensures
        r == close_else_line(u@),
{
    let n = u.len();
    if n >= 2 && u[0] == '}' && u[n - 1] == '{' {
        let mid = trim_chars(slice_chars(u, 1, n - 1).as_slice());
        chars_eq(mid.as_slice(), &['e', 'l', 's', 'e'])
    } else {
        false
    }
}

fn is_else_open(u: &[char]) -> (r: bool)
    ensures
        r == else_open_line(u@),
{
    let n = u.len();
    if chars_eq(u, &['e', 'l', 's', 'e']) {
        return true;
    }
    if n >= 1 && u[n - 1] == '{' {
        let mid = trim_chars(slice_chars(u, 0, n - 1).as_slice());
        chars_eq(mid.as_slice(), &['e', 'l', 's', 'e'])
    } else {
        false
    }
}

fn skippable(line: &[char]) -> (r: bool)
    ensures
        r == skip_line(line@),
{
    statement_text(line).len() == 0
}

fn is_func_header(u: &[char]) -> (r: bool)
    ensures
        r == func_header_line(u@),
{
    let r = u.len() >= 9 && starts_with(u, &['f', 'u', 'n', 'c', '(']) && ends_with(u, &[' ', '=', ' ', '{']);
    r
}

/// The condition text of an `if(cond) {` header line.
pub open spec fn if_cond_text(u: Seq<char>) -> Option<Seq<char>> {
    if u.len() > 0 && u.last() == '{' {
        let h = trim(u.subrange(0, u.len() - 1));
        if h.len() >= 4 && h.last() == ')' && has_prefix(h, seq!['i', 'f', '(']) {
            Some(trim(h.subrange(3, h.len() - 1)))
        } else {
            None
        }
    } else {
        None
    }
}

/// The condition of an `if(cond) {` header.
fn parse_if_header(u: &[char]) -> (r: Result<Condition, SyntaxIssue>)
    ensures
        match if_cond_text(u@) {
            None => r == Err::<Condition, SyntaxIssue>(SyntaxIssue::BadHeader),
            Some(c) => match (r, cond_of(c)) {
                (Ok(x), Ok(m)) => x@ == m,
                (Err(e), Err(f)) => e == f,
                _ => false,
            },
        },
{
    let n = u.len();
    if n == 0 || u[n - 1] != '{' {
        return Err(SyntaxIssue::BadHeader);
    }
    let h = trim_chars(slice_chars(u, 0, n - 1).as_slice());
    let m = h.len();
    if m < 4 || h[m - 1] != ')' || !starts_with(h.as_slice(), &['i', 'f', '(']) {
        assert(seq!['i', 'f', '('].len() == 3);
        return Err(SyntaxIssue::BadHeader);
    }
    assert(h@.subrange(0, 3) == seq!['i', 'f', '(']);
    let c = trim_chars(slice_chars(h.as_slice(), 3, m - 1).as_slice());
    parse_condition(c.as_slice())
}

/// The parameter names of a function header's parameter list.
fn parse_params(body: &[char]) -> (r: Result<Vec<String>, SyntaxIssue>)
    ensures
        match (r, crate::scan::split_of(body@, ',')) {
            (_, Err(f)) => r == Err::<Vec<String>, SyntaxIssue>(f),
            (Ok(v), Ok(ps)) => params_of(ps) == Ok::<Seq<Seq<char>>, SyntaxIssue>(param_names(v@)),
            (Err(e), Ok(ps)) => params_of(ps) == Err::<Seq<Seq<char>>, SyntaxIssue>(e),
        },
{
    let mut params: Vec<String> = Vec::new();
    let ps = match split_top(body, ',') {
        Ok(ps) => ps,
        Err(e) => {
            return Err(e);
        },
    };
    let ghost pv = views(ps@);
    let mut i: usize = 0;
    assert(pv.subrange(0, pv.len() as int) =~= pv);
    assert(param_names(params@) =~= Seq::<Seq<char>>::empty());
    while i < ps.len()
        invariant
            pv == views(ps@),
            crate::scan::split_of(body@, ',') == Ok::<Seq<Seq<char>>, SyntaxIssue>(pv),
            i <= ps@.len(),
            params_of(pv) == (match params_of(pv.subrange(i as int, pv.len() as int)) {
                Err(e) => Err(e),
                Ok(r) => Ok(param_names(params@) + r),
            }),
        decreases ps@.len() - i,
    {
        let ghost rest = pv.subrange(i as int, pv.len() as int);
        assert(rest.drop_first() =~= pv.subrange(i + 1, pv.len() as int));
        assert(rest[0] == pv[i as int]);
        let q = trim_chars(ps[i].as_slice());
        let k = q.len();
        let wrapped_self = k > 5 && starts_with(q.as_slice(), &['s', 'e', 'l', 'f', '(']) && q[k - 1] == ')';
        assert(wrapped_self == wrapped(q@, crate::literal::self_open())) by {
            assert(crate::literal::self_open().len() == 5);
        }
        let pname = if wrapped_self {
            trim_chars(slice_chars(q.as_slice(), 5, k - 1).as_slice())
        } else {
            q
        };
        if !check_name(pname.as_slice()) {
            assert(params_of(rest) == Err::<Seq<Seq<char>>, SyntaxIssue>(SyntaxIssue::BadName));
            return Err(SyntaxIssue::BadName);
        }
        let ghost before = param_names(params@);
        let pn = string_of(pname.as_slice());
        params.push(pn);
        proof {
            assert(param_names(params@) =~= before.push(pname@));
            match params_of(pv.subrange(i + 1, pv.len() as int)) {
                Err(e) => {},
                Ok(r) => {
                    assert(before + (seq![pname@] + r) =~= param_names(params@) + r);
                },
            }
        }
        i = i + 1;
    }
    assert(param_names(params@) + Seq::<Seq<char>>::empty() =~= param_names(params@));
    Ok(params)
}

/// The call part of a function header line.
fn func_mid_chars(u: &[char]) -> (r: Vec<char>)
    requires
        u@.len() >= 9,
    ensures
        r@ == func_mid(u@),
{
    let n = u.len();
    let whole = trim_chars(slice_chars(u, 5, n - 4).as_slice());
    // `func(name(..)) = {` closes the `func(` on the header line; the other
    // form closes it after the body, as `})`.
    let mut opens: usize = 0;
    let mut closes: usize = 0;
    let mut k: usize = 0;
    assert(whole@.subrange(0, 0) =~= Seq::<char>::empty());
    while k < whole.len()
        invariant
            k <= whole@.len(),
            opens == count_char(whole@.subrange(0, k as int), '('),
            closes == count_char(whole@.subrange(0, k as int), ')'),
            opens <= k,
            closes <= k,
        decreases whole@.len() - k,
    {
        assert(whole@.subrange(0, k + 1).drop_last() =~= whole@.subrange(0, k as int));
        if whole[k] == '(' {
            opens = opens + 1;
        } else if whole[k] == ')' {
            closes = closes + 1;
        }
        k = k + 1;
    }
    assert(whole@.subrange(0, whole@.len() as int) =~= whole@);
    let mid = if closes > opens && whole.len() > 0 && whole[whole.len() - 1] == ')' {
        slice_chars(whole.as_slice(), 0, whole.len() - 1)
    } else {
        whole
    };
    mid
}

/// The name and parameter names of a `func(name(self(a), ...)) = {` header.
fn parse_func_header(u: &[char]) -> (r: Result<(String, Vec<String>), SyntaxIssue>)
    requires
        u@.len() >= 9,
    ensures
        match (r, func_header_of(u@)) {
            (Ok((n, ps)), Ok((m, qs))) => n@ == m && param_names(ps@) == qs,
            (Err(e), Err(f)) => e == f,
            _ => false,
        },
{
    let mid = func_mid_chars(u);
    let m = mid.len();
    let p = match find_paren(mid.as_slice()) {
        Some(p) => p,
        None => {
            return Err(SyntaxIssue::BadHeader);
        },
    };
    if m == 0 || mid[m - 1] != ')' || p >= m - 1 {
        return Err(SyntaxIssue::BadHeader);
    }
    let name = slice_chars(mid.as_slice(), 0, p);
    if !check_name(name.as_slice()) {
        return Err(SyntaxIssue::BadName);
    }
    let body = slice_chars(mid.as_slice(), p + 1, m - 1);
    if trim_chars(body.as_slice()).len() == 0 {
        let params: Vec<String> = Vec::new();
        assert(param_names(params@) =~= Seq::<Seq<char>>::empty());
        return Ok((string_of(name.as_slice()), params));
    }
    match parse_params(body.as_slice()) {
        Ok(params) => Ok((string_of(name.as_slice()), params)),
        Err(e) => Err(e),
    }
}

/// Index of the first line at or after `i` that holds something besides
/// whitespace and comments.
fn next_content(lines: &Vec<Vec<char>>, i: usize) -> (r: usize)
    requires
        i <= lines@.len(),
    ensures
        i <= r <= lines@.len(),
        r == next_content_of(views(lines@), i as int),
{
    let ghost ls = views(lines@);
    let mut k = i;
    while k < lines.len()
        invariant
            i <= k <= lines@.len(),
            ls == views(lines@),
            next_content_of(ls, i as int) == next_content_of(ls, k as int),
        decreases lines@.len() - k,
    {
        assert(ls[k as int] == lines@[k as int]@);
        if !skippable(lines[k].as_slice()) {
            return k;
        }
        k = k + 1;
    }
    k
}

pub open spec fn prefixed(ms: Seq<StmtV>, r: Result<(Seq<StmtV>, int, BlockEnd), Fault>) -> Result<
    (Seq<StmtV>, int, BlockEnd),
    Fault,
> {
    match r {
        Err(f) => Err(f),
        Ok((v, n, e)) => Ok((ms + v, n, e)),
    }
}

/// Whether a parse result is the modelled one.
pub open spec fn block_agrees(
    r: Result<(Vec<Stmt>, usize, BlockEnd), LangError>,
    m: Result<(Seq<StmtV>, int, BlockEnd), Fault>,
) -> bool {
    match (r, m) {
        (Ok((v, n, e)), Ok((w, k, f))) => stmts_v(v@) == w && n as int == k && e == f,
        (Err(e), Err(f)) => e@ == f,
        _ => false,
    }
}

proof fn lemma_simple_view(st: Stmt, m: SimpleV)
    requires
        is_simple(st, m),
    ensures
        stmt_v(st) == StmtV::Line(m),
{
}

proof fn lemma_stmts_push(v: Seq<Stmt>, st: Stmt)
    ensures
        stmts_v(v.push(st)) == stmts_v(v).push(stmt_v(st)),
{
    assert(stmts_v(v.push(st)) =~= stmts_v(v).push(stmt_v(st)));
}

proof fn lemma_if_view(c: Condition, t: Vec<Stmt>, e: Option<Vec<Stmt>>)
    ensures
        stmt_v(Stmt::If(c, t, e)) == StmtV::If(
            c@,
            stmts_v(t@),
            match e {
                Some(b) => Some(stmts_v(b@)),
                None => None,
            },
        ),
{
    let v = stmt_v(Stmt::If(c, t, e));
    assert(v->If_1 =~= stmts_v(t@));
    match e {
        Some(b) => {
            assert(v->If_2->0 =~= stmts_v(b@));
        },
        None => {},
    }
}

proof fn lemma_func_view(n: String, f: Rc<FuncBody>)
    ensures
        stmt_v(Stmt::FuncDef(n, f)) == StmtV::Func(n@, param_names(f.params@), stmts_v(f.body@)),
{
    let v = stmt_v(Stmt::FuncDef(n, f));
    assert(v->Func_2 =~= stmts_v(f.body@));
}

/// Parses an `if` statement whose header is line `i`, with its blocks.
fn parse_if(lines: &Vec<Vec<char>>, i: usize) -> (r: Result<(Stmt, usize), LangError>)
    requires
        i < lines@.len(),
    ensures
        match (r, if_at(views(lines@), i as int)) {
            (Ok((s, n)), Ok((m, k))) => stmt_v(s) == m && n as int == k && i < n <= lines@.len(),
            (Err(e), Err(f)) => e@ == f,
            _ => false,
        },
    decreases lines@.len() - i, 0u32,
{
    let ghost ls = views(lines@);
    let total = lines.len();
    assert(ls[i as int] == lines@[i as int]@);
    let u = statement_text(lines[i].as_slice());
    let cond = match parse_if_header(u.as_slice()) {
        Ok(c) => c,
        Err(e) => {
            return Err(syntax_error(i, e));
        },
    };
    let (then_block, j, end) = match parse_block(lines, i + 1, true) {
        Ok(x) => x,
        Err(e) => {
            return Err(e);
        },
    };
    if end == BlockEnd::CloseElse {
        let (else_block, j2, end2) = match parse_block(lines, j, true) {
            Ok(x) => x,
            Err(e) => {
                return Err(e);
            },
        };
        if end2 != BlockEnd::Close {
            return Err(syntax_error(j2 - 1, SyntaxIssue::MisplacedElse));
        }
        let s1 = Stmt::If(cond, then_block, Some(else_block));
        proof {
            lemma_if_view(s1->If_0, s1->If_1, s1->If_2);
        }
        return Ok((s1, j2));
    }
    let k = next_content(lines, j);
    if k < lines.len() {
        assert(ls[k as int] == lines@[k as int]@);
        let tk = statement_text(lines[k].as_slice());
        if is_else_open(tk.as_slice()) {
            let (else_block, j2, end2) = match parse_block(lines, k + 1, true) {
                Ok(x) => x,
                Err(e) => {
                    return Err(e);
                },
            };
            if end2 != BlockEnd::Close {
                return Err(syntax_error(j2 - 1, SyntaxIssue::MisplacedElse));
            }
            let s1 = Stmt::If(cond, then_block, Some(else_block));
            proof {
                lemma_if_view(s1->If_0, s1->If_1, s1->If_2);
            }
            return Ok((s1, j2));
        }
    }
    let s1 = Stmt::If(cond, then_block, None);
    proof {
        lemma_if_view(s1->If_0, s1->If_1, s1->If_2);
    }
    Ok((s1, j))
}

/// Parses a function definition whose header is line `i`, with its body.
fn parse_func(lines: &Vec<Vec<char>>, i: usize) -> (r: Result<(Stmt, usize), LangError>)
    requires
        i < lines@.len(),
        func_header_line(stmt_text(lines@[i as int]@)),
    ensures
        match (r, func_at(views(lines@), i as int)) {
            (Ok((s, n)), Ok((m, k))) => stmt_v(s) == m && n as int == k && i < n <= lines@.len(),
            (Err(e), Err(f)) => e@ == f,
            _ => false,
        },
    decreases lines@.len() - i, 0u32,
{
    let ghost ls = views(lines@);
    let total = lines.len();
    assert(ls[i as int] == lines@[i as int]@);
    let u = statement_text(lines[i].as_slice());
    let (name, params) = match parse_func_header(u.as_slice()) {
        Ok(x) => x,
        Err(e) => {
            return Err(syntax_error(i, e));
        },
    };
    let (body, j, end) = match parse_block(lines, i + 1, true) {
        Ok(x) => x,
        Err(e) => {
            return Err(e);
        },
    };
    if end != BlockEnd::Close {
        return Err(syntax_error(j - 1, SyntaxIssue::MisplacedElse));
    }
    let s1 = Stmt::FuncDef(name, Rc::new(FuncBody { params, body }));
    proof {
        lemma_func_view(s1->FuncDef_0, s1->FuncDef_1);
    }
    Ok((s1, j))
}

/// Parses statements from line `start` until the block closes (when
/// `nested`) or the source ends (when not). Returns the statements, the index
/// of the line after the block, and how it ended.
#[verifier::rlimit(100)]
pub fn parse_block(lines: &Vec<Vec<char>>, start: usize, nested: bool) -> (r: Result<
    (Vec<Stmt>, usize, BlockEnd),
    LangError,
>)
    requires
        start <= lines@.len(),
    ensures
        match r {
            Ok((_, next, end)) => start <= next <= lines@.len() && (nested ==> start < next && end
                != BlockEnd::Eof) && (!nested ==> end == BlockEnd::Eof && next == lines@.len()),
            Err(_) => true,
        },
        block_agrees(r, block_of(views(lines@), start as int, nested)),
    decreases lines@.len() - start, 2u32,
{
    let ghost ls = views(lines@);
    let ghost mut ms: Seq<StmtV> = Seq::empty();
    let mut out: Vec<Stmt> = Vec::new();
    let mut i: usize = start;
    assert(prefixed(Seq::empty(), block_of(ls, start as int, nested)) =~= block_of(ls, start as int, nested))
        by {
        match block_of(ls, start as int, nested) {
            Err(f) => {},
            Ok((v, n, e)) => {
                assert(Seq::<StmtV>::empty() + v =~= v);
            },
        }
    }
    while i < lines.len()
        invariant
            start <= i <= lines@.len(),
            ls == views(lines@),
            stmts_v(out@) == ms,
            i > start || ms.len() == 0,
            block_of(ls, start as int, nested) == prefixed(ms, block_of(ls, i as int, nested)),
        decreases lines@.len() - i,
    {
        assert(ls[i as int] == lines@[i as int]@);
        if skippable(lines[i].as_slice()) {
            i = i + 1;
            continue;
        }
        let u = statement_text(lines[i].as_slice());
        if is_close(u.as_slice()) {
            if nested {
                return Ok((out, i + 1, BlockEnd::Close));
            }
            return Err(syntax_error(i, SyntaxIssue::StrayBrace));
        }
        if is_close_else(u.as_slice()) {
            if nested {
                return Ok((out, i + 1, BlockEnd::CloseElse));
            }
            return Err(syntax_error(i, SyntaxIssue::StrayBrace));
        }
        if is_else_open(u.as_slice()) {
            return Err(syntax_error(i, SyntaxIssue::MisplacedElse));
        }
        let opens_if = starts_with(u.as_slice(), &['i', 'f', '(']);
        assert(opens_if == has_prefix(u@, seq!['i', 'f', '('])) by {
            assert(seq!['i', 'f', '('].len() == 3);
        }
        let ghost at = block_of(ls, i as int, nested);
        let ghost st: StmtV;
        let ghost next: int;
        if opens_if || is_func_header(u.as_slice()) {
            let step = if opens_if {
                parse_if(lines, i)
            } else {
                parse_func(lines, i)
            };
            proof {
                if opens_if {
                    assert(at == then_rest(ls, i as int, nested, if_at(ls, i as int)));
                } else {
                    assert(at == then_rest(ls, i as int, nested, func_at(ls, i as int)));
                }
            }
            match step {
                Err(e) => {
                    return Err(e);
                },
                Ok((s1, nx)) => {
                    proof {
                        st = stmt_v(s1);
                        next = nx as int;
                        lemma_stmts_push(out@, s1);
                    }
                    out.push(s1);
                    i = nx;
                },
            }
        } else {
            match parse_simple(u.as_slice()) {
                Ok(s1) => {
                    proof {
                        lemma_simple_view(s1, simple_of(u@)->Ok_0);
                        st = stmt_v(s1);
                        next = i + 1;
                        lemma_stmts_push(out@, s1);
                    }
                    out.push(s1);
                },
                Err(e) => {
                    return Err(syntax_error(i, e));
                },
            }
            i = i + 1;
        }
        proof {
            match block_of(ls, next, nested) {
                Err(f) => {},
                Ok((v, n, e)) => {
                    assert(ms + (seq![st] + v) =~= ms.push(st) + v);
                },
            }
            ms = ms.push(st);
        }
    }
    if nested {
        let last = if lines.len() == 0 { 0 } else { lines.len() - 1 };
        return Err(syntax_error(last, SyntaxIssue::UnclosedBlock));
    }
    assert(ms + Seq::<StmtV>::empty() =~= ms);
    Ok((out, i, BlockEnd::Eof))
}

/// Parses a whole source unit into its statements. Nothing of a source unit
/// with a syntax error is returned.
pub fn parse_program(src: &str) -> (r: Result<Vec<Stmt>, LangError>)
    ensures
        match (r, program_of(src@)) {
            (Ok(v), Ok(m)) => stmts_v(v@) == m,
            (Err(e), Err(f)) => e@ == f,
            _ => false,
        },
{
    let cs = chars_of(src);
    let lines = split_lines(cs.as_slice());
    match parse_block(&lines, 0, false) {
        Ok((stmts, _, _)) => Ok(stmts),
        Err(e) => Err(e),
    }
}

} // verus!

verus! {

/// The model of a statement, blocks included.
pub enum StmtV {
    Line(SimpleV),
    If(CondV, Seq<StmtV>, Option<Seq<StmtV>>),
    Func(Seq<char>, Seq<Seq<char>>, Seq<StmtV>),
}

pub open spec fn stmt_v(s: Stmt) -> StmtV
    decreases s,
{
    match s {
        Stmt::Require(n) => StmtV::Line(SimpleV::Require(n@)),
        Stmt::VarDecl(n, e) => StmtV::Line(SimpleV::VarDecl(n@, e@)),
        Stmt::Expr(e) => StmtV::Line(SimpleV::Expr(e@)),
        Stmt::If(c, t, e) => StmtV::If(
            c@,
            Seq::new(t@.len(), |i: int| if 0 <= i < t@.len() { stmt_v(t@[i]) } else { StmtV::Line(SimpleV::Require(Seq::empty())) }),
            match e {
                Some(b) => Some(Seq::new(b@.len(), |i: int| if 0 <= i < b@.len() { stmt_v(b@[i]) } else { StmtV::Line(SimpleV::Require(Seq::empty())) })),
                None => None,
            },
        ),
        Stmt::FuncDef(n, f) => StmtV::Func(
            n@,
            param_names(f.params@),
            Seq::new(f.body@.len(), |i: int| if 0 <= i < f.body@.len() { stmt_v(f.body@[i]) } else { StmtV::Line(SimpleV::Require(Seq::empty())) }),
        ),
    }
}

} // verus!

verus! {

pub open spec fn stmts_v(v: Seq<Stmt>) -> Seq<StmtV> {
    v.map_values(|s: Stmt| stmt_v(s))
}

pub open spec fn count_char(s: Seq<char>, c: char) -> nat
    decreases s.len(),
{
    if s.len() == 0 {
        0
    } else {
        count_char(s.drop_last(), c) + if s.last() == c { 1nat } else { 0nat }
    }
}

/// The parameter names of a function header, in order.
pub open spec fn params_of(ps: Seq<Seq<char>>) -> Result<Seq<Seq<char>>, SyntaxIssue>
    decreases ps.len(),
{
    if ps.len() == 0 {
        Ok(Seq::empty())
    } else {
        let q = trim(ps[0]);
        let n = if wrapped(q, crate::literal::self_open()) { trim(inner(q, 5)) } else { q };
        if !is_name(n) {
            Err(SyntaxIssue::BadName)
        } else {
            match params_of(ps.drop_first()) {
                Err(e) => Err(e),
                Ok(r) => Ok(seq![n] + r),
            }
        }
    }
}

/// The call part of a function header: `name(params)`, with a `)` that
/// closes `func(` on the same line dropped.
pub open spec fn func_mid(u: Seq<char>) -> Seq<char> {
    let whole = trim(u.subrange(5, u.len() - 4));
    if count_char(whole, ')') > count_char(whole, '(') && whole.len() > 0 && whole.last() == ')' {
        whole.drop_last()
    } else {
        whole
    }
}

/// The name and parameter names of a `func(name(self(a), ...)) = {` line.
pub open spec fn func_header_of(u: Seq<char>) -> Result<(Seq<char>, Seq<Seq<char>>), SyntaxIssue> {
    let mid = func_mid(u);
    let m = mid.len();
    match crate::syntax::first_paren(mid) {
        None => Err(SyntaxIssue::BadHeader),
        Some(p) => if m == 0 || mid.last() != ')' || p >= m - 1 {
            Err(SyntaxIssue::BadHeader)
        } else if !is_name(mid.subrange(0, p)) {
            Err(SyntaxIssue::BadName)
        } else {
            let body = mid.subrange(p + 1, m - 1);
            if trim(body).len() == 0 {
                Ok((mid.subrange(0, p), Seq::empty()))
            } else {
                match crate::scan::split_of(body, ',') {
                    Err(e) => Err(e),
                    Ok(ps) => match params_of(ps) {
                        Err(e) => Err(e),
                        Ok(names) => Ok((mid.subrange(0, p), names)),
                    },
                }
            }
        },
    }
}

/// The index of the first line from `i` on that is not blank or a comment.
pub open spec fn next_content_of(ls: Seq<Seq<char>>, i: int) -> int
    decreases ls.len() - i,
{
    if i < 0 || i >= ls.len() {
        i
    } else if skip_line(ls[i]) {
        next_content_of(ls, i + 1)
    } else {
        i
    }
}

pub open spec fn cons_stmt(st: StmtV, r: Result<(Seq<StmtV>, int, BlockEnd), Fault>) -> Result<
    (Seq<StmtV>, int, BlockEnd),
    Fault,
> {
    match r {
        Err(f) => Err(f),
        Ok((v, n, e)) => Ok((seq![st] + v, n, e)),
    }
}

pub open spec fn last_line(ls: Seq<Seq<char>>) -> int {
    if ls.len() == 0 {
        0
    } else {
        ls.len() - 1
    }
}

/// What an `if` starting at line `i` parses into: the statement and the
/// index of the line after it.
pub open spec fn if_at(ls: Seq<Seq<char>>, i: int) -> Result<(StmtV, int), Fault>
    decreases ls.len() - i, 0int,
{
    if i < 0 || i >= ls.len() {
        Err(Fault::TooDeep)
    } else {
        match if_cond_text(stmt_text(ls[i])) {
            None => Err(fault_at(i, SyntaxIssue::BadHeader)),
            Some(ct) => match cond_of(ct) {
                Err(e) => Err(fault_at(i, e)),
                Ok(c) => match block_of(ls, i + 1, true) {
                    Err(f) => Err(f),
                    Ok((tb, j, end)) => if j <= i || j > ls.len() {
                        Err(Fault::TooDeep)
                    } else if end == BlockEnd::CloseElse {
                        match block_of(ls, j, true) {
                            Err(f) => Err(f),
                            Ok((eb, j2, end2)) => if end2 != BlockEnd::Close {
                                Err(fault_at(j2 - 1, SyntaxIssue::MisplacedElse))
                            } else {
                                Ok((StmtV::If(c, tb, Some(eb)), j2))
                            },
                        }
                    } else {
                        let k = next_content_of(ls, j);
                        if k < ls.len() && k >= j && else_open_line(stmt_text(ls[k])) {
                            match block_of(ls, k + 1, true) {
                                Err(f) => Err(f),
                                Ok((eb, j2, end2)) => if end2 != BlockEnd::Close {
                                    Err(fault_at(j2 - 1, SyntaxIssue::MisplacedElse))
                                } else {
                                    Ok((StmtV::If(c, tb, Some(eb)), j2))
                                },
                            }
                        } else {
                            Ok((StmtV::If(c, tb, None), j))
                        }
                    },
                },
            },
        }
    }
}

/// What a function definition starting at line `i` parses into.
pub open spec fn func_at(ls: Seq<Seq<char>>, i: int) -> Result<(StmtV, int), Fault>
    decreases ls.len() - i, 0int,
{
    if i < 0 || i >= ls.len() || stmt_text(ls[i]).len() < 9 {
        Err(Fault::TooDeep)
    } else {
        match func_header_of(stmt_text(ls[i])) {
            Err(e) => Err(fault_at(i, e)),
            Ok((name, params)) => match block_of(ls, i + 1, true) {
                Err(f) => Err(f),
                Ok((body, j, end)) => if end != BlockEnd::Close {
                    Err(fault_at(j - 1, SyntaxIssue::MisplacedElse))
                } else {
                    Ok((StmtV::Func(name, params, body), j))
                },
            },
        }
    }
}

pub open spec fn then_rest(
    ls: Seq<Seq<char>>,
    i: int,
    nested: bool,
    r: Result<(StmtV, int), Fault>,
) -> Result<(Seq<StmtV>, int, BlockEnd), Fault>
    decreases ls.len() - i, 1int,
{
    match r {
        Err(f) => Err(f),
        Ok((st, next)) => if next <= i || next > ls.len() {
            Err(Fault::TooDeep)
        } else {
            cons_stmt(st, block_of(ls, next, nested))
        },
    }
}

/// The statements a source text parses into: its lines as one unit.
pub open spec fn program_of(src: Seq<char>) -> Result<Seq<StmtV>, Fault> {
    match block_of(split_nl(src), 0, false) {
        Ok((m, _, _)) => Ok(m),
        Err(f) => Err(f),
    }
}

/// What the lines from `i` on parse into, as a block (when `nested`) or as
/// the rest of a source unit: the statements, the index of the line after the
/// block, and how it ended.
pub open spec fn block_of(ls: Seq<Seq<char>>, i: int, nested: bool) -> Result<
    (Seq<StmtV>, int, BlockEnd),
    Fault,
>
    decreases ls.len() - i, 2int,
{
    if i < 0 {
        Err(Fault::TooDeep)
    } else if i >= ls.len() {
        if nested {
            Err(fault_at(last_line(ls), SyntaxIssue::UnclosedBlock))
        } else {
            Ok((Seq::empty(), i, BlockEnd::Eof))
        }
    } else if skip_line(ls[i]) {
        block_of(ls, i + 1, nested)
    } else {
        let u = stmt_text(ls[i]);
        if close_line(u) {
            if nested {
                Ok((Seq::empty(), i + 1, BlockEnd::Close))
            } else {
                Err(fault_at(i, SyntaxIssue::StrayBrace))
            }
        } else if close_else_line(u) {
            if nested {
                Ok((Seq::empty(), i + 1, BlockEnd::CloseElse))
            } else {
                Err(fault_at(i, SyntaxIssue::StrayBrace))
            }
        } else if else_open_line(u) {
            Err(fault_at(i, SyntaxIssue::MisplacedElse))
        } else if has_prefix(u, seq!['i', 'f', '(']) {
            then_rest(ls, i, nested, if_at(ls, i))
        } else if func_header_line(u) {
            then_rest(ls, i, nested, func_at(ls, i))
        } else {
            match simple_of(u) {
                Err(e) => Err(fault_at(i, e)),
                Ok(m) => cons_stmt(StmtV::Line(m), block_of(ls, i + 1, nested)),
            }
        }
    }
}

} // verus!
