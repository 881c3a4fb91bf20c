//! Decoding of operands: typed literals, references and escapes.
use vstd::prelude::*;

use crate::error::SyntaxIssue;
use crate::text::{slice_chars, starts_with, string_of};
use crate::value::{Literal, Val};

verus! {

/// What an escape sequence `\c` inside a quoted literal stands for.
pub open spec fn escaped(c: char) -> Seq<char> {
    if c == 'n' {
        seq!['\n']
    } else if c == 't' {
        seq!['\t']
    } else if c == 'r' {
        seq!['\r']
    } else if c == '"' {
        seq!['"']
    } else if c == '\\' {
        seq!['\\']
    } else {
        seq!['\\', c]
    }
}

/// The characters a quoted literal's body stands for; `None` when it ends in a
/// lone backslash (which would escape the closing quote).
pub open spec fn unescape(s: Seq<char>) -> Option<Seq<char>>
    decreases s.len(),
{
    if s.len() == 0 {
        Some(Seq::empty())
    } else if s[0] == '\\' {
        if s.len() == 1 {
            None
        } else {
            match unescape(s.subrange(2, s.len() as int)) {
                Some(r) => Some(escaped(s[1]) + r),
                None => None,
            }
        }
    } else {
        match unescape(s.drop_first()) {
            Some(r) => Some(seq![s[0]] + r),
            None => None,
        }
    }
}

pub open spec fn prepend(p: Seq<char>, o: Option<Seq<char>>) -> Option<Seq<char>> {
    match o {
        Some(r) => Some(p + r),
        None => None,
    }
}

fn push_escaped(out: &mut Vec<char>, c: char)
    ensures
        final(out)@ == old(out)@ + escaped(c),
{
    if c == 'n' {
        out.push('\n');
    } else if c == 't' {
        out.push('\t');
    } else if c == 'r' {
        out.push('\r');
    } else if c == '"' {
        out.push('"');
    } else if c == '\\' {
        out.push('\\');
    } else {
        out.push('\\');
        out.push(c);
    }
    assert(final(out)@ =~= old(out)@ + escaped(c));
}

/// Resolves the escapes of a quoted literal's body.
pub fn unescape_chars(s: &[char]) -> (r: Option<Vec<char>>)
    ensures
        unescape(s@) is None ==> r is None,
        unescape(s@) is Some ==> r is Some && r->0@ == unescape(s@)->0,
{
    let n = s.len();
    let mut out: Vec<char> = Vec::new();
    let mut i: usize = 0;
    assert(s@.subrange(0, n as int) =~= s@);
    while i < n
        invariant
            n == s@.len(),
            i <= n,
            prepend(out@, unescape(s@.subrange(i as int, n as int))) == unescape(s@),
        decreases n - i,
    {
        let ghost rest = s@.subrange(i as int, n as int);
        if s[i] == '\\' {
            if i + 1 == n {
                return None;
            }
            assert(rest.subrange(2, rest.len() as int) =~= s@.subrange(i + 2, n as int));
            let ghost old_out = out@;
            push_escaped(&mut out, s[i + 1]);
            proof {
                match unescape(s@.subrange(i + 2, n as int)) {
                    Some(r) => {
                        assert(old_out + (escaped(s@[i + 1]) + r) =~= out@ + r);
                    },
                    None => {},
                }
            }
            i = i + 2;
        } else {
            assert(rest.drop_first() =~= s@.subrange(i + 1, n as int));
            let ghost old_out = out@;
            out.push(s[i]);
            proof {
                match unescape(s@.subrange(i + 1, n as int)) {
                    Some(r) => {
                        assert(old_out + (seq![s@[i as int]] + r) =~= out@ + r);
                    },
                    None => {},
                }
            }
            i = i + 1;
        }
    }
    assert(out@ + Seq::<char>::empty() =~= out@);
    Some(out)
}

pub open spec fn is_digit(c: char) -> bool {
    '0' <= c && c <= '9'
}

pub open spec fn digit_value(c: char) -> int {
    (c as int) - ('0' as int)
}

/// Value of a run of decimal digits.
pub open spec fn digits_value(s: Seq<char>) -> int
    decreases s.len(),
{
    if s.len() == 0 {
        0
    } else {
        digits_value(s.drop_last()) * 10 + digit_value(s.last())
    }
}

pub open spec fn all_digits(s: Seq<char>) -> bool {
    forall|i: int| 0 <= i < s.len() ==> is_digit(#[trigger] s[i])
}

/// The integer that `s` spells: an optional sign, then one or more digits.
pub open spec fn int_of(s: Seq<char>) -> Option<int> {
    if s.len() > 1 && s[0] == '-' && all_digits(s.drop_first()) {
        Some(-digits_value(s.drop_first()))
    } else if s.len() > 1 && s[0] == '+' && all_digits(s.drop_first()) {
        Some(digits_value(s.drop_first()))
    } else if s.len() > 0 && all_digits(s) {
        Some(digits_value(s))
    } else {
        None
    }
}

pub open spec fn fits_i64(v: int) -> bool {
    i64::MIN <= v <= i64::MAX
}

/// The 64-bit integer that `s` spells, if it spells one in range.
pub open spec fn int64_of(s: Seq<char>) -> Option<i64> {
    match int_of(s) {
        Some(v) => if fits_i64(v) { Some(v as i64) } else { None },
        None => None,
    }
}

proof fn lemma_digits_nonneg(s: Seq<char>)
    requires
        all_digits(s),
    ensures
        digits_value(s) >= 0,
    decreases s.len(),
{
    if s.len() > 0 {
        lemma_digits_nonneg(s.drop_last());
    }
}

proof fn lemma_digits_monotone(s: Seq<char>, k: int)
    requires
        all_digits(s),
        0 <= k <= s.len(),
    ensures
        digits_value(s.subrange(0, k)) <= digits_value(s),
    decreases s.len() - k,
{
    if k < s.len() {
        lemma_digits_monotone(s, k + 1);
        let t = s.subrange(0, k + 1);
        assert(t.drop_last() =~= s.subrange(0, k));
        lemma_digits_nonneg(s.subrange(0, k));
    } else {
        assert(s.subrange(0, k) =~= s);
    }
}

/// Parses an unsigned run of digits of `s[from..]` as a magnitude of at most 2^63.
fn magnitude(s: &[char], from: usize) -> (r: Option<u64>)
    requires
        from < s@.len(),
    ensures
        match r {
            Some(m) => all_digits(s@.subrange(from as int, s@.len() as int)) && m as int == digits_value(
                s@.subrange(from as int, s@.len() as int),
            ) && m <= 9223372036854775808u64,
            None => !all_digits(s@.subrange(from as int, s@.len() as int)) || digits_value(
                s@.subrange(from as int, s@.len() as int),
            ) > 9223372036854775808u64,
        },
{
    let n = s.len();
    let ghost t = s@.subrange(from as int, n as int);
    let mut acc: u64 = 0;
    let mut i: usize = from;
    assert(t.subrange(0, 0) =~= Seq::<char>::empty());
    while i < n
        invariant
            n == s@.len(),
            from <= i <= n,
            t == s@.subrange(from as int, n as int),
            all_digits(t.subrange(0, i - from)),
            acc as int == digits_value(t.subrange(0, i - from)),
            acc <= 9223372036854775808u64,
        decreases n - i,
    {
        let c = s[i];
        if !('0' <= c && c <= '9') {
            assert(t[i - from] == c);
            return None;
        }
        let d = (c as u32 - '0' as u32) as u64;
        assert(t.subrange(0, i + 1 - from).drop_last() =~= t.subrange(0, i - from));
        if acc > 922337203685477580u64 || (acc == 922337203685477580u64 && d > 8) {
            proof {
                let u = t.subrange(0, i + 1 - from);
                assert(forall|j: int| 0 <= j < u.len() ==> #[trigger] u[j] == t[j]);
                assert(all_digits(u));
                if all_digits(t) {
                    lemma_digits_monotone(t, i + 1 - from);
                }
            }
            return None;
        }
        acc = acc * 10 + d;
        proof {
            let u = t.subrange(0, i + 1 - from);
            assert(forall|j: int| 0 <= j < u.len() - 1 ==> #[trigger] u[j] == t.subrange(0, i - from)[j]);
            assert(all_digits(u));
        }
        i = i + 1;
    }
    assert(t.subrange(0, n - from) =~= t);
    Some(acc)
}

/// Parses a signed 64-bit integer.
pub fn parse_i64(s: &[char]) -> (r: Option<i64>)
    ensures
        r == int64_of(s@),
{
    let n = s.len();
    if n == 0 {
        return None;
    }
    if n > 1 && (s[0] == '-' || s[0] == '+') {
        assert(s@.drop_first() =~= s@.subrange(1, n as int));
        let neg = s[0] == '-';
        match magnitude(s, 1) {
            Some(m) => {
                if neg {
                    if m == 9223372036854775808u64 {
                        Some(i64::MIN)
                    } else {
                        Some(-(m as i64))
                    }
                } else if m == 9223372036854775808u64 {
                    None
                } else {
                    Some(m as i64)
                }
            },
            None => None,
        }
    } else {
        assert(s@.subrange(0, n as int) =~= s@);
        if n > 1 {
            // a leading sign alone or a non-digit first character: not a number
            if !('0' <= s[0] && s[0] <= '9') {
                assert(!all_digits(s@) || is_digit(s@[0]));
                return None;
            }
        }
        match magnitude(s, 0) {
            Some(m) => {
                if m == 9223372036854775808u64 {
                    None
                } else {
                    Some(m as i64)
                }
            },
            None => None,
        }
    }
}

/// The model of an operand: a literal value or a reference by name.
pub enum AtomV {
    Lit(Val),
    Var(Seq<char>),
    Param(Seq<char>),
    /// `string:var(n)`: the variable's value shown as text.
    VarText(Seq<char>),
}

/// An operand: a literal, `var(name)`, `self(name)`, or `string:var(name)`.
#[derive(Debug, Clone, PartialEq, Eq)]
pub enum Atom {
    Lit(Literal),
    VarRef(String),
    SelfParamRef(String),
    VarText(String),
}

impl View for Atom {
    type V = AtomV;

    open spec fn view(&self) -> AtomV {
        match self {
            Atom::Lit(l) => AtomV::Lit(l@),
            Atom::VarRef(n) => AtomV::Var(n@),
            Atom::SelfParamRef(n) => AtomV::Param(n@),
            Atom::VarText(n) => AtomV::VarText(n@),
        }
    }
}

pub open spec fn has_prefix(s: Seq<char>, p: Seq<char>) -> bool {
    p.len() <= s.len() && s.subrange(0, p.len() as int) == p
}

pub open spec fn after(s: Seq<char>, k: int) -> Seq<char> {
    s.subrange(k, s.len() as int)
}

/// Inner text of `pfx ... )`, when `s` has that shape.
pub open spec fn wrapped(s: Seq<char>, pfx: Seq<char>) -> bool {
    has_prefix(s, pfx) && s.len() > pfx.len() && s.last() == ')'
}

pub open spec fn inner(s: Seq<char>, k: int) -> Seq<char> {
    s.subrange(k, s.len() - 1)
}

pub open spec fn var_open() -> Seq<char> {
    seq!['v', 'a', 'r', '(']
}

pub open spec fn self_open() -> Seq<char> {
    seq!['s', 'e', 'l', 'f', '(']
}

pub open spec fn string_kind() -> Seq<char> {
    seq!['s', 't', 'r', 'i', 'n', 'g', ':']
}

pub open spec fn int_kind() -> Seq<char> {
    seq!['i', 'n', 't', ':']
}

pub open spec fn float_kind() -> Seq<char> {
    seq!['f', 'l', 'o', 'a', 't', ':']
}

/// A quoted literal body's meaning: the unescaped text between the quotes.
pub open spec fn quoted_text(r: Seq<char>) -> Result<Seq<char>, SyntaxIssue> {
    if r.len() >= 2 && r.last() == '"' {
        match unescape(r.subrange(1, r.len() - 1)) {
            Some(u) => Ok(u),
            None => Err(SyntaxIssue::UnterminatedString),
        }
    } else {
        Err(SyntaxIssue::UnterminatedString)
    }
}

/// What a (trimmed) operand text denotes.
///
/// `var(n)` and `self(n)` are references; `string:var(n)` shows a variable
/// as text; `string:`, `int:` and `float:` are
/// typed literals; in a condition (`in_cond`) a bare integer is an integer;
/// anything else is raw text.
pub open spec fn atom_of(t: Seq<char>, in_cond: bool) -> Result<AtomV, SyntaxIssue> {
    if wrapped(t, var_open()) {
        Ok(AtomV::Var(inner(t, 4)))
    } else if wrapped(t, self_open()) {
        Ok(AtomV::Param(inner(t, 5)))
    } else if has_prefix(t, string_kind()) {
        let r = after(t, 7);
        if wrapped(r, var_open()) {
            Ok(AtomV::VarText(inner(r, 4)))
        } else if r.len() > 0 && r[0] == '"' {
            match quoted_text(r) {
                Ok(u) => Ok(AtomV::Lit(Val::Text(u))),
                Err(e) => Err(e),
            }
        } else {
            Ok(AtomV::Lit(Val::Text(r)))
        }
    } else if has_prefix(t, int_kind()) {
        match int64_of(after(t, 4)) {
            Some(v) => Ok(AtomV::Lit(Val::Int(v))),
            None => Err(SyntaxIssue::BadInteger),
        }
    } else if has_prefix(t, float_kind()) {
        Err(SyntaxIssue::FloatUnsupported)
    } else if in_cond && int64_of(t) is Some {
        Ok(AtomV::Lit(Val::Int(int64_of(t)->0)))
    } else {
        Ok(AtomV::Lit(Val::Text(t)))
    }
}

/// Decodes one trimmed operand.
pub fn decode_atom(t: &[char], in_cond: bool) -> (r: Result<Atom, SyntaxIssue>)
    ensures
        match (r, atom_of(t@, in_cond)) {
            (Ok(a), Ok(m)) => a@ == m,
            (Err(e), Err(f)) => e == f,
            _ => false,
        },
{
    let n = t.len();
    if n > 4 && starts_with(t, &['v', 'a', 'r', '(']) && t[n - 1] == ')' {
        assert(t@.subrange(0, 4) == var_open());
        return Ok(Atom::VarRef(string_of(slice_chars(t, 4, n - 1).as_slice())));
    }
    if n > 5 && starts_with(t, &['s', 'e', 'l', 'f', '(']) && t[n - 1] == ')' {
        assert(t@.subrange(0, 5) == self_open());
        return Ok(Atom::SelfParamRef(string_of(slice_chars(t, 5, n - 1).as_slice())));
    }
    if starts_with(t, &['s', 't', 'r', 'i', 'n', 'g', ':']) {
        let r = slice_chars(t, 7, n);
        let m = r.len();
        if m > 4 && starts_with(r.as_slice(), &['v', 'a', 'r', '(']) && r[m - 1] == ')' {
            assert(r@.subrange(0, 4) == var_open());
            return Ok(Atom::VarText(string_of(slice_chars(r.as_slice(), 4, m - 1).as_slice())));
        }
        assert(!wrapped(r@, var_open())) by {
            if wrapped(r@, var_open()) {
                assert(r@.subrange(0, 4) == var_open());
                assert(var_open().len() == 4);
            }
        }
        if m > 0 && r[0] == '"' {
            if m >= 2 && r[m - 1] == '"' {
                let body = slice_chars(r.as_slice(), 1, m - 1);
                return match unescape_chars(body.as_slice()) {
                    Some(u) => Ok(Atom::Lit(Literal::Text(string_of(u.as_slice())))),
                    None => Err(SyntaxIssue::UnterminatedString),
                };
            }
            return Err(SyntaxIssue::UnterminatedString);
        }
        return Ok(Atom::Lit(Literal::Text(string_of(r.as_slice()))));
    }
    if starts_with(t, &['i', 'n', 't', ':']) {
        let p = slice_chars(t, 4, n);
        return match parse_i64(p.as_slice()) {
            Some(v) => Ok(Atom::Lit(Literal::Int(v))),
            None => Err(SyntaxIssue::BadInteger),
        };
    }
    if starts_with(t, &['f', 'l', 'o', 'a', 't', ':']) {
        return Err(SyntaxIssue::FloatUnsupported);
    }
    if in_cond {
        if let Some(v) = parse_i64(t) {
            return Ok(Atom::Lit(Literal::Int(v)));
        }
    }
    Ok(Atom::Lit(Literal::Text(string_of(t))))
}

} // verus!
