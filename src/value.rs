//! Runtime values and their canonical text forms.
use vstd::prelude::*;

use crate::text::string_of;

verus! {

/// A runtime value of the language.
///
/// `Handle` stands for a resource owned by the host (an open file); it is
/// move-only, so reading it through a variable reference is a type error.
#[derive(Debug, PartialEq, Eq)]
pub enum Value {
    String(String),
    Int(i64),
    Null,
    Handle(u64),
}

/// A literal written in source text; never a handle.
#[derive(Debug, Clone, PartialEq, Eq)]
pub enum Literal {
    Text(String),
    Int(i64),
    Null,
}

pub open spec fn digit_char(d: int) -> char {
    if d == 0 { '0' } else if d == 1 { '1' } else if d == 2 { '2' } else if d == 3 { '3' }
    else if d == 4 { '4' } else if d == 5 { '5' } else if d == 6 { '6' } else if d == 7 { '7' }
    else if d == 8 { '8' } else { '9' }
}

/// Decimal digits of a natural number, most significant first, no leading zeros.
pub open spec fn nat_digits(n: nat) -> Seq<char>
    decreases n,
{
    if n < 10 {
        seq![digit_char(n as int)]
    } else {
        nat_digits(n / 10).push(digit_char((n % 10) as int))
    }
}

/// Canonical decimal text of an integer.
pub open spec fn decimal(i: int) -> Seq<char> {
    if i < 0 {
        seq!['-'] + nat_digits((-i) as nat)
    } else {
        nat_digits(i as nat)
    }
}

/// The mathematical model of a value: text as a character sequence.
pub enum Val {
    Text(Seq<char>),
    Int(i64),
    Null,
    Handle(u64),
}

impl View for Value {
    type V = Val;

    open spec fn view(&self) -> Val {
        match self {
            Value::String(s) => Val::Text(s@),
            Value::Int(i) => Val::Int(*i),
            Value::Null => Val::Null,
            Value::Handle(h) => Val::Handle(*h),
        }
    }
}

impl View for Literal {
    type V = Val;

    open spec fn view(&self) -> Val {
        match self {
            Literal::Text(s) => Val::Text(s@),
            Literal::Int(i) => Val::Int(*i),
            Literal::Null => Val::Null,
        }
    }
}

/// The text a value shows when joined into a string.
pub open spec fn display(v: Val) -> Seq<char> {
    match v {
        Val::Text(s) => s,
        Val::Int(i) => decimal(i as int),
        Val::Null => seq!['n', 'u', 'l', 'l'],
        Val::Handle(_) => seq!['[', 'h', 'a', 'n', 'd', 'l', 'e', ']'],
    }
}

fn digit_of(d: u64) -> (c: char)
    requires
        d < 10,
    ensures
        c == digit_char(d as int),
{
    if d == 0 { '0' } else if d == 1 { '1' } else if d == 2 { '2' } else if d == 3 { '3' }
    else if d == 4 { '4' } else if d == 5 { '5' } else if d == 6 { '6' } else if d == 7 { '7' }
    else if d == 8 { '8' } else { '9' }
}

/// Appends the decimal digits of `n`.
pub fn push_digits(n: u64, out: &mut Vec<char>)
    ensures
        final(out)@ == old(out)@ + nat_digits(n as nat),
    decreases n,
{
    if n < 10 {
        out.push(digit_of(n));
    } else {
        push_digits(n / 10, out);
        out.push(digit_of(n % 10));
    }
    assert(final(out)@ =~= old(out)@ + nat_digits(n as nat));
}

/// Canonical decimal characters of `i`.
pub fn decimal_chars(i: i64) -> (r: Vec<char>)
    ensures
        r@ == decimal(i as int),
{
    let mut out: Vec<char> = Vec::new();
    if i < 0 {
        out.push('-');
        let m: u64 = if i == i64::MIN { 9223372036854775808u64 } else { (-i) as u64 };
        push_digits(m, &mut out);
    } else {
        push_digits(i as u64, &mut out);
    }
    assert(out@ =~= decimal(i as int));
    out
}

/// Canonical decimal text of `i` (no sign for zero, no leading zeros).
pub fn int_text(i: i64) -> (r: String)
    ensures
        r@ == decimal(i as int),
{
    let cs = decimal_chars(i);
    string_of(cs.as_slice())
}

impl Literal {
    /// The value this literal denotes.
    pub fn to_value(&self) -> (r: Value)
        ensures
            r@ == self@,
    {
        match self {
            Literal::Text(s) => Value::String(s.clone()),
            Literal::Int(i) => Value::Int(*i),
            Literal::Null => Value::Null,
        }
    }
}

impl Value {
    /// The text this value shows when joined into a string.
    pub fn display_text(&self) -> (r: String)
        ensures
            r@ == display(self@),
    {
        match self {
            Value::String(s) => s.clone(),
            Value::Int(i) => int_text(*i),
            Value::Null => string_of(&['n', 'u', 'l', 'l']),
            Value::Handle(_) => string_of(&['[', 'h', 'a', 'n', 'd', 'l', 'e', ']']),
        }
    }

    /// A copy of a copyable value. Handles are move-only: copying one is a
    /// usage error, which callers rule out.
    pub fn copy(&self) -> (r: Value)
        requires
            !(self is Handle),
        ensures
            r@ == self@,
    {
        match self {
            Value::String(s) => Value::String(s.clone()),
            Value::Int(i) => Value::Int(*i),
            Value::Null => Value::Null,
            Value::Handle(h) => Value::Handle(*h),
        }
    }
}

} // verus!
