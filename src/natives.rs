//! Pure parts of the native function groups: terminal color codes and the
//! simplified timestamp formatting.
use vstd::prelude::*;

use crate::text::{chars_eq, chars_of, find_first, find_last, first_index, last_index, slice_chars, string_of};
use crate::value::nat_digits;

verus! {

/// What `str::to_lowercase` returns for a text.
pub uninterp spec fn lower_of(s: Seq<char>) -> Seq<char>;

/// Relies on str::to_lowercase: the result depends on the characters alone.
#[verifier::external_body]
fn lowercase(s: &str) -> (r: String)
    ensures
        r@ == lower_of(s@),
{
    s.to_lowercase()
}

pub open spec fn sgr(a: char, b: char) -> Seq<char> {
    seq!['\x1b', '[', a, b, 'm']
}

/// The foreground code of a lower-case color name; unknown names reset.
pub open spec fn color_code(n: Seq<char>) -> Seq<char> {
    if n == seq!['b', 'l', 'a', 'c', 'k'] {
        sgr('3', '0')
    } else if n == seq!['r', 'e', 'd'] {
        sgr('3', '1')
    } else if n == seq!['g', 'r', 'e', 'e', 'n'] {
        sgr('3', '2')
    } else if n == seq!['y', 'e', 'l', 'l', 'o', 'w'] {
        sgr('3', '3')
    } else if n == seq!['b', 'l', 'u', 'e'] {
        sgr('3', '4')
    } else if n == seq!['m', 'a', 'g', 'e', 'n', 't', 'a'] {
        sgr('3', '5')
    } else if n == seq!['c', 'y', 'a', 'n'] {
        sgr('3', '6')
    } else if n == seq!['w', 'h', 'i', 't', 'e'] {
        sgr('3', '7')
    } else if n == seq!['b', 'r', 'i', 'g', 'h', 't', '_', 'b', 'l', 'a', 'c', 'k'] || n == seq!['g', 'r', 'a', 'y']
        || n == seq!['g', 'r', 'e', 'y'] {
        sgr('9', '0')
    } else if n == seq!['b', 'r', 'i', 'g', 'h', 't', '_', 'r', 'e', 'd'] {
        sgr('9', '1')
    } else if n == seq!['b', 'r', 'i', 'g', 'h', 't', '_', 'g', 'r', 'e', 'e', 'n'] {
        sgr('9', '2')
    } else if n == seq!['b', 'r', 'i', 'g', 'h', 't', '_', 'y', 'e', 'l', 'l', 'o', 'w'] {
        sgr('9', '3')
    } else if n == seq!['b', 'r', 'i', 'g', 'h', 't', '_', 'b', 'l', 'u', 'e'] {
        sgr('9', '4')
    } else if n == seq!['b', 'r', 'i', 'g', 'h', 't', '_', 'm', 'a', 'g', 'e', 'n', 't', 'a'] {
        sgr('9', '5')
    } else if n == seq!['b', 'r', 'i', 'g', 'h', 't', '_', 'c', 'y', 'a', 'n'] {
        sgr('9', '6')
    } else if n == seq!['b', 'r', 'i', 'g', 'h', 't', '_', 'w', 'h', 'i', 't', 'e'] {
        sgr('9', '7')
    } else {
        seq!['\x1b', '[', '0', 'm']
    }
}

fn code(a: char, b: char) -> (r: String)
    ensures
        r@ == sgr(a, b),
{
    string_of(&['\x1b', '[', a, b, 'm'])
}

/// The foreground code of a color name already in lower case.
pub fn color_code_of_lower(n: &str) -> (r: String)
    ensures
        r@ == color_code(n@),
{
    let c = chars_of(n);
    let s = c.as_slice();
    if chars_eq(s, &['b', 'l', 'a', 'c', 'k']) {
        code('3', '0')
    } else if chars_eq(s, &['r', 'e', 'd']) {
        code('3', '1')
    } else if chars_eq(s, &['g', 'r', 'e', 'e', 'n']) {
        code('3', '2')
    } else if chars_eq(s, &['y', 'e', 'l', 'l', 'o', 'w']) {
        code('3', '3')
    } else if chars_eq(s, &['b', 'l', 'u', 'e']) {
        code('3', '4')
    } else if chars_eq(s, &['m', 'a', 'g', 'e', 'n', 't', 'a']) {
        code('3', '5')
    } else if chars_eq(s, &['c', 'y', 'a', 'n']) {
        code('3', '6')
    } else if chars_eq(s, &['w', 'h', 'i', 't', 'e']) {
        code('3', '7')
    } else if chars_eq(s, &['b', 'r', 'i', 'g', 'h', 't', '_', 'b', 'l', 'a', 'c', 'k']) || chars_eq(
        s,
        &['g', 'r', 'a', 'y'],
    ) || chars_eq(s, &['g', 'r', 'e', 'y']) {
        code('9', '0')
    } else if chars_eq(s, &['b', 'r', 'i', 'g', 'h', 't', '_', 'r', 'e', 'd']) {
        code('9', '1')
    } else if chars_eq(s, &['b', 'r', 'i', 'g', 'h', 't', '_', 'g', 'r', 'e', 'e', 'n']) {
        code('9', '2')
    } else if chars_eq(s, &['b', 'r', 'i', 'g', 'h', 't', '_', 'y', 'e', 'l', 'l', 'o', 'w']) {
        code('9', '3')
    } else if chars_eq(s, &['b', 'r', 'i', 'g', 'h', 't', '_', 'b', 'l', 'u', 'e']) {
        code('9', '4')
    } else if chars_eq(s, &['b', 'r', 'i', 'g', 'h', 't', '_', 'm', 'a', 'g', 'e', 'n', 't', 'a']) {
        code('9', '5')
    } else if chars_eq(s, &['b', 'r', 'i', 'g', 'h', 't', '_', 'c', 'y', 'a', 'n']) {
        code('9', '6')
    } else if chars_eq(s, &['b', 'r', 'i', 'g', 'h', 't', '_', 'w', 'h', 'i', 't', 'e']) {
        code('9', '7')
    } else {
        string_of(&['\x1b', '[', '0', 'm'])
    }
}

/// The terminal code of a color name, in any letter case; unknown names give
/// the reset code.
pub fn get_color_code(color_name: &str) -> (r: String)
    ensures
        r@ == color_code(lower_of(color_name@)),
{
    let lower = lowercase(color_name);
    color_code_of_lower(lower.as_str())
}

/// The background code for a foreground code: `3x` becomes `4x`, `9x`
/// becomes `10x`; the reset code stays.
pub open spec fn background(fg: Seq<char>) -> Seq<char> {
    if fg.len() == 5 && fg[2] == '3' {
        fg.update(2, '4')
    } else if fg.len() == 5 && fg[2] == '9' {
        seq![fg[0], fg[1], '1', '0', fg[3], fg[4]]
    } else {
        fg
    }
}

/// The background code of a color name.
pub fn get_background_code(color_name: &str) -> (r: String)
    ensures
        r@ == background(color_code(lower_of(color_name@))),
{
    let fg = chars_of(get_color_code(color_name).as_str());
    let n = fg.len();
    if n == 5 && fg[2] == '3' {
        let v = vec![fg[0], fg[1], '4', fg[3], fg[4]];
        assert(v@ =~= fg@.update(2, '4'));
        string_of(v.as_slice())
    } else if n == 5 && fg[2] == '9' {
        let v = vec![fg[0], fg[1], '1', '0', fg[3], fg[4]];
        assert(v@ =~= seq![fg@[0], fg@[1], '1', '0', fg@[3], fg@[4]]);
        string_of(v.as_slice())
    } else {
        string_of(fg.as_slice())
    }
}

/// Decimal digits of `n`, left-padded with zeros to at least `w` characters.
pub open spec fn padded(n: nat, w: nat) -> Seq<char> {
    let d = nat_digits(n);
    if d.len() < w {
        Seq::new((w - d.len()) as nat, |i: int| '0') + d
    } else {
        d
    }
}

/// Calendar fields of the simplified calendar: years of 365 days, months of
/// 30 days, counted from 1970.
pub struct TimeFields {
    pub year: nat,
    pub month: nat,
    pub day: nat,
    pub hour: nat,
    pub minute: nat,
    pub second: nat,
}

pub open spec fn fields_of(ts: nat) -> TimeFields {
    let days = ts / 86400;
    TimeFields {
        year: 1970 + days / 365,
        month: (days % 365) / 30 + 1,
        day: days % 30 + 1,
        hour: (ts % 86400) / 3600,
        minute: (ts % 3600) / 60,
        second: ts % 60,
    }
}

/// What the directive `%c` stands for, if it is one.
pub open spec fn directive(c: char, f: TimeFields) -> Option<Seq<char>> {
    if c == 'Y' {
        Some(padded(f.year, 4))
    } else if c == 'm' {
        Some(padded(f.month, 2))
    } else if c == 'd' {
        Some(padded(f.day, 2))
    } else if c == 'H' {
        Some(padded(f.hour, 2))
    } else if c == 'M' {
        Some(padded(f.minute, 2))
    } else if c == 'S' {
        Some(padded(f.second, 2))
    } else {
        None
    }
}

/// A pattern with each `%Y %m %d %H %M %S` replaced by its field.
pub open spec fn render(p: Seq<char>, f: TimeFields) -> Seq<char>
    decreases p.len(),
{
    if p.len() == 0 {
        Seq::empty()
    } else if p.len() >= 2 && p[0] == '%' && directive(p[1], f) is Some {
        directive(p[1], f)->0 + render(p.subrange(2, p.len() as int), f)
    } else {
        seq![p[0]] + render(p.drop_first(), f)
    }
}

fn push_padded(out: &mut Vec<char>, n: u64, w: usize)
    ensures
        final(out)@ == old(out)@ + padded(n as nat, w as nat),
{
    let mut digits: Vec<char> = Vec::new();
    crate::value::push_digits(n, &mut digits);
    let ghost zeros_start = out@.len();
    let mut z: usize = 0;
    let need: usize = if digits.len() < w { w - digits.len() } else { 0 };
    while z < need
        invariant
            z <= need,
            out@.len() == zeros_start + z,
            out@.subrange(0, zeros_start as int) == old(out)@,
            forall|i: int| zeros_start <= i < out@.len() ==> out@[i] == '0',
        decreases need - z,
    {
        out.push('0');
        z = z + 1;
    }
    let ghost mid = out@;
    let mut i: usize = 0;
    while i < digits.len()
        invariant
            i <= digits@.len(),
            out@ == mid + digits@.subrange(0, i as int),
        decreases digits@.len() - i,
    {
        out.push(digits[i]);
        i = i + 1;
        assert(out@ =~= mid + digits@.subrange(0, i as int));
    }
    assert(digits@.subrange(0, digits@.len() as int) =~= digits@);
    proof {
        let d = nat_digits(n as nat);
        assert(digits@ == d);
        if d.len() < w {
            assert(mid =~= old(out)@ + Seq::new((w - d.len()) as nat, |i: int| '0'));
        } else {
            assert(mid =~= old(out)@);
        }
        assert(out@ =~= old(out)@ + padded(n as nat, w as nat));
    }
}

/// Formats a Unix timestamp (seconds) with a pattern in the simplified
/// calendar; any other text of the pattern is kept.
pub fn format_time_with_pattern(timestamp: u64, format: &str) -> (r: Result<String, String>)
    ensures
        r is Ok && r->Ok_0@ == render(format@, fields_of(timestamp as nat)),
{
    let days = timestamp / 86400;
    let year = 1970 + days / 365;
    let month = (days % 365) / 30 + 1;
    let day = days % 30 + 1;
    let hour = (timestamp % 86400) / 3600;
    let minute = (timestamp % 3600) / 60;
    let second = timestamp % 60;
    let ghost f = fields_of(timestamp as nat);
    let p = chars_of(format);
    let n = p.len();
    let mut out: Vec<char> = Vec::new();
    let mut i: usize = 0;
    assert(p@.subrange(0, n as int) =~= p@);
    while i < n
        invariant
            n == p@.len(),
            i <= n,
            f == fields_of(timestamp as nat),
            year as nat == f.year,
            month as nat == f.month,
            day as nat == f.day,
            hour as nat == f.hour,
            minute as nat == f.minute,
            second as nat == f.second,
            out@ + render(p@.subrange(i as int, n as int), f) == render(p@, f),
        decreases n - i,
    {
        let ghost rest = p@.subrange(i as int, n as int);
        let ghost before = out@;
        if i + 1 < n && p[i] == '%' && (p[i + 1] == 'Y' || p[i + 1] == 'm' || p[i + 1] == 'd' || p[i + 1]
            == 'H' || p[i + 1] == 'M' || p[i + 1] == 'S') {
            let c = p[i + 1];
            if c == 'Y' {
                push_padded(&mut out, year, 4);
            } else if c == 'm' {
                push_padded(&mut out, month, 2);
            } else if c == 'd' {
                push_padded(&mut out, day, 2);
            } else if c == 'H' {
                push_padded(&mut out, hour, 2);
            } else if c == 'M' {
                push_padded(&mut out, minute, 2);
            } else {
                push_padded(&mut out, second, 2);
            }
            assert(rest.subrange(2, rest.len() as int) =~= p@.subrange(i + 2, n as int));
            assert(out@ + render(p@.subrange(i + 2, n as int), f) =~= before + render(rest, f));
            i = i + 2;
        } else {
            out.push(p[i]);
            assert(rest.drop_first() =~= p@.subrange(i + 1, n as int));
            assert(out@ + render(p@.subrange(i + 1, n as int), f) =~= before + render(rest, f));
            i = i + 1;
        }
    }
    assert(render(p@.subrange(n as int, n as int), f) =~= Seq::<char>::empty());
    assert(out@ + Seq::<char>::empty() =~= out@);
    Ok(string_of(out.as_slice()))
}

/// The prompt of `basic.input`: the text between the first and the last `"`
/// of its argument when there are two; otherwise the argument itself.
pub open spec fn prompt_of(s: Seq<char>) -> Seq<char> {
    match (first_index(s, '"'), last_index(s, '"')) {
        (Some(a), Some(b)) => if a < b {
            s.subrange(a + 1, b)
        } else {
            s
        },
        _ => s,
    }
}

/// The prompt that `basic.input` shows for its argument.
pub fn input_prompt(arg: &str) -> (r: String)
    ensures
        r@ == prompt_of(arg@),
{
    let cs = chars_of(arg);
    match (find_first(cs.as_slice(), '"'), find_last(cs.as_slice(), '"')) {
        (Some(a), Some(b)) => {
            if a < b {
                string_of(slice_chars(cs.as_slice(), a + 1, b).as_slice())
            } else {
                string_of(cs.as_slice())
            }
        },
        _ => string_of(cs.as_slice()),
    }
}

} // verus!
