//! Character-level text building: decimal numbers, repetition and padding.

use vstd::prelude::*;

verus! {

/// The character of a decimal digit.
pub open spec fn digit_char(d: nat) -> char {
    if d == 0 { '0' }
    else if d == 1 { '1' }
    else if d == 2 { '2' }
    else if d == 3 { '3' }
    else if d == 4 { '4' }
    else if d == 5 { '5' }
    else if d == 6 { '6' }
    else if d == 7 { '7' }
    else if d == 8 { '8' }
    else { '9' }
}

/// The decimal notation of a natural number, without leading zeros.
pub open spec fn decimal(n: nat) -> Seq<char>
    decreases n,
{
    if n < 10 {
        seq![digit_char(n)]
    } else {
        decimal(n / 10).push(digit_char(n % 10))
    }
}

/// `unit` written `times` times in a row.
pub open spec fn repeated(unit: Seq<char>, times: nat) -> Seq<char>
    decreases times,
{
    if times == 0 {
        Seq::empty()
    } else {
        repeated(unit, (times - 1) as nat) + unit
    }
}

/// `s` followed by spaces up to `width` characters (left alignment).
pub open spec fn padded_right(s: Seq<char>, width: nat) -> Seq<char> {
    if s.len() >= width {
        s
    } else {
        s + repeated(seq![' '], (width - s.len()) as nat)
    }
}

/// Spaces up to `width` characters followed by `s` (right alignment).
pub open spec fn padded_left(s: Seq<char>, width: nat) -> Seq<char> {
    if s.len() >= width {
        s
    } else {
        repeated(seq![' '], (width - s.len()) as nat) + s
    }
}

/// Appends one character: `String::push`.
#[verifier::external_body]
pub(crate) fn push_char(s: &mut String, c: char)
    ensures
        final(s)@ == old(s)@.push(c),
{
    s.push(c)
}

pub(crate) fn digit(d: u128) -> (c: char)
    requires
        d < 10,
    ensures
        c == digit_char(d as nat),
{
    if d == 0 { '0' }
    else if d == 1 { '1' }
    else if d == 2 { '2' }
    else if d == 3 { '3' }
    else if d == 4 { '4' }
    else if d == 5 { '5' }
    else if d == 6 { '6' }
    else if d == 7 { '7' }
    else if d == 8 { '8' }
    else { '9' }
}

/// Appends the decimal notation of `n` to `out`.
pub fn push_decimal(out: &mut String, n: u128)
    ensures
        final(out)@ == old(out)@ + decimal(n as nat),
    decreases n,
{
    if n >= 10 {
        push_decimal(out, n / 10);
        push_char(out, digit(n % 10));
        assert(old(out)@ + decimal(n as nat) =~= old(out)@ + decimal((n / 10) as nat) + seq![digit_char((n % 10) as nat)]);
    } else {
        push_char(out, digit(n));
        assert(old(out)@ + decimal(n as nat) =~= old(out)@.push(digit_char(n as nat)));
    }
}

/// Appends `unit` to `out` `times` times.
pub fn push_repeated(out: &mut String, unit: &str, times: usize)
    ensures
        final(out)@ == old(out)@ + repeated(unit@, times as nat),
{
    let mut i: usize = 0;
    while i < times
        invariant
            i <= times,
            out@ == old(out)@ + repeated(unit@, i as nat),
        decreases times - i,
    {
        out.append(unit);
        i = i + 1;
        assert(out@ =~= old(out)@ + repeated(unit@, i as nat));
    }
}

/// `unit` repeated `times` times, as `str::repeat` gives it.
pub fn repeat_text(unit: &str, times: usize) -> (s: String)
    ensures
        s@ == repeated(unit@, times as nat),
{
    let mut s = String::new();
    push_repeated(&mut s, unit, times);
    assert(s@ =~= repeated(unit@, times as nat));
    s
}

/// The number of characters of `s` (what a formatting width counts).
fn char_count(s: &str) -> (n: usize)
    ensures
        n == s@.len(),
{
    s.unicode_len()
}

/// `s` left-aligned in a field of `width` characters, as `{:<width}` writes it.
pub fn pad_right(s: &str, width: usize) -> (r: String)
    ensures
        r@ == padded_right(s@, width as nat),
{
    let n = char_count(s);
    let mut r = String::from_str(s);
    if n < width {
        push_repeated(&mut r, " ", width - n);
    }
    proof {
        reveal_strlit(" ");
        assert(" "@ =~= seq![' ']);
    }
    assert(r@ =~= padded_right(s@, width as nat));
    r
}

/// `s` right-aligned in a field of `width` characters, as `{:>width}` writes it.
pub fn pad_left(s: &str, width: usize) -> (r: String)
    ensures
        r@ == padded_left(s@, width as nat),
{
    let n = char_count(s);
    let mut r = String::new();
    if n < width {
        push_repeated(&mut r, " ", width - n);
    }
    r.append(s);
    proof {
        reveal_strlit(" ");
        assert(" "@ =~= seq![' ']);
    }
    assert(r@ =~= padded_left(s@, width as nat));
    r
}

} // verus!
