//! Rendering text: decimal numbers and padding to a column width.
use vstd::prelude::*;
use vstd::string::{StrSliceExecFns, StringExecFns};

verus! {

/// The character of a decimal digit.
pub open spec fn digit_char(d: nat) -> char {
    if d == 0 { '0' } else if d == 1 { '1' } else if d == 2 { '2' } else if d == 3 { '3' }
    else if d == 4 { '4' } else if d == 5 { '5' } else if d == 6 { '6' } else if d == 7 { '7' }
    else if d == 8 { '8' } else { '9' }
}

/// The decimal representation of a number, without leading zeros.
pub open spec fn decimal(n: nat) -> Seq<char>
    decreases n,
{
    if n < 10 {
        seq![digit_char(n)]
    } else {
        decimal(n / 10) + seq![digit_char(n % 10)]
    }
}

/// `n` copies of the character `c`.
pub open spec fn fill(c: char, n: nat) -> Seq<char>
    decreases n,
{
    if n == 0 {
        seq![]
    } else {
        fill(c, (n - 1) as nat) + seq![c]
    }
}

/// `s` followed by spaces up to a width of `w` characters (left-aligned).
pub open spec fn pad_end(s: Seq<char>, w: nat) -> Seq<char> {
    if s.len() < w {
        s + fill(' ', (w - s.len()) as nat)
    } else {
        s
    }
}

/// `s` preceded by spaces up to a width of `w` characters (right-aligned).
pub open spec fn pad_start(s: Seq<char>, w: nat) -> Seq<char> {
    if s.len() < w {
        fill(' ', (w - s.len()) as nat) + s
    } else {
        s
    }
}

pub(crate) fn digit_str(d: u32) -> (r: &'static str)
    requires
        d < 10,
    ensures
        r@ == seq![digit_char(d as nat)],
{
    if d == 0 {
        proof { reveal_strlit("0"); }
        "0"
    } else if d == 1 {
        proof { reveal_strlit("1"); }
        "1"
    } else if d == 2 {
        proof { reveal_strlit("2"); }
        "2"
    } else if d == 3 {
        proof { reveal_strlit("3"); }
        "3"
    } else if d == 4 {
        proof { reveal_strlit("4"); }
        "4"
    } else if d == 5 {
        proof { reveal_strlit("5"); }
        "5"
    } else if d == 6 {
        proof { reveal_strlit("6"); }
        "6"
    } else if d == 7 {
        proof { reveal_strlit("7"); }
        "7"
    } else if d == 8 {
        proof { reveal_strlit("8"); }
        "8"
    } else {
        proof { reveal_strlit("9"); }
        "9"
    }
}

pub(crate) fn append_decimal(out: &mut String, n: u32)
    ensures
        final(out)@ == old(out)@ + decimal(n as nat),
    decreases n,
{
    if n >= 10 {
        append_decimal(out, n / 10);
    }
    out.append(digit_str(n % 10));
    assert(final(out)@ =~= old(out)@ + decimal(n as nat));
}

/// Append `n` copies of the one-character string `c`.
pub(crate) fn append_fill(out: &mut String, c: &str, n: usize)
    requires
        c@.len() == 1,
    ensures
        final(out)@ == old(out)@ + fill(c@[0], n as nat),
{
    let mut i: usize = 0;
    while i < n
        invariant
            0 <= i <= n,
            c@.len() == 1,
            out@ == old(out)@ + fill(c@[0], i as nat),
        decreases n - i,
    {
        out.append(c);
        assert(out@ =~= old(out)@ + fill(c@[0], (i + 1) as nat));
        i = i + 1;
    }
}

/// Append `s`, left-aligned in a column of `w` characters.
pub(crate) fn append_padded_end(out: &mut String, s: &str, w: usize)
    ensures
        final(out)@ == old(out)@ + pad_end(s@, w as nat),
{
    let len = s.unicode_len();
    out.append(s);
    proof {
        reveal_strlit(" ");
    }
    if len < w {
        append_fill(out, " ", w - len);
    }
    assert(out@ =~= old(out)@ + pad_end(s@, w as nat));
}

/// Append `s`, right-aligned in a column of `w` characters.
pub(crate) fn append_padded_start(out: &mut String, s: &str, w: usize)
    ensures
        final(out)@ == old(out)@ + pad_start(s@, w as nat),
{
    let len = s.unicode_len();
    proof {
        reveal_strlit(" ");
    }
    if len < w {
        append_fill(out, " ", w - len);
    }
    out.append(s);
    assert(out@ =~= old(out)@ + pad_start(s@, w as nat));
}

/// Append the decimal representation of `n`, right-aligned in a column of
/// `w` characters.
pub(crate) fn append_decimal_padded(out: &mut String, n: u32, w: usize)
    ensures
        final(out)@ == old(out)@ + pad_start(decimal(n as nat), w as nat),
{
    let mut digits = String::new();
    append_decimal(&mut digits, n);
    assert(digits@ =~= decimal(n as nat));
    append_padded_start(out, digits.as_str(), w);
}

} // verus!
