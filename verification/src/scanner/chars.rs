//! Byte classes of the YAML scanner.
use crate::pos::lemma_ascii_boundaries;
use vstd::prelude::*;
use vstd::utf8::{is_char_boundary, is_char_boundary_start_end_of_seq, valid_utf8};

verus! {

#[verifier::allow_in_spec]
pub fn is_blank(b: u8) -> bool
    returns
        b == 0x20u8 || b == 0x09u8,
{
    b == 0x20u8 || b == 0x09u8
}

#[verifier::allow_in_spec]
pub fn is_break(b: u8) -> bool
    returns
        b == 0x0Au8 || b == 0x0Du8,
{
    b == 0x0Au8 || b == 0x0Du8
}

/// Break or end-of-input (NUL is the end-of-input sentinel).
#[verifier::allow_in_spec]
pub fn is_breakz(b: u8) -> bool
    returns
        b == 0x0Au8 || b == 0x0Du8 || b == 0u8,
{
    is_break(b) || b == 0
}

#[verifier::allow_in_spec]
pub fn is_blank_or_breakz(b: u8) -> bool
    returns
        b == 0x20u8 || b == 0x09u8 || b == 0x0Au8 || b == 0x0Du8 || b == 0u8,
{
    is_blank(b) || is_breakz(b)
}

/// `,` `[` `]` `{` `}`.
#[verifier::allow_in_spec]
pub fn is_flow(b: u8) -> bool
    returns
        b == 0x2Cu8 || b == 0x5Bu8 || b == 0x5Du8 || b == 0x7Bu8 || b == 0x7Du8,
{
    b == 0x2Cu8 || b == 0x5Bu8 || b == 0x5Du8 || b == 0x7Bu8 || b == 0x7Du8
}

/// ASCII letters and digits, `_` and `-`.
#[verifier::allow_in_spec]
pub fn is_alpha(b: u8) -> bool
    returns
        (0x30u8 <= b && b <= 0x39u8) || (0x41u8 <= b && b <= 0x5Au8) || (0x61u8 <= b && b <= 0x7Au8)
            || b == 0x5Fu8 || b == 0x2Du8,
{
    (0x30u8 <= b && b <= 0x39u8) || (0x41u8 <= b && b <= 0x5Au8) || (0x61u8 <= b && b <= 0x7Au8) || b == 0x5Fu8
        || b == 0x2Du8
}

#[verifier::allow_in_spec]
pub fn is_ascii_digit(b: u8) -> bool
    returns
        0x30u8 <= b && b <= 0x39u8,
{
    0x30u8 <= b && b <= 0x39u8
}

#[verifier::allow_in_spec]
pub fn is_ascii_hexdigit(b: u8) -> bool
    returns
        (0x30u8 <= b && b <= 0x39u8) || (0x41u8 <= b && b <= 0x46u8) || (0x61u8 <= b && b <= 0x66u8),
{
    (0x30u8 <= b && b <= 0x39u8) || (0x41u8 <= b && b <= 0x46u8) || (0x61u8 <= b && b <= 0x66u8)
}

/// Whether a plain scalar ends at byte `b` (with lookahead `next`).
/// Flow indicators only terminate a plain scalar inside a flow collection.
#[verifier::allow_in_spec]
pub fn ends_plain_scalar(b: u8, next: u8, in_flow: bool) -> bool
    returns
        (b == 0x3Au8 && (is_blank_or_breakz(next) || (in_flow && is_flow(next)))) || (in_flow && is_flow(b)),
{
    if b == 0x3Au8 && (is_blank_or_breakz(next) || (in_flow && is_flow(next))) {
        true
    } else if in_flow && is_flow(b) {
        true
    } else {
        false
    }
}

/// Any non-space, non-break, non-flow byte. Multi-byte UTF-8 lead and
/// continuation bytes are all >= 0x80 and thus allowed.
#[verifier::allow_in_spec]
pub fn is_anchor_char(b: u8) -> bool
    returns
        !is_blank_or_breakz(b) && !is_flow(b),
{
    !is_blank_or_breakz(b) && !is_flow(b)
}

/// The punctuation that may appear in a URI besides letters and digits:
/// ``#;/?:@&=+$,_.!~*'()[]%``.
#[verifier::allow_in_spec]
pub fn is_uri_punct(b: u8) -> bool
    returns
        b == 0x23u8 || b == 0x3Bu8 || b == 0x2Fu8 || b == 0x3Fu8 || b == 0x3Au8 || b == 0x40u8
            || b == 0x26u8 || b == 0x3Du8 || b == 0x2Bu8 || b == 0x24u8 || b == 0x2Cu8 || b == 0x5Fu8
            || b == 0x2Eu8 || b == 0x21u8 || b == 0x7Eu8 || b == 0x2Au8 || b == 0x27u8 || b == 0x28u8
            || b == 0x29u8 || b == 0x5Bu8 || b == 0x5Du8 || b == 0x25u8,
{
    b == 0x23u8 || b == 0x3Bu8 || b == 0x2Fu8 || b == 0x3Fu8 || b == 0x3Au8 || b == 0x40u8 || b == 0x26u8 || b
        == 0x3Du8 || b == 0x2Bu8 || b == 0x24u8 || b == 0x2Cu8 || b == 0x5Fu8 || b == 0x2Eu8 || b == 0x21u8 || b
        == 0x7Eu8 || b == 0x2Au8 || b == 0x27u8 || b == 0x28u8 || b == 0x29u8 || b == 0x5Bu8 || b == 0x5Du8 || b
        == 0x25u8
}

#[verifier::allow_in_spec]
pub fn is_uri_char(b: u8) -> bool
    returns
        is_alpha(b) || is_uri_punct(b),
{
    is_alpha(b) || is_uri_punct(b)
}

#[verifier::allow_in_spec]
pub fn is_tag_char(b: u8) -> bool
    returns
        is_uri_char(b) && !is_flow(b) && b != 0x21u8,
{
    is_uri_char(b) && !is_flow(b) && b != 0x21u8
}

/// Whether `b` is a UTF-8 continuation byte (`10xxxxxx`).
#[verifier::allow_in_spec]
pub fn is_continuation(b: u8) -> bool
    returns
        0x80u8 <= b && b <= 0xBFu8,
{
    0x80 <= b && b <= 0xBF
}

/// The number of leading one bits of `b`, at least 1: the width of the
/// character that a UTF-8 lead byte starts.
#[verifier::allow_in_spec]
pub fn char_width(b: u8) -> usize
    returns
        if b < 0x80u8 { 1usize } else if b < 0xC0u8 { 1usize } else if b < 0xE0u8 { 2usize }
        else if b < 0xF0u8 { 3usize } else if b < 0xF8u8 { 4usize } else if b < 0xFCu8 { 5usize }
        else if b < 0xFEu8 { 6usize } else if b < 0xFFu8 { 7usize } else { 8usize },
{
    if b < 0x80 {
        1
    } else if b < 0xC0 {
        1
    } else if b < 0xE0 {
        2
    } else if b < 0xF0 {
        3
    } else if b < 0xF8 {
        4
    } else if b < 0xFC {
        5
    } else if b < 0xFE {
        6
    } else if b < 0xFF {
        7
    } else {
        8
    }
}

/// The runs of bytes that the scanner consumes in bulk.
#[derive(Clone, Copy, Debug, PartialEq, Eq, Structural)]
pub enum ByteClass {
    /// Everything up to a line break or the end of input.
    NotBreakz,
    /// Everything up to whitespace, a line break or the end of input.
    NotBlankOrBreakz,
    /// Anchor and alias name bytes.
    Anchor,
    /// Verbatim tag (URI) bytes.
    Uri,
    /// Tag handle bytes.
    Alpha,
    /// Tag suffix bytes.
    TagChar,
    /// The body of a single-quoted scalar, up to whitespace or `'`.
    SingleQuotedRun,
    /// The body of a double-quoted scalar, up to whitespace, `"` or `\`.
    DoubleQuotedRun,
}

/// Whether a bulk run of class `c` goes on through byte `b`.
#[verifier::allow_in_spec]
pub fn keeps(c: ByteClass, b: u8) -> bool
    returns
        match c {
            ByteClass::NotBreakz => !is_breakz(b),
            ByteClass::NotBlankOrBreakz => !is_blank_or_breakz(b),
            ByteClass::Anchor => is_anchor_char(b),
            ByteClass::Uri => is_uri_char(b),
            ByteClass::Alpha => is_alpha(b),
            ByteClass::TagChar => is_tag_char(b),
            ByteClass::SingleQuotedRun => !is_blank_or_breakz(b) && b != 0x27u8,
            ByteClass::DoubleQuotedRun => !is_blank_or_breakz(b) && b != 0x22u8 && b != 0x5Cu8,
        },
{
    match c {
        ByteClass::NotBreakz => !is_breakz(b),
        ByteClass::NotBlankOrBreakz => !is_blank_or_breakz(b),
        ByteClass::Anchor => is_anchor_char(b),
        ByteClass::Uri => is_uri_char(b),
        ByteClass::Alpha => is_alpha(b),
        ByteClass::TagChar => is_tag_char(b),
        ByteClass::SingleQuotedRun => !is_blank_or_breakz(b) && b != 0x27u8,
        ByteClass::DoubleQuotedRun => !is_blank_or_breakz(b) && b != 0x22u8 && b != 0x5Cu8,
    }
}

/// The number of characters in `bytes[start..end]` (its non-continuation bytes).
pub open spec fn count_chars(bytes: Seq<u8>, start: int, end: int) -> nat
    decreases end - start,
{
    if end <= start {
        0
    } else {
        count_chars(bytes, start, end - 1) + if is_continuation(bytes[end - 1]) { 0nat } else { 1nat }
    }
}

pub proof fn lemma_count_chars_bound(bytes: Seq<u8>, start: int, end: int)
    requires
        start <= end,
    ensures
        count_chars(bytes, start, end) <= end - start,
    decreases end - start,
{
    if end > start {
        lemma_count_chars_bound(bytes, start, end - 1);
    }
}

/// The number of characters in `bytes[start..end]` (counting non-continuation bytes).
pub fn char_count(bytes: &[u8], start: usize, end: usize) -> (n: usize)
    requires
        start <= end <= bytes@.len(),
    ensures
        n == count_chars(bytes@, start as int, end as int),
        n <= end - start,
{
    let mut n: usize = 0;
    let mut i: usize = start;
    while i < end
        invariant
            start <= i <= end <= bytes@.len(),
            n == count_chars(bytes@, start as int, i as int),
            n <= i - start,
        decreases end - i,
    {
        if !is_continuation(bytes[i]) {
            n = n + 1;
        }
        i = i + 1;
    }
    n
}

/// Whether a class takes in every byte that is not ASCII, so that a run of
/// it stops only at an ASCII byte (or the end of input).
pub open spec fn takes_non_ascii(c: ByteClass) -> bool {
    match c {
        ByteClass::Uri | ByteClass::Alpha | ByteClass::TagChar => false,
        _ => true,
    }
}

/// A run of a class, started at a character boundary, ends at one: a class
/// either takes in all non-ASCII bytes or none of them.
pub proof fn lemma_run_end_boundary(bytes: Seq<u8>, c: ByteClass, start: int, i: int)
    requires
        valid_utf8(bytes),
        0 <= start <= i <= bytes.len(),
        is_char_boundary(bytes, start),
        forall|k: int| start <= k < i ==> keeps(c, #[trigger] bytes[k]),
        i == bytes.len() || !keeps(c, bytes[i]),
    ensures
        is_char_boundary(bytes, i),
{
    if i == start {
    } else if i == bytes.len() {
        is_char_boundary_start_end_of_seq(bytes);
    } else if takes_non_ascii(c) {
        assert(bytes[i] < 0x80u8);
        lemma_ascii_boundaries(bytes, i);
    } else {
        assert(keeps(c, bytes[i - 1]));
        assert(bytes[i - 1] < 0x80u8);
        lemma_ascii_boundaries(bytes, i - 1);
    }
}

} // verus!
