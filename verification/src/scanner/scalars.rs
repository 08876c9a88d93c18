//! Scalars: block (`|`, `>`), quoted (`'`, `"`) and plain.
use super::{
    comment_text_ok, byte_at, char_count, ends_plain_scalar, is_ascii_digit, is_ascii_hexdigit, is_blank,
    is_blank_or_breakz, is_break, is_breakz, keeps, span, token_ok, is_flow, BlockHeaderIndex,
    BlockScalarHeader, ByteClass, ScalarStyle, ScanResult, Scanner, Token, TokenKind,
};
use super::cursor::{break_end, line_rest_end, lemma_line_rest_end, lemma_line_rest_end_at, in_new_comment, lemma_new_comment_kept, lemma_new_comment_widen};
use super::bookkeeping::strip_soft;
use crate::ast::Chomping;
use crate::error::ErrorKind;
use crate::pos::lemma_ascii_boundaries;
use vstd::prelude::*;
use vstd::utf8::{is_char_boundary, is_char_boundary_start_end_of_seq};

verus! {

/// `Some(e)` as an integer offset.
pub open spec fn offset_opt(o: Option<usize>) -> Option<int> {
    match o {
        Some(e) => Some(e as int),
        None => None,
    }
}

/// Skipping a block scalar's indentation and empty lines from offset `p`
/// at column `col`: spaces are skipped while the column is below `indent`,
/// and a line break then starts the next line. The result is the offset and
/// column where this stops, and the end of the last line break skipped
/// (`last` if none).
pub open spec fn block_indent_skip(s: Seq<u8>, p: int, col: int, indent: int, last: Option<int>) -> (int, int, Option<int>)
    decreases s.len() - p,
{
    if 0 <= p < s.len() && s[p] == 0x20u8 && col < indent {
        block_indent_skip(s, p + 1, col + 1, indent, last)
    } else if 0 <= p < s.len() && is_break(s[p]) {
        block_indent_skip(s, break_end(s, p), 0, indent, Some(break_end(s, p)))
    } else {
        (p, col, last)
    }
}

/// Skipping the leading empty lines of a block scalar from offset `p` at
/// column `col`: every space is skipped, and a line break starts the next
/// line. The result is the offset and column where this stops, and the
/// greatest column reached at the end of a run of spaces (at least `most`).
pub open spec fn first_line_skip(s: Seq<u8>, p: int, col: int, most: int) -> (int, int, int)
    decreases s.len() - p,
{
    if 0 <= p < s.len() && s[p] == 0x20u8 {
        first_line_skip(s, p + 1, col + 1, most)
    } else {
        let m = if col > most { col } else { most };
        if 0 <= p < s.len() && is_break(s[p]) {
            first_line_skip(s, break_end(s, p), 0, m)
        } else {
            (p, col, m)
        }
    }
}

/// The indentation of a block scalar without an indentation indicator: the
/// deepest column of its leading empty lines and first line, but at least
/// one more than the enclosing indentation.
pub open spec fn auto_block_indent(most: int, indent: int) -> int {
    let floor = indent + 1;
    let v = if most > floor { most } else { floor };
    if indent > 0 && v < 1 {
        1
    } else {
        v
    }
}

/// The number of indicator bytes in the block scalar header whose `|` or
/// `>` is at `p`.
pub open spec fn header_len(s: Seq<u8>, p: int) -> int {
    let a = byte_at(s, p + 1);
    let b = byte_at(s, p + 2);
    if is_chomping_indicator(a) {
        if is_ascii_digit(b) { 2 } else { 1 }
    } else if is_ascii_digit(a) {
        if is_chomping_indicator(b) { 2 } else { 1 }
    } else {
        0
    }
}

/// Where a block scalar's content starts: after the line break that ends
/// its header line (or at the end of input or a NUL).
pub open spec fn header_content_start(s: Seq<u8>, p: int) -> int {
    let le = line_rest_end(s, p + 1 + header_len(s, p));
    if is_break(byte_at(s, le)) {
        break_end(s, le)
    } else {
        le
    }
}

/// The indentation of the block scalar whose header is at `p`, in a block
/// indented at `base`: the indicator added to `base`, or found from the
/// first lines.
pub open spec fn block_indent_level(s: Seq<u8>, p: int, base: int) -> int {
    match header_indent(s, p) {
        Some(n) => if base >= 0 { base + n } else { n as int },
        None => auto_block_indent(first_line_skip(s, header_content_start(s, p), 0, 0).2, base),
    }
}

/// Where the skip of a block scalar's leading indentation and empty lines
/// stops, as offset and column.
pub open spec fn block_first_stop(s: Seq<u8>, p: int, base: int) -> (int, int) {
    let cs = header_content_start(s, p);
    match header_indent(s, p) {
        Some(_) => {
            let r = block_indent_skip(s, cs, 0, block_indent_level(s, p, base), None);
            (r.0, r.1)
        },
        None => {
            let r = first_line_skip(s, cs, 0, 0);
            (r.0, r.1)
        },
    }
}

/// A document marker of three `c` bytes, followed by a blank, a line break
/// or the end of input, at `p`.
pub open spec fn marker_at(s: Seq<u8>, p: int, c: u8) -> bool {
    &&& 0 <= p
    &&& p + 3 <= s.len()
    &&& s[p] == c
    &&& s[p + 1] == c
    &&& s[p + 2] == c
    &&& is_blank_or_breakz(byte_at(s, p + 3))
}

/// The content lines of a block scalar from offset `p` at column `col`:
/// each line at the scalar's indentation is content up to its line break;
/// the indentation and empty lines after it are skipped. The result is the
/// end of the last content character and the end of the last line break the
/// scalar owns (`text_end` and `content_end` if no line follows).
pub open spec fn block_content(s: Seq<u8>, p: int, col: int, indent: int, text_end: int, content_end: int) -> (int, int)
    decreases s.len() - p,
{
    if 0 <= p <= s.len() && col == indent && byte_at(s, p) != 0
        && !(indent == 0 && (marker_at(s, p, 0x2Du8) || marker_at(s, p, 0x2Eu8))) {
        proof {
            lemma_line_rest_end(s, p);
        }
        let le = line_rest_end(s, p);
        if byte_at(s, le) == 0 {
            (le, le)
        } else {
            let be = break_end(s, le);
            proof {
                lemma_block_indent_start(s, be, 0, indent, None);
            }
            let sk = block_indent_skip(s, be, 0, indent, None);
            block_content(s, sk.0, sk.1, indent, le, if sk.2 is Some { sk.2->0 } else { be })
        }
    } else {
        (text_end, content_end)
    }
}

/// Where the skip of leading empty lines stops, the current line began
/// just after the last line break skipped, or at the start when none was;
/// only spaces lie between the line's start and the stop.
pub proof fn lemma_first_line_start(s: Seq<u8>, p: int, col: int, most: int)
    requires
        0 <= p <= s.len(),
        0 <= col,
    ensures
        ({
            let r = first_line_skip(s, p, col, most);
            &&& p <= r.0 <= s.len()
            &&& 0 <= r.1
            &&& (r.0 - r.1 == p - col || (p < r.0 - r.1 && is_break(s[r.0 - r.1 - 1])))
            &&& forall|k: int| r.0 - r.1 <= k < r.0 && p <= k ==> s[k] == 0x20u8
            &&& forall|k: int| p <= k < r.0 ==> s[k] == 0x20u8 || is_break(s[k])
        }),
    decreases s.len() - p,
{
    if 0 <= p < s.len() && s[p] == 0x20u8 {
        lemma_first_line_start(s, p + 1, col + 1, most);
    } else {
        let m = if col > most { col } else { most };
        if 0 <= p < s.len() && is_break(s[p]) {
            lemma_first_line_start(s, break_end(s, p), 0, m);
        }
    }
}

/// The same for the skip of indentation and empty lines.
pub proof fn lemma_block_indent_start(s: Seq<u8>, p: int, col: int, indent: int, last: Option<int>)
    requires
        0 <= p <= s.len(),
        0 <= col,
    ensures
        ({
            let r = block_indent_skip(s, p, col, indent, last);
            &&& p <= r.0 <= s.len()
            &&& 0 <= r.1
            &&& (r.0 - r.1 == p - col || (p < r.0 - r.1 && is_break(s[r.0 - r.1 - 1])))
            &&& forall|k: int| r.0 - r.1 <= k < r.0 && p <= k ==> s[k] == 0x20u8
            &&& forall|k: int| p <= k < r.0 ==> s[k] == 0x20u8 || is_break(s[k])
        }),
    decreases s.len() - p,
{
    if 0 <= p < s.len() && s[p] == 0x20u8 && col < indent {
        lemma_block_indent_start(s, p + 1, col + 1, indent, last);
    } else if 0 <= p < s.len() && is_break(s[p]) {
        lemma_block_indent_start(s, break_end(s, p), 0, indent, Some(break_end(s, p)));
    }
}

/// Whether a byte inside a quoted scalar is plain text: not a NUL, not the
/// closing quote, and (in double quotes) not an escape.
pub open spec fn quoted_plain(c: u8, single: bool) -> bool {
    c != 0 && if single {
        c != 0x27u8
    } else {
        c != 0x22u8 && c != 0x5Cu8
    }
}

/// The offset of the quote that closes a quoted scalar whose text goes on
/// at `k`: in single quotes a doubled `''` stands for one quote, and in
/// double quotes a `\` escapes the byte after it. `None` if the input, or a
/// NUL, comes first.
pub open spec fn quoted_close(s: Seq<u8>, k: int, single: bool) -> Option<int>
    decreases s.len() - k,
{
    if k < 0 || k >= s.len() || s[k] == 0 {
        None
    } else if single && s[k] == 0x27u8 {
        if byte_at(s, k + 1) == 0x27u8 {
            quoted_close(s, k + 2, single)
        } else {
            Some(k)
        }
    } else if !single && s[k] == 0x22u8 {
        Some(k)
    } else if !single && s[k] == 0x5Cu8 {
        if k + 1 < s.len() {
            quoted_close(s, k + 2, single)
        } else {
            None
        }
    } else {
        quoted_close(s, k + 1, single)
    }
}

/// Where a quoted scalar whose text goes on at `k` closes on the same
/// line: the offset of its closing quote, when the text meets no line
/// break, NUL or end of input before it and (in double quotes) every
/// escape is valid.
pub open spec fn quoted_line_close(s: Seq<u8>, k: int, single: bool) -> Option<int>
    decreases s.len() - k,
{
    if k < 0 || k >= s.len() || s[k] == 0 || is_break(s[k]) {
        None
    } else if single && s[k] == 0x27u8 {
        if byte_at(s, k + 1) == 0x27u8 {
            quoted_line_close(s, k + 2, single)
        } else {
            Some(k)
        }
    } else if !single && s[k] == 0x22u8 {
        Some(k)
    } else if !single && s[k] == 0x5Cu8 {
        let n = escape_code_length(byte_at(s, k + 1));
        if escape_valid(s, k) && k + 2 + n.unwrap() <= s.len() {
            quoted_line_close(s, k + 2 + n.unwrap(), single)
        } else {
            None
        }
    } else {
        quoted_line_close(s, k + 1, single)
    }
}

/// A quoted scalar whose text goes on at `k` runs into the end of input
/// without a closing quote, meeting no line break, NUL or invalid escape.
pub open spec fn quoted_runs_off(s: Seq<u8>, k: int, single: bool) -> bool
    decreases s.len() - k,
{
    if k >= s.len() {
        k >= 0
    } else if k < 0 || s[k] == 0 || is_break(s[k]) {
        false
    } else if single && s[k] == 0x27u8 {
        if byte_at(s, k + 1) == 0x27u8 {
            quoted_runs_off(s, k + 2, single)
        } else {
            false
        }
    } else if !single && s[k] == 0x22u8 {
        false
    } else if !single && s[k] == 0x5Cu8 {
        let n = escape_code_length(byte_at(s, k + 1));
        if escape_valid(s, k) && k + 2 + n.unwrap() <= s.len() {
            quoted_runs_off(s, k + 2 + n.unwrap(), single)
        } else {
            false
        }
    } else {
        quoted_runs_off(s, k + 1, single)
    }
}

/// What may follow the closing quote of a quoted scalar on its line: the
/// line's end, a `:`, or in flow context a `,`, `]` or `}`.
pub open spec fn quoted_follow_ok(b: u8, in_flow: bool) -> bool {
    is_breakz(b) || b == 0x3Au8 || (in_flow && (b == 0x2Cu8 || b == 0x5Du8 || b == 0x7Du8))
}

/// A quoted scalar that runs into the end of input does not close.
proof fn lemma_runs_off_no_close(s: Seq<u8>, k: int, single: bool)
    ensures
        quoted_runs_off(s, k, single) ==> quoted_line_close(s, k, single) is None,
    decreases s.len() - k,
{
    if 0 <= k < s.len() && s[k] != 0 && !is_break(s[k]) {
        if single && s[k] == 0x27u8 {
            if byte_at(s, k + 1) == 0x27u8 {
                lemma_runs_off_no_close(s, k + 2, single);
            }
        } else if !single && s[k] == 0x22u8 {
        } else if !single && s[k] == 0x5Cu8 {
            let n = escape_code_length(byte_at(s, k + 1));
            if escape_valid(s, k) && k + 2 + n.unwrap() <= s.len() {
                lemma_runs_off_no_close(s, k + 2 + n.unwrap(), single);
            }
        } else {
            lemma_runs_off_no_close(s, k + 1, single);
        }
    }
}

/// Text that is neither a line break, a NUL, the closing quote nor an
/// escape does not change where a quoted scalar closes on its line.
proof fn lemma_quoted_line_run(s: Seq<u8>, a: int, b: int, single: bool)
    requires
        0 <= a <= b <= s.len(),
        forall|j: int| a <= j < b ==> quoted_plain(#[trigger] s[j], single) && !is_break(s[j]),
    ensures
        quoted_line_close(s, a, single) == quoted_line_close(s, b, single),
        quoted_runs_off(s, a, single) == quoted_runs_off(s, b, single),
    decreases b - a,
{
    if a < b {
        lemma_quoted_line_run(s, a + 1, b, single);
    }
}

/// Plain text inside a quoted scalar does not change where it closes.
proof fn lemma_quoted_run(s: Seq<u8>, a: int, b: int, single: bool)
    requires
        0 <= a <= b <= s.len(),
        forall|j: int| a <= j < b ==> quoted_plain(#[trigger] s[j], single),
    ensures
        quoted_close(s, a, single) == quoted_close(s, b, single),
    decreases b - a,
{
    if a < b {
        lemma_quoted_run(s, a + 1, b, single);
    }
}

/// Whether a byte is a chomping indicator (`+` or `-`).
pub open spec fn is_chomping_indicator(c: u8) -> bool {
    c == 0x2Bu8 || c == 0x2Du8
}

/// The chomping that an indicator byte names.
pub open spec fn chomping_of(c: u8) -> Chomping {
    if c == 0x2Bu8 {
        Chomping::Keep
    } else {
        Chomping::Strip
    }
}

/// The chomping of the block scalar header whose `|` or `>` is at `p`: the
/// indicator right after it, or after an indentation digit; clip if none.
pub open spec fn header_chomping(s: Seq<u8>, p: int) -> Chomping {
    let a = byte_at(s, p + 1);
    let b = byte_at(s, p + 2);
    if is_chomping_indicator(a) {
        chomping_of(a)
    } else if is_ascii_digit(a) && is_chomping_indicator(b) {
        chomping_of(b)
    } else {
        Chomping::Clip
    }
}

/// The indentation indicator digit of the block scalar header whose `|`
/// or `>` is at `p`: right after it, or after a chomping indicator.
pub open spec fn header_indent_digit(s: Seq<u8>, p: int) -> Option<u8> {
    let a = byte_at(s, p + 1);
    let b = byte_at(s, p + 2);
    if is_ascii_digit(a) {
        Some(a)
    } else if is_chomping_indicator(a) && is_ascii_digit(b) {
        Some(b)
    } else {
        None
    }
}

/// The indentation indicator of that header, as a number.
pub open spec fn header_indent(s: Seq<u8>, p: int) -> Option<u32> {
    match header_indent_digit(s, p) {
        Some(d) => Some((d - 0x30u8) as u32),
        None => None,
    }
}

/// A run of spaces below the indentation is skipped one by one.
proof fn lemma_block_indent_spaces(s: Seq<u8>, p: int, q: int, col: int, indent: int, last: Option<int>)
    requires
        0 <= p <= q <= s.len(),
        col + (q - p) <= indent,
        forall|k: int| p <= k < q ==> #[trigger] s[k] == 0x20u8,
    ensures
        block_indent_skip(s, p, col, indent, last) == block_indent_skip(s, q, col + (q - p), indent, last),
    decreases q - p,
{
    if p < q {
        lemma_block_indent_spaces(s, p + 1, q, col + 1, indent, last);
    }
}

/// A run of spaces is skipped one by one.
proof fn lemma_first_line_spaces(s: Seq<u8>, p: int, q: int, col: int, most: int)
    requires
        0 <= p <= q <= s.len(),
        forall|k: int| p <= k < q ==> #[trigger] s[k] == 0x20u8,
    ensures
        first_line_skip(s, p, col, most) == first_line_skip(s, q, col + (q - p), most),
    decreases q - p,
{
    if p < q {
        lemma_first_line_spaces(s, p + 1, q, col + 1, most);
    }
}

/// `16^i`.
pub open spec fn hex_bound(i: nat) -> nat
    decreases i,
{
    if i == 0 {
        1
    } else {
        16 * hex_bound((i - 1) as nat)
    }
}

/// The number of hex digits that follow an escape character, or `None` for
/// a character that cannot be escaped.
pub open spec fn escape_code_length(c: u8) -> Option<nat> {
    if c == 0x30u8 || c == 0x61u8 || c == 0x62u8 || c == 0x74u8 || c == 0x09u8 || c == 0x6Eu8
        || c == 0x76u8 || c == 0x66u8 || c == 0x72u8 || c == 0x65u8 || c == 0x20u8 || c == 0x22u8
        || c == 0x2Fu8 || c == 0x5Cu8 || c == 0x4Eu8 || c == 0x5Fu8 || c == 0x4Cu8 || c == 0x50u8 {
        Some(0)
    } else if c == 0x78u8 {
        Some(2)
    } else if c == 0x75u8 {
        Some(4)
    } else if c == 0x55u8 {
        Some(8)
    } else {
        None
    }
}

/// The value of a hex digit.
pub open spec fn hex_value(c: u8) -> nat {
    if 0x30u8 <= c <= 0x39u8 {
        (c - 0x30u8) as nat
    } else if 0x61u8 <= c <= 0x66u8 {
        (c - 0x61u8 + 10) as nat
    } else {
        (c - 0x41u8 + 10) as nat
    }
}

/// The number written by the `n` hex digits at `s[i..i + n]`.
pub open spec fn hex_number(s: Seq<u8>, i: int, n: nat) -> nat
    decreases n,
{
    if n == 0 {
        0
    } else {
        16 * hex_number(s, i, (n - 1) as nat) + hex_value(byte_at(s, i + n - 1))
    }
}

/// Whether a number is a Unicode scalar value (what `char::from_u32` accepts).
pub open spec fn is_unicode_scalar(v: nat) -> bool {
    v <= 0x10FFFF && !(0xD800 <= v <= 0xDFFF)
}

/// The escape sequence at `s[i..]` (which starts with `\`) is valid.
pub open spec fn escape_valid(s: Seq<u8>, i: int) -> bool {
    match escape_code_length(byte_at(s, i + 1)) {
        None => false,
        Some(n) => n == 0 || {
            &&& forall|k: int| 0 <= k < n ==> is_ascii_hexdigit(#[trigger] byte_at(s, i + 2 + k))
            &&& is_unicode_scalar(hex_number(s, i + 2, n))
        },
    }
}

proof fn lemma_hex_bound_8()
    ensures
        hex_bound(8) == 0x1_0000_0000,
{
    reveal_with_fuel(hex_bound, 9);
}

proof fn lemma_hex_bound_mono(i: nat)
    requires
        i <= 8,
    ensures
        hex_bound(i) <= hex_bound(8),
    decreases 8 - i,
{
    if i < 8 {
        lemma_hex_bound_mono(i + 1);
    }
}

impl<'a> Scanner<'a> {
    /// What a scalar scan leaves behind: the scanner stays well formed, the
    /// cursor moved forward past the token, and no token or key changed.
    /// A plain scalar cannot go on at the cursor: the input ends (or a NUL
    /// comes), a comment or a document marker starts, a value indicator or
    /// (in flow context) a flow indicator comes, or, in block context, the
    /// line is indented less than `indent`.
    pub open spec fn plain_stops(&self, in_flow: bool, indent: int) -> bool {
        ||| self.cur() == 0
        ||| self.cur() == 0x23u8
        ||| self.marker_here(0x2Du8)
        ||| self.marker_here(0x2Eu8)
        ||| ends_plain_scalar(self.cur(), self.ahead(1), in_flow)
        ||| !in_flow && self.col < indent
    }

    /// A plain scalar can start at the cursor: a character that is no blank,
    /// line break or NUL, no `#`, no value or (in flow context) flow
    /// indicator, and no document marker at the start of a line.
    pub open spec fn plain_can_start(&self, in_flow: bool) -> bool {
        &&& !is_blank_or_breakz(self.cur())
        &&& !ends_plain_scalar(self.cur(), self.ahead(1), in_flow)
        &&& self.cur() != 0x23u8
        &&& !(self.leading_whitespace && (self.marker_here(0x2Du8) || self.marker_here(0x2Eu8)))
    }

    pub open spec fn scanned(&self, new: &Self, t: Token) -> bool {
        &&& new.inv()
        &&& self.advances_to(new)
        &&& new.pos > self.pos
        &&& new.tokens@ == self.tokens@
        &&& new.simple_keys@ == self.simple_keys@
        &&& new.flow_level == self.flow_level
        &&& new.flow_mapping_started == self.flow_mapping_started
        &&& new.implicit_flow_mapping_states@ == self.implicit_flow_mapping_states@
        &&& new.stream_start_produced == self.stream_start_produced
        &&& new.stream_end_fetched@ == self.stream_end_fetched@
        &&& new.budget() == self.budget()
        &&& token_ok(t, new.block_headers@, new.src@)
        &&& !t.synthesized
        &&& t.kind != TokenKind::StreamEnd
        &&& t.span.start == self.pos
        &&& t.span.end <= new.pos
    }

    pub fn fetch_block_scalar(&mut self, literal: bool)
        -> (r: ScanResult<()>)
        requires
            old(self).wf(),
            old(self).stream_start_produced,
            !old(self).stream_end_fetched@,
            old(self).cur() == (if literal { 0x7Cu8 } else { 0x3Eu8 }),
        ensures
            r is Ok ==> old(self).fetched(&*final(self)),
            r is Err ==> r->Err_0.located(old(self).src@.len()),
    {
        self.save_simple_key();
        self.simple_key_allowed = true;
        let ghost mid = *self;
        let tok = self.scan_block_scalar(literal)?;
        assert(mid.can_append_at(tok.span.start as int));
        self.push_token(tok);
        Ok(())
    }

    #[verifier::rlimit(60)]
    pub fn scan_block_scalar(&mut self, literal: bool) -> (r: ScanResult<Token>)
        requires
            old(self).inv(),
            old(self).stream_start_produced,
            !old(self).stream_end_fetched@,
            old(self).cur() == (if literal { 0x7Cu8 } else { 0x3Eu8 }),
        ensures
            r matches Ok(t) ==> old(self).scanned(&*final(self), t),
            r is Err ==> r->Err_0.located(old(self).src@.len()),
            r matches Ok(t) ==> {
                let s = old(self).src@;
                let hs = final(self).block_headers@;
                let h = hs[old(self).block_headers@.len() as int];
                &&& hs.len() == old(self).block_headers@.len() + 1
                &&& t.kind matches TokenKind::Scalar(st, Some(i)) && i.index() == old(self).block_headers@.len()
                    && st == (if literal { ScalarStyle::Literal } else { ScalarStyle::Folded })
                &&& h.chomping == header_chomping(s, old(self).pos as int)
                &&& h.indent == header_indent(s, old(self).pos as int)
                &&& forall|k: int| h.content_end <= k < t.span.end ==> #[trigger] s[k] == 0x20u8 || is_break(s[k])
            },
            header_indent_digit(old(self).src@, old(self).pos as int) == Some(0x30u8) ==> r is Err,
            r matches Ok(t) ==> {
                let s = old(self).src@;
                let p = old(self).pos as int;
                let base = strip_soft(old(self).indent as int, old(self).indents@).0;
                let cs = header_content_start(s, p);
                let stop = block_first_stop(s, p, base);
                let h = final(self).block_headers@[old(self).block_headers@.len() as int];
                &&& h.content_start == cs
                &&& byte_at(s, stop.0) == 0 ==> t.span.end == stop.0 && h.content_end == cs
                &&& byte_at(s, stop.0) != 0 ==> {
                    let bc = block_content(s, stop.0, stop.1, block_indent_level(s, p, base), cs, stop.0 - stop.1);
                    &&& t.span.end == bc.1
                    &&& h.content_end == bc.0
                }
            },
            ({
                let s = old(self).src@;
                let p = old(self).pos as int;
                let base = strip_soft(old(self).indent as int, old(self).indents@).0;
                let stop = block_first_stop(s, p, base);
                let ind = block_indent_level(s, p, base);
                &&& header_indent_digit(s, p) != Some(0x30u8)
                &&& is_breakz(byte_at(s, p + 1 + header_len(s, p)))
                &&& byte_at(s, header_content_start(s, p)) != 0x09u8
                &&& (byte_at(s, stop.0) == 0 || !(stop.1 < ind && stop.1 > base))
            }) ==> r is Ok,
    {
        let start = self.pos;
        let ghost s = self.src@;
        let style = if literal { ScalarStyle::Literal } else { ScalarStyle::Folded };

        // Skip `|` or `>`.
        self.bump();
        self.unroll_non_block_indents();

        let (chomping, increment) = self.scan_block_header(start)?;
        let content_start = self.pos;

        if self.peek() == 0x09u8 {
            return Err(self.error(ErrorKind::TabAsIndent, self.pos));
        }

        let mut indent: u64 = 0;
        if increment > 0 {
            indent = if self.indent >= 0 { self.indent as u64 + increment } else { increment };
        }

        // Scan the leading line breaks and determine the indentation level if needed.
        let ghost at_content = *self;
        let ghost base = self.indent as int;
        assert(base == strip_soft(old(self).indent as int, old(self).indents@).0);
        assert(content_start == header_content_start(s, start as int));
        assert(at_content.col == 0 || at_content.cur() == 0);
        assert(increment > 0 ==> indent == block_indent_level(s, start as int, base));
        if indent == 0 {
            self.skip_block_scalar_first_line_indent(&mut indent);
            proof {
                lemma_first_line_start(self.src@, content_start as int, at_content.col as int, 0);
            }
        } else {
            self.skip_block_scalar_indent(indent);
            proof {
                lemma_block_indent_start(self.src@, content_start as int, at_content.col as int, indent as int, None);
            }
        }

        let header_index = BlockHeaderIndex::new(self.block_headers.len());
        let ghost before_push = *self;
        self.block_headers.push(
            BlockScalarHeader {
                chomping,
                indent: if increment > 0 { Some(increment as u32) } else { None },
                content_start: content_start as u32,
                // The content loop below overwrites this with the real text end.
                content_end: content_start as u32,
            },
        );
        proof {
            self.lemma_headers_extended(before_push);
        }

        let ghost hi = header_index.index() as int;
        assert(self.block_headers@[hi].content_start == content_start);
        assert(self.block_headers@[hi].content_end == content_start);
        assert(start < content_start);
        let ghost stop = block_first_stop(s, start as int, base);
        proof {
            if at_content.col != 0 {
                assert(byte_at(s, content_start as int) == 0);
            }
            assert(self.pos == stop.0);
            assert(byte_at(s, stop.0) != 0 ==> self.col == stop.1 && indent == block_indent_level(s, start as int, base));
        }
        // End-of-stream with no content, e.g. `- |+`.
        if self.next_is_z() {
            let t = Token::new(TokenKind::Scalar(style, Some(header_index)), span(start, self.pos));
            return Ok(t);
        }

        if (self.col as u64) < indent && (self.col as i64) > self.indent {
            return Err(self.error(ErrorKind::InvalidBlockScalarIndent, self.pos));
        }

        // The line the skip stopped in began right after the last line break
        // it skipped (or at `content_start`): the scalar owns up to there.
        proof {
            if at_content.col != 0 {
                // No header line break was consumed, so the header ended at
                // a NUL and the skip did not move.
                assert(at_content.cur() == 0);
                assert(self.pos == content_start);
                assert(false);
            }
        }
        let line_start = self.pos - self.col;
        proof {
            let k = line_start as int;
            if k < self.pos {
                lemma_ascii_boundaries(self.src@, k);
            }
        }

        // The scan may overshoot into the terminating line's indentation; the
        // token ends just after the last line break that belongs to the scalar.
        let ghost before_lines = *self;
        // Offset right after the last content character, and the end of the
        // last line break the scalar owns.
        let (text_end, content_end) = self.scan_block_lines(indent, content_start, line_start);
        proof {
            assert(self.block_headers@ == before_lines.block_headers@);
        }
        let idx = header_index.get();
        let mut h = self.block_headers[idx];
        h.content_end = text_end as u32;
        let ghost before_set = *self;
        proof {
            let ts = self.tokens@;
            assert forall|i: int| 0 <= i < ts.len() implies match (#[trigger] ts[i]).kind {
                TokenKind::Scalar(_, Some(h)) => h.index() < idx,
                _ => true,
            } by {
                assert(token_ok(before_push.tokens@[i], before_push.block_headers@, before_push.src@));
            }
        }
        self.block_headers.set(idx, h);
        proof {
            self.lemma_header_updated(before_set, idx as int);
            assert(self.block_headers@[hi].content_start == content_start);
            assert(self.block_headers@[hi].content_end == text_end);
        }
        let t = Token::new(TokenKind::Scalar(style, Some(header_index)), span(start, content_end));
        Ok(t)
    }

    /// Read a block scalar's header after its `|` or `>` (at `start`): the
    /// chomping and indentation indicators in either order, then nothing but
    /// blanks and a comment up to the line's end; the cursor then stands
    /// after that line's break. Returns the chomping and the indentation
    /// indicator (0 if none).
    fn scan_block_header(&mut self, start: usize) -> (r: ScanResult<(Chomping, u64)>)
        requires
            old(self).inv(),
            old(self).stream_start_produced,
            old(self).pos == start + 1,
            start < old(self).src@.len(),
        ensures
            r is Ok ==> old(self).cursor_move(&*final(self)),
            r is Err ==> r->Err_0.located(old(self).src@.len()),
            r matches Ok((c, inc)) ==> {
                let s = old(self).src@;
                &&& c == header_chomping(s, start as int)
                &&& (inc == 0 <==> header_indent_digit(s, start as int) is None)
                &&& (inc > 0 ==> header_indent(s, start as int) == Some(inc as u32) && inc <= 9)
                &&& final(self).pos == header_content_start(s, start as int)
                &&& (final(self).col == 0 || final(self).cur() == 0)
            },
            header_indent_digit(old(self).src@, start as int) == Some(0x30u8) ==> r is Err,
            header_indent_digit(old(self).src@, start as int) != Some(0x30u8)
                && is_breakz(byte_at(old(self).src@, start + 1 + header_len(old(self).src@, start as int))) ==> r is Ok,
    {
        let ghost s = self.src@;
        let mut chomping = Chomping::Clip;
        let mut increment: u64 = 0;
        // Parse the header: chomping and indentation indicators, in either order.
        if self.peek() == 0x2Bu8 || self.peek() == 0x2Du8 {
            chomping = self.read_chomping();
            if is_ascii_digit(self.peek()) {
                increment = self.read_block_indent(start)?;
            }
        } else if is_ascii_digit(self.peek()) {
            increment = self.read_block_indent(start)?;
            if self.peek() == 0x2Bu8 || self.peek() == 0x2Du8 {
                chomping = self.read_chomping();
            }
        }

        assert(chomping == header_chomping(s, start as int));
        assert(increment == 0 <==> header_indent_digit(s, start as int) is None);
        assert(increment > 0 ==> header_indent(s, start as int) == Some(increment as u32));
        let ghost hdr_end = self.pos as int;
        assert(hdr_end == start + 1 + header_len(s, start as int));
        let ghost before_ws = *self;
        self.skip_ws_to_eol(true)?;

        if !is_breakz(self.peek()) {
            return Err(self.error(ErrorKind::InvalidBlockScalarHeader, start));
        }
        assert(old(self).cursor_move(&*self));
        proof {
            let n = before_ws.comments@.len() as int;
            assert forall|k: int| hdr_end <= k < self.pos implies !is_breakz(#[trigger] s[k]) by {
                if !is_blank(s[k]) {
                    assert(in_new_comment(n, self.comments@, k));
                    let i = choose|i: int| n <= i < self.comments@.len() && (#[trigger] self.comments@[i]).span.start <= k
                        && k < self.comments@[i].span.end;
                    assert(comment_text_ok(self.src@, self.comments@[i]));
                    assert(!crate::ast::is_line_end(s[k]));
                }
            }
            lemma_line_rest_end_at(s, hdr_end, self.pos as int);
        }

        if is_break(self.peek()) {
            self.bump_break();
        }
        Ok((chomping, increment))
    }

    /// Scan the content lines of a block scalar at indentation `indent`,
    /// from the cursor: each line at the indentation is content up to its
    /// line break, and the indentation and empty lines after it are
    /// skipped. Returns the end of the last content character and the end of
    /// the last line break the scalar owns (`content_start` and
    /// `content_end0` when no content line follows).
    fn scan_block_lines(&mut self, indent: u64, content_start: usize, content_end0: usize) -> (r: (usize, usize))
        requires
            old(self).inv(),
            old(self).stream_start_produced,
            content_start <= content_end0 <= old(self).pos,
            is_char_boundary(old(self).src@, content_start as int),
            is_char_boundary(old(self).src@, content_end0 as int),
            forall|k: int| content_start <= k < content_end0 ==> #[trigger] old(self).src@[k] == 0x20u8 || is_break(old(self).src@[k]),
        ensures
            old(self).cursor_move(&*final(self)),
            final(self).comments@ == old(self).comments@,
            content_start <= r.0 <= r.1 <= final(self).pos,
            is_char_boundary(final(self).src@, r.0 as int),
            is_char_boundary(final(self).src@, r.1 as int),
            forall|k: int| r.0 <= k < r.1 ==> #[trigger] old(self).src@[k] == 0x20u8 || is_break(old(self).src@[k]),
            (r.0 as int, r.1 as int) == block_content(
                old(self).src@,
                old(self).pos as int,
                old(self).col as int,
                indent as int,
                content_start as int,
                content_end0 as int,
            ),
    {
        let ghost s = self.src@;
        let mut content_end = content_end0;
        let mut text_end = content_start;
        let ghost goal = block_content(s, self.pos as int, self.col as int, indent as int, text_end as int, content_end as int);
        while (self.col as u64) == indent && !self.next_is_z()
            invariant
                old(self).cursor_move(&*self),
                self.comments@ == old(self).comments@,
                self.stream_start_produced,
                content_start <= text_end <= content_end <= self.pos,
                is_char_boundary(self.src@, text_end as int),
                is_char_boundary(self.src@, content_end as int),
                s == self.src@,
                forall|k: int| text_end <= k < content_end ==> #[trigger] s[k] == 0x20u8 || is_break(s[k]),
                block_content(s, self.pos as int, self.col as int, indent as int, text_end as int, content_end as int) == goal,
            ensures
                old(self).cursor_move(&*self),
                self.comments@ == old(self).comments@,
                content_start <= text_end <= content_end <= self.pos,
                is_char_boundary(self.src@, text_end as int),
                is_char_boundary(self.src@, content_end as int),
                s == self.src@,
                forall|k: int| text_end <= k < content_end ==> #[trigger] s[k] == 0x20u8 || is_break(s[k]),
                (text_end as int, content_end as int) == goal,
            decreases self.src@.len() - self.pos,
        {
            if indent == 0 && self.next_is_document_indicator() {
                break;
            }
            // Consume the content line, in bulk.
            let ghost lp = self.pos as int;
            self.bump_while(ByteClass::NotBreakz);
            proof {
                assert forall|k: int| lp <= k < self.pos implies !is_breakz(#[trigger] s[k]) by {
                    assert(keeps(ByteClass::NotBreakz, s[k]));
                }
                lemma_line_rest_end_at(s, lp, self.pos as int);
            }
            text_end = self.pos;

            if self.next_is_z() {
                content_end = self.pos;
                break;
            }
            let ghost bp0 = self.pos as int;
            self.bump_break();
            content_end = self.pos;
            let ghost bp = self.pos as int;
            let ghost bcol = self.col as int;
            assert(forall|k: int| text_end <= k < content_end ==> #[trigger] s[k] == 0x20u8 || is_break(s[k])) by {
                if bp == bp0 + 2 {
                    assert(s[bp0 + 1] == 0x0Au8);
                }
            }

            // Eat the following indentation spaces and line breaks.
            assert(bp == break_end(s, text_end as int));
            assert(bcol == 0);
            if let Some(last_break_end) = self.skip_block_scalar_indent(indent) {
                proof {
                    lemma_block_indent_start(s, bp, bcol, indent as int, None);
                }
                content_end = last_break_end;
            }
        }
        (text_end, content_end)
    }

    /// Read a block scalar chomping indicator: `+` (keep) or `-` (strip). The
    /// cursor must be at a `+` or `-`.
    pub fn read_chomping(&mut self) -> (c: Chomping)
        requires
            old(self).inv(),
            old(self).stream_start_produced,
            old(self).cur() == 0x2Bu8 || old(self).cur() == 0x2Du8,
        ensures
            old(self).cursor_move(&*final(self)),
            final(self).pos == old(self).pos + 1,
            c == (if old(self).cur() == 0x2Bu8 { Chomping::Keep } else { Chomping::Strip }),
    {
        let chomping = if self.peek() == 0x2Bu8 { Chomping::Keep } else { Chomping::Strip };
        self.bump();
        chomping
    }

    /// Read a block scalar indentation indicator digit (`1`..=`9`) and return
    /// it. The cursor must be at an ASCII digit; `0` is not a valid indicator.
    pub fn read_block_indent(&mut self, start: usize) -> (r: ScanResult<u64>)
        requires
            old(self).inv(),
            old(self).stream_start_produced,
            is_ascii_digit(old(self).cur()),
            start <= old(self).pos,
        ensures
            r matches Ok(n) ==> {
                &&& old(self).cursor_move(&*final(self))
                &&& final(self).pos == old(self).pos + 1
                &&& n == old(self).cur() - 0x30u8
                &&& 1 <= n <= 9
            },
            r is Err <==> old(self).cur() == 0x30u8,
            r is Err ==> r->Err_0.located(old(self).src@.len()),
    {
        if self.peek() == 0x30u8 {
            return Err(self.error(ErrorKind::InvalidBlockScalarHeader, start));
        }
        let increment = (self.peek() - 0x30u8) as u64;
        self.bump();
        Ok(increment)
    }

    /// Skip the block scalar indentation and empty lines.
    /// Returns the position just after the last consumed line break, or
    /// `None` if no break was consumed.
    pub fn skip_block_scalar_indent(&mut self, indent: u64) -> (r: Option<usize>)
        requires
            old(self).inv(),
            old(self).stream_start_produced,
        ensures
            old(self).cursor_move(&*final(self)),
            final(self).comments@ == old(self).comments@,
            r matches Some(e) ==> old(self).pos < e <= final(self).pos && is_char_boundary(final(self).src@, e as int),
            ({
                let sk = block_indent_skip(old(self).src@, old(self).pos as int, old(self).col as int, indent as int, None);
                &&& final(self).pos == sk.0
                &&& final(self).col == sk.1
                &&& offset_opt(r) == sk.2
            }),
    {
        let mut last_break_end: Option<usize> = None;
        let ghost s = self.src@;
        let ghost goal = block_indent_skip(s, old(self).pos as int, old(self).col as int, indent as int, None);
        loop
            invariant
                old(self).cursor_move(&*self),
                self.comments@ == old(self).comments@,
                self.stream_start_produced,
                last_break_end matches Some(e) ==> old(self).pos < e <= self.pos && is_char_boundary(self.src@, e as int),
                s == self.src@,
                block_indent_skip(s, self.pos as int, self.col as int, indent as int, offset_opt(last_break_end)) == goal,
            ensures
                old(self).cursor_move(&*self),
                self.comments@ == old(self).comments@,
                last_break_end matches Some(e) ==> old(self).pos < e <= self.pos && is_char_boundary(self.src@, e as int),
                s == self.src@,
                goal == (self.pos as int, self.col as int, offset_opt(last_break_end)),
            decreases self.src@.len() - self.pos,
        {
            let ghost p0 = self.pos;
            // Bounded bulk run of indentation spaces.
            while (self.col as u64) < indent && self.peek() == 0x20u8
                invariant
                    self.pos >= p0,
                    old(self).cursor_move(&*self),
                    self.comments@ == old(self).comments@,
                    self.stream_start_produced,
                    last_break_end matches Some(e) ==> old(self).pos < e <= self.pos && is_char_boundary(self.src@, e as int),
                    s == self.src@,
                    block_indent_skip(s, self.pos as int, self.col as int, indent as int, offset_opt(last_break_end)) == goal,
                decreases self.src@.len() - self.pos,
            {
                let want = indent - self.col as u64;
                let mut i = self.pos;
                let limit = if want < (self.src.len() - self.pos) as u64 { self.pos + want as usize } else { self.src.len() };
                while i < limit && self.src[i] == 0x20u8
                    invariant
                        self.pos <= i <= limit <= self.src@.len(),
                        limit - self.pos <= want,
                        i > self.pos ==> self.src@[i - 1] == 0x20u8,
                        forall|k: int| self.pos <= k < i ==> #[trigger] self.src@[k] == 0x20u8,
                    decreases limit - i,
                {
                    i = i + 1;
                }
                proof {
                    if i > self.pos {
                        lemma_ascii_boundaries(self.src@, i - 1);
                    }
                    lemma_block_indent_spaces(s, self.pos as int, i as int, self.col as int, indent as int, offset_opt(last_break_end));
                }
                self.col = self.col + (i - self.pos);
                self.pos = i;
            }
            if is_break(self.peek()) {
                let ghost p = self.pos as int;
                self.bump_break();
                last_break_end = Some(self.pos);
                assert(self.pos == break_end(s, p));
            } else {
                break;
            }
        }
        last_break_end
    }

    /// Determine the indentation level for a block scalar from the first line
    /// of its contents.
    pub fn skip_block_scalar_first_line_indent(&mut self, indent: &mut u64)
        requires
            old(self).inv(),
            old(self).stream_start_produced,
        ensures
            old(self).cursor_move(&*final(self)),
            final(self).comments@ == old(self).comments@,
            ({
                let sk = first_line_skip(old(self).src@, old(self).pos as int, old(self).col as int, 0);
                &&& final(self).pos == sk.0
                &&& final(self).col == sk.1
                &&& *final(indent) == auto_block_indent(sk.2, old(self).indent as int)
            }),
    {
        let mut max_indent: usize = 0;
        let ghost s = self.src@;
        let ghost goal = first_line_skip(s, old(self).pos as int, old(self).col as int, 0);
        loop
            invariant
                old(self).cursor_move(&*self),
                self.comments@ == old(self).comments@,
                self.stream_start_produced,
                s == self.src@,
                first_line_skip(s, self.pos as int, self.col as int, max_indent as int) == goal,
            ensures
                old(self).cursor_move(&*self),
                self.comments@ == old(self).comments@,
                s == self.src@,
                goal == (self.pos as int, self.col as int, max_indent as int),
            decreases self.src@.len() - self.pos,
        {
            let ghost p0 = self.pos;
            let ghost c0 = self.col;
            self.bump_space_run();
            proof {
                lemma_first_line_spaces(s, p0 as int, self.pos as int, c0 as int, max_indent as int);
            }
            if self.col > max_indent {
                max_indent = self.col;
            }
            if is_break(self.peek()) {
                let ghost p = self.pos as int;
                self.bump_break();
                assert(self.pos > p0);
                assert(self.pos == break_end(s, p));
            } else {
                break;
            }
        }
        let floor = (self.indent + 1) as u64;
        *indent = if (max_indent as u64) > floor { max_indent as u64 } else { floor };
        if self.indent > 0 && *indent < 1 {
            *indent = 1;
        }
    }

    pub fn fetch_flow_scalar(&mut self, single: bool) -> (r: ScanResult<()>)
        requires
            old(self).wf(),
            old(self).stream_start_produced,
            !old(self).stream_end_fetched@,
            old(self).cur() == (if single { 0x27u8 } else { 0x22u8 }),
        ensures
            r is Ok ==> old(self).fetched(&*final(self)),
            r is Err ==> r->Err_0.located(old(self).src@.len()),
    {
        self.save_simple_key();
        self.simple_key_allowed = false;
        let ghost mid = *self;
        let tok = self.scan_flow_scalar(single)?;
        // To ensure JSON compatibility, if a key inside a flow mapping is
        // JSON-like, YAML allows the following value to be adjacent to the `:`.
        self.skip_to_next_token()?;
        self.adjacent_value_allowed_at = self.pos;
        assert(mid.can_append_at(tok.span.start as int));
        self.push_token(tok);
        Ok(())
    }

    pub fn scan_flow_scalar(&mut self, single: bool) -> (r: ScanResult<Token>)
        requires
            old(self).inv(),
            old(self).stream_start_produced,
            !old(self).stream_end_fetched@,
            old(self).cur() == (if single { 0x27u8 } else { 0x22u8 }),
        ensures
            r matches Ok(t) ==> {
                &&& old(self).scanned(&*final(self), t)
                &&& t.kind == TokenKind::Scalar(
                    if single { ScalarStyle::SingleQuoted } else { ScalarStyle::DoubleQuoted },
                    None,
                )
            },
            r is Err ==> r->Err_0.located(old(self).src@.len()),
            r matches Ok(t) ==> quoted_close(old(self).src@, old(self).pos + 1, single) == Some(t.span.end - 1),
            quoted_close(old(self).src@, old(self).pos + 1, single) is None ==> r is Err,
            ({
                let lc = quoted_line_close(old(self).src@, old(self).pos + 1, single);
                old(self).col >= old(self).indent && lc is Some
                    && quoted_follow_ok(byte_at(old(self).src@, lc->0 + 1), old(self).flow_level > 0)
            }) ==> r is Ok,
            old(self).col >= old(self).indent && quoted_runs_off(old(self).src@, old(self).pos + 1, single) ==> ({
                &&& r is Err
                &&& r->Err_0.kind is UnterminatedFlowScalar
                &&& r->Err_0.span.start == old(self).pos
                &&& r->Err_0.span.end == old(self).pos + 1
            }),
    {
        let start = self.pos;
        let start_line = self.line;
        let q: u8 = if single { 0x27u8 } else { 0x22u8 };
        let ghost s = self.src@;
        let ghost goal = quoted_close(s, start + 1, single);
        let ghost lc = quoted_line_close(s, start + 1, single);
        let ghost ro = quoted_runs_off(s, start + 1, single);
        let ghost lok = old(self).col >= old(self).indent && (lc is Some || ro);
        proof {
            lemma_runs_off_no_close(s, start + 1, single);
        }

        // Eat the left quote.
        self.bump();

        loop
            invariant
                old(self).cursor_move(&*self),
                self.stream_start_produced,
                !self.stream_end_fetched@,
                start == old(self).pos,
                self.pos > start,
                self.src@[start as int] == q,
                q == (if single { 0x27u8 } else { 0x22u8 }),
                s == self.src@,
                quoted_close(s, self.pos as int, single) == goal,
                lok ==> quoted_line_close(s, self.pos as int, single) == lc && quoted_runs_off(s, self.pos as int, single) == ro
                    && self.line == old(self).line && !self.leading_whitespace && self.col > old(self).col,
                lok == (old(self).col >= old(self).indent && (lc is Some || ro)),
                lc == quoted_line_close(s, start + 1, single),
                ro == quoted_runs_off(s, start + 1, single),
            ensures
                old(self).cursor_move(&*self),
                self.pos > start,
                self.cur() == q,
                s == self.src@,
                goal == Some(self.pos as int),
                lok ==> lc == Some(self.pos as int) && self.line == old(self).line,
            decreases self.src@.len() - self.pos,
        {
            if self.col == 0 && self.next_is_document_indicator() {
                return Err(self.error(ErrorKind::UnterminatedFlowScalar, start));
            }
            if self.next_is_z() {
                return Err(self.error(ErrorKind::UnterminatedFlowScalar, start));
            }
            if (self.col as i64) < self.indent {
                return Err(self.error(ErrorKind::UnterminatedFlowScalar, start));
            }
            let ghost p0 = self.pos;
            let ghost c0 = self.cur();

            // Consume non-whitespace characters, in bulk up to the next
            // special character (quote / escape / whitespace).
            let mut done = false;
            while !is_blank_or_breakz(self.peek())
                invariant_except_break
                    !done,
                invariant
                    old(self).cursor_move(&*self),
                    self.stream_start_produced,
                    !self.stream_end_fetched@,
                    start == old(self).pos,
                    self.pos >= p0,
                    p0 > start,
                    self.pos == p0 ==> self.cur() == c0,
                    q == (if single { 0x27u8 } else { 0x22u8 }),
                    s == self.src@,
                    quoted_close(s, self.pos as int, single) == goal,
                    lok ==> quoted_line_close(s, self.pos as int, single) == lc && quoted_runs_off(s, self.pos as int, single) == ro
                        && self.line == old(self).line && !self.leading_whitespace && self.col > old(self).col,
                    lok == (old(self).col >= old(self).indent && (lc is Some || ro)),
                    lc == quoted_line_close(s, start + 1, single),
                    ro == quoted_runs_off(s, start + 1, single),
                ensures
                    old(self).cursor_move(&*self),
                    self.pos >= p0,
                    done ==> self.cur() == q,
                    done ==> goal == Some(self.pos as int),
                    done && lok ==> lc == Some(self.pos as int),
                    !done && self.pos == p0 ==> is_blank_or_breakz(c0),
                    s == self.src@,
                    quoted_close(s, self.pos as int, single) == goal,
                    lok ==> quoted_line_close(s, self.pos as int, single) == lc && quoted_runs_off(s, self.pos as int, single) == ro
                        && self.line == old(self).line && !self.leading_whitespace && self.col > old(self).col,

                decreases self.src@.len() - self.pos,
            {
                let ghost p1 = self.pos;
                if single {
                    self.bump_while(ByteClass::SingleQuotedRun);
                } else {
                    self.bump_while(ByteClass::DoubleQuotedRun);
                }
                proof {
                    assert forall|j: int| p1 <= j < self.pos implies quoted_plain(#[trigger] s[j], single) by {
                        if single {
                            assert(keeps(ByteClass::SingleQuotedRun, s[j]));
                        } else {
                            assert(keeps(ByteClass::DoubleQuotedRun, s[j]));
                        }
                    }
                    lemma_quoted_run(s, p1 as int, self.pos as int, single);
                    lemma_quoted_line_run(s, p1 as int, self.pos as int, single);
                }
                let b = self.peek();
                let ghost p2 = self.pos as int;
                if b == 0x27u8 && single && self.peek_nth(1) == 0x27u8 {
                    self.bump();
                    self.bump();
                    assert(self.pos == p2 + 2);
                } else if b == 0x27u8 && single {
                    done = true;
                    break;
                } else if b == 0x22u8 && !single {
                    done = true;
                    break;
                } else if b == 0x5Cu8 && !single && is_break(self.peek_nth(1)) {
                    proof {
                        assert(escape_code_length(byte_at(s, p2 + 1)) is None);
                        assert(quoted_line_close(s, p2, single) is None);
                        assert(!quoted_runs_off(s, p2, single));
                    }
                    self.bump();
                    self.bump_break();
                    proof {
                        if self.pos == p2 + 3 {
                            assert(s[p2 + 2] == 0x0Au8);
                            assert(quoted_close(s, p2 + 2, single) == quoted_close(s, p2 + 3, single));
                        }
                    }
                    break;
                } else if b == 0x5Cu8 && !single {
                    self.scan_flow_scalar_escape(start)?;
                    proof {
                        let n = escape_code_length(byte_at(s, p2 + 1)).unwrap();
                        assert(escape_valid(s, p2));
                        assert forall|j: int| p2 + 2 <= j < self.pos implies quoted_plain(#[trigger] s[j], single) by {
                            let k = j - (p2 + 2);
                            assert(is_ascii_hexdigit(byte_at(s, p2 + 2 + k)));
                        }
                        lemma_quoted_run(s, p2 + 2, self.pos as int, single);
                        assert(quoted_line_close(s, p2, single) == quoted_line_close(s, self.pos as int, single));
                        assert(quoted_runs_off(s, p2, single) == quoted_runs_off(s, self.pos as int, single));
                    }
                } else {
                    break;
                }
                assert(self.pos > p1);
            }
            if done {
                break;
            }

            // Consume blank characters.
            loop
                invariant
                    old(self).cursor_move(&*self),
                    self.stream_start_produced,
                    !self.stream_end_fetched@,
                    start == old(self).pos,
                    self.pos >= p0,
                    p0 > start,
                    self.pos == p0 ==> is_blank_or_breakz(c0) && self.cur() == c0,
                    c0 != 0,
                    s == self.src@,
                    quoted_close(s, self.pos as int, single) == goal,
                    lok ==> quoted_line_close(s, self.pos as int, single) == lc && quoted_runs_off(s, self.pos as int, single) == ro
                        && self.line == old(self).line && !self.leading_whitespace && self.col > old(self).col,
                    lok == (old(self).col >= old(self).indent && (lc is Some || ro)),
                    lc == quoted_line_close(s, start + 1, single),
                    ro == quoted_runs_off(s, start + 1, single),
                ensures
                    old(self).cursor_move(&*self),
                    self.pos > p0,
                    s == self.src@,
                    quoted_close(s, self.pos as int, single) == goal,
                    lok ==> quoted_line_close(s, self.pos as int, single) == lc && quoted_runs_off(s, self.pos as int, single) == ro
                        && self.line == old(self).line && !self.leading_whitespace && self.col > old(self).col,

                decreases self.src@.len() - self.pos,
            {
                let b = self.peek();
                let ghost p3 = self.pos as int;
                if b == 0x20u8 {
                    self.bump_space_run();
                    proof {
                        lemma_quoted_run(s, p3, self.pos as int, single);
                        lemma_quoted_line_run(s, p3, self.pos as int, single);
                    }
                } else if b == 0x09u8 {
                    if self.leading_whitespace && (self.col as i64) < self.indent {
                        return Err(self.error(ErrorKind::TabAsIndent, self.pos));
                    }
                    self.bump_blank();
                    proof {
                        lemma_quoted_run(s, p3, self.pos as int, single);
                        lemma_quoted_line_run(s, p3, self.pos as int, single);
                    }
                } else if b == 0x0Au8 || b == 0x0Du8 {
                    proof {
                        assert(quoted_line_close(s, p3, single) is None);
                        assert(!quoted_runs_off(s, p3, single));
                    }
                    self.bump_break();
                    proof {
                        if self.pos == p3 + 2 {
                            assert(s[p3 + 1] == 0x0Au8);
                        }
                        lemma_quoted_run(s, p3, self.pos as int, single);
                    }
                } else {
                    break;
                }
            }
        }

        // Eat the right quote.
        self.bump();
        let token_end = self.pos;
        // Ensure there is no invalid trailing content.
        self.skip_ws_to_eol(true)?;
        let b = self.peek();
        if b == 0x2Cu8 || b == 0x7Du8 || b == 0x5Du8 {
            if self.flow_level == 0 {
                return Err(self.error(ErrorKind::UnexpectedToken("content after quoted scalar"), self.pos));
            }
        } else if is_breakz(b) {
        } else if b == 0x3Au8 && (self.flow_level > 0 || self.line == start_line) {
        } else {
            return Err(self.error(ErrorKind::UnexpectedToken("content after quoted scalar"), self.pos));
        }

        let style = if single { ScalarStyle::SingleQuoted } else { ScalarStyle::DoubleQuoted };
        Ok(Token::new(TokenKind::Scalar(style, None), span(start, token_end)))
    }

    /// Validate an escape sequence in a double quoted scalar. The cursor must
    /// be at the `\`.
    pub fn scan_flow_scalar_escape(&mut self, start: usize) -> (r: ScanResult<()>)
        requires
            old(self).inv(),
            old(self).stream_start_produced,
            old(self).cur() == 0x5Cu8,
            start <= old(self).pos,
        ensures
            r is Ok <==> escape_valid(old(self).src@, old(self).pos as int),
            r is Ok ==> {
                &&& old(self).cursor_move(&*final(self))
                &&& final(self).pos == old(self).pos + 2 + escape_code_length(old(self).ahead(1)).unwrap()
                &&& final(self).col == old(self).col + 2 + escape_code_length(old(self).ahead(1)).unwrap()
                &&& final(self).line == old(self).line
                &&& !final(self).leading_whitespace
            },
            r is Err ==> r->Err_0.located(old(self).src@.len()),
    {
        let ghost s = self.src@;
        let ghost p = self.pos as int;
        let c = self.peek_nth(1);
        let code_length: usize = if c == 0x30u8 || c == 0x61u8 || c == 0x62u8 || c == 0x74u8 || c
            == 0x09u8 || c == 0x6Eu8 || c == 0x76u8 || c == 0x66u8 || c == 0x72u8 || c == 0x65u8
            || c == 0x20u8 || c == 0x22u8 || c == 0x2Fu8 || c == 0x5Cu8 || c == 0x4Eu8 || c == 0x5Fu8
            || c == 0x4Cu8 || c == 0x50u8 {
            0
        } else if c == 0x78u8 {
            2
        } else if c == 0x75u8 {
            4
        } else if c == 0x55u8 {
            8
        } else {
            return Err(self.error(ErrorKind::UnexpectedToken("escape character"), start));
        };
        self.bump();
        self.bump();

        if code_length > 0 {
            proof {
                lemma_hex_bound_8();
            }
            let mut value: u64 = 0;
            let mut i: usize = 0;
            while i < code_length
                invariant
                    old(self).cursor_move(&*self),
                    self.pos == p + 2,
                    self.col == old(self).col + 2,
                    self.line == old(self).line,
                    !self.leading_whitespace,
                    start <= p,
                    p == old(self).pos,
                    s == old(self).src@,
                    s == self.src@,
                    0 <= i <= code_length <= 8,
                    value == hex_number(s, p + 2, i as nat),
                    value < hex_bound(i as nat),
                    hex_bound(i as nat) <= hex_bound(8),
                    hex_bound(8) == 0x1_0000_0000,
                    forall|k: int| 0 <= k < i ==> is_ascii_hexdigit(#[trigger] byte_at(s, p + 2 + k)),
                    escape_code_length(byte_at(s, p + 1)) == Some(code_length as nat),
                decreases code_length - i,
            {
                let c = self.peek_nth(i);
                if !is_ascii_hexdigit(c) {
                    assert(!is_ascii_hexdigit(byte_at(s, p + 2 + i))) by {
                        assert(c == byte_at(s, p + 2 + i));
                    }
                    assert(!escape_valid(s, p));
                    return Err(self.error(ErrorKind::UnexpectedToken("hexadecimal digit"), start));
                }
                let digit: u64 = if c <= 0x39u8 {
                    (c - 0x30u8) as u64
                } else if c >= 0x61u8 {
                    (c - 0x61u8 + 10) as u64
                } else {
                    (c - 0x41u8 + 10) as u64
                };
                proof {
                    lemma_hex_bound_mono((i + 1) as nat);
                }
                value = value * 16 + digit;
                i = i + 1;
            }
            if value > 0x10FFFF || (0xD800 <= value && value <= 0xDFFF) {
                return Err(self.error(ErrorKind::InvalidChar, start));
            }
            // Hex digits are ASCII; advance in one step.
            assert(byte_at(s, p + 2 + (code_length - 1)) != 0);
            proof {
                lemma_ascii_boundaries(s, p + 2 + (code_length - 1));
            }
            self.pos = self.pos + code_length;
            self.col = self.col + code_length;
        }
        Ok(())
    }

    pub fn fetch_plain_scalar(&mut self) -> (r: ScanResult<()>)
        requires
            old(self).wf(),
            old(self).stream_start_produced,
            !old(self).stream_end_fetched@,
            old(self).cur() != 0,
        ensures
            r is Ok ==> old(self).fetched(&*final(self)),
            r is Err ==> r->Err_0.located(old(self).src@.len()),
    {
        self.save_simple_key();
        self.simple_key_allowed = false;
        let ghost mid = *self;
        let tok = self.scan_plain_scalar()?;
        assert(mid.can_append_at(tok.span.start as int));
        self.push_token(tok);
        Ok(())
    }

    pub fn scan_plain_scalar(&mut self) -> (r: ScanResult<Token>)
        requires
            old(self).inv(),
            old(self).stream_start_produced,
            !old(self).stream_end_fetched@,
        ensures
            r matches Ok(t) ==> {
                &&& old(self).scanned(&*final(self), t)
                &&& t.kind == TokenKind::Scalar(ScalarStyle::Plain, None)
            },
            r is Err ==> r->Err_0.located(old(self).src@.len()),
            r matches Ok(t) ==> {
                &&& final(self).plain_stops(
                    old(self).flow_level > 0,
                    strip_soft(old(self).indent as int, old(self).indents@).0 + 1,
                )
                &&& forall|k: int| t.span.end <= k < final(self).pos ==> is_blank(#[trigger] old(self).src@[k])
                    || is_break(old(self).src@[k])
                    || in_new_comment(old(self).comments@.len() as int, final(self).comments@, k)
                &&& forall|k: int| t.span.start < k < t.span.end && #[trigger] old(self).src@[k] == 0x23u8
                    && (is_blank(old(self).src@[k - 1]) || is_break(old(self).src@[k - 1]))
                    ==> in_new_comment(old(self).comments@.len() as int, final(self).comments@, k)
            },
            old(self).flow_level == 0 && old(self).plain_can_start(false)
                && (forall|k: int| old(self).pos <= k < old(self).src@.len() ==> #[trigger] old(self).src@[k] != 0x09u8)
                ==> r is Ok,
    {
        let ghost s = self.src@;
        let ghost n0 = self.comments@.len() as int;
        let ghost in_flow_g = self.flow_level > 0;
        let ghost nb = old(self).flow_level == 0 && old(self).plain_can_start(false)
            && (forall|k: int| old(self).pos <= k < old(self).src@.len() ==> #[trigger] old(self).src@[k] != 0x09u8);
        self.unroll_non_block_indents();
        let indent = self.indent + 1;
        let ghost ind = strip_soft(old(self).indent as int, old(self).indents@).0 + 1;
        assert(indent == ind);
        let start = self.pos;

        if self.flow_level > 0 && (self.col as i64) < indent {
            return Err(self.error(ErrorKind::UnexpectedIndicator, start));
        }

        let mut end = self.pos;
        let mut consumed_content = false;
        let ghost base = *self;

        loop
            invariant
                base.moves_to(&*self),
                base.inv(),
                self.stream_start_produced,
                !self.stream_end_fetched@,
                start == base.pos,
                start == old(self).pos,
                consumed_content ==> start < end <= self.pos && !is_blank_or_breakz(self.src@[end - 1]),
                is_char_boundary(self.src@, end as int),
                !consumed_content ==> end == start,
                base.tokens@ == old(self).tokens@,
                base.simple_keys@ == old(self).simple_keys@,
                base.flow_level == old(self).flow_level,
                base.flow_mapping_started == old(self).flow_mapping_started,
                base.implicit_flow_mapping_states@ == old(self).implicit_flow_mapping_states@,
                base.budget() == old(self).budget(),
                old(self).advances_to(&base),
                s == self.src@,
                indent == ind,
                in_flow_g == (self.flow_level > 0),
                0 <= n0 <= base.comments@.len(),
                forall|k: int| end <= k < self.pos ==> is_blank(#[trigger] s[k]) || is_break(s[k])
                    || in_new_comment(n0, self.comments@, k),
                forall|k: int| start < k < end && #[trigger] s[k] == 0x23u8 && (is_blank(s[k - 1]) || is_break(s[k - 1]))
                    ==> in_new_comment(n0, self.comments@, k),
                nb ==> forall|k: int| start <= k < s.len() ==> #[trigger] s[k] != 0x09u8,
                nb ==> self.flow_level == 0,
                nb ==> consumed_content || (self.pos == start && self.leading_whitespace == old(self).leading_whitespace),
                nb == (old(self).flow_level == 0 && old(self).plain_can_start(false)
                    && (forall|k: int| old(self).pos <= k < old(self).src@.len() ==> #[trigger] old(self).src@[k] != 0x09u8)),
            ensures
                base.moves_to(&*self),
                start < end || !consumed_content,
                consumed_content ==> start < end <= self.pos && !is_blank_or_breakz(self.src@[end - 1]),
                is_char_boundary(self.src@, end as int),
                !consumed_content ==> end == start,
                s == self.src@,
                forall|k: int| end <= k < self.pos ==> is_blank(#[trigger] s[k]) || is_break(s[k])
                    || in_new_comment(n0, self.comments@, k),
                consumed_content ==> self.plain_stops(in_flow_g, ind),
                forall|k: int| start < k < end && #[trigger] s[k] == 0x23u8 && (is_blank(s[k - 1]) || is_break(s[k - 1]))
                    ==> in_new_comment(n0, self.comments@, k),
                nb ==> consumed_content,
            decreases self.src@.len() - self.pos,
        {
            if (self.leading_whitespace && self.next_is_document_indicator()) || self.peek() == 0x23u8 {
                break;
            }

            if self.flow_level > 0 && self.peek() == 0x2Du8 && is_flow(self.peek_nth(1)) {
                return Err(self.error(ErrorKind::UnexpectedIndicator, self.pos));
            }

            if !is_blank_or_breakz(self.peek()) && self.next_can_be_plain_scalar(self.flow_level > 0) {
                self.leading_whitespace = false;
                // Add content non-blank characters to the scalar, in bulk.
                let in_flow = self.flow_level > 0;
                let run_start = self.pos;
                let mut i = self.pos;
                while i < self.src.len()
                    invariant
                        run_start <= i <= self.src@.len(),
                        run_start == self.pos,
                        forall|k: int| run_start <= k < i ==> !is_blank_or_breakz(#[trigger] self.src@[k]),
                        i == run_start ==> !is_blank_or_breakz(self.cur()) && !ends_plain_scalar(self.cur(), self.ahead(1), in_flow),
                    ensures
                        i > run_start,
                        forall|k: int| run_start <= k < i ==> !is_blank_or_breakz(#[trigger] self.src@[k]),
                        i == self.src@.len() || self.src@[i as int] < 0x80u8,
                        i == self.src@.len() || is_blank_or_breakz(self.src@[i as int])
                            || ends_plain_scalar(self.src@[i as int], byte_at(self.src@, i + 1), in_flow),
                    decreases self.src@.len() - i,
                {
                    let b = self.src[i];
                    let next = if i + 1 < self.src.len() { self.src[i + 1] } else { 0 };
                    if is_blank_or_breakz(b) || ends_plain_scalar(b, next, in_flow) {
                        break;
                    }
                    i = i + 1;
                }
                proof {
                    if i < self.src@.len() {
                        lemma_ascii_boundaries(self.src@, i as int);
                    } else {
                        is_char_boundary_start_end_of_seq(self.src@);
                    }
                }
                let n = char_count(self.src, run_start, i);
                let ghost old_end = end;
                self.col = self.col + n;
                self.pos = i;
                end = self.pos;
                consumed_content = true;
                proof {
                    assert forall|k: int| start < k < end && #[trigger] s[k] == 0x23u8 && (is_blank(s[k - 1]) || is_break(s[k - 1]))
                        implies in_new_comment(n0, self.comments@, k) by {
                        if k < old_end {
                        } else if k < run_start {
                            assert(!is_blank(s[k]) && !is_break(s[k]));
                        } else if k == run_start {
                            assert(false);
                        } else {
                            assert(!is_blank_or_breakz(s[k - 1]));
                        }
                    }
                }
            }

            // We may reach the end of a plain scalar if we reach EOF, `: ` or
            // a flow character in a flow context.
            if !(is_blank(self.peek()) || is_break(self.peek())) {
                break;
            }
            let ghost p1 = self.pos;

            // Process blank characters.
            loop
                invariant
                    base.moves_to(&*self),
                    self.stream_start_produced,
                    !self.stream_end_fetched@,
                    self.pos >= p1,
                    self.pos == p1 ==> is_blank(self.cur()) || is_break(self.cur()),
                    old(self).advances_to(&base),
                    consumed_content ==> start < end <= self.pos && !is_blank_or_breakz(self.src@[end - 1]),
                is_char_boundary(self.src@, end as int),
                    s == self.src@,
                    0 <= n0 <= base.comments@.len(),
                    forall|k: int| end <= k < self.pos ==> is_blank(#[trigger] s[k]) || is_break(s[k])
                        || in_new_comment(n0, self.comments@, k),
                    forall|k: int| start < k < end && #[trigger] s[k] == 0x23u8 && (is_blank(s[k - 1]) || is_break(s[k - 1]))
                        ==> in_new_comment(n0, self.comments@, k),
                    nb ==> forall|k: int| start <= k < s.len() ==> #[trigger] s[k] != 0x09u8,
                    start == old(self).pos,
                    start <= p1,
                ensures
                    base.moves_to(&*self),
                    self.pos > p1,
                    s == self.src@,
                    forall|k: int| end <= k < self.pos ==> is_blank(#[trigger] s[k]) || is_break(s[k])
                        || in_new_comment(n0, self.comments@, k),
                    forall|k: int| start < k < end && #[trigger] s[k] == 0x23u8 && (is_blank(s[k - 1]) || is_break(s[k - 1]))
                        ==> in_new_comment(n0, self.comments@, k),

                decreases self.src@.len() - self.pos,
            {
                let b = self.peek();
                let ghost prev = *self;
                if b == 0x20u8 {
                    self.bump_space_run();
                } else if b == 0x09u8 && self.leading_whitespace && (self.col as i64) < indent {
                    // Tabs in an indentation column are allowed if and
                    // only if the line is empty.
                    self.skip_ws_to_eol(true)?;
                    proof {
                        let m = prev.comments@.len() as int;
                        assert forall|k: int| end <= k < self.pos implies is_blank(#[trigger] s[k]) || is_break(s[k])
                            || in_new_comment(n0, self.comments@, k) by {
                            if k < prev.pos {
                                if !is_blank(s[k]) && !is_break(s[k]) {
                                    lemma_new_comment_kept(n0, prev.comments@, self.comments@, k);
                                }
                            } else if !is_blank(s[k]) {
                                lemma_new_comment_widen(n0, m, self.comments@, k);
                            }
                        }
                        assert forall|k: int| start < k < end && #[trigger] s[k] == 0x23u8 && (is_blank(s[k - 1]) || is_break(s[k - 1]))
                            implies in_new_comment(n0, self.comments@, k) by {
                            lemma_new_comment_kept(n0, prev.comments@, self.comments@, k);
                        }
                    }
                    if !is_breakz(self.peek()) {
                        return Err(self.error(ErrorKind::TabAsIndent, self.pos));
                    }
                } else if b == 0x09u8 {
                    self.bump_blank();
                } else if b == 0x0Au8 || b == 0x0Du8 {
                    self.bump_break();
                    proof {
                        if self.pos == prev.pos + 2 {
                            assert(s[prev.pos + 1] == 0x0Au8);
                        }
                    }
                } else {
                    break;
                }
            }

            // Check indentation level.
            if self.flow_level == 0 && (self.col as i64) < indent {
                break;
            }
        }

        if self.leading_whitespace {
            self.simple_key_allowed = true;
        }

        if consumed_content {
            Ok(Token::new(TokenKind::Scalar(ScalarStyle::Plain, None), span(start, end)))
        } else {
            // An empty plain scalar happens with erroneous inputs like `{...`.
            Err(self.error(ErrorKind::ExpectedNode, start))
        }
    }

    /// Pushing a header keeps the invariant.
    proof fn lemma_headers_extended(&self, before: Self)
        requires
            before.inv(),
            self.block_headers@.len() == before.block_headers@.len() + 1,
            forall|i: int| 0 <= i < before.block_headers@.len() ==> #[trigger] self.block_headers@[i] == before.block_headers@[i],
            self.block_headers@.len() <= self.pos,
            self.src@ == before.src@,
            self.pos == before.pos,
            self.line == before.line,
            self.col == before.col,
            self.tokens@ == before.tokens@,
            self.comments@ == before.comments@,
            self.simple_keys@ == before.simple_keys@,
            self.indents@ == before.indents@,
            self.indent == before.indent,
            self.flow_level == before.flow_level,
            self.tokens_parsed == before.tokens_parsed,
            self.prev_end@ == before.prev_end@,
            self.stream_start_produced == before.stream_start_produced,
            self.stream_end_produced == before.stream_end_produced,
            self.stream_end_fetched@ == before.stream_end_fetched@,
            self.implicit_flow_mapping_states@ == before.implicit_flow_mapping_states@,
        ensures
            self.inv(),
    {
        let ts = self.tokens@;
        assert forall|i: int| 0 <= i < ts.len() implies token_ok(#[trigger] ts[i], self.block_headers@, self.src@) by {
            assert(token_ok(ts[i], before.block_headers@, before.src@));
        }
        let ks = self.simple_keys@;
        assert forall|i: int| 0 <= i < ks.len() && (#[trigger] ks[i]).possible implies self.key_ok(ks[i]) by {
            assert(before.key_ok(ks[i]));
        }
    }

    /// Updating the newest header (which no queued token refers to) keeps the invariant.
    proof fn lemma_header_updated(&self, before: Self, idx: int)
        requires
            before.inv(),
            idx == before.block_headers@.len() - 1,
            self.block_headers@.len() == before.block_headers@.len(),
            forall|i: int| 0 <= i < idx ==> #[trigger] self.block_headers@[i] == before.block_headers@[i],
            forall|i: int| 0 <= i < before.tokens@.len() ==> match (#[trigger] before.tokens@[i]).kind {
                TokenKind::Scalar(_, Some(h)) => h.index() < idx,
                _ => true,
            },
            self.src@ == before.src@,
            self.pos == before.pos,
            self.line == before.line,
            self.col == before.col,
            self.tokens@ == before.tokens@,
            self.comments@ == before.comments@,
            self.simple_keys@ == before.simple_keys@,
            self.indents@ == before.indents@,
            self.indent == before.indent,
            self.flow_level == before.flow_level,
            self.tokens_parsed == before.tokens_parsed,
            self.prev_end@ == before.prev_end@,
            self.stream_start_produced == before.stream_start_produced,
            self.stream_end_produced == before.stream_end_produced,
            self.stream_end_fetched@ == before.stream_end_fetched@,
            self.implicit_flow_mapping_states@ == before.implicit_flow_mapping_states@,
        ensures
            self.inv(),
    {
        let ts = self.tokens@;
        assert forall|i: int| 0 <= i < ts.len() implies token_ok(#[trigger] ts[i], self.block_headers@, self.src@) by {
            assert(token_ok(ts[i], before.block_headers@, before.src@));
        }
        let ks = self.simple_keys@;
        assert forall|i: int| 0 <= i < ks.len() && (#[trigger] ks[i]).possible implies self.key_ok(ks[i]) by {
            assert(before.key_ok(ks[i]));
        }
    }
}

} // verus!
