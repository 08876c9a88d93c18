//! Cursor movement, whitespace and comments.
use super::{
    byte_at, ends_plain_scalar, is_blank_or_breakz, char_count, char_width, count_chars, is_blank,
    is_break, is_breakz, keeps, comment_text_ok, comments_sorted, ByteClass, ScanResult,
    Scanner,
};
use crate::ast::{trivia_from, Comment};
use crate::error::{Error, ErrorKind};
use super::span;
use super::lemma_run_end_boundary;
use crate::pos::{lemma_ascii_boundaries, lemma_char_width_boundary};
use vstd::utf8::is_char_boundary;
use vstd::prelude::*;

verus! {

/// Offset `k` lies inside one of the comments `cs[n..]`.
pub open spec fn in_new_comment(n: int, cs: Seq<Comment>, k: int) -> bool {
    exists|i: int| n <= i < cs.len() && (#[trigger] cs[i]).span.start <= k && k < cs[i].span.end
}

/// Comments kept as a prefix keep covering what they covered.
pub proof fn lemma_new_comment_kept(n: int, a: Seq<Comment>, b: Seq<Comment>, k: int)
    requires
        0 <= n,
        b.len() >= a.len(),
        forall|i: int| 0 <= i < a.len() ==> #[trigger] b[i] == a[i],
        in_new_comment(n, a, k),
    ensures
        in_new_comment(n, b, k),
{
    let i = choose|i: int| n <= i < a.len() && (#[trigger] a[i]).span.start <= k && k < a[i].span.end;
    assert(b[i] == a[i]);
}

/// A byte of the UTF-8 byte order mark.
pub open spec fn is_bom_byte(b: u8) -> bool {
    b == 0xEFu8 || b == 0xBBu8 || b == 0xBFu8
}

/// Everything from `from` up to `to` is trivia: blanks, line breaks, byte
/// order marks, or text of one of the comments `cs[n..]`. In particular
/// every `#` there lies in a recorded comment.
pub open spec fn skipped_as_trivia(s: Seq<u8>, from: int, to: int, n: int, cs: Seq<Comment>) -> bool {
    forall|k: int| from <= k < to ==> is_blank(#[trigger] s[k]) || is_break(s[k]) || is_bom_byte(s[k])
        || in_new_comment(n, cs, k)
}

/// A `#` in text skipped as trivia lies in one of the recorded comments:
/// skipping never drops a comment.
pub proof fn lemma_skipped_hash_recorded(s: Seq<u8>, from: int, to: int, n: int, cs: Seq<Comment>, k: int)
    requires
        skipped_as_trivia(s, from, to, n, cs),
        from <= k < to,
        s[k] == 0x23u8,
    ensures
        in_new_comment(n, cs, k),
{
}

/// The end of the run of tabs at `p`.
pub open spec fn tabs_end(s: Seq<u8>, p: int) -> int
    decreases s.len() - p,
{
    if 0 <= p < s.len() && s[p] == 0x09u8 {
        tabs_end(s, p + 1)
    } else {
        p
    }
}

/// The run of tabs at `p` is all tabs and ends at a byte that is none.
pub proof fn lemma_tabs_end(s: Seq<u8>, p: int)
    requires
        0 <= p,
    ensures
        p <= tabs_end(s, p),
        p <= s.len() ==> tabs_end(s, p) <= s.len(),
        forall|k: int| p <= k < tabs_end(s, p) ==> #[trigger] s[k] == 0x09u8,
        byte_at(s, tabs_end(s, p)) != 0x09u8,
    decreases s.len() - p,
{
    if 0 <= p < s.len() && s[p] == 0x09u8 {
        lemma_tabs_end(s, p + 1);
    }
}

/// Coverage by the comments from `m` on is coverage by those from `n <= m` on.
pub proof fn lemma_new_comment_widen(n: int, m: int, cs: Seq<Comment>, k: int)
    requires
        n <= m,
        in_new_comment(m, cs, k),
    ensures
        in_new_comment(n, cs, k),
{
    let i = choose|i: int| m <= i < cs.len() && (#[trigger] cs[i]).span.start <= k && k < cs[i].span.end;
    assert(n <= i < cs.len() && cs[i].span.start <= k && k < cs[i].span.end);
}

/// Where the rest of the line from `p` ends: at the first line break or NUL
/// at or after `p`, or at the end of input.
pub open spec fn line_rest_end(s: Seq<u8>, p: int) -> int
    decreases s.len() - p,
{
    if 0 <= p < s.len() && !is_breakz(s[p]) {
        line_rest_end(s, p + 1)
    } else {
        p
    }
}

/// The offset just after the line break at `p` (`\r\n` counts as one).
pub open spec fn break_end(s: Seq<u8>, p: int) -> int {
    if byte_at(s, p) == 0x0Du8 && byte_at(s, p + 1) == 0x0Au8 {
        p + 2
    } else {
        p + 1
    }
}

/// The rest of the line is skipped up to its end, which is a line break, a
/// NUL or the end of input.
pub proof fn lemma_line_rest_end(s: Seq<u8>, p: int)
    requires
        0 <= p,
    ensures
        p <= line_rest_end(s, p),
        p <= s.len() ==> line_rest_end(s, p) <= s.len(),
        is_breakz(byte_at(s, line_rest_end(s, p))),
        forall|k: int| p <= k < line_rest_end(s, p) ==> !is_breakz(#[trigger] s[k]),
    decreases s.len() - p,
{
    if 0 <= p < s.len() && !is_breakz(s[p]) {
        lemma_line_rest_end(s, p + 1);
    }
}

/// A run of non-break bytes up to a line break, a NUL or the end of input
/// is the rest of the line.
pub proof fn lemma_line_rest_end_at(s: Seq<u8>, p: int, q: int)
    requires
        0 <= p <= q <= s.len(),
        forall|k: int| p <= k < q ==> !is_breakz(#[trigger] s[k]),
        q == s.len() || is_breakz(s[q]),
    ensures
        line_rest_end(s, p) == q,
    decreases q - p,
{
    if p < q {
        lemma_line_rest_end_at(s, p + 1, q);
    }
}

/// Where a run of spaces, line breaks and comments from `p` ends.
pub open spec fn yaml_ws_end(s: Seq<u8>, p: int) -> int
    decreases s.len() - p,
{
    if 0 <= p < s.len() {
        if s[p] == 0x20u8 {
            yaml_ws_end(s, p + 1)
        } else if is_break(s[p]) {
            yaml_ws_end(s, break_end(s, p))
        } else if s[p] == 0x23u8 {
            proof {
                lemma_line_rest_end(s, p + 1);
            }
            yaml_ws_end(s, line_rest_end(s, p + 1))
        } else {
            p
        }
    } else {
        p
    }
}

/// The comments in a run of spaces, line breaks and comments from `p`.
pub open spec fn yaml_ws_comments(s: Seq<u8>, p: int) -> Seq<Comment>
    decreases s.len() - p,
{
    if 0 <= p < s.len() {
        if s[p] == 0x20u8 {
            yaml_ws_comments(s, p + 1)
        } else if is_break(s[p]) {
            yaml_ws_comments(s, break_end(s, p))
        } else if s[p] == 0x23u8 {
            proof {
                lemma_line_rest_end(s, p + 1);
            }
            seq![Comment { span: crate::pos::Span { start: p as u32, end: line_rest_end(s, p + 1) as u32 } }]
                + yaml_ws_comments(s, line_rest_end(s, p + 1))
        } else {
            Seq::empty()
        }
    } else {
        Seq::empty()
    }
}

/// Whether a run of spaces, line breaks and comments from `p` holds a line
/// break.
pub open spec fn yaml_ws_breaks(s: Seq<u8>, p: int) -> bool
    decreases s.len() - p,
{
    if 0 <= p < s.len() {
        if s[p] == 0x20u8 {
            yaml_ws_breaks(s, p + 1)
        } else if is_break(s[p]) {
            true
        } else if s[p] == 0x23u8 {
            proof {
                lemma_line_rest_end(s, p + 1);
            }
            yaml_ws_breaks(s, line_rest_end(s, p + 1))
        } else {
            false
        }
    } else {
        false
    }
}

/// The run of spaces, line breaks and comments from `p` holds a space or
/// a line break: it starts with one, or with a comment that a line break
/// ends.
pub open spec fn yaml_ws_found(s: Seq<u8>, p: int) -> bool {
    let b = byte_at(s, p);
    ||| b == 0x20u8
    ||| is_break(b)
    ||| b == 0x23u8 && is_break(byte_at(s, line_rest_end(s, p)))
}

impl<'a> Scanner<'a> {
    /// A cursor move: the cursor and comments may change, nothing else does,
    /// and the scanner stays well formed.
    pub open spec fn cursor_move(&self, new: &Self) -> bool {
        &&& new.inv()
        &&& new.same_but_cursor(self)
        &&& self.advances_to(new)
        &&& new.simple_key_allowed == self.simple_key_allowed
    }

    /// A move of the cursor that may also record comments and allow a
    /// simple key; nothing else changes and the scanner stays well formed.
    pub open spec fn moves_to(&self, new: &Self) -> bool {
        &&& new.inv()
        &&& new.same_but_cursor(self)
        &&& self.advances_to(new)
    }

    /// A byte order mark starts at the cursor.
    pub open spec fn bom_here(&self) -> bool {
        &&& self.pos + 3 <= self.src@.len()
        &&& self.src@[self.pos as int] == 0xEFu8
        &&& self.src@[self.pos + 1] == 0xBBu8
        &&& self.src@[self.pos + 2] == 0xBFu8
    }

    /// A document marker of three `c` bytes, followed by a blank, a line
    /// break or the end of input, starts at the cursor.
    pub open spec fn marker_here(&self, c: u8) -> bool {
        &&& self.pos + 3 <= self.src@.len()
        &&& self.src@[self.pos as int] == c
        &&& self.src@[self.pos + 1] == c
        &&& self.src@[self.pos + 2] == c
        &&& is_blank_or_breakz(self.ahead(3))
    }

    pub fn peek(&self) -> (b: u8)
        requires
            self.pos <= self.src@.len(),
        ensures
            b == self.cur(),
    {
        if self.pos < self.src.len() {
            self.src[self.pos]
        } else {
            0
        }
    }

    pub fn peek_nth(&self, n: usize) -> (b: u8)
        requires
            self.pos <= self.src@.len(),
        ensures
            b == self.ahead(n as int),
    {
        if n < self.src.len() - self.pos {
            self.src[self.pos + n]
        } else {
            0
        }
    }

    pub fn is_eof(&self) -> (r: bool)
        ensures
            r == (self.pos >= self.src@.len()),
    {
        self.pos >= self.src.len()
    }

    /// End of input, or a NUL byte (the end-of-input sentinel).
    pub fn next_is_z(&self) -> (r: bool)
        requires
            self.pos <= self.src@.len(),
        ensures
            r == (self.cur() == 0),
    {
        self.peek() == 0
    }

    /// Consume one character (possibly multi-byte). Must not be a line break.
    pub fn bump(&mut self)
        requires
            old(self).inv(),
            old(self).stream_start_produced,
            old(self).pos < old(self).src@.len(),
        ensures
            old(self).cursor_move(&*final(self)),
            final(self).comments@ == old(self).comments@,
            final(self).pos == (if old(self).pos + char_width(old(self).cur()) <= old(self).src@.len() {
                old(self).pos + char_width(old(self).cur())
            } else {
                old(self).src@.len() as int
            }),
            final(self).pos > old(self).pos,
            final(self).col == old(self).col + 1,
            final(self).line == old(self).line,
            !final(self).leading_whitespace,
    {
        let b = self.src[self.pos];
        let width = char_width(b);
        proof {
            lemma_char_width_boundary(self.src@, self.pos as int);
        }
        if width <= self.src.len() - self.pos {
            self.pos = self.pos + width;
        } else {
            self.pos = self.src.len();
        }
        self.col = self.col + 1;
        self.leading_whitespace = false;
    }

    /// Consume one blank character (space or tab) without clearing
    /// `leading_whitespace`.
    pub fn bump_blank(&mut self)
        requires
            old(self).inv(),
            old(self).stream_start_produced,
            is_blank(old(self).cur()),
        ensures
            old(self).cursor_move(&*final(self)),
            final(self).comments@ == old(self).comments@,
            final(self).pos == old(self).pos + 1,
            final(self).col == old(self).col + 1,
            final(self).line == old(self).line,
            final(self).leading_whitespace == old(self).leading_whitespace,
    {
        proof {
            lemma_ascii_boundaries(self.src@, self.pos as int);
        }
        self.pos = self.pos + 1;
        self.col = self.col + 1;
    }

    /// Consume a line break (`\n`, `\r` or `\r\n`).
    pub fn bump_break(&mut self)
        requires
            old(self).inv(),
            old(self).stream_start_produced,
            is_break(old(self).cur()),
        ensures
            old(self).cursor_move(&*final(self)),
            final(self).comments@ == old(self).comments@,
            final(self).pos == old(self).pos + (if old(self).cur() == 0x0Du8 && old(self).ahead(1) == 0x0Au8 { 2int } else { 1int }),
            final(self).col == 0,
            final(self).line == old(self).line + 1,
            final(self).leading_whitespace,
    {
        proof {
            lemma_ascii_boundaries(self.src@, self.pos as int);
        }
        if self.peek() == 0x0Du8 && self.peek_nth(1) == 0x0Au8 {
            proof {
                lemma_ascii_boundaries(self.src@, self.pos + 1);
            }
            self.pos = self.pos + 1;
        }
        self.pos = self.pos + 1;
        self.col = 0;
        self.line = self.line + 1;
        self.leading_whitespace = true;
    }

    /// Consume a line break; crossing a line break in block context re-allows
    /// a simple key.
    pub fn bump_break_in_stream(&mut self)
        requires
            old(self).inv(),
            old(self).stream_start_produced,
            is_break(old(self).cur()),
        ensures
            final(self).inv(),
            final(self).same_but_cursor(&*old(self)),
            old(self).advances_to(&*final(self)),
            final(self).comments@ == old(self).comments@,
            final(self).pos == old(self).pos + (if old(self).cur() == 0x0Du8 && old(self).ahead(1) == 0x0Au8 { 2int } else { 1int }),
            final(self).col == 0,
            final(self).leading_whitespace,
            final(self).simple_key_allowed == (old(self).simple_key_allowed || old(self).flow_level == 0),
    {
        self.bump_break();
        if self.flow_level == 0 {
            self.simple_key_allowed = true;
        }
    }

    /// Consume a byte order mark without affecting the column.
    pub fn bump_bom(&mut self)
        requires
            old(self).inv(),
            old(self).stream_start_produced,
            old(self).bom_here(),
        ensures
            old(self).cursor_move(&*final(self)),
            final(self).comments@ == old(self).comments@,
            final(self).pos == old(self).pos + 3,
            final(self).col == old(self).col,
            final(self).line == old(self).line,
            final(self).leading_whitespace == old(self).leading_whitespace,
    {
        proof {
            lemma_char_width_boundary(self.src@, self.pos as int);
        }
        self.pos = self.pos + 3;
    }

    /// Bulk-consume bytes while they belong to `class`.
    pub fn bump_while(&mut self, class: ByteClass)
        requires
            old(self).inv(),
            old(self).stream_start_produced,
        ensures
            old(self).cursor_move(&*final(self)),
            final(self).comments@ == old(self).comments@,
            forall|k: int| old(self).pos <= k < final(self).pos ==> keeps(class, #[trigger] old(self).src@[k]),
            final(self).pos == old(self).src@.len() || !keeps(class, final(self).cur()),
            final(self).line == old(self).line,
            final(self).pos > old(self).pos ==> !final(self).leading_whitespace,
            final(self).pos == old(self).pos ==> final(self).leading_whitespace == old(self).leading_whitespace,
            final(self).col == old(self).col + count_chars(old(self).src@, old(self).pos as int, final(self).pos as int),
    {
        let start = self.pos;
        let mut i = start;
        while i < self.src.len() && keeps(class, self.src[i])
            invariant
                start <= i <= self.src@.len(),
                self.pos == start,
                forall|k: int| start <= k < i ==> keeps(class, #[trigger] self.src@[k]),
            decreases self.src@.len() - i,
        {
            i = i + 1;
        }
        proof {
            lemma_run_end_boundary(self.src@, class, start as int, i as int);
        }
        if i > start {
            let n = char_count(self.src, start, i);
            self.col = self.col + n;
            self.pos = i;
            self.leading_whitespace = false;
        }
    }

    /// Bulk-consume a run of spaces without clearing `leading_whitespace`.
    /// Returns the number of spaces consumed.
    pub fn bump_space_run(&mut self) -> (n: usize)
        requires
            old(self).inv(),
            old(self).stream_start_produced,
        ensures
            old(self).cursor_move(&*final(self)),
            final(self).comments@ == old(self).comments@,
            n == final(self).pos - old(self).pos,
            final(self).col == old(self).col + n,
            final(self).line == old(self).line,
            final(self).leading_whitespace == old(self).leading_whitespace,
            forall|k: int| old(self).pos <= k < final(self).pos ==> #[trigger] old(self).src@[k] == 0x20u8,
            final(self).cur() != 0x20u8,
    {
        let start = self.pos;
        while self.pos < self.src.len() && self.src[self.pos] == 0x20u8
            invariant
                start <= self.pos <= self.src@.len(),
                old(self).inv(),
            old(self).stream_start_produced,
                self.same_but_cursor(&*old(self)),
                self.comments@ == old(self).comments@,
                self.line == old(self).line,
                self.col == old(self).col,
                self.leading_whitespace == old(self).leading_whitespace,
                self.simple_key_allowed == old(self).simple_key_allowed,
                start == old(self).pos,
                forall|k: int| start <= k < self.pos ==> #[trigger] self.src@[k] == 0x20u8,
                is_char_boundary(self.src@, self.pos as int),
            decreases self.src@.len() - self.pos,
        {
            proof {
                lemma_ascii_boundaries(self.src@, self.pos as int);
            }
            self.pos = self.pos + 1;
        }
        let n = self.pos - start;
        self.col = self.col + n;
        n
    }

    pub fn next_is_bom(&self) -> (r: bool)
        requires
            self.pos <= self.src@.len(),
        ensures
            r == self.bom_here(),
    {
        self.src.len() - self.pos >= 3 && self.src[self.pos] == 0xEFu8 && self.src[self.pos + 1]
            == 0xBBu8 && self.src[self.pos + 2] == 0xBFu8
    }

    fn next_is_marker(&self, c: u8) -> (r: bool)
        requires
            self.pos <= self.src@.len(),
        ensures
            r == self.marker_here(c),
    {
        self.src.len() - self.pos >= 3 && self.src[self.pos] == c && self.src[self.pos + 1] == c
            && self.src[self.pos + 2] == c && is_blank_or_breakz(self.peek_nth(3))
    }

    pub fn next_is_document_start(&self) -> (r: bool)
        requires
            self.pos <= self.src@.len(),
        ensures
            r == self.marker_here(0x2Du8),
    {
        self.next_is_marker(0x2Du8)
    }

    pub fn next_is_document_end(&self) -> (r: bool)
        requires
            self.pos <= self.src@.len(),
        ensures
            r == self.marker_here(0x2Eu8),
    {
        self.next_is_marker(0x2Eu8)
    }

    pub fn next_is_document_indicator(&self) -> (r: bool)
        requires
            self.pos <= self.src@.len(),
        ensures
            r == (self.marker_here(0x2Du8) || self.marker_here(0x2Eu8)),
    {
        self.next_is_document_start() || self.next_is_document_end()
    }

    /// Whether the next characters may be part of a plain scalar.
    /// Flow indicators only terminate a plain scalar inside a flow collection.
    pub fn next_can_be_plain_scalar(&self, in_flow: bool) -> (r: bool)
        requires
            self.pos <= self.src@.len(),
        ensures
            r == !ends_plain_scalar(self.cur(), self.ahead(1), in_flow),
    {
        !ends_plain_scalar(self.peek(), self.peek_nth(1), in_flow)
    }

    /// An error of the given kind covering the character at `at` (empty at
    /// the end of input).
    pub fn error(&self, kind: ErrorKind, at: usize) -> (e: Error)
        requires
            self.src@.len() <= u32::MAX,
            at <= self.src@.len(),
        ensures
            e.kind == kind,
            e.span.start == at,
            e.span.end == (if at < self.src@.len() { at + 1 } else { at as int }),
    {
        let end = if at < self.src.len() { at + 1 } else { at };
        Error::new(kind, span(at, end))
    }

    /// Record a `#` comment (cursor must be at the `#`) as trivia and consume
    /// it up to (excluding) the line break.
    pub fn eat_comment(&mut self)
        requires
            old(self).inv(),
            old(self).stream_start_produced,
            old(self).cur() == 0x23u8,
        ensures
            old(self).cursor_move(&*final(self)),
            final(self).pos > old(self).pos,
            final(self).comments@ == old(self).comments@.push(
                Comment { span: crate::pos::Span { start: old(self).pos as u32, end: final(self).pos as u32 } },
            ),
            final(self).pos == final(self).src@.len() || is_breakz(final(self).cur()),
            final(self).pos == line_rest_end(old(self).src@, old(self).pos as int),
            final(self).line == old(self).line,
    {
        let start = self.pos;
        self.bump_while(ByteClass::NotBreakz);
        proof {
            assert forall|k: int| start <= k < self.pos implies !is_breakz(#[trigger] self.src@[k]) by {
                assert(keeps(ByteClass::NotBreakz, self.src@[k]));
            }
            lemma_line_rest_end_at(self.src@, start as int, self.pos as int);
        }
        let c = Comment { span: span(start, self.pos) };
        proof {
            assert(keeps(ByteClass::NotBreakz, self.src@[start as int]));
            assert(comment_text_ok(self.src@, c));
            let cs = self.comments@;
            assert forall|i: int| 0 <= i < cs.len() implies #[trigger] cs[i].span.end <= start by {
            }
        }
        self.comments.push(c);
        proof {
            let cs = self.comments@;
            assert(comments_sorted(cs));
        }
    }

    /// Return whether the scanner is inside a block.
    pub fn is_within_block(&self) -> (r: bool)
        ensures
            r == (self.indents@.len() > 0),
    {
        !self.indents.is_empty()
    }

    /// Skip over whitespace, comments and line breaks until the next token.
    /// Outside any block, a source that holds nothing but such trivia from
    /// the cursor on is skipped to its end (or to a NUL).
    pub fn skip_to_next_token(&mut self) -> (r: ScanResult<()>)
        requires
            old(self).inv(),
            old(self).stream_start_produced,
        ensures
            r is Ok ==> old(self).moves_to(&*final(self)),
            r is Err ==> r->Err_0.located(old(self).src@.len()),
            old(self).indents@.len() == 0 && trivia_from(old(self).src@, old(self).pos as int, false) ==> {
                &&& r is Ok
                &&& final(self).pos == final(self).src@.len() || final(self).cur() == 0
            },
            r is Ok ==> skipped_as_trivia(
                old(self).src@,
                old(self).pos as int,
                final(self).pos as int,
                old(self).comments@.len() as int,
                final(self).comments@,
            ),
    {
        let ghost trivia = old(self).indents@.len() == 0 && trivia_from(old(self).src@, old(self).pos as int, false);
        let ghost n0 = old(self).comments@.len() as int;
        loop
            invariant
                old(self).moves_to(&*self),
                self.stream_start_produced,
                trivia ==> self.indents@.len() == 0 && trivia_from(self.src@, self.pos as int, false),
                trivia == (old(self).indents@.len() == 0 && trivia_from(old(self).src@, old(self).pos as int, false)),
                n0 == old(self).comments@.len(),
                skipped_as_trivia(self.src@, old(self).pos as int, self.pos as int, n0, self.comments@),
            ensures
                old(self).moves_to(&*self),
                trivia ==> self.pos == self.src@.len() || self.cur() == 0,
                skipped_as_trivia(self.src@, old(self).pos as int, self.pos as int, n0, self.comments@),
            decreases self.src@.len() - self.pos,
        {
            let b = self.peek();
            let ghost s = self.src@;
            let ghost p0 = self.pos as int;
            let ghost prev = *self;
            if b == 0x09u8 && self.is_within_block() && self.leading_whitespace && (self.col as i64)
                < self.indent {
                // Tabs may not be used as indentation.
                self.skip_ws_to_eol(true)?;
                proof {
                    let m = prev.comments@.len() as int;
                    assert forall|k: int| old(self).pos <= k < self.pos implies is_blank(#[trigger] s[k]) || is_break(s[k])
                        || is_bom_byte(s[k]) || in_new_comment(n0, self.comments@, k) by {
                        if k < p0 {
                            if !is_blank(s[k]) && !is_break(s[k]) && !is_bom_byte(s[k]) {
                                lemma_new_comment_kept(n0, prev.comments@, self.comments@, k);
                            }
                        } else if !is_blank(s[k]) {
                            lemma_new_comment_widen(n0, m, self.comments@, k);
                        }
                    }
                }
                if !is_breakz(self.peek()) {
                    return Err(self.error(ErrorKind::TabAsIndent, self.pos));
                }
            } else if b == 0x20u8 {
                self.bump_space_run();
                proof {
                    if trivia {
                        lemma_trivia_spaces(s, p0, self.pos as int);
                    }
                }
            } else if b == 0x09u8 {
                self.bump_blank();
            } else if b == 0x0Au8 || b == 0x0Du8 {
                self.bump_break_in_stream();
                proof {
                    if trivia && self.pos == p0 + 2 {
                        assert(trivia_from(s, p0 + 1, false));
                    }
                    if self.pos == p0 + 2 {
                        assert(s[p0 + 1] == 0x0Au8);
                    }
                }
            } else if b == 0x23u8 {
                self.eat_comment();
                proof {
                    let last = self.comments@.len() - 1;
                    assert forall|k: int| old(self).pos <= k < self.pos implies is_blank(#[trigger] s[k]) || is_break(s[k])
                        || is_bom_byte(s[k]) || in_new_comment(n0, self.comments@, k) by {
                        if k < p0 {
                            if !is_blank(s[k]) && !is_break(s[k]) && !is_bom_byte(s[k]) {
                                lemma_new_comment_kept(n0, prev.comments@, self.comments@, k);
                            }
                        } else {
                            assert(self.comments@[last].span.start <= k && k < self.comments@[last].span.end);
                        }
                    }
                    if trivia {
                        assert(trivia_from(s, p0 + 1, true));
                        let c = self.comments@[self.comments@.len() - 1];
                        assert(crate::ast::comment_ok(c, s));
                        assert forall|k: int| p0 + 1 <= k < self.pos implies !is_breakz(#[trigger] s[k]) by {
                            assert(!crate::ast::is_line_end(s[k]));
                        }
                        lemma_trivia_comment(s, p0 + 1, self.pos as int);
                        if self.pos < s.len() && s[self.pos as int] != 0 {
                            assert(trivia_from(s, self.pos + 1, false));
                        }
                    }
                }
            } else if b == 0xEFu8 && self.next_is_bom() {
                self.bump_bom();
            } else {
                break;
            }
        }
        Ok(())
    }

    /// Skip spaces (and optionally tabs) and comments up to the end of line.
    /// Returns `(found_tabs, has_yaml_ws)`.
    pub fn skip_ws_to_eol(&mut self, skip_tabs: bool) -> (r: ScanResult<(bool, bool)>)
        requires
            old(self).inv(),
            old(self).stream_start_produced,
        ensures
            r is Ok ==> old(self).cursor_move(&*final(self)),
            r is Ok ==> final(self).line == old(self).line,
            old(self).cur() != 0x20u8 && !(skip_tabs && old(self).cur() == 0x09u8) && old(self).cur() != 0x23u8
                ==> r is Ok && final(self).pos == old(self).pos && final(self).comments@ == old(self).comments@,
            r is Ok ==> forall|k: int| old(self).pos <= k < final(self).pos ==> is_blank(#[trigger] old(self).src@[k])
                || in_new_comment(old(self).comments@.len() as int, final(self).comments@, k),
            r is Ok && (old(self).cur() == 0x20u8 || (skip_tabs && old(self).cur() == 0x09u8))
                ==> final(self).pos > old(self).pos,
            r is Err ==> r->Err_0.located(old(self).src@.len()),
            skip_tabs && byte_at(old(self).src@, tabs_end(old(self).src@, old(self).pos as int)) != 0x20u8
                && byte_at(old(self).src@, tabs_end(old(self).src@, old(self).pos as int)) != 0x23u8 ==> ({
                &&& r matches Ok((_, ws)) && !ws
                &&& final(self).pos == tabs_end(old(self).src@, old(self).pos as int)
            }),
    {
        let mut found_tabs = false;
        let mut has_yaml_ws = false;
        let ghost start = self.pos;
        let ghost tc = skip_tabs && byte_at(old(self).src@, tabs_end(old(self).src@, old(self).pos as int)) != 0x20u8
                && byte_at(old(self).src@, tabs_end(old(self).src@, old(self).pos as int)) != 0x23u8;
        proof {
            lemma_tabs_end(self.src@, start as int);
        }
        loop
            invariant
                old(self).cursor_move(&*self),
                self.stream_start_produced,
                start == old(self).pos,
                self.line == old(self).line,
                old(self).cur() != 0x20u8 && !(skip_tabs && old(self).cur() == 0x09u8) && old(self).cur() != 0x23u8
                    ==> self.pos == start && self.comments@ == old(self).comments@,
                forall|k: int| start <= k < self.pos ==> is_blank(#[trigger] self.src@[k])
                    || in_new_comment(old(self).comments@.len() as int, self.comments@, k),
                (old(self).cur() == 0x20u8 || (skip_tabs && old(self).cur() == 0x09u8))
                    ==> self.pos > start || self.cur() == old(self).cur(),
                tc == (skip_tabs && byte_at(old(self).src@, tabs_end(old(self).src@, old(self).pos as int)) != 0x20u8
                    && byte_at(old(self).src@, tabs_end(old(self).src@, old(self).pos as int)) != 0x23u8),
                tc ==> !has_yaml_ws && self.pos <= tabs_end(self.src@, start as int)
                    && tabs_end(self.src@, self.pos as int) == tabs_end(self.src@, start as int),
            ensures
                tc ==> !has_yaml_ws && self.pos == tabs_end(self.src@, start as int),
                self.line == old(self).line,
                old(self).cur() != 0x20u8 && !(skip_tabs && old(self).cur() == 0x09u8) && old(self).cur() != 0x23u8
                    ==> self.pos == start && self.comments@ == old(self).comments@,
                forall|k: int| start <= k < self.pos ==> is_blank(#[trigger] self.src@[k])
                    || in_new_comment(old(self).comments@.len() as int, self.comments@, k),
                (old(self).cur() == 0x20u8 || (skip_tabs && old(self).cur() == 0x09u8)) ==> self.pos > start,
            decreases self.src@.len() - self.pos,
        {
            let b = self.peek();
            let ghost prev = *self;
            if b == 0x20u8 {
                has_yaml_ws = true;
                self.bump_space_run();
                proof {
                    assert forall|k: int| start <= k < self.pos implies is_blank(#[trigger] self.src@[k])
                        || in_new_comment(old(self).comments@.len() as int, self.comments@, k) by {
                        if k < prev.pos && !is_blank(self.src@[k]) {
                            lemma_new_comment_kept(old(self).comments@.len() as int, prev.comments@, self.comments@, k);
                        }
                    }
                }
            } else if b == 0x09u8 && skip_tabs {
                found_tabs = true;
                self.bump_blank();
                proof {
                    if tc {
                        lemma_tabs_end(self.src@, prev.pos as int);
                        assert(tabs_end(self.src@, prev.pos as int) == tabs_end(self.src@, self.pos as int));
                    }
                    assert forall|k: int| start <= k < self.pos implies is_blank(#[trigger] self.src@[k])
                        || in_new_comment(old(self).comments@.len() as int, self.comments@, k) by {
                        if k < prev.pos && !is_blank(self.src@[k]) {
                            lemma_new_comment_kept(old(self).comments@.len() as int, prev.comments@, self.comments@, k);
                        }
                    }
                }
            } else if b == 0x23u8 && !found_tabs && !has_yaml_ws && self.col != 0 {
                // YAML comments must be preceded by whitespace.
                return Err(self.error(ErrorKind::UnexpectedToken("comment"), self.pos));
            } else if b == 0x23u8 {
                self.eat_comment();
                proof {
                    let n = old(self).comments@.len() as int;
                    let last = self.comments@.len() - 1;
                    assert forall|k: int| start <= k < self.pos implies is_blank(#[trigger] self.src@[k])
                        || in_new_comment(n, self.comments@, k) by {
                        if k < prev.pos {
                            if !is_blank(self.src@[k]) {
                                lemma_new_comment_kept(n, prev.comments@, self.comments@, k);
                            }
                        } else {
                            assert(self.comments@[last].span.start <= k && k < self.comments@[last].span.end);
                        }
                    }
                }
            } else {
                break;
            }
        }
        Ok((found_tabs, has_yaml_ws))
    }

    /// Skip YAML whitespace (` `, line breaks) and comments. Errors if none found.
    pub fn skip_yaml_whitespace(&mut self) -> (r: ScanResult<()>)
        requires
            old(self).inv(),
            old(self).stream_start_produced,
        ensures
            r is Ok ==> old(self).moves_to(&*final(self)),
            r is Err ==> r->Err_0.located(old(self).src@.len()),
            r is Ok <==> yaml_ws_found(old(self).src@, old(self).pos as int),
            r is Ok ==> final(self).pos == yaml_ws_end(old(self).src@, old(self).pos as int),
            r is Ok ==> final(self).comments@ == old(self).comments@ + yaml_ws_comments(old(self).src@, old(self).pos as int),
            r is Ok ==> final(self).simple_key_allowed == (old(self).simple_key_allowed
                || (old(self).flow_level == 0 && yaml_ws_breaks(old(self).src@, old(self).pos as int))),
    {
        let mut need_whitespace = true;
        let ghost s = self.src@;
        let ghost p0 = self.pos as int;
        proof {
            lemma_line_rest_end(s, p0);
        }
        loop
            invariant
                old(self).moves_to(&*self),
                self.stream_start_produced,
                s == old(self).src@,
                p0 == old(self).pos,
                0 <= p0 <= line_rest_end(s, p0) <= s.len(),
                is_breakz(byte_at(s, line_rest_end(s, p0))),
                yaml_ws_end(s, self.pos as int) == yaml_ws_end(s, p0),
                need_whitespace ==> self.pos == p0 || (byte_at(s, p0) == 0x23u8 && self.pos == line_rest_end(s, p0)),
                !need_whitespace ==> yaml_ws_found(s, p0),
                self.comments@ + yaml_ws_comments(s, self.pos as int) == old(self).comments@ + yaml_ws_comments(s, p0),
                (self.simple_key_allowed || (self.flow_level == 0 && yaml_ws_breaks(s, self.pos as int)))
                    == (old(self).simple_key_allowed || (old(self).flow_level == 0 && yaml_ws_breaks(s, p0))),
                self.flow_level == old(self).flow_level,
            ensures
                old(self).moves_to(&*self),
                s == old(self).src@,
                is_breakz(byte_at(s, line_rest_end(s, p0))),
                yaml_ws_end(s, self.pos as int) == yaml_ws_end(s, p0),
                need_whitespace ==> self.pos == p0 || (byte_at(s, p0) == 0x23u8 && self.pos == line_rest_end(s, p0)),
                !need_whitespace ==> yaml_ws_found(s, p0),
                self.cur() != 0x20u8 && !is_break(self.cur()) && self.cur() != 0x23u8,
                self.comments@ + yaml_ws_comments(s, self.pos as int) == old(self).comments@ + yaml_ws_comments(s, p0),
                (self.simple_key_allowed || (self.flow_level == 0 && yaml_ws_breaks(s, self.pos as int)))
                    == (old(self).simple_key_allowed || (old(self).flow_level == 0 && yaml_ws_breaks(s, p0))),
            decreases self.src@.len() - self.pos,
        {
            let b = self.peek();
            let ghost p = self.pos as int;
            if b == 0x20u8 {
                self.bump_blank();
                need_whitespace = false;
            } else if b == 0x0Au8 || b == 0x0Du8 {
                self.bump_break_in_stream();
                need_whitespace = false;
                assert(self.pos == break_end(s, p));
            } else if b == 0x23u8 {
                let ghost before = self.comments@;
                self.eat_comment();
                proof {
                    lemma_line_rest_end(s, p + 1);
                    assert(line_rest_end(s, p) == line_rest_end(s, p + 1));
                    let c = Comment { span: crate::pos::Span { start: p as u32, end: line_rest_end(s, p + 1) as u32 } };
                    assert(yaml_ws_comments(s, p) == seq![c] + yaml_ws_comments(s, self.pos as int));
                    assert(before + yaml_ws_comments(s, p) =~= self.comments@ + yaml_ws_comments(s, self.pos as int));
                }
            } else {
                break;
            }
        }
        assert(yaml_ws_end(s, self.pos as int) == self.pos);
        assert(yaml_ws_comments(s, self.pos as int) =~= Seq::<Comment>::empty());
        assert(!yaml_ws_breaks(s, self.pos as int));
        assert(self.comments@ + Seq::<Comment>::empty() =~= self.comments@);
        if need_whitespace {
            Err(self.error(ErrorKind::UnexpectedToken("non-whitespace"), self.pos))
        } else {
            Ok(())
        }
    }
}

/// A run of spaces keeps trivia going.
proof fn lemma_trivia_spaces(s: Seq<u8>, i: int, j: int)
    requires
        0 <= i <= j <= s.len(),
        trivia_from(s, i, false),
        forall|k: int| i <= k < j ==> #[trigger] s[k] == 0x20u8,
    ensures
        trivia_from(s, j, false),
    decreases j - i,
{
    if i < j {
        lemma_trivia_spaces(s, i + 1, j);
    }
}

/// The body of a comment keeps trivia going.
proof fn lemma_trivia_comment(s: Seq<u8>, i: int, j: int)
    requires
        0 <= i <= j <= s.len(),
        trivia_from(s, i, true),
        forall|k: int| i <= k < j ==> !is_breakz(#[trigger] s[k]),
    ensures
        trivia_from(s, j, true),
    decreases j - i,
{
    if i < j {
        lemma_trivia_comment(s, i + 1, j);
    }
}

} // verus!
