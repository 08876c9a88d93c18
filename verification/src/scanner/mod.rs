//! The YAML scanner (tokenizer).
//!
//! Tokens carry byte-offset spans over the source and no cooked scalar
//! values; comments are retained as trivia and directives are left
//! uninterpreted. The machinery: a stack of simple keys (a scalar may turn
//! out to be a mapping key when a `:` follows, and a `Key` token is then
//! inserted where it began), a stack of indentation levels that synthesizes
//! `Block*` tokens, and the flow level with the implicit flow mapping states
//! of flow sequences.
//!
//! Besides memory safety and termination, the contracts here keep these facts
//! about the token stream: every token lies inside the source with both ends
//! on character boundaries, tokens come out in source order without
//! overlapping, tokens the scanner invents are zero width, and every comment
//! is a `#`..end-of-line run, collected in source order.
use crate::ast::{name_run, tag_run, Comment};
use crate::error::Error;
use crate::pos::Span;
use std::collections::VecDeque;
use vstd::prelude::*;
use vstd::utf8::{is_char_boundary, valid_utf8};

mod chars;
mod bookkeeping;
mod cursor;
mod fetch;
mod scalars;
mod token;

pub use chars::{
    char_count, char_width, count_chars, ends_plain_scalar, is_alpha, is_anchor_char,
    is_ascii_digit, is_ascii_hexdigit, is_blank, is_blank_or_breakz, is_break, is_breakz,
    is_continuation, is_flow, is_tag_char, is_uri_char, keeps, lemma_count_chars_bound, lemma_run_end_boundary,
    ByteClass,
};
pub(crate) use token::span;
pub use token::{synthesized_token, BlockHeaderIndex, BlockScalarHeader, ScalarStyle, Token, TokenKind};

verus! {

/// A scalar that was scanned and may retroactively become a mapping key.
///
/// Upon scanning `a` in `a: b` we do not yet know it is a key; the token is
/// buffered and this bookkeeping records where a `Key` token would need to be
/// inserted if a `:` follows.
#[derive(Clone, Copy, Debug)]
pub struct SimpleKey {
    pub possible: bool,
    pub required: bool,
    /// Index of the buffered token, counting tokens already handed out.
    pub token_number: u64,
    /// Byte offset of the candidate key.
    pub pos: usize,
    pub line: usize,
    pub col: usize,
}

impl SimpleKey {
    fn new() -> (r: Self)
        ensures
            !r.possible,
            !r.required,
            r.token_number == 0,
            r.pos == 0,
            r.line == 0,
            r.col == 0,
    {
        Self { possible: false, required: false, token_number: 0, pos: 0, line: 0, col: 0 }
    }
}

/// An indentation level on the stack of indentations.
#[derive(Clone, Copy, Debug)]
pub struct Indent {
    /// The former indentation level.
    pub indent: i64,
    /// Whether, upon closing, this indent generates a `BlockEnd` token.
    pub needs_block_end: bool,
}

/// Whether a flow sequence may hold / holds an implicit `key: value` mapping
/// (`[ a: b ]`), which requires synthesizing `FlowMapping*` tokens.
#[derive(Clone, Copy, Debug, PartialEq, Eq, Structural)]
pub enum ImplicitMappingState {
    Possible,
    Inside,
}

pub type ScanResult<T> = Result<T, Error>;

pub struct Scanner<'a> {
    pub src: &'a [u8],
    /// Current byte offset.
    pub pos: usize,
    /// Current line (0-based; only compared relatively).
    pub line: usize,
    /// Current column (0-based, counted in characters).
    pub col: usize,
    /// Buffered tokens not yet handed to the parser.
    pub tokens: VecDeque<Token>,
    /// Comments encountered so far, in source order.
    pub comments: Vec<Comment>,
    /// Block scalar headers, indexed by `TokenKind::Scalar`'s payload.
    pub block_headers: Vec<BlockScalarHeader>,
    pub stream_start_produced: bool,
    pub stream_end_produced: bool,
    /// Offset at which a `:` may be adjacent to a JSON-like key in flow context.
    pub adjacent_value_allowed_at: usize,
    pub simple_key_allowed: bool,
    pub simple_keys: Vec<SimpleKey>,
    pub indent: i64,
    pub indents: Vec<Indent>,
    pub flow_level: usize,
    /// Number of tokens already handed to the parser.
    pub tokens_parsed: u64,
    /// Whether all characters since the last newline were whitespace.
    pub leading_whitespace: bool,
    pub flow_mapping_started: bool,
    pub implicit_flow_mapping_states: Vec<ImplicitMappingState>,
    /// Whether the `StreamEnd` token has been queued.
    pub stream_end_fetched: Ghost<bool>,
    /// End offset of the last token handed to the parser.
    pub prev_end: Ghost<int>,
}

/// The byte at offset `i`, or NUL past the end.
pub open spec fn byte_at(s: Seq<u8>, i: int) -> u8 {
    if 0 <= i < s.len() {
        s[i]
    } else {
        0
    }
}

/// The block scalar header of a token fits its span, and its content
/// bounds fall between characters of the source.
pub open spec fn header_fits(h: BlockScalarHeader, sp: Span, src: Seq<u8>) -> bool {
    &&& sp.start < h.content_start
    &&& h.content_start <= h.content_end
    &&& h.content_end <= sp.end
    &&& is_char_boundary(src, h.content_start as int)
    &&& is_char_boundary(src, h.content_end as int)
}

/// Whether a scalar style is a block style.
pub open spec fn is_block_style(style: ScalarStyle) -> bool {
    style == ScalarStyle::Literal || style == ScalarStyle::Folded
}

/// Which kinds of token the scanner may invent.
pub open spec fn may_synthesize(k: TokenKind) -> bool {
    match k {
        TokenKind::StreamStart | TokenKind::StreamEnd | TokenKind::BlockSequenceStart
        | TokenKind::BlockMappingStart | TokenKind::BlockEnd | TokenKind::Key
        | TokenKind::FlowMappingStart | TokenKind::FlowMappingEnd => true,
        _ => false,
    }
}

/// The source text under a token read from the source starts with the
/// indicator of its kind.
pub open spec fn token_text_ok(t: Token, src: Seq<u8>) -> bool {
    let s = t.span.start as int;
    let e = t.span.end as int;
    match t.kind {
        TokenKind::Directive => s < e && src[s] == 0x25u8 && (e == src.len() || is_blank_or_breakz(src[e])),
        TokenKind::DocumentStart => e == s + 3 && src[s] == 0x2Du8 && src[s + 1] == 0x2Du8 && src[s + 2] == 0x2Du8,
        TokenKind::DocumentEnd => e == s + 3 && src[s] == 0x2Eu8 && src[s + 1] == 0x2Eu8 && src[s + 2] == 0x2Eu8,
        TokenKind::FlowSequenceStart => e == s + 1 && src[s] == 0x5Bu8,
        TokenKind::FlowSequenceEnd => e == s + 1 && src[s] == 0x5Du8,
        TokenKind::FlowMappingStart => e == s + 1 && src[s] == 0x7Bu8,
        TokenKind::FlowMappingEnd => e == s + 1 && src[s] == 0x7Du8,
        TokenKind::BlockEntry => e == s + 1 && src[s] == 0x2Du8,
        TokenKind::FlowEntry => e == s + 1 && src[s] == 0x2Cu8,
        TokenKind::Key => e == s + 1 && src[s] == 0x3Fu8,
        TokenKind::Value => e == s + 1 && src[s] == 0x3Au8,
        TokenKind::Alias => s + 2 <= e && src[s] == 0x2Au8 && name_run(t.span, src),
        TokenKind::Anchor => s + 2 <= e && src[s] == 0x26u8 && name_run(t.span, src),
        TokenKind::Tag => s < e && src[s] == 0x21u8 && tag_run(t.span, src),
        TokenKind::Scalar(ScalarStyle::Plain, _) => s < e && !is_blank_or_breakz(src[e - 1]),
        TokenKind::Scalar(ScalarStyle::SingleQuoted, _) => s + 2 <= e && src[s] == 0x27u8 && src[e - 1] == 0x27u8,
        TokenKind::Scalar(ScalarStyle::DoubleQuoted, _) => s + 2 <= e && src[s] == 0x22u8 && src[e - 1] == 0x22u8,
        TokenKind::Scalar(ScalarStyle::Literal, _) => s < e && src[s] == 0x7Cu8,
        TokenKind::Scalar(ScalarStyle::Folded, _) => s < e && src[s] == 0x3Eu8,
        _ => false,
    }
}

/// A token is well formed against the block headers and the source.
pub open spec fn token_ok(t: Token, headers: Seq<BlockScalarHeader>, src: Seq<u8>) -> bool {
    &&& t.span.start <= t.span.end
    &&& t.span.end <= src.len()
    &&& is_char_boundary(src, t.span.start as int)
    &&& is_char_boundary(src, t.span.end as int)
    &&& t.synthesized ==> t.span.start == t.span.end && may_synthesize(t.kind)
    &&& !t.synthesized ==> token_text_ok(t, src)
    &&& match t.kind {
        TokenKind::Scalar(style, h) => if is_block_style(style) {
            &&& h is Some
            &&& h.unwrap().index() < headers.len()
            &&& header_fits(headers[h.unwrap().index() as int], t.span, src)
        } else {
            h is None
        },
        _ => true,
    }
}

/// A comment covers a `#` and the rest of its line, up to (excluding) the
/// line break or the end of input.
pub open spec fn comment_text_ok(src: Seq<u8>, c: Comment) -> bool {
    crate::ast::comment_ok(c, src)
}

/// Comments lie in the source in order, without overlapping.
pub open spec fn comments_sorted(cs: Seq<Comment>) -> bool {
    forall|i: int, j: int| #![trigger cs[i], cs[j]] 0 <= i < j < cs.len() ==> cs[i].span.end <= cs[j].span.start
}

/// The number of indents that emit a `BlockEnd` when closed.
pub open spec fn count_block(s: Seq<Indent>) -> nat
    decreases s.len(),
{
    if s.len() == 0 {
        0
    } else {
        count_block(s.drop_last()) + if s.last().needs_block_end { 1nat } else { 0nat }
    }
}

/// The number of implicit flow mappings that are open.
pub open spec fn count_inside(s: Seq<ImplicitMappingState>) -> nat
    decreases s.len(),
{
    if s.len() == 0 {
        0
    } else {
        count_inside(s.drop_last()) + if s.last() == ImplicitMappingState::Inside { 1nat } else { 0nat }
    }
}

impl<'a> Scanner<'a> {
    pub open spec fn bytes(&self) -> Seq<u8> {
        self.src@
    }

    /// The byte under the cursor (NUL at the end of input).
    pub open spec fn cur(&self) -> u8 {
        byte_at(self.src@, self.pos as int)
    }

    /// The byte `n` places after the cursor (NUL past the end of input).
    pub open spec fn ahead(&self, n: int) -> u8 {
        byte_at(self.src@, self.pos + n)
    }

    pub open spec fn cursor_ok(&self) -> bool {
        &&& self.src@.len() <= u32::MAX
        &&& valid_utf8(self.src@)
        &&& self.pos <= self.src@.len()
        &&& is_char_boundary(self.src@, self.pos as int)
        &&& self.col <= self.pos
        &&& self.line <= self.pos
    }

    pub open spec fn tokens_ok(&self) -> bool {
        let ts = self.tokens@;
        &&& forall|i: int| 0 <= i < ts.len() ==> token_ok(#[trigger] ts[i], self.block_headers@, self.src@)
        &&& forall|i: int| 0 <= i < ts.len() && (#[trigger] ts[i]).kind == TokenKind::StreamEnd
            ==> i == ts.len() - 1 && self.stream_end_fetched@
        &&& forall|i: int| 0 <= i < ts.len() ==> #[trigger] ts[i].span.end <= self.pos
        &&& forall|i: int, j: int| #![trigger ts[i], ts[j]] 0 <= i < j < ts.len() ==> ts[i].span.end <= ts[j].span.start
        &&& ts.len() > 0 ==> self.prev_end@ <= ts[0].span.start
        &&& 0 <= self.prev_end@ <= self.pos
        &&& self.block_headers@.len() <= self.pos
    }

    /// A possible simple key points into the token queue at a place whose
    /// neighbours lie on either side of its offset.
    pub open spec fn key_ok(&self, sk: SimpleKey) -> bool {
        let ts = self.tokens@;
        let k = sk.token_number - self.tokens_parsed;
        &&& self.tokens_parsed <= sk.token_number <= self.tokens_parsed + ts.len()
        &&& sk.pos < self.src@.len()
        &&& is_char_boundary(self.src@, sk.pos as int)
        &&& sk.pos <= self.pos
        &&& sk.col <= sk.pos
        &&& self.prev_end@ <= sk.pos
        &&& forall|t: int| 0 <= t < k ==> #[trigger] ts[t].span.end <= sk.pos
        &&& forall|t: int| k <= t < ts.len() ==> #[trigger] ts[t].span.start >= sk.pos
    }

    pub open spec fn keys_ok(&self) -> bool {
        let ks = self.simple_keys@;
        &&& self.stream_start_produced ==> ks.len() == self.flow_level + 1
        &&& forall|i: int| 0 <= i < ks.len() && (#[trigger] ks[i]).possible ==> self.key_ok(ks[i])
        &&& forall|i: int, j: int|
            0 <= i < j < ks.len() && (#[trigger] ks[i]).possible && (#[trigger] ks[j]).possible
                ==> ks[i].token_number <= ks[j].token_number && ks[i].pos <= ks[j].pos
    }

    pub open spec fn indents_ok(&self) -> bool {
        let is = self.indents@;
        &&& -1 <= self.indent <= u32::MAX + 1
        &&& is.len() == 0 ==> self.indent == -1
        &&& is.len() > 0 ==> is[0].indent == -1
        &&& is.len() > 0 ==> is.last().indent < self.indent
        &&& is.len() > 0 && is.last().needs_block_end ==> self.indent <= u32::MAX
        &&& forall|i: int, j: int| 0 <= i < j < is.len() ==> (#[trigger] is[i]).indent < (#[trigger] is[j]).indent
    }

    pub open spec fn comments_ok(&self) -> bool {
        let cs = self.comments@;
        &&& forall|i: int| 0 <= i < cs.len() ==> comment_text_ok(self.src@, #[trigger] cs[i])
        &&& forall|i: int| 0 <= i < cs.len() ==> (#[trigger] cs[i]).span.end <= self.pos
        &&& comments_sorted(cs)
    }

    pub open spec fn flags_ok(&self) -> bool {
        &&& !self.stream_start_produced ==> {
            &&& self.pos == 0
            &&& self.col == 0
            &&& self.line == 0
            &&& self.tokens@.len() == 0
            &&& self.indents@.len() == 0
            &&& self.indent == -1
            &&& self.flow_level == 0
            &&& self.simple_keys@.len() == 0
            &&& self.comments@.len() == 0
            &&& self.implicit_flow_mapping_states@.len() == 0
            &&& !self.stream_end_fetched@
            &&& self.tokens_parsed == 0
            &&& self.prev_end@ == 0
        }
        &&& self.stream_end_produced ==> self.stream_end_fetched@ && self.tokens@.len() == 0
        &&& self.stream_end_fetched@ && !self.stream_end_produced ==> {
            &&& self.tokens@.len() > 0
            &&& self.tokens@.last().kind == TokenKind::StreamEnd
            &&& forall|i: int| 0 <= i < self.simple_keys@.len() ==> !(#[trigger] self.simple_keys@[i]).possible
        }
    }

    /// What the scanner still owes: buffered tokens, `BlockEnd`s and
    /// `FlowMappingEnd`s of open structures, and the stream markers.
    pub open spec fn budget(&self) -> int {
        self.tokens@.len() + count_block(self.indents@) + count_inside(self.implicit_flow_mapping_states@)
            + (if self.stream_start_produced { 0int } else { 1int })
            + (if self.stream_end_fetched@ { 0int } else { 1int })
    }

    /// An upper bound on the number of tokens still to be handed out.
    pub open spec fn potential(&self) -> int {
        8 * (self.src@.len() - self.pos) + self.budget()
    }

    /// Nothing is queued or pending: no buffered token, no open block, and
    /// no simple key that could still be completed.
    pub open spec fn idle(&self) -> bool {
        &&& self.tokens@.len() == 0
        &&& self.indents@.len() == 0
        &&& forall|i: int| 0 <= i < self.simple_keys@.len() ==> !(#[trigger] self.simple_keys@[i]).possible
    }

    /// The scanner's internal invariant.
    pub open spec fn inv(&self) -> bool {
        &&& self.cursor_ok()
        &&& self.tokens_ok()
        &&& self.keys_ok()
        &&& self.indents_ok()
        &&& self.comments_ok()
        &&& self.flags_ok()
    }

    /// The invariant, and the count of handed-out tokens stays within what
    /// the source can produce.
    pub open spec fn wf(&self) -> bool {
        &&& self.inv()
        &&& self.tokens_parsed + self.potential() <= 8 * self.src@.len() + 2
    }

    /// A token may be queued at the end with its span starting at `p`: every
    /// buffered token, the last handed-out token and every possible simple
    /// key lie before `p`.
    pub open spec fn can_append_at(&self, p: int) -> bool {
        &&& forall|i: int| 0 <= i < self.tokens@.len() ==> #[trigger] self.tokens@[i].span.end <= p
        &&& self.prev_end@ <= p
        &&& forall|i: int|
            0 <= i < self.simple_keys@.len() && (#[trigger] self.simple_keys@[i]).possible
                ==> self.simple_keys@[i].pos <= p
    }

    /// A zero-width token at `at` may be inserted at queue index `idx`.
    pub open spec fn insert_ok(&self, idx: int, at: int) -> bool {
        &&& 0 <= idx <= self.tokens@.len()
        &&& forall|i: int| 0 <= i < idx ==> #[trigger] self.tokens@[i].span.end <= at
        &&& forall|i: int| idx <= i < self.tokens@.len() ==> #[trigger] self.tokens@[i].span.start >= at
        &&& idx == 0 ==> self.prev_end@ <= at
        &&& forall|i: int|
            0 <= i < self.simple_keys@.len() && (#[trigger] self.simple_keys@[i]).possible ==> {
                &&& self.simple_keys@[i].token_number - self.tokens_parsed <= idx
                &&& self.simple_keys@[i].pos <= at
            }
    }

    /// The cursor, the comments, the headers and the flags are unchanged.
    pub open spec fn same_cursor(&self, other: &Self) -> bool {
        &&& self.src@ == other.src@
        &&& self.pos == other.pos
        &&& self.line == other.line
        &&& self.col == other.col
        &&& self.leading_whitespace == other.leading_whitespace
        &&& self.comments@ == other.comments@
        &&& self.block_headers@ == other.block_headers@
        &&& self.stream_start_produced == other.stream_start_produced
        &&& self.stream_end_produced == other.stream_end_produced
        &&& self.stream_end_fetched@ == other.stream_end_fetched@
        &&& self.tokens_parsed == other.tokens_parsed
        &&& self.prev_end@ == other.prev_end@
        &&& self.adjacent_value_allowed_at == other.adjacent_value_allowed_at
        &&& self.simple_key_allowed == other.simple_key_allowed
    }

    /// One fetch step from `self` reached `new`: the scanner stays well
    /// formed, the cursor moved forward, and whatever was queued or left
    /// owing is paid for by the bytes consumed.
    pub open spec fn fetched(&self, new: &Self) -> bool {
        &&& new.inv()
        &&& self.advances_to(new)
        &&& new.pos > self.pos
        &&& new.budget() <= self.budget() + 8 * (new.pos - self.pos)
        &&& new.stream_start_produced
        &&& !new.stream_end_fetched@
    }

    /// Everything but the cursor, the comments and `simple_key_allowed` is unchanged.
    pub open spec fn same_but_cursor(&self, other: &Self) -> bool {
        &&& self.src@ == other.src@
        &&& self.tokens@ == other.tokens@
        &&& self.block_headers@ == other.block_headers@
        &&& self.stream_start_produced == other.stream_start_produced
        &&& self.stream_end_produced == other.stream_end_produced
        &&& self.adjacent_value_allowed_at == other.adjacent_value_allowed_at
        &&& self.simple_keys@ == other.simple_keys@
        &&& self.indent == other.indent
        &&& self.indents@ == other.indents@
        &&& self.flow_level == other.flow_level
        &&& self.tokens_parsed == other.tokens_parsed
        &&& self.flow_mapping_started == other.flow_mapping_started
        &&& self.implicit_flow_mapping_states@ == other.implicit_flow_mapping_states@
        &&& self.stream_end_fetched@ == other.stream_end_fetched@
        &&& self.prev_end@ == other.prev_end@
    }

    /// `new` follows `self` in a scan: the same source, the cursor no further
    /// back, the comments and block headers extended.
    pub open spec fn advances_to(&self, new: &Self) -> bool {
        &&& new.src@ == self.src@
        &&& new.pos >= self.pos
        &&& new.comments@.len() >= self.comments@.len()
        &&& forall|i: int| 0 <= i < self.comments@.len() ==> #[trigger] new.comments@[i] == self.comments@[i]
        &&& new.block_headers@.len() >= self.block_headers@.len()
        &&& forall|i: int| 0 <= i < self.block_headers@.len() ==> #[trigger] new.block_headers@[i] == self.block_headers@[i]
        &&& new.tokens_parsed == self.tokens_parsed
        &&& new.prev_end@ == self.prev_end@
        &&& new.stream_end_produced == self.stream_end_produced
    }

    pub fn new(source: &'a str) -> (s: Self)
        ensures
            s.src@ == crate::pos::src_bytes(source),
            s.src@.len() <= u32::MAX ==> s.wf(),
            s.potential() == 8 * s.src@.len() + 2,
            !s.stream_end_produced,
            !s.stream_start_produced,
            s.prev_end@ == 0,
            s.pos == 0,
    {
        proof {
            vstd::utf8::encode_utf8_valid_utf8(source@);
            vstd::utf8::is_char_boundary_start_end_of_seq(crate::pos::src_bytes(source));
        }
        Self {
            src: source.as_bytes(),
            pos: 0,
            line: 0,
            col: 0,
            tokens: VecDeque::new(),
            comments: Vec::new(),
            block_headers: Vec::new(),
            stream_start_produced: false,
            stream_end_produced: false,
            adjacent_value_allowed_at: usize::MAX,
            simple_key_allowed: true,
            simple_keys: Vec::new(),
            indent: -1,
            indents: Vec::new(),
            flow_level: 0,
            tokens_parsed: 0,
            leading_whitespace: true,
            flow_mapping_started: false,
            implicit_flow_mapping_states: Vec::new(),
            stream_end_fetched: Ghost(false),
            prev_end: Ghost(0),
        }
    }
}

} // verus!
