//! AST node definitions.
//!
//! The shapes follow these span principles:
//!
//! - Child spans nest inside their parent's span; [`Node`] wraps properties
//!   and content so anchors/tags are inside the node they apply to.
//! - A span is the construct's full lexical extent: indicators (`?`, `:`)
//!   are inside the wrapper they introduce, and a wrapper without source
//!   evidence is `None` rather than an empty-span node.
//! - Token extent and semantic boundaries are separate data
//!   ([`BlockScalar::span`] vs `content_start`/`content_end`).
//!
//! Scalar nodes do not carry cooked values; consumers slice the source
//! through [`Span`]s. Comments are not attached to nodes: they live in
//! [`Root::comments`] in source order.
use crate::pos::{src_bytes, Span};
use vstd::utf8::is_char_boundary;
use vstd::prelude::*;

verus! {

/// A `#` comment. `span` covers `#` through the end of the comment text.
#[derive(Clone, Copy, Debug)]
pub struct Comment {
    pub span: Span,
}

/// `&name`. `span` covers the `&` and the name.
#[derive(Clone, Copy, Debug)]
pub struct Anchor {
    pub span: Span,
}

/// A tag property: `!`, `!suffix`, `!handle!suffix`, `!!suffix` or `!<verbatim>`.
#[derive(Clone, Copy, Debug)]
pub struct Tag {
    pub span: Span,
}

/// A node's properties (`&anchor` / `!tag`), in either source order.
#[derive(Clone, Copy, Debug)]
pub struct Props {
    pub anchor: Option<Anchor>,
    pub tag: Option<Tag>,
}

impl Props {
    /// The start of the first property, if any.
    pub open spec fn first_start(self) -> Option<u32> {
        match (self.anchor, self.tag) {
            (Some(a), Some(t)) => Some(if a.span.start <= t.span.start { a.span.start } else { t.span.start }),
            (Some(a), None) => Some(a.span.start),
            (None, Some(t)) => Some(t.span.start),
            (None, None) => None,
        }
    }

    /// Start of the first property, if any.
    pub fn start(&self) -> (r: Option<u32>)
        ensures
            r == self.first_start(),
    {
        match (self.anchor, self.tag) {
            (Some(a), Some(t)) => Some(if a.span.start <= t.span.start { a.span.start } else { t.span.start }),
            (Some(a), None) => Some(a.span.start),
            (None, Some(t)) => Some(t.span.start),
            (None, None) => None,
        }
    }
}

/// The whole stream.
#[derive(Debug)]
pub struct Root<'a> {
    pub span: Span,
    pub children: Vec<Document<'a>>,
    /// Every comment in the stream, in source order. Comments are not
    /// attached to nodes; consumers place them positionally via spans.
    pub comments: Vec<Comment>,
}

#[derive(Debug)]
pub struct Document<'a> {
    pub span: Span,
    pub head: DocumentHead<'a>,
    pub body: DocumentBody,
    /// Span of the `---` marker if present.
    pub directives_end_marker: Option<Span>,
    /// Span of the `...` marker if present.
    pub document_end_marker: Option<Span>,
}

#[derive(Debug)]
pub struct DocumentHead<'a> {
    pub span: Span,
    pub directives: Vec<Directive<'a>>,
}

#[derive(Debug)]
pub struct DocumentBody {
    pub span: Span,
    pub content: Option<Box<Node>>,
}

/// `%NAME param param`. Uninterpreted; `%YAML`/`%TAG`/unknown are all accepted.
#[derive(Debug)]
pub struct Directive<'a> {
    pub span: Span,
    pub name: &'a str,
    pub parameters: Vec<&'a str>,
}

/// A YAML node: optional properties (anchor/tag) plus the content they apply to.
///
/// `span` covers the props through the content end, so every child span
/// (props, content, nested nodes) nests inside it.
#[derive(Debug)]
pub struct Node {
    pub span: Span,
    pub props: Props,
    pub content: Content,
}

/// A node's content.
#[derive(Debug)]
pub enum Content {
    Plain(Box<Plain>),
    QuoteSingle(Box<QuoteSingle>),
    QuoteDouble(Box<QuoteDouble>),
    BlockLiteral(Box<BlockScalar>),
    BlockFolded(Box<BlockScalar>),
    Mapping(Box<Mapping>),
    Sequence(Box<Sequence>),
    FlowMapping(Box<FlowMapping>),
    FlowSequence(Box<FlowSequence>),
    Alias(Box<Alias>),
}

impl Content {
    /// The span of the content, whatever its kind.
    pub open spec fn spec_span(self) -> Span {
        match self {
            Content::Plain(n) => n.span,
            Content::QuoteSingle(n) => n.span,
            Content::QuoteDouble(n) => n.span,
            Content::BlockLiteral(n) => n.span,
            Content::BlockFolded(n) => n.span,
            Content::Mapping(n) => n.span,
            Content::Sequence(n) => n.span,
            Content::FlowMapping(n) => n.span,
            Content::FlowSequence(n) => n.span,
            Content::Alias(n) => n.span,
        }
    }

    pub fn span(&self) -> (r: Span)
        ensures
            r == self.spec_span(),
    {
        match self {
            Content::Plain(n) => n.span,
            Content::QuoteSingle(n) => n.span,
            Content::QuoteDouble(n) => n.span,
            Content::BlockLiteral(n) => n.span,
            Content::BlockFolded(n) => n.span,
            Content::Mapping(n) => n.span,
            Content::Sequence(n) => n.span,
            Content::FlowMapping(n) => n.span,
            Content::FlowSequence(n) => n.span,
            Content::Alias(n) => n.span,
        }
    }
}

/// A plain (unquoted) scalar. `span` covers the raw scalar text
/// (trailing whitespace/comments excluded).
#[derive(Debug)]
pub struct Plain {
    pub span: Span,
}

/// `'...'`. `span` includes the quotes.
#[derive(Debug)]
pub struct QuoteSingle {
    pub span: Span,
}

/// `"..."`. `span` includes the quotes.
#[derive(Debug)]
pub struct QuoteDouble {
    pub span: Span,
}

#[derive(Clone, Copy, Debug, PartialEq, Eq, Structural)]
pub enum Chomping {
    /// (default) single trailing newline
    Clip,
    /// `+` keep all trailing newlines
    Keep,
    /// `-` strip all trailing newlines
    Strip,
}

/// `|` (literal) or `>` (folded) block scalar.
///
/// The variant is distinguished by the enclosing [`Content`] variant. `span`
/// covers the indicator through the end of the content (including trailing
/// line breaks consumed while scanning).
#[derive(Debug)]
pub struct BlockScalar {
    pub span: Span,
    pub chomping: Chomping,
    /// Explicit indentation indicator digit, if any.
    pub indent: Option<u32>,
    /// Offset right after the header line's line break (= where content
    /// scanning began). The content text is `content_start..content_end`.
    pub content_start: u32,
    /// Offset right after the last content character (before the trailing
    /// break run).
    pub content_end: u32,
}

/// A block mapping.
#[derive(Debug)]
pub struct Mapping {
    pub span: Span,
    pub children: Vec<MappingItem>,
}

/// One `key: value` pair in a block or flow mapping.
#[derive(Debug)]
pub struct MappingItem {
    pub span: Span,
    /// `None` when the source has neither a `?` indicator nor key content (`: value`).
    pub key: Option<MappingKey>,
    /// `None` when the source has no `:` (`? key` alone, or a lone key in a flow mapping).
    pub value: Option<MappingValue>,
}

impl MappingItem {
    /// The key's content node, when both the key and its content exist.
    pub fn key_content(&self) -> (r: Option<&Node>)
        ensures
            match self.key {
                Some(k) => match k.content {
                    Some(n) => r == Some(&*n),
                    None => r is None,
                },
                None => r is None,
            },
    {
        match &self.key {
            Some(key) => match &key.content {
                Some(node) => Some(&**node),
                None => None,
            },
            None => None,
        }
    }

    /// The value's content node, when both the value and its content exist.
    pub fn value_content(&self) -> (r: Option<&Node>)
        ensures
            match self.value {
                Some(v) => match v.content {
                    Some(n) => r == Some(&*n),
                    None => r is None,
                },
                None => r is None,
            },
    {
        match &self.value {
            Some(value) => match &value.content {
                Some(node) => Some(&**node),
                None => None,
            },
            None => None,
        }
    }
}

/// A mapping key. `span` starts at the `?` indicator when explicit.
#[derive(Debug)]
pub struct MappingKey {
    pub span: Span,
    /// `None` for an explicit `?` with no content.
    pub content: Option<Box<Node>>,
    /// `true` when written with the explicit `?` indicator.
    pub explicit: bool,
}

/// A mapping value. `span` starts at the `:` indicator.
#[derive(Debug)]
pub struct MappingValue {
    pub span: Span,
    /// `None` for `key:` with no value.
    pub content: Option<Box<Node>>,
}

/// A block sequence.
#[derive(Debug)]
pub struct Sequence {
    pub span: Span,
    pub children: Vec<SequenceItem>,
}

/// One `- item` in a block sequence. `span` starts at the `-`.
#[derive(Debug)]
pub struct SequenceItem {
    pub span: Span,
    pub content: Option<Box<Node>>,
}

/// `{ ... }`.
#[derive(Debug)]
pub struct FlowMapping {
    pub span: Span,
    pub children: Vec<MappingItem>,
}

/// `[ ... ]`.
#[derive(Debug)]
pub struct FlowSequence {
    pub span: Span,
    pub children: Vec<FlowSequenceEntry>,
}

/// An entry in a flow sequence: a plain node, or a `key: value` pair.
#[derive(Debug)]
pub enum FlowSequenceEntry {
    Item(Box<Node>),
    Pair(Box<MappingItem>),
}

/// `*name`. `span` covers the `*` and the name.
#[derive(Debug)]
pub struct Alias {
    pub span: Span,
}


// Well-formedness of a tree against the source it was parsed from: every
// span lies in the source, child spans nest inside their parent's span,
// siblings come in source order without overlapping, indicators sit where
// the wrapper they introduce begins, and scalar spans cover exactly their
// text.

/// A blank, a line break, or the NUL that ends input.
pub open spec fn is_space(b: u8) -> bool {
    b == 0x20u8 || b == 0x09u8 || b == 0x0Au8 || b == 0x0Du8 || b == 0u8
}

/// A flow indicator: `,`, `[`, `]`, `{` or `}`.
pub open spec fn is_flow_indicator(b: u8) -> bool {
    b == 0x2Cu8 || b == 0x5Bu8 || b == 0x5Du8 || b == 0x7Bu8 || b == 0x7Du8
}

/// A byte that ends an anchor or alias name, or a tag: a blank, a line
/// break, a NUL or a flow indicator.
pub open spec fn ends_name(b: u8) -> bool {
    is_space(b) || is_flow_indicator(b)
}

/// After its indicator byte, the text of `sp` is one whole name: none of
/// its bytes ends a name, and it stops at the end of input or at a byte
/// that does. So an anchor or alias holds its entire name.
pub open spec fn name_run(sp: Span, src: Seq<u8>) -> bool {
    &&& forall|k: int| sp.start < k < sp.end ==> !ends_name(#[trigger] src[k])
    &&& (sp.end == src.len() || ends_name(src[sp.end as int]))
}

/// A name is fixed by where it starts: two whole names that start at the
/// same offset end at the same offset. So an anchor or alias that holds its
/// entire name, as `name_run` says, cannot be cut short or run on.
pub proof fn lemma_name_run_unique(a: Span, b: Span, src: Seq<u8>)
    requires
        name_run(a, src),
        name_run(b, src),
        a.start == b.start,
        a.start < a.end <= src.len(),
        b.start < b.end <= src.len(),
    ensures
        a.end == b.end,
{
    if a.end < b.end {
        assert(!ends_name(src[a.end as int]));
    } else if b.end < a.end {
        assert(!ends_name(src[b.end as int]));
    }
}

/// After its `!`, the text of a tag holds no blank, line break or NUL, and
/// the tag stops at the end of input or at a byte that ends a name: no part
/// of the tag is left outside its span.
pub open spec fn tag_run(sp: Span, src: Seq<u8>) -> bool {
    &&& forall|k: int| sp.start < k < sp.end ==> !is_space(#[trigger] src[k])
    &&& (sp.end == src.len() || ends_name(src[sp.end as int]))
}

/// A line break, or the NUL that ends input.
pub open spec fn is_line_end(b: u8) -> bool {
    b == 0x0Au8 || b == 0x0Du8 || b == 0u8
}

/// Both ends of `sp` fall between characters of the source, so that the
/// span can be sliced out of it.
pub open spec fn on_chars(sp: Span, src: Seq<u8>) -> bool {
    &&& is_char_boundary(src, sp.start as int)
    &&& is_char_boundary(src, sp.end as int)
}

/// `sp` is a nonempty span of the source whose first byte is `c`.
pub open spec fn starts_with(sp: Span, src: Seq<u8>, c: u8) -> bool {
    &&& sp.start < sp.end
    &&& sp.end <= src.len()
    &&& src[sp.start as int] == c
}

/// `sp` covers a three-byte document marker `ccc`.
pub open spec fn is_marker(sp: Span, src: Seq<u8>, c: u8) -> bool {
    &&& sp.end == sp.start + 3
    &&& sp.end <= src.len()
    &&& src[sp.start as int] == c
    &&& src[sp.start + 1] == c
    &&& src[sp.start + 2] == c
}

/// A comment covers a `#` and the rest of its line, up to (excluding) the
/// line break or the end of input.
pub open spec fn comment_ok(c: Comment, src: Seq<u8>) -> bool {
    &&& starts_with(c.span, src, 0x23u8)
    &&& on_chars(c.span, src)
    &&& forall|k: int| c.span.start <= k < c.span.end ==> !is_line_end(#[trigger] src[k])
    &&& (c.span.end == src.len() || is_line_end(src[c.span.end as int]))
}

impl Props {
    /// The end of the last property, if any.
    pub open spec fn last_end(self) -> Option<u32> {
        match (self.anchor, self.tag) {
            (Some(a), Some(t)) => Some(if a.span.end >= t.span.end { a.span.end } else { t.span.end }),
            (Some(a), None) => Some(a.span.end),
            (None, Some(t)) => Some(t.span.end),
            (None, None) => None,
        }
    }
}

/// An anchor is `&` and a name, a tag starts with `!`, and the two do not
/// overlap.
pub open spec fn props_ok(p: Props, src: Seq<u8>) -> bool {
    &&& (p.anchor matches Some(a) ==> starts_with(a.span, src, 0x26u8) && a.span.start + 2 <= a.span.end
        && on_chars(a.span, src) && name_run(a.span, src))
    &&& (p.tag matches Some(t) ==> starts_with(t.span, src, 0x21u8) && on_chars(t.span, src) && tag_run(t.span, src))
    &&& match (p.anchor, p.tag) {
        (Some(a), Some(t)) => a.span.end <= t.span.start || t.span.end <= a.span.start,
        _ => true,
    }
}

impl FlowSequenceEntry {
    /// The span of the entry, whatever its kind.
    pub open spec fn spec_span(self) -> Span {
        match self {
            FlowSequenceEntry::Item(n) => n.span,
            FlowSequenceEntry::Pair(p) => p.span,
        }
    }
}

/// A quoted scalar's span covers its text and both quotes.
pub open spec fn quoted_ok(sp: Span, src: Seq<u8>, q: u8) -> bool {
    &&& sp.start + 2 <= sp.end
    &&& sp.end <= src.len()
    &&& src[sp.start as int] == q
    &&& src[sp.end - 1] == q
}

/// A block scalar's span starts at its indicator `c`; its content lies
/// after the header line and inside the span.
pub open spec fn block_scalar_ok(b: BlockScalar, src: Seq<u8>, c: u8) -> bool {
    &&& starts_with(b.span, src, c)
    &&& b.span.start < b.content_start
    &&& b.content_start <= b.content_end
    &&& b.content_end <= b.span.end
    &&& is_char_boundary(src, b.content_start as int)
    &&& is_char_boundary(src, b.content_end as int)
}

/// A node's span runs from its first property (or its content) to the end
/// of its content; the properties precede the content, and all of them lie
/// inside the node.
pub open spec fn node_ok(n: Node, src: Seq<u8>) -> bool
    decreases n,
{
    let c = n.content.spec_span();
    &&& on_chars(n.span, src)
    &&& n.span.start == (match n.props.first_start() {
        Some(s) => s,
        None => c.start,
    })
    &&& n.span.end == c.end
    &&& c.inside(n.span)
    &&& (n.props.anchor matches Some(a) ==> a.span.inside(n.span))
    &&& (n.props.tag matches Some(t) ==> t.span.inside(n.span))
    &&& (n.props.last_end() matches Some(e) ==> e <= c.start)
    &&& props_ok(n.props, src)
    &&& content_ok(n.content, src)
}

/// A content node is well formed: a plain scalar does not end in
/// whitespace, quoted scalars include their quotes, and containers hold
/// well formed children inside their span, in source order.
pub open spec fn content_ok(c: Content, src: Seq<u8>) -> bool
    decreases c,
{
    &&& on_chars(c.spec_span(), src)
    &&& match c {
        Content::Plain(p) => {
            &&& p.span.start <= p.span.end
            &&& p.span.end <= src.len()
            &&& (p.span.start < p.span.end ==> !is_space(src[p.span.end - 1]))
        },
        Content::QuoteSingle(q) => quoted_ok(q.span, src, 0x27u8),
        Content::QuoteDouble(q) => quoted_ok(q.span, src, 0x22u8),
        Content::BlockLiteral(b) => block_scalar_ok(*b, src, 0x7Cu8),
        Content::BlockFolded(b) => block_scalar_ok(*b, src, 0x3Eu8),
        Content::Alias(a) => starts_with(a.span, src, 0x2Au8) && a.span.start + 2 <= a.span.end && name_run(a.span, src),
        Content::Mapping(m) => {
            &&& m.span.start <= m.span.end
            &&& m.span.end <= src.len()
            &&& forall|i: int| 0 <= i < m.children@.len() ==> (#[trigger] m.children@[i]).span.inside(m.span)
                && mapping_item_ok(m.children@[i], src)
            &&& forall|i: int, j: int| 0 <= i < j < m.children@.len()
                ==> (#[trigger] m.children@[i]).span.end <= (#[trigger] m.children@[j]).span.start
        },
        Content::FlowMapping(m) => {
            &&& m.span.start <= m.span.end
            &&& m.span.end <= src.len()
            &&& forall|i: int| 0 <= i < m.children@.len() ==> (#[trigger] m.children@[i]).span.inside(m.span)
                && mapping_item_ok(m.children@[i], src)
            &&& forall|i: int, j: int| 0 <= i < j < m.children@.len()
                ==> (#[trigger] m.children@[i]).span.end <= (#[trigger] m.children@[j]).span.start
        },
        Content::Sequence(s) => {
            &&& s.span.start <= s.span.end
            &&& s.span.end <= src.len()
            &&& forall|i: int| 0 <= i < s.children@.len() ==> (#[trigger] s.children@[i]).span.inside(s.span)
                && sequence_item_ok(s.children@[i], src)
            &&& forall|i: int, j: int| 0 <= i < j < s.children@.len()
                ==> (#[trigger] s.children@[i]).span.end <= (#[trigger] s.children@[j]).span.start
        },
        Content::FlowSequence(f) => {
            &&& starts_with(f.span, src, 0x5Bu8)
            &&& src[f.span.end - 1] == 0x5Du8
            &&& forall|i: int| 0 <= i < f.children@.len() ==> (#[trigger] f.children@[i]).spec_span().inside(f.span)
                && flow_entry_ok(f.children@[i], src)
            &&& forall|i: int, j: int| 0 <= i < j < f.children@.len()
                ==> (#[trigger] f.children@[i]).spec_span().end <= (#[trigger] f.children@[j]).spec_span().start
        },
    }
}

/// A pair: the key (when present) precedes the value (when present), both
/// inside the pair, which runs from the first to the last of them.
pub open spec fn mapping_item_ok(it: MappingItem, src: Seq<u8>) -> bool
    decreases it,
{
    &&& it.span.start <= it.span.end
    &&& it.span.end <= src.len()
    &&& on_chars(it.span, src)
    &&& match (it.key, it.value) {
        (Some(k), Some(v)) => {
            &&& k.span.inside(it.span)
            &&& v.span.inside(it.span)
            &&& it.span.start == k.span.start
            &&& it.span.end == v.span.end
            &&& k.span.end <= v.span.start
        },
        (Some(k), None) => it.span == k.span,
        (None, Some(v)) => it.span == v.span,
        (None, None) => it.span.start == it.span.end,
    }
    &&& match it.key {
        Some(k) => on_chars(k.span, src) && match k.content {
            Some(n) => {
                &&& n.span.inside(k.span)
                &&& k.span.end == n.span.end
                &&& (k.explicit ==> starts_with(k.span, src, 0x3Fu8) && k.span.start < n.span.start)
                &&& (!k.explicit ==> k.span == n.span)
                &&& node_ok(*n, src)
            },
            None => k.explicit && starts_with(k.span, src, 0x3Fu8) && k.span.end == k.span.start + 1,
        },
        None => true,
    }
    &&& match it.value {
        Some(v) => {
            &&& starts_with(v.span, src, 0x3Au8)
            &&& on_chars(v.span, src)
            &&& match v.content {
                Some(n) => n.span.inside(v.span) && v.span.start < n.span.start && v.span.end == n.span.end
                    && node_ok(*n, src),
                None => v.span.end == v.span.start + 1,
            }
        },
        None => true,
    }
}

/// `- item`: the entry starts at its `-` and ends with its content.
pub open spec fn sequence_item_ok(si: SequenceItem, src: Seq<u8>) -> bool
    decreases si,
{
    &&& starts_with(si.span, src, 0x2Du8)
    &&& on_chars(si.span, src)
    &&& match si.content {
        Some(n) => n.span.inside(si.span) && si.span.start < n.span.start && si.span.end == n.span.end
            && node_ok(*n, src),
        None => si.span.end == si.span.start + 1,
    }
}

/// An entry of a flow sequence is a well formed node or pair.
pub open spec fn flow_entry_ok(e: FlowSequenceEntry, src: Seq<u8>) -> bool
    decreases e,
{
    match e {
        FlowSequenceEntry::Item(n) => node_ok(*n, src),
        FlowSequenceEntry::Pair(p) => mapping_item_ok(*p, src),
    }
}

/// ASCII whitespace as `str::split_ascii_whitespace` understands it: space,
/// tab, line feed, form feed and carriage return.
pub open spec fn is_ascii_space(b: u8) -> bool {
    b == 0x20u8 || b == 0x09u8 || b == 0x0Au8 || b == 0x0Cu8 || b == 0x0Du8
}

/// The end of the run of `%` that starts at `i`, stopping at `end`.
pub open spec fn percent_run_end(s: Seq<u8>, i: int, end: int) -> int
    decreases end - i,
{
    if i < end && s[i] == 0x25u8 {
        percent_run_end(s, i + 1, end)
    } else {
        i
    }
}

/// The words (maximal runs of bytes other than ASCII whitespace) of
/// `s[i..end]`, when a word began at `word` (if any) before `i`.
pub open spec fn words_between(s: Seq<u8>, i: int, end: int, word: Option<int>) -> Seq<Seq<u8>>
    decreases end - i,
{
    if i >= end {
        match word {
            Some(a) => seq![s.subrange(a, end)],
            None => seq![],
        }
    } else if is_ascii_space(s[i]) {
        match word {
            Some(a) => seq![s.subrange(a, i)] + words_between(s, i + 1, end, None),
            None => words_between(s, i + 1, end, None),
        }
    } else {
        words_between(s, i + 1, end, if word is Some { word } else { Some(i) })
    }
}

/// The words of the directive spanning `sp`: its text after the leading
/// `%`s, split at ASCII whitespace.
pub open spec fn directive_words(s: Seq<u8>, sp: Span) -> Seq<Seq<u8>> {
    words_between(s, percent_run_end(s, sp.start as int, sp.end as int), sp.end as int, None)
}

/// A directive starts with `%`; its name is the first of its words and
/// its parameters are the others (an empty name when it has none).
pub open spec fn directive_ok(d: Directive, src: Seq<u8>) -> bool {
    let ws = directive_words(src, d.span);
    &&& starts_with(d.span, src, 0x25u8)
    &&& on_chars(d.span, src)
    &&& ws.len() == 0 ==> src_bytes(d.name).len() == 0 && d.parameters@.len() == 0
    &&& ws.len() > 0 ==> {
        &&& src_bytes(d.name) == ws[0]
        &&& d.parameters@.len() == ws.len() - 1
        &&& forall|k: int| 0 <= k < d.parameters@.len() ==> src_bytes(#[trigger] d.parameters@[k]) == ws[k + 1]
    }
}

/// From offset `i` on, the bytes hold nothing but blanks, line breaks, byte
/// order marks and comments (`in_comment`: a comment is running at `i`); a
/// NUL byte ends the input.
pub open spec fn trivia_from(s: Seq<u8>, i: int, in_comment: bool) -> bool
    decreases s.len() - i,
{
    if i < 0 || i >= s.len() {
        true
    } else if s[i] == 0u8 {
        true
    } else if in_comment {
        trivia_from(s, i + 1, !(s[i] == 0x0Au8 || s[i] == 0x0Du8))
    } else if s[i] == 0x20u8 || s[i] == 0x09u8 || s[i] == 0x0Au8 || s[i] == 0x0Du8 {
        trivia_from(s, i + 1, false)
    } else if s[i] == 0x23u8 {
        trivia_from(s, i + 1, true)
    } else if i + 3 <= s.len() && s[i] == 0xEFu8 && s[i + 1] == 0xBBu8 && s[i + 2] == 0xBFu8 {
        trivia_from(s, i + 3, false)
    } else {
        false
    }
}

/// The source holds no content: only whitespace, line breaks, byte order
/// marks and comments.
pub open spec fn is_trivia(s: Seq<u8>) -> bool {
    trivia_from(s, 0, false)
}

/// A document: its head (directives and `---`) precedes its body, both
/// inside the document, which ends with its `...` marker when it has one.
pub open spec fn document_ok(d: Document, src: Seq<u8>) -> bool {
    let ds = d.head.directives@;
    &&& d.span.start <= d.span.end
    &&& d.span.end <= src.len()
    &&& on_chars(d.span, src)
    &&& on_chars(d.head.span, src)
    &&& on_chars(d.body.span, src)
    &&& d.span.start == d.head.span.start
    &&& d.head.span.inside(d.span)
    &&& d.body.span.inside(d.span)
    &&& d.head.span.end <= d.body.span.start
    &&& forall|i: int| 0 <= i < ds.len() ==> (#[trigger] ds[i]).span.inside(d.head.span)
        && directive_ok(ds[i], src)
    &&& forall|i: int, j: int| 0 <= i < j < ds.len() ==> (#[trigger] ds[i]).span.end <= (#[trigger] ds[j]).span.start
    &&& (d.directives_end_marker matches Some(m) ==> m.inside(d.head.span) && m.end == d.head.span.end
        && is_marker(m, src, 0x2Du8) && on_chars(m, src))
    &&& (d.document_end_marker matches Some(m) ==> m.inside(d.span) && d.body.span.end <= m.start
        && m.end == d.span.end && is_marker(m, src, 0x2Eu8) && on_chars(m, src))
    &&& (d.document_end_marker is None ==> d.span.end == d.body.span.end)
    &&& match d.body.content {
        Some(n) => d.body.span == n.span && node_ok(*n, src),
        None => d.body.span.start == d.body.span.end,
    }
}

/// The whole stream: the root spans the source, its documents lie in order
/// inside it, and its comments are exactly `#` runs, in source order.
pub open spec fn root_ok(r: Root, src: Seq<u8>) -> bool {
    let ds = r.children@;
    let cs = r.comments@;
    &&& r.span.start == 0
    &&& r.span.end == src.len()
    &&& on_chars(r.span, src)
    &&& forall|i: int| 0 <= i < ds.len() ==> (#[trigger] ds[i]).span.inside(r.span) && document_ok(ds[i], src)
    &&& forall|i: int, j: int| 0 <= i < j < ds.len() ==> (#[trigger] ds[i]).span.end <= (#[trigger] ds[j]).span.start
    &&& forall|i: int| 0 <= i < cs.len() ==> comment_ok(#[trigger] cs[i], src)
    &&& forall|i: int, j: int| 0 <= i < j < cs.len() ==> (#[trigger] cs[i]).span.end <= (#[trigger] cs[j]).span.start
}

/// Every node of a well formed tree can be sliced out of its source: its
/// span, and its content's span, are in bounds and fall between characters.
pub proof fn lemma_node_slices(n: Node, source: &str)
    requires
        node_ok(n, src_bytes(source)),
    ensures
        n.span.slices(source),
        n.content.spec_span().slices(source),
{
}

/// Every document and every comment of a well formed root can be sliced
/// out of its source, and so can the root's span (the whole source).
pub proof fn lemma_root_slices(r: Root, source: &str)
    requires
        root_ok(r, src_bytes(source)),
    ensures
        r.span.slices(source),
        forall|i: int| 0 <= i < r.children@.len() ==> (#[trigger] r.children@[i]).span.slices(source),
        forall|i: int| 0 <= i < r.comments@.len() ==> (#[trigger] r.comments@[i]).span.slices(source),
{
    assert forall|i: int| 0 <= i < r.children@.len() implies (#[trigger] r.children@[i]).span.slices(source) by {
        assert(document_ok(r.children@[i], src_bytes(source)));
    }
    assert forall|i: int| 0 <= i < r.comments@.len() implies (#[trigger] r.comments@[i]).span.slices(source) by {
        assert(comment_ok(r.comments@[i], src_bytes(source)));
    }
}

} // verus!
