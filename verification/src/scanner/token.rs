//! Tokens handed from the scanner to the parser.
use crate::ast::Chomping;
use crate::pos::Span;
use vstd::prelude::*;

verus! {

#[derive(Clone, Copy, Debug, PartialEq, Eq, Structural)]
pub enum ScalarStyle {
    Plain,
    SingleQuoted,
    DoubleQuoted,
    Literal,
    Folded,
}

/// 1-based index into the scanner's block scalar headers.
#[derive(Clone, Copy, Debug, PartialEq, Eq, Structural)]
pub struct BlockHeaderIndex(u32);

impl BlockHeaderIndex {
    #[verifier::type_invariant]
    spec fn one_based(self) -> bool {
        self.0 >= 1
    }

    /// The zero-based index this value stands for.
    pub closed spec fn index(self) -> nat {
        (self.0 - 1) as nat
    }

    pub(crate) fn new(zero_based: usize) -> (r: Self)
        requires
            zero_based < u32::MAX,
        ensures
            r.index() == zero_based,
    {
        Self(zero_based as u32 + 1)
    }

    pub fn get(self) -> (r: usize)
        ensures
            r == self.index(),
    {
        proof {
            use_type_invariant(&self);
        }
        (self.0 - 1) as usize
    }
}

/// Extra information scanned from a block scalar header, stored out-of-band
/// (indexed by the `Scalar` token) to keep tokens small.
#[derive(Clone, Copy, Debug, PartialEq, Eq, Structural)]
pub struct BlockScalarHeader {
    pub chomping: Chomping,
    /// Explicit indentation indicator digit, if any.
    pub indent: Option<u32>,
    /// Offset right after the header line's line break.
    pub content_start: u32,
    /// Offset right after the last content character (before the trailing break run).
    /// Equals `content_start` when the scalar has no content.
    pub content_end: u32,
}

#[derive(Clone, Copy, Debug, PartialEq, Eq, Structural)]
pub enum TokenKind {
    StreamStart,
    StreamEnd,
    /// `%NAME ...`, uninterpreted. The span excludes any trailing comment.
    Directive,
    /// `---`
    DocumentStart,
    /// `...`
    DocumentEnd,
    BlockSequenceStart,
    BlockMappingStart,
    BlockEnd,
    FlowSequenceStart,
    FlowSequenceEnd,
    FlowMappingStart,
    FlowMappingEnd,
    BlockEntry,
    FlowEntry,
    Key,
    Value,
    Alias,
    Anchor,
    Tag,
    /// A scalar. Block scalars (`Literal`/`Folded`) carry their 1-based index
    /// into the scanner's block headers.
    Scalar(ScalarStyle, Option<BlockHeaderIndex>),
}

impl TokenKind {
    /// Whether a token of this kind can start a node (in any position).
    pub open spec fn spec_starts_node(self) -> bool {
        match self {
            TokenKind::Scalar(..) | TokenKind::Alias | TokenKind::Anchor | TokenKind::Tag
            | TokenKind::FlowSequenceStart | TokenKind::FlowMappingStart
            | TokenKind::BlockSequenceStart | TokenKind::BlockMappingStart => true,
            _ => false,
        }
    }

    /// Whether a token of this kind can start a node; with `indentless`, in
    /// mapping key/value position, where a bare `BlockEntry` also can.
    pub open spec fn spec_starts_node_in(self, indentless: bool) -> bool {
        self.spec_starts_node() || (indentless && self == TokenKind::BlockEntry)
    }

    /// Whether a token of this kind can start a node (in any position).
    pub(crate) fn starts_node(self) -> (r: bool)
        ensures
            r == self.spec_starts_node(),
    {
        match self {
            TokenKind::Scalar(..) | TokenKind::Alias | TokenKind::Anchor | TokenKind::Tag
            | TokenKind::FlowSequenceStart | TokenKind::FlowMappingStart
            | TokenKind::BlockSequenceStart | TokenKind::BlockMappingStart => true,
            _ => false,
        }
    }

    /// Whether a token of this kind can start a node in mapping key/value
    /// position, where a bare `BlockEntry` (an indentless sequence) is also
    /// allowed.
    pub(crate) fn starts_mapping_entry_node(self) -> (r: bool)
        ensures
            r == (self.spec_starts_node() || self == TokenKind::BlockEntry),
    {
        self.starts_node() || self == TokenKind::BlockEntry
    }
}

#[derive(Clone, Copy, Debug)]
pub struct Token {
    pub kind: TokenKind,
    pub span: Span,
    /// `true` for tokens the scanner invents (block/flow structure markers,
    /// retroactively inserted `Key`s, ...) rather than reads from the source.
    pub synthesized: bool,
}

/// The zero-width token the scanner invents at offset `at`.
pub open spec fn synthesized_token(kind: TokenKind, at: int) -> Token {
    Token { kind, span: Span { start: at as u32, end: at as u32 }, synthesized: true }
}

impl Token {
    pub(crate) fn new(kind: TokenKind, span: Span) -> (t: Self)
        ensures
            t.kind == kind,
            t.span == span,
            !t.synthesized,
    {
        Self { kind, span, synthesized: false }
    }

    /// A zero-width token invented by the scanner at the given offset.
    pub(crate) fn synthesized(kind: TokenKind, at: usize) -> (t: Self)
        requires
            at <= u32::MAX,
        ensures
            t.kind == kind,
            t.span.start == at,
            t.span.end == at,
            t.synthesized,
            t == synthesized_token(kind, at as int),
    {
        Self { kind, span: span(at, at), synthesized: true }
    }
}

/// Construct a [`Span`] from byte-offset cursor positions.
pub(crate) fn span(start: usize, end: usize) -> (s: Span)
    requires
        start <= u32::MAX,
        end <= u32::MAX,
    ensures
        s.start == start,
        s.end == end,
{
    Span::new(start as u32, end as u32)
}

} // verus!
