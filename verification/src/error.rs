//! Error management.
use crate::pos::Span;
use crate::text::{append_decimal, decimal};
use vstd::prelude::*;
use vstd::string::StringExecFns;

verus! {

/// A syntax error: what went wrong, and where.
#[derive(Clone, Debug)]
pub struct Error {
    pub kind: ErrorKind,
    pub span: Span,
}

#[derive(Clone, Debug, PartialEq, Eq)]
pub enum ErrorKind {
    /// The source exceeds the maximum supported size (4 GiB).
    SourceTooLong,
    UnexpectedEof,
    /// A control character or other char that cannot appear in a YAML stream.
    InvalidChar,
    /// Tabs used for indentation.
    TabAsIndent,
    /// Directives must be followed by a `---` document start marker.
    ExpectedDocumentStart,
    /// Content found after a document where a new document or EOF was expected.
    ExpectedDocumentEnd,
    /// `&` or `*` with an empty name.
    EmptyAnchorName,
    /// Malformed `!` tag property.
    InvalidTag,
    /// Malformed block scalar header (`|`/`>` + indicators).
    InvalidBlockScalarHeader,
    /// A block scalar's content line is indented less than its detected indentation.
    InvalidBlockScalarIndent,
    UnterminatedFlowScalar,
    /// `,` `[` `]` `{` `}` misplaced in a flow collection.
    UnexpectedFlowIndicator,
    /// A simple key is too long or spans multiple lines.
    InvalidSimpleKey,
    /// `:` or `-` or `?` in a position where a block collection cannot start.
    UnexpectedIndicator,
    /// Mapping value (`:`) in an invalid context.
    UnexpectedValue,
    /// A node was expected but something else was found.
    ExpectedNode,
    /// Two anchors or two tags on the same node, etc.
    DuplicatedNodeProperty,
    /// Generic "unexpected token" during parsing.
    UnexpectedToken(&'static str),
}

impl Error {
    /// The error points into a source of `len` bytes and reports a syntax
    /// error (not an oversized source).
    pub open spec fn located(self, len: nat) -> bool {
        &&& self.span.within(0, len as int)
        &&& !(self.kind is SourceTooLong)
    }
}

/// The human-readable message of an error kind.
pub open spec fn kind_text(kind: ErrorKind) -> Seq<char> {
    match kind {
        ErrorKind::SourceTooLong => "source exceeds the maximum supported size (4 GiB)"@,
        ErrorKind::UnexpectedEof => "unexpected end of input"@,
        ErrorKind::InvalidChar => "invalid character"@,
        ErrorKind::TabAsIndent => "tabs are not allowed as indentation"@,
        ErrorKind::ExpectedDocumentStart => "expected document start marker `---`"@,
        ErrorKind::ExpectedDocumentEnd => "expected the document to end"@,
        ErrorKind::EmptyAnchorName => "anchor or alias name cannot be empty"@,
        ErrorKind::InvalidTag => "invalid tag property"@,
        ErrorKind::InvalidBlockScalarHeader => "invalid block scalar header"@,
        ErrorKind::InvalidBlockScalarIndent => "invalid block scalar indentation"@,
        ErrorKind::UnterminatedFlowScalar => "unterminated quoted scalar"@,
        ErrorKind::UnexpectedFlowIndicator => "unexpected flow collection indicator"@,
        ErrorKind::InvalidSimpleKey => "invalid simple key"@,
        ErrorKind::UnexpectedIndicator => "unexpected indicator"@,
        ErrorKind::UnexpectedValue => "mapping values are not allowed in this context"@,
        ErrorKind::ExpectedNode => "expected a node"@,
        ErrorKind::DuplicatedNodeProperty => "duplicated node property"@,
        ErrorKind::UnexpectedToken(what) => "unexpected "@ + what@,
    }
}

/// The rendering of an error: `<message> at <start>..<end>`.
pub open spec fn error_text(e: Error) -> Seq<char> {
    kind_text(e.kind) + " at "@ + decimal(e.span.start as nat) + ".."@ + decimal(e.span.end as nat)
}

impl Error {
    pub(crate) fn new(kind: ErrorKind, span: Span) -> (e: Self)
        ensures
            e.kind == kind,
            e.span == span,
    {
        Self { kind, span }
    }

    /// An error pointing at a single byte offset.
    pub(crate) fn point(kind: ErrorKind, at: usize) -> (e: Self)
        requires
            at < u32::MAX,
        ensures
            e.kind == kind,
            e.span.start == at,
            e.span.end == at + 1,
    {
        Self { kind, span: Span::new(at as u32, at as u32 + 1) }
    }

    /// The error rendered as text: its message, then ` at <start>..<end>`.
    pub fn message(&self) -> (r: String)
        ensures
            r@ == error_text(*self),
    {
        let mut out = self.kind.message();
        out.append(" at ");
        append_decimal(&mut out, self.span.start);
        out.append("..");
        append_decimal(&mut out, self.span.end);
        out
    }
}

impl ErrorKind {
    /// The human-readable message of this kind of error.
    pub fn message(&self) -> (r: String)
        ensures
            r@ == kind_text(*self),
    {
        let mut out = String::new();
        match self {
            ErrorKind::SourceTooLong => out.append("source exceeds the maximum supported size (4 GiB)"),
            ErrorKind::UnexpectedEof => out.append("unexpected end of input"),
            ErrorKind::InvalidChar => out.append("invalid character"),
            ErrorKind::TabAsIndent => out.append("tabs are not allowed as indentation"),
            ErrorKind::ExpectedDocumentStart => out.append("expected document start marker `---`"),
            ErrorKind::ExpectedDocumentEnd => out.append("expected the document to end"),
            ErrorKind::EmptyAnchorName => out.append("anchor or alias name cannot be empty"),
            ErrorKind::InvalidTag => out.append("invalid tag property"),
            ErrorKind::InvalidBlockScalarHeader => out.append("invalid block scalar header"),
            ErrorKind::InvalidBlockScalarIndent => out.append("invalid block scalar indentation"),
            ErrorKind::UnterminatedFlowScalar => out.append("unterminated quoted scalar"),
            ErrorKind::UnexpectedFlowIndicator => out.append("unexpected flow collection indicator"),
            ErrorKind::InvalidSimpleKey => out.append("invalid simple key"),
            ErrorKind::UnexpectedIndicator => out.append("unexpected indicator"),
            ErrorKind::UnexpectedValue => out.append("mapping values are not allowed in this context"),
            ErrorKind::ExpectedNode => out.append("expected a node"),
            ErrorKind::DuplicatedNodeProperty => out.append("duplicated node property"),
            ErrorKind::UnexpectedToken(what) => {
                out.append("unexpected ");
                out.append(what);
            },
        }
        out
    }
}

} // verus!
