//! Nodes: properties, content, scalars.
use super::{ParseResult, Parser};
use crate::ast::{
    content_ok, props_ok, Alias, Anchor, BlockScalar, Content, Node, Plain, Props, QuoteDouble,
    QuoteSingle, Tag,
};
use crate::error::{Error, ErrorKind};
use crate::pos::Span;
use crate::scanner::{token_ok, BlockHeaderIndex, ScalarStyle, Token, TokenKind};
use vstd::prelude::*;

verus! {

impl<'a> Parser<'a> {
    /// Parse a node (boxed for a node-position field) if the next token can
    /// start one, else `None`. `allow_indentless` also accepts a bare
    /// `BlockEntry` (an indentless sequence, only valid in mapping key/value
    /// position).
    pub(crate) fn parse_optional_node(&mut self, allow_indentless: bool) -> (r: ParseResult<Option<Box<Node>>>)
        requires
            old(self).wf(),
        ensures
            r matches Ok(Some(n)) ==> old(self).parsed_node(&*final(self), *n),
            r matches Ok(None) ==> {
                &&& old(self).follows(&*final(self))
                &&& final(self).consumed_end == old(self).consumed_end
                &&& (old(self).peeked is Some ==> *final(self) == *old(self))
                &&& final(self).peeked is Some
                &&& !final(self).next_kind().spec_starts_node_in(allow_indentless)
            },
            r is Err ==> r->Err_0.located(old(self).src().len()),
            old(self).peeked matches Some(t) ==> (r matches Ok(None) <==> !t.kind.spec_starts_node_in(allow_indentless)),
            old(self).peeked matches Some(t) && !t.kind.spec_starts_node_in(allow_indentless) ==> r is Ok,
            old(self).log_ok(&*final(self)),
            r matches Ok(Some(n)) ==> old(self).covers(&*final(self), n.span.start as int, n.span.end as int),
            r matches Ok(None) ==> final(self).taken@ == old(self).taken@,
        decreases old(self).measure(), 6int,
    {
        let kind = self.peek_kind()?;
        let starts = if allow_indentless {
            kind.starts_mapping_entry_node()
        } else {
            kind.starts_node()
        };
        if starts {
            let node = self.parse_node(allow_indentless)?;
            Ok(Some(Box::new(node)))
        } else {
            Ok(None)
        }
    }

    pub(crate) fn parse_props(&mut self) -> (r: ParseResult<Props>)
        requires
            old(self).wf(),
        ensures
            r matches Ok(p) ==> {
                &&& old(self).follows(&*final(self))
                &&& props_ok(p, final(self).src())
                &&& final(self).peeked is Some
                &&& final(self).next_kind() != TokenKind::Anchor
                &&& final(self).next_kind() != TokenKind::Tag
                &&& (p.anchor matches Some(a) ==> a.span.within(old(self).frontier(), final(self).consumed_end@))
                &&& (p.tag matches Some(t) ==> t.span.within(old(self).frontier(), final(self).consumed_end@))
                &&& (p.last_end() matches Some(e) ==> e == final(self).consumed_end@)
                &&& (p.anchor is None && p.tag is None ==> final(self).consumed_end == old(self).consumed_end)
                &&& (old(self).peeked matches Some(t) && t.kind != TokenKind::Anchor && t.kind != TokenKind::Tag
                    ==> *final(self) == *old(self) && p.anchor is None && p.tag is None)
                &&& (p.anchor is Some || p.tag is Some ==> final(self).measure() < old(self).measure())
                &&& forall|i: int| old(self).taken@.len() <= i < final(self).taken@.len() ==> {
                    ||| (p.anchor matches Some(a) && (#[trigger] final(self).taken@[i]).span == a.span)
                    ||| (p.tag matches Some(g) && final(self).taken@[i].span == g.span)
                }
                &&& (p.anchor is Some || p.tag is Some ==> old(self).taken@.len() < final(self).taken@.len())
            },
            r is Err ==> r->Err_0.located(old(self).src().len()),
            old(self).log_ok(&*final(self)),
    {
        let mut props = Props { anchor: None, tag: None };
        loop
            invariant
                old(self).follows(&*self),
                props_ok(props, self.src()),
                (props.anchor matches Some(a) ==> a.span.within(old(self).frontier(), self.consumed_end@)),
                (props.tag matches Some(t) ==> t.span.within(old(self).frontier(), self.consumed_end@)),
                (props.last_end() matches Some(e) ==> e == self.consumed_end@),
                (props.anchor is None && props.tag is None ==> self.consumed_end == old(self).consumed_end
                    && (old(self).peeked is Some ==> *self == *old(self))),
                (old(self).peeked matches Some(t) && t.kind != TokenKind::Anchor && t.kind != TokenKind::Tag
                    ==> props.anchor is None && props.tag is None),
                (props.anchor is Some || props.tag is Some ==> self.measure() < old(self).measure()),
                forall|i: int| old(self).taken@.len() <= i < self.taken@.len() ==> {
                    ||| (props.anchor matches Some(a) && (#[trigger] self.taken@[i]).span == a.span)
                    ||| (props.tag matches Some(g) && self.taken@[i].span == g.span)
                },
                old(self).log_ok(&*self),
                (props.anchor is Some || props.tag is Some ==> old(self).taken@.len() < self.taken@.len()),
            ensures
                old(self).follows(&*self),
                props_ok(props, self.src()),
                self.peeked is Some,
                self.next_kind() != TokenKind::Anchor,
                self.next_kind() != TokenKind::Tag,
                (props.anchor matches Some(a) ==> a.span.within(old(self).frontier(), self.consumed_end@)),
                (props.tag matches Some(t) ==> t.span.within(old(self).frontier(), self.consumed_end@)),
                (props.last_end() matches Some(e) ==> e == self.consumed_end@),
                (props.anchor is None && props.tag is None ==> self.consumed_end == old(self).consumed_end
                    && (old(self).peeked is Some ==> *self == *old(self))),
                (old(self).peeked matches Some(t) && t.kind != TokenKind::Anchor && t.kind != TokenKind::Tag
                    ==> props.anchor is None && props.tag is None),
                (props.anchor is Some || props.tag is Some ==> self.measure() < old(self).measure()),
                forall|i: int| old(self).taken@.len() <= i < self.taken@.len() ==> {
                    ||| (props.anchor matches Some(a) && (#[trigger] self.taken@[i]).span == a.span)
                    ||| (props.tag matches Some(g) && self.taken@[i].span == g.span)
                },
                old(self).log_ok(&*self),
                (props.anchor is Some || props.tag is Some ==> old(self).taken@.len() < self.taken@.len()),
            decreases self.measure(),
        {
            let kind = self.peek_kind()?;
            if kind == TokenKind::Anchor {
                let token = self.next()?;
                if props.anchor.is_some() {
                    return Err(Error::new(ErrorKind::DuplicatedNodeProperty, token.span));
                }
                props.anchor = Some(Anchor { span: token.span });
            } else if kind == TokenKind::Tag {
                let token = self.next()?;
                if props.tag.is_some() {
                    return Err(Error::new(ErrorKind::DuplicatedNodeProperty, token.span));
                }
                props.tag = Some(Tag { span: token.span });
            } else {
                break;
            }
        }
        Ok(props)
    }

    /// Parse a full node: properties, then the content they apply to.
    /// The node span covers both, so child spans always nest inside it.
    pub(crate) fn parse_node(&mut self, allow_indentless: bool) -> (r: ParseResult<Node>)
        requires
            old(self).wf(),
        ensures
            r matches Ok(n) ==> {
                &&& old(self).parsed_node(&*final(self), n)
                &&& (old(self).peeked matches Some(t) && t.kind == TokenKind::FlowMappingStart
                    ==> n.content is FlowMapping)
                &&& old(self).covers(&*final(self), n.span.start as int, n.span.end as int)
                &&& old(self).taken@.len() < final(self).taken@.len()
            },
            r is Err ==> r->Err_0.located(old(self).src().len()),
            old(self).log_ok(&*final(self)),
        decreases old(self).measure(), 5int,
    {
        let props = self.parse_props()?;
        let content = self.parse_content(&props, allow_indentless)?;
        let content_span = content.span();
        let start = match props.start() {
            Some(s) => s,
            None => content_span.start,
        };
        let span = Span::new(start, content_span.end);
        Ok(Node { span, props, content })
    }

    /// `allow_indentless`: whether a bare `BlockEntry` after the props
    /// starts an indentless sequence. Only mapping key/value position allows
    /// one; in sequence-item position `- !!tag\n- next` is an empty tagged
    /// node followed by the parent's next entry.
    pub(crate) fn parse_content(&mut self, props: &Props, allow_indentless: bool) -> (r: ParseResult<Content>)
        requires
            old(self).wf(),
            props_ok(*props, old(self).src()),
            props.last_end() matches Some(e) ==> e == old(self).consumed_end@,
        ensures
            r matches Ok(c) ==> {
                &&& old(self).follows(&*final(self))
                &&& c.spec_span().within(old(self).consumed_end@, final(self).consumed_end@)
                &&& (props.anchor is None && props.tag is None ==> old(self).frontier() <= c.spec_span().start)
                &&& content_ok(c, final(self).src())
                &&& (final(self).measure() < old(self).measure() || props.anchor is Some || props.tag is Some)
                &&& (old(self).peeked matches Some(t) && t.kind == TokenKind::FlowMappingStart
                    ==> c is FlowMapping)
                &&& old(self).covers(&*final(self), c.spec_span().start as int, c.spec_span().end as int)
                &&& (props.anchor is None && props.tag is None ==> old(self).taken@.len() < final(self).taken@.len())
            },
            r is Err ==> r->Err_0.located(old(self).src().len()),
            old(self).log_ok(&*final(self)),
        decreases old(self).measure(), 4int,
    {
        let token = self.peek()?;
        match token.kind {
            TokenKind::Alias => {
                self.next()?;
                if props.anchor.is_some() || props.tag.is_some() {
                    return Err(Error::new(ErrorKind::DuplicatedNodeProperty, token.span));
                }
                Ok(Content::Alias(Box::new(Alias { span: token.span })))
            },
            TokenKind::Scalar(style, header_index) => {
                self.next()?;
                Ok(self.build_scalar(style, header_index, token.span))
            },
            TokenKind::FlowSequenceStart => self.parse_flow_sequence(),
            TokenKind::FlowMappingStart => self.parse_flow_mapping(),
            TokenKind::BlockSequenceStart => self.parse_block_sequence(),
            TokenKind::BlockMappingStart => self.parse_block_mapping(),
            _ => {
                if token.kind == TokenKind::BlockEntry && allow_indentless {
                    // A `BlockEntry` with no preceding `BlockSequenceStart` is
                    // an indentless sequence (`key:\n- a`).
                    return self.parse_indentless_sequence();
                }
                // Properties with no following content (e.g. `!!str : v`):
                // an empty plain scalar carrying the properties.
                match (props.anchor, props.tag) {
                    (Some(a), Some(t)) => {
                        let at = if a.span.end >= t.span.end { a.span.end } else { t.span.end };
                        Ok(Content::Plain(Box::new(Plain { span: Span::empty(at) })))
                    },
                    (Some(a), None) => Ok(Content::Plain(Box::new(Plain { span: Span::empty(a.span.end) }))),
                    (None, Some(t)) => Ok(Content::Plain(Box::new(Plain { span: Span::empty(t.span.end) }))),
                    (None, None) => Err(Error::new(ErrorKind::ExpectedNode, token.span)),
                }
            },
        }
    }

    /// The content of a scalar token.
    pub(crate) fn build_scalar(&self, style: ScalarStyle, header_index: Option<BlockHeaderIndex>, span: Span) -> (c: Content)
        requires
            self.wf(),
            token_ok(
                (Token { kind: TokenKind::Scalar(style, header_index), span, synthesized: false }),
                self.scanner.block_headers@,
                self.src(),
            ),
        ensures
            content_ok(c, self.src()),
            c.spec_span() == span,
    {
        match style {
            ScalarStyle::Plain => Content::Plain(Box::new(Plain { span })),
            ScalarStyle::SingleQuoted => Content::QuoteSingle(Box::new(QuoteSingle { span })),
            ScalarStyle::DoubleQuoted => Content::QuoteDouble(Box::new(QuoteDouble { span })),
            ScalarStyle::Literal | ScalarStyle::Folded => {
                let index = header_index.unwrap();
                let header = self.scanner.block_headers[index.get()];
                let node = BlockScalar {
                    span,
                    chomping: header.chomping,
                    indent: header.indent,
                    content_start: header.content_start,
                    content_end: header.content_end,
                };
                if style == ScalarStyle::Literal {
                    Content::BlockLiteral(Box::new(node))
                } else {
                    Content::BlockFolded(Box::new(node))
                }
            },
        }
    }
}

} // verus!
