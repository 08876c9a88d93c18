//! The parser: consumes scanner tokens and builds the AST.
//!
//! The scanner already synthesizes `Block*Start`/`BlockEnd` and implicit
//! `FlowMapping*` tokens, so this layer is a recursive descent over a
//! well-structured token stream.
//!
//! Every parse function hands back a tree whose spans lie between the end
//! of the last token consumed before the call and the end of the last token
//! consumed by it. Since tokens come in source order, this is what makes
//! siblings ordered and children nest inside their parents.
use crate::ast::{
    content_ok, document_ok, is_trivia, mapping_item_ok, node_ok, root_ok, sequence_item_ok,
    trivia_from, Comment, Content, Document, MappingItem, Node, Root, SequenceItem,
};
use crate::error::{Error, ErrorKind};
use crate::pos::{src_bytes, Span};
use crate::scanner::{token_ok, Scanner, Token, TokenKind};
use oxc_allocator::Allocator;
use vstd::prelude::*;

mod collection;
mod directive;
mod document;
mod node;

verus! {

/// Declares `oxc_allocator::Allocator` to Verus as an opaque type. Nothing
/// is claimed of it: a parser only holds a reference to the allocator it
/// was created with.
#[verifier::external_type_specification]
#[verifier::external_body]
pub struct ExAllocator(oxc_allocator::Allocator);

pub type ParseResult<T> = Result<T, Error>;

pub struct Parser<'a> {
    pub(crate) allocator: &'a Allocator,
    pub(crate) source: &'a str,
    pub(crate) scanner: Scanner<'a>,
    pub(crate) peeked: Option<Token>,
    /// End offset of the last token the parser consumed.
    pub(crate) consumed_end: Ghost<int>,
    /// The tokens consumed so far, in order.
    pub(crate) taken: Ghost<Seq<Token>>,
}

/// A token read from the source that belongs to the node it is consumed
/// for: not one the scanner invented, and not a `,` between entries.
pub open spec fn anchored(t: Token) -> bool {
    !t.synthesized && t.kind != TokenKind::FlowEntry
}

impl<'a> Parser<'a> {
    /// The bytes of the source being parsed.
    pub closed spec fn source_bytes(&self) -> Seq<u8> {
        src_bytes(self.source)
    }

    /// A parser as [`Parser::new`] makes it: nothing read yet.
    pub closed spec fn is_fresh(&self) -> bool {
        &&& self.scanner.src@ == src_bytes(self.source)
        &&& self.source_bytes().len() <= u32::MAX ==> self.wf()
        &&& self.peeked is None
        &&& !self.scanner.stream_start_produced
        &&& self.scanner.pos == 0
    }

    pub(crate) open spec fn src(&self) -> Seq<u8> {
        self.scanner.src@
    }

    /// A bound on the tokens still to come; every consumed token lowers it.
    pub(crate) open spec fn measure(&self) -> int {
        self.scanner.potential() + if self.peeked is Some { 1int } else { 0int }
    }

    /// Where the tokens still to come begin: the start of the peeked token,
    /// or the end of the last consumed one.
    pub(crate) open spec fn frontier(&self) -> int {
        match self.peeked {
            Some(t) => t.span.start as int,
            None => self.consumed_end@,
        }
    }

    /// The kind of the peeked token.
    pub(crate) open spec fn next_kind(&self) -> TokenKind {
        self.peeked->0.kind
    }

    /// The parser's invariant: the scanner is well formed over the source,
    /// and the peeked token (if any) lies after everything consumed. The
    /// stream end is never consumed: once the scanner produced it, it is
    /// the peeked token.
    pub(crate) open spec fn wf(&self) -> bool {
        &&& self.scanner.wf()
        &&& self.scanner.src@ == src_bytes(self.source)
        &&& 0 <= self.consumed_end@ <= self.scanner.prev_end@
        &&& match self.peeked {
            Some(t) => {
                &&& token_ok(t, self.scanner.block_headers@, self.scanner.src@)
                &&& self.consumed_end@ <= t.span.start
                &&& self.scanner.prev_end@ == t.span.end
                &&& (t.kind == TokenKind::StreamEnd <==> self.scanner.stream_end_produced)
            },
            None => {
                &&& self.scanner.prev_end@ == self.consumed_end@
                &&& !self.scanner.stream_end_produced
            },
        }
    }

    /// `new` is a later state of the same parse: still well formed, over
    /// the same source, with no fewer tokens consumed and no more to come.
    /// `new` consumed the tokens that `self` had consumed and then some: the
    /// first of them, if any, is the token `self` had peeked; with none
    /// consumed, a peeked token is still peeked.
    pub(crate) open spec fn log_ok(&self, new: &Self) -> bool {
        &&& self.taken@.len() <= new.taken@.len()
        &&& forall|i: int| 0 <= i < self.taken@.len() ==> #[trigger] new.taken@[i] == self.taken@[i]
        &&& (self.peeked matches Some(t) ==> {
            &&& (new.taken@.len() > self.taken@.len() ==> new.taken@[self.taken@.len() as int] == t)
            &&& (new.taken@.len() == self.taken@.len() ==> new.peeked == self.peeked)
        })
    }

    /// Every anchored token consumed on the way from `self` to `new` lies
    /// within `lo..hi`.
    pub(crate) open spec fn covers(&self, new: &Self, lo: int, hi: int) -> bool {
        forall|i: int| self.taken@.len() <= i < new.taken@.len() && anchored(#[trigger] new.taken@[i])
            ==> lo <= new.taken@[i].span.start && new.taken@[i].span.end <= hi
    }

    /// No anchored token was consumed on the way from `self` to `new`.
    pub(crate) open spec fn none_anchored(&self, new: &Self) -> bool {
        forall|i: int| self.taken@.len() <= i < new.taken@.len() ==> !anchored(#[trigger] new.taken@[i])
    }

    /// Coverage over two stretches of consumption joins into one.
    pub(crate) proof fn lemma_covers_join(&self, mid: &Self, new: &Self, lo1: int, hi1: int, lo2: int, hi2: int, lo: int, hi: int)
        requires
            self.log_ok(mid),
            mid.log_ok(new),
            self.none_anchored(mid) || (self.covers(mid, lo1, hi1) && lo <= lo1 && hi1 <= hi),
            mid.none_anchored(new) || (mid.covers(new, lo2, hi2) && lo <= lo2 && hi2 <= hi),
        ensures
            self.covers(new, lo, hi),
    {
        assert forall|i: int| self.taken@.len() <= i < new.taken@.len() && anchored(#[trigger] new.taken@[i])
            implies lo <= new.taken@[i].span.start && new.taken@[i].span.end <= hi by {
            if i < mid.taken@.len() {
                assert(new.taken@[i] == mid.taken@[i]);
            }
        }
    }

    /// No anchored token over two stretches is none over both.
    pub(crate) proof fn lemma_none_join(&self, mid: &Self, new: &Self)
        requires
            self.log_ok(mid),
            mid.log_ok(new),
            self.none_anchored(mid),
            mid.none_anchored(new),
        ensures
            self.none_anchored(new),
    {
        assert forall|i: int| self.taken@.len() <= i < new.taken@.len() implies !anchored(#[trigger] new.taken@[i]) by {
            if i < mid.taken@.len() {
                assert(new.taken@[i] == mid.taken@[i]);
            }
        }
    }

    /// Consumption from `self` to `mid` and from `mid` to `new` composes.
    pub(crate) proof fn lemma_log_trans(&self, mid: &Self, new: &Self)
        requires
            self.log_ok(mid),
            mid.log_ok(new),
        ensures
            self.log_ok(new),
    {
        if self.peeked is Some && new.taken@.len() > self.taken@.len() && mid.taken@.len() > self.taken@.len() {
            assert(new.taken@[self.taken@.len() as int] == mid.taken@[self.taken@.len() as int]);
        }
    }

    pub(crate) open spec fn follows(&self, new: &Self) -> bool {
        &&& new.wf()
        &&& new.source == self.source
        &&& new.scanner.src@ == self.scanner.src@
        &&& self.consumed_end@ <= new.consumed_end@
        &&& self.frontier() <= new.frontier()
        &&& new.measure() <= self.measure()
    }

    /// `t` is a token consumed on the way from `self` to `new`: it lies after
    /// everything consumed before and ends where consumption now stands.
    pub(crate) open spec fn took(&self, new: &Self, t: Token) -> bool {
        &&& self.follows(new)
        &&& new.peeked is None
        &&& token_ok(t, new.scanner.block_headers@, new.scanner.src@)
        &&& self.frontier() <= t.span.start
        &&& new.consumed_end@ == t.span.end
        &&& new.measure() < self.measure()
        &&& t.kind != TokenKind::StreamEnd
    }

    /// `n` was parsed on the way from `self` to `new`: its span lies
    /// between what was consumed before and what is consumed now.
    pub(crate) open spec fn parsed_node(&self, new: &Self, n: Node) -> bool {
        &&& self.follows(new)
        &&& new.measure() < self.measure()
        &&& n.span.within(self.frontier(), new.consumed_end@)
        &&& node_ok(n, new.src())
    }

    pub(crate) open spec fn parsed_content(&self, new: &Self, c: Content) -> bool {
        &&& self.follows(new)
        &&& new.measure() < self.measure()
        &&& c.spec_span().within(self.frontier(), new.consumed_end@)
        &&& content_ok(c, new.src())
    }

    pub(crate) open spec fn parsed_pair(&self, new: &Self, it: MappingItem) -> bool {
        &&& self.follows(new)
        &&& new.measure() < self.measure()
        &&& it.span.within(self.frontier(), new.consumed_end@)
        &&& mapping_item_ok(it, new.src())
    }

    pub(crate) open spec fn parsed_entry(&self, new: &Self, si: SequenceItem) -> bool {
        &&& self.follows(new)
        &&& new.measure() < self.measure()
        &&& si.span.within(self.frontier(), new.consumed_end@)
        &&& sequence_item_ok(si, new.src())
    }

    /// A parser over `source`, tied to `allocator`.
    pub fn new(allocator: &'a Allocator, source: &'a str) -> (p: Self)
        ensures
            p.is_fresh(),
            p.source_bytes() == src_bytes(source),
    {
        Self {
            allocator,
            source,
            scanner: Scanner::new(source),
            peeked: None,
            consumed_end: Ghost(0),
            taken: Ghost(Seq::empty()),
        }
    }

    /// Parse the source into a [`Root`].
    ///
    /// Fails with the first syntax error encountered; no partial tree is
    /// produced. A source of more than `u32::MAX` bytes is rejected up
    /// front.
    pub fn parse(self) -> (r: ParseResult<Root<'a>>)
        requires
            self.is_fresh(),
        ensures
            r matches Ok(root) ==> root_ok(root, self.source_bytes()),
            (r is Err && r->Err_0.kind is SourceTooLong) <==> self.source_bytes().len() > u32::MAX,
            r is Err && r->Err_0.kind is SourceTooLong ==> r->Err_0.span.start == 0 && r->Err_0.span.end == 0,
            r is Err && !(r->Err_0.kind is SourceTooLong) ==> r->Err_0.located(self.source_bytes().len()),
            self.source_bytes().len() <= u32::MAX && is_trivia(self.source_bytes())
                ==> (r matches Ok(root) && root.children@.len() == 0),
    {
        let mut p = self;
        let len = p.source.as_bytes().len();
        if len > 0xFFFF_FFFFusize {
            return Err(Error::new(ErrorKind::SourceTooLong, Span::empty(0)));
        }
        let source_len = len as u32;
        let ghost fresh = self;

        p.next()?;

        let ghost trivia = is_trivia(self.source_bytes());
        let mut children: Vec<Document<'a>> = Vec::new();
        loop
            invariant_except_break
                trivia ==> {
                    &&& p.peeked is None
                    &&& p.scanner.stream_start_produced
                    &&& p.scanner.idle()
                    &&& p.scanner.pos == 0
                },
            invariant
                trivia == is_trivia(self.source_bytes()),
                trivia ==> children@.len() == 0,
                p.wf(),
                p.source == fresh.source,
                fresh.source_bytes() == self.source_bytes(),
                p.src() == self.source_bytes(),
                p.src().len() == source_len,
                forall|i: int| 0 <= i < children@.len() ==> (#[trigger] children@[i]).span.within(0, p.consumed_end@)
                    && document_ok(children@[i], p.src()),
                forall|i: int, j: int| 0 <= i < j < children@.len() ==> (#[trigger] children@[i]).span.end <= (#[trigger] children@[j]).span.start,
            decreases p.measure(),
        {
            if p.peek()?.kind == TokenKind::StreamEnd {
                break;
            }
            children.push(p.parse_document()?);
        }

        // The scanner collected the comments as it went; move them out.
        let mut comments: Vec<Comment> = Vec::new();
        std::mem::swap(&mut comments, &mut p.scanner.comments);

        proof {
            vstd::utf8::is_char_boundary_start_end_of_seq(p.src());
        }
        Ok(Root { span: Span::new(0, source_len), children, comments })
    }

    /// Consume the next token: the peeked one, or else the first token of
    /// the stream.
    pub(crate) fn next(&mut self) -> (r: ParseResult<Token>)
        requires
            old(self).wf(),
            old(self).peeked matches Some(t) ==> t.kind != TokenKind::StreamEnd,
            old(self).peeked is None ==> !old(self).scanner.stream_start_produced,
        ensures
            r matches Ok(t) ==> {
                &&& old(self).took(&*final(self), t)
                &&& (old(self).peeked matches Some(p) ==> t == p)
                &&& (old(self).peeked is None ==> {
                    &&& final(self).scanner.stream_start_produced
                    &&& final(self).scanner.idle()
                    &&& final(self).scanner.pos == old(self).scanner.pos
                })
            },
            r is Err ==> r->Err_0.located(old(self).src().len()),
            old(self).peeked is None ==> r is Ok,
            old(self).log_ok(&*final(self)),
            r matches Ok(t) ==> final(self).taken@ == old(self).taken@.push(t),
            r is Err ==> final(self).taken@ == old(self).taken@,
    {
        match self.peeked.take() {
            Some(t) => {
                self.consumed_end = Ghost(t.span.end as int);
                self.taken = Ghost(self.taken@.push(t));
                Ok(t)
            },
            None => {
                match self.scanner.next_token()? {
                    Some(t) => {
                        self.consumed_end = Ghost(t.span.end as int);
                        self.taken = Ghost(self.taken@.push(t));
                        Ok(t)
                    },
                    None => {
                        let len = self.source.as_bytes().len();
                        Err(Error::point(ErrorKind::UnexpectedEof, if len > 0 { len - 1 } else { 0 }))
                    },
                }
            },
        }
    }

    /// The next token, without consuming it.
    pub(crate) fn peek(&mut self) -> (r: ParseResult<Token>)
        requires
            old(self).wf(),
        ensures
            r matches Ok(t) ==> {
                &&& old(self).follows(&*final(self))
                &&& final(self).peeked == Some(t)
                &&& final(self).consumed_end == old(self).consumed_end
                &&& (old(self).peeked is Some ==> *final(self) == *old(self))
            },
            r is Err ==> r->Err_0.located(old(self).src().len()),
            old(self).peeked matches Some(t) ==> r matches Ok(u) && u == t,
            old(self).peeked is None && old(self).scanner.stream_start_produced && old(self).scanner.idle()
                && trivia_from(old(self).src(), old(self).scanner.pos as int, false)
                ==> (r matches Ok(t) && t.kind == TokenKind::StreamEnd),
            final(self).taken@ == old(self).taken@,
            old(self).peeked is Some ==> final(self).peeked == old(self).peeked,
    {
        match self.peeked {
            Some(t) => Ok(t),
            None => {
                match self.scanner.next_token()? {
                    Some(t) => {
                        self.peeked = Some(t);
                        Ok(t)
                    },
                    None => {
                        let len = self.source.as_bytes().len();
                        Err(Error::point(ErrorKind::UnexpectedEof, if len > 0 { len - 1 } else { 0 }))
                    },
                }
            },
        }
    }

    pub(crate) fn peek_kind(&mut self) -> (r: ParseResult<TokenKind>)
        requires
            old(self).wf(),
        ensures
            r matches Ok(k) ==> {
                &&& old(self).follows(&*final(self))
                &&& final(self).peeked is Some
                &&& final(self).next_kind() == k
                &&& final(self).consumed_end == old(self).consumed_end
                &&& (old(self).peeked is Some ==> *final(self) == *old(self))
            },
            r is Err ==> r->Err_0.located(old(self).src().len()),
            old(self).peeked matches Some(t) ==> r matches Ok(k) && k == t.kind,
            final(self).taken@ == old(self).taken@,
            old(self).peeked is Some ==> final(self).peeked == old(self).peeked,
    {
        Ok(self.peek()?.kind)
    }

    /// Consume the next token if it is of the given kind.
    pub(crate) fn eat(&mut self, kind: TokenKind) -> (r: ParseResult<Option<Token>>)
        requires
            old(self).wf(),
            kind != TokenKind::StreamEnd,
        ensures
            r matches Ok(Some(t)) ==> old(self).took(&*final(self), t) && t.kind == kind,
            r matches Ok(None) ==> {
                &&& old(self).follows(&*final(self))
                &&& final(self).peeked is Some
                &&& final(self).next_kind() != kind
                &&& final(self).consumed_end == old(self).consumed_end
                &&& (old(self).peeked is Some ==> *final(self) == *old(self))
            },
            r is Err ==> r->Err_0.located(old(self).src().len()),
            old(self).log_ok(&*final(self)),
            r matches Ok(Some(t)) ==> final(self).taken@ == old(self).taken@.push(t),
            !(r matches Ok(Some(_))) ==> final(self).taken@ == old(self).taken@,
            old(self).peeked matches Some(t) && t.kind == kind ==> !(r matches Ok(None)),
    {
        if self.peek()?.kind == kind {
            return Ok(Some(self.next()?));
        }
        Ok(None)
    }
}

} // verus!
