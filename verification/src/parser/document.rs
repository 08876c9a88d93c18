//! Documents: directives, markers and the body node.
use super::{ParseResult, Parser};
use crate::ast::{directive_ok, document_ok, Directive, Document, DocumentBody, DocumentHead};
use crate::error::{Error, ErrorKind};
use crate::pos::Span;
use crate::scanner::TokenKind;
use vstd::prelude::*;

verus! {

impl<'a> Parser<'a> {
    /// Parse one document. The next token must not be the stream end.
    #[verifier::rlimit(60)]
    pub(crate) fn parse_document(&mut self) -> (r: ParseResult<Document<'a>>)
        requires
            old(self).wf(),
            old(self).peeked matches Some(t) && t.kind != TokenKind::StreamEnd,
        ensures
            r matches Ok(d) ==> {
                &&& old(self).follows(&*final(self))
                &&& final(self).measure() < old(self).measure()
                &&& d.span.within(old(self).frontier(), final(self).consumed_end@)
                &&& document_ok(d, final(self).src())
                &&& old(self).covers(&*final(self), d.span.start as int, d.span.end as int)
            },
            r is Err ==> r->Err_0.located(old(self).src().len()),
            old(self).log_ok(&*final(self)),
    {
        let head_start = self.peek()?.span.start;
        let ghost entry = *self;
        let mut directives: Vec<Directive<'a>> = Vec::new();
        while self.peek_kind()? == TokenKind::Directive
            invariant
                old(self).follows(&*self),
                entry == *old(self),
                head_start == old(self).frontier(),
                directives@.len() == 0 ==> *self == entry,
                directives@.len() > 0 ==> self.measure() < old(self).measure()
                    && self.consumed_end@ == directives@.last().span.end,
                forall|i: int| 0 <= i < directives@.len() ==> (#[trigger] directives@[i]).span.within(head_start as int, self.consumed_end@)
                    && directive_ok(directives@[i], self.src()),
                forall|i: int, j: int| 0 <= i < j < directives@.len() ==> (#[trigger] directives@[i]).span.end <= (#[trigger] directives@[j]).span.start,
                old(self).log_ok(&*self),
                old(self).covers(&*self, head_start as int, self.consumed_end@),
                directives@.len() == 0 ==> self.taken@ == old(self).taken@,
            decreases self.measure(),
        {
            let ghost before = *self;
            let res = self.next();
            proof {
                old(self).lemma_log_trans(&before, &*self);
            }
            let token = res?;
            proof {
                assert(self.taken@.last() == token);
                old(self).lemma_covers_join(&before, &*self, head_start as int, before.consumed_end@,
                    token.span.start as int, token.span.end as int, head_start as int, self.consumed_end@);
            }
            directives.push(self.build_directive(token));
        }
        let ghost after_dirs = *self;
        let n = directives.len();
        let head_end = if n > 0 { directives[n - 1].span.end } else { head_start };

        let res = self.eat(TokenKind::DocumentStart);
        proof {
            old(self).lemma_log_trans(&after_dirs, &*self);
        }
        let marker = res?;
        proof {
            if let Some(t) = marker {
                assert(self.taken@.last() == t);
            }
            old(self).lemma_covers_join(&after_dirs, &*self, head_start as int, after_dirs.consumed_end@,
                if marker is Some { marker->0.span.start as int } else { 1 },
                if marker is Some { marker->0.span.end as int } else { 0 },
                head_start as int, self.consumed_end@);
        }
        let directives_end_marker = match marker {
            Some(t) => Some(t.span),
            None => None,
        };
        let ghost after_head = *self;
        if n > 0 && directives_end_marker.is_none() {
            return Err(Error::new(ErrorKind::ExpectedDocumentStart, Span::new(head_start, head_end)));
        }

        let head_span_end = match directives_end_marker {
            Some(m) => m.end,
            None => head_end,
        };
        let head = DocumentHead { span: Span::new(head_start, head_span_end), directives };

        let res = self.parse_optional_node(false);
        proof {
            old(self).lemma_log_trans(&after_head, &*self);
        }
        let content = res?;
        let ghost after_body = *self;

        let body_span = match &content {
            Some(node) => node.span,
            None => Span::empty(head_span_end),
        };
        let body = DocumentBody { span: body_span, content };

        let res = self.eat(TokenKind::DocumentEnd);
        proof {
            old(self).lemma_log_trans(&after_body, &*self);
        }
        let end_marker = res?;
        proof {
            if let Some(t) = end_marker {
                assert(self.taken@.last() == t);
            }
        }
        let document_end_marker = match end_marker {
            Some(t) => Some(t.span),
            None => None,
        };
        // Without an explicit `...`, the next document must be introduced by
        // `---` or directives (or the stream must end); after a `...`, a bare
        // document may follow.
        let ghost after_end = *self;
        if document_end_marker.is_none() {
            let res = self.peek_kind();
            proof {
                old(self).lemma_log_trans(&after_end, &*self);
            }
            let kind = res?;
            if !(kind == TokenKind::StreamEnd || kind == TokenKind::DocumentStart || kind == TokenKind::Directive) {
                let ghost b2 = *self;
                let res = self.peek();
                proof {
                    old(self).lemma_log_trans(&b2, &*self);
                }
                let span = res?.span;
                return Err(Error::new(ErrorKind::ExpectedDocumentEnd, span));
            }
        }

        // The head starts the document; the body (or the head) ends it
        // unless a `...` marker follows.
        let span_end = match document_end_marker {
            Some(m) => m.end,
            None => if body.span.end >= head.span.end { body.span.end } else { head.span.end },
        };

        proof {
            let lo = head_start as int;
            let hi = span_end as int;
            old(self).lemma_log_trans(&after_head, &after_body);
            old(self).lemma_covers_join(&after_head, &after_body, lo, after_head.consumed_end@,
                if content is Some { content->0.span.start as int } else { 1 },
                if content is Some { content->0.span.end as int } else { 0 }, lo, hi);
            old(self).lemma_log_trans(&after_body, &after_end);
            old(self).lemma_covers_join(&after_body, &after_end, lo, hi,
                if end_marker is Some { end_marker->0.span.start as int } else { 1 },
                if end_marker is Some { end_marker->0.span.end as int } else { 0 }, lo, hi);
            old(self).lemma_log_trans(&after_end, &*self);
            old(self).lemma_covers_join(&after_end, &*self, lo, hi, 1, 0, lo, hi);
        }
        Ok(
            Document {
                span: Span::new(head_start, span_end),
                head,
                body,
                directives_end_marker,
                document_end_marker,
            },
        )
    }
}

} // verus!
