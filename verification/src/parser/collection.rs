//! Collections: block and flow sequences and mappings, and their entries.
use super::{anchored, ParseResult, Parser};
use crate::scanner::Token;
use crate::ast::{
    mapping_item_ok, sequence_item_ok, flow_entry_ok, Content, FlowMapping, FlowSequence,
    FlowSequenceEntry, Mapping, MappingItem, MappingKey, MappingValue, Sequence, SequenceItem,
};
use crate::error::{Error, ErrorKind};
use crate::pos::Span;
use crate::scanner::TokenKind;
use vstd::prelude::*;

verus! {

/// Span of a container from its (possibly empty) start token and the spans
/// of its first and last children (children are in source order).
pub(crate) fn container_span(start: Span, first: Option<Span>, last: Option<Span>) -> (r: Span)
    ensures
        r.start == (match first {
            Some(f) => if f.start <= start.start { f.start } else { start.start },
            None => start.start,
        }),
        r.end == (match last {
            Some(l) => if l.end >= start.end { l.end } else { start.end },
            None => start.end,
        }),
{
    let start_pos = match first {
        Some(f) => if f.start <= start.start { f.start } else { start.start },
        None => start.start,
    };
    let end_pos = match last {
        Some(l) => if l.end >= start.end { l.end } else { start.end },
        None => start.end,
    };
    Span::new(start_pos, end_pos)
}

/// Where a flow mapping that starts at `start` and holds `items` begins.
pub open spec fn items_lo(start: Span, items: Seq<MappingItem>) -> int {
    if items.len() > 0 && items[0].span.start <= start.start { items[0].span.start as int } else { start.start as int }
}

/// Where a flow mapping that starts at `start` and holds `items` ends.
pub open spec fn items_hi(start: Span, items: Seq<MappingItem>) -> int {
    if items.len() > 0 && items.last().span.end >= start.end { items.last().span.end as int } else { start.end as int }
}

/// Every anchored token from index `from` of `taken` on lies within the
/// span of one of the entries: no `-` or content of the source is left out
/// of them.
pub open spec fn entries_cover(from: int, taken: Seq<Token>, items: Seq<SequenceItem>) -> bool {
    forall|i: int| from <= i < taken.len() && anchored(#[trigger] taken[i]) ==> exists|j: int|
        0 <= j < items.len() && (#[trigger] items[j]).span.start <= taken[i].span.start
            && taken[i].span.end <= items[j].span.end
}

/// Each entry starts where a `-` taken from index `from` of `taken` on
/// starts: no entry is made up, and none starts anywhere but at its dash.
#[verifier::opaque]
pub open spec fn entries_at_dashes(from: int, taken: Seq<Token>, items: Seq<SequenceItem>) -> bool {
    forall|j: int| 0 <= j < items.len() ==> exists|k: int|
        from <= k < taken.len() && (#[trigger] taken[k]).kind == TokenKind::BlockEntry
            && taken[k].span.start == (#[trigger] items[j]).span.start
}

/// No entries: none is out of place.
proof fn lemma_dashes_none(from: int, taken: Seq<Token>)
    ensures
        entries_at_dashes(from, taken, Seq::<SequenceItem>::empty()),
{
    reveal(entries_at_dashes);
}

/// Taking more tokens keeps every entry at its dash.
proof fn lemma_dashes_extend(from: int, a: Seq<Token>, b: Seq<Token>, items: Seq<SequenceItem>)
    requires
        0 <= from,
        entries_at_dashes(from, a, items),
        a.len() <= b.len(),
        forall|i: int| 0 <= i < a.len() ==> #[trigger] b[i] == a[i],
    ensures
        entries_at_dashes(from, b, items),
{
    reveal(entries_at_dashes);
    assert forall|j: int| 0 <= j < items.len() implies exists|k: int|
        from <= k < b.len() && (#[trigger] b[k]).kind == TokenKind::BlockEntry
            && b[k].span.start == (#[trigger] items[j]).span.start by {
        let k = choose|k: int| from <= k < a.len() && (#[trigger] a[k]).kind == TokenKind::BlockEntry
            && a[k].span.start == items[j].span.start;
        assert(b[k] == a[k]);
    }
}

/// An entry that starts at the `-` taken first while it was parsed keeps
/// every entry at its dash.
proof fn lemma_dashes_push(from: int, a: Seq<Token>, b: Seq<Token>, items: Seq<SequenceItem>, it: SequenceItem)
    requires
        0 <= from <= a.len(),
        entries_at_dashes(from, a, items),
        a.len() < b.len(),
        forall|i: int| 0 <= i < a.len() ==> #[trigger] b[i] == a[i],
        b[a.len() as int].kind == TokenKind::BlockEntry,
        b[a.len() as int].span.start == it.span.start,
    ensures
        entries_at_dashes(from, b, items.push(it)),
{
    reveal(entries_at_dashes);
    let its = items.push(it);
    assert forall|j: int| 0 <= j < its.len() implies exists|k: int|
        from <= k < b.len() && (#[trigger] b[k]).kind == TokenKind::BlockEntry
            && b[k].span.start == (#[trigger] its[j]).span.start by {
        if j < items.len() {
            assert(its[j] == items[j]);
            let k = choose|k: int| from <= k < a.len() && (#[trigger] a[k]).kind == TokenKind::BlockEntry
                && a[k].span.start == items[j].span.start;
            assert(b[k] == a[k]);
        } else {
            assert(its[j] == it);
            assert(b[a.len() as int].kind == TokenKind::BlockEntry);
        }
    }
}

/// Taking tokens that are not anchored keeps the entries covering.
proof fn lemma_entries_cover_extend(from: int, a: Seq<Token>, b: Seq<Token>, items: Seq<SequenceItem>)
    requires
        0 <= from,
        entries_cover(from, a, items),
        a.len() <= b.len(),
        forall|i: int| 0 <= i < a.len() ==> #[trigger] b[i] == a[i],
        forall|i: int| a.len() <= i < b.len() ==> !anchored(#[trigger] b[i]),
    ensures
        entries_cover(from, b, items),
{
    assert forall|i: int| from <= i < b.len() && anchored(#[trigger] b[i]) implies exists|j: int|
        0 <= j < items.len() && (#[trigger] items[j]).span.start <= b[i].span.start && b[i].span.end <= items[j].span.end by {
        assert(b[i] == a[i]);
    }
}

/// A new entry covers the tokens taken while it was parsed.
proof fn lemma_entries_cover_push(from: int, a: Seq<Token>, b: Seq<Token>, items: Seq<SequenceItem>, it: SequenceItem)
    requires
        0 <= from,
        entries_cover(from, a, items),
        a.len() <= b.len(),
        forall|i: int| 0 <= i < a.len() ==> #[trigger] b[i] == a[i],
        forall|i: int| a.len() <= i < b.len() && anchored(#[trigger] b[i])
            ==> it.span.start <= b[i].span.start && b[i].span.end <= it.span.end,
    ensures
        entries_cover(from, b, items.push(it)),
{
    let its = items.push(it);
    assert forall|i: int| from <= i < b.len() && anchored(#[trigger] b[i]) implies exists|j: int|
        0 <= j < its.len() && (#[trigger] its[j]).span.start <= b[i].span.start && b[i].span.end <= its[j].span.end by {
        if i < a.len() {
            assert(b[i] == a[i]);
            let j = choose|j: int| 0 <= j < items.len() && (#[trigger] items[j]).span.start <= a[i].span.start
                && a[i].span.end <= items[j].span.end;
            assert(its[j] == items[j]);
        } else {
            assert(its[items.len() as int] == it);
        }
    }
}

impl<'a> Parser<'a> {
    /// Once the token after a `[` is known not to be a `]`, it stays so.
    proof fn lemma_second_not_end(old: &Self, mid: &Self, new: &Self, end: TokenKind)
        requires
            mid.log_ok(new),
            mid.taken@.len() >= old.taken@.len() + 1,
            mid.peeked matches Some(t) && t.kind != end,
            mid.taken@.len() > old.taken@.len() + 1 ==> mid.taken@[old.taken@.len() as int + 1].kind != end,
        ensures
            new.taken@.len() >= old.taken@.len() + 1,
            new.taken@.len() > old.taken@.len() + 1 ==> new.taken@[old.taken@.len() as int + 1].kind != end,
    {
        if mid.taken@.len() > old.taken@.len() + 1 {
            assert(new.taken@[old.taken@.len() as int + 1] == mid.taken@[old.taken@.len() as int + 1]);
        }
    }

    /// The entries covering what was taken, and lying inside `sp`, make
    /// `sp` cover it.
    proof fn lemma_entries_cover_span(old: &Self, new: &Self, items: Seq<SequenceItem>, sp: Span)
        requires
            entries_cover(old.taken@.len() as int, new.taken@, items),
            forall|j: int| 0 <= j < items.len() ==> sp.start <= (#[trigger] items[j]).span.start && items[j].span.end <= sp.end,
        ensures
            old.covers(new, sp.start as int, sp.end as int),
    {
        assert forall|i: int| old.taken@.len() <= i < new.taken@.len() && anchored(#[trigger] new.taken@[i])
            implies sp.start <= new.taken@[i].span.start && new.taken@[i].span.end <= sp.end by {
            let j = choose|j: int| 0 <= j < items.len() && (#[trigger] items[j]).span.start <= new.taken@[i].span.start
                && new.taken@[i].span.end <= items[j].span.end;
        }
    }

    /// Parse one `- item`. The next token must be a `BlockEntry`.
    pub(crate) fn parse_sequence_item(&mut self) -> (r: ParseResult<SequenceItem>)
        requires
            old(self).wf(),
            old(self).peeked matches Some(t) && t.kind == TokenKind::BlockEntry,
        ensures
            r matches Ok(si) ==> old(self).parsed_entry(&*final(self), si) && si.span.start == old(self).peeked->0.span.start,
            r is Err ==> r->Err_0.located(old(self).src().len()),
            old(self).log_ok(&*final(self)),
            r is Ok ==> old(self).taken@.len() < final(self).taken@.len(),
            r matches Ok(si) ==> old(self).covers(&*final(self), si.span.start as int, si.span.end as int),
        decreases old(self).measure(), 2int,
    {
        let entry_token = self.next()?;
        let content = self.parse_optional_node(false)?;
        let end = match &content {
            Some(n) => n.span.end,
            None => entry_token.span.end,
        };
        Ok(SequenceItem { span: Span::new(entry_token.span.start, end), content })
    }

    pub(crate) fn parse_block_sequence(&mut self) -> (r: ParseResult<Content>)
        requires
            old(self).wf(),
            old(self).peeked matches Some(t) && t.kind == TokenKind::BlockSequenceStart,
        ensures
            r matches Ok(c) ==> old(self).parsed_content(&*final(self), c),
            r is Err ==> r->Err_0.located(old(self).src().len()),
            old(self).log_ok(&*final(self)),
            r is Ok ==> old(self).taken@.len() < final(self).taken@.len(),
            r matches Ok(c) ==> old(self).covers(&*final(self), c.spec_span().start as int, c.spec_span().end as int),
            r matches Ok(c) ==> c matches Content::Sequence(sq) && entries_cover(old(self).taken@.len() as int, final(self).taken@, sq.children@),
            r matches Ok(c) ==> c matches Content::Sequence(sq) && entries_at_dashes(old(self).taken@.len() as int, final(self).taken@, sq.children@),
        decreases old(self).measure(), 3int,
    {
        let start_token = self.next()?;
        let ghost after_start = *self;
        let mut children: Vec<SequenceItem> = Vec::new();
        proof {
            lemma_dashes_none(old(self).taken@.len() as int, self.taken@);
        }

        loop
            invariant
                after_start.follows(&*self),
                old(self).took(&after_start, start_token),
                forall|i: int| 0 <= i < children@.len() ==> (#[trigger] children@[i]).span.within(start_token.span.end as int, self.consumed_end@)
                    && sequence_item_ok(children@[i], self.src()),
                forall|i: int, j: int| 0 <= i < j < children@.len() ==> (#[trigger] children@[i]).span.end <= (#[trigger] children@[j]).span.start,
                old(self).log_ok(&*self),
                old(self).taken@.len() < self.taken@.len(),
                entries_cover(old(self).taken@.len() as int, self.taken@, children@),
                entries_at_dashes(old(self).taken@.len() as int, self.taken@, children@),
            ensures
                old(self).follows(&*self),
                old(self).took(&after_start, start_token),
                forall|i: int| 0 <= i < children@.len() ==> (#[trigger] children@[i]).span.within(start_token.span.end as int, self.consumed_end@)
                    && sequence_item_ok(children@[i], self.src()),
                forall|i: int, j: int| 0 <= i < j < children@.len() ==> (#[trigger] children@[i]).span.end <= (#[trigger] children@[j]).span.start,
                old(self).log_ok(&*self),
                old(self).taken@.len() < self.taken@.len(),
                entries_cover(old(self).taken@.len() as int, self.taken@, children@),
                entries_at_dashes(old(self).taken@.len() as int, self.taken@, children@),
            decreases self.measure(),
        {
            let kind = self.peek_kind()?;
            let ghost before = *self;
            if kind == TokenKind::BlockEnd {
                self.next()?;
                proof {
                    assert(!anchored(self.taken@.last()));
                    lemma_entries_cover_extend(old(self).taken@.len() as int, before.taken@, self.taken@, children@);
                    lemma_dashes_extend(old(self).taken@.len() as int, before.taken@, self.taken@, children@);
                }
                break;
            } else if kind == TokenKind::BlockEntry {
                let ghost kids = children@;
                let item = self.parse_sequence_item()?;
                children.push(item);
                proof {
                    lemma_entries_cover_push(old(self).taken@.len() as int, before.taken@, self.taken@, kids, item);
                    lemma_dashes_push(old(self).taken@.len() as int, before.taken@, self.taken@, kids, item);
                }
            } else {
                let span = self.peek()?.span;
                return Err(Error::new(ErrorKind::UnexpectedToken("token in sequence"), span));
            }
        }

        let n = children.len();
        let first = if n > 0 { Some(children[0].span) } else { None };
        let last = if n > 0 { Some(children[n - 1].span) } else { None };
        let span = container_span(start_token.span, first, last);
        proof {
            Self::lemma_entries_cover_span(old(self), &*self, children@, span);
        }
        Ok(Content::Sequence(Box::new(Sequence { span, children })))
    }

    /// Parse an indentless sequence: `BlockEntry` items with no enclosing
    /// `BlockSequenceStart`/`BlockEnd` (a sequence at the indentation of its
    /// parent mapping key). Ends at the first token that is not a
    /// `BlockEntry`.
    pub(crate) fn parse_indentless_sequence(&mut self) -> (r: ParseResult<Content>)
        requires
            old(self).wf(),
            old(self).peeked matches Some(t) && t.kind == TokenKind::BlockEntry,
        ensures
            r matches Ok(c) ==> old(self).parsed_content(&*final(self), c),
            r is Err ==> r->Err_0.located(old(self).src().len()),
            old(self).log_ok(&*final(self)),
            r is Ok ==> old(self).taken@.len() < final(self).taken@.len(),
            r matches Ok(c) ==> old(self).covers(&*final(self), c.spec_span().start as int, c.spec_span().end as int),
            r matches Ok(c) ==> c matches Content::Sequence(sq) && entries_cover(old(self).taken@.len() as int, final(self).taken@, sq.children@),
            r matches Ok(c) ==> c matches Content::Sequence(sq) && entries_at_dashes(old(self).taken@.len() as int, final(self).taken@, sq.children@),
        decreases old(self).measure(), 3int,
    {
        let mut children: Vec<SequenceItem> = Vec::new();
        let first = self.peek()?.span;
        let ghost after_peek = *self;
        proof {
            lemma_dashes_none(old(self).taken@.len() as int, self.taken@);
        }

        while self.peek_kind()? == TokenKind::BlockEntry
            invariant
                old(self).follows(&*self),
                old(self).frontier() <= first.start,
                first.start <= first.end,
                after_peek.peeked matches Some(t) && t.kind == TokenKind::BlockEntry && t.span == first,
                children@.len() == 0 ==> *self == after_peek,
                children@.len() > 0 ==> self.measure() < old(self).measure(),
                children@.len() > 0 ==> children@[0].span.start == first.start,
                forall|i: int| 0 <= i < children@.len() ==> (#[trigger] children@[i]).span.within(old(self).frontier(), self.consumed_end@)
                    && sequence_item_ok(children@[i], self.src()),
                forall|i: int, j: int| 0 <= i < j < children@.len() ==> (#[trigger] children@[i]).span.end <= (#[trigger] children@[j]).span.start,
                old(self).log_ok(&*self),
                children@.len() > 0 ==> old(self).taken@.len() < self.taken@.len(),
                entries_cover(old(self).taken@.len() as int, self.taken@, children@),
                entries_at_dashes(old(self).taken@.len() as int, self.taken@, children@),
            decreases self.measure(),
        {
            let ghost before = *self;
            let ghost kids = children@;
            let item = self.parse_sequence_item()?;
            children.push(item);
            proof {
                lemma_entries_cover_push(old(self).taken@.len() as int, before.taken@, self.taken@, kids, item);
                lemma_dashes_push(old(self).taken@.len() as int, before.taken@, self.taken@, kids, item);
            }
        }

        let n = children.len();
        let first_child = if n > 0 { Some(children[0].span) } else { None };
        let last_child = if n > 0 { Some(children[n - 1].span) } else { None };
        let span = container_span(Span::empty(first.start), first_child, last_child);
        proof {
            Self::lemma_entries_cover_span(old(self), &*self, children@, span);
        }
        Ok(Content::Sequence(Box::new(Sequence { span, children })))
    }

    pub(crate) fn parse_block_mapping(&mut self) -> (r: ParseResult<Content>)
        requires
            old(self).wf(),
            old(self).peeked matches Some(t) && t.kind == TokenKind::BlockMappingStart,
        ensures
            r matches Ok(c) ==> old(self).parsed_content(&*final(self), c),
            r is Err ==> r->Err_0.located(old(self).src().len()),
            old(self).log_ok(&*final(self)),
            r is Ok ==> old(self).taken@.len() < final(self).taken@.len(),
            r matches Ok(c) ==> old(self).covers(&*final(self), c.spec_span().start as int, c.spec_span().end as int),
        decreases old(self).measure(), 3int,
    {
        let start_token = self.next()?;
        let ghost after_start = *self;
        let mut children: Vec<MappingItem> = Vec::new();

        loop
            invariant
                after_start.follows(&*self),
                old(self).took(&after_start, start_token),
                forall|i: int| 0 <= i < children@.len() ==> (#[trigger] children@[i]).span.within(start_token.span.end as int, self.consumed_end@)
                    && mapping_item_ok(children@[i], self.src()),
                forall|i: int, j: int| 0 <= i < j < children@.len() ==> (#[trigger] children@[i]).span.end <= (#[trigger] children@[j]).span.start,
                old(self).log_ok(&*self),
                old(self).taken@.len() < self.taken@.len(),
                children@.len() == 0 ==> old(self).none_anchored(&*self),
                children@.len() > 0 ==> old(self).covers(&*self, children@[0].span.start as int, children@.last().span.end as int),
            ensures
                old(self).follows(&*self),
                old(self).took(&after_start, start_token),
                forall|i: int| 0 <= i < children@.len() ==> (#[trigger] children@[i]).span.within(start_token.span.end as int, self.consumed_end@)
                    && mapping_item_ok(children@[i], self.src()),
                forall|i: int, j: int| 0 <= i < j < children@.len() ==> (#[trigger] children@[i]).span.end <= (#[trigger] children@[j]).span.start,
                old(self).log_ok(&*self),
                old(self).taken@.len() < self.taken@.len(),
                children@.len() == 0 ==> old(self).none_anchored(&*self),
                children@.len() > 0 ==> old(self).covers(&*self, children@[0].span.start as int, children@.last().span.end as int),
            decreases self.measure(),
        {
            let kind = self.peek_kind()?;
            let ghost before = *self;
            if kind == TokenKind::BlockEnd {
                self.next()?;
                proof {
                    assert(!anchored(self.taken@.last()));
                    assert(before.none_anchored(&*self));
                    if children@.len() == 0 {
                        old(self).lemma_none_join(&before, &*self);
                    } else {
                        old(self).lemma_covers_join(&before, &*self, children@[0].span.start as int,
                            children@.last().span.end as int, 1, 0, children@[0].span.start as int,
                            children@.last().span.end as int);
                    }
                }
                break;
            } else if kind == TokenKind::Key || kind == TokenKind::Value {
                let ghost kids = children@;
                let item = self.parse_mapping_item()?;
                children.push(item);
                proof {
                    old(self).lemma_covers_join(&before, &*self,
                        if kids.len() > 0 { kids[0].span.start as int } else { 1 },
                        if kids.len() > 0 { kids.last().span.end as int } else { 0 },
                        item.span.start as int, item.span.end as int,
                        children@[0].span.start as int, item.span.end as int);
                }
            } else {
                let span = self.peek()?.span;
                return Err(Error::new(ErrorKind::UnexpectedToken("token in mapping"), span));
            }
        }

        let n = children.len();
        let first = if n > 0 { Some(children[0].span) } else { None };
        let last = if n > 0 { Some(children[n - 1].span) } else { None };
        let span = container_span(start_token.span, first, last);
        Ok(Content::Mapping(Box::new(Mapping { span, children })))
    }

    /// Parse one `key: value` pair (block or flow: the token structure is
    /// the same). The next token must be a `Key` or a `Value`.
    pub(crate) fn parse_mapping_item(&mut self) -> (r: ParseResult<MappingItem>)
        requires
            old(self).wf(),
            old(self).peeked matches Some(t) && (t.kind == TokenKind::Key || t.kind == TokenKind::Value),
        ensures
            r matches Ok(it) ==> old(self).parsed_pair(&*final(self), it),
            r is Err ==> r->Err_0.located(old(self).src().len()),
            old(self).log_ok(&*final(self)),
            r is Ok ==> old(self).taken@.len() < final(self).taken@.len(),
            r matches Ok(it) ==> old(self).covers(&*final(self), it.span.start as int, it.span.end as int),
        decreases old(self).measure(), 2int,
    {
        // A real `Key` token is always a literal `?`; a synthesized one is
        // the scanner's retroactive marker for an implicit `key:`.
        let key_token = self.eat(TokenKind::Key)?;
        let key = match key_token {
            Some(key_token) => {
                let explicit = !key_token.synthesized;
                let content = self.parse_optional_node(true)?;
                match content {
                    Some(node) => {
                        // An explicit key's span starts at the `?` indicator.
                        let start = if explicit { key_token.span.start } else { node.span.start };
                        let span = Span::new(start, node.span.end);
                        Some(MappingKey { span, content: Some(node), explicit })
                    },
                    None => {
                        if explicit {
                            Some(MappingKey { span: key_token.span, content: None, explicit })
                        } else {
                            // A synthesized marker with no content leaves no
                            // trace in the source: no key.
                            None
                        }
                    },
                }
            },
            None => None,
        };

        // The `Value` token is always the literal `:`; the value span starts there.
        let value = match self.eat(TokenKind::Value)? {
            Some(value_token) => {
                let content = self.parse_optional_node(true)?;
                let end = match &content {
                    Some(n) => n.span.end,
                    None => value_token.span.end,
                };
                Some(MappingValue { span: Span::new(value_token.span.start, end), content })
            },
            None => None,
        };

        // Entered at a `Key` or `Value` token, so there is a key, a value,
        // or at least a consumed key token.
        let start = match &key {
            Some(k) => k.span.start,
            None => match &value {
                Some(v) => v.span.start,
                None => key_token.unwrap().span.start,
            },
        };
        let end = match &value {
            Some(v) => v.span.end,
            None => match &key {
                Some(k) => k.span.end,
                None => start,
            },
        };
        Ok(MappingItem { span: Span::new(start, end), key, value })
    }

    #[verifier::rlimit(40)]
    pub(crate) fn parse_flow_sequence(&mut self) -> (r: ParseResult<Content>)
        requires
            old(self).wf(),
            old(self).peeked matches Some(t) && t.kind == TokenKind::FlowSequenceStart,
        ensures
            r matches Ok(c) ==> old(self).parsed_content(&*final(self), c),
            r is Err ==> r->Err_0.located(old(self).src().len()),
            old(self).log_ok(&*final(self)),
            r is Ok ==> old(self).taken@.len() < final(self).taken@.len(),
            r matches Ok(c) ==> old(self).covers(&*final(self), c.spec_span().start as int, c.spec_span().end as int),
            ({
                let n = old(self).taken@.len() as int;
                final(self).taken@.len() > n + 1 && final(self).taken@[n + 1].kind == TokenKind::FlowSequenceEnd
            }) ==> ({
                let n = old(self).taken@.len() as int;
                &&& r matches Ok(c) && c matches Content::FlowSequence(f) && f.children@.len() == 0
                    && f.span.start == old(self).peeked->0.span.start && f.span.end == final(self).taken@[n + 1].span.end
            }),
        decreases old(self).measure(), 3int,
    {
        let start_token = self.next()?;
        let ghost after_start = *self;
        proof {
            assert(self.taken@.last() == start_token);
        }
        let mut children: Vec<FlowSequenceEntry> = Vec::new();

        loop
            invariant
                after_start.follows(&*self),
                start_token.kind == TokenKind::FlowSequenceStart,
                old(self).took(&after_start, start_token),
                forall|i: int| 0 <= i < children@.len() ==> (#[trigger] children@[i]).spec_span().within(start_token.span.end as int, self.consumed_end@)
                    && flow_entry_ok(children@[i], self.src()),
                forall|i: int, j: int| 0 <= i < j < children@.len() ==> (#[trigger] children@[i]).spec_span().end <= (#[trigger] children@[j]).spec_span().start,
                old(self).log_ok(&*self),
                self.taken@.len() >= old(self).taken@.len() + 1,
                children@.len() > 0 ==> self.taken@.len() > old(self).taken@.len() + 1,
                old(self).covers(&*self, start_token.span.start as int, self.consumed_end@),
                self.taken@.len() > old(self).taken@.len() + 1
                    ==> self.taken@[old(self).taken@.len() as int + 1].kind != TokenKind::FlowSequenceEnd,
                old(self).peeked matches Some(t) && t == start_token,
                start_token.span.start <= start_token.span.end,
            decreases self.measure(),
        {
            let ghost top = *self;
            let kind = self.peek_kind()?;
            let ghost before = *self;
            if kind == TokenKind::FlowSequenceEnd {
                let res = self.next();
                proof {
                    old(self).lemma_log_trans(&before, &*self);
                }
                let end_token = res?;
                proof {
                    old(self).lemma_covers_join(&before, &*self, start_token.span.start as int, before.consumed_end@,
                        end_token.span.start as int, end_token.span.end as int, start_token.span.start as int, self.consumed_end@);
                    assert(self.taken@.last() == end_token);
                    if before.taken@.len() > old(self).taken@.len() + 1 {
                        assert(self.taken@[old(self).taken@.len() as int + 1] == before.taken@[old(self).taken@.len() as int + 1]);
                    }
                }
                let span = Span::new(start_token.span.start, end_token.span.end);
                return Ok(Content::FlowSequence(Box::new(FlowSequence { span, children })));
            } else if kind == TokenKind::FlowEntry {
                let res = self.next();
                proof {
                    old(self).lemma_log_trans(&before, &*self);
                    Self::lemma_second_not_end(old(self), &before, &*self, TokenKind::FlowSequenceEnd);
                }
                res?;
                proof {
                    assert(!anchored(self.taken@.last()));
                    old(self).lemma_covers_join(&before, &*self, start_token.span.start as int, before.consumed_end@,
                        1, 0, start_token.span.start as int, self.consumed_end@);
                }
            } else if kind == TokenKind::Key || kind == TokenKind::Value {
                // An explicit pair (`[? a: b]`), or an implicit pair for
                // which the scanner did not synthesize a `FlowMappingStart`.
                let res = self.parse_mapping_item();
                proof {
                    old(self).lemma_log_trans(&before, &*self);
                    Self::lemma_second_not_end(old(self), &before, &*self, TokenKind::FlowSequenceEnd);
                }
                let item = res?;
                proof {
                    old(self).lemma_covers_join(&before, &*self, start_token.span.start as int, before.consumed_end@,
                        item.span.start as int, item.span.end as int, start_token.span.start as int, self.consumed_end@);
                }
                children.push(FlowSequenceEntry::Pair(Box::new(item)));
            } else {
                // An implicit single pair (`[a: b]`) comes as a synthesized
                // `FlowMappingStart` wrapper around it.
                let token = self.peek()?;
                let is_synthesized_pair = token.kind == TokenKind::FlowMappingStart && token.synthesized;
                let res = self.parse_node(false);
                proof {
                    old(self).lemma_log_trans(&before, &*self);
                    Self::lemma_second_not_end(old(self), &before, &*self, TokenKind::FlowSequenceEnd);
                }
                let node = res?;
                proof {
                    old(self).lemma_covers_join(&before, &*self, start_token.span.start as int, before.consumed_end@,
                        node.span.start as int, node.span.end as int, start_token.span.start as int, self.consumed_end@);
                }
                if is_synthesized_pair {
                    match node.content {
                        Content::FlowMapping(mapping) => {
                            let mut mapping = *mapping;
                            if let Some(item) = mapping.children.pop() {
                                children.push(FlowSequenceEntry::Pair(Box::new(item)));
                            }
                        },
                        _ => {
                            // A synthesized `FlowMappingStart` always parses as a flow mapping.
                            assert(false);
                        },
                    }
                } else {
                    children.push(FlowSequenceEntry::Item(Box::new(node)));
                }
            }
        }
    }

    #[verifier::rlimit(40)]
    pub(crate) fn parse_flow_mapping(&mut self) -> (r: ParseResult<Content>)
        requires
            old(self).wf(),
            old(self).peeked matches Some(t) && t.kind == TokenKind::FlowMappingStart,
        ensures
            r matches Ok(c) ==> old(self).parsed_content(&*final(self), c) && c is FlowMapping,
            r is Err ==> r->Err_0.located(old(self).src().len()),
            old(self).log_ok(&*final(self)),
            r is Ok ==> old(self).taken@.len() < final(self).taken@.len(),
            r matches Ok(c) ==> old(self).covers(&*final(self), c.spec_span().start as int, c.spec_span().end as int),
            ({
                let n = old(self).taken@.len() as int;
                final(self).taken@.len() > n + 1 && final(self).taken@[n + 1].kind == TokenKind::FlowMappingEnd
            }) ==> ({
                &&& r matches Ok(c) && c matches Content::FlowMapping(m) && m.children@.len() == 0
            }),
        decreases old(self).measure(), 3int,
    {
        let start_token = self.next()?;
        let ghost after_start = *self;
        proof {
            assert(self.taken@.last() == start_token);
        }
        let mut children: Vec<MappingItem> = Vec::new();

        loop
            invariant
                after_start.follows(&*self),
                old(self).took(&after_start, start_token),
                forall|i: int| 0 <= i < children@.len() ==> (#[trigger] children@[i]).span.within(start_token.span.end as int, self.consumed_end@)
                    && mapping_item_ok(children@[i], self.src()),
                forall|i: int, j: int| 0 <= i < j < children@.len() ==> (#[trigger] children@[i]).span.end <= (#[trigger] children@[j]).span.start,
                old(self).log_ok(&*self),
                old(self).taken@.len() < self.taken@.len(),
                old(self).covers(&*self, start_token.span.start as int, self.consumed_end@),
                old(self).covers(&*self, items_lo(start_token.span, children@), items_hi(start_token.span, children@)),
                old(self).peeked matches Some(t) && t == start_token,
                self.taken@.len() >= old(self).taken@.len() + 1,
                children@.len() > 0 ==> self.taken@.len() > old(self).taken@.len() + 1,
                self.taken@.len() > old(self).taken@.len() + 1
                    ==> self.taken@[old(self).taken@.len() as int + 1].kind != TokenKind::FlowMappingEnd,
            decreases self.measure(),
        {
            let kind = self.peek_kind()?;
            let ghost before = *self;
            let ghost kids = children@;
            if kind == TokenKind::FlowMappingEnd {
                let res = self.next();
                proof {
                    old(self).lemma_log_trans(&before, &*self);
                }
                let end_token = res?;
                proof {
                    assert(self.taken@.last() == end_token);
                    if before.taken@.len() > old(self).taken@.len() + 1 {
                        assert(self.taken@[old(self).taken@.len() as int + 1] == before.taken@[old(self).taken@.len() as int + 1]);
                    }
                    old(self).lemma_covers_join(&before, &*self, start_token.span.start as int, before.consumed_end@,
                        end_token.span.start as int, end_token.span.end as int, start_token.span.start as int, self.consumed_end@);
                    if end_token.synthesized {
                        assert(before.none_anchored(&*self));
                        old(self).lemma_covers_join(&before, &*self, items_lo(start_token.span, kids), items_hi(start_token.span, kids),
                            1, 0, items_lo(start_token.span, kids), items_hi(start_token.span, kids));
                    }
                }
                let span = if end_token.synthesized {
                    // The synthesized end of an implicit mapping.
                    let n = children.len();
                    let first = if n > 0 { Some(children[0].span) } else { None };
                    let last = if n > 0 { Some(children[n - 1].span) } else { None };
                    container_span(start_token.span, first, last)
                } else {
                    Span::new(start_token.span.start, end_token.span.end)
                };
                return Ok(Content::FlowMapping(Box::new(FlowMapping { span, children })));
            } else if kind == TokenKind::FlowEntry {
                let res = self.next();
                proof {
                    old(self).lemma_log_trans(&before, &*self);
                    Self::lemma_second_not_end(old(self), &before, &*self, TokenKind::FlowMappingEnd);
                }
                res?;
                proof {
                    assert(!anchored(self.taken@.last()));
                    assert(before.none_anchored(&*self));
                    old(self).lemma_covers_join(&before, &*self, start_token.span.start as int, before.consumed_end@,
                        1, 0, start_token.span.start as int, self.consumed_end@);
                    old(self).lemma_covers_join(&before, &*self, items_lo(start_token.span, kids), items_hi(start_token.span, kids),
                        1, 0, items_lo(start_token.span, kids), items_hi(start_token.span, kids));
                }
            } else if kind == TokenKind::Key || kind == TokenKind::Value {
                let res = self.parse_mapping_item();
                proof {
                    old(self).lemma_log_trans(&before, &*self);
                    Self::lemma_second_not_end(old(self), &before, &*self, TokenKind::FlowMappingEnd);
                }
                let item = res?;
                children.push(item);
                proof {
                    old(self).lemma_covers_join(&before, &*self, start_token.span.start as int, before.consumed_end@,
                        item.span.start as int, item.span.end as int, start_token.span.start as int, self.consumed_end@);
                    assert(kids.len() > 0 ==> kids.last().span.end <= item.span.start);
                    old(self).lemma_covers_join(&before, &*self, items_lo(start_token.span, kids), items_hi(start_token.span, kids),
                        item.span.start as int, item.span.end as int,
                        items_lo(start_token.span, children@), items_hi(start_token.span, children@));
                }
            } else if kind.starts_node() {
                // A lone node in a flow mapping: `{a}` = `{a: null}`.
                let res = self.parse_node(false);
                proof {
                    old(self).lemma_log_trans(&before, &*self);
                    Self::lemma_second_not_end(old(self), &before, &*self, TokenKind::FlowMappingEnd);
                }
                let node = res?;
                let span = node.span;
                children.push(
                    MappingItem {
                        span,
                        key: Some(MappingKey { span, content: Some(Box::new(node)), explicit: false }),
                        value: None,
                    },
                );
                proof {
                    old(self).lemma_covers_join(&before, &*self, start_token.span.start as int, before.consumed_end@,
                        span.start as int, span.end as int, start_token.span.start as int, self.consumed_end@);
                    assert(kids.len() > 0 ==> kids.last().span.end <= span.start);
                    old(self).lemma_covers_join(&before, &*self, items_lo(start_token.span, kids), items_hi(start_token.span, kids),
                        span.start as int, span.end as int,
                        items_lo(start_token.span, children@), items_hi(start_token.span, children@));
                }
            } else {
                let span = self.peek()?.span;
                return Err(Error::new(ErrorKind::UnexpectedToken("token in flow mapping"), span));
            }
        }
    }
}

} // verus!
