//! Fetching tokens: the dispatch on the next character and the fetches of
//! indicators, anchors, tags and the stream markers.
use super::{
    byte_at, count_inside, is_alpha, is_blank, is_blank_or_breakz, is_break, is_breakz,
    is_flow, keeps, span, token_ok, ByteClass, ImplicitMappingState, ScanResult, Scanner,
    SimpleKey, Token, TokenKind,
};
use super::cursor::tabs_end;
use super::bookkeeping::{one_col_state, roll_opens, roll_state, roll_tokens};
use super::{synthesized_token, Indent};
use crate::pos::Span;
use crate::ast::trivia_from;
use crate::error::{Error, ErrorKind};
use vstd::prelude::*;
use vstd::utf8::is_char_boundary;

verus! {

proof fn lemma_count_inside_push_possible(s: Seq<ImplicitMappingState>)
    ensures
        count_inside(s.push(ImplicitMappingState::Possible)) == count_inside(s),
{
    assert(s.push(ImplicitMappingState::Possible).drop_last() =~= s);
}

proof fn lemma_count_inside_pop(s: Seq<ImplicitMappingState>)
    requires
        s.len() > 0,
    ensures
        count_inside(s.drop_last()) <= count_inside(s),
{
}

impl<'a> Scanner<'a> {
    /// Facts a well formed scanner offers every fetch: a token may be queued
    /// at the cursor, and the queue leaves room for another simple key.
    proof fn lemma_wf_facts(&self)
        requires
            self.wf(),
        ensures
            self.can_append_at(self.pos as int),
            self.tokens_parsed + self.tokens@.len() <= 8 * self.src@.len() + 2,
            self.budget() >= self.tokens@.len(),
    {
        let ks = self.simple_keys@;
        assert forall|i: int| 0 <= i < ks.len() && (#[trigger] ks[i]).possible implies ks[i].pos <= self.pos by {
            assert(self.key_ok(ks[i]));
        }
    }

    /// Queue `StreamStart`.
    pub fn fetch_stream_start(&mut self)
        requires
            old(self).wf(),
            !old(self).stream_start_produced,
        ensures
            final(self).inv(),
            old(self).advances_to(&*final(self)),
            final(self).pos == old(self).pos,
            final(self).stream_start_produced,
            !final(self).stream_end_fetched@,
            final(self).budget() == old(self).budget(),
            final(self).tokens@.len() == 1,
            final(self).tokens@[0].kind == TokenKind::StreamStart,
            forall|i: int| 0 <= i < final(self).simple_keys@.len() ==> !(#[trigger] final(self).simple_keys@[i]).possible,
            final(self).indents@ == old(self).indents@,
    {
        self.indent = -1;
        self.stream_start_produced = true;
        self.simple_key_allowed = true;
        self.tokens.push_back(Token::synthesized(TokenKind::StreamStart, 0));
        self.simple_keys.push(SimpleKey::new());
        proof {
            assert(self.tokens@.len() == 1);
            assert(self.simple_keys@.len() == 1);
        }
    }

    /// Queue `---` or `...`; the cursor is at the marker.
    pub fn fetch_document_indicator(&mut self, kind: TokenKind) -> (r: ScanResult<()>)
        requires
            old(self).wf(),
            old(self).stream_start_produced,
            !old(self).stream_end_fetched@,
            kind == TokenKind::DocumentStart ==> old(self).marker_here(0x2Du8),
            kind == TokenKind::DocumentEnd ==> old(self).marker_here(0x2Eu8),
            kind == TokenKind::DocumentStart || kind == TokenKind::DocumentEnd,
        ensures
            r is Ok ==> old(self).fetched(&*final(self)),
            r is Err ==> r->Err_0.located(old(self).src@.len()),
    {
        proof {
            self.lemma_wf_facts();
        }
        self.unroll_indent(-1);
        self.remove_simple_key()?;
        self.simple_key_allowed = false;

        let start = self.pos;
        proof {
            crate::pos::lemma_ascii_boundaries(self.src@, self.pos + 2);
        }
        self.pos = self.pos + 3;
        self.col = self.col + 3;
        self.leading_whitespace = false;

        self.push_token(Token::new(kind, span(start, self.pos)));
        Ok(())
    }

    /// Queue an anchor (`&name`) or an alias (`*name`).
    pub fn fetch_anchor(&mut self, alias: bool) -> (r: ScanResult<()>)
        requires
            old(self).wf(),
            old(self).stream_start_produced,
            !old(self).stream_end_fetched@,
            old(self).cur() == (if alias { 0x2Au8 } else { 0x26u8 }),
        ensures
            r is Ok ==> old(self).fetched(&*final(self)),
            r is Err ==> r->Err_0.located(old(self).src@.len()),
    {
        proof {
            self.lemma_wf_facts();
        }
        self.save_simple_key();
        self.simple_key_allowed = false;

        let start = self.pos;
        self.bump();
        self.bump_while(ByteClass::Anchor);
        proof {
            let src = self.src@;
            assert forall|k: int| start < k < self.pos implies !crate::ast::ends_name(#[trigger] src[k]) by {
                assert(keeps(ByteClass::Anchor, src[k]));
            }
        }
        if self.pos == start + 1 {
            return Err(self.error(ErrorKind::EmptyAnchorName, start));
        }
        let kind = if alias { TokenKind::Alias } else { TokenKind::Anchor };
        self.push_token(Token::new(kind, span(start, self.pos)));
        Ok(())
    }

    pub fn fetch_tag(&mut self) -> (r: ScanResult<()>)
        requires
            old(self).wf(),
            old(self).stream_start_produced,
            !old(self).stream_end_fetched@,
            old(self).cur() == 0x21u8,
        ensures
            r is Ok ==> old(self).fetched(&*final(self)),
            r is Err ==> r->Err_0.located(old(self).src@.len()),
    {
        proof {
            self.lemma_wf_facts();
        }
        self.save_simple_key();
        self.simple_key_allowed = false;
        let ghost mid = *self;
        let tok = self.scan_tag()?;
        assert(mid.can_append_at(tok.span.start as int));
        self.push_token(tok);
        Ok(())
    }

    /// Scan a tag: `!<uri>`, `!`, `!suffix`, `!!suffix` or `!handle!suffix`.
    pub fn scan_tag(&mut self) -> (r: ScanResult<Token>)
        requires
            old(self).inv(),
            old(self).stream_start_produced,
            !old(self).stream_end_fetched@,
            old(self).cur() == 0x21u8,
        ensures
            r matches Ok(t) ==> {
                &&& old(self).scanned(&*final(self), t)
                &&& t.kind == TokenKind::Tag
                &&& final(self).simple_key_allowed == old(self).simple_key_allowed
            },
            r is Err ==> r->Err_0.located(old(self).src@.len()),
    {
        let start = self.pos;

        if self.peek_nth(1) == 0x3Cu8 {
            // Verbatim tag `!<...>`.
            self.bump();
            self.bump();
            self.bump_while(ByteClass::Uri);
            if self.peek() != 0x3Eu8 {
                return Err(self.error(ErrorKind::InvalidTag, start));
            }
            self.bump();
        } else {
            // `!`, `!suffix`, `!!suffix` or `!handle!suffix`.
            self.bump();
            self.bump_while(ByteClass::Alpha);
            if self.peek() == 0x21u8 {
                // It was a handle; scan the suffix.
                self.bump();
            }
            self.bump_while(ByteClass::TagChar);
        }

        if is_blank_or_breakz(self.peek()) || (self.flow_level > 0 && is_flow(self.peek())) {
            assert(crate::ast::tag_run(crate::pos::Span { start: start as u32, end: self.pos as u32 }, self.src@));
            Ok(Token::new(TokenKind::Tag, span(start, self.pos)))
        } else {
            Err(self.error(ErrorKind::InvalidTag, start))
        }
    }

    /// Queue `[` or `{`.
    pub fn fetch_flow_collection_start(&mut self, kind: TokenKind) -> (r: ScanResult<()>)
        requires
            old(self).wf(),
            old(self).stream_start_produced,
            !old(self).stream_end_fetched@,
            kind == TokenKind::FlowSequenceStart ==> old(self).cur() == 0x5Bu8,
            kind == TokenKind::FlowMappingStart ==> old(self).cur() == 0x7Bu8,
            kind == TokenKind::FlowSequenceStart || kind == TokenKind::FlowMappingStart,
        ensures
            r is Ok ==> old(self).fetched(&*final(self)),
            r is Err ==> r->Err_0.located(old(self).src@.len()),
    {
        proof {
            self.lemma_wf_facts();
        }
        // The indicators '[' and '{' may start a simple key.
        self.save_simple_key();

        self.roll_one_col_indent();
        self.increase_flow_level()?;

        self.simple_key_allowed = true;

        let start = self.pos;
        self.bump();

        if kind == TokenKind::FlowMappingStart {
            self.flow_mapping_started = true;
        } else {
            proof {
                lemma_count_inside_push_possible(self.implicit_flow_mapping_states@);
            }
            self.implicit_flow_mapping_states.push(ImplicitMappingState::Possible);
        }

        let token_end = self.pos;
        self.skip_ws_to_eol(true)?;

        self.push_token(Token::new(kind, span(start, token_end)));
        Ok(())
    }

    /// Queue `]` or `}`.
    pub fn fetch_flow_collection_end(&mut self, kind: TokenKind) -> (r: ScanResult<()>)
        requires
            old(self).wf(),
            old(self).stream_start_produced,
            !old(self).stream_end_fetched@,
            kind == TokenKind::FlowSequenceEnd ==> old(self).cur() == 0x5Du8,
            kind == TokenKind::FlowMappingEnd ==> old(self).cur() == 0x7Du8,
            kind == TokenKind::FlowSequenceEnd || kind == TokenKind::FlowMappingEnd,
        ensures
            r is Ok ==> old(self).fetched(&*final(self)),
            r is Err ==> r->Err_0.located(old(self).src@.len()),
    {
        proof {
            self.lemma_wf_facts();
        }
        self.remove_simple_key()?;
        self.decrease_flow_level();

        self.simple_key_allowed = false;

        if kind == TokenKind::FlowSequenceEnd {
            let at = self.pos;
            self.end_implicit_mapping(at);
            if self.implicit_flow_mapping_states.len() > 0 {
                proof {
                    lemma_count_inside_pop(self.implicit_flow_mapping_states@);
                }
                self.implicit_flow_mapping_states.pop();
            }
        }

        let start = self.pos;
        self.bump();
        let token_end = self.pos;
        self.skip_ws_to_eol(true)?;

        // A flow collection within a flow mapping can be a key. In that case,
        // the value may be adjacent to the `:`, also across comments and
        // line breaks.
        if self.flow_level > 0 {
            self.skip_to_next_token()?;
            self.adjacent_value_allowed_at = self.pos;
        }

        self.push_token(Token::new(kind, span(start, token_end)));
        Ok(())
    }

    /// Queue a `-` block sequence entry.
    pub fn fetch_block_entry(&mut self) -> (r: ScanResult<()>)
        requires
            old(self).wf(),
            old(self).stream_start_produced,
            !old(self).stream_end_fetched@,
            old(self).cur() == 0x2Du8,
        ensures
            r is Ok ==> old(self).fetched(&*final(self)),
            r is Err ==> r->Err_0.located(old(self).src@.len()),
    {
        proof {
            self.lemma_wf_facts();
        }
        if self.flow_level > 0 {
            return Err(self.error(ErrorKind::UnexpectedIndicator, self.pos));
        }
        if !self.simple_key_allowed {
            return Err(self.error(ErrorKind::UnexpectedIndicator, self.pos));
        }

        // An anchor or tag at column 0 cannot apply to a sequence starting at
        // column 0 of the next line.
        let n = self.tokens.len();
        if n > 0 {
            let back = self.tokens[n - 1];
            if (back.kind == TokenKind::Anchor || back.kind == TokenKind::Tag) && self.col == 0
                && self.indent > -1 && span_starts_at_col0(self.src, back.span) {
                assert(token_ok(self.tokens@[n - 1], self.block_headers@, self.src@));
                return Err(Error::new(ErrorKind::UnexpectedIndicator, back.span));
            }
        }

        let start = self.pos;
        let col = self.col;
        self.bump();

        // Generate BLOCK-SEQUENCE-START if indented.
        self.roll_indent(col, None, TokenKind::BlockSequenceStart, start);
        assert(self.can_append_at(start as int));
        let (found_tabs, _) = self.skip_ws_to_eol(true)?;
        assert(self.can_append_at(start as int));
        if found_tabs && self.peek() == 0x2Du8 && is_blank_or_breakz(self.peek_nth(1)) {
            return Err(self.error(ErrorKind::TabAsIndent, self.pos));
        }

        self.skip_ws_to_eol(false)?;
        if is_break(self.peek()) || is_flow(self.peek()) {
            self.roll_one_col_indent();
        }
        assert(self.can_append_at(start as int));

        self.remove_simple_key()?;
        self.simple_key_allowed = true;

        self.push_token(Token::new(TokenKind::BlockEntry, span(start, start + 1)));
        Ok(())
    }

    /// Queue a `?` explicit key indicator.
    pub fn fetch_key(&mut self) -> (r: ScanResult<()>)
        requires
            old(self).wf(),
            old(self).stream_start_produced,
            !old(self).stream_end_fetched@,
            old(self).cur() == 0x3Fu8,
        ensures
            r is Ok ==> old(self).fetched(&*final(self)),
            r is Err ==> r->Err_0.located(old(self).src@.len()),
    {
        proof {
            self.lemma_wf_facts();
        }
        let start = self.pos;
        if self.flow_level == 0 {
            // Check if we are allowed to start a new key (not necessarily simple).
            if !self.simple_key_allowed {
                return Err(self.error(ErrorKind::UnexpectedIndicator, self.pos));
            }
            let col = self.col;
            self.roll_indent(col, None, TokenKind::BlockMappingStart, start);
        } else {
            // Upon emitting a `Key`, the parser starts a flow mapping.
            self.flow_mapping_started = true;
        }

        self.remove_simple_key()?;

        self.simple_key_allowed = self.flow_level == 0;

        self.bump();
        let token_end = self.pos;
        self.skip_yaml_whitespace()?;
        if self.peek() == 0x09u8 {
            return Err(self.error(ErrorKind::TabAsIndent, self.pos));
        }
        self.push_token(Token::new(TokenKind::Key, span(start, token_end)));
        Ok(())
    }

    /// The newest simple key, when possible, can have a token inserted at
    /// its place in the queue.
    proof fn lemma_last_key_insert_ok(&self)
        requires
            self.inv(),
            self.simple_keys@.len() > 0,
            self.simple_keys@.last().possible,
        ensures
            self.key_ok(self.simple_keys@.last()),
            self.insert_ok(
                self.simple_keys@.last().token_number - self.tokens_parsed,
                self.simple_keys@.last().pos as int,
            ),
    {
        let ks = self.simple_keys@;
        let last = ks.len() - 1;
        assert(self.key_ok(ks[last]));
        assert forall|i: int| 0 <= i < ks.len() && (#[trigger] ks[i]).possible implies {
            &&& ks[i].token_number - self.tokens_parsed <= ks[last].token_number - self.tokens_parsed
            &&& ks[i].pos <= ks[last].pos
        } by {
            if i < last {
                assert(ks[i].token_number <= ks[last].token_number && ks[i].pos <= ks[last].pos);
            }
        }
    }

    /// Queue a `:` that is not followed by a blank, in a flow collection.
    pub fn fetch_flow_value(&mut self) -> (r: ScanResult<()>)
        requires
            old(self).wf(),
            old(self).stream_start_produced,
            !old(self).stream_end_fetched@,
            old(self).cur() == 0x3Au8,
        ensures
            r is Ok ==> old(self).fetched(&*final(self)),
            r is Err ==> r->Err_0.located(old(self).src@.len()),
    {
        let nc = self.peek_nth(1);
        // `["a":[]]` is valid (an adjacent value after a JSON-like key) while
        // `[a:[]]` is not (`[a: []]` is; `[a:b]` is the scalar `a:b`).
        if self.pos != self.adjacent_value_allowed_at && (nc == 0x5Bu8 || nc == 0x7Bu8) {
            return Err(self.error(ErrorKind::UnexpectedValue, self.pos));
        }
        self.fetch_value()
    }

    /// The token queue once a `:` completes the pending simple key: its
    /// `Key` (and an implicit flow mapping's start) goes where the key began,
    /// and in block context the mapping's start token goes there too when
    /// the key's column opens a level.
    pub open spec fn simple_value_queue(&self, implicit: bool) -> Seq<Token> {
        let sk = self.simple_keys@.last();
        let idx = sk.token_number - self.tokens_parsed;
        let keyed = self.tokens@.insert(idx, synthesized_token(TokenKind::Key, sk.pos as int));
        let started = if implicit {
            keyed.insert(idx, synthesized_token(TokenKind::FlowMappingStart, sk.pos as int))
        } else {
            keyed
        };
        if self.flow_level == 0 {
            roll_tokens(
                started,
                roll_opens(self.indent as int, self.indents@, sk.col as int),
                Some(sk.token_number),
                self.tokens_parsed as int,
                TokenKind::BlockMappingStart,
                sk.pos as int,
            )
        } else {
            started
        }
    }

    /// The indentation and indent stack once a `:` at column `col` opens or
    /// continues a mapping: rolled to `col` and given a one-column level in
    /// block context, unchanged in flow context.
    pub open spec fn value_indents(&self, col: int) -> (int, Seq<Indent>) {
        if self.flow_level == 0 {
            let rolled = roll_state(self.indent as int, self.indents@, col);
            one_col_state(rolled.0, rolled.1)
        } else {
            (self.indent as int, self.indents@)
        }
    }

    /// The token queue once a `:` at `start` (column `start_col`) follows an
    /// explicit key or none: an implicit flow mapping's start, then in block
    /// context the mapping's start if the column opens a level.
    pub open spec fn complex_value_queue(&self, implicit: bool, start: int, start_col: int) -> Seq<Token> {
        let started = if implicit {
            self.tokens@.push(synthesized_token(TokenKind::FlowMappingStart, start))
        } else {
            self.tokens@
        };
        if self.flow_level == 0 {
            roll_tokens(
                started,
                roll_opens(self.indent as int, self.indents@, start_col),
                None,
                self.tokens_parsed as int,
                TokenKind::BlockMappingStart,
                start,
            )
        } else {
            started
        }
    }

    /// Whether the `:` under the cursor starts the value of an implicit
    /// mapping inside a flow sequence.
    pub open spec fn value_in_implicit_mapping(&self) -> bool {
        self.implicit_flow_mapping_states@.len() > 0 && !self.flow_mapping_started
    }

    /// The `:` under the cursor cannot be a value indicator: its simple key
    /// started an implicit flow mapping on an earlier line, or it follows no
    /// simple key in block context where none is allowed.
    pub open spec fn value_refused(&self) -> bool {
        let sk = self.simple_keys@.last();
        if sk.possible {
            self.value_in_implicit_mapping() && sk.line < self.line
        } else {
            self.flow_level == 0 && !self.simple_key_allowed
        }
    }

    /// Queue the `Value` token of a `:`, and the `Key` (and mapping start)
    /// that it turns the pending simple key into.
    pub fn fetch_value(&mut self) -> (r: ScanResult<()>)
        requires
            old(self).wf(),
            old(self).stream_start_produced,
            !old(self).stream_end_fetched@,
            old(self).cur() == 0x3Au8,
        ensures
            r is Ok ==> old(self).fetched(&*final(self)),
            r is Err ==> r->Err_0.located(old(self).src@.len()),
            r is Ok ==> {
                let sk = old(self).simple_keys@.last();
                let implicit = old(self).value_in_implicit_mapping();
                let queued = if sk.possible {
                    old(self).simple_value_queue(implicit)
                } else {
                    old(self).complex_value_queue(implicit, old(self).pos as int, old(self).col as int)
                };
                let ind = old(self).value_indents(if sk.possible { sk.col as int } else { old(self).col as int });
                &&& final(self).tokens@ == queued.push(
                    Token { kind: TokenKind::Value, span: Span { start: old(self).pos as u32, end: (old(self).pos + 1) as u32 }, synthesized: false },
                )
                &&& final(self).indent == ind.0
                &&& final(self).indents@ == ind.1
                &&& final(self).implicit_flow_mapping_states@ == if implicit {
                    old(self).implicit_flow_mapping_states@.update(
                        old(self).implicit_flow_mapping_states@.len() - 1,
                        ImplicitMappingState::Inside,
                    )
                } else {
                    old(self).implicit_flow_mapping_states@
                }
                &&& final(self).simple_keys@ == if sk.possible {
                    old(self).simple_keys@.update(old(self).simple_keys@.len() - 1, SimpleKey { possible: false, ..sk })
                } else {
                    old(self).simple_keys@
                }
                &&& final(self).simple_key_allowed == (!sk.possible && old(self).flow_level == 0)
            },
            old(self).value_refused() ==> r is Err,
            ({
                let e = tabs_end(old(self).src@, old(self).pos + 1);
                old(self).ahead(1) == 0x09u8 && (byte_at(old(self).src@, e) == 0x2Du8 || is_alpha(byte_at(old(self).src@, e)))
            }) ==> ({
                &&& r is Err
                &&& r->Err_0.kind is TabAsIndent
                &&& r->Err_0.span.start == tabs_end(old(self).src@, old(self).pos + 1)
            }),
            old(self).ahead(1) != 0x09u8 && !old(self).value_refused() ==> r is Ok,
    {
        proof {
            self.lemma_wf_facts();
        }
        let nk = self.simple_keys.len();
        let sk = self.simple_keys[nk - 1];
        let start = self.pos;
        let start_col = self.col;
        let is_implicit_flow_mapping = self.implicit_flow_mapping_states.len() > 0
            && !self.flow_mapping_started;
        if is_implicit_flow_mapping {
            let m = self.implicit_flow_mapping_states.len();
            proof {
                super::bookkeeping::lemma_count_inside_open(self.implicit_flow_mapping_states@);
            }
            self.implicit_flow_mapping_states.set(m - 1, ImplicitMappingState::Inside);
        }

        // Skip over ':'.
        self.bump();
        if self.peek() == 0x09u8 {
            let (_, has_ws) = self.skip_ws_to_eol(true)?;
            if !has_ws && (self.peek() == 0x2Du8 || is_alpha(self.peek())) {
                return Err(self.error(ErrorKind::TabAsIndent, self.pos));
            }
        }

        if sk.possible {
            assert(sk == self.simple_keys@.last());
            self.value_for_simple_key(is_implicit_flow_mapping, start)?;
        } else {
            self.value_for_complex_key(is_implicit_flow_mapping, start, start_col)?;
        }
        self.push_token(Token::new(TokenKind::Value, span(start, start + 1)));
        Ok(())
    }

    /// `new` differs from `self` only in the token queue, the structure
    /// stacks and the key flags; it stays well formed, owes at most `extra`
    /// more, and a token may still be queued at `at`.
    pub open spec fn queued(&self, new: &Self, extra: int, at: int) -> bool {
        &&& new.inv()
        &&& new.src@ == self.src@
        &&& new.pos == self.pos
        &&& new.col == self.col
        &&& new.line == self.line
        &&& new.comments@ == self.comments@
        &&& new.block_headers@ == self.block_headers@
        &&& new.tokens_parsed == self.tokens_parsed
        &&& new.prev_end@ == self.prev_end@
        &&& new.stream_start_produced == self.stream_start_produced
        &&& new.stream_end_produced == self.stream_end_produced
        &&& new.stream_end_fetched@ == self.stream_end_fetched@
        &&& new.budget() <= self.budget() + extra
        &&& new.can_append_at(at)
    }

    /// The `:` completes the pending simple key: queue its `Key` (and the
    /// implicit flow mapping's start) where the key began, and open a block
    /// mapping if needed.
    #[verifier::rlimit(50)]
    fn value_for_simple_key(&mut self, is_implicit_flow_mapping: bool, start: usize) -> (r: ScanResult<()>)
        requires
            old(self).inv(),
            old(self).stream_start_produced,
            !old(self).stream_end_fetched@,
            old(self).simple_keys@.len() > 0,
            old(self).simple_keys@.last().possible,
            old(self).simple_keys@.last().pos <= start <= old(self).pos,
            old(self).can_append_at(start as int),
        ensures
            r is Ok ==> old(self).queued(&*final(self), 4, start as int),
            r is Err ==> r->Err_0.located(old(self).src@.len()),
            r is Err <==> is_implicit_flow_mapping && old(self).simple_keys@.last().line < old(self).line,
            r is Ok ==> {
                let sk = old(self).simple_keys@.last();
                let ind = old(self).value_indents(sk.col as int);
                &&& final(self).tokens@ == old(self).simple_value_queue(is_implicit_flow_mapping)
                &&& final(self).indent == ind.0
                &&& final(self).indents@ == ind.1
                &&& final(self).simple_keys@ == old(self).simple_keys@.update(
                    old(self).simple_keys@.len() - 1,
                    SimpleKey { possible: false, ..sk },
                )
                &&& !final(self).simple_key_allowed
                &&& final(self).flow_level == old(self).flow_level
                &&& final(self).flow_mapping_started == old(self).flow_mapping_started
                &&& final(self).implicit_flow_mapping_states@ == old(self).implicit_flow_mapping_states@
            },
    {
        let sk = self.simple_keys[self.simple_keys.len() - 1];
        proof {
            self.lemma_last_key_insert_ok();
        }
        // Insert the simple key token.
        assert(sk == self.simple_keys@.last());
        let qlen = self.tokens.len();
        assert(sk.token_number - self.tokens_parsed <= qlen);
        let idx = (sk.token_number - self.tokens_parsed) as usize;
        assert(idx == sk.token_number - self.tokens_parsed);
        self.insert_token(idx, Token::synthesized(TokenKind::Key, sk.pos));
        if is_implicit_flow_mapping {
            if sk.line < self.line {
                return Err(self.error(ErrorKind::UnexpectedValue, start));
            }
            self.insert_token(idx, Token::synthesized(TokenKind::FlowMappingStart, sk.pos));
        }
        let ghost started = *self;
        assert(started.indent == old(self).indent && started.indents@ == old(self).indents@);
        assert(started.tokens_parsed == old(self).tokens_parsed);

        // Add the BLOCK-MAPPING-START token if needed.
        self.roll_indent(sk.col, Some(sk.token_number), TokenKind::BlockMappingStart, sk.pos);
        let ghost rolled = *self;
        self.roll_one_col_indent();
        assert(self.tokens@ == rolled.tokens@);
        assert(rolled.flow_level == old(self).flow_level);

        let ghost before = *self;
        let n = self.simple_keys.len();
        let last = self.simple_keys[n - 1];
        self.simple_keys.set(n - 1, SimpleKey { possible: false, ..last });
        proof {
            let ks = self.simple_keys@;
            assert forall|i: int| 0 <= i < ks.len() && (#[trigger] ks[i]).possible implies self.key_ok(ks[i]) by {
                assert(ks[i] == before.simple_keys@[i]);
                assert(before.key_ok(ks[i]));
            }
            assert forall|i: int, j: int| 0 <= i < j < ks.len() && (#[trigger] ks[i]).possible && (#[trigger] ks[j]).possible implies ks[i].token_number <= ks[j].token_number && ks[i].pos <= ks[j].pos by {
                assert(ks[i] == before.simple_keys@[i]);
                assert(ks[j] == before.simple_keys@[j]);
            }
            assert forall|i: int| 0 <= i < ks.len() && (#[trigger] ks[i]).possible implies ks[i].pos <= start by {
                assert(ks[i] == before.simple_keys@[i]);
            }
        }
        self.simple_key_allowed = false;
        Ok(())
    }

    /// The `:` follows an explicit (complex) key or none: open the implicit
    /// flow mapping or the block mapping if needed.
    fn value_for_complex_key(&mut self, is_implicit_flow_mapping: bool, start: usize, start_col: usize) -> (r: ScanResult<()>)
        requires
            old(self).inv(),
            old(self).stream_start_produced,
            !old(self).stream_end_fetched@,
            start < old(self).pos,
            is_char_boundary(old(self).src@, start as int),
            start_col <= u32::MAX,
            old(self).can_append_at(start as int),
        ensures
            r is Ok ==> old(self).queued(&*final(self), 3, start as int),
            r is Err ==> r->Err_0.located(old(self).src@.len()),
            r is Err <==> old(self).flow_level == 0 && !old(self).simple_key_allowed,
            r is Ok ==> {
                let ind = old(self).value_indents(start_col as int);
                &&& final(self).tokens@ == old(self).complex_value_queue(is_implicit_flow_mapping, start as int, start_col as int)
                &&& final(self).indent == ind.0
                &&& final(self).indents@ == ind.1
                &&& final(self).simple_keys@ == old(self).simple_keys@
                &&& final(self).simple_key_allowed == (old(self).flow_level == 0)
                &&& final(self).flow_level == old(self).flow_level
                &&& final(self).flow_mapping_started == old(self).flow_mapping_started
                &&& final(self).implicit_flow_mapping_states@ == old(self).implicit_flow_mapping_states@
            },
    {
        if is_implicit_flow_mapping {
            self.push_token(Token::synthesized(TokenKind::FlowMappingStart, start));
        }
        // The ':' indicator follows a complex key.
        if self.flow_level == 0 {
            if !self.simple_key_allowed {
                return Err(self.error(ErrorKind::UnexpectedValue, start));
            }
            self.roll_indent(start_col, None, TokenKind::BlockMappingStart, start);
        }
        self.roll_one_col_indent();

        self.simple_key_allowed = self.flow_level == 0;
        Ok(())
    }

    /// Queue a directive line `%NAME ...`, uninterpreted: everything up to
    /// the line break, stopping before a trailing comment (a `#` preceded by
    /// a blank).
    pub fn fetch_directive(&mut self) -> (r: ScanResult<()>)
        requires
            old(self).wf(),
            old(self).stream_start_produced,
            !old(self).stream_end_fetched@,
            old(self).cur() == 0x25u8,
        ensures
            r is Ok ==> old(self).fetched(&*final(self)),
            r is Err ==> r->Err_0.located(old(self).src@.len()),
    {
        proof {
            self.lemma_wf_facts();
        }
        self.unroll_indent(-1);
        self.remove_simple_key()?;
        self.simple_key_allowed = false;

        let start = self.pos;
        let ghost base = *self;
        let mut end = self.pos;
        loop
            invariant
                base.moves_to(&*self),
                self.stream_start_produced,
                start == base.pos,
                start <= end <= self.pos,
                self.pos == start ==> self.cur() == 0x25u8,
                self.pos == start || end > start,
                self.src@[start as int] == 0x25u8,
                end == start || end == self.src@.len() || is_blank_or_breakz(self.src@[end as int]),
                is_char_boundary(self.src@, end as int),
            ensures
                base.moves_to(&*self),
                start < end <= self.pos,
                end == self.src@.len() || is_blank_or_breakz(self.src@[end as int]),
            decreases self.src@.len() - self.pos,
        {
            let b = self.peek();
            if is_breakz(b) {
                break;
            }
            if b == 0x23u8 && self.pos > start && is_blank(self.src[self.pos - 1]) {
                self.eat_comment();
                break;
            }
            if is_blank(b) {
                self.bump_blank();
            } else {
                // A `#` not preceded by a blank is part of the directive.
                self.bump_while(ByteClass::NotBlankOrBreakz);
                assert(keeps(ByteClass::NotBlankOrBreakz, b));
                end = self.pos;
                assert(end == self.src@.len() || is_blank_or_breakz(self.src@[end as int]));
            }
        }
        self.push_token(Token::new(TokenKind::Directive, span(start, end)));
        if is_break(self.peek()) {
            self.bump_break();
        }
        Ok(())
    }

    /// Queue `StreamEnd`: no simple key can be completed any more (a
    /// required one is an error), and every open block is closed.
    pub fn fetch_stream_end(&mut self) -> (r: ScanResult<()>)
        requires
            old(self).wf(),
            old(self).stream_start_produced,
            !old(self).stream_end_fetched@,
        ensures
            r is Ok ==> {
                &&& final(self).inv()
                &&& old(self).advances_to(&*final(self))
                &&& final(self).pos == old(self).pos
                &&& final(self).stream_start_produced
                &&& final(self).stream_end_fetched@
                &&& final(self).budget() <= old(self).budget()
                &&& old(self).indents@.len() == 0 ==> final(self).tokens@.len() == old(self).tokens@.len() + 1
            },
            r is Err ==> r->Err_0.located(old(self).src@.len()),
            (forall|i: int| 0 <= i < old(self).simple_keys@.len() ==> !(#[trigger] old(self).simple_keys@[i]).possible)
                ==> r is Ok,
    {
        proof {
            self.lemma_wf_facts();
        }
        let n = self.simple_keys.len();
        let mut i: usize = 0;
        while i < n
            invariant
                0 <= i <= n,
                n == self.simple_keys@.len(),
                self.inv(),
                self.same_cursor(&*old(self)),
                self.tokens@ == old(self).tokens@,
                self.simple_keys@.len() == old(self).simple_keys@.len(),
                forall|j: int| 0 <= j < i ==> !(#[trigger] self.simple_keys@[j]).possible,
                forall|j: int| i <= j < n ==> #[trigger] self.simple_keys@[j] == old(self).simple_keys@[j],
                self.indents@ == old(self).indents@,
                self.indent == old(self).indent,
                self.flow_level == old(self).flow_level,
                self.implicit_flow_mapping_states@ == old(self).implicit_flow_mapping_states@,
                self.stream_start_produced,
                self.can_append_at(self.pos as int),
            decreases n - i,
        {
            let sk = self.simple_keys[i];
            if sk.required && sk.possible {
                assert(self.key_ok(self.simple_keys@[i as int]));
                return Err(Error::point(ErrorKind::InvalidSimpleKey, sk.pos));
            }
            let ghost before = *self;
            self.simple_keys.set(i, SimpleKey { possible: false, ..sk });
            proof {
                let ks = self.simple_keys@;
                assert forall|u: int| 0 <= u < ks.len() && (#[trigger] ks[u]).possible implies self.key_ok(ks[u]) by {
                    assert(ks[u] == before.simple_keys@[u]);
                    assert(before.key_ok(ks[u]));
                }
                assert forall|u: int, v: int| 0 <= u < v < ks.len() && (#[trigger] ks[u]).possible && (#[trigger] ks[v]).possible implies ks[u].token_number <= ks[v].token_number && ks[u].pos <= ks[v].pos by {
                    assert(ks[u] == before.simple_keys@[u]);
                    assert(ks[v] == before.simple_keys@[v]);
                }
                assert forall|u: int| 0 <= u < ks.len() && (#[trigger] ks[u]).possible implies ks[u].pos <= self.pos by {
                    assert(ks[u] == before.simple_keys@[u]);
                }
            }
            i = i + 1;
        }

        self.unroll_indent(-1);
        self.remove_simple_key()?;
        self.simple_key_allowed = false;

        let ghost before = *self;
        let pos = self.pos;
        self.tokens.push_back(Token::synthesized(TokenKind::StreamEnd, pos));
        self.stream_end_fetched = Ghost(true);
        proof {
            let ts = self.tokens@;
            assert forall|i: int, j: int| #![trigger ts[i], ts[j]] 0 <= i < j < ts.len() implies ts[i].span.end <= ts[j].span.start by {
                if j == ts.len() - 1 {
                    assert(ts[i] == before.tokens@[i]);
                }
            }
            assert forall|i: int| 0 <= i < ts.len() && (#[trigger] ts[i]).kind == TokenKind::StreamEnd implies i == ts.len() - 1 by {
                if i < ts.len() - 1 {
                    assert(ts[i] == before.tokens@[i]);
                }
            }
            let ks = self.simple_keys@;
            assert forall|u: int| 0 <= u < ks.len() implies !(#[trigger] ks[u]).possible by {
                if u < ks.len() - 1 {
                    assert(ks[u] == old(self).simple_keys@[u] || !ks[u].possible);
                }
            }
        }
        Ok(())
    }

    /// One fetch made progress: the cursor moved forward, or the stream
    /// start or the stream end was queued.
    pub open spec fn progressed(&self, new: &Self) -> bool {
        ||| new.pos > self.pos
        ||| (!self.stream_start_produced && new.pos == self.pos && !new.stream_end_fetched@)
        ||| (self.stream_start_produced && new.stream_end_fetched@)
    }

    /// Fetch the next token(s) from the stream.
    pub fn fetch_next_token(&mut self) -> (r: ScanResult<()>)
        requires
            old(self).wf(),
            !old(self).stream_end_fetched@,
        ensures
            r is Ok ==> {
                &&& final(self).wf()
                &&& old(self).advances_to(&*final(self))
                &&& final(self).stream_start_produced
                &&& final(self).potential() <= old(self).potential()
                &&& old(self).progressed(&*final(self))
                &&& !old(self).stream_start_produced ==> {
                    &&& final(self).tokens@.len() == 1
                    &&& final(self).tokens@[0].kind == TokenKind::StreamStart
                    &&& forall|i: int| 0 <= i < final(self).simple_keys@.len()
                        ==> !(#[trigger] final(self).simple_keys@[i]).possible
                    &&& final(self).indents@.len() == 0
                    &&& final(self).pos == old(self).pos
                }
            },
            r is Err ==> r->Err_0.located(old(self).src@.len()),
            !old(self).stream_start_produced ==> r is Ok,
            old(self).stream_start_produced && old(self).idle() && trivia_from(old(self).src@, old(self).pos as int, false)
                ==> {
                &&& r is Ok
                &&& final(self).tokens@.len() == 1
                &&& final(self).tokens@[0].kind == TokenKind::StreamEnd
                &&& forall|i: int| 0 <= i < final(self).simple_keys@.len()
                    ==> !(#[trigger] final(self).simple_keys@[i]).possible
            },
    {
        if !self.stream_start_produced {
            self.fetch_stream_start();
            return Ok(());
        }
        self.skip_to_next_token()?;
        self.stale_simple_keys()?;
        proof {
            self.lemma_wf_facts();
        }
        let col = self.col as i64;
        self.unroll_indent(col);
        let ghost mid = *self;
        assert(mid.wf());

        if self.next_is_z() {
            self.fetch_stream_end()?;
            return Ok(());
        }

        if self.col == 0 {
            if self.peek() == 0x25u8 {
                return self.fetch_directive();
            } else if self.next_is_document_start() {
                return self.fetch_document_indicator(TokenKind::DocumentStart);
            } else if self.next_is_document_end() {
                self.fetch_document_indicator(TokenKind::DocumentEnd)?;
                self.skip_ws_to_eol(true)?;
                if !is_breakz(self.peek()) {
                    return Err(self.error(ErrorKind::ExpectedDocumentEnd, self.pos));
                }
                return Ok(());
            }
        }

        if (self.col as i64) < self.indent {
            return Err(self.error(ErrorKind::UnexpectedIndicator, self.pos));
        }

        let c = self.peek();
        let nc = self.peek_nth(1);
        if c == 0x5Bu8 {
            self.fetch_flow_collection_start(TokenKind::FlowSequenceStart)
        } else if c == 0x7Bu8 {
            self.fetch_flow_collection_start(TokenKind::FlowMappingStart)
        } else if c == 0x5Du8 {
            self.fetch_flow_collection_end(TokenKind::FlowSequenceEnd)
        } else if c == 0x7Du8 {
            self.fetch_flow_collection_end(TokenKind::FlowMappingEnd)
        } else if c == 0x2Cu8 {
            self.fetch_flow_entry()
        } else if c == 0x2Du8 && is_blank_or_breakz(nc) {
            self.fetch_block_entry()
        } else if c == 0x3Fu8 && is_blank_or_breakz(nc) {
            self.fetch_key()
        } else if c == 0x3Au8 && is_blank_or_breakz(nc) {
            self.fetch_value()
        } else if c == 0x3Au8 && self.flow_level > 0 && (is_flow(nc) || self.pos
            == self.adjacent_value_allowed_at) {
            self.fetch_flow_value()
        } else if c == 0x2Au8 {
            self.fetch_anchor(true)
        } else if c == 0x26u8 {
            self.fetch_anchor(false)
        } else if c == 0x21u8 {
            self.fetch_tag()
        } else if c == 0x7Cu8 && self.flow_level == 0 {
            self.fetch_block_scalar(true)
        } else if c == 0x3Eu8 && self.flow_level == 0 {
            self.fetch_block_scalar(false)
        } else if c == 0x27u8 {
            self.fetch_flow_scalar(true)
        } else if c == 0x22u8 {
            self.fetch_flow_scalar(false)
        } else if c == 0x25u8 || c == 0x40u8 || c == 0x60u8 {
            Err(self.error(ErrorKind::InvalidChar, self.pos))
        } else {
            // Including `-`, `?` and `:` not followed by a blank.
            self.fetch_plain_scalar()
        }
    }

    /// Whether a possible simple key points at the front of the queue: the
    /// next token may still turn out to be preceded by a `Key`.
    fn front_may_be_key(&self) -> (r: bool)
        ensures
            r == exists|i: int|
                0 <= i < self.simple_keys@.len() && (#[trigger] self.simple_keys@[i]).possible
                    && self.simple_keys@[i].token_number == self.tokens_parsed,
    {
        let mut i: usize = 0;
        while i < self.simple_keys.len()
            invariant
                0 <= i <= self.simple_keys@.len(),
                forall|j: int|
                    0 <= j < i ==> !((#[trigger] self.simple_keys@[j]).possible
                        && self.simple_keys@[j].token_number == self.tokens_parsed),
            decreases self.simple_keys@.len() - i,
        {
            let sk = self.simple_keys[i];
            if sk.possible && sk.token_number == self.tokens_parsed {
                return true;
            }
            i = i + 1;
        }
        false
    }

    /// Fetch until the front token is settled: the queue is not empty and no
    /// pending simple key could still insert a `Key` before its front.
    pub fn fetch_more_tokens(&mut self) -> (r: ScanResult<()>)
        requires
            old(self).wf(),
            !old(self).stream_end_produced,
        ensures
            r is Ok ==> {
                &&& final(self).wf()
                &&& old(self).advances_to(&*final(self))
                &&& final(self).stream_start_produced
                &&& final(self).potential() <= old(self).potential()
                &&& final(self).tokens@.len() > 0
                &&& forall|i: int|
                    0 <= i < final(self).simple_keys@.len() && (#[trigger] final(self).simple_keys@[i]).possible
                        ==> final(self).simple_keys@[i].token_number != final(self).tokens_parsed
                &&& !old(self).stream_start_produced ==> {
                    &&& final(self).tokens@.len() == 1
                    &&& final(self).tokens@[0].kind == TokenKind::StreamStart
                    &&& forall|i: int| 0 <= i < final(self).simple_keys@.len()
                        ==> !(#[trigger] final(self).simple_keys@[i]).possible
                    &&& final(self).indents@.len() == 0
                    &&& final(self).pos == old(self).pos
                }
            },
            r is Err ==> r->Err_0.located(old(self).src@.len()),
            old(self).stream_start_produced && old(self).idle() && trivia_from(old(self).src@, old(self).pos as int, false)
                ==> r is Ok && final(self).tokens@[0].kind == TokenKind::StreamEnd,
            !old(self).stream_start_produced ==> r is Ok,
    {
        let ghost trivia = old(self).stream_start_produced && old(self).idle()
            && trivia_from(old(self).src@, old(self).pos as int, false);
        loop
            invariant
                trivia == (old(self).stream_start_produced && old(self).idle()
                    && trivia_from(old(self).src@, old(self).pos as int, false)),
                !old(self).stream_start_produced ==> (*self == *old(self)) || {
                    &&& self.stream_start_produced
                    &&& self.tokens@.len() == 1
                    &&& forall|i: int| 0 <= i < self.simple_keys@.len() ==> !(#[trigger] self.simple_keys@[i]).possible
                },
                trivia ==> (*self == *old(self)) || {
                    &&& self.tokens@.len() == 1
                    &&& self.tokens@[0].kind == TokenKind::StreamEnd
                    &&& forall|i: int| 0 <= i < self.simple_keys@.len() ==> !(#[trigger] self.simple_keys@[i]).possible
                },
                self.wf(),
                old(self).advances_to(&*self),
                self.potential() <= old(self).potential(),
                !self.stream_end_produced,
                !old(self).stream_start_produced && self.stream_start_produced ==> {
                    &&& self.tokens@.len() == 1
                    &&& self.tokens@[0].kind == TokenKind::StreamStart
                    &&& forall|i: int| 0 <= i < self.simple_keys@.len() ==> !(#[trigger] self.simple_keys@[i]).possible
                    &&& self.indents@.len() == 0
                    &&& self.pos == old(self).pos
                },
            ensures
                self.wf(),
                old(self).advances_to(&*self),
                self.potential() <= old(self).potential(),
                self.stream_start_produced,
                self.tokens@.len() > 0,
                forall|i: int|
                    0 <= i < self.simple_keys@.len() && (#[trigger] self.simple_keys@[i]).possible
                        ==> self.simple_keys@[i].token_number != self.tokens_parsed,
                !old(self).stream_start_produced ==> {
                    &&& self.tokens@.len() == 1
                    &&& self.tokens@[0].kind == TokenKind::StreamStart
                    &&& forall|i: int| 0 <= i < self.simple_keys@.len() ==> !(#[trigger] self.simple_keys@[i]).possible
                    &&& self.indents@.len() == 0
                    &&& self.pos == old(self).pos
                },
                trivia ==> self.tokens@[0].kind == TokenKind::StreamEnd,
            decreases
                self.src@.len() - self.pos,
                (if self.stream_start_produced { 0int } else { 1int }),
                (if self.stream_end_fetched@ { 0int } else { 1int }),
        {
            let mut need_more = self.tokens.len() == 0;
            if !need_more {
                let ghost before = *self;
                self.stale_simple_keys()?;
                proof {
                    if (!old(self).stream_start_produced && self.stream_start_produced) || trivia {
                        assert forall|i: int| 0 <= i < self.simple_keys@.len() implies !(#[trigger] self.simple_keys@[i]).possible by {
                            assert(!before.simple_keys@[i].possible);
                        }
                    }
                }
                // If the next token to be emitted may be a key, fetch more context.
                need_more = self.front_may_be_key();
            }
            if !need_more {
                break;
            }
            self.fetch_next_token()?;
        }
        Ok(())
    }

    /// Return the next token in the stream, or `None` after `StreamEnd`.
    pub fn next_token(&mut self) -> (r: ScanResult<Option<Token>>)
        requires
            old(self).wf(),
        ensures
            old(self).stream_end_produced ==> r matches Ok(None),
            r matches Ok(None) ==> old(self).stream_end_produced && *final(self) == *old(self),
            r matches Ok(Some(t)) ==> {
                &&& final(self).wf()
                &&& token_ok(t, final(self).block_headers@, final(self).src@)
                &&& old(self).prev_end@ <= t.span.start
                &&& final(self).prev_end@ == t.span.end
                &&& final(self).potential() < old(self).potential()
                &&& final(self).src@ == old(self).src@
                &&& final(self).block_headers@.len() >= old(self).block_headers@.len()
                &&& forall|i: int| 0 <= i < old(self).block_headers@.len()
                    ==> #[trigger] final(self).block_headers@[i] == old(self).block_headers@[i]
                &&& final(self).comments@.len() >= old(self).comments@.len()
                &&& forall|i: int| 0 <= i < old(self).comments@.len()
                    ==> #[trigger] final(self).comments@[i] == old(self).comments@[i]
                &&& final(self).stream_end_produced == (t.kind == TokenKind::StreamEnd)
                &&& !old(self).stream_start_produced ==> {
                    &&& t.kind == TokenKind::StreamStart
                    &&& final(self).idle()
                    &&& final(self).pos == old(self).pos
                }
            },
            r is Err ==> r->Err_0.located(old(self).src@.len()),
            old(self).stream_start_produced && !old(self).stream_end_produced && old(self).idle()
                && trivia_from(old(self).src@, old(self).pos as int, false)
                ==> (r matches Ok(Some(t)) && t.kind == TokenKind::StreamEnd),
            !old(self).stream_start_produced ==> r matches Ok(Some(_)),
    {
        if self.stream_end_produced {
            return Ok(None);
        }

        self.fetch_more_tokens()?;
        let ghost before = *self;
        let t = match self.tokens.pop_front() {
            Some(t) => t,
            None => {
                return Err(self.error(ErrorKind::UnexpectedEof, self.pos));
            },
        };
        self.tokens_parsed = self.tokens_parsed + 1;
        self.prev_end = Ghost(t.span.end as int);

        if t.kind == TokenKind::StreamEnd {
            self.stream_end_produced = true;
        }
        proof {
            let ts = self.tokens@;
            let os = before.tokens@;
            assert(t == os[0]);
            assert forall|i: int| 0 <= i < ts.len() implies #[trigger] ts[i] == os[i + 1] by {}
            assert forall|i: int| 0 <= i < ts.len() implies token_ok(#[trigger] ts[i], self.block_headers@, self.src@) by {
                assert(ts[i] == os[i + 1]);
            }
            assert forall|i: int, j: int| #![trigger ts[i], ts[j]] 0 <= i < j < ts.len() implies ts[i].span.end <= ts[j].span.start by {
                assert(ts[i] == os[i + 1]);
                assert(ts[j] == os[j + 1]);
            }
            if ts.len() > 0 {
                assert(ts[0] == os[1]);
            }
            assert forall|i: int| 0 <= i < ts.len() && (#[trigger] ts[i]).kind == TokenKind::StreamEnd implies i == ts.len() - 1 && self.stream_end_fetched@ by {
                assert(ts[i] == os[i + 1]);
            }
            let ks = self.simple_keys@;
            assert forall|i: int| 0 <= i < ks.len() && (#[trigger] ks[i]).possible implies self.key_ok(ks[i]) by {
                assert(before.key_ok(ks[i]));
                let k = ks[i].token_number - self.tokens_parsed;
                assert forall|u: int| 0 <= u < k implies #[trigger] ts[u].span.end <= ks[i].pos by {
                    assert(ts[u] == os[u + 1]);
                }
                assert forall|u: int| k <= u < ts.len() implies #[trigger] ts[u].span.start >= ks[i].pos by {
                    assert(ts[u] == os[u + 1]);
                }
            }
            if self.stream_end_fetched@ && !self.stream_end_produced {
                assert(os.last().kind == TokenKind::StreamEnd);
                assert(ts.last() == os.last());
            }
        }
        Ok(Some(t))
    }

    /// Queue a `,` in a flow collection.
    pub fn fetch_flow_entry(&mut self) -> (r: ScanResult<()>)
        requires
            old(self).wf(),
            old(self).stream_start_produced,
            !old(self).stream_end_fetched@,
            old(self).cur() == 0x2Cu8,
        ensures
            r is Ok ==> old(self).fetched(&*final(self)),
            r is Err ==> r->Err_0.located(old(self).src@.len()),
    {
        proof {
            self.lemma_wf_facts();
        }
        if self.flow_level == 0 {
            return Err(self.error(ErrorKind::UnexpectedFlowIndicator, self.pos));
        }
        self.remove_simple_key()?;
        self.simple_key_allowed = true;

        let at = self.pos;
        self.end_implicit_mapping(at);

        let start = self.pos;
        self.bump();
        let token_end = self.pos;
        self.skip_ws_to_eol(true)?;

        self.push_token(Token::new(TokenKind::FlowEntry, span(start, token_end)));
        Ok(())
    }
}

/// Whether a span starts at column 0: at the beginning of the source or
/// right after a line break.
pub fn span_starts_at_col0(src: &[u8], sp: crate::pos::Span) -> (r: bool)
    ensures
        r == (sp.start == 0 || is_break(byte_at(src@, sp.start - 1))),
{
    sp.start == 0 || {
        let i = (sp.start - 1) as usize;
        i < src.len() && is_break(src[i])
    }
}

} // verus!
