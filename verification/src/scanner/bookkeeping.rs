//! The token queue, the indent stack, simple keys and flow levels.
use super::{
    count_inside, may_synthesize, synthesized_token, token_ok, ImplicitMappingState, Indent,
    ScanResult, Scanner, SimpleKey, Token, TokenKind,
};
use crate::error::{Error, ErrorKind};
use vstd::prelude::*;
use vstd::utf8::is_char_boundary;

verus! {

proof fn lemma_count_inside_close(s: Seq<ImplicitMappingState>)
    requires
        s.len() > 0,
        s.last() == ImplicitMappingState::Inside,
    ensures
        count_inside(s.update(s.len() - 1, ImplicitMappingState::Possible)) + 1 == count_inside(s),
{
    let u = s.update(s.len() - 1, ImplicitMappingState::Possible);
    assert(u.drop_last() =~= s.drop_last());
}

pub(crate) proof fn lemma_count_inside_open(s: Seq<ImplicitMappingState>)
    requires
        s.len() > 0,
    ensures
        count_inside(s.update(s.len() - 1, ImplicitMappingState::Inside)) <= count_inside(s) + 1,
{
    let u = s.update(s.len() - 1, ImplicitMappingState::Inside);
    assert(u.drop_last() =~= s.drop_last());
}

/// The indentation and indent stack once a non-block top level that `col`
/// reaches is dropped: it turns out to be a block level.
pub open spec fn soft_popped(indent: int, indents: Seq<Indent>, col: int) -> (int, Seq<Indent>) {
    if indent <= col && indents.len() > 0 && !indents.last().needs_block_end {
        (indents.last().indent as int, indents.drop_last())
    } else {
        (indent, indents)
    }
}

/// Whether rolling the indentation to `col` in block context opens a level.
pub open spec fn roll_opens(indent: int, indents: Seq<Indent>, col: int) -> bool {
    soft_popped(indent, indents, col).0 < col
}

/// The indentation and indent stack after rolling to `col` in block context.
pub open spec fn roll_state(indent: int, indents: Seq<Indent>, col: int) -> (int, Seq<Indent>) {
    let p = soft_popped(indent, indents, col);
    if p.0 < col {
        (col, p.1.push(Indent { indent: p.0 as i64, needs_block_end: true }))
    } else {
        p
    }
}

/// The token queue after rolling the indentation: when a level opens, its
/// start token goes at queue position `number - parsed`, or at the end.
pub open spec fn roll_tokens(
    ts: Seq<Token>,
    opens: bool,
    number: Option<u64>,
    parsed: int,
    kind: TokenKind,
    at: int,
) -> Seq<Token> {
    if !opens {
        ts
    } else {
        match number {
            Some(n) => ts.insert(n - parsed, synthesized_token(kind, at)),
            None => ts.push(synthesized_token(kind, at)),
        }
    }
}

/// The indentation and indent stack after adding a one-column level that
/// does not start a block, on top of a block level.
pub open spec fn one_col_state(indent: int, indents: Seq<Indent>) -> (int, Seq<Indent>) {
    if indents.len() > 0 && indents.last().needs_block_end {
        (indent + 1, indents.push(Indent { indent: indent as i64, needs_block_end: false }))
    } else {
        (indent, indents)
    }
}

/// The indentation and indent stack once every non-block level on top is
/// removed.
pub open spec fn strip_soft(indent: int, indents: Seq<Indent>) -> (int, Seq<Indent>)
    decreases indents.len(),
{
    if indents.len() > 0 && !indents.last().needs_block_end {
        strip_soft(indents.last().indent as int, indents.drop_last())
    } else {
        (indent, indents)
    }
}

/// The innermost flow sequence holds an implicit mapping that is open.
pub open spec fn inside_implicit_mapping(st: Seq<ImplicitMappingState>) -> bool {
    st.len() > 0 && st.last() == ImplicitMappingState::Inside
}

/// A simple key stays possible only while it is on the cursor's line and
/// within 1024 bytes of it.
pub open spec fn is_stale(k: SimpleKey, line: int, pos: int) -> bool {
    k.possible && (k.line < line || pos - k.pos > 1024)
}

/// The simple key once it can no longer be a key.
pub open spec fn key_dropped(k: SimpleKey) -> SimpleKey {
    SimpleKey { possible: false, ..k }
}

impl<'a> Scanner<'a> {
    /// Queue a token at the end.
    pub fn push_token(&mut self, t: Token)
        requires
            old(self).inv(),
            old(self).stream_start_produced,
            !old(self).stream_end_fetched@,
            token_ok(t, old(self).block_headers@, old(self).src@),
            t.kind != TokenKind::StreamEnd,
            t.span.end <= old(self).pos,
            old(self).can_append_at(t.span.start as int),
        ensures
            final(self).inv(),
            final(self).same_cursor(&*old(self)),
            final(self).tokens@ == old(self).tokens@.push(t),
            final(self).simple_keys@ == old(self).simple_keys@,
            final(self).indents@ == old(self).indents@,
            final(self).indent == old(self).indent,
            final(self).flow_level == old(self).flow_level,
            final(self).flow_mapping_started == old(self).flow_mapping_started,
            final(self).implicit_flow_mapping_states@ == old(self).implicit_flow_mapping_states@,
            final(self).budget() == old(self).budget() + 1,
            final(self).can_append_at(t.span.end as int),
    {
        self.tokens.push_back(t);
        proof {
            let ts = self.tokens@;
            assert forall|i: int, j: int| #![trigger ts[i], ts[j]] 0 <= i < j < ts.len() implies ts[i].span.end <= ts[j].span.start by {
                if j == ts.len() - 1 {
                    assert(ts[i] == old(self).tokens@[i]);
                }
            }
            let ks = self.simple_keys@;
            assert forall|i: int| 0 <= i < ks.len() && (#[trigger] ks[i]).possible implies self.key_ok(ks[i]) by {
                assert(old(self).key_ok(ks[i]));
            }
        }
    }

    /// Insert a zero-width token at the given queue position.
    pub fn insert_token(&mut self, idx: usize, t: Token)
        requires
            old(self).inv(),
            old(self).stream_start_produced,
            !old(self).stream_end_fetched@,
            token_ok(t, old(self).block_headers@, old(self).src@),
            t.kind != TokenKind::StreamEnd,
            t.span.start == t.span.end,
            t.span.end <= old(self).pos,
            old(self).insert_ok(idx as int, t.span.start as int),
        ensures
            final(self).inv(),
            final(self).same_cursor(&*old(self)),
            final(self).tokens@ == old(self).tokens@.insert(idx as int, t),
            final(self).simple_keys@ == old(self).simple_keys@,
            final(self).indents@ == old(self).indents@,
            final(self).indent == old(self).indent,
            final(self).flow_level == old(self).flow_level,
            final(self).flow_mapping_started == old(self).flow_mapping_started,
            final(self).implicit_flow_mapping_states@ == old(self).implicit_flow_mapping_states@,
            final(self).budget() == old(self).budget() + 1,
            forall|p: int| old(self).can_append_at(p) && t.span.end <= p ==> final(self).can_append_at(p),
            final(self).insert_ok(idx as int, t.span.start as int),
    {
        self.tokens.insert(idx, t);
        proof {
            let ts = self.tokens@;
            let os = old(self).tokens@;
            assert forall|i: int| 0 <= i < ts.len() implies ts[i] == (if i < idx { os[i] } else if i == idx { t } else { os[i - 1] }) by {}
            assert forall|i: int, j: int| #![trigger ts[i], ts[j]] 0 <= i < j < ts.len() implies ts[i].span.end <= ts[j].span.start by {
                if i < idx && j > idx {
                    assert(os[i].span.end <= t.span.start);
                }
            }
            let ks = self.simple_keys@;
            assert forall|i: int| 0 <= i < ks.len() && (#[trigger] ks[i]).possible implies self.key_ok(ks[i]) by {
                assert(old(self).key_ok(ks[i]));
                let k = ks[i].token_number - self.tokens_parsed;
                assert forall|u: int| 0 <= u < k implies #[trigger] ts[u].span.end <= ks[i].pos by {
                    assert(ts[u] == os[u]);
                }
                assert forall|u: int| k <= u < ts.len() implies #[trigger] ts[u].span.start >= ks[i].pos by {
                    if u > idx {
                        assert(ts[u] == os[u - 1]);
                    } else if u < idx {
                        assert(ts[u] == os[u]);
                    }
                }
            }
        }
    }

    /// Add an indentation level to the stack with the given block token, if needed.
    pub fn roll_indent(&mut self, col: usize, number: Option<u64>, kind: TokenKind, at: usize)
        requires
            old(self).inv(),
            old(self).stream_start_produced,
            !old(self).stream_end_fetched@,
            col <= u32::MAX,
            at <= old(self).pos,
            is_char_boundary(old(self).src@, at as int),
            !(kind is Scalar),
            kind != TokenKind::StreamEnd,
            may_synthesize(kind),
            number is None ==> old(self).can_append_at(at as int),
            number matches Some(n) ==> (old(self).flow_level == 0 ==> {
                &&& n >= old(self).tokens_parsed
                &&& old(self).insert_ok(n - old(self).tokens_parsed, at as int)
            }),
        ensures
            final(self).inv(),
            final(self).same_cursor(&*old(self)),
            final(self).simple_keys@ == old(self).simple_keys@,
            final(self).flow_level == old(self).flow_level,
            final(self).flow_mapping_started == old(self).flow_mapping_started,
            final(self).implicit_flow_mapping_states@ == old(self).implicit_flow_mapping_states@,
            final(self).budget() <= old(self).budget() + 2,
            forall|p: int| old(self).can_append_at(p) && at <= p ==> final(self).can_append_at(p),
            old(self).flow_level > 0 ==> {
                &&& final(self).tokens@ == old(self).tokens@
                &&& final(self).indent == old(self).indent
                &&& final(self).indents@ == old(self).indents@
            },
            old(self).flow_level == 0 ==> {
                let st = roll_state(old(self).indent as int, old(self).indents@, col as int);
                &&& final(self).indent == st.0
                &&& final(self).indents@ == st.1
                &&& final(self).tokens@ == roll_tokens(
                    old(self).tokens@,
                    roll_opens(old(self).indent as int, old(self).indents@, col as int),
                    number,
                    old(self).tokens_parsed as int,
                    kind,
                    at as int,
                )
            },
    {
        if self.flow_level > 0 {
            return;
        }
        // If the last indent was a non-block indent, remove it: it turns out
        // to be a block indent.
        if self.indent <= col as i64 && self.indents.len() > 0
            && !self.indents[self.indents.len() - 1].needs_block_end {
            let indent = self.indents.pop().unwrap();
            self.indent = indent.indent;
        }
        if self.indent < col as i64 {
            let ghost mid = *self;
            self.indents.push(Indent { indent: self.indent, needs_block_end: true });
            self.indent = col as i64;
            proof {
                let is = self.indents@;
                assert forall|i: int, j: int| 0 <= i < j < is.len() implies (#[trigger] is[i]).indent < (#[trigger] is[j]).indent by {
                    if j == is.len() - 1 && i < j {
                        assert(is[i] == mid.indents@[i]);
                    }
                }
                assert(is.drop_last() =~= mid.indents@);
            }
            let tokens_parsed = self.tokens_parsed;
            let tok = Token::synthesized(kind, at);
            match number {
                Some(n) => {
                    let qlen = self.tokens.len();
                    assert(self.insert_ok(n - tokens_parsed, at as int));
                    let idx = (n - tokens_parsed) as usize;
                    assert(idx == n - tokens_parsed);
                    self.insert_token(idx, tok)
                },
                None => self.push_token(tok),
            }
        }
    }

    /// Pop indentation levels from the stack as much as needed.
    pub fn unroll_indent(&mut self, col: i64)
        requires
            old(self).inv(),
            old(self).stream_start_produced,
            !old(self).stream_end_fetched@,
            col >= -1,
            old(self).can_append_at(old(self).pos as int),
        ensures
            final(self).inv(),
            final(self).same_cursor(&*old(self)),
            final(self).simple_keys@ == old(self).simple_keys@,
            final(self).flow_level == old(self).flow_level,
            final(self).flow_mapping_started == old(self).flow_mapping_started,
            final(self).implicit_flow_mapping_states@ == old(self).implicit_flow_mapping_states@,
            final(self).budget() <= old(self).budget(),
            final(self).can_append_at(final(self).pos as int),
            old(self).flow_level == 0 ==> final(self).indent <= col,
            old(self).indent <= col ==> final(self).tokens@ == old(self).tokens@ && final(self).indents@ == old(self).indents@,
    {
        if self.flow_level > 0 {
            return;
        }
        while self.indent > col
            invariant
                self.inv(),
                self.same_cursor(&*old(self)),
                self.stream_start_produced,
                !self.stream_end_fetched@,
                self.simple_keys@ == old(self).simple_keys@,
                self.flow_level == old(self).flow_level,
                self.flow_mapping_started == old(self).flow_mapping_started,
                self.implicit_flow_mapping_states@ == old(self).implicit_flow_mapping_states@,
                self.budget() <= old(self).budget(),
                self.can_append_at(self.pos as int),
                col >= -1,
                old(self).indent <= col ==> self.indent == old(self).indent && self.tokens@ == old(self).tokens@
                    && self.indents@ == old(self).indents@,
            decreases self.indents@.len(),
        {
            let ghost before = *self;
            let indent = self.indents.pop().unwrap();
            self.indent = indent.indent;
            proof {
                assert(before.indents@.drop_last() =~= self.indents@);
            }
            if indent.needs_block_end {
                let pos = self.pos;
                self.push_token(Token::synthesized(TokenKind::BlockEnd, pos));
            }
        }
    }

    /// Add an indentation level of 1 column that does not start a block.
    pub fn roll_one_col_indent(&mut self)
        requires
            old(self).inv(),
        ensures
            final(self).inv(),
            final(self).same_cursor(&*old(self)),
            final(self).tokens@ == old(self).tokens@,
            final(self).simple_keys@ == old(self).simple_keys@,
            final(self).flow_level == old(self).flow_level,
            final(self).flow_mapping_started == old(self).flow_mapping_started,
            final(self).implicit_flow_mapping_states@ == old(self).implicit_flow_mapping_states@,
            final(self).budget() == old(self).budget(),
            forall|p: int| old(self).can_append_at(p) ==> final(self).can_append_at(p),
            old(self).flow_level == 0 ==> {
                let st = one_col_state(old(self).indent as int, old(self).indents@);
                &&& final(self).indent == st.0
                &&& final(self).indents@ == st.1
            },
            old(self).flow_level > 0 ==> final(self).indent == old(self).indent && final(self).indents@
                == old(self).indents@,
    {
        if self.flow_level == 0 && self.indents.len() > 0
            && self.indents[self.indents.len() - 1].needs_block_end {
            let ghost mid = *self;
            self.indents.push(Indent { indent: self.indent, needs_block_end: false });
            self.indent = self.indent + 1;
            proof {
                let is = self.indents@;
                assert forall|i: int, j: int| 0 <= i < j < is.len() implies (#[trigger] is[i]).indent < (#[trigger] is[j]).indent by {
                    if j == is.len() - 1 && i < j {
                        assert(is[i] == mid.indents@[i]);
                    }
                }
                assert(is.drop_last() =~= mid.indents@);
            }
        }
    }

    /// Unroll all indents created with [`Self::roll_one_col_indent`].
    pub fn unroll_non_block_indents(&mut self)
        requires
            old(self).inv(),
        ensures
            final(self).inv(),
            final(self).same_cursor(&*old(self)),
            final(self).tokens@ == old(self).tokens@,
            final(self).simple_keys@ == old(self).simple_keys@,
            final(self).flow_level == old(self).flow_level,
            final(self).flow_mapping_started == old(self).flow_mapping_started,
            final(self).implicit_flow_mapping_states@ == old(self).implicit_flow_mapping_states@,
            final(self).budget() == old(self).budget(),
            forall|p: int| old(self).can_append_at(p) ==> final(self).can_append_at(p),
            final(self).indent <= old(self).indent,
            final(self).indent == strip_soft(old(self).indent as int, old(self).indents@).0,
            final(self).indents@ == strip_soft(old(self).indent as int, old(self).indents@).1,
    {
        while self.indents.len() > 0 && !self.indents[self.indents.len() - 1].needs_block_end
            invariant
                self.inv(),
                self.same_cursor(&*old(self)),
                self.tokens@ == old(self).tokens@,
                self.simple_keys@ == old(self).simple_keys@,
                self.flow_level == old(self).flow_level,
                self.flow_mapping_started == old(self).flow_mapping_started,
                self.implicit_flow_mapping_states@ == old(self).implicit_flow_mapping_states@,
                self.budget() == old(self).budget(),
                self.indent <= old(self).indent,
                strip_soft(self.indent as int, self.indents@) == strip_soft(old(self).indent as int, old(self).indents@),
            decreases self.indents@.len(),
        {
            let ghost before = *self;
            let indent = self.indents.pop().unwrap();
            self.indent = indent.indent;
            proof {
                assert(before.indents@.drop_last() =~= self.indents@);
            }
        }
    }

    /// Mark the next token to be queued as a potential simple key.
    pub fn save_simple_key(&mut self)
        requires
            old(self).inv(),
            !old(self).stream_end_fetched@,
            old(self).stream_start_produced,
            old(self).pos < old(self).src@.len(),
            old(self).tokens_parsed + old(self).tokens@.len() <= 8 * old(self).src@.len() + 2,
        ensures
            final(self).inv(),
            final(self).same_cursor(&*old(self)),
            final(self).tokens@ == old(self).tokens@,
            final(self).simple_keys@.len() == old(self).simple_keys@.len(),
            forall|i: int| 0 <= i < old(self).simple_keys@.len() - 1 ==> #[trigger] final(self).simple_keys@[i] == old(self).simple_keys@[i],
            old(self).simple_key_allowed ==> {
                let sk = final(self).simple_keys@.last();
                &&& sk.possible
                &&& sk.pos == old(self).pos
                &&& sk.token_number == old(self).tokens_parsed + old(self).tokens@.len()
            },
            !old(self).simple_key_allowed ==> final(self).simple_keys@ == old(self).simple_keys@,
            final(self).indents@ == old(self).indents@,
            final(self).indent == old(self).indent,
            final(self).flow_level == old(self).flow_level,
            final(self).flow_mapping_started == old(self).flow_mapping_started,
            final(self).implicit_flow_mapping_states@ == old(self).implicit_flow_mapping_states@,
            final(self).budget() == old(self).budget(),
            forall|p: int| old(self).can_append_at(p) && old(self).pos <= p ==> final(self).can_append_at(p),
    {
        if self.simple_key_allowed {
            let required = self.flow_level == 0 && self.indent == self.col as i64 && self.indents.len()
                > 0 && self.indents[self.indents.len() - 1].needs_block_end;
            let sk = SimpleKey {
                possible: true,
                required,
                token_number: self.tokens_parsed + self.tokens.len() as u64,
                pos: self.pos,
                line: self.line,
                col: self.col,
            };
            let n = self.simple_keys.len();
            self.simple_keys.set(n - 1, sk);
            proof {
                let ks = self.simple_keys@;
                assert forall|i: int| 0 <= i < ks.len() && (#[trigger] ks[i]).possible implies self.key_ok(ks[i]) by {
                    if i < ks.len() - 1 {
                        assert(ks[i] == old(self).simple_keys@[i]);
                        assert(old(self).key_ok(ks[i]));
                    }
                }
                assert forall|i: int, j: int| 0 <= i < j < ks.len() && (#[trigger] ks[i]).possible && (#[trigger] ks[j]).possible implies ks[i].token_number <= ks[j].token_number && ks[i].pos <= ks[j].pos by {
                    assert(ks[i] == old(self).simple_keys@[i]);
                    assert(old(self).key_ok(ks[i]));
                    if j < ks.len() - 1 {
                        assert(ks[j] == old(self).simple_keys@[j]);
                    }
                }
            }
        }
    }

    /// Drop the current simple key candidate; a required one is an error.
    pub fn remove_simple_key(&mut self) -> (r: ScanResult<()>)
        requires
            old(self).inv(),
            old(self).stream_start_produced,
        ensures
            r is Ok ==> {
                &&& final(self).inv()
                &&& final(self).same_cursor(&*old(self))
                &&& final(self).tokens@ == old(self).tokens@
                &&& final(self).simple_keys@ == old(self).simple_keys@.update(
                    old(self).simple_keys@.len() - 1,
                    SimpleKey { possible: false, ..old(self).simple_keys@.last() },
                )
                &&& final(self).indents@ == old(self).indents@
                &&& final(self).indent == old(self).indent
                &&& final(self).flow_level == old(self).flow_level
                &&& final(self).flow_mapping_started == old(self).flow_mapping_started
                &&& final(self).implicit_flow_mapping_states@ == old(self).implicit_flow_mapping_states@
                &&& final(self).budget() == old(self).budget()
                &&& forall|p: int| old(self).can_append_at(p) ==> final(self).can_append_at(p)
            },
            r is Err ==> r->Err_0.located(old(self).src@.len()),
            r is Err ==> old(self).simple_keys@.last().possible,
    {
        let n = self.simple_keys.len();
        let last = self.simple_keys[n - 1];
        if last.possible && last.required {
            return Err(Error::point(ErrorKind::InvalidSimpleKey, last.pos));
        }
        self.simple_keys.set(n - 1, SimpleKey { possible: false, ..last });
        proof {
            let ks = self.simple_keys@;
            assert forall|i: int| 0 <= i < ks.len() && (#[trigger] ks[i]).possible implies self.key_ok(ks[i]) by {
                assert(ks[i] == old(self).simple_keys@[i]);
                assert(old(self).key_ok(ks[i]));
            }
            assert forall|i: int, j: int| 0 <= i < j < ks.len() && (#[trigger] ks[i]).possible && (#[trigger] ks[j]).possible implies ks[i].token_number <= ks[j].token_number && ks[i].pos <= ks[j].pos by {
                assert(ks[i] == old(self).simple_keys@[i]);
                assert(ks[j] == old(self).simple_keys@[j]);
            }
            assert forall|p: int| old(self).can_append_at(p) implies self.can_append_at(p) by {
                assert forall|i: int| 0 <= i < ks.len() && (#[trigger] ks[i]).possible implies ks[i].pos <= p by {
                    assert(ks[i] == old(self).simple_keys@[i]);
                }
            }
        }
        Ok(())
    }

    /// Enter a flow collection.
    pub fn increase_flow_level(&mut self) -> (r: ScanResult<()>)
        requires
            old(self).inv(),
            old(self).stream_start_produced,
        ensures
            r is Ok ==> {
                &&& final(self).inv()
                &&& final(self).same_cursor(&*old(self))
                &&& final(self).tokens@ == old(self).tokens@
                &&& final(self).simple_keys@ == old(self).simple_keys@.push(final(self).simple_keys@.last())
                &&& !final(self).simple_keys@.last().possible
                &&& final(self).indents@ == old(self).indents@
                &&& final(self).indent == old(self).indent
                &&& final(self).flow_level == old(self).flow_level + 1
                &&& final(self).flow_mapping_started == old(self).flow_mapping_started
                &&& final(self).implicit_flow_mapping_states@ == old(self).implicit_flow_mapping_states@
                &&& final(self).budget() == old(self).budget()
                &&& forall|p: int| old(self).can_append_at(p) ==> final(self).can_append_at(p)
            },
            r is Err ==> r->Err_0.located(old(self).src@.len()),
    {
        self.simple_keys.push(SimpleKey::new());
        if self.flow_level == usize::MAX {
            return Err(self.error(ErrorKind::UnexpectedIndicator, self.pos));
        }
        self.flow_level = self.flow_level + 1;
        proof {
            let ks = self.simple_keys@;
            assert forall|i: int| 0 <= i < ks.len() && (#[trigger] ks[i]).possible implies self.key_ok(ks[i]) by {
                assert(ks[i] == old(self).simple_keys@[i]);
                assert(old(self).key_ok(ks[i]));
            }
            assert forall|i: int, j: int| 0 <= i < j < ks.len() && (#[trigger] ks[i]).possible && (#[trigger] ks[j]).possible implies ks[i].token_number <= ks[j].token_number && ks[i].pos <= ks[j].pos by {
                assert(ks[i] == old(self).simple_keys@[i]);
                assert(ks[j] == old(self).simple_keys@[j]);
            }
            assert forall|p: int| old(self).can_append_at(p) implies self.can_append_at(p) by {
                assert forall|i: int| 0 <= i < ks.len() && (#[trigger] ks[i]).possible implies ks[i].pos <= p by {
                    assert(ks[i] == old(self).simple_keys@[i]);
                }
            }
        }
        Ok(())
    }

    /// Leave a flow collection.
    pub fn decrease_flow_level(&mut self)
        requires
            old(self).inv(),
            old(self).stream_start_produced,
        ensures
            final(self).inv(),
            final(self).same_cursor(&*old(self)),
            final(self).tokens@ == old(self).tokens@,
            old(self).flow_level > 0 ==> final(self).simple_keys@ == old(self).simple_keys@.drop_last(),
            old(self).flow_level == 0 ==> final(self).simple_keys@ == old(self).simple_keys@,
            final(self).indents@ == old(self).indents@,
            final(self).indent == old(self).indent,
            final(self).flow_level == (if old(self).flow_level > 0 { old(self).flow_level - 1 } else { 0 }),
            final(self).flow_mapping_started == old(self).flow_mapping_started,
            final(self).implicit_flow_mapping_states@ == old(self).implicit_flow_mapping_states@,
            final(self).budget() == old(self).budget(),
            forall|p: int| old(self).can_append_at(p) ==> final(self).can_append_at(p),
    {
        if self.flow_level > 0 {
            self.flow_level = self.flow_level - 1;
            self.simple_keys.pop();
            proof {
                let ks = self.simple_keys@;
                assert forall|i: int| 0 <= i < ks.len() && (#[trigger] ks[i]).possible implies self.key_ok(ks[i]) by {
                    assert(ks[i] == old(self).simple_keys@[i]);
                    assert(old(self).key_ok(ks[i]));
                }
                assert forall|i: int, j: int| 0 <= i < j < ks.len() && (#[trigger] ks[i]).possible && (#[trigger] ks[j]).possible implies ks[i].token_number <= ks[j].token_number && ks[i].pos <= ks[j].pos by {
                    assert(ks[i] == old(self).simple_keys@[i]);
                    assert(ks[j] == old(self).simple_keys@[j]);
                }
                assert forall|p: int| old(self).can_append_at(p) implies self.can_append_at(p) by {
                    assert forall|i: int| 0 <= i < ks.len() && (#[trigger] ks[i]).possible implies ks[i].pos <= p by {
                        assert(ks[i] == old(self).simple_keys@[i]);
                    }
                }
            }
        }
    }

    /// If an implicit mapping had started, end it (does not pop the state).
    pub fn end_implicit_mapping(&mut self, at: usize)
        requires
            old(self).inv(),
            old(self).stream_start_produced,
            !old(self).stream_end_fetched@,
            at <= old(self).pos,
            is_char_boundary(old(self).src@, at as int),
            old(self).can_append_at(at as int),
        ensures
            final(self).inv(),
            final(self).same_cursor(&*old(self)),
            final(self).simple_keys@ == old(self).simple_keys@,
            final(self).indents@ == old(self).indents@,
            final(self).indent == old(self).indent,
            final(self).flow_level == old(self).flow_level,
            final(self).implicit_flow_mapping_states@.len() == old(self).implicit_flow_mapping_states@.len(),
            final(self).budget() == old(self).budget(),
            forall|p: int| old(self).can_append_at(p) && at <= p ==> final(self).can_append_at(p),
            inside_implicit_mapping(old(self).implicit_flow_mapping_states@) ==> {
                let st = old(self).implicit_flow_mapping_states@;
                &&& final(self).implicit_flow_mapping_states@ == st.update(st.len() - 1, ImplicitMappingState::Possible)
                &&& !final(self).flow_mapping_started
                &&& final(self).tokens@ == old(self).tokens@.push(
                    synthesized_token(TokenKind::FlowMappingEnd, at as int),
                )
            },
            !inside_implicit_mapping(old(self).implicit_flow_mapping_states@) ==> {
                &&& final(self).implicit_flow_mapping_states@ == old(self).implicit_flow_mapping_states@
                &&& final(self).flow_mapping_started == old(self).flow_mapping_started
                &&& final(self).tokens@ == old(self).tokens@
            },
    {
        let n = self.implicit_flow_mapping_states.len();
        if n > 0 && self.implicit_flow_mapping_states[n - 1] == ImplicitMappingState::Inside {
            self.flow_mapping_started = false;
            proof {
                lemma_count_inside_close(self.implicit_flow_mapping_states@);
            }
            self.implicit_flow_mapping_states.set(n - 1, ImplicitMappingState::Possible);
            self.push_token(Token::synthesized(TokenKind::FlowMappingEnd, at));
        }
    }

    /// Mark simple keys that can no longer be keys as such.
    pub fn stale_simple_keys(&mut self) -> (r: ScanResult<()>)
        requires
            old(self).inv(),
            old(self).stream_start_produced,
        ensures
            r is Ok ==> {
                &&& final(self).inv()
                &&& final(self).same_cursor(&*old(self))
                &&& final(self).tokens@ == old(self).tokens@
                &&& final(self).simple_keys@.len() == old(self).simple_keys@.len()
                &&& forall|i: int| 0 <= i < final(self).simple_keys@.len() ==> {
                    let o = #[trigger] old(self).simple_keys@[i];
                    final(self).simple_keys@[i] == if old(self).flow_level == 0 && is_stale(o, old(self).line as int, old(self).pos as int) {
                        key_dropped(o)
                    } else {
                        o
                    }
                }
                &&& final(self).indents@ == old(self).indents@
                &&& final(self).indent == old(self).indent
                &&& final(self).flow_level == old(self).flow_level
                &&& final(self).flow_mapping_started == old(self).flow_mapping_started
                &&& final(self).implicit_flow_mapping_states@ == old(self).implicit_flow_mapping_states@
                &&& final(self).budget() == old(self).budget()
                &&& forall|p: int| old(self).can_append_at(p) ==> final(self).can_append_at(p)
            },
            r is Err ==> r->Err_0.located(old(self).src@.len()),
            r is Err <==> old(self).flow_level == 0 && exists|i: int| 0 <= i < old(self).simple_keys@.len()
                && is_stale(#[trigger] old(self).simple_keys@[i], old(self).line as int, old(self).pos as int)
                && old(self).simple_keys@[i].required,
            (forall|i: int| 0 <= i < old(self).simple_keys@.len() ==> !(#[trigger] old(self).simple_keys@[i]).possible)
                ==> r is Ok && final(self).simple_keys@ == old(self).simple_keys@,
    {
        // Only block-context simple keys can go stale.
        if self.flow_level > 0 {
            return Ok(());
        }
        let n = self.simple_keys.len();
        let mut i: usize = 0;
        while i < n
            invariant
                0 <= i <= n,
                n == self.simple_keys@.len(),
                self.inv(),
                self.same_cursor(&*old(self)),
                self.tokens@ == old(self).tokens@,
                self.simple_keys@.len() == old(self).simple_keys@.len(),
                old(self).flow_level == 0,
                forall|j: int| 0 <= j < i ==> {
                    let o = #[trigger] old(self).simple_keys@[j];
                    &&& self.simple_keys@[j] == if is_stale(o, old(self).line as int, old(self).pos as int) {
                        key_dropped(o)
                    } else {
                        o
                    }
                    &&& !(is_stale(o, old(self).line as int, old(self).pos as int) && o.required)
                },
                forall|j: int| i <= j < n ==> #[trigger] self.simple_keys@[j] == old(self).simple_keys@[j],
                self.indents@ == old(self).indents@,
                self.indent == old(self).indent,
                self.flow_level == old(self).flow_level,
                self.flow_mapping_started == old(self).flow_mapping_started,
                self.implicit_flow_mapping_states@ == old(self).implicit_flow_mapping_states@,
                self.stream_start_produced,
                forall|p: int| old(self).can_append_at(p) ==> self.can_append_at(p),
                (forall|j: int| 0 <= j < old(self).simple_keys@.len() ==> !(#[trigger] old(self).simple_keys@[j]).possible)
                    ==> self.simple_keys@ == old(self).simple_keys@,
            decreases n - i,
        {
            let sk = self.simple_keys[i];
            // If not in a flow construct, simple keys cannot span multiple lines.
            if sk.possible && (sk.line < self.line || self.pos - sk.pos > 1024) {
                if sk.required {
                    assert(is_stale(old(self).simple_keys@[i as int], old(self).line as int, old(self).pos as int));
                    return Err(Error::point(ErrorKind::InvalidSimpleKey, sk.pos));
                }
                let ghost before = *self;
                self.simple_keys.set(i, SimpleKey { possible: false, ..sk });
                proof {
                    let ks = self.simple_keys@;
                    assert forall|u: int| 0 <= u < ks.len() && (#[trigger] ks[u]).possible implies self.key_ok(ks[u]) by {
                        assert(ks[u] == before.simple_keys@[u]);
                        assert(before.key_ok(ks[u]));
                    }
                    assert forall|u: int, v: int| 0 <= u < v < ks.len() && (#[trigger] ks[u]).possible && (#[trigger] ks[v]).possible implies ks[u].token_number <= ks[v].token_number && ks[u].pos <= ks[v].pos by {
                        assert(ks[u] == before.simple_keys@[u]);
                        assert(ks[v] == before.simple_keys@[v]);
                    }
                    assert forall|p: int| before.can_append_at(p) implies self.can_append_at(p) by {
                        assert forall|u: int| 0 <= u < ks.len() && (#[trigger] ks[u]).possible implies ks[u].pos <= p by {
                            assert(ks[u] == before.simple_keys@[u]);
                        }
                    }
                }
            }
            i = i + 1;
        }
        Ok(())
    }
}

} // verus!
