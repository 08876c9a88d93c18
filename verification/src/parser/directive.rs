//! Directives: `%NAME param param`, split into words.
use super::Parser;
use crate::ast::{directive_ok, is_ascii_space, percent_run_end, words_between, Directive};
use crate::pos::{src_bytes, Span};
use crate::scanner::{token_ok, Token, TokenKind};
use vstd::prelude::*;
use crate::pos::lemma_ascii_boundaries;
use vstd::utf8::{is_char_boundary, is_char_boundary_start_end_of_seq, valid_utf8};

verus! {

broadcast use vstd::string::group_string_axioms;

/// The bytes of the words collected so far: the name, then the parameters.
pub open spec fn words_said(name: Option<&str>, parameters: Seq<&str>) -> Seq<Seq<u8>> {
    match name {
        Some(n) => seq![src_bytes(n)] + parameters.map_values(|w: &str| src_bytes(w)),
        None => seq![],
    }
}

impl<'a> Parser<'a> {
    /// The directive of a `Directive` token: its name is the first word of
    /// its text after the leading `%`s, its parameters the other words.
    pub(crate) fn build_directive(&self, token: Token) -> (d: Directive<'a>)
        requires
            self.wf(),
            token.kind == TokenKind::Directive,
            token_ok(token, self.scanner.block_headers@, self.src()),
        ensures
            d.span == token.span,
            directive_ok(d, self.src()),
    {
        let ghost s = self.src();
        let bytes = self.source.as_bytes();
        let start = token.span.start as usize;
        let end = token.span.end as usize;
        proof {
            vstd::utf8::encode_utf8_valid_utf8(self.source@);
            assert(valid_utf8(s));
            assert(!token.synthesized);
        }
        let mut i = start;
        while i < end && bytes[i] == 0x25u8
            invariant
                start <= i <= end <= s.len(),
                bytes@ == s,
                percent_run_end(s, i as int, end as int) == percent_run_end(s, start as int, end as int),
                i > start || (start < end && s[start as int] == 0x25u8),
                i > start ==> s[i - 1] == 0x25u8,
            decreases end - i,
        {
            i = i + 1;
        }
        let ghost body_start = i as int;
        assert(percent_run_end(s, i as int, end as int) == i);

        let mut name: Option<&'a str> = None;
        let mut parameters: Vec<&'a str> = Vec::new();
        let mut word: Option<usize> = None;
        let mut j = i;
        while j < end
            invariant
                start < body_start <= j <= end <= s.len(),
                s.len() <= u32::MAX,
                bytes@ == s,
                s == src_bytes(self.source),
                valid_utf8(s),
                s[body_start - 1] == 0x25u8,
                end == s.len() || is_ascii_space(s[end as int]) || s[end as int] == 0x20u8 || s[end as int] == 0x09u8
                    || s[end as int] == 0x0Au8 || s[end as int] == 0x0Du8 || s[end as int] == 0u8,
                word matches Some(a) ==> body_start <= a < j && is_char_boundary(s, a as int),
                word is None ==> j == body_start || is_ascii_space(s[j - 1]),
                name is None ==> parameters@.len() == 0,
                words_said(name, parameters@) + words_between(s, j as int, end as int, match word { Some(a) => Some(a as int), None => None })
                    == words_between(s, body_start, end as int, None),
            decreases end - j,
        {
            let b = bytes[j];
            if b == 0x20u8 || b == 0x09u8 || b == 0x0Au8 || b == 0x0Cu8 || b == 0x0Du8 {
                if let Some(a) = word {
                    proof {
                        lemma_ascii_boundaries(s, j as int);
                    }
                    let w = Span::new(a as u32, j as u32).slice(self.source);
                    let ghost said = words_said(name, parameters@);
                    match name {
                        None => {
                            name = Some(w);
                        },
                        Some(_) => {
                            parameters.push(w);
                        },
                    }
                    proof {
                        assert(words_said(name, parameters@) =~= said.push(s.subrange(a as int, j as int)));
                    }
                    word = None;
                }
            } else if word.is_none() {
                proof {
                    lemma_ascii_boundaries(s, j - 1);
                }
                word = Some(j);
            }
            j = j + 1;
        }
        if let Some(a) = word {
            proof {
                if end < s.len() {
                    lemma_ascii_boundaries(s, end as int);
                } else {
                    is_char_boundary_start_end_of_seq(s);
                }
            }
            let w = Span::new(a as u32, end as u32).slice(self.source);
            let ghost said = words_said(name, parameters@);
            match name {
                None => {
                    name = Some(w);
                },
                Some(_) => {
                    parameters.push(w);
                },
            }
            proof {
                assert(words_said(name, parameters@) =~= said.push(s.subrange(a as int, end as int)));
            }
        }
        let name = match name {
            Some(n) => n,
            None => {
                proof {
                    if end < s.len() {
                        lemma_ascii_boundaries(s, end as int);
                    } else {
                        is_char_boundary_start_end_of_seq(s);
                    }
                }
                Span::empty(end as u32).slice(self.source)
            },
        };
        Directive { span: token.span, name, parameters }
    }
}

} // verus!
