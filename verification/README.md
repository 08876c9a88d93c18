# oxc_yaml_parser

A YAML 1.2 parser that produces a comment-preserving, span-faithful typed
AST, designed for building formatters, written in Verus with its behaviour
stated in contracts and proved.

- Scalar values are not cooked: consumers slice the source through spans.
- Comments are retained as trivia with exact spans, in source order.
- Syntax only: no schema or tag resolution, no alias resolution.
- Fail-fast: a syntax error returns `Err` with a span; no partial tree.

## What is proved

`Parser::parse` returns, on success, a tree for which `ast::root_ok` holds
against the source: the root spans the whole source; every child span nests
inside its parent's span; siblings come in source order without
overlapping; anchors, tags, `?`, `:`, `-`, quotes and the other indicators
sit where the construct they introduce begins; plain scalars do not end in
whitespace; every span falls on character boundaries, so `Span::slice`
can cut it out of the source; directives are split into their name and
parameters; and every comment listed is a `#` run up to the end of its
line, in source order (that no comment is missed is not stated). An error
points into the source; a source longer than `u32::MAX` bytes, and only
such a source, is refused with `SourceTooLong`. A source of nothing but
whitespace and comments parses to a root without documents.

The contracts do not state which tree a given source yields, nor on which
sources parsing succeeds: there is no grammar of YAML among the specs.
Below the parser, some pieces are pinned exactly:

- a quoted scalar's token ends just after the quote that `quoted_close`
  finds (a doubled `''` or an escaped `\"` does not close it); on one
  line, with valid escapes and a line end, `:` or (in flow) `,`/`]`/`}`
  after the quote, it succeeds; running into the end of input, it fails
  with `UnterminatedFlowScalar` at the opening quote;
- a block scalar's header (chomping, indentation digit in either order, a
  `0` digit refused) is recorded as written; its content start, content
  end and token end are those of `header_content_start`,
  `block_first_stop` and `block_content`; and it succeeds when the header
  line holds nothing else and the first line's indentation is valid;
- a plain scalar stops only where `plain_stops` holds, with nothing but
  blanks, line breaks and comments between its end and the cursor; a `#`
  after a blank inside it lies in a recorded comment; and in block context,
  with no tab ahead, it succeeds whenever `plain_can_start` holds;
- a `:` queues exactly the `Key`, mapping-start and `Value` tokens that its
  simple or explicit key calls for; it fails when that key is refused, or
  with `TabAsIndent` when tabs lead to `-` or a letter, and unless a tab
  follows the `:`, only then;
- the indentation stack, simple keys and implicit flow mappings change as
  `roll_state`, `strip_soft`, `is_stale` and friends describe;
- the conformance report counts and renders outcomes exactly, and sorts
  its listings by path.

The scanner keeps an invariant over its token queue, simple keys, indent
stack and flow levels; tokens come out in source order, synthesized ones
zero width, and every call makes progress, which is what the parser's
termination rests on.

## The arena

The original allocates its tree in an `oxc_allocator` arena. Here the tree
uses std `Box` and `Vec`: Verus refuses a type that holds itself through
an outside type (`Node` inside `oxc_allocator::Box<Node>` is "a recursive
use in a non-positive position"), and the arena's `Vec` panics past `u32`
lengths, which a verified function may not do. `Parser::new` still takes
the `Allocator`, and the crate re-exports it, so callers keep the same
calls; the public tree types have no arena lifetime.

## Layout

- `src/pos.rs`: spans, slicing, and UTF-8 boundary lemmas.
- `src/scanner/`: the tokenizer (`cursor`, `bookkeeping`, `fetch`, `scalars`).
- `src/parser/`: recursive descent over the tokens (`node`, `collection`,
  `document`, `directive`).
- `src/ast.rs`: the tree and its well-formedness predicates.
- `src/conformance.rs`: outcome counting and report rendering for the
  conformance runner.
- `app/`: the command-line tools (`parse <file>`, conformance runner).
