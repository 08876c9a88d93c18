use oxc_yaml_parser::ast::{
    Chomping, Content, FlowSequenceEntry, MappingItem, Node, Props, Root, SequenceItem,
};
use oxc_yaml_parser::{Allocator, ErrorKind, Parser, Span};

fn parse<'a>(allocator: &'a Allocator, source: &'a str) -> Root<'a> {
    Parser::new(allocator, source).parse().unwrap()
}

fn inside(inner: Span, outer: Span) -> bool {
    outer.start <= inner.start && inner.start <= inner.end && inner.end <= outer.end
}

fn check_ordered(spans: &[Span]) {
    for pair in spans.windows(2) {
        assert!(pair[0].end <= pair[1].start, "siblings overlap: {pair:?}");
    }
}

fn check_item(it: &MappingItem, src: &[u8]) {
    if let Some(key) = &it.key {
        assert!(inside(key.span, it.span));
        if key.explicit {
            assert_eq!(src[key.span.start as usize], b'?');
        }
        if let Some(n) = &key.content {
            assert!(inside(n.span, key.span));
            check_node(n, src);
        }
    }
    if let Some(value) = &it.value {
        assert!(inside(value.span, it.span));
        assert_eq!(src[value.span.start as usize], b':');
        if let Some(n) = &value.content {
            assert!(inside(n.span, value.span));
            check_node(n, src);
        }
    }
    if let (Some(k), Some(v)) = (&it.key, &it.value) {
        assert!(k.span.end <= v.span.start);
    }
}

fn check_entry(si: &SequenceItem, src: &[u8]) {
    assert_eq!(src[si.span.start as usize], b'-');
    if let Some(n) = &si.content {
        assert!(inside(n.span, si.span));
        check_node(n, src);
    }
}

/// Walks a node, checking that every child span nests inside its parent
/// and that siblings come in source order.
fn check_node(n: &Node, src: &[u8]) {
    assert!(n.span.end as usize <= src.len());
    let c = n.content.span();
    assert!(inside(c, n.span));
    if let Some(a) = n.props.anchor {
        assert!(inside(a.span, n.span));
        assert_eq!(src[a.span.start as usize], b'&');
        assert!(a.span.end <= c.start);
    }
    if let Some(t) = n.props.tag {
        assert!(inside(t.span, n.span));
        assert_eq!(src[t.span.start as usize], b'!');
        assert!(t.span.end <= c.start);
    }
    match &n.content {
        Content::Plain(p) => {
            if !p.span.is_empty() {
                let last = src[p.span.end as usize - 1];
                assert!(!matches!(last, b' ' | b'\t' | b'\n' | b'\r'));
            }
        }
        Content::QuoteSingle(q) => {
            assert_eq!(src[q.span.start as usize], b'\'');
            assert_eq!(src[q.span.end as usize - 1], b'\'');
        }
        Content::QuoteDouble(q) => {
            assert_eq!(src[q.span.start as usize], b'"');
            assert_eq!(src[q.span.end as usize - 1], b'"');
        }
        Content::BlockLiteral(b) | Content::BlockFolded(b) => {
            assert!(b.span.start < b.content_start);
            assert!(b.content_start <= b.content_end);
            assert!(b.content_end <= b.span.end);
        }
        Content::Alias(a) => assert_eq!(src[a.span.start as usize], b'*'),
        Content::Mapping(m) => {
            for it in &m.children {
                assert!(inside(it.span, m.span));
                check_item(it, src);
            }
            check_ordered(&m.children.iter().map(|c| c.span).collect::<Vec<_>>());
        }
        Content::FlowMapping(m) => {
            for it in &m.children {
                assert!(inside(it.span, m.span));
                check_item(it, src);
            }
            check_ordered(&m.children.iter().map(|c| c.span).collect::<Vec<_>>());
        }
        Content::Sequence(s) => {
            for si in &s.children {
                assert!(inside(si.span, s.span));
                check_entry(si, src);
            }
            check_ordered(&s.children.iter().map(|c| c.span).collect::<Vec<_>>());
        }
        Content::FlowSequence(f) => {
            assert_eq!(src[f.span.start as usize], b'[');
            assert_eq!(src[f.span.end as usize - 1], b']');
            let mut spans = Vec::new();
            for e in &f.children {
                let sp = match e {
                    FlowSequenceEntry::Item(n) => {
                        check_node(n, src);
                        n.span
                    }
                    FlowSequenceEntry::Pair(p) => {
                        check_item(p, src);
                        p.span
                    }
                };
                assert!(inside(sp, f.span));
                spans.push(sp);
            }
            check_ordered(&spans);
        }
    }
}

fn check_root(source: &str) {
    let allocator = Allocator::default();
    let root = parse(&allocator, source);
    let src = source.as_bytes();
    assert_eq!(root.span, Span::new(0, src.len() as u32));
    for d in &root.children {
        assert!(inside(d.span, root.span));
        assert!(inside(d.head.span, d.span));
        assert!(inside(d.body.span, d.span));
        assert!(d.head.span.end <= d.body.span.start);
        for dir in &d.head.directives {
            assert!(inside(dir.span, d.head.span));
            assert_eq!(src[dir.span.start as usize], b'%');
        }
        if let Some(n) = &d.body.content {
            assert_eq!(n.span, d.body.span);
            check_node(n, src);
        }
    }
    check_ordered(&root.children.iter().map(|d| d.span).collect::<Vec<_>>());
    for c in &root.comments {
        let text = c.span.slice(source);
        assert!(text.starts_with('#'));
        assert!(!text.contains('\n') && !text.contains('\r'));
        let after = src.get(c.span.end as usize).copied();
        assert!(matches!(after, None | Some(b'\n') | Some(b'\r')));
    }
    check_ordered(&root.comments.iter().map(|c| c.span).collect::<Vec<_>>());
}

#[test]
fn spans_nest_in_a_block_mapping() {
    check_root("# head\na: &x !!map\n  b: [1, 'two', \"three\"]  # c\n  c: |-\n    text\n  d: *x\n? k\n: v\n");
}

#[test]
fn spans_nest_in_flow_collections() {
    check_root("{a: [b, c: d, {e}], ? f : g, h}\n---\n[x: y, [z], {}]\n");
}

#[test]
fn spans_nest_in_sequences_and_documents() {
    check_root("%YAML 1.2\n--- # first\n- a\n- - b\n  - c\n- key:\n  - d\n...\n--- >\n folded\n...\n");
}

#[test]
fn spans_nest_with_multibyte_text() {
    check_root("clé: «valeur»\nliste:\n  - ünïcödé\n  - 'çà'\n");
}

#[test]
fn root_span_covers_the_source() {
    let allocator = Allocator::default();
    let source = "a: b\n";
    let root = parse(&allocator, source);
    assert_eq!(root.span, Span::new(0, 5));
    assert_eq!(root.children.len(), 1);
    assert_eq!(root.children[0].span, Span::new(0, 4));
}

#[test]
fn empty_document_body_sits_after_the_marker() {
    let allocator = Allocator::default();
    let source = "---\n";
    let root = parse(&allocator, source);
    let d = &root.children[0];
    assert_eq!(d.directives_end_marker, Some(Span::new(0, 3)));
    assert!(d.body.content.is_none());
    assert_eq!(d.body.span, Span::empty(3));
    assert_eq!(d.span, Span::new(0, 3));
}

#[test]
fn directive_words_split_on_ascii_whitespace() {
    let allocator = Allocator::default();
    let source = "%%TAG  !e!\ttag:x\n%\n---\nx\n";
    let root = parse(&allocator, source);
    let directives = &root.children[0].head.directives;
    assert_eq!(directives.len(), 2);
    assert_eq!(directives[0].name, "TAG");
    assert_eq!(directives[0].parameters.as_slice(), ["!e!", "tag:x"]);
    assert_eq!(directives[0].span.slice(source), "%%TAG  !e!\ttag:x");
    assert_eq!(directives[1].name, "");
    assert!(directives[1].parameters.is_empty());
}

#[test]
fn lone_flow_key_is_a_pair_without_value() {
    let allocator = Allocator::default();
    let source = "{a, b: c}\n";
    let root = parse(&allocator, source);
    let Some(node) = &root.children[0].body.content else { panic!("expected a node") };
    let Content::FlowMapping(m) = &node.content else { panic!("expected flow mapping") };
    assert_eq!(m.children.len(), 2);
    let first = &m.children[0];
    assert_eq!(first.span.slice(source), "a");
    assert!(!first.key.as_ref().unwrap().explicit);
    assert!(first.value.is_none());
    assert_eq!(m.children[1].span.slice(source), "b: c");
    assert_eq!(m.span.slice(source), "{a, b: c}");
}

#[test]
fn key_and_value_content_accessors() {
    let allocator = Allocator::default();
    let source = "a: 1\n? b\n";
    let root = parse(&allocator, source);
    let Some(node) = &root.children[0].body.content else { panic!("expected a node") };
    let Content::Mapping(m) = &node.content else { panic!("expected mapping") };
    assert_eq!(m.children[0].key_content().unwrap().span.slice(source), "a");
    assert_eq!(m.children[0].value_content().unwrap().span.slice(source), "1");
    assert_eq!(m.children[1].key_content().unwrap().span.slice(source), "b");
    assert!(m.children[1].value_content().is_none());
}

#[test]
fn props_start_is_the_first_property() {
    let allocator = Allocator::default();
    let source = "!t &a x\n";
    let root = parse(&allocator, source);
    let Some(node) = &root.children[0].body.content else { panic!("expected a node") };
    assert_eq!(node.props.start(), Some(0));
    assert_eq!(node.span.slice(source), "!t &a x");
    let none = Props { anchor: None, tag: None };
    assert_eq!(none.start(), None);
}

#[test]
fn block_scalar_folded_with_strip() {
    let allocator = Allocator::default();
    let source = "- >-\n  one\n  two\n\n";
    let root = parse(&allocator, source);
    let Some(node) = &root.children[0].body.content else { panic!("expected a node") };
    let Content::Sequence(s) = &node.content else { panic!("expected sequence") };
    let item = s.children[0].content.as_ref().unwrap();
    let Content::BlockFolded(b) = &item.content else { panic!("expected folded") };
    assert_eq!(b.chomping, Chomping::Strip);
    assert_eq!(b.indent, None);
    assert_eq!(Span::new(b.content_start, b.content_end).slice(source), "  one\n  two");
}

#[test]
fn escapes_in_double_quotes() {
    let allocator = Allocator::default();
    let source = "\"a\\n\\x41\\u00e9\\U0001F600\"\n";
    let root = parse(&allocator, source);
    let Some(node) = &root.children[0].body.content else { panic!("expected a node") };
    assert_eq!(node.span.slice(source), "\"a\\n\\x41\\u00e9\\U0001F600\"");
}

#[test]
fn span_helpers() {
    let source = "héllo";
    assert_eq!(Span::new(0, 3).slice(source), "hé");
    assert_eq!(Span::new(3, 6).slice(source), "llo");
    assert!(Span::empty(2).is_empty());
    assert!(!Span::new(1, 2).is_empty());
    assert_eq!(Span::empty(4), Span::new(4, 4));
}

fn error_kind(source: &str) -> ErrorKind {
    let allocator = Allocator::default();
    let error = Parser::new(&allocator, source).parse().unwrap_err();
    assert!(error.span.start <= error.span.end);
    assert!(error.span.end as usize <= source.len());
    error.kind
}

#[test]
fn error_invalid_char() {
    assert_eq!(error_kind("@foo\n"), ErrorKind::InvalidChar);
}

#[test]
fn error_tab_as_indent() {
    assert_eq!(error_kind("|\n\tfoo\n"), ErrorKind::TabAsIndent);
}

#[test]
fn error_expected_document_start() {
    assert_eq!(error_kind("%YAML 1.2\nfoo\n"), ErrorKind::ExpectedDocumentStart);
}

#[test]
fn error_expected_document_end() {
    assert_eq!(error_kind("a\n... x\n"), ErrorKind::ExpectedDocumentEnd);
}

#[test]
fn error_empty_anchor_name() {
    assert_eq!(error_kind("& a\n"), ErrorKind::EmptyAnchorName);
}

#[test]
fn error_invalid_tag() {
    assert_eq!(error_kind("!<abc\n"), ErrorKind::InvalidTag);
}

#[test]
fn error_invalid_block_scalar_header() {
    assert_eq!(error_kind("|0\n"), ErrorKind::InvalidBlockScalarHeader);
}

#[test]
fn error_invalid_block_scalar_indent() {
    assert_eq!(error_kind("|\n   \n x\n"), ErrorKind::InvalidBlockScalarIndent);
}

#[test]
fn error_unterminated_flow_scalar() {
    assert_eq!(error_kind("'abc"), ErrorKind::UnterminatedFlowScalar);
}

#[test]
fn error_unexpected_flow_indicator() {
    assert_eq!(error_kind(", a\n"), ErrorKind::UnexpectedFlowIndicator);
}

#[test]
fn error_invalid_simple_key() {
    assert_eq!(error_kind("a: 1\nb\nc: 2\n"), ErrorKind::InvalidSimpleKey);
}

#[test]
fn error_unexpected_indicator() {
    assert_eq!(error_kind("a: - b\n"), ErrorKind::UnexpectedIndicator);
}

#[test]
fn error_unexpected_value() {
    assert_eq!(error_kind("a: b: c\n"), ErrorKind::UnexpectedValue);
}

#[test]
fn error_expected_node() {
    assert_eq!(error_kind("[}]\n"), ErrorKind::ExpectedNode);
}

#[test]
fn error_duplicated_node_property() {
    assert_eq!(error_kind("&a &b x\n"), ErrorKind::DuplicatedNodeProperty);
}

#[test]
fn error_unexpected_token() {
    assert_eq!(error_kind("a: b\n- c\n"), ErrorKind::UnexpectedToken("token in mapping"));
}

#[test]
fn error_invalid_escape() {
    assert_eq!(error_kind("\"\\q\"\n"), ErrorKind::UnexpectedToken("escape character"));
    assert_eq!(error_kind("\"\\x4g\"\n"), ErrorKind::UnexpectedToken("hexadecimal digit"));
    assert_eq!(error_kind("\"\\uD800\"\n"), ErrorKind::InvalidChar);
}

#[test]
fn error_message_format() {
    let allocator = Allocator::default();
    let error = Parser::new(&allocator, "@foo\n").parse().unwrap_err();
    assert_eq!(error.message(), "invalid character at 0..1");
    assert_eq!(ErrorKind::UnexpectedToken("comment").message(), "unexpected comment");
    assert_eq!(ErrorKind::SourceTooLong.message(), "source exceeds the maximum supported size (4 GiB)");
}

#[test]
fn readme_example_keeps_the_comment() {
    let allocator = Allocator::default();
    let source = "key: value # comment";
    let root = Parser::new(&allocator, source).parse().unwrap();
    assert_eq!(root.children.len(), 1);
    assert_eq!(root.comments.len(), 1);
    assert_eq!(root.comments[0].span.slice(source), "# comment");
}

#[test]
fn bom_and_crlf_are_handled() {
    check_root("\u{feff}a: 1\r\nb: [x, y]\r\n# end\r\n");
    let allocator = Allocator::default();
    let source = "\u{feff}a: 1\r\n";
    let root = parse(&allocator, source);
    let Some(node) = &root.children[0].body.content else { panic!("expected a node") };
    assert_eq!(node.span.slice(source), "a: 1");
}

#[test]
fn empty_and_comment_only_sources() {
    check_root("");
    check_root("# only a comment\n\n  # another\n");
    let allocator = Allocator::default();
    let root = parse(&allocator, "# only a comment\n");
    assert!(root.children.is_empty());
    assert_eq!(root.comments.len(), 1);
}

#[test]
fn empty_block_scalar_ends_at_its_last_line_break() {
    // No content line: the token ends right after the header's line break,
    // not inside the next entry's indentation.
    let allocator = Allocator::default();
    let source = "a:\n  b: |\n  c: d\n";
    let root = Parser::new(&allocator, source).parse().unwrap();
    let Content::Mapping(outer) = &root.children[0].body.content.as_ref().unwrap().content else {
        panic!("expected mapping");
    };
    let Content::Mapping(inner) = &outer.children[0].value_content().unwrap().content else {
        panic!("expected nested mapping");
    };
    assert_eq!(inner.children.len(), 2);
    let Content::BlockLiteral(block) = &inner.children[0].value_content().unwrap().content else {
        panic!("expected block literal");
    };
    assert_eq!(block.span, Span::new(8, 10));
    assert_eq!(block.content_start, 10);
    assert_eq!(block.content_end, 10);
}

#[test]
fn empty_block_scalar_owns_its_empty_lines() {
    let allocator = Allocator::default();
    let source = "a:\n  b: |\n\n\n  c: d\n";
    let root = Parser::new(&allocator, source).parse().unwrap();
    let Content::Mapping(outer) = &root.children[0].body.content.as_ref().unwrap().content else {
        panic!("expected mapping");
    };
    let Content::Mapping(inner) = &outer.children[0].value_content().unwrap().content else {
        panic!("expected nested mapping");
    };
    let Content::BlockLiteral(block) = &inner.children[0].value_content().unwrap().content else {
        panic!("expected block literal");
    };
    assert_eq!(block.span, Span::new(8, 12));
}

#[test]
fn doubled_single_quote_does_not_close() {
    let allocator = Allocator::default();
    let source = "'it''s'\n";
    let root = Parser::new(&allocator, source).parse().unwrap();
    let node = root.children[0].body.content.as_ref().unwrap();
    assert!(matches!(node.content, Content::QuoteSingle(_)));
    assert_eq!(node.span, Span::new(0, 7));
}

#[test]
fn escaped_double_quote_does_not_close() {
    let allocator = Allocator::default();
    let source = "\"a\\\"b\"";
    let root = Parser::new(&allocator, source).parse().unwrap();
    let node = root.children[0].body.content.as_ref().unwrap();
    assert!(matches!(node.content, Content::QuoteDouble(_)));
    assert_eq!(node.span, Span::new(0, 6));
}

#[test]
fn unterminated_quoted_scalar_is_an_error() {
    let allocator = Allocator::default();
    let e = Parser::new(&allocator, "'abc").parse().unwrap_err();
    assert_eq!(e.kind, ErrorKind::UnterminatedFlowScalar);
    assert_eq!(e.span, Span::new(0, 1));
}

#[test]
fn block_scalar_header_in_either_order() {
    let allocator = Allocator::default();
    for (source, chomping, indent) in [
        ("k: |2-\n  a\n", Chomping::Strip, Some(2)),
        ("k: |-2\n  a\n", Chomping::Strip, Some(2)),
        ("k: >+\n a\n", Chomping::Keep, None),
        ("k: >\n a\n", Chomping::Clip, None),
    ] {
        let root = Parser::new(&allocator, source).parse().unwrap();
        let Content::Mapping(m) = &root.children[0].body.content.as_ref().unwrap().content else {
            panic!("expected mapping");
        };
        let block = match &m.children[0].value_content().unwrap().content {
            Content::BlockLiteral(b) | Content::BlockFolded(b) => b,
            _ => panic!("expected block scalar"),
        };
        assert_eq!(block.chomping, chomping, "{source:?}");
        assert_eq!(block.indent, indent, "{source:?}");
    }
}

#[test]
fn zero_indentation_indicator_is_an_error() {
    let allocator = Allocator::default();
    let e = Parser::new(&allocator, "k: |0\n a\n").parse().unwrap_err();
    assert_eq!(e.kind, ErrorKind::InvalidBlockScalarHeader);
}

#[test]
fn tab_after_value_indicator_before_text_is_an_error() {
    let allocator = Allocator::default();
    let e = Parser::new(&allocator, "a:\tb\n").parse().unwrap_err();
    assert_eq!(e.kind, ErrorKind::TabAsIndent);
    assert_eq!(e.span.start, 3);
}

#[test]
fn plain_scalar_stops_before_a_comment() {
    let allocator = Allocator::default();
    let source = "a # c\n";
    let root = Parser::new(&allocator, source).parse().unwrap();
    let node = root.children[0].body.content.as_ref().unwrap();
    assert_eq!(node.span.slice(source), "a");
    assert_eq!(root.comments.len(), 1);
    assert_eq!(root.comments[0].span.slice(source), "# c");
}
