use prosidy::error::{ErrorKind, Location, Rule};
use prosidy::parse::{parse_document, parse_escape, parse_meta, Pair};
use prosidy::{Block, BlockTag, Document, Inline, InlineTag, Key, Literal, Meta, PropSet, Tag, Text};

fn atom(rule: Rule, text: &'static str) -> Pair<'static> {
    Pair { rule, start: 0, end: text.len(), text, inner: vec![] }
}

fn node(rule: Rule, inner: Vec<Pair<'static>>) -> Pair<'static> {
    Pair { rule, start: 0, end: 0, text: "", inner }
}

fn plain(text: &'static str) -> Pair<'static> {
    atom(Rule::PlainText, text)
}

fn escape(text: &'static str) -> Pair<'static> {
    atom(Rule::EscapedPlainText, text)
}

fn key(name: &'static str) -> Pair<'static> {
    atom(Rule::Key, name)
}

fn document(body: Vec<Pair<'static>>) -> Vec<Pair<'static>> {
    let mut inner = body;
    inner.push(atom(Rule::EOI, ""));
    vec![node(Rule::Document, inner)]
}

fn props(entries: Vec<(&'static str, Option<&'static str>)>) -> Pair<'static> {
    let mut list = vec![];
    for (k, v) in entries {
        let mut inner = vec![key(k)];
        if let Some(v) = v {
            inner.push(node(Rule::QuotedText, vec![atom(Rule::PlainQuotedText, v)]));
        }
        list.push(node(Rule::Prop, inner));
    }
    node(Rule::Props, list)
}

fn prop_set(entries: Vec<(&'static str, Option<&'static str>)>) -> PropSet<'static> {
    let mut props = PropSet::new();
    for (k, v) in entries {
        match v {
            Some(v) => {
                props.put(Key::new(k), Text::new(v));
            }
            None => props.set(Key::new(k)),
        }
    }
    props
}

fn text(s: &'static str) -> Inline<'static> {
    Inline::Text(Text::new(s))
}

fn block_tag(name: &'static str, props: PropSet<'static>, content: Vec<Block<'static>>) -> Block<'static> {
    Block::Tag(BlockTag::new(Key::new(name), props, content))
}

fn inline_tag(name: &'static str, props: PropSet<'static>, content: Vec<Inline<'static>>) -> Inline<'static> {
    Inline::Tag(InlineTag::new(Key::new(name), props, content))
}

fn literal(s: &'static str) -> Block<'static> {
    Block::Literal(Literal::new(Text::new(s)))
}

fn untitled(content: Vec<Block<'static>>) -> Document<'static> {
    Document::new(Meta::default(), content)
}

fn titled(title: &'static str, content: Vec<Block<'static>>) -> Document<'static> {
    Document::new(Meta::new(Text::new(title), PropSet::new()), content)
}

#[test]
fn test_simple() {
    let pairs = document(vec![node(
        Rule::Paragraph,
        vec![plain("This is a simple document with only a single paragraph.")],
    )]);
    let actual = parse_document(&pairs).unwrap();
    let expected = untitled(vec![Block::Content(vec![text(
        "This is a simple document with only a single paragraph.",
    )])]);
    assert_eq!(actual, expected);
    assert_eq!(actual.title().as_str(), "");
    assert!(actual.props().is_empty());
}

#[test]
fn test02_test_escape() {
    let pairs = document(vec![
        node(
            Rule::Header,
            vec![
                node(Rule::Title, vec![plain("002 - Lots of escapes ("), escape("\\\\"), plain(")")]),
                node(
                    Rule::DocumentProps,
                    vec![node(
                        Rule::DocumentProp,
                        vec![
                            key("author"),
                            node(Rule::DocumentPropValue, vec![escape("\\#"), plain("hash"), escape("\\#")]),
                        ],
                    )],
                ),
            ],
        ),
        node(
            Rule::Paragraph,
            vec![
                plain("This is a document that contains multiple escape sequences."),
                node(Rule::SoftBreak, vec![]),
                plain("Escape sequences appear as "),
                node(Rule::InlineTag, vec![key("lit"), node(Rule::Paragraph, vec![escape("\\\\"), escape("\\{")])]),
                plain(", for instance."),
            ],
        ),
    ]);
    let actual = parse_document(&pairs).unwrap();
    let expected = Document::new(
        Meta::new(Text::new("002 - Lots of escapes (\\)"), prop_set(vec![("author", Some("#hash#"))])),
        vec![Block::Content(vec![
            text("This is a document that contains multiple escape sequences."),
            Inline::SoftBreak,
            text("Escape sequences appear as "),
            inline_tag("lit", PropSet::new(), vec![text("\\{")]),
            text(", for instance."),
        ])],
    );
    assert_eq!(actual, expected);
}

fn paragraph(items: Vec<Pair<'static>>) -> Pair<'static> {
    node(Rule::Paragraph, items)
}

#[test]
fn test03_test_escape() {
    let pairs = document(vec![
        node(Rule::Header, vec![node(Rule::Title, vec![plain("Tags")])]),
        node(Rule::BlockTag, vec![key("simple")]),
        node(Rule::BlockTag, vec![key("props"), props(vec![("foo", None), ("bar", Some("baz"))])]),
        node(Rule::BlockTag, vec![key("nested"), paragraph(vec![plain("Content!")])]),
        node(
            Rule::BlockTag,
            vec![
                key("multiline"),
                paragraph(vec![
                    plain("Some "),
                    node(Rule::InlineTag, vec![key("em"), props(vec![("ru", Some("еще"))]), paragraph(vec![plain("more")])]),
                    plain(" content!"),
                ]),
            ],
        ),
        node(
            Rule::BlockTag,
            vec![
                key("propsnested"),
                props(vec![("foo", None), ("bar", Some("baz"))]),
                paragraph(vec![
                    plain("Even "),
                    node(Rule::InlineTag, vec![key("em"), props(vec![("es", Some("más"))]), paragraph(vec![plain("more")])]),
                    plain(" content!"),
                ]),
            ],
        ),
        node(
            Rule::BlockTag,
            vec![
                key("propsmultiline"),
                props(vec![("qux", None), ("baz", Some("foo"))]),
                node(Rule::BlockTag, vec![key("nestedinmultiline"), paragraph(vec![plain("Ok then")])]),
            ],
        ),
        node(
            Rule::BlockTag,
            vec![key("named-end"), paragraph(vec![plain("This block has a named start/end delimiter.")])],
        ),
        node(Rule::LiteralTag, vec![key("lit"), atom(Rule::Literal, "#this{isn\'t} valid at all!\n#:\n#:\n#:\n")]),
        node(
            Rule::LiteralTag,
            vec![
                key("lit"),
                props(vec![("flag", None), ("withprops", Some("true"))]),
                atom(Rule::Literal, "    this literal has properties!\n"),
            ],
        ),
        node(
            Rule::BlockTag,
            vec![
                key("content"),
                node(Rule::LiteralTag, vec![key("lit"), atom(Rule::Literal, "        Literals can be nested!\n")]),
            ],
        ),
    ]);
    let actual = parse_document(&pairs).unwrap();
    let expected = titled(
        "Tags",
        vec![
            block_tag("simple", PropSet::new(), vec![]),
            block_tag("props", prop_set(vec![("foo", None), ("bar", Some("baz"))]), vec![]),
            block_tag("nested", PropSet::new(), vec![Block::Content(vec![text("Content!")])]),
            block_tag(
                "multiline",
                PropSet::new(),
                vec![Block::Content(vec![
                    text("Some "),
                    inline_tag("em", prop_set(vec![("ru", Some("еще"))]), vec![text("more")]),
                    text(" content!"),
                ])],
            ),
            block_tag(
                "propsnested",
                prop_set(vec![("foo", None), ("bar", Some("baz"))]),
                vec![Block::Content(vec![
                    text("Even "),
                    inline_tag("em", prop_set(vec![("es", Some("más"))]), vec![text("more")]),
                    text(" content!"),
                ])],
            ),
            block_tag(
                "propsmultiline",
                prop_set(vec![("qux", None), ("baz", Some("foo"))]),
                vec![block_tag(
                    "nestedinmultiline",
                    PropSet::new(),
                    vec![Block::Content(vec![text("Ok then")])],
                )],
            ),
            block_tag(
                "named-end",
                PropSet::new(),
                vec![Block::Content(vec![text("This block has a named start/end delimiter.")])],
            ),
            block_tag("lit", PropSet::new(), vec![literal("#this{isn\'t} valid at all!\n#:\n#:\n#:\n")]),
            block_tag(
                "lit",
                prop_set(vec![("flag", None), ("withprops", Some("true"))]),
                vec![literal("    this literal has properties!\n")],
            ),
            block_tag(
                "content",
                PropSet::new(),
                vec![block_tag("lit", PropSet::new(), vec![literal("        Literals can be nested!\n")])],
            ),
        ],
    );
    assert_eq!(actual, expected);
}

#[test]
fn test_empty_forms() {
    let empty_block = || node(Rule::BlockTag, vec![key("block")]);
    let empty_inline = || node(Rule::InlineTag, vec![key("inline")]);
    let soft = || node(Rule::SoftBreak, vec![]);
    let pairs = document(vec![
        node(Rule::Header, vec![node(Rule::Title, vec![plain("Empty forms")])]),
        empty_block(),
        empty_block(),
        empty_block(),
        empty_block(),
        paragraph(vec![empty_inline(), soft(), empty_inline(), soft(), empty_inline(), soft(), empty_inline()]),
        node(Rule::LiteralTag, vec![key("lit")]),
        node(Rule::LiteralTag, vec![key("lit")]),
    ]);
    let actual = parse_document(&pairs).unwrap();
    let block = || block_tag("block", PropSet::new(), vec![]);
    let inline = || inline_tag("inline", PropSet::new(), vec![]);
    let lit = || block_tag("lit", PropSet::new(), vec![Block::Literal(Literal::default())]);
    let expected = titled(
        "Empty forms",
        vec![
            block(),
            block(),
            block(),
            block(),
            Block::Content(vec![
                inline(),
                Inline::SoftBreak,
                inline(),
                Inline::SoftBreak,
                inline(),
                Inline::SoftBreak,
                inline(),
            ]),
            lit(),
            lit(),
        ],
    );
    assert_eq!(actual, expected);
}

#[test]
fn escape_table_decodes_known_sequences() {
    let cases = [("\\n", "\n"), ("\\t", "\t"), ("\\\\", "\\"), ("\\#", "#"), ("\\{", "{"), ("\\}", "}")];
    for (source, decoded) in cases {
        assert_eq!(parse_escape(source).unwrap().as_str(), decoded);
    }
}

#[test]
fn unknown_escape_is_a_hard_error() {
    let err = parse_escape("\\x").unwrap_err();
    assert_eq!(err.kind, ErrorKind::InvalidEscape(String::from("\\x")));
    let pairs = document(vec![paragraph(vec![plain("a"), Pair { rule: Rule::EscapedPlainText, start: 1, end: 3, text: "\\q", inner: vec![] }])]);
    let err = parse_document(&pairs).unwrap_err();
    assert_eq!(err.kind, ErrorKind::InvalidEscape(String::from("\\q")));
    assert_eq!(err.spans[0], Location { rule: Rule::EscapedPlainText, start: 1, end: 3 });
    assert_eq!(err.spans.last().unwrap().rule, Rule::Document);
}

#[test]
fn nested_block_tag_parses_into_nested_values() {
    let pairs = document(vec![node(Rule::BlockTag, vec![key("nested"), paragraph(vec![plain("Content!")])])]);
    let doc = parse_document(&pairs).unwrap();
    let tag = doc.content()[0].as_tag().unwrap();
    assert_eq!(tag.name(), &Key::new("nested"));
    assert_eq!(tag.content(), &[Block::Content(vec![text("Content!")])][..]);
}

#[test]
fn literal_text_is_kept_verbatim() {
    let raw = "#not{a tag} \\n stays \\ as is\n";
    let pairs = document(vec![node(Rule::LiteralTag, vec![key("code"), atom(Rule::Literal, raw)])]);
    let doc = parse_document(&pairs).unwrap();
    let tag = doc.content()[0].as_tag().unwrap();
    match &tag.content()[0] {
        Block::Literal(lit) => assert_eq!(lit.text().as_str(), raw),
        other => panic!("expected a literal, got {:?}", other),
    }
}

#[test]
fn trailing_rules_are_rejected() {
    let mut pairs = document(vec![paragraph(vec![plain("fine")])]);
    pairs.push(plain("junk"));
    let err = parse_document(&pairs).unwrap_err();
    assert_eq!(err.kind, ErrorKind::Trailing(vec![Rule::PlainText]));

    let inner_junk = vec![node(Rule::Document, vec![paragraph(vec![plain("fine")]), atom(Rule::EOI, ""), plain("junk")])];
    let err = parse_document(&inner_junk).unwrap_err();
    assert_eq!(err.kind, ErrorKind::Trailing(vec![Rule::PlainText]));
    assert_eq!(err.spans.len(), 1);
    assert_eq!(err.spans[0].rule, Rule::Document);
}

#[test]
fn missing_end_of_input_is_an_error() {
    let pairs = vec![node(Rule::Document, vec![paragraph(vec![plain("fine")])])];
    assert!(parse_document(&pairs).is_err());
    assert_eq!(parse_document(&[]).unwrap_err().kind, ErrorKind::NoMatch);
}

#[test]
fn meta_is_parsed_without_the_body() {
    let pairs = document(vec![
        node(Rule::Header, vec![node(Rule::Title, vec![plain("Only the header")]), props(vec![("draft", None)])]),
        paragraph(vec![plain("ignored")]),
    ]);
    let meta = parse_meta(&pairs).unwrap();
    assert_eq!(meta.title().as_str(), "Only the header");
    assert!(meta.props().is_set(&Key::new("draft")));
    let headerless = document(vec![paragraph(vec![plain("body")])]);
    assert_eq!(parse_meta(&headerless).unwrap(), Meta::default());
}

#[test]
fn tag_accessors_and_mutators() {
    let mut tag: Tag<'static, Block<'static>> = Tag::new(Key::new("a"), PropSet::new(), vec![]);
    tag.set_name(Key::new("b"));
    tag.props_mut().set(Key::new("flag"));
    tag.content_mut().push(Block::Content(vec![]));
    assert_eq!(tag.name().as_str(), "b");
    assert!(tag.props().is_set(&Key::new("flag")));
    assert_eq!(tag.content().len(), 1);
    let mut block = Block::Tag(tag);
    assert!(block.as_content().is_none());
    block.as_mut_tag().unwrap().set_name(Key::new("c"));
    assert_eq!(block.as_tag().unwrap().name().as_str(), "c");
    let mut para = Block::Content(vec![]);
    para.as_mut_content().unwrap().push(Inline::SoftBreak);
    assert_eq!(para.as_content().unwrap().len(), 1);
    let inline = Inline::Text(Text::new("t"));
    assert_eq!(inline.as_text(), Some(Text::new("t")));
    assert!(inline.as_tag().is_none());
}

#[test]
fn malformed_block_tag_is_a_hard_error() {
    let pairs = document(vec![node(Rule::BlockTag, vec![paragraph(vec![plain("no name")])])]);
    let err = parse_document(&pairs).unwrap_err();
    assert_eq!(err.kind, ErrorKind::Trailing(vec![Rule::Paragraph]));
    assert_eq!(err.spans.len(), 2);
    assert_eq!(err.spans[0].rule, Rule::BlockTag);
    assert_eq!(err.spans[1].rule, Rule::Document);
}

#[test]
fn malformed_child_is_not_dropped_from_a_sequence() {
    let pairs = document(vec![
        paragraph(vec![plain("fine")]),
        node(Rule::SoftBreak, vec![plain("not empty")]),
    ]);
    let err = parse_document(&pairs).unwrap_err();
    assert_eq!(err.kind, ErrorKind::Trailing(vec![Rule::SoftBreak, Rule::EOI]));
    let pairs = document(vec![paragraph(vec![node(Rule::SoftBreak, vec![plain("x")])])]);
    let err = parse_document(&pairs).unwrap_err();
    assert_eq!(err.kind, ErrorKind::Trailing(vec![Rule::PlainText]));
    assert_eq!(err.spans[0].rule, Rule::SoftBreak);
}

#[test]
fn escape_after_a_tag_does_not_block_earlier_text() {
    let pairs = document(vec![paragraph(vec![
        escape("\\n"),
        node(Rule::InlineTag, vec![key("t")]),
        escape("\\z"),
    ])]);
    let err = parse_document(&pairs).unwrap_err();
    assert_eq!(err.kind, ErrorKind::InvalidEscape(String::from("\\z")));
}
