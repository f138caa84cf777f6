use prosidy::xmlgen::{render_document, Item, XMLGen, XmlEvent};
use prosidy::{Node, Block, BlockTag, Document, Inline, InlineTag, Key, Literal, Meta, PropSet, Text};

fn start(name: &str, attributes: Vec<(&str, &str)>) -> XmlEvent {
    XmlEvent::Start {
        name: name.to_owned(),
        attributes: attributes.into_iter().map(|(k, v)| (k.to_owned(), v.to_owned())).collect(),
    }
}

fn chars(s: &str) -> XmlEvent {
    XmlEvent::Characters(s.to_owned())
}

#[test]
fn renders_document_vocabulary() {
    let mut props = PropSet::new();
    props.put(Key::new("lang"), Text::new("en"));
    let mut tag_props = PropSet::new();
    tag_props.put(Key::new("href"), Text::new("x"));
    let doc = Document::new(
        Meta::new(Text::new("T"), props),
        vec![
            Block::Content(vec![
                Inline::Text(Text::new("a")),
                Inline::SoftBreak,
                Inline::Tag(InlineTag::new(Key::new("em"), tag_props, vec![Inline::Text(Text::new("b"))])),
                Inline::Literal(Literal::new(Text::new("<raw>"))),
            ]),
            Block::Literal(Literal::new(Text::new("x & y"))),
        ],
    );
    let events = render_document(&doc, &["style.css"], None);
    let expected = vec![
        XmlEvent::Instruction { target: "xml-stylesheet".to_owned(), data: "style.css".to_owned() },
        start("prosidy:document", vec![("prosidy:title", "T"), ("lang", "en")]),
        start("prosidy:paragraph", vec![]),
        chars("a"),
        start("prosidy:softbreak", vec![]),
        XmlEvent::End,
        start("em", vec![("href", "x")]),
        chars("b"),
        XmlEvent::End,
        start("prosidy:literal-text", vec![]),
        chars("<raw>"),
        XmlEvent::End,
        XmlEvent::End,
        start("prosidy:literal", vec![]),
        chars("x & y"),
        XmlEvent::End,
        XmlEvent::End,
    ];
    assert_eq!(events, expected);
}

#[test]
fn prefix_qualifies_own_names_only() {
    let mut props = PropSet::new();
    props.set(Key::new("draft"));
    let mut tag_props = PropSet::new();
    tag_props.put(Key::new("k"), Text::new("v"));
    tag_props.set(Key::new("ignored-flag"));
    let doc = Document::new(
        Meta::new(Text::new(""), props),
        vec![Block::Tag(BlockTag::new(Key::new("section"), tag_props, vec![]))],
    );
    let events = render_document(&doc, &[], Some("p"));
    let expected = vec![
        start("prosidy:document", vec![("prosidy:title", ""), ("p:draft", "")]),
        start("p:section", vec![("p:k", "v")]),
        XmlEvent::End,
        XmlEvent::End,
    ];
    assert_eq!(events, expected);
}

#[test]
fn stylesheets_come_first_in_order() {
    let doc = Document::new(Meta::default(), vec![]);
    let mut generator = XMLGen::new(Item::Document(&doc), &["a.css", "b.css"], None);
    let first = generator.next_event().unwrap();
    let second = generator.next_event().unwrap();
    assert_eq!(first, XmlEvent::Instruction { target: "xml-stylesheet".to_owned(), data: "a.css".to_owned() });
    assert_eq!(second, XmlEvent::Instruction { target: "xml-stylesheet".to_owned(), data: "b.css".to_owned() });
    assert_eq!(generator.collect_events().len(), 2);
    assert_eq!(generator.next_event(), None);
}

#[test]
fn deep_nesting_renders_without_recursion() {
    let depth = 3000;
    let mut block = Block::Content(vec![Inline::Text(Text::new("core"))]);
    for _ in 0..depth {
        block = Block::Tag(BlockTag::new(Key::new("d"), PropSet::new(), vec![block]));
    }
    let doc = Document::new(Meta::default(), vec![block]);
    let events = render_document(&doc, &[], None);
    assert_eq!(events.len(), 2 * depth + 5);
    assert_eq!(events[1], start("d", vec![]));
    assert_eq!(events[depth], start("d", vec![]));
    assert_eq!(events[depth + 1], start("prosidy:paragraph", vec![]));
    assert_eq!(events[depth + 2], chars("core"));
    assert!(events[depth + 3..].iter().all(|e| *e == XmlEvent::End));
}

#[test]
fn node_children_are_pushed_last_first() {
    let doc = Document::new(
        Meta::default(),
        vec![Block::Content(vec![]), Block::Literal(Literal::default())],
    );
    let mut stack = vec![];
    Node::Document(&doc).push_children(&mut stack);
    assert_eq!(stack.len(), 2);
    assert!(matches!(stack.pop(), Some(Node::Block(Block::Content(_)))));
    assert!(matches!(stack.pop(), Some(Node::Block(Block::Literal(_)))));
    Node::Inline(&Inline::SoftBreak).push_children(&mut stack);
    assert!(stack.is_empty());
}
