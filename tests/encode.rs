use prosidy::encode::{decode_block, decode_document, decode_inline, decode_props, encode_block, encode_document, encode_inline, encode_props, Value};
use prosidy::{Block, BlockTag, Document, Inline, InlineTag, Key, KeySet, Literal, Meta, PropSet, Text};

fn s(x: &str) -> Value {
    Value::Str(x.to_owned())
}

fn object(fields: Vec<(&str, Value)>) -> Value {
    Value::Object(fields.into_iter().map(|(k, v)| (k.to_owned(), v)).collect())
}

#[test]
fn test_serde() {
    let mut props = PropSet::new();
    props.set(Key::new("test"));
    props.put(Key::new("language"), Text::new("en"));
    props.put(Key::new("author"), Text::new("J Alexander Feldman-Crough"));
    let mut doc = Document::new(Meta::new(Text::default(), props), vec![]);
    let content = doc.content_mut();
    let heading = BlockTag::new(
        Key::new("h1"),
        PropSet::new(),
        vec![Block::Content(vec![Inline::Text(Text::new("hello world"))])],
    );
    content.push(Block::Tag(heading));
    let actual = doc;
    let encoded = encode_document(&actual);
    let expected: Document = decode_document(&encoded).unwrap();
    assert_eq!(actual, expected);
}

#[test]
fn block_encoding_is_tagged() {
    let block = Block::Literal(Literal::new(Text::new("raw")));
    assert_eq!(encode_block(&block), object(vec![("type", s("literal")), ("value", s("raw"))]));
    assert_eq!(encode_inline(&Inline::SoftBreak), object(vec![("type", s("soft_break"))]));
    let mut props = PropSet::new();
    props.set(Key::new("f"));
    props.put(Key::new("k"), Text::new("v"));
    assert_eq!(
        encode_props(&props),
        object(vec![
            ("properties", Value::Array(vec![s("f")])),
            ("settings", object(vec![("k", s("v"))])),
        ])
    );
}

#[test]
fn round_trip_of_every_node_kind() {
    let mut tag_props = PropSet::new();
    tag_props.put(Key::new("href"), Text::new("x"));
    tag_props.set(Key::new("x"));
    tag_props.put(Key::new("x"), Text::new("1"));
    let inline_tag = Inline::Tag(InlineTag::new(
        Key::new("em"),
        tag_props,
        vec![Inline::Text(Text::new("b")), Inline::SoftBreak, Inline::Literal(Literal::new(Text::new("{}")))],
    ));
    let block = Block::Tag(BlockTag::new(
        Key::new("section"),
        PropSet::new(),
        vec![
            Block::Content(vec![Inline::Text(Text::new("a")), inline_tag]),
            Block::Literal(Literal::new(Text::new("#lit{}"))),
        ],
    ));
    let back: Block = decode_block(&encode_block(&block)).unwrap();
    assert_eq!(back, block);
    let item = Inline::Text(Text::new("t"));
    assert_eq!(decode_inline(&encode_inline(&item)), Some(item));
    let doc = Document::new(Meta::new(Text::new("Title"), PropSet::new()), vec![block]);
    let back: Document = decode_document(&encode_document(&doc)).unwrap();
    assert_eq!(back, doc);
    assert!(back.title().owned());
}

#[test]
fn decoding_accepts_fields_in_any_order() {
    let v = object(vec![("value", s("hi")), ("type", s("text"))]);
    assert_eq!(decode_inline(&v), Some(Inline::Text(Text::new("hi"))));
}

#[test]
fn malformed_values_do_not_decode() {
    assert_eq!(decode_block(&Value::Null), None);
    assert_eq!(decode_block(&object(vec![("type", s("nonsense")), ("value", Value::Null)])), None);
    assert_eq!(decode_inline(&object(vec![("type", s("text"))])), None);
    assert_eq!(decode_props(&object(vec![("properties", Value::Array(vec![Value::Null])), ("settings", object(vec![]))])), None);
    let doc: Option<Document> = decode_document(&object(vec![("content", Value::Array(vec![]))]));
    assert_eq!(doc, None);
}

#[test]
fn uninterned_keys_come_back_interned() {
    let mut keys = KeySet::new();
    let block = Block::Tag(BlockTag::new(Key::uninterned("t", &mut keys), PropSet::new(), vec![]));
    let back: Block = decode_block(&encode_block(&block)).unwrap();
    assert_ne!(back, block);
    assert!(back.as_tag().unwrap().name().is_interned());
}
