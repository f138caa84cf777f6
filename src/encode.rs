//! The structured encoding of a document tree as a tagged-union value, and its decoding.

use vstd::prelude::*;

use crate::ast::{Block, BlockTag, Document, Inline, InlineTag, Literal, Meta};
use crate::key::{Key, KeyView};
use crate::props::PropSet;
use crate::text::{str_eq, Text};

verus! {

/// A tagged-union value: the structured encoding of a document tree, ready to be written as
/// JSON, CBOR or the like. Each node of the tree is a map; the variant of a block or an inline
/// item is named by its `type` field, and what it holds stands in its `value` field.
#[derive(Debug, PartialEq, Eq)]
pub enum Value {
    Null,
    Str(String),
    Array(Vec<Value>),
    Object(Vec<(String, Value)>),
}

/// Whether `v` is the string `s`.
pub open spec fn is_str(v: Value, s: Seq<char>) -> bool {
    v matches Value::Str(x) && x@ == s
}

/// Whether `v` is a map with exactly the fields `names`, in that order.
pub open spec fn has_fields(v: Value, names: Seq<Seq<char>>) -> bool {
    v matches Value::Object(fs) && fs@.len() == names.len()
        && forall|i: int| 0 <= i < names.len() ==> (#[trigger] fs@[i]).0@ == names[i]
}

/// The value of the `i`-th field of a map.
pub open spec fn field_at(v: Value, i: int) -> Value {
    v->Object_0@[i].1
}

/// Whether `v` encodes the property set `p`: its flags, then its values, in order.
pub open spec fn encodes_props(v: Value, p: PropSet) -> bool {
    &&& has_fields(v, seq!["properties"@, "settings"@])
    &&& field_at(v, 0) matches Value::Array(ks)
    &&& ks@.len() == p.flag_entries().len()
    &&& forall|i: int| 0 <= i < ks@.len() ==> is_str(#[trigger] ks@[i], p.flag_entries()[i].0)
    &&& field_at(v, 1) matches Value::Object(ss)
    &&& ss@.len() == p.value_entries().len()
    &&& forall|i: int| 0 <= i < ss@.len() ==> (#[trigger] ss@[i]).0@ == p.value_entries()[i].0.0
        && is_str(ss@[i].1, p.value_entries()[i].1)
}

/// Whether `v` encodes a tag's name and properties; its children stand in its third field.
pub open spec fn encodes_tag_head(v: Value, name: Key, props: PropSet) -> bool {
    &&& has_fields(v, seq!["name"@, "props"@, "content"@])
    &&& is_str(field_at(v, 0), name@.0)
    &&& encodes_props(field_at(v, 1), props)
    &&& field_at(v, 2) is Array
}

/// Whether `v` encodes the block `b`.
pub open spec fn encodes_block(v: Value, b: Block) -> bool
    decreases b,
{
    &&& has_fields(v, seq!["type"@, "value"@])
    &&& match b {
        Block::Content(items) => is_str(field_at(v, 0), "content"@) && field_at(v, 1) is Array
            && encodes_inlines(field_at(v, 1)->Array_0@, items@),
        Block::Literal(lit) => is_str(field_at(v, 0), "literal"@) && is_str(field_at(v, 1), lit.text@),
        Block::Tag(tag) => is_str(field_at(v, 0), "tag"@) && encodes_tag_head(field_at(v, 1), tag.name, tag.props)
            && encodes_blocks(field_at(field_at(v, 1), 2)->Array_0@, tag.content@),
    }
}

/// Whether `vs` encode the blocks `bs`, one for one.
pub open spec fn encodes_blocks(vs: Seq<Value>, bs: Seq<Block>) -> bool
    decreases bs,
{
    vs.len() == bs.len() && forall|i: int| 0 <= i < bs.len() ==> encodes_block(#[trigger] vs[i], bs[i])
}

/// Whether `v` encodes the inline item `item`.
pub open spec fn encodes_inline(v: Value, item: Inline) -> bool
    decreases item,
{
    match item {
        Inline::SoftBreak => has_fields(v, seq!["type"@]) && is_str(field_at(v, 0), "soft_break"@),
        Inline::Text(t) => has_fields(v, seq!["type"@, "value"@]) && is_str(field_at(v, 0), "text"@)
            && is_str(field_at(v, 1), t@),
        Inline::Literal(lit) => has_fields(v, seq!["type"@, "value"@]) && is_str(field_at(v, 0), "literal"@)
            && is_str(field_at(v, 1), lit.text@),
        Inline::Tag(tag) => has_fields(v, seq!["type"@, "value"@]) && is_str(field_at(v, 0), "tag"@)
            && encodes_tag_head(field_at(v, 1), tag.name, tag.props)
            && encodes_inlines(field_at(field_at(v, 1), 2)->Array_0@, tag.content@),
    }
}

/// Whether `vs` encode the inline items `items`, one for one.
pub open spec fn encodes_inlines(vs: Seq<Value>, items: Seq<Inline>) -> bool
    decreases items,
{
    vs.len() == items.len() && forall|i: int| 0 <= i < items.len() ==> encodes_inline(#[trigger] vs[i], items[i])
}

/// Whether `v` encodes the document `d`.
pub open spec fn encodes_document(v: Value, d: Document) -> bool {
    &&& has_fields(v, seq!["meta"@, "content"@])
    &&& has_fields(field_at(v, 0), seq!["title"@, "props"@])
    &&& is_str(field_at(field_at(v, 0), 0), d.meta.title@)
    &&& encodes_props(field_at(field_at(v, 0), 1), d.meta.props)
    &&& field_at(v, 1) is Array
    &&& encodes_blocks(field_at(v, 1)->Array_0@, d.content@)
}

fn string_value(s: &str) -> (r: Value)
    ensures
        is_str(r, s@),
{
    Value::Str(s.to_owned())
}

/// Encodes a property set: `{"properties": [flag, ...], "settings": {key: value, ...}}`.
pub fn encode_props(p: &PropSet) -> (r: Value)
    ensures
        encodes_props(r, *p),
{
    let flags = p.properties();
    let mut ks: Vec<Value> = Vec::new();
    let mut i: usize = 0;
    while i < flags.len()
        invariant
            i <= flags@.len(),
            flags@.map_values(|k: Key| k@) == p.flag_entries(),
            ks@.len() == i,
            forall|j: int| 0 <= j < i ==> is_str(#[trigger] ks@[j], p.flag_entries()[j].0),
        decreases flags@.len() - i,
    {
        proof {
            assert(flags@.map_values(|k: Key| k@)[i as int] == flags@[i as int]@);
        }
        ks.push(string_value(flags[i].as_str()));
        i = i + 1;
    }
    let settings = p.settings();
    let mut ss: Vec<(String, Value)> = Vec::new();
    let mut i: usize = 0;
    while i < settings.len()
        invariant
            i <= settings@.len(),
            settings@.map_values(|e: (Key, Text)| (e.0@, e.1@)) == p.value_entries(),
            ss@.len() == i,
            forall|j: int| 0 <= j < i ==> (#[trigger] ss@[j]).0@ == p.value_entries()[j].0.0
                && is_str(ss@[j].1, p.value_entries()[j].1),
        decreases settings@.len() - i,
    {
        proof {
            assert(settings@.map_values(|e: (Key, Text)| (e.0@, e.1@))[i as int]
                == (settings@[i as int].0@, settings@[i as int].1@));
        }
        ss.push((settings[i].0.as_str().to_owned(), string_value(settings[i].1.as_str())));
        i = i + 1;
    }
    let mut fields: Vec<(String, Value)> = Vec::new();
    fields.push(("properties".to_owned(), Value::Array(ks)));
    fields.push(("settings".to_owned(), Value::Object(ss)));
    Value::Object(fields)
}

/// Encodes a tag's name, properties and encoded children.
fn encode_tag_head(name: &Key, props: &PropSet, content: Vec<Value>) -> (r: Value)
    ensures
        encodes_tag_head(r, *name, *props),
        field_at(r, 2)->Array_0@ == content@,
{
    let mut fields: Vec<(String, Value)> = Vec::new();
    fields.push(("name".to_owned(), string_value(name.as_str())));
    fields.push(("props".to_owned(), encode_props(props)));
    fields.push(("content".to_owned(), Value::Array(content)));
    Value::Object(fields)
}

/// A map `{"type": kind, "value": value}`.
fn tagged(kind: &str, value: Value) -> (r: Value)
    ensures
        has_fields(r, seq!["type"@, "value"@]),
        is_str(field_at(r, 0), kind@),
        field_at(r, 1) == value,
{
    let mut fields: Vec<(String, Value)> = Vec::new();
    fields.push(("type".to_owned(), string_value(kind)));
    fields.push(("value".to_owned(), value));
    Value::Object(fields)
}

/// Encodes a block and everything in it.
pub fn encode_block(b: &Block) -> (r: Value)
    ensures
        encodes_block(r, *b),
    decreases b,
{
    match b {
        Block::Content(items) => tagged("content", Value::Array(encode_inlines(items.as_slice()))),
        Block::Literal(lit) => tagged("literal", string_value(lit.text.as_str())),
        Block::Tag(tag) => {
            let content = encode_blocks(tag.content.as_slice());
            tagged("tag", encode_tag_head(&tag.name, &tag.props, content))
        },
    }
}

/// Encodes blocks, one for one.
pub fn encode_blocks(bs: &[Block]) -> (r: Vec<Value>)
    ensures
        encodes_blocks(r@, bs@),
    decreases bs@,
{
    let mut r: Vec<Value> = Vec::new();
    let mut i: usize = 0;
    while i < bs.len()
        invariant
            i <= bs@.len(),
            r@.len() == i,
            forall|j: int| 0 <= j < i ==> encodes_block(#[trigger] r@[j], bs@[j]),
        decreases bs@.len() - i,
    {
        r.push(encode_block(&bs[i]));
        i = i + 1;
    }
    r
}

/// Encodes an inline item and everything in it.
pub fn encode_inline(item: &Inline) -> (r: Value)
    ensures
        encodes_inline(r, *item),
    decreases item,
{
    match item {
        Inline::SoftBreak => {
            let mut fields: Vec<(String, Value)> = Vec::new();
            fields.push(("type".to_owned(), string_value("soft_break")));
            Value::Object(fields)
        },
        Inline::Text(t) => tagged("text", string_value(t.as_str())),
        Inline::Literal(lit) => tagged("literal", string_value(lit.text.as_str())),
        Inline::Tag(tag) => {
            let content = encode_inlines(tag.content.as_slice());
            tagged("tag", encode_tag_head(&tag.name, &tag.props, content))
        },
    }
}

/// Encodes inline items, one for one.
pub fn encode_inlines(items: &[Inline]) -> (r: Vec<Value>)
    ensures
        encodes_inlines(r@, items@),
    decreases items@,
{
    let mut r: Vec<Value> = Vec::new();
    let mut i: usize = 0;
    while i < items.len()
        invariant
            i <= items@.len(),
            r@.len() == i,
            forall|j: int| 0 <= j < i ==> encodes_inline(#[trigger] r@[j], items@[j]),
        decreases items@.len() - i,
    {
        r.push(encode_inline(&items[i]));
        i = i + 1;
    }
    r
}

/// Encodes a whole document: `{"meta": {"title": ..., "props": ...}, "content": [...]}`.
pub fn encode_document(d: &Document) -> (r: Value)
    ensures
        encodes_document(r, *d),
{
    let mut meta: Vec<(String, Value)> = Vec::new();
    meta.push(("title".to_owned(), string_value(d.meta.title.as_str())));
    meta.push(("props".to_owned(), encode_props(&d.meta.props)));
    let mut fields: Vec<(String, Value)> = Vec::new();
    fields.push(("meta".to_owned(), Value::Object(meta)));
    fields.push(("content".to_owned(), Value::Array(encode_blocks(d.content.as_slice()))));
    Value::Object(fields)
}

/// Whether a property set is one that decoding can give back exactly: well formed, with
/// interned keys only.
pub open spec fn valid_props(p: PropSet) -> bool {
    &&& p.is_well_formed()
    &&& forall|k: KeyView| #[trigger] p.flags().contains(k) ==> k.1 is None
    &&& forall|k: KeyView| #[trigger] p.values().contains_key(k) ==> k.1 is None
}

/// Whether every key and property set in a block is one that decoding can give back exactly.
pub open spec fn valid_block(b: Block) -> bool
    decreases b,
{
    match b {
        Block::Content(items) => valid_inlines(items@),
        Block::Literal(_) => true,
        Block::Tag(tag) => tag.name@.1 is None && valid_props(tag.props) && valid_blocks(tag.content@),
    }
}

pub open spec fn valid_blocks(bs: Seq<Block>) -> bool
    decreases bs,
{
    forall|i: int| 0 <= i < bs.len() ==> valid_block(#[trigger] bs[i])
}

/// Whether every key and property set in an inline item is one that decoding can give back
/// exactly.
pub open spec fn valid_inline(item: Inline) -> bool
    decreases item,
{
    match item {
        Inline::Tag(tag) => tag.name@.1 is None && valid_props(tag.props) && valid_inlines(tag.content@),
        _ => true,
    }
}

pub open spec fn valid_inlines(items: Seq<Inline>) -> bool
    decreases items,
{
    forall|i: int| 0 <= i < items.len() ==> valid_inline(#[trigger] items[i])
}

pub open spec fn valid_document(d: Document) -> bool {
    valid_props(d.meta.props) && valid_blocks(d.content@)
}

/// Whether two property sets hold the same flags and values.
pub open spec fn same_props(a: PropSet, b: PropSet) -> bool {
    a.flags() == b.flags() && a.values() == b.values()
}

/// Whether two blocks have the same content: the same structure, keys, properties and
/// characters, whatever the storage of their texts.
pub open spec fn same_block(a: Block, b: Block) -> bool
    decreases b,
{
    match b {
        Block::Content(items) => a matches Block::Content(x) && same_inlines(x@, items@),
        Block::Literal(lit) => a matches Block::Literal(x) && x.text@ == lit.text@,
        Block::Tag(tag) => a matches Block::Tag(x) && x.name@ == tag.name@ && same_props(x.props, tag.props)
            && same_blocks(x.content@, tag.content@),
    }
}

pub open spec fn same_blocks(a: Seq<Block>, b: Seq<Block>) -> bool
    decreases b,
{
    a.len() == b.len() && forall|i: int| 0 <= i < b.len() ==> same_block(#[trigger] a[i], b[i])
}

/// Whether two inline items have the same content.
pub open spec fn same_inline(a: Inline, b: Inline) -> bool
    decreases b,
{
    match b {
        Inline::SoftBreak => a is SoftBreak,
        Inline::Text(t) => a matches Inline::Text(x) && x@ == t@,
        Inline::Literal(lit) => a matches Inline::Literal(x) && x.text@ == lit.text@,
        Inline::Tag(tag) => a matches Inline::Tag(x) && x.name@ == tag.name@ && same_props(x.props, tag.props)
            && same_inlines(x.content@, tag.content@),
    }
}

pub open spec fn same_inlines(a: Seq<Inline>, b: Seq<Inline>) -> bool
    decreases b,
{
    a.len() == b.len() && forall|i: int| 0 <= i < b.len() ==> same_inline(#[trigger] a[i], b[i])
}

/// Whether two documents have the same content.
pub open spec fn same_document(a: Document, b: Document) -> bool {
    &&& a.meta.title@ == b.meta.title@
    &&& same_props(a.meta.props, b.meta.props)
    &&& same_blocks(a.content@, b.content@)
}

/// Whether `i` is the index of the first field of `fs` named `name`.
pub open spec fn first_field(fs: Seq<(String, Value)>, name: Seq<char>, i: int) -> bool {
    &&& 0 <= i < fs.len()
    &&& fs[i].0@ == name
    &&& forall|j: int| 0 <= j < i ==> (#[trigger] fs[j]).0@ != name
}

/// The value of the first field of `v` named `name`, if `v` is a map that has one.
pub fn get_field<'v>(v: &'v Value, name: &str) -> (r: Option<&'v Value>)
    ensures
        !(v is Object) ==> r is None,
        v is Object && r is Some ==> exists|i: int| first_field(v->Object_0@, name@, i) && *r->0 == v->Object_0@[i].1,
        v is Object && r is None ==> forall|i: int| 0 <= i < v->Object_0@.len() ==> (#[trigger] v->Object_0@[i]).0@ != name@,
{
    match v {
        Value::Object(fs) => {
            let mut i: usize = 0;
            while i < fs.len()
                invariant
                    *v == Value::Object(*fs),
                    i <= fs@.len(),
                    forall|j: int| 0 <= j < i ==> (#[trigger] fs@[j]).0@ != name@,
                decreases fs@.len() - i,
            {
                if str_eq(fs[i].0.as_str(), name) {
                    let r = &fs[i].1;
                    assert(fs@[i as int].0@ == name@);
                    assert(*r == fs@[i as int].1);
                    assert(first_field(v->Object_0@, name@, i as int));
                    return Some(r);
                }
                i = i + 1;
            }
            None
        },
        _ => None,
    }
}

/// The flags that setting the key of each string of `ks` gives.
pub open spec fn set_all(ks: Seq<Value>) -> Set<KeyView> {
    Set::new(|k: KeyView| exists|j: int| 0 <= j < ks.len() && k == ((#[trigger] ks[j])->Str_0@, None::<u64>))
}

/// The values that putting each `(name, value)` of `ss` in turn gives.
pub open spec fn put_all(ss: Seq<(String, Value)>) -> Map<KeyView, Seq<char>>
    decreases ss.len(),
{
    if ss.len() == 0 {
        Map::empty()
    } else {
        put_all(ss.drop_last()).insert((ss.last().0@, None::<u64>), ss.last().1->Str_0@)
    }
}

proof fn lemma_put_all_distinct(ss: Seq<(String, Value)>)
    requires
        forall|i: int, j: int| 0 <= i < ss.len() && 0 <= j < ss.len() && i != j ==> (#[trigger] ss[i]).0@ != (#[trigger] ss[j]).0@,
    ensures
        forall|k: KeyView| #[trigger] put_all(ss).contains_key(k)
            <==> exists|i: int| 0 <= i < ss.len() && k == ((#[trigger] ss[i]).0@, None::<u64>),
        forall|i: int| 0 <= i < ss.len() ==> put_all(ss)[((#[trigger] ss[i]).0@, None::<u64>)] == ss[i].1->Str_0@,
    decreases ss.len(),
{
    if ss.len() > 0 {
        let init = ss.drop_last();
        lemma_put_all_distinct(init);
        assert(put_all(ss) == put_all(init).insert((ss.last().0@, None::<u64>), ss.last().1->Str_0@));
        assert forall|i: int| 0 <= i < init.len() implies #[trigger] init[i] == ss[i] by {}
        assert forall|k: KeyView| #[trigger] put_all(ss).contains_key(k)
            implies exists|i: int| 0 <= i < ss.len() && k == ((#[trigger] ss[i]).0@, None::<u64>) by {
            if k != (ss.last().0@, None::<u64>) {
                assert(put_all(init).contains_key(k));
                let i = choose|i: int| 0 <= i < init.len() && k == ((#[trigger] init[i]).0@, None::<u64>);
                assert(ss[i] == init[i]);
            } else {
                assert(k == (ss[ss.len() - 1].0@, None::<u64>));
            }
        }
        assert forall|k: KeyView| (exists|i: int| 0 <= i < ss.len() && k == ((#[trigger] ss[i]).0@, None::<u64>))
            implies #[trigger] put_all(ss).contains_key(k) by {
            let i = choose|i: int| 0 <= i < ss.len() && k == ((#[trigger] ss[i]).0@, None::<u64>);
            if i < init.len() {
                assert(init[i] == ss[i]);
            }
        }
        assert forall|i: int| 0 <= i < ss.len() implies put_all(ss)[((#[trigger] ss[i]).0@, None::<u64>)] == ss[i].1->Str_0@ by {
            if i < init.len() {
                assert(init[i] == ss[i]);
                assert(ss[i].0@ != ss[ss.len() - 1].0@);
            }
        }
    }
}

/// Decodes a property set; keys come back interned.
pub fn decode_props<'a>(v: &Value) -> (r: Option<PropSet<'a>>)
    ensures
        forall|p: PropSet| encodes_props(*v, p) && valid_props(p) ==> r is Some && same_props(r->0, p),
{
    proof {
        reveal_strlit("properties");
        reveal_strlit("settings");
    }
    let flags = get_field(v, "properties");
    let settings = get_field(v, "settings");
    proof {
        assert forall|p: PropSet| encodes_props(*v, p) implies flags == Some(&field_at(*v, 0))
            && settings == Some(&field_at(*v, 1)) by {
            assert(v->Object_0@[0].0@ == "properties"@);
            assert(v->Object_0@[1].0@ == "settings"@);
        }
    }
    let ks = match flags {
        Some(Value::Array(ks)) => ks,
        _ => {
            return None;
        },
    };
    let ss = match settings {
        Some(Value::Object(ss)) => ss,
        _ => {
            return None;
        },
    };
    let mut props: PropSet<'a> = PropSet::new();
    let mut i: usize = 0;
    while i < ks.len()
        invariant
            forall|p: PropSet| encodes_props(*v, p) ==> field_at(*v, 0) == Value::Array(*ks),
            i <= ks@.len(),
            props.flags() == set_all(ks@.subrange(0, i as int)),
            props.values() == Map::<KeyView, Seq<char>>::empty(),
        decreases ks@.len() - i,
    {
        match &ks[i] {
            Value::Str(name) => {
                props.set(Key::new(name.as_str()));
            },
            _ => {
                assert(forall|p: PropSet| encodes_props(*v, p) ==> is_str(ks@[i as int], p.flag_entries()[i as int].0));
                return None;
            },
        }
        proof {
            let sub = ks@.subrange(0, i + 1);
            assert(sub[i as int] == ks@[i as int]);
            assert forall|k: KeyView| #[trigger] set_all(sub).contains(k)
                <==> set_all(ks@.subrange(0, i as int)).insert((ks@[i as int]->Str_0@, None::<u64>)).contains(k) by {
                if set_all(sub).contains(k) {
                    let j = choose|j: int| 0 <= j < sub.len() && k == ((#[trigger] sub[j])->Str_0@, None::<u64>);
                    if j < i {
                        assert(ks@.subrange(0, i as int)[j] == sub[j]);
                    }
                }
                if set_all(ks@.subrange(0, i as int)).contains(k) {
                    let j = choose|j: int| 0 <= j < i && k == ((#[trigger] ks@.subrange(0, i as int)[j])->Str_0@, None::<u64>);
                    assert(sub[j] == ks@.subrange(0, i as int)[j]);
                }
            }
            assert(set_all(sub) =~= set_all(ks@.subrange(0, i as int)).insert((ks@[i as int]->Str_0@, None::<u64>)));
        }
        i = i + 1;
    }
    assert(ks@.subrange(0, ks@.len() as int) =~= ks@);
    let ghost flag_set = props.flags();
    assert(forall|p: PropSet| encodes_props(*v, p) ==> field_at(*v, 1) == Value::Object(*ss));
    let mut i: usize = 0;
    while i < ss.len()
        invariant
            forall|p: PropSet| encodes_props(*v, p) ==> field_at(*v, 1) == Value::Object(*ss),
            i <= ss@.len(),
            props.flags() == flag_set,
            props.values() == put_all(ss@.subrange(0, i as int)),
        decreases ss@.len() - i,
    {
        match &ss[i].1 {
            Value::Str(value) => {
                props.put(Key::new(ss[i].0.as_str()), Text::from_string(value.clone()));
            },
            _ => {
                assert(forall|p: PropSet| encodes_props(*v, p) ==> is_str(ss@[i as int].1, p.value_entries()[i as int].1));
                return None;
            },
        }
        proof {
            let sub = ss@.subrange(0, i + 1);
            assert(sub.drop_last() =~= ss@.subrange(0, i as int));
        }
        i = i + 1;
    }
    assert(ss@.subrange(0, ss@.len() as int) =~= ss@);
    assert(forall|p: PropSet| encodes_props(*v, p) ==> field_at(*v, 0) == Value::Array(*ks));
    proof {
        assert forall|p: PropSet| encodes_props(*v, p) && valid_props(p) implies same_props(props, p) by {
            crate::props::lemma_entries_describe(p);
            let fe = p.flag_entries();
            let ve = p.value_entries();
            assert forall|k: KeyView| #[trigger] props.flags().contains(k) <==> p.flags().contains(k) by {
                if props.flags().contains(k) {
                    let j = choose|j: int| 0 <= j < ks@.len() && k == ((#[trigger] ks@[j])->Str_0@, None::<u64>);
                    assert(is_str(ks@[j], fe[j].0));
                    assert(p.flags().contains(fe[j]));
                }
                if p.flags().contains(k) {
                    let j = fe.index_of(k);
                    assert(is_str(ks@[j], fe[j].0));
                    assert(set_all(ks@).contains(k));
                }
            }
            assert(props.flags() =~= p.flags());
            assert forall|a: int, b: int| 0 <= a < ss@.len() && 0 <= b < ss@.len() && a != b
                implies (#[trigger] ss@[a]).0@ != (#[trigger] ss@[b]).0@ by {
                assert(ve.map_values(|e: (KeyView, Seq<char>)| e.0)[a] == ve[a].0);
                assert(ve.map_values(|e: (KeyView, Seq<char>)| e.0)[b] == ve[b].0);
                assert(p.values().contains_key(ve[a].0));
                assert(p.values().contains_key(ve[b].0));
            }
            lemma_put_all_distinct(ss@);
            assert forall|k: KeyView| #[trigger] props.values().contains_key(k) <==> p.values().contains_key(k) by {
                if props.values().contains_key(k) {
                    let j = choose|j: int| 0 <= j < ss@.len() && k == ((#[trigger] ss@[j]).0@, None::<u64>);
                    assert(ve[j].0.0 == ss@[j].0@);
                    assert(p.values().contains_key(ve[j].0));
                }
                if p.values().contains_key(k) {
                    let j = choose|j: int| 0 <= j < ve.len() && (#[trigger] ve[j]).0 == k;
                    assert(ss@[j].0@ == k.0);
                }
            }
            assert forall|k: KeyView| #[trigger] props.values().contains_key(k) implies props.values()[k] == p.values()[k] by {
                let j = choose|j: int| 0 <= j < ss@.len() && k == ((#[trigger] ss@[j]).0@, None::<u64>);
                assert(ve[j].0.0 == ss@[j].0@);
                assert(p.values().contains_key(ve[j].0));
                assert(ve[j].0 == k);
            }
            assert(props.values() =~= p.values());
        }
    }
    Some(props)
}

/// Decodes the name, properties and encoded children of a tag.
fn decode_tag_head<'v, 'a>(v: &'v Value) -> (r: Option<(Key, PropSet<'a>, &'v Vec<Value>)>)
    ensures
        forall|name: Key, props: PropSet| encodes_tag_head(*v, name, props) && name@.1 is None && valid_props(props)
            ==> r is Some && (r->0).0@ == name@ && same_props((r->0).1, props) && *(r->0).2 == field_at(*v, 2)->Array_0,
        r is Some ==> v is Object && exists|i: int| 0 <= i < v->Object_0@.len()
            && v->Object_0@[i].1 is Array && *(r->0).2 == v->Object_0@[i].1->Array_0,
{
    proof {
        reveal_strlit("name");
        reveal_strlit("props");
        reveal_strlit("content");
    }
    let name = get_field(v, "name");
    let props = get_field(v, "props");
    let content = get_field(v, "content");
    proof {
        assert forall|n: Key, p: PropSet| encodes_tag_head(*v, n, p) implies name == Some(&field_at(*v, 0))
            && props == Some(&field_at(*v, 1)) && content == Some(&field_at(*v, 2)) by {
            assert(v->Object_0@[0].0@ == "name"@);
            assert(v->Object_0@[1].0@ == "props"@);
            assert(v->Object_0@[2].0@ == "content"@);
        }
    }
    match (name, props, content) {
        (Some(Value::Str(name)), Some(props), Some(Value::Array(content))) => match decode_props(props) {
            Some(props) => Some((Key::new(name.as_str()), props, content)),
            None => None,
        },
        _ => None,
    }
}

/// Decodes a block; keys come back interned and texts owned.
pub fn decode_block<'a>(v: &Value) -> (r: Option<Block<'a>>)
    ensures
        forall|b: Block| encodes_block(*v, b) && valid_block(b) ==> r is Some && same_block(r->0, b),
    decreases v,
{
    proof {
        reveal_strlit("type");
        reveal_strlit("value");
        reveal_strlit("content");
        reveal_strlit("literal");
        reveal_strlit("tag");
    }
    let kind = get_field(v, "type");
    let value = get_field(v, "value");
    proof {
        assert forall|b: Block| encodes_block(*v, b) implies kind == Some(&field_at(*v, 0))
            && value == Some(&field_at(*v, 1)) by {
            assert(v->Object_0@[0].0@ == "type"@);
            assert(v->Object_0@[1].0@ == "value"@);
        }
    }
    let (kind, value) = match (kind, value) {
        (Some(Value::Str(kind)), Some(value)) => (kind, value),
        _ => {
            return None;
        },
    };
    let ghost fs = v->Object_0@;
    let ghost vi = choose|i: int| first_field(fs, "value"@, i) && *value == fs[i].1;
    assert("content"@[0] != "literal"@[0]);
    assert("content"@ != "literal"@);
    if str_eq(kind.as_str(), "content") {
        let r = match value {
            Value::Array(vs) => match decode_inlines(vs) {
                Some(items) => Some(Block::Content(items)),
                None => None,
            },
            _ => None,
        };
        proof {
            assert forall|b: Block| encodes_block(*v, b) && valid_block(b) implies r is Some && same_block(r->0, b) by {
                assert(field_at(*v, 0) == Value::Str(*kind));
                assert(kind@ == "content"@);
                assert(b is Content);
            }
        }
        r
    } else if str_eq(kind.as_str(), "literal") {
        let r = match value {
            Value::Str(text) => Some(Block::Literal(Literal::new(Text::from_string(text.clone())))),
            _ => None,
        };
        proof {
            assert forall|b: Block| encodes_block(*v, b) && valid_block(b) implies r is Some && same_block(r->0, b) by {
                assert(b is Literal);
            }
        }
        r
    } else if str_eq(kind.as_str(), "tag") {
        let head = decode_tag_head(value);
        proof {
            assert forall|b: Block| encodes_block(*v, b) && valid_block(b) implies b is Tag && head is Some
                && (head->0).0@ == b->Tag_0.name@ && same_props((head->0).1, b->Tag_0.props)
                && *(head->0).2 == field_at(field_at(*v, 1), 2)->Array_0 by {
                assert(b is Tag);
                assert(encodes_tag_head(field_at(*v, 1), b->Tag_0.name, b->Tag_0.props));
            }
        }
        match head {
            Some((name, props, vs)) => {
                proof {
                    let ci = choose|i: int| 0 <= i < value->Object_0@.len() && value->Object_0@[i].1 is Array
                        && *vs == value->Object_0@[i].1->Array_0;
                    assert(decreases_to!(*v => v->Object_0));
                    assert(decreases_to!(v->Object_0 => fs));
                    assert(decreases_to!(fs => fs[vi]));
                    assert(decreases_to!(fs[vi] => fs[vi].1));
                    assert(decreases_to!(*value => value->Object_0));
                    assert(decreases_to!(value->Object_0 => value->Object_0@));
                    assert(decreases_to!(value->Object_0@ => value->Object_0@[ci]));
                    assert(decreases_to!(value->Object_0@[ci] => value->Object_0@[ci].1));
                    assert(decreases_to!(value->Object_0@[ci].1 => value->Object_0@[ci].1->Array_0));
                    assert(decreases_to!(*vs => vs@));
                    assert(decreases_to!(*v => vs@));
                }
                let content = decode_blocks(vs);
                proof {
                    assert forall|b: Block| encodes_block(*v, b) && valid_block(b) implies content is Some
                        && same_blocks(content->0@, b->Tag_0.content@) by {
                        assert(b is Tag && *vs == field_at(field_at(*v, 1), 2)->Array_0);
                        assert(encodes_blocks(vs@, b->Tag_0.content@));
                        assert(valid_blocks(b->Tag_0.content@));
                    }
                }
                match content {
                    Some(content) => Some(Block::Tag(BlockTag::new(name, props, content))),
                    None => None,
                }
            },
            None => None,
        }
    } else {
        proof {
            assert forall|b: Block| encodes_block(*v, b) && valid_block(b) implies false by {
                assert(!(b is Tag) && !(b is Literal) && !(b is Content));
            }
        }
        None
    }
}

/// Decodes blocks, one for one.
pub fn decode_blocks<'a>(vs: &Vec<Value>) -> (r: Option<Vec<Block<'a>>>)
    ensures
        forall|bs: Seq<Block>| encodes_blocks(vs@, bs) && valid_blocks(bs) ==> r is Some && same_blocks(r->0@, bs),
    decreases vs@,
{
    let mut out: Vec<Block<'a>> = Vec::new();
    let mut i: usize = 0;
    while i < vs.len()
        invariant
            i <= vs@.len(),
            out@.len() == i,
            forall|bs: Seq<Block>| #[trigger] encodes_blocks(vs@, bs) && valid_blocks(bs)
                ==> forall|j: int| 0 <= j < i ==> same_block(#[trigger] out@[j], bs[j]),
        decreases vs@.len() - i,
    {
        proof {
            assert(decreases_to!(vs@ => vs@[i as int]));
        }
        let decoded = decode_block(&vs[i]);
        proof {
            assert forall|bs: Seq<Block>| encodes_blocks(vs@, bs) && valid_blocks(bs) implies decoded is Some
                && same_block(decoded->0, bs[i as int]) by {
                assert(encodes_block(vs@[i as int], bs[i as int]));
                assert(valid_block(bs[i as int]));
            }
        }
        match decoded {
            Some(b) => out.push(b),
            None => {
                return None;
            },
        }
        i = i + 1;
    }
    Some(out)
}

/// Decodes an inline item; keys come back interned and texts owned.
pub fn decode_inline<'a>(v: &Value) -> (r: Option<Inline<'a>>)
    ensures
        forall|item: Inline| encodes_inline(*v, item) && valid_inline(item) ==> r is Some && same_inline(r->0, item),
    decreases v,
{
    proof {
        reveal_strlit("type");
        reveal_strlit("value");
        reveal_strlit("soft_break");
        reveal_strlit("text");
        reveal_strlit("literal");
        reveal_strlit("tag");
        assert("soft_break"@.len() == 10 && "text"@.len() == 4 && "literal"@.len() == 7 && "tag"@.len() == 3);
    }
    let kind = get_field(v, "type");
    let value = get_field(v, "value");
    proof {
        assert forall|item: Inline| encodes_inline(*v, item) implies kind == Some(&field_at(*v, 0))
            && (!(item is SoftBreak) ==> value == Some(&field_at(*v, 1))) by {
            assert(v->Object_0@[0].0@ == "type"@);
            if !(item is SoftBreak) {
                assert(v->Object_0@[1].0@ == "value"@);
            }
        }
    }
    let kind = match kind {
        Some(Value::Str(kind)) => kind,
        _ => {
            return None;
        },
    };
    if str_eq(kind.as_str(), "soft_break") {
        proof {
            assert forall|item: Inline| encodes_inline(*v, item) && valid_inline(item) implies item is SoftBreak by {
                assert(field_at(*v, 0) == Value::Str(*kind));
            }
        }
        return Some(Inline::SoftBreak);
    }
    let value = match value {
        Some(value) => value,
        None => {
            return None;
        },
    };
    let ghost fs = v->Object_0@;
    let ghost vi = choose|i: int| first_field(fs, "value"@, i) && *value == fs[i].1;
    if str_eq(kind.as_str(), "text") {
        let r = match value {
            Value::Str(text) => Some(Inline::Text(Text::from_string(text.clone()))),
            _ => None,
        };
        proof {
            assert forall|item: Inline| encodes_inline(*v, item) && valid_inline(item) implies r is Some
                && same_inline(r->0, item) by {
                assert(field_at(*v, 0) == Value::Str(*kind));
                assert(item is Text);
            }
        }
        r
    } else if str_eq(kind.as_str(), "literal") {
        let r = match value {
            Value::Str(text) => Some(Inline::Literal(Literal::new(Text::from_string(text.clone())))),
            _ => None,
        };
        proof {
            assert forall|item: Inline| encodes_inline(*v, item) && valid_inline(item) implies r is Some
                && same_inline(r->0, item) by {
                assert(field_at(*v, 0) == Value::Str(*kind));
                assert(item is Literal);
            }
        }
        r
    } else if str_eq(kind.as_str(), "tag") {
        let head = decode_tag_head(value);
        proof {
            assert forall|item: Inline| encodes_inline(*v, item) && valid_inline(item) implies item is Tag && head is Some
                && (head->0).0@ == item->Tag_0.name@ && same_props((head->0).1, item->Tag_0.props)
                && *(head->0).2 == field_at(field_at(*v, 1), 2)->Array_0 by {
                assert(field_at(*v, 0) == Value::Str(*kind));
                assert(item is Tag);
                assert(encodes_tag_head(field_at(*v, 1), item->Tag_0.name, item->Tag_0.props));
            }
        }
        match head {
            Some((name, props, vs)) => {
                proof {
                    let ci = choose|i: int| 0 <= i < value->Object_0@.len() && value->Object_0@[i].1 is Array
                        && *vs == value->Object_0@[i].1->Array_0;
                    assert(decreases_to!(*v => v->Object_0));
                    assert(decreases_to!(v->Object_0 => fs));
                    assert(decreases_to!(fs => fs[vi]));
                    assert(decreases_to!(fs[vi] => fs[vi].1));
                    assert(decreases_to!(*value => value->Object_0));
                    assert(decreases_to!(value->Object_0 => value->Object_0@));
                    assert(decreases_to!(value->Object_0@ => value->Object_0@[ci]));
                    assert(decreases_to!(value->Object_0@[ci] => value->Object_0@[ci].1));
                    assert(decreases_to!(value->Object_0@[ci].1 => value->Object_0@[ci].1->Array_0));
                    assert(decreases_to!(*vs => vs@));
                    assert(decreases_to!(*v => vs@));
                }
                let content = decode_inlines(vs);
                proof {
                    assert forall|item: Inline| encodes_inline(*v, item) && valid_inline(item) implies content is Some
                        && same_inlines(content->0@, item->Tag_0.content@) by {
                        assert(item is Tag && *vs == field_at(field_at(*v, 1), 2)->Array_0);
                        assert(encodes_inlines(vs@, item->Tag_0.content@));
                        assert(valid_inlines(item->Tag_0.content@));
                    }
                }
                match content {
                    Some(content) => Some(Inline::Tag(InlineTag::new(name, props, content))),
                    None => None,
                }
            },
            None => None,
        }
    } else {
        proof {
            assert forall|item: Inline| encodes_inline(*v, item) && valid_inline(item) implies false by {
                assert(field_at(*v, 0) == Value::Str(*kind));
            }
        }
        None
    }
}

/// Decodes inline items, one for one.
pub fn decode_inlines<'a>(vs: &Vec<Value>) -> (r: Option<Vec<Inline<'a>>>)
    ensures
        forall|items: Seq<Inline>| encodes_inlines(vs@, items) && valid_inlines(items)
            ==> r is Some && same_inlines(r->0@, items),
    decreases vs@,
{
    let mut out: Vec<Inline<'a>> = Vec::new();
    let mut i: usize = 0;
    while i < vs.len()
        invariant
            i <= vs@.len(),
            out@.len() == i,
            forall|items: Seq<Inline>| #[trigger] encodes_inlines(vs@, items) && valid_inlines(items)
                ==> forall|j: int| 0 <= j < i ==> same_inline(#[trigger] out@[j], items[j]),
        decreases vs@.len() - i,
    {
        proof {
            assert(decreases_to!(vs@ => vs@[i as int]));
        }
        let decoded = decode_inline(&vs[i]);
        proof {
            assert forall|items: Seq<Inline>| encodes_inlines(vs@, items) && valid_inlines(items) implies decoded is Some
                && same_inline(decoded->0, items[i as int]) by {
                assert(encodes_inline(vs@[i as int], items[i as int]));
                assert(valid_inline(items[i as int]));
            }
        }
        match decoded {
            Some(item) => out.push(item),
            None => {
                return None;
            },
        }
        i = i + 1;
    }
    Some(out)
}

/// Decodes a whole document; keys come back interned and texts owned. Decoding the encoding
/// of a document gives back a document of the same content.
pub fn decode_document<'a>(v: &Value) -> (r: Option<Document<'a>>)
    ensures
        forall|d: Document| encodes_document(*v, d) && valid_document(d) ==> r is Some && same_document(r->0, d),
{
    proof {
        reveal_strlit("meta");
        reveal_strlit("content");
        reveal_strlit("title");
        reveal_strlit("props");
    }
    let meta = get_field(v, "meta");
    let content = get_field(v, "content");
    proof {
        assert forall|d: Document| encodes_document(*v, d) implies meta == Some(&field_at(*v, 0))
            && content == Some(&field_at(*v, 1)) by {
            assert(v->Object_0@[0].0@ == "meta"@);
            assert(v->Object_0@[1].0@ == "content"@);
        }
    }
    let (meta, content) = match (meta, content) {
        (Some(meta), Some(Value::Array(content))) => (meta, content),
        _ => {
            return None;
        },
    };
    let title = get_field(meta, "title");
    let props = get_field(meta, "props");
    proof {
        assert forall|d: Document| encodes_document(*v, d) implies title == Some(&field_at(*meta, 0))
            && props == Some(&field_at(*meta, 1)) by {
            assert(*meta == field_at(*v, 0));
            assert("title"@[0] != "props"@[0]);
            assert(meta->Object_0@[0].0@ == "title"@);
            assert(meta->Object_0@[1].0@ == "props"@);
        }
    }
    let (title, props) = match (title, props) {
        (Some(Value::Str(title)), Some(props)) => (title, props),
        _ => {
            return None;
        },
    };
    let props = decode_props(props);
    let blocks = decode_blocks(content);
    match (props, blocks) {
        (Some(props), Some(blocks)) => Some(
            Document::new(Meta::new(Text::from_string(title.clone()), props), blocks),
        ),
        _ => None,
    }
}

} // verus!
