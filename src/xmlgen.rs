//! The XML rendering of a document tree as a stream of events, made with an explicit stack
//! of pending items so that no call recurses over the tree.

use vstd::prelude::*;

use vstd::string::StringExecFns;

use crate::ast::{Block, Document, Inline, Literal};
use crate::key::KeyView;
use crate::props::PropSet;

verus! {

/// What an event stands for: names, attribute pairs and character data as characters.
pub enum EventView {
    Instruction(Seq<char>, Seq<char>),
    Start(Seq<char>, Seq<(Seq<char>, Seq<char>)>),
    End,
    Characters(Seq<char>),
}

/// An event of the XML rendering of a document.
#[derive(Debug, PartialEq, Eq)]
pub enum XmlEvent {
    /// A processing instruction: its target and its data.
    Instruction { target: String, data: String },
    /// An opening element: its qualified name and its attributes, name then value.
    Start { name: String, attributes: Vec<(String, String)> },
    /// The closing of the element opened last.
    End,
    /// Character data, to be escaped as text.
    Characters(String),
}

impl View for XmlEvent {
    type V = EventView;

    open spec fn view(&self) -> EventView {
        match self {
            XmlEvent::Instruction { target, data } => EventView::Instruction(target@, data@),
            XmlEvent::Start { name, attributes } => EventView::Start(
                name@,
                attributes@.map_values(|a: (String, String)| (a.0@, a.1@)),
            ),
            XmlEvent::End => EventView::End,
            XmlEvent::Characters(s) => EventView::Characters(s@),
        }
    }
}

/// The name of a document's own element, qualified or not by `prefix`.
pub open spec fn qualify(prefix: Option<Seq<char>>, name: Seq<char>) -> Seq<char> {
    match prefix {
        Some(p) => p + ":"@ + name,
        None => name,
    }
}

/// The attributes of a tag: each of its values, under its qualified key. Its flags have no
/// attribute: an element holds one attribute per name, and a key may be a flag and have a
/// value at once.
pub open spec fn tag_attributes(prefix: Option<Seq<char>>, props: PropSet) -> Seq<(Seq<char>, Seq<char>)> {
    props.value_entries().map_values(|e: (KeyView, Seq<char>)| (qualify(prefix, e.0.0), e.1))
}

/// The attributes of the document element: its title, then each value, then each flag with an
/// empty value.
pub open spec fn document_attributes(prefix: Option<Seq<char>>, doc: Document) -> Seq<(Seq<char>, Seq<char>)> {
    seq![("prosidy:title"@, doc.meta.title@)] + doc.meta.props.entries().map_values(
        |e: (KeyView, Option<Seq<char>>)| (qualify(prefix, e.0.0), match e.1 {
            Some(v) => v,
            None => Seq::empty(),
        }),
    )
}

/// The events of a literal: its wrapper element around its text.
pub open spec fn literal_events(wrapper: Seq<char>, lit: Literal) -> Seq<EventView> {
    seq![EventView::Start(wrapper, Seq::empty()), EventView::Characters(lit.text@), EventView::End]
}

/// The events of a block and everything in it.
pub open spec fn block_events(prefix: Option<Seq<char>>, b: Block) -> Seq<EventView>
    decreases b,
{
    match b {
        Block::Content(items) => seq![EventView::Start("prosidy:paragraph"@, Seq::empty())]
            + inlines_events(prefix, items@) + seq![EventView::End],
        Block::Literal(lit) => literal_events("prosidy:literal"@, lit),
        Block::Tag(tag) => seq![EventView::Start(qualify(prefix, tag.name@.0), tag_attributes(prefix, tag.props))]
            + blocks_events(prefix, tag.content@) + seq![EventView::End],
    }
}

/// The events of a sequence of blocks, one after the other.
pub open spec fn blocks_events(prefix: Option<Seq<char>>, bs: Seq<Block>) -> Seq<EventView>
    decreases bs,
{
    if bs.len() == 0 {
        Seq::empty()
    } else {
        block_events(prefix, bs[0]) + blocks_events(prefix, bs.drop_first())
    }
}

/// The events of an inline item and everything in it.
pub open spec fn inline_events(prefix: Option<Seq<char>>, i: Inline) -> Seq<EventView>
    decreases i,
{
    match i {
        Inline::SoftBreak => seq![EventView::Start("prosidy:softbreak"@, Seq::empty()), EventView::End],
        Inline::Text(t) => seq![EventView::Characters(t@)],
        Inline::Literal(lit) => literal_events("prosidy:literal-text"@, lit),
        Inline::Tag(tag) => seq![EventView::Start(qualify(prefix, tag.name@.0), tag_attributes(prefix, tag.props))]
            + inlines_events(prefix, tag.content@) + seq![EventView::End],
    }
}

/// The events of a sequence of inline items, one after the other.
pub open spec fn inlines_events(prefix: Option<Seq<char>>, items: Seq<Inline>) -> Seq<EventView>
    decreases items,
{
    if items.len() == 0 {
        Seq::empty()
    } else {
        inline_events(prefix, items[0]) + inlines_events(prefix, items.drop_first())
    }
}

/// The events of a whole document.
pub open spec fn document_events(prefix: Option<Seq<char>>, doc: Document) -> Seq<EventView> {
    seq![EventView::Start("prosidy:document"@, document_attributes(prefix, doc))]
        + blocks_events(prefix, doc.content@) + seq![EventView::End]
}

/// The processing instructions that point at each stylesheet, in order.
pub open spec fn stylesheet_events(stylesheets: Seq<&str>) -> Seq<EventView> {
    stylesheets.map_values(|href: &str| EventView::Instruction("xml-stylesheet"@, href@))
}

/// An opening element without attributes.
fn plain_start(name: &str) -> (r: XmlEvent)
    ensures
        r@ == EventView::Start(name@, Seq::empty()),
{
    let attributes: Vec<(String, String)> = Vec::new();
    assert(attributes@.map_values(|a: (String, String)| (a.0@, a.1@)) =~= Seq::empty());
    let r = XmlEvent::Start { name: name.to_owned(), attributes };
    r
}

/// A pending piece of work on the generator's stack.
#[derive(Debug)]
pub enum Item<'r, 'a> {
    /// A stylesheet to announce.
    Stylesheet(&'r str),
    Document(&'r Document<'a>),
    Block(&'r Block<'a>),
    Inline(&'r Inline<'a>),
    /// The text inside a literal's wrapper element.
    LitContent(&'r Literal<'a>),
    /// The closing of an element that was opened earlier.
    Close,
}

/// The events that an item stands for.
pub open spec fn item_events(prefix: Option<Seq<char>>, item: Item) -> Seq<EventView> {
    match item {
        Item::Stylesheet(href) => seq![EventView::Instruction("xml-stylesheet"@, href@)],
        Item::Document(doc) => document_events(prefix, *doc),
        Item::Block(b) => block_events(prefix, *b),
        Item::Inline(i) => inline_events(prefix, *i),
        Item::LitContent(lit) => seq![EventView::Characters(lit.text@)],
        Item::Close => seq![EventView::End],
    }
}

/// The events that a stack of items stands for, from its top down.
pub open spec fn stack_events(prefix: Option<Seq<char>>, stack: Seq<Item>) -> Seq<EventView>
    decreases stack.len(),
{
    if stack.len() == 0 {
        Seq::empty()
    } else {
        item_events(prefix, stack.last()) + stack_events(prefix, stack.drop_last())
    }
}

proof fn lemma_stack_push<'r, 'a>(prefix: Option<Seq<char>>, stack: Seq<Item<'r, 'a>>, item: Item<'r, 'a>)
    ensures
        stack_events(prefix, stack.push(item)) == item_events(prefix, item) + stack_events(prefix, stack),
{
    assert(stack.push(item).drop_last() =~= stack);
}

/// A generator of the XML events of a tree, one at a time.
///
/// It keeps a stack of pending items instead of recursing, so however deep the tree its
/// call depth stays the same.
pub struct XMLGen<'r, 'a> {
    queue: Vec<Item<'r, 'a>>,
    tag_prefix: Option<&'r str>,
}

/// The prefix, as characters.
pub open spec fn prefix_view(prefix: Option<&str>) -> Option<Seq<char>> {
    match prefix {
        Some(p) => Some(p@),
        None => None,
    }
}

impl<'r, 'a> XMLGen<'r, 'a> {
    /// The prefix put before the names of the document's own tags and properties.
    pub closed spec fn prefix(&self) -> Option<Seq<char>> {
        prefix_view(self.tag_prefix)
    }

    /// The events that are still to come.
    pub closed spec fn remaining(&self) -> Seq<EventView> {
        stack_events(self.prefix(), self.queue@)
    }

    /// A generator for `seed`, preceded by an instruction for each stylesheet.
    pub fn new(seed: Item<'r, 'a>, stylesheets: &[&'r str], tag_prefix: Option<&'r str>) -> (r: XMLGen<'r, 'a>)
        ensures
            r.prefix() == prefix_view(tag_prefix),
            r.remaining() == stylesheet_events(stylesheets@) + item_events(prefix_view(tag_prefix), seed),
    {
        let mut queue: Vec<Item<'r, 'a>> = Vec::new();
        queue.push(seed);
        let ghost prefix = prefix_view(tag_prefix);
        let ghost base = item_events(prefix, seed);
        proof {
            lemma_stack_push(prefix, Seq::empty(), seed);
            assert(stack_events(prefix, Seq::<Item>::empty()) =~= Seq::<EventView>::empty());
            assert(stack_events(prefix, queue@) =~= base);
        }
        let mut i: usize = stylesheets.len();
        while i > 0
            invariant
                i <= stylesheets@.len(),
                stack_events(prefix, queue@) == stylesheet_events(stylesheets@.subrange(i as int, stylesheets@.len() as int)) + base,
            decreases i,
        {
            let ghost before = queue@;
            queue.push(Item::Stylesheet(stylesheets[i - 1]));
            proof {
                lemma_stack_push(prefix, before, Item::Stylesheet(stylesheets@[i - 1]));
                assert(stylesheet_events(stylesheets@.subrange(i - 1, stylesheets@.len() as int)) =~=
                    seq![EventView::Instruction("xml-stylesheet"@, stylesheets@[i - 1]@)]
                    + stylesheet_events(stylesheets@.subrange(i as int, stylesheets@.len() as int)));
            }
            i = i - 1;
        }
        assert(stylesheets@.subrange(0, stylesheets@.len() as int) =~= stylesheets@);
        XMLGen { queue, tag_prefix }
    }

    /// `name` qualified by the generator's prefix.
    fn qualified_name(&self, name: &str) -> (r: String)
        ensures
            r@ == qualify(self.prefix(), name@),
    {
        match self.tag_prefix {
            Some(p) => p.to_owned().concat(":").concat(name),
            None => name.to_owned(),
        }
    }

    /// The attributes of a tag with properties `props`.
    fn tag_attributes(&self, props: &PropSet<'a>) -> (r: Vec<(String, String)>)
        ensures
            r@.map_values(|a: (String, String)| (a.0@, a.1@)) == tag_attributes(self.prefix(), *props),
    {
        let settings = props.settings();
        let ghost entries = props.value_entries();
        assert forall|j: int| 0 <= j < settings@.len() implies
            #[trigger] entries[j] == (settings@[j].0@, settings@[j].1@) by {
            assert(settings@.map_values(|e: (crate::key::Key, crate::text::Text<'a>)| (e.0@, e.1@))[j]
                == (settings@[j].0@, settings@[j].1@));
        }
        let mut r: Vec<(String, String)> = Vec::new();
        let mut i: usize = 0;
        while i < settings.len()
            invariant
                i <= settings@.len(),
                entries.len() == settings@.len(),
                forall|j: int| 0 <= j < settings@.len() ==> #[trigger] entries[j] == (settings@[j].0@, settings@[j].1@),
                r@.len() == i,
                forall|j: int| 0 <= j < i ==> (#[trigger] r@[j]).0@ == qualify(self.prefix(), entries[j].0.0)
                    && r@[j].1@ == entries[j].1,
            decreases settings@.len() - i,
        {
            let name = self.qualified_name(settings[i].0.as_str());
            let value = settings[i].1.as_str().to_owned();
            r.push((name, value));
            i = i + 1;
        }
        assert(r@.map_values(|a: (String, String)| (a.0@, a.1@)) =~= tag_attributes(self.prefix(), *props));
        r
    }

    /// The attributes of the document element.
    fn document_attributes(&self, doc: &Document<'a>) -> (r: Vec<(String, String)>)
        ensures
            r@.map_values(|a: (String, String)| (a.0@, a.1@)) == document_attributes(self.prefix(), *doc),
    {
        let entries = doc.meta.props.iter();
        let ghost spec_entries = doc.meta.props.entries();
        assert forall|j: int| 0 <= j < entries@.len() implies
            #[trigger] spec_entries[j] == (entries@[j].0@, crate::props::option_view(entries@[j].1)) by {
            assert(entries@.map_values(
                |e: (crate::key::Key, Option<crate::text::Text<'a>>)| (e.0@, crate::props::option_view(e.1)),
            )[j] == (entries@[j].0@, crate::props::option_view(entries@[j].1)));
        }
        let mut r: Vec<(String, String)> = Vec::new();
        r.push(("prosidy:title".to_owned(), doc.meta.title.as_str().to_owned()));
        let mut i: usize = 0;
        while i < entries.len()
            invariant
                i <= entries@.len(),
                spec_entries.len() == entries@.len(),
                forall|j: int| 0 <= j < entries@.len() ==> #[trigger] spec_entries[j]
                    == (entries@[j].0@, crate::props::option_view(entries@[j].1)),
                r@.len() == i + 1,
                r@[0].0@ == "prosidy:title"@,
                r@[0].1@ == doc.meta.title@,
                forall|j: int| 0 <= j < i ==> (#[trigger] r@[j + 1]).0@ == qualify(self.prefix(), spec_entries[j].0.0)
                    && r@[j + 1].1@ == match spec_entries[j].1 {
                        Some(v) => v,
                        None => Seq::empty(),
                    },
            decreases entries@.len() - i,
        {
            let name = self.qualified_name(entries[i].0.as_str());
            let value = match &entries[i].1 {
                Some(t) => t.as_str().to_owned(),
                None => String::new(),
            };
            r.push((name, value));
            i = i + 1;
        }
        assert(r@.map_values(|a: (String, String)| (a.0@, a.1@)) =~= document_attributes(self.prefix(), *doc)) by {
            let f = |a: (String, String)| (a.0@, a.1@);
            assert forall|j: int| 0 <= j < r@.len() implies #[trigger] r@.map_values(f)[j]
                == document_attributes(self.prefix(), *doc)[j] by {
                if j > 0 {
                    assert(r@[(j - 1) + 1] == r@[j]);
                }
            }
        }
        r
    }

    /// Pushes the items for `blocks` so that the first of them is on top.
    fn push_blocks(&mut self, blocks: &'r [Block<'a>])
        ensures
            final(self).prefix() == old(self).prefix(),
            final(self).remaining() == blocks_events(old(self).prefix(), blocks@) + old(self).remaining(),
    {
        let ghost prefix = self.prefix();
        let ghost base = self.remaining();
        let n = blocks.len();
        let mut i: usize = n;
        assert(blocks@.subrange(n as int, n as int) =~= Seq::<Block>::empty());
        while i > 0
            invariant
                n == blocks@.len(),
                i <= n,
                self.prefix() == prefix,
                self.remaining() == blocks_events(prefix, blocks@.subrange(i as int, n as int)) + base,
            decreases i,
        {
            let ghost before = self.queue@;
            self.queue.push(Item::Block(&blocks[i - 1]));
            proof {
                lemma_stack_push(prefix, before, Item::Block(&blocks@[i - 1]));
                let sub = blocks@.subrange(i - 1, n as int);
                assert(sub[0] == blocks@[i - 1]);
                assert(sub.drop_first() =~= blocks@.subrange(i as int, n as int));
            }
            i = i - 1;
        }
        assert(blocks@.subrange(0, n as int) =~= blocks@);
    }

    /// Pushes the items for `items` so that the first of them is on top.
    fn push_inlines(&mut self, items: &'r [Inline<'a>])
        ensures
            final(self).prefix() == old(self).prefix(),
            final(self).remaining() == inlines_events(old(self).prefix(), items@) + old(self).remaining(),
    {
        let ghost prefix = self.prefix();
        let ghost base = self.remaining();
        let n = items.len();
        let mut i: usize = n;
        assert(items@.subrange(n as int, n as int) =~= Seq::<Inline>::empty());
        while i > 0
            invariant
                n == items@.len(),
                i <= n,
                self.prefix() == prefix,
                self.remaining() == inlines_events(prefix, items@.subrange(i as int, n as int)) + base,
            decreases i,
        {
            let ghost before = self.queue@;
            self.queue.push(Item::Inline(&items[i - 1]));
            proof {
                lemma_stack_push(prefix, before, Item::Inline(&items@[i - 1]));
                let sub = items@.subrange(i - 1, n as int);
                assert(sub[0] == items@[i - 1]);
                assert(sub.drop_first() =~= items@.subrange(i as int, n as int));
            }
            i = i - 1;
        }
        assert(items@.subrange(0, n as int) =~= items@);
    }

    /// Pushes one item.
    fn push(&mut self, item: Item<'r, 'a>)
        ensures
            final(self).prefix() == old(self).prefix(),
            final(self).remaining() == item_events(old(self).prefix(), item) + old(self).remaining(),
    {
        let ghost before = self.queue@;
        self.queue.push(item);
        proof {
            lemma_stack_push(self.prefix(), before, item);
        }
    }

    /// The next event, if any is left. It is the first of the remaining events, which lose it.
    pub fn next_event(&mut self) -> (r: Option<XmlEvent>)
        ensures
            final(self).prefix() == old(self).prefix(),
            old(self).remaining().len() == 0 ==> r is None && final(self).remaining().len() == 0,
            old(self).remaining().len() > 0 ==> r is Some && r->0@ == old(self).remaining()[0]
                && final(self).remaining() == old(self).remaining().drop_first(),
    {
        let ghost prefix = self.prefix();
        let ghost stack = self.queue@;
        let item = match self.queue.pop() {
            Some(item) => item,
            None => {
                return None;
            },
        };
        let ghost rest = self.remaining();
        proof {
            assert(self.queue@ =~= stack.drop_last());
        }
        let event = match item {
            Item::Stylesheet(href) => XmlEvent::Instruction {
                target: "xml-stylesheet".to_owned(),
                data: href.to_owned(),
            },
            Item::Document(doc) => {
                self.push(Item::Close);
                self.push_blocks(doc.content.as_slice());
                XmlEvent::Start { name: "prosidy:document".to_owned(), attributes: self.document_attributes(doc) }
            },
            Item::Block(block) => match block {
                Block::Content(items) => {
                    self.push(Item::Close);
                    self.push_inlines(items.as_slice());
                    plain_start("prosidy:paragraph")
                },
                Block::Literal(lit) => {
                    self.push(Item::Close);
                    self.push(Item::LitContent(lit));
                    plain_start("prosidy:literal")
                },
                Block::Tag(tag) => {
                    self.push(Item::Close);
                    self.push_blocks(tag.content.as_slice());
                    XmlEvent::Start {
                        name: self.qualified_name(tag.name.as_str()),
                        attributes: self.tag_attributes(&tag.props),
                    }
                },
            },
            Item::Inline(inline) => match inline {
                Inline::SoftBreak => {
                    self.push(Item::Close);
                    plain_start("prosidy:softbreak")
                },
                Inline::Text(text) => XmlEvent::Characters(text.as_str().to_owned()),
                Inline::Literal(lit) => {
                    self.push(Item::Close);
                    self.push(Item::LitContent(lit));
                    plain_start("prosidy:literal-text")
                },
                Inline::Tag(tag) => {
                    self.push(Item::Close);
                    self.push_inlines(tag.content.as_slice());
                    XmlEvent::Start {
                        name: self.qualified_name(tag.name.as_str()),
                        attributes: self.tag_attributes(&tag.props),
                    }
                },
            },
            Item::LitContent(lit) => XmlEvent::Characters(lit.text.as_str().to_owned()),
            Item::Close => XmlEvent::End,
        };
        proof {
            let all = item_events(prefix, item);
            assert(old(self).remaining() == all + rest);
            assert(all.len() > 0);
            assert(event@ == all[0]);
            assert(self.remaining() =~= all.drop_first() + rest);
            assert(old(self).remaining().drop_first() =~= all.drop_first() + rest);
        }
        Some(event)
    }

    /// Every remaining event, in order.
    pub fn collect_events(&mut self) -> (r: Vec<XmlEvent>)
        ensures
            r@.map_values(|e: XmlEvent| e@) == old(self).remaining(),
            final(self).remaining().len() == 0,
    {
        let ghost all = self.remaining();
        let mut r: Vec<XmlEvent> = Vec::new();
        assert(r@.map_values(|e: XmlEvent| e@) + self.remaining() =~= all);
        loop
            invariant
                r@.map_values(|e: XmlEvent| e@) + self.remaining() == all,
            ensures
                r@.map_values(|e: XmlEvent| e@) == all,
                self.remaining().len() == 0,
            decreases self.remaining().len(),
        {
            let ghost before = self.remaining();
            match self.next_event() {
                Some(e) => {
                    let ghost done = r@.map_values(|e: XmlEvent| e@);
                    r.push(e);
                    proof {
                        assert(r@.map_values(|e: XmlEvent| e@) =~= done.push(e@));
                        assert(before =~= seq![e@] + self.remaining());
                        assert(done.push(e@) + self.remaining() =~= done + before);
                    }
                },
                None => {
                    assert(self.remaining() =~= Seq::<EventView>::empty());
                    assert(r@.map_values(|e: XmlEvent| e@) =~= all);
                    break;
                },
            }
        }
        r
    }
}

/// Renders a document as XML events: an instruction for each stylesheet, then the document
/// element and everything in it. However deeply the tags nest, no call here recurses.
pub fn render_document<'r, 'a>(
    doc: &'r Document<'a>,
    stylesheets: &[&'r str],
    tag_prefix: Option<&'r str>,
) -> (r: Vec<XmlEvent>)
    ensures
        r@.map_values(|e: XmlEvent| e@) == stylesheet_events(stylesheets@) + document_events(
            prefix_view(tag_prefix),
            *doc,
        ),
{
    let mut generator = XMLGen::new(Item::Document(doc), stylesheets, tag_prefix);
    generator.collect_events()
}

} // verus!
