//! The tree of a document: blocks, inline items, tags and literals, and its header.

use vstd::prelude::*;

use crate::key::Key;
use crate::props::PropSet;
use crate::text::Text;

verus! {

/// Raw text that is not read as markup.
#[derive(Debug, PartialEq, Eq)]
pub struct Literal<'a> {
    pub text: Text<'a>,
}

impl<'a> Literal<'a> {
    pub fn new(text: Text<'a>) -> (r: Literal<'a>)
        ensures
            r.text == text,
            r.text@ == text@,
            r.text.is_owned() == text.is_owned(),
    {
        Literal { text }
    }

    pub fn text(&self) -> (r: &Text<'a>)
        ensures
            *r == self.text,
    {
        &self.text
    }
}

impl<'a> Clone for Literal<'a> {
    fn clone(&self) -> (r: Literal<'a>)
        ensures
            r == *self,
    {
        Literal { text: self.text.clone() }
    }
}

impl<'a> Default for Literal<'a> {
    /// The empty literal.
    fn default() -> (r: Literal<'a>)
        ensures
            r.text@ == Seq::<char>::empty(),
    {
        Literal { text: Text::default() }
    }
}

/// A named region of a document: a name, properties, and children.
#[derive(Debug, PartialEq, Eq)]
pub struct Tag<'a, T> {
    pub name: Key,
    pub props: PropSet<'a>,
    pub content: Vec<T>,
}

/// A tag whose children are blocks.
pub type BlockTag<'a> = Tag<'a, Block<'a>>;

/// A tag whose children are inline items.
pub type InlineTag<'a> = Tag<'a, Inline<'a>>;

impl<'a, T> Tag<'a, T> {
    pub fn new(name: Key, props: PropSet<'a>, content: Vec<T>) -> (r: Tag<'a, T>)
        ensures
            r.name == name,
            r.props == props,
            r.content == content,
    {
        Tag { name, props, content }
    }

    pub fn name(&self) -> (r: &Key)
        ensures
            *r == self.name,
    {
        &self.name
    }

    pub fn set_name(&mut self, name: Key)
        ensures
            final(self).name == name,
            final(self).props == old(self).props,
            final(self).content == old(self).content,
    {
        self.name = name;
    }

    pub fn props(&self) -> (r: &PropSet<'a>)
        ensures
            *r == self.props,
    {
        &self.props
    }

    pub fn props_mut(&mut self) -> (r: &mut PropSet<'a>)
        ensures
            *r == old(self).props,
            final(self).name == old(self).name,
            final(self).props == *final(r),
            final(self).content == old(self).content,
    {
        &mut self.props
    }

    pub fn content(&self) -> (r: &[T])
        ensures
            r@ == self.content@,
    {
        self.content.as_slice()
    }

    pub fn content_mut(&mut self) -> (r: &mut Vec<T>)
        ensures
            *r == old(self).content,
            final(self).name == old(self).name,
            final(self).props == old(self).props,
            final(self).content == *final(r),
    {
        &mut self.content
    }
}

/// An item at the level of a document's body.
#[derive(Debug, PartialEq, Eq)]
pub enum Block<'a> {
    /// A paragraph.
    Content(Vec<Inline<'a>>),
    Literal(Literal<'a>),
    Tag(BlockTag<'a>),
}

impl<'a> Block<'a> {
    pub fn as_content(&self) -> (r: Option<&Vec<Inline<'a>>>)
        ensures
            match self {
                Block::Content(c) => r == Some(c),
                _ => r is None,
            },
    {
        match self {
            Block::Content(c) => Some(c),
            _ => None,
        }
    }

    pub fn as_mut_content(&mut self) -> (r: Option<&mut Vec<Inline<'a>>>)
        ensures
            match *old(self) {
                Block::Content(c) => r is Some && *r->0 == c
                    && *final(self) == Block::Content(*final(r->0)),
                _ => r is None && *final(self) == *old(self),
            },
    {
        match self {
            Block::Content(c) => Some(c),
            _ => None,
        }
    }

    pub fn as_tag(&self) -> (r: Option<&BlockTag<'a>>)
        ensures
            match self {
                Block::Tag(t) => r == Some(t),
                _ => r is None,
            },
    {
        match self {
            Block::Tag(t) => Some(t),
            _ => None,
        }
    }

    pub fn as_mut_tag(&mut self) -> (r: Option<&mut BlockTag<'a>>)
        ensures
            match *old(self) {
                Block::Tag(t) => r is Some && *r->0 == t
                    && *final(self) == Block::Tag(*final(r->0)),
                _ => r is None && *final(self) == *old(self),
            },
    {
        match self {
            Block::Tag(t) => Some(t),
            _ => None,
        }
    }
}

/// An item inside a paragraph.
#[derive(Debug, PartialEq, Eq)]
pub enum Inline<'a> {
    SoftBreak,
    Tag(InlineTag<'a>),
    Text(Text<'a>),
    Literal(Literal<'a>),
}

impl<'a> Inline<'a> {
    pub fn as_tag(&self) -> (r: Option<&InlineTag<'a>>)
        ensures
            match self {
                Inline::Tag(t) => r == Some(t),
                _ => r is None,
            },
    {
        match self {
            Inline::Tag(t) => Some(t),
            _ => None,
        }
    }

    pub fn as_mut_tag(&mut self) -> (r: Option<&mut InlineTag<'a>>)
        ensures
            match *old(self) {
                Inline::Tag(t) => r is Some && *r->0 == t
                    && *final(self) == Inline::Tag(*final(r->0)),
                _ => r is None && *final(self) == *old(self),
            },
    {
        match self {
            Inline::Tag(t) => Some(t),
            _ => None,
        }
    }

    pub fn as_text(&self) -> (r: Option<Text<'a>>)
        ensures
            match self {
                Inline::Text(t) => r == Some(*t),
                _ => r is None,
            },
    {
        match self {
            Inline::Text(t) => Some(t.clone()),
            _ => None,
        }
    }
}

/// The header of a document: its title and its properties.
#[derive(Debug, PartialEq, Eq)]
pub struct Meta<'a> {
    pub title: Text<'a>,
    pub props: PropSet<'a>,
}

impl<'a> Meta<'a> {
    pub fn new(title: Text<'a>, props: PropSet<'a>) -> (r: Meta<'a>)
        ensures
            r.title == title,
            r.props == props,
    {
        Meta { title, props }
    }

    pub fn title(&self) -> (r: &Text<'a>)
        ensures
            *r == self.title,
    {
        &self.title
    }

    pub fn props(&self) -> (r: &PropSet<'a>)
        ensures
            *r == self.props,
    {
        &self.props
    }
}

impl<'a> Clone for Meta<'a> {
    fn clone(&self) -> (r: Meta<'a>)
        ensures
            r.title == self.title,
            r.props.flags() == self.props.flags(),
            r.props.values() == self.props.values(),
    {
        Meta { title: self.title.clone(), props: self.props.clone() }
    }
}

impl<'a> Default for Meta<'a> {
    /// An empty title and no properties.
    fn default() -> (r: Meta<'a>)
        ensures
            r.title@ == Seq::<char>::empty(),
            r.props.flags().is_empty(),
            r.props.values().is_empty(),
    {
        Meta { title: Text::default(), props: PropSet::new() }
    }
}

/// A whole document: its header and its blocks.
#[derive(Debug, PartialEq, Eq)]
pub struct Document<'a> {
    pub meta: Meta<'a>,
    pub content: Vec<Block<'a>>,
}

impl<'a> Document<'a> {
    pub fn new(meta: Meta<'a>, content: Vec<Block<'a>>) -> (r: Document<'a>)
        ensures
            r.meta == meta,
            r.content == content,
    {
        Document { meta, content }
    }

    pub fn meta(&self) -> (r: &Meta<'a>)
        ensures
            *r == self.meta,
    {
        &self.meta
    }

    pub fn title(&self) -> (r: &Text<'a>)
        ensures
            *r == self.meta.title,
    {
        &self.meta.title
    }

    pub fn content(&self) -> (r: &[Block<'a>])
        ensures
            r@ == self.content@,
    {
        self.content.as_slice()
    }

    pub fn content_mut(&mut self) -> (r: &mut Vec<Block<'a>>)
        ensures
            *r == old(self).content,
            final(self).meta == old(self).meta,
            final(self).content == *final(r),
    {
        &mut self.content
    }

    pub fn props(&self) -> (r: &PropSet<'a>)
        ensures
            *r == self.meta.props,
    {
        &self.meta.props
    }

    pub fn props_mut(&mut self) -> (r: &mut PropSet<'a>)
        ensures
            *r == old(self).meta.props,
            final(self).meta.title == old(self).meta.title,
            final(self).meta.props == *final(r),
            final(self).content == old(self).content,
    {
        &mut self.meta.props
    }
}

/// A read-only view of a node of a document tree, of any level.
#[derive(Debug, Clone, Copy)]
pub enum Node<'r, 'a> {
    Document(&'r Document<'a>),
    Block(&'r Block<'a>),
    Inline(&'r Inline<'a>),
}

impl<'r, 'a> Node<'r, 'a> {
    /// The children of the node, in order.
    pub open spec fn children(self) -> Seq<Node<'r, 'a>> {
        match self {
            Node::Document(doc) => Seq::new(doc.content@.len(), |i: int| Node::Block(&doc.content@[i])),
            Node::Block(Block::Tag(tag)) => Seq::new(tag.content@.len(), |i: int| Node::Block(&tag.content@[i])),
            Node::Block(Block::Content(items)) => Seq::new(items@.len(), |i: int| Node::Inline(&items@[i])),
            Node::Inline(Inline::Tag(tag)) => Seq::new(tag.content@.len(), |i: int| Node::Inline(&tag.content@[i])),
            _ => Seq::empty(),
        }
    }

    /// Pushes the children of the node onto `stack`, last first, so that the first child is
    /// on top.
    pub fn push_children(self, stack: &mut Vec<Node<'r, 'a>>)
        ensures
            final(stack)@ == old(stack)@ + self.children().reverse(),
    {
        let ghost base = stack@;
        match self {
            Node::Document(doc) => {
                let n = doc.content.len();
                let mut i: usize = n;
                assert(self.children().len() == n);
                assert(stack@ =~= base + self.children().subrange(n as int, n as int).reverse());
                while i > 0
                    invariant
                        i <= n == doc.content@.len(),
                        stack@ == base + self.children().subrange(i as int, n as int).reverse(),
                        self.children().len() == n,
                        forall|j: int| 0 <= j < n ==> self.children()[j] == Node::Block(&doc.content@[j]),
                    decreases i,
                {
                    stack.push(Node::Block(&doc.content[i - 1]));
                    i = i - 1;
                    assert(stack@ =~= base + self.children().subrange(i as int, n as int).reverse());
                }
                assert(self.children().subrange(0, n as int) =~= self.children());
            },
            Node::Block(Block::Tag(tag)) => {
                let n = tag.content.len();
                let mut i: usize = n;
                assert(self.children().len() == n);
                assert(stack@ =~= base + self.children().subrange(n as int, n as int).reverse());
                while i > 0
                    invariant
                        i <= n == tag.content@.len(),
                        stack@ == base + self.children().subrange(i as int, n as int).reverse(),
                        self.children().len() == n,
                        forall|j: int| 0 <= j < n ==> self.children()[j] == Node::Block(&tag.content@[j]),
                    decreases i,
                {
                    stack.push(Node::Block(&tag.content[i - 1]));
                    i = i - 1;
                    assert(stack@ =~= base + self.children().subrange(i as int, n as int).reverse());
                }
                assert(self.children().subrange(0, n as int) =~= self.children());
            },
            Node::Block(Block::Content(items)) => {
                let n = items.len();
                let mut i: usize = n;
                assert(self.children().len() == n);
                assert(stack@ =~= base + self.children().subrange(n as int, n as int).reverse());
                while i > 0
                    invariant
                        i <= n == items@.len(),
                        stack@ == base + self.children().subrange(i as int, n as int).reverse(),
                        self.children().len() == n,
                        forall|j: int| 0 <= j < n ==> self.children()[j] == Node::Inline(&items@[j]),
                    decreases i,
                {
                    stack.push(Node::Inline(&items[i - 1]));
                    i = i - 1;
                    assert(stack@ =~= base + self.children().subrange(i as int, n as int).reverse());
                }
                assert(self.children().subrange(0, n as int) =~= self.children());
            },
            Node::Inline(Inline::Tag(tag)) => {
                let n = tag.content.len();
                let mut i: usize = n;
                assert(self.children().len() == n);
                assert(stack@ =~= base + self.children().subrange(n as int, n as int).reverse());
                while i > 0
                    invariant
                        i <= n == tag.content@.len(),
                        stack@ == base + self.children().subrange(i as int, n as int).reverse(),
                        self.children().len() == n,
                        forall|j: int| 0 <= j < n ==> self.children()[j] == Node::Inline(&tag.content@[j]),
                    decreases i,
                {
                    stack.push(Node::Inline(&tag.content[i - 1]));
                    i = i - 1;
                    assert(stack@ =~= base + self.children().subrange(i as int, n as int).reverse());
                }
                assert(self.children().subrange(0, n as int) =~= self.children());
            },
            _ => {
                assert(stack@ =~= base + self.children().reverse());
            },
        }
    }
}

} // verus!
