//! Text that either borrows from the source or owns its storage.

use vstd::prelude::*;
use vstd::std_specs::cmp::PartialEqSpec;
use vstd::string::StringExecFns;

verus! {

/// Whether two string slices hold the same characters.
pub(crate) fn str_eq(a: &str, b: &str) -> (r: bool)
    ensures
        r == (a@ == b@),
{
    a.to_owned() == b.to_owned()
}

/// A string of a document: either a view into the source buffer that was parsed, or a string
/// of its own that may outlive that buffer.
#[derive(Debug)]
pub enum Text<'a> {
    Borrowed(&'a str),
    Owned(String),
}

impl<'a> View for Text<'a> {
    type V = Seq<char>;

    /// The characters of the text, whatever its storage.
    open spec fn view(&self) -> Seq<char> {
        match self {
            Text::Borrowed(s) => s@,
            Text::Owned(s) => s@,
        }
    }
}

impl<'a> Text<'a> {
    /// Whether the text is held in storage of its own.
    pub open spec fn is_owned(&self) -> bool {
        self is Owned
    }

    pub fn new(s: &'a str) -> (r: Text<'a>)
        ensures
            r@ == s@,
            !r.is_owned(),
    {
        Text::Borrowed(s)
    }

    /// Copies a borrowed text into storage of its own; an owned text is handed back as it is.
    pub fn into_owned(self) -> (r: Text<'static>)
        ensures
            r@ == self@,
            r.is_owned(),
    {
        match self {
            Text::Borrowed(s) => Text::Owned(s.to_owned()),
            Text::Owned(s) => Text::Owned(s),
        }
    }

    pub fn as_str(&self) -> (r: &str)
        ensures
            r@ == self@,
    {
        match self {
            Text::Borrowed(s) => s,
            Text::Owned(s) => s.as_str(),
        }
    }

    pub fn borrowed(&self) -> (r: bool)
        ensures
            r == !self.is_owned(),
    {
        !self.owned()
    }

    pub fn owned(&self) -> (r: bool)
        ensures
            r == self.is_owned(),
    {
        match self {
            Text::Borrowed(_) => false,
            Text::Owned(_) => true,
        }
    }

    pub fn from_string(s: String) -> (r: Text<'a>)
        ensures
            r@ == s@,
            r.is_owned(),
    {
        Text::Owned(s)
    }

    /// Joins fragments into one text. A single fragment comes back unchanged, storage
    /// included; otherwise the result is one new string.
    pub fn concat(parts: Vec<Text<'a>>) -> (r: Text<'a>)
        ensures
            r@ == concat_views(parts@),
            parts@.len() == 1 ==> r == parts@[0],
            parts@.len() == 0 ==> !r.is_owned(),
            parts@.len() >= 2 ==> r.is_owned(),
    {
        let n = parts.len();
        if n == 0 {
            proof {
                reveal_strlit("");
            }
            return Text::Borrowed("");
        }
        if n == 1 {
            assert(parts@.drop_last() =~= Seq::<Text<'a>>::empty());
            assert(concat_views(parts@.drop_last()) =~= Seq::<char>::empty());
            assert(concat_views(parts@) =~= parts@[0]@);
            let mut parts = parts;
            return parts.pop().unwrap();
        }
        let mut buf = String::new();
        let mut i: usize = 0;
        while i < n
            invariant
                n == parts@.len(),
                i <= n,
                buf@ == concat_views(parts@.subrange(0, i as int)),
            decreases n - i,
        {
            proof {
                lemma_concat_views_push(parts@.subrange(0, i as int), parts@[i as int]);
                assert(parts@.subrange(0, i as int).push(parts@[i as int]) =~= parts@.subrange(0, i + 1));
            }
            buf.append(parts[i].as_str());
            i = i + 1;
        }
        assert(parts@.subrange(0, n as int) =~= parts@);
        Text::Owned(buf)
    }
}

/// The characters of a sequence of texts, one after the other.
pub open spec fn concat_views<'a>(parts: Seq<Text<'a>>) -> Seq<char>
    decreases parts.len(),
{
    if parts.len() == 0 {
        Seq::empty()
    } else {
        concat_views(parts.drop_last()) + parts.last()@
    }
}

proof fn lemma_concat_views_push<'a>(parts: Seq<Text<'a>>, t: Text<'a>)
    ensures
        concat_views(parts.push(t)) == concat_views(parts) + t@,
{
    assert(parts.push(t).drop_last() =~= parts);
}

impl<'a> PartialEq for Text<'a> {
    /// Texts are equal when their characters are, whatever their storage.
    fn eq(&self, other: &Text<'a>) -> (r: bool) {
        str_eq(self.as_str(), other.as_str())
    }
}

impl<'a> vstd::std_specs::cmp::PartialEqSpecImpl for Text<'a> {
    open spec fn obeys_eq_spec() -> bool {
        true
    }

    open spec fn eq_spec(&self, other: &Text<'a>) -> bool {
        self@ == other@
    }
}

impl<'a> Eq for Text<'a> {
}

/// Equality of texts ignores storage: a borrowed text and an owned one with the same
/// characters are equal.
pub proof fn lemma_equality_ignores_storage<'a>(borrowed: Text<'a>, owned: Text<'a>)
    requires
        !borrowed.is_owned(),
        owned.is_owned(),
        borrowed@ == owned@,
    ensures
        borrowed.eq_spec(&owned),
        owned.eq_spec(&borrowed),
{
}

impl<'a> Default for Text<'a> {
    /// The empty text, borrowed.
    fn default() -> (r: Text<'a>)
        ensures
            r@ == Seq::<char>::empty(),
            !r.is_owned(),
    {
        proof {
            reveal_strlit("");
        }
        Text::Borrowed("")
    }
}

impl<'a> Clone for Text<'a> {
    fn clone(&self) -> (r: Text<'a>)
        ensures
            r == *self,
    {
        match self {
            Text::Borrowed(s) => Text::Borrowed(s),
            Text::Owned(s) => Text::Owned(s.clone()),
        }
    }
}

} // verus!
