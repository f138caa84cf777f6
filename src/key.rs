//! Names of tags and properties.

use vstd::prelude::*;

use crate::text::str_eq;

verus! {

/// What identifies a key: its characters, and for a key made outside the interning path the
/// handle that its table gave it (`None` for an interned key).
pub type KeyView = (Seq<char>, Option<u64>);

/// An immutable name handle.
///
/// Interned keys stand for the one handle that interning gives their content, so two keys
/// interned from equal strings are equal. An uninterned key is a disposable handle for
/// throwaway lookups, with an identity of its own: it equals its clones only, never an
/// interned key and never another uninterned key, whatever their content.
#[derive(Debug, Hash)]
pub struct Key {
    name: String,
    handle: Option<u64>,
}

/// The table that hands out the identities of uninterned keys. Keys from one table are
/// distinct handles; keys from different tables are not to be compared.
#[derive(Debug)]
pub struct KeySet {
    next: u64,
}

impl KeySet {
    /// How many uninterned keys the table has made; each has a smaller handle than this.
    pub closed spec fn issued(&self) -> nat {
        self.next as nat
    }

    pub fn new() -> (r: KeySet)
        ensures
            r.issued() == 0,
    {
        KeySet { next: 0 }
    }
}

impl View for Key {
    type V = KeyView;

    closed spec fn view(&self) -> KeyView {
        (self.name@, self.handle)
    }
}

/// Whether `k` was made before a table had issued `issued` uninterned keys: an interned key,
/// or one with an older handle.
pub open spec fn made_before(k: KeyView, issued: nat) -> bool {
    match k.1 {
        None => true,
        Some(h) => h < issued,
    }
}

impl Key {
    /// Interns `s`: the handle for that content, shared by every key interned from it.
    pub fn new(s: &str) -> (r: Key)
        ensures
            r@ == (s@, None::<u64>),
    {
        Key { name: s.to_owned(), handle: None }
    }

    /// A fresh handle for `s`, outside the interning path: it differs from every key made
    /// before it, interned or not.
    pub fn uninterned(s: &str, keys: &mut KeySet) -> (r: Key)
        requires
            old(keys).issued() < u64::MAX,
        ensures
            r@ == (s@, Some(old(keys).issued() as u64)),
            final(keys).issued() == old(keys).issued() + 1,
            forall|k: KeyView| made_before(k, old(keys).issued()) ==> #[trigger] made_before(k, final(keys).issued()) && k != r@,
            made_before(r@, final(keys).issued()),
    {
        let handle = keys.next;
        keys.next = keys.next + 1;
        Key { name: s.to_owned(), handle: Some(handle) }
    }

    pub fn as_str(&self) -> (r: &str)
        ensures
            r@ == self@.0,
    {
        self.name.as_str()
    }

    pub fn is_interned(&self) -> (r: bool)
        ensures
            r == (self@.1 is None),
    {
        self.handle.is_none()
    }
}

impl PartialEq for Key {
    /// Keys are equal when they are the same handle.
    fn eq(&self, other: &Key) -> (r: bool) {
        self.handle == other.handle && str_eq(self.name.as_str(), other.name.as_str())
    }
}

impl vstd::std_specs::cmp::PartialEqSpecImpl for Key {
    open spec fn obeys_eq_spec() -> bool {
        true
    }

    open spec fn eq_spec(&self, other: &Key) -> bool {
        self@ == other@
    }
}

impl Eq for Key {
}

impl Clone for Key {
    fn clone(&self) -> (r: Key)
        ensures
            r@ == self@,
    {
        Key { name: self.name.clone(), handle: self.handle }
    }
}

/// Interning is a function of content: equal strings give equal keys.
pub proof fn lemma_interned_keys_equal(a: &str, b: &str, ka: Key, kb: Key)
    requires
        ka@ == (a@, None::<u64>),
        kb@ == (b@, None::<u64>),
        a@ == b@,
    ensures
        ka@ == kb@,
{
}

/// An uninterned key is never the handle of an interned key, whatever their content.
pub proof fn lemma_uninterned_differs(s: &str, interned: Key, loose: Key)
    requires
        interned@ == (s@, None::<u64>),
        loose@.0 == s@,
        loose@.1 is Some,
    ensures
        interned@ != loose@,
{
}

/// Two uninterned keys made one after the other from one table differ, even from one string.
pub proof fn lemma_uninterned_keys_distinct(first: Key, second: Key, issued: nat)
    requires
        made_before(first@, issued),
        second@.1 == Some(issued as u64),
        issued < u64::MAX,
    ensures
        first@ != second@,
{
}

} // verus!
