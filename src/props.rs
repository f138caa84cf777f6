//! Property sets: boolean flags and keyed values, in two independent namespaces.

use vstd::prelude::*;

use crate::key::{Key, KeyView};
use crate::text::{str_eq, Text};

verus! {

/// A set of properties: boolean flags, and keyed text values.
///
/// The two namespaces are independent: a key may be a flag and have a value at once.
/// Neither holds a key twice.
#[derive(Debug)]
pub struct PropSet<'a> {
    properties: Vec<Key>,
    settings: Vec<(Key, Text<'a>)>,
}

/// Whether the keys of `s` are pairwise distinct handles.
pub open spec fn distinct_keys(s: Seq<KeyView>) -> bool {
    forall|i: int, j: int| 0 <= i < s.len() && 0 <= j < s.len() && i != j ==> s[i] != s[j]
}

/// The characters of an optional text.
pub open spec fn option_view<'a>(t: Option<Text<'a>>) -> Option<Seq<char>> {
    match t {
        Some(t) => Some(t@),
        None => None,
    }
}

impl<'a> PropSet<'a> {
    #[verifier::type_invariant]
    closed spec fn wf(self) -> bool {
        &&& distinct_keys(self.flag_keys())
        &&& distinct_keys(self.value_keys())
    }

    closed spec fn flag_keys(self) -> Seq<KeyView> {
        self.properties@.map_values(|k: Key| k@)
    }

    closed spec fn value_keys(self) -> Seq<KeyView> {
        self.settings@.map_values(|e: (Key, Text<'a>)| e.0@)
    }

    /// The keyed values, in the order in which `settings` and `iter` hand them out.
    pub closed spec fn value_entries(self) -> Seq<(KeyView, Seq<char>)> {
        self.settings@.map_values(|e: (Key, Text<'a>)| (e.0@, e.1@))
    }

    /// Whether neither namespace holds a key twice; true of every property set that code holds.
    pub closed spec fn is_well_formed(self) -> bool {
        self.wf()
    }

    /// The flags, in the order in which `properties` hands them out.
    pub closed spec fn flag_entries(self) -> Seq<KeyView> {
        self.flag_keys()
    }

    /// Every value, then every flag, in the order in which `iter` hands them out.
    pub closed spec fn entries(self) -> Seq<(KeyView, Option<Seq<char>>)> {
        self.settings@.map_values(|e: (Key, Text<'a>)| (e.0@, Some(e.1@)))
            + self.properties@.map_values(|k: Key| (k@, None::<Seq<char>>))
    }

    /// The keys set as flags.
    pub closed spec fn flags(self) -> Set<KeyView> {
        Set::new(|k: KeyView| self.flag_keys().contains(k))
    }

    /// The keyed values.
    pub closed spec fn values(self) -> Map<KeyView, Seq<char>> {
        Map::new(
            |k: KeyView| self.value_keys().contains(k),
            |k: KeyView| self.settings@[self.value_keys().index_of(k)].1@,
        )
    }

    pub fn new() -> (r: PropSet<'a>)
        ensures
            r.flags() == Set::<KeyView>::empty(),
            r.values() == Map::<KeyView, Seq<char>>::empty(),
            r.is_well_formed(),
    {
        let r = PropSet { properties: Vec::new(), settings: Vec::new() };
        assert(r.flags() =~= Set::<KeyView>::empty());
        assert(r.values() =~= Map::<KeyView, Seq<char>>::empty());
        r
    }

    /// An empty set, with room for `cap` flags and `cap` values.
    pub fn with_capacity(cap: usize) -> (r: PropSet<'a>)
        ensures
            r.flags() == Set::<KeyView>::empty(),
            r.values() == Map::<KeyView, Seq<char>>::empty(),
            r.is_well_formed(),
    {
        let r = PropSet { properties: Vec::with_capacity(cap), settings: Vec::with_capacity(cap) };
        assert(r.flags() =~= Set::<KeyView>::empty());
        assert(r.values() =~= Map::<KeyView, Seq<char>>::empty());
        r
    }

    fn flag_index(&self, key: &Key) -> (r: Option<usize>)
        ensures
            match r {
                Some(i) => i < self.properties@.len() && self.properties@[i as int]@ == key@,
                None => !self.flag_keys().contains(key@),
            },
    {
        let mut i: usize = 0;
        while i < self.properties.len()
            invariant
                i <= self.properties@.len(),
                forall|j: int| 0 <= j < i ==> self.properties@[j]@ != key@,
            decreases self.properties@.len() - i,
        {
            if self.properties[i] == *key {
                return Some(i);
            }
            i = i + 1;
        }
        proof {
            if self.flag_keys().contains(key@) {
                let j = self.flag_keys().index_of(key@);
                assert(self.properties@[j]@ == key@);
            }
        }
        None
    }

    fn value_index(&self, key: &Key) -> (r: Option<usize>)
        ensures
            match r {
                Some(i) => i < self.settings@.len() && self.settings@[i as int].0@ == key@,
                None => !self.value_keys().contains(key@),
            },
    {
        let mut i: usize = 0;
        while i < self.settings.len()
            invariant
                i <= self.settings@.len(),
                forall|j: int| 0 <= j < i ==> self.settings@[j].0@ != key@,
            decreases self.settings@.len() - i,
        {
            if self.settings[i].0 == *key {
                return Some(i);
            }
            i = i + 1;
        }
        proof {
            if self.value_keys().contains(key@) {
                let j = self.value_keys().index_of(key@);
                assert(self.settings@[j].0@ == key@);
            }
        }
        None
    }

    /// Gives `key` the value `value`, and returns the value that it had, if any.
    pub fn put(&mut self, key: Key, value: Text<'a>) -> (r: Option<Text<'a>>)
        ensures
            final(self).values() == old(self).values().insert(key@, value@),
            final(self).flags() == old(self).flags(),
            match r {
                Some(t) => old(self).values().contains_key(key@) && t@ == old(self).values()[key@],
                None => !old(self).values().contains_key(key@),
            },
            final(self).is_well_formed(),
    {
        proof {
            use_type_invariant(&*self);
        }
        let ghost old_values = self.values();
        let ghost old_keys = self.value_keys();
        let ghost kv = key@;
        let found = self.value_index(&key);
        let previous = match found {
            Some(i) => Some(self.settings[i].1.clone()),
            None => None,
        };
        let mut this = PropSet::new();
        std::mem::swap(self, &mut this);
        let PropSet { properties, mut settings } = this;
        match found {
            Some(i) => {
                settings.set(i, (key, value));
                assert(settings@.map_values(|e: (Key, Text<'a>)| e.0@) =~= old_keys);
            },
            None => {
                settings.push((key, value));
                assert(settings@.map_values(|e: (Key, Text<'a>)| e.0@) =~= old_keys.push(kv));
            },
        }
        *self = PropSet { properties, settings };
        proof {
            use_type_invariant(&*self);
            match found {
                Some(i) => {
                    assert(self.value_keys()[i as int] == kv);
                    assert(self.value_keys().contains(kv));
                    assert(self.value_keys().index_of(kv) == i);
                    assert(self.values() =~= old_values.insert(kv, value@));
                },
                None => {
                    assert(self.value_keys()[old_keys.len() as int] == kv);
                    assert(self.value_keys().contains(kv));
                    assert(self.value_keys().index_of(kv) == old_keys.len());
                    assert forall|k: KeyView| #[trigger] self.value_keys().contains(k) && k != kv
                        implies old_keys.contains(k) && self.value_keys().index_of(k) == old_keys.index_of(k) by {
                        let j = self.value_keys().index_of(k);
                        assert(old_keys[j] == k);
                    }
                    assert forall|k: KeyView| #[trigger] old_keys.contains(k)
                        implies self.value_keys().contains(k) by {
                        assert(self.value_keys()[old_keys.index_of(k)] == k);
                    }
                    assert(self.values() =~= old_values.insert(kv, value@));
                },
            }
            assert(self.flags() =~= old(self).flags());
        }
        previous
    }

    /// Removes the value of `key`, and returns it, if there was one.
    pub fn delete(&mut self, key: &Key) -> (r: Option<Text<'a>>)
        ensures
            final(self).values() == old(self).values().remove(key@),
            final(self).flags() == old(self).flags(),
            match r {
                Some(t) => old(self).values().contains_key(key@) && t@ == old(self).values()[key@],
                None => !old(self).values().contains_key(key@),
            },
            final(self).is_well_formed(),
    {
        proof {
            use_type_invariant(&*self);
        }
        let ghost old_values = self.values();
        let ghost old_keys = self.value_keys();
        let ghost old_settings = self.settings@;
        match self.value_index(key) {
            Some(i) => {
                let mut this = PropSet::new();
                std::mem::swap(self, &mut this);
                let PropSet { properties, mut settings } = this;
                let entry = settings.remove(i);
                let ghost new_keys = settings@.map_values(|e: (Key, Text<'a>)| e.0@);
                assert(new_keys =~= old_keys.remove(i as int));
                *self = PropSet { properties, settings };
                proof {
                    assert(old_keys[i as int] == key@);
                    assert(old_keys.index_of(key@) == i);
                    assert forall|k: KeyView| #[trigger] old_keys.contains(k) && k != key@
                        implies new_keys.contains(k) by {
                        let j = old_keys.index_of(k);
                        if j < i {
                            assert(new_keys[j] == k);
                        } else {
                            assert(new_keys[j - 1] == k);
                        }
                    }
                    assert forall|k: KeyView| #[trigger] new_keys.contains(k)
                        implies k != key@ && old_keys.contains(k)
                            && self.settings@[new_keys.index_of(k)].1@
                                == old_settings[old_keys.index_of(k)].1@ by {
                        let j = new_keys.index_of(k);
                        if j < i {
                            assert(old_keys[j] == k);
                        } else {
                            assert(old_keys[j + 1] == k);
                        }
                    }
                    assert(self.values() =~= old_values.remove(key@));
                    assert(self.flags() =~= old(self).flags());
                }
                Some(entry.1)
            },
            None => {
                assert(self.values() =~= old_values.remove(key@));
                None
            },
        }
    }

    /// The value of `key`, if it has one.
    pub fn lookup(&self, key: &Key) -> (r: Option<Text<'a>>)
        ensures
            match r {
                Some(t) => self.values().contains_key(key@) && t@ == self.values()[key@],
                None => !self.values().contains_key(key@),
            },
    {
        proof {
            use_type_invariant(self);
        }
        match self.value_index(key) {
            Some(i) => {
                assert(self.value_keys()[i as int] == key@);
                assert(self.value_keys().index_of(key@) == i);
                Some(self.settings[i].1.clone())
            },
            None => None,
        }
    }

    /// Sets `key` as a flag.
    pub fn set(&mut self, key: Key)
        ensures
            final(self).flags() == old(self).flags().insert(key@),
            final(self).values() == old(self).values(),
            final(self).is_well_formed(),
    {
        proof {
            use_type_invariant(&*self);
        }
        let ghost old_keys = self.flag_keys();
        let ghost old_values = self.values();
        let ghost kv = key@;
        let found = self.flag_index(&key);
        if let Some(i) = found {
            assert(old_keys[i as int] == kv);
        } else {
            let mut this = PropSet::new();
            std::mem::swap(self, &mut this);
            let PropSet { mut properties, settings } = this;
            properties.push(key);
            assert(properties@.map_values(|k: Key| k@) =~= old_keys.push(kv));
            *self = PropSet { properties, settings };
            assert(self.flag_keys()[old_keys.len() as int] == kv);
            assert(self.flag_keys().contains(kv));
            assert forall|k: KeyView| #[trigger] old_keys.contains(k) implies self.flag_keys().contains(k) by {
                assert(self.flag_keys()[old_keys.index_of(k)] == k);
            }
        }
        assert(self.flags() =~= old(self).flags().insert(kv));
        assert(self.values() =~= old_values);
    }

    /// Clears the flag `key`, and returns whether it was set.
    pub fn unset(&mut self, key: &Key) -> (r: bool)
        ensures
            final(self).flags() == old(self).flags().remove(key@),
            final(self).values() == old(self).values(),
            r == old(self).flags().contains(key@),
            final(self).is_well_formed(),
    {
        proof {
            use_type_invariant(&*self);
        }
        let ghost old_keys = self.flag_keys();
        let ghost old_values = self.values();
        match self.flag_index(key) {
            Some(i) => {
                let mut this = PropSet::new();
                std::mem::swap(self, &mut this);
                let PropSet { mut properties, settings } = this;
                properties.remove(i);
                let ghost new_keys = properties@.map_values(|k: Key| k@);
                assert(new_keys =~= old_keys.remove(i as int));
                *self = PropSet { properties, settings };
                proof {
                    assert(old_keys[i as int] == key@);
                    assert forall|k: KeyView| #[trigger] old_keys.contains(k) && k != key@
                        implies new_keys.contains(k) by {
                        let j = old_keys.index_of(k);
                        if j < i {
                            assert(new_keys[j] == k);
                        } else {
                            assert(new_keys[j - 1] == k);
                        }
                    }
                    assert forall|k: KeyView| #[trigger] new_keys.contains(k)
                        implies k != key@ && old_keys.contains(k) by {
                        let j = new_keys.index_of(k);
                        if j < i {
                            assert(old_keys[j] == k);
                        } else {
                            assert(old_keys[j + 1] == k);
                        }
                    }
                    assert(self.flags() =~= old(self).flags().remove(key@));
                    assert(self.values() =~= old_values);
                }
                true
            },
            None => {
                assert(self.flags() =~= old(self).flags().remove(key@));
                false
            },
        }
    }

    /// Whether `key` is set as a flag.
    pub fn is_set(&self, key: &Key) -> (r: bool)
        ensures
            r == self.flags().contains(key@),
    {
        match self.flag_index(key) {
            Some(i) => {
                assert(self.flag_keys()[i as int] == key@);
                true
            },
            None => false,
        }
    }

    /// Whether the set holds neither a flag nor a value.
    pub fn is_empty(&self) -> (r: bool)
        ensures
            r == (self.flags().is_empty() && self.values().is_empty()),
    {
        if self.properties.len() > 0 {
            assert(self.flags().contains(self.properties@[0]@)) by {
                assert(self.flag_keys()[0] == self.properties@[0]@);
            }
        }
        if self.settings.len() > 0 {
            assert(self.values().contains_key(self.settings@[0].0@)) by {
                assert(self.value_keys()[0] == self.settings@[0].0@);
            }
        }
        let r = self.properties.len() == 0 && self.settings.len() == 0;
        if r {
            assert(self.flags() =~= Set::<KeyView>::empty());
            assert(self.values().dom() =~= Set::<KeyView>::empty());
        }
        r
    }

    /// The number of flags plus the number of values (saturated at `usize::MAX`).
    pub fn len(&self) -> (r: usize)
        ensures
            r as int == vstd::math::min(
                (self.flags().len() + self.values().len()) as int,
                usize::MAX as int,
            ),
    {
        proof {
            use_type_invariant(self);
            self.flag_keys().unique_seq_to_set();
            self.value_keys().unique_seq_to_set();
            assert(self.flags() =~= self.flag_keys().to_set());
            assert(self.values().dom() =~= self.value_keys().to_set());
        }
        self.properties.len().saturating_add(self.settings.len())
    }

    /// Every keyed value, each once, in no particular order.
    pub fn settings(&self) -> (r: Vec<(Key, Text<'a>)>)
        ensures
            forall|i: int| 0 <= i < r@.len() ==> {
                &&& #[trigger] self.values().contains_key(r@[i].0@)
                &&& r@[i].1@ == self.values()[r@[i].0@]
            },
            forall|k: KeyView| #[trigger] self.values().contains_key(k)
                ==> exists|i: int| 0 <= i < r@.len() && r@[i].0@ == k,
            distinct_keys(r@.map_values(|e: (Key, Text<'a>)| e.0@)),
            r@.map_values(|e: (Key, Text<'a>)| (e.0@, e.1@)) == self.value_entries(),
    {
        proof {
            use_type_invariant(self);
        }
        let mut r: Vec<(Key, Text<'a>)> = Vec::new();
        let mut i: usize = 0;
        while i < self.settings.len()
            invariant
                i <= self.settings@.len(),
                r@.len() == i,
                forall|j: int| 0 <= j < i ==> r@[j].0@ == self.settings@[j].0@ && r@[j].1@ == self.settings@[j].1@,
            decreases self.settings@.len() - i,
        {
            let entry = (self.settings[i].0.clone(), self.settings[i].1.clone());
            r.push(entry);
            i = i + 1;
        }
        proof {
            assert(r@.map_values(|e: (Key, Text<'a>)| e.0@) =~= self.value_keys());
            assert(r@.map_values(|e: (Key, Text<'a>)| (e.0@, e.1@)) =~= self.value_entries());
            assert forall|j: int| 0 <= j < r@.len() implies {
                &&& #[trigger] self.values().contains_key(r@[j].0@)
                &&& r@[j].1@ == self.values()[r@[j].0@]
            } by {
                assert(self.value_keys()[j] == r@[j].0@);
            }
            assert forall|k: KeyView| #[trigger] self.values().contains_key(k)
                implies exists|j: int| 0 <= j < r@.len() && r@[j].0@ == k by {
                assert(r@[self.value_keys().index_of(k)].0@ == k);
            }
        }
        r
    }

    /// Every flag, each once, in no particular order.
    pub fn properties(&self) -> (r: Vec<Key>)
        ensures
            forall|i: int| 0 <= i < r@.len() ==> #[trigger] self.flags().contains(r@[i]@),
            forall|k: KeyView| #[trigger] self.flags().contains(k)
                ==> exists|i: int| 0 <= i < r@.len() && r@[i]@ == k,
            distinct_keys(r@.map_values(|k: Key| k@)),
            r@.map_values(|k: Key| k@) == self.flag_entries(),
    {
        proof {
            use_type_invariant(self);
        }
        let mut r: Vec<Key> = Vec::new();
        let mut i: usize = 0;
        while i < self.properties.len()
            invariant
                i <= self.properties@.len(),
                r@.len() == i,
                forall|j: int| 0 <= j < i ==> r@[j]@ == self.properties@[j]@,
            decreases self.properties@.len() - i,
        {
            r.push(self.properties[i].clone());
            i = i + 1;
        }
        proof {
            assert(r@.map_values(|k: Key| k@) =~= self.flag_keys());
            assert forall|j: int| 0 <= j < r@.len() implies #[trigger] self.flags().contains(r@[j]@) by {
                assert(self.flag_keys()[j] == r@[j]@);
            }
            assert forall|k: KeyView| #[trigger] self.flags().contains(k)
                implies exists|j: int| 0 <= j < r@.len() && r@[j]@ == k by {
                assert(r@[self.flag_keys().index_of(k)]@ == k);
            }
        }
        r
    }

    /// Every value as `(key, Some(value))` and every flag as `(key, None)`, in no particular
    /// order.
    pub fn iter(&self) -> (r: Vec<(Key, Option<Text<'a>>)>)
        ensures
            forall|i: int| 0 <= i < r@.len() ==> match #[trigger] r@[i].1 {
                Some(t) => self.values().contains_key(r@[i].0@) && t@ == self.values()[r@[i].0@],
                None => self.flags().contains(r@[i].0@),
            },
            forall|k: KeyView| #[trigger] self.values().contains_key(k)
                ==> exists|i: int| 0 <= i < r@.len() && r@[i].0@ == k && r@[i].1 is Some,
            forall|k: KeyView| #[trigger] self.flags().contains(k)
                ==> exists|i: int| 0 <= i < r@.len() && r@[i].0@ == k && r@[i].1 is None,
            forall|i: int, j: int|
                0 <= i < r@.len() && 0 <= j < r@.len() && i != j && r@[i].0@ == r@[j].0@
                    ==> (r@[i].1 is Some) != (r@[j].1 is Some),
            r@.map_values(|e: (Key, Option<Text<'a>>)| (e.0@, option_view(e.1))) == self.entries(),
    {
        proof {
            use_type_invariant(self);
        }
        let mut r: Vec<(Key, Option<Text<'a>>)> = Vec::new();
        let n = self.settings.len();
        let mut i: usize = 0;
        while i < n
            invariant
                n == self.settings@.len(),
                i <= n,
                r@.len() == i,
                forall|j: int| 0 <= j < i ==> r@[j].0@ == self.settings@[j].0@ && #[trigger] r@[j].1 is Some
                    && r@[j].1->0@ == self.settings@[j].1@,
            decreases n - i,
        {
            r.push((self.settings[i].0.clone(), Some(self.settings[i].1.clone())));
            i = i + 1;
        }
        let m = self.properties.len();
        let mut i: usize = 0;
        while i < m
            invariant
                n == self.settings@.len(),
                m == self.properties@.len(),
                i <= m,
                r@.len() == n + i,
                forall|j: int| 0 <= j < n ==> r@[j].0@ == self.settings@[j].0@ && #[trigger] r@[j].1 is Some
                    && r@[j].1->0@ == self.settings@[j].1@,
                forall|j: int| n <= j < n + i ==> r@[j].0@ == self.properties@[j - n]@ && #[trigger] r@[j].1 is None,
            decreases m - i,
        {
            r.push((self.properties[i].clone(), None));
            i = i + 1;
        }
        proof {
            assert forall|i: int| 0 <= i < r@.len() implies match #[trigger] r@[i].1 {
                Some(t) => self.values().contains_key(r@[i].0@) && t@ == self.values()[r@[i].0@],
                None => self.flags().contains(r@[i].0@),
            } by {
                if i < n {
                    assert(self.value_keys()[i] == r@[i].0@);
                } else {
                    assert(self.flag_keys()[i - n] == r@[i].0@);
                }
            }
            assert forall|k: KeyView| #[trigger] self.values().contains_key(k)
                implies exists|i: int| 0 <= i < r@.len() && r@[i].0@ == k && r@[i].1 is Some by {
                let j = self.value_keys().index_of(k);
                assert(r@[j].0@ == k && r@[j].1 is Some);
            }
            assert forall|k: KeyView| #[trigger] self.flags().contains(k)
                implies exists|i: int| 0 <= i < r@.len() && r@[i].0@ == k && r@[i].1 is None by {
                let j = self.flag_keys().index_of(k);
                assert(r@[n + j].0@ == k && r@[n + j].1 is None);
            }
            assert forall|i: int, j: int|
                0 <= i < r@.len() && 0 <= j < r@.len() && i != j && r@[i].0@ == r@[j].0@
                    implies (r@[i].1 is Some) != (r@[j].1 is Some) by {
                if i < n && j < n {
                    assert(self.value_keys()[i] == r@[i].0@);
                    assert(self.value_keys()[j] == r@[j].0@);
                } else if i >= n && j >= n {
                    assert(self.flag_keys()[i - n] == r@[i].0@);
                    assert(self.flag_keys()[j - n] == r@[j].0@);
                }
            }
            assert(r@.map_values(|e: (Key, Option<Text<'a>>)| (e.0@, option_view(e.1))) =~= self.entries());
        }
        r
    }

    /// Whether every flag of `self` is a flag of `other`, and every value of `self` is the
    /// value of the same key in `other`.
    fn included_in(&self, other: &PropSet<'a>) -> (r: bool)
        ensures
            r == (self.flags().subset_of(other.flags()) && self.values().submap_of(other.values())),
    {
        proof {
            use_type_invariant(self);
        }
        let mut i: usize = 0;
        while i < self.properties.len()
            invariant
                i <= self.properties@.len(),
                forall|j: int| 0 <= j < i ==> other.flags().contains(#[trigger] self.properties@[j]@),
            decreases self.properties@.len() - i,
        {
            if !other.is_set(&self.properties[i]) {
                assert(self.flags().contains(self.properties@[i as int]@)) by {
                    assert(self.flag_keys()[i as int] == self.properties@[i as int]@);
                }
                return false;
            }
            i = i + 1;
        }
        assert forall|k: KeyView| #[trigger] self.flags().contains(k) implies other.flags().contains(k) by {
            assert(self.properties@[self.flag_keys().index_of(k)]@ == k);
        }
        let mut i: usize = 0;
        while i < self.settings.len()
            invariant
                i <= self.settings@.len(),
                forall|j: int| 0 <= j < i ==> {
                    &&& other.values().contains_key(#[trigger] self.settings@[j].0@)
                    &&& other.values()[self.settings@[j].0@] == self.settings@[j].1@
                },
            decreases self.settings@.len() - i,
        {
            let same = match other.lookup(&self.settings[i].0) {
                Some(t) => str_eq(t.as_str(), self.settings[i].1.as_str()),
                None => false,
            };
            if !same {
                proof {
                    use_type_invariant(self);
                }
                assert(self.value_keys()[i as int] == self.settings@[i as int].0@);
                assert(self.value_keys().contains(self.settings@[i as int].0@));
                assert(self.value_keys().index_of(self.settings@[i as int].0@) == i);
                let ghost k = self.settings@[i as int].0@;
                assert(self.values().contains_key(k) && self.values()[k] == self.settings@[i as int].1@);
                assert(!self.values().submap_of(other.values()));
                return false;
            }
            i = i + 1;
        }
        assert forall|k: KeyView| #[trigger] self.values().contains_key(k)
            implies other.values().contains_key(k) && self.values()[k] == other.values()[k] by {
            assert(self.settings@[self.value_keys().index_of(k)].0@ == k);
        }
        true
    }
}

impl<'a> PartialEq for PropSet<'a> {
    /// Property sets are equal when they hold the same flags and the same values, whatever the
    /// order in which they were given.
    fn eq(&self, other: &PropSet<'a>) -> (r: bool) {
        let r = self.included_in(other) && other.included_in(self);
        proof {
            if r {
                assert(self.flags() =~= other.flags());
                assert(self.values() =~= other.values());
            }
        }
        r
    }
}

impl<'a> vstd::std_specs::cmp::PartialEqSpecImpl for PropSet<'a> {
    open spec fn obeys_eq_spec() -> bool {
        true
    }

    open spec fn eq_spec(&self, other: &PropSet<'a>) -> bool {
        self.flags() == other.flags() && self.values() == other.values()
    }
}

impl<'a> Eq for PropSet<'a> {
}

impl<'a> Default for PropSet<'a> {
    fn default() -> (r: PropSet<'a>)
        ensures
            r.flags() == Set::<KeyView>::empty(),
            r.values() == Map::<KeyView, Seq<char>>::empty(),
            r.is_well_formed(),
    {
        PropSet::new()
    }
}

impl<'a> Clone for PropSet<'a> {
    fn clone(&self) -> (r: PropSet<'a>)
        ensures
            r.flags() == self.flags(),
            r.values() == self.values(),
            r.is_well_formed(),
    {
        proof {
            use_type_invariant(self);
        }
        let mut properties: Vec<Key> = Vec::new();
        let mut i: usize = 0;
        while i < self.properties.len()
            invariant
                i <= self.properties@.len(),
                properties@.len() == i,
                forall|j: int| 0 <= j < i ==> #[trigger] properties@[j]@ == self.properties@[j]@,
            decreases self.properties@.len() - i,
        {
            properties.push(self.properties[i].clone());
            i = i + 1;
        }
        assert(properties@.map_values(|k: Key| k@) =~= self.flag_keys());
        let mut settings: Vec<(Key, Text<'a>)> = Vec::new();
        let mut i: usize = 0;
        while i < self.settings.len()
            invariant
                i <= self.settings@.len(),
                settings@.len() == i,
                settings@.map_values(|e: (Key, Text<'a>)| e.0@) == self.value_keys().subrange(0, i as int),
                forall|j: int| 0 <= j < i ==> #[trigger] settings@[j].1@ == self.settings@[j].1@,
            decreases self.settings@.len() - i,
        {
            settings.push((self.settings[i].0.clone(), self.settings[i].1.clone()));
            i = i + 1;
            assert(settings@.map_values(|e: (Key, Text<'a>)| e.0@) =~= self.value_keys().subrange(0, i as int));
        }
        assert(self.value_keys().subrange(0, self.settings@.len() as int) =~= self.value_keys());
        let r = PropSet { properties, settings };
        assert(r.flags() =~= self.flags());
        assert(r.values() =~= self.values());
        r
    }
}

} // verus!

verus! {

/// Flags and values do not interact: setting the flag `key` and then giving `key` a value, or
/// the other way round, leaves both in place.
pub proof fn lemma_flag_value_independent<'a>(
    start: PropSet<'a>,
    flagged: PropSet<'a>,
    both: PropSet<'a>,
    key: KeyView,
    value: Seq<char>,
)
    requires
        flagged.flags() == start.flags().insert(key),
        flagged.values() == start.values(),
        both.values() == flagged.values().insert(key, value),
        both.flags() == flagged.flags(),
    ensures
        both.flags().contains(key),
        both.values().contains_key(key),
        both.values()[key] == value,
        both.flags().remove(key) == start.flags().remove(key),
        both.values().remove(key) == start.values().remove(key),
{
    assert(both.flags().remove(key) =~= start.flags().remove(key));
    assert(both.values().remove(key) =~= start.values().remove(key));
}

} // verus!

verus! {

/// The ordered entries of a property set describe it: its flags are the flag entries, its
/// values are the value entries, and neither list holds a key twice.
pub proof fn lemma_entries_describe<'a>(p: PropSet<'a>)
    requires
        p.is_well_formed(),
    ensures
        distinct_keys(p.flag_entries()),
        forall|k: KeyView| #[trigger] p.flags().contains(k) <==> p.flag_entries().contains(k),
        distinct_keys(p.value_entries().map_values(|e: (KeyView, Seq<char>)| e.0)),
        forall|k: KeyView| #[trigger] p.values().contains_key(k)
            <==> exists|i: int| 0 <= i < p.value_entries().len() && (#[trigger] p.value_entries()[i]).0 == k,
        forall|i: int| 0 <= i < p.value_entries().len()
            ==> p.values()[(#[trigger] p.value_entries()[i]).0] == p.value_entries()[i].1,
{
    let entries = p.value_entries();
    let keys = p.value_keys();
    assert(entries.map_values(|e: (KeyView, Seq<char>)| e.0) =~= keys);
    assert forall|k: KeyView| #[trigger] p.values().contains_key(k)
        implies exists|i: int| 0 <= i < entries.len() && (#[trigger] entries[i]).0 == k by {
        let i = keys.index_of(k);
        assert(entries[i].0 == k);
    }
    assert forall|k: KeyView| (exists|i: int| 0 <= i < entries.len() && (#[trigger] entries[i]).0 == k)
        implies #[trigger] p.values().contains_key(k) by {
        let i = choose|i: int| 0 <= i < entries.len() && (#[trigger] entries[i]).0 == k;
        assert(keys[i] == k);
    }
    assert forall|i: int| 0 <= i < entries.len() implies p.values()[(#[trigger] entries[i]).0] == entries[i].1 by {
        assert(keys[i] == entries[i].0);
        assert(keys.contains(entries[i].0));
        assert(keys.index_of(entries[i].0) == i);
    }
}

} // verus!
