use prosidy::{Key, KeySet, PropSet, Text};

#[test]
fn interned_keys_are_equal() {
    let a = String::from("foo");
    let b = String::from("foo");
    assert_eq!(Key::new(&a), Key::new(&b));
    assert_ne!(Key::new("foo"), Key::new("bar"));
}

#[test]
fn uninterned_key_differs_from_interned() {
    let interned = Key::new("foo");
    let mut keys = KeySet::new();
    let loose = Key::uninterned("foo", &mut keys);
    assert_ne!(interned, loose);
    assert!(interned.is_interned());
    assert!(!loose.is_interned());
    assert_eq!(loose.as_str(), "foo");
    assert_eq!(loose.clone(), loose);
}

#[test]
fn text_equality_ignores_storage() {
    let borrowed = Text::new("foo");
    let owned = Text::new("foo").into_owned();
    assert!(borrowed.borrowed());
    assert!(owned.owned());
    assert_eq!(borrowed, owned);
    assert_eq!(Text::from_string(String::from("foo")), borrowed);
    assert_ne!(Text::new("foo"), Text::new("bar"));
}

#[test]
fn text_default_is_empty_and_borrowed() {
    let t = Text::default();
    assert_eq!(t.as_str(), "");
    assert!(t.borrowed());
}

#[test]
fn text_concat_single_fragment_is_unchanged() {
    let one = Text::concat(vec![Text::new("solo")]);
    assert!(one.borrowed());
    assert_eq!(one.as_str(), "solo");
    let many = Text::concat(vec![Text::new("a"), Text::new("b"), Text::from_string(String::from("c"))]);
    assert!(many.owned());
    assert_eq!(many.as_str(), "abc");
    let none = Text::concat(vec![]);
    assert_eq!(none.as_str(), "");
    assert!(none.borrowed());
}

#[test]
fn propset_flag_and_value_are_independent() {
    let mut props = PropSet::new();
    let x = Key::new("x");
    props.set(x.clone());
    assert_eq!(props.put(x.clone(), Text::new("1")), None);
    assert!(props.is_set(&x));
    assert_eq!(props.lookup(&x), Some(Text::new("1")));
    assert_eq!(props.len(), 2);
    assert!(props.unset(&x));
    assert_eq!(props.lookup(&x), Some(Text::new("1")));
    assert!(!props.is_set(&x));
    props.set(x.clone());
    assert_eq!(props.delete(&x), Some(Text::new("1")));
    assert!(props.is_set(&x));
    assert_eq!(props.lookup(&x), None);
}

#[test]
fn propset_put_returns_previous() {
    let mut props = PropSet::new();
    let key = Key::new("foo");
    assert_eq!(props.put(key.clone(), Text::new("hello")), None);
    assert_eq!(props.put(key.clone(), Text::new("world")), Some(Text::new("hello")));
    assert_eq!(props.lookup(&key), Some(Text::new("world")));
    assert_eq!(props.len(), 1);
}

#[test]
fn propset_delete_and_unset() {
    let mut props = PropSet::with_capacity(4);
    let key = Key::new("foo");
    assert_eq!(props.delete(&key), None);
    props.put(key.clone(), Text::new("hello"));
    assert_eq!(props.delete(&key), Some(Text::new("hello")));
    assert_eq!(props.delete(&key), None);
    assert!(!props.unset(&key));
    props.set(key.clone());
    assert!(props.unset(&key));
    assert!(props.is_empty());
}

#[test]
fn propset_uninterned_key_is_another_entry() {
    let mut props = PropSet::new();
    props.put(Key::new("foo"), Text::new("a"));
    let mut keys = KeySet::new();
    let loose = Key::uninterned("foo", &mut keys);
    props.set(Key::new("foo"));
    assert_eq!(props.lookup(&loose), None);
    assert!(!props.is_set(&loose));
    props.set(loose.clone());
    assert!(props.is_set(&loose));
    assert!(props.unset(&Key::new("foo")));
    assert!(props.is_set(&loose));
}

#[test]
fn propset_iteration_yields_each_entry_once() {
    let mut props = PropSet::new();
    let foo = Key::new("foo");
    let bar = Key::new("bar");
    let baz = Key::new("baz");
    props.set(foo.clone());
    props.put(bar.clone(), Text::new("bar-value"));
    props.put(baz.clone(), Text::new("baz-value"));
    let all = props.iter();
    assert_eq!(all.len(), 3);
    for (k, v) in all {
        if k == foo {
            assert_eq!(v, None);
        } else if k == bar {
            assert_eq!(v, Some(Text::new("bar-value")));
        } else {
            assert_eq!(k, baz);
            assert_eq!(v, Some(Text::new("baz-value")));
        }
    }
    let settings = props.settings();
    assert_eq!(settings.len(), 2);
    for (k, v) in settings {
        assert!(v.as_str().starts_with(k.as_str()));
        assert!(v.as_str().ends_with("-value"));
    }
    assert_eq!(props.properties(), vec![foo]);
}

#[test]
fn propset_equality_ignores_order() {
    let mut a = PropSet::new();
    a.put(Key::new("x"), Text::new("1"));
    a.put(Key::new("y"), Text::new("2"));
    a.set(Key::new("f"));
    let mut b = PropSet::new();
    b.set(Key::new("f"));
    b.put(Key::new("y"), Text::new("2"));
    b.put(Key::new("x"), Text::from_string(String::from("1")));
    assert_eq!(a, b);
    assert_eq!(a.clone(), b);
    b.put(Key::new("x"), Text::new("3"));
    assert_ne!(a, b);
    assert_eq!(PropSet::default(), PropSet::new());
}

#[test]
fn uninterned_keys_are_distinct_handles() {
    let mut keys = KeySet::new();
    let a = Key::uninterned("foo", &mut keys);
    let b = Key::uninterned("foo", &mut keys);
    assert_ne!(a, b);
    assert_eq!(a, a.clone());
    assert_eq!(a.as_str(), b.as_str());
    assert_ne!(a, Key::new("foo"));
}
