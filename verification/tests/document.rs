use slop_rs::{Slop, SlopError, SlopValue};

#[test]
fn insert_rejects_key_with_equals() {
    let mut slop = Slop::new();
    let err = slop.insert("bad=key".to_string(), SlopValue::String("v".to_string())).unwrap_err();
    match err {
        SlopError::InvalidKey(k) => assert_eq!(k, "bad=key"),
        other => panic!("expected InvalidKey, got {:?}", other),
    }
    assert!(slop.is_empty());
    assert!(slop.get("bad=key").is_none());
}

#[test]
fn insert_rejects_key_ending_in_brace() {
    let mut slop = Slop::new();
    let err = slop.insert("key{".to_string(), SlopValue::String("v".to_string())).unwrap_err();
    assert!(matches!(err, SlopError::InvalidKey(_)));
    assert!(slop.is_empty());
}

#[test]
fn insert_accepts_interior_brace() {
    let mut slop = Slop::new();
    slop.insert("a{b".to_string(), SlopValue::String("v".to_string())).unwrap();
    assert_eq!(slop.get_string("a{b"), Some(&"v".to_string()));
}

#[test]
fn insert_returns_previous_value() {
    let mut slop = Slop::new();
    let first = slop.insert("k".to_string(), SlopValue::String("one".to_string())).unwrap();
    assert_eq!(first, None);
    let second = slop.insert("k".to_string(), SlopValue::String("two".to_string())).unwrap();
    assert_eq!(second, Some(SlopValue::String("one".to_string())));
    assert_eq!(slop.get_string("k"), Some(&"two".to_string()));
    assert_eq!(slop.iter().len(), 1);
}

#[test]
fn insert_unchecked_skips_validation() {
    let mut slop = Slop::new();
    let prev = slop.insert_unchecked("key".to_string(), SlopValue::String("value".to_string()));
    assert_eq!(prev, None);
    assert_eq!(slop.get_string("key"), Some(&"value".to_string()));
}

#[test]
fn typed_access_is_variant_exact() {
    let slop = Slop::from_str("str-kv=value\nlist-kv{\nvalue 1\nvalue 2\n}\n").unwrap();
    assert_eq!(slop.get_string("str-kv"), Some(&"value".to_string()));
    assert_eq!(slop.get_string("list-kv"), None);
    let expected = vec!["value 1".to_string(), "value 2".to_string()];
    assert_eq!(slop.get_list("list-kv"), Some(&expected));
    assert_eq!(slop.get_list("str-kv"), None);
    assert_eq!(slop.get_string("missing"), None);
    assert_eq!(slop.get_list("missing"), None);
}

#[test]
fn contains_key_and_is_empty() {
    let mut slop = Slop::new();
    assert!(slop.is_empty());
    assert!(!slop.contains_key("a"));
    slop.insert("a".to_string(), SlopValue::String("1".to_string())).unwrap();
    assert!(!slop.is_empty());
    assert!(slop.contains_key("a"));
    assert!(!slop.contains_key("b"));
}

#[test]
fn value_accessors() {
    let s = SlopValue::String("text".to_string());
    assert!(s.is_string());
    assert!(!s.is_list());
    assert_eq!(s.string(), Some(&"text".to_string()));
    assert_eq!(s.list(), None);
    let l = SlopValue::List(vec!["x".to_string()]);
    assert!(l.is_list());
    assert!(!l.is_string());
    assert_eq!(l.string(), None);
    assert_eq!(l.list(), Some(&vec!["x".to_string()]));
}

#[test]
fn iteration_yields_all_entries() {
    let slop = Slop::from_str("a=1\nb=2\n").unwrap();
    let entries = slop.iter();
    assert_eq!(entries.len(), 2);
    assert!(entries.iter().any(|(k, v)| k == "a" && *v == SlopValue::String("1".to_string())));
    assert!(entries.iter().any(|(k, v)| k == "b" && *v == SlopValue::String("2".to_string())));
}

#[test]
fn iter_mut_lets_values_change() {
    let mut slop = Slop::from_str("a=1\nl{\nx\n}\n").unwrap();
    for (_, value) in slop.iter_mut().iter_mut() {
        match value {
            SlopValue::String(s) => s.push_str("!!!"),
            SlopValue::List(l) => l.push("y".to_string()),
        }
    }
    assert_eq!(slop.get_string("a"), Some(&"1!!!".to_string()));
    let expected = vec!["x".to_string(), "y".to_string()];
    assert_eq!(slop.get_list("l"), Some(&expected));
}

#[test]
fn values_convert_from_plain_data() {
    let s: SlopValue = "text".to_string().into();
    assert_eq!(s, SlopValue::String("text".to_string()));
    let l: SlopValue = vec!["a".to_string(), "b".to_string()].into();
    assert_eq!(l, SlopValue::List(vec!["a".to_string(), "b".to_string()]));
}

#[test]
fn into_entries_consumes_the_document() {
    let slop = Slop::from_str("a=1\n").unwrap();
    let entries = slop.into_entries();
    assert_eq!(entries.len(), 1);
    assert_eq!(entries[0].0, "a");
    assert_eq!(entries[0].1, SlopValue::String("1".to_string()));
}
