use slop_rs::{Slop, SlopValue};

#[test]
fn render_string_kv_compact() {
    let mut slop = Slop::new();
    slop.insert("greeting".to_string(), SlopValue::String("hi".to_string())).unwrap();
    assert_eq!(slop.to_string(), "greeting=hi\n");
}

#[test]
fn render_list_kv_pretty() {
    let mut slop = Slop::new();
    let items = vec!["a".to_string(), "b".to_string()];
    slop.insert("items".to_string(), SlopValue::List(items)).unwrap();
    assert_eq!(slop.to_string_pretty(), "items{\n    a\n    b\n}\n");
}

#[test]
fn render_list_kv_compact() {
    let mut slop = Slop::new();
    let items = vec!["a".to_string(), "b".to_string()];
    slop.insert("items".to_string(), SlopValue::List(items)).unwrap();
    assert_eq!(slop.to_string(), "items{\na\nb\n}\n");
}

#[test]
fn render_empty_document() {
    let slop = Slop::new();
    assert_eq!(slop.to_string(), "");
    assert_eq!(slop.to_string_pretty(), "");
}

#[test]
fn value_renderings() {
    let s = SlopValue::String("some value".to_string());
    assert_eq!(s.to_string(), "=some value");
    assert_eq!(s.to_string_pretty(), "=some value");
    let l = SlopValue::List(vec!["a".to_string(), "b".to_string(), "c".to_string()]);
    assert_eq!(l.to_string(), "{\na\nb\nc\n}");
    assert_eq!(l.to_string_pretty(), "{\n    a\n    b\n    c\n}");
}

#[test]
fn round_trip_through_text() {
    let text = "a=1\nlist{\nitem one\nitem two\n}\nb=2\n";
    let slop = Slop::from_str(text).unwrap();
    let rendered = slop.to_string();
    let reparsed = Slop::from_str(&rendered).unwrap();
    assert_eq!(reparsed.get_string("a"), Some(&"1".to_string()));
    assert_eq!(reparsed.get_string("b"), Some(&"2".to_string()));
    let expected = vec!["item one".to_string(), "item two".to_string()];
    assert_eq!(reparsed.get_list("list"), Some(&expected));
    assert_eq!(reparsed.iter().len(), slop.iter().len());
}

#[test]
fn render_is_idempotent_across_a_parse() {
    let text = "x=1\nys{\nfirst\nsecond\n}\n";
    let once = Slop::from_str(text).unwrap().to_string();
    let twice = Slop::from_str(&once).unwrap().to_string();
    assert_eq!(once, twice);
}
