use slop_rs::{Slop, SlopError, SlopValue};

#[test]
fn two_string_kvs() {
    let slop = Slop::from_str("a=1\nb=2\n").unwrap();
    assert_eq!(slop.get_string("a"), Some(&"1".to_string()));
    assert_eq!(slop.get_string("b"), Some(&"2".to_string()));
    assert!(slop.get("c").is_none());
}

#[test]
fn list_items_keep_indentation() {
    let slop = Slop::from_str("list{\n  x\n  y\n}\n").unwrap();
    let expected = vec!["  x".to_string(), "  y".to_string()];
    assert_eq!(slop.get_list("list"), Some(&expected));
}

#[test]
fn unclosed_list_fails() {
    let err = Slop::from_str("key{\nitem\n").unwrap_err();
    match err {
        SlopError::UnclosedList(line, text) => {
            assert_eq!(line, 0);
            assert_eq!(text, "key{");
        },
        other => panic!("expected UnclosedList, got {:?}", other),
    }
}

#[test]
fn invalid_line_fails() {
    let err = Slop::from_str("not a kv line\n").unwrap_err();
    match err {
        SlopError::InvalidLine(line, text) => {
            assert_eq!(line, 0);
            assert_eq!(text, "not a kv line");
        },
        other => panic!("expected InvalidLine, got {:?}", other),
    }
}

#[test]
fn unclosed_list_keeps_raw_opener_text() {
    let err = Slop::from_str("  key{\nitem\n").unwrap_err();
    match err {
        SlopError::UnclosedList(line, text) => {
            assert_eq!(line, 0);
            assert_eq!(text, "  key{");
        },
        other => panic!("expected UnclosedList, got {:?}", other),
    }
}

#[test]
fn invalid_line_carries_cleaned_text() {
    let err = Slop::from_str("   bad line\r\n").unwrap_err();
    match err {
        SlopError::InvalidLine(line, text) => {
            assert_eq!(line, 0);
            assert_eq!(text, "bad line");
        },
        other => panic!("expected InvalidLine, got {:?}", other),
    }
}

#[test]
fn unicode_whitespace_is_stripped_before_keys() {
    let slop = Slop::from_str("\u{a0}\u{2003}a=1\n").unwrap();
    assert_eq!(slop.get_string("a"), Some(&"1".to_string()));
}

#[test]
fn hash_inside_a_value_is_kept() {
    let slop = Slop::from_str("k=#not a comment\n").unwrap();
    assert_eq!(slop.get_string("k"), Some(&"#not a comment".to_string()));
}

#[test]
fn comments_and_blanks_are_skipped() {
    let slop = Slop::from_str("# heading\n\n   \na=1\n  # indented comment\n").unwrap();
    assert_eq!(slop.get_string("a"), Some(&"1".to_string()));
    assert_eq!(slop.iter().len(), 1);
}

#[test]
fn crlf_lines_are_tolerated() {
    let slop = Slop::from_str("a=1\r\nlist{\r\nitem\r\n}\r\n").unwrap();
    assert_eq!(slop.get_string("a"), Some(&"1".to_string()));
    let expected = vec!["item".to_string()];
    assert_eq!(slop.get_list("list"), Some(&expected));
}

#[test]
fn leading_whitespace_before_keys_is_ignored() {
    let slop = Slop::from_str("   a=1\n\tlist{\nx\n   }\n").unwrap();
    assert_eq!(slop.get_string("a"), Some(&"1".to_string()));
    let expected = vec!["x".to_string()];
    assert_eq!(slop.get_list("list"), Some(&expected));
}

#[test]
fn value_keeps_text_after_first_equals() {
    let slop = Slop::from_str("a=b=c\n").unwrap();
    assert_eq!(slop.get_string("a"), Some(&"b=c".to_string()));
}

#[test]
fn split_happens_before_key_validation() {
    // A line like `a{b=c` parses as key `a{b`, value `c`: the key is fine.
    let slop = Slop::from_str("a{b=c\n").unwrap();
    assert_eq!(slop.get_string("a{b"), Some(&"c".to_string()));
    // But `a{=c` would make the key `a{`, which ends in `{`.
    let err = Slop::from_str("a{=c\n").unwrap_err();
    match err {
        SlopError::InvalidKey(k) => assert_eq!(k, "a{"),
        other => panic!("expected InvalidKey, got {:?}", other),
    }
}

#[test]
fn parse_failure_keeps_earlier_entries() {
    let mut slop = Slop::new();
    let err = slop.append_slop_string("a=1\nbroken line\nb=2\n").unwrap_err();
    assert!(matches!(err, SlopError::InvalidLine(1, _)));
    assert_eq!(slop.get_string("a"), Some(&"1".to_string()));
    assert!(slop.get("b").is_none());
}

#[test]
fn append_extends_an_existing_document() {
    let mut slop = Slop::from_str("a=1\n").unwrap();
    slop.append_slop_string("b=2\n").unwrap();
    assert_eq!(slop.get_string("a"), Some(&"1".to_string()));
    assert_eq!(slop.get_string("b"), Some(&"2".to_string()));
}

#[test]
fn empty_input_gives_empty_document() {
    let slop = Slop::from_str("").unwrap();
    assert!(slop.is_empty());
}

#[test]
fn empty_list_parses() {
    let slop = Slop::from_str("k{\n}\n").unwrap();
    let expected: Vec<String> = vec![];
    assert_eq!(slop.get_list("k"), Some(&expected));
}

#[test]
fn multibyte_keys_and_values_work() {
    let slop = Slop::from_str("caf\u{e9}=\u{2615} cup\nl\u{f8}st{\n\u{3b1}\n\u{3b2}\n}\n").unwrap();
    assert_eq!(slop.get_string("caf\u{e9}"), Some(&"\u{2615} cup".to_string()));
    let expected = vec!["\u{3b1}".to_string(), "\u{3b2}".to_string()];
    assert_eq!(slop.get_list("l\u{f8}st"), Some(&expected));
    let rendered = slop.to_string();
    let reparsed = Slop::from_str(&rendered).unwrap();
    assert_eq!(reparsed.get_string("caf\u{e9}"), Some(&"\u{2615} cup".to_string()));
    assert_eq!(reparsed.get_list("l\u{f8}st"), Some(&expected));
}

#[test]
fn empty_key_and_empty_value_parse() {
    let slop = Slop::from_str("=v\nk=\n").unwrap();
    assert_eq!(slop.get_string(""), Some(&"v".to_string()));
    assert_eq!(slop.get_string("k"), Some(&"".to_string()));
}
