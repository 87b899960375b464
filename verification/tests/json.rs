use kafkamitter::model::json::{looks_like_json, tokenize, try_pretty, JsonToken};

#[test]
fn pretty_prints_an_object_and_keeps_key_order() {
    let out = try_pretty(br#"{"zeta":1,"alpha":{"b":[1,2],"a":null}}"#).unwrap();
    assert_eq!(
        out,
        "{\n  \"zeta\": 1,\n  \"alpha\": {\n    \"b\": [\n      1,\n      2\n    ],\n    \"a\": null\n  }\n}"
    );
}

#[test]
fn pretty_prints_an_array_with_leading_whitespace() {
    let out = try_pretty(b"  \n\t[1, \"x\"]").unwrap();
    assert_eq!(out, "[\n  1,\n  \"x\"\n]");
}

#[test]
fn rejects_a_bare_scalar() {
    assert_eq!(try_pretty(b"42"), None);
    assert_eq!(try_pretty(b"\"text\""), None);
    assert_eq!(try_pretty(b"true"), None);
}

#[test]
fn rejects_invalid_json_and_non_utf8() {
    assert_eq!(try_pretty(b"{\"a\": }"), None);
    assert_eq!(try_pretty(b"{\"a\": \"\xff\xfe\"}"), None);
    assert_eq!(try_pretty(b""), None);
}

#[test]
fn tokenizes_keys_values_and_literals() {
    let text = r#"{"a": 1, "b": [true, null, "x\"y"], "c": -2.5e3}"#;
    let tokens = tokenize(text);
    let kinds: Vec<(&str, JsonToken)> = tokens.iter().map(|(r, k)| (&text[r.clone()], *k)).collect();
    assert_eq!(
        kinds,
        vec![
            ("{", JsonToken::Punctuation),
            ("\"a\"", JsonToken::Key),
            (":", JsonToken::Punctuation),
            ("1", JsonToken::Number),
            (",", JsonToken::Punctuation),
            ("\"b\"", JsonToken::Key),
            (":", JsonToken::Punctuation),
            ("[", JsonToken::Punctuation),
            ("true", JsonToken::Boolean),
            (",", JsonToken::Punctuation),
            ("null", JsonToken::Null),
            (",", JsonToken::Punctuation),
            ("\"x\\\"y\"", JsonToken::Str),
            ("]", JsonToken::Punctuation),
            (",", JsonToken::Punctuation),
            ("\"c\"", JsonToken::Key),
            (":", JsonToken::Punctuation),
            ("-2.5e3", JsonToken::Number),
            ("}", JsonToken::Punctuation),
        ]
    );
}

#[test]
fn tokenizer_survives_unterminated_input() {
    assert_eq!(tokenize("\"abc").len(), 1);
    assert_eq!(tokenize("tru"), vec![]);
    assert_eq!(tokenize("").len(), 0);
}

#[test]
fn handles_a_one_megabyte_document() {
    let mut doc = String::from("[");
    for i in 0..60_000 {
        if i > 0 {
            doc.push(',');
        }
        doc.push_str(&format!("{{\"i\":{i},\"s\":\"abcdef\"}}"));
    }
    doc.push(']');
    assert!(doc.len() > 1_000_000);
    let out = try_pretty(doc.as_bytes()).unwrap();
    assert!(out.starts_with("[\n  {\n    \"i\": 0,"));
}

#[test]
fn tokens_can_be_cut_out_of_any_text() {
    for text in ["{\"é\\é\": \"ü\\", "né 12é true\u{2028}\"x", "\"\\", "-", "nulltrue null,"] {
        let mut end = 0;
        for (range, _) in tokenize(text) {
            assert!(range.start < range.end && end <= range.start);
            assert!(text.get(range.clone()).is_some());
            end = range.end;
        }
        assert!(end <= text.len());
    }
}

#[test]
fn json_is_known_by_its_first_byte() {
    assert!(looks_like_json(b" \t\r\n\x0c{"));
    assert!(looks_like_json(b"[1"));
    assert!(!looks_like_json(b"\x0b{"));
    assert!(!looks_like_json(b"   "));
}
