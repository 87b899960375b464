use kafkamitter::model::json::JsonToken;
use kafkamitter::ui::json_highlight::{highlights, style_name, JsonHighlighter};

#[test]
fn tokens_have_styles() {
    assert_eq!(style_name(JsonToken::Key), Some("property"));
    assert_eq!(style_name(JsonToken::Str), Some("string"));
    assert_eq!(style_name(JsonToken::Number), Some("number"));
    assert_eq!(style_name(JsonToken::Boolean), Some("boolean"));
    assert_eq!(style_name(JsonToken::Null), Some("constant"));
    assert_eq!(style_name(JsonToken::Punctuation), None);
}

#[test]
fn styles_cover_the_whole_range() {
    let text = "{\"a\": 1, \"b\": null}";
    let mut highlighter = JsonHighlighter::new();
    highlighter.update(text);
    let styled = highlighter.styles(&(0..text.len()));
    assert_eq!(styled[0], (0..1, None));
    assert_eq!(styled[1], (1..4, Some("property")));
    let mut at = 0;
    for (range, _) in &styled {
        assert_eq!(range.start, at);
        assert!(range.end > range.start);
        at = range.end;
    }
    assert_eq!(at, text.len());
}

#[test]
fn runs_are_cut_to_the_range() {
    let mut highlighter = JsonHighlighter::new();
    highlighter.update("[\"abcdef\"]");
    assert_eq!(highlighter.styles(&(3..5)), vec![(3..5, Some("string"))]);
    assert_eq!(highlighter.styles(&(0..3)), vec![(0..1, None), (1..3, Some("string"))]);
    assert_eq!(highlighter.styles(&(9..10)), vec![(9..10, None)]);
}

#[test]
fn only_json_is_highlighted() {
    assert!(highlights("json"));
    assert!(highlights("JSON"));
    assert!(!highlights("text"));
}
