use jm_core::adf::{adf_to_text, text_to_adf, text_to_adf_inline};
use jm_core::json::Json;
use serde_json::Value;

fn to_json(v: &Value) -> Json {
    match v {
        Value::Null => Json::Null,
        Value::Bool(b) => Json::Bool(*b),
        Value::Number(n) => Json::Number(n.as_u64(), n.to_string()),
        Value::String(s) => Json::Str(s.clone()),
        Value::Array(a) => Json::Array(a.iter().map(to_json).collect()),
        Value::Object(m) => Json::Object(m.iter().map(|(k, v)| (k.clone(), to_json(v))).collect()),
    }
}

fn from_json(j: &Json) -> Value {
    match j {
        Json::Null => Value::Null,
        Json::Bool(b) => Value::Bool(*b),
        Json::Number(_, t) => serde_json::from_str(t).unwrap(),
        Json::Str(s) => Value::String(s.clone()),
        Json::Array(a) => Value::Array(a.iter().map(from_json).collect()),
        Json::Object(fs) => {
            let mut m = serde_json::Map::new();
            for (k, v) in fs {
                m.insert(k.clone(), from_json(v));
            }
            Value::Object(m)
        }
    }
}

fn text_of(src: &str) -> String {
    let v: Value = serde_json::from_str(src).unwrap();
    adf_to_text(&to_json(&v))
}

#[test]
fn simple_paragraph() {
    let adf = r#"{"version": 1, "type": "doc", "content": [{"type": "paragraph", "content": [{ "type": "text", "text": "Hello world" }]}]}"#;
    assert_eq!(text_of(adf), "Hello world");
}

#[test]
fn multiple_paragraphs() {
    let adf = r#"{"version": 1, "type": "doc", "content": [
        { "type": "paragraph", "content": [{ "type": "text", "text": "First" }] },
        { "type": "paragraph", "content": [{ "type": "text", "text": "Second" }] }]}"#;
    assert_eq!(text_of(adf), "First\n\nSecond");
}

#[test]
fn heading() {
    let adf = r#"{"type": "heading", "attrs": { "level": 2 }, "content": [{ "type": "text", "text": "My Heading" }]}"#;
    assert_eq!(text_of(adf), "## My Heading");
}

#[test]
fn bullet_list() {
    let adf = r#"{"type": "bulletList", "content": [
        { "type": "listItem", "content": [{ "type": "paragraph", "content": [{ "type": "text", "text": "Item one" }] }]},
        { "type": "listItem", "content": [{ "type": "paragraph", "content": [{ "type": "text", "text": "Item two" }] }]}]}"#;
    assert_eq!(text_of(adf), "- Item one\n- Item two");
}

#[test]
fn ordered_list() {
    let adf = r#"{"type": "orderedList", "content": [
        { "type": "listItem", "content": [{ "type": "paragraph", "content": [{ "type": "text", "text": "First" }] }]},
        { "type": "listItem", "content": [{ "type": "paragraph", "content": [{ "type": "text", "text": "Second" }] }]}]}"#;
    assert_eq!(text_of(adf), "1. First\n2. Second");
}

#[test]
fn code_block() {
    let adf = r#"{"type": "codeBlock", "attrs": { "language": "rust" }, "content": [{ "type": "text", "text": "fn main() {}" }]}"#;
    assert_eq!(text_of(adf), "    fn main() {}");
}

#[test]
fn link_text() {
    let adf = r#"{"type": "text", "text": "click here", "marks": [{ "type": "link", "attrs": { "href": "https://example.com" } }]}"#;
    assert_eq!(text_of(adf), "click here (https://example.com)");
}

#[test]
fn hard_break() {
    assert_eq!(text_of(r#"{ "type": "hardBreak" }"#), "\n");
}

#[test]
fn mention() {
    let adf = r#"{"type": "mention", "attrs": { "text": "@Matt Johnson", "id": "12345" }}"#;
    assert_eq!(text_of(adf), "@Matt Johnson");
}

#[test]
fn emoji() {
    let adf = r#"{"type": "emoji", "attrs": { "shortName": ":thumbsup:", "id": "123" }}"#;
    assert_eq!(text_of(adf), ":thumbsup:");
}

#[test]
fn rule() {
    assert_eq!(text_of(r#"{ "type": "rule" }"#), "---");
}

#[test]
fn inline_card() {
    let adf = r#"{"type": "inlineCard", "attrs": { "url": "https://jira.example.com/browse/HMI-103" }}"#;
    assert_eq!(text_of(adf), "https://jira.example.com/browse/HMI-103");
}

#[test]
fn blockquote() {
    let adf = r#"{"type": "blockquote", "content": [{"type": "paragraph", "content": [{ "type": "text", "text": "Quoted text" }]}]}"#;
    assert_eq!(text_of(adf), "> Quoted text");
}

#[test]
fn null_node_returns_empty() {
    assert_eq!(text_of("null"), "");
}

#[test]
fn empty_doc() {
    assert_eq!(text_of(r#"{ "version": 1, "type": "doc", "content": [] }"#), "");
}

#[test]
fn unknown_node_type_recurses() {
    let adf = r#"{"type": "panel", "content": [{"type": "paragraph", "content": [{ "type": "text", "text": "inside panel" }]}]}"#;
    assert_eq!(text_of(adf), "inside panel");
}

#[test]
fn table_mention_fallback_and_quote_lines() {
    let adf = r#"{"type": "doc", "content": [
        {"type": "table", "content": [
            {"type": "tableRow", "content": [
                {"type": "tableCell", "content": [{"type": "paragraph", "content": [{"type": "text", "text": "a"}]}]},
                {"type": "tableCell", "content": [{"type": "paragraph", "content": [{"type": "text", "text": "b"}]}]}]},
            {"type": "tableRow", "content": [
                {"type": "tableCell", "content": [{"type": "paragraph", "content": [{"type": "text", "text": "c"}]}]}]}]},
        {"type": "mention"},
        {"type": "blockquote", "content": [
            {"type": "paragraph", "content": [{"type": "text", "text": "x"}, {"type": "hardBreak"}, {"type": "text", "text": "y"}]},
            {"type": "paragraph", "content": [{"type": "text", "text": "z"}]}]},
        {"type": "paragraph", "content": []}]}"#;
    assert_eq!(text_of(adf), "a b\nc\n\n@unknown\n\n> x\n> y\n> z");
}

#[test]
fn text_to_adf_single_paragraph() {
    let result = from_json(&text_to_adf("Hello world"));
    assert_eq!(result["version"], 1);
    assert_eq!(result["type"], "doc");
    let content = result["content"].as_array().unwrap();
    assert_eq!(content.len(), 1);
    assert_eq!(content[0]["type"], "paragraph");
    assert_eq!(content[0]["content"][0]["text"], "Hello world");
}

#[test]
fn text_to_adf_multiple_paragraphs() {
    let result = from_json(&text_to_adf("First paragraph\n\nSecond paragraph"));
    let content = result["content"].as_array().unwrap();
    assert_eq!(content.len(), 2);
    assert_eq!(content[0]["content"][0]["text"], "First paragraph");
    assert_eq!(content[1]["content"][0]["text"], "Second paragraph");
}

#[test]
fn text_to_adf_empty_string() {
    let result = from_json(&text_to_adf(""));
    let content = result["content"].as_array().unwrap();
    assert_eq!(content.len(), 1);
}

#[test]
fn text_to_adf_trims_paragraphs() {
    let result = from_json(&text_to_adf("  trimmed  \n\n  also trimmed  "));
    let content = result["content"].as_array().unwrap();
    assert_eq!(content[0]["content"][0]["text"], "trimmed");
    assert_eq!(content[1]["content"][0]["text"], "also trimmed");
}

#[test]
fn text_to_adf_inline_wraps_single_paragraph() {
    let result = from_json(&text_to_adf_inline("Single line"));
    assert_eq!(result["version"], 1);
    assert_eq!(result["type"], "doc");
    let content = result["content"].as_array().unwrap();
    assert_eq!(content.len(), 1);
    assert_eq!(content[0]["content"][0]["text"], "Single line");
}

#[test]
fn text_to_adf_inline_preserves_newlines() {
    let result = from_json(&text_to_adf_inline("Line 1\nLine 2\n\nLine 3"));
    let content = result["content"].as_array().unwrap();
    assert_eq!(content.len(), 1);
    assert_eq!(content[0]["content"][0]["text"], "Line 1\nLine 2\n\nLine 3");
}

#[test]
fn text_to_adf_round_trips_through_adf_to_text() {
    let doc = text_to_adf("one\n\n\n two \n\n\n\nthree");
    assert_eq!(adf_to_text(&doc), "one\n\ntwo\n\nthree");
    let pieces = from_json(&doc);
    assert_eq!(pieces["content"].as_array().unwrap().len(), 3);
}
