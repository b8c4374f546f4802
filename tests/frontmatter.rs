use pillar::frontmatter::{decode_frontmatter, encode_frontmatter, split_frontmatter, FormatError};
use pillar::models::{Priority, Status};
use serde_yaml::{Mapping, Value};

fn text_field<'a>(v: &'a Value, key: &str) -> Option<&'a str> {
    v.get(key).and_then(|x| x.as_str())
}

#[test]
fn test_parse_frontmatter_valid() {
    let content = r#"---
title: "Test Issue"
status: todo
priority: high
tags: [bug, urgent]
---

This is the issue description.
"#;

    let result = decode_frontmatter(content);
    assert!(result.is_ok());

    let (metadata, body) = result.unwrap();
    assert_eq!(text_field(&metadata, "title"), Some("Test Issue"));
    assert_eq!(
        Status::parse(text_field(&metadata, "status").unwrap()).unwrap(),
        Status::Todo
    );
    assert_eq!(
        Priority::parse(text_field(&metadata, "priority").unwrap()).unwrap(),
        Priority::High
    );
    let tags: Vec<&str> = metadata
        .get("tags")
        .and_then(|t| t.as_sequence())
        .unwrap()
        .iter()
        .filter_map(|t| t.as_str())
        .collect();
    assert_eq!(tags, vec!["bug", "urgent"]);
    assert_eq!(body, "This is the issue description.");
}

#[test]
fn test_parse_frontmatter_missing_delimiter() {
    let content = "No frontmatter here";
    let result = decode_frontmatter(content);
    assert!(result.is_err());
}

#[test]
fn test_parse_frontmatter_invalid_yaml() {
    let content = r#"---
invalid: yaml: structure:
---

Body
"#;
    let result = decode_frontmatter(content);
    assert!(result.is_err());
    assert!(matches!(result, Err(FormatError::HeaderDecode(_))));
}

fn issue_header() -> String {
    let mut m = Mapping::new();
    m.insert(Value::from("title"), Value::from("Roundtrip Test"));
    m.insert(Value::from("status"), Value::from("in-progress"));
    m.insert(Value::from("priority"), Value::from("high"));
    m.insert(Value::from("project"), Value::from("test-project"));
    m.insert(Value::from("milestone"), Value::from("v1.0"));
    m.insert(
        Value::from("tags"),
        Value::Sequence(vec![Value::from("test"), Value::from("roundtrip")]),
    );
    serde_yaml::to_string(&Value::Mapping(m)).unwrap()
}

#[test]
fn test_read_write_roundtrip() {
    let body = "This is a test issue.\n\nWith multiple lines.";
    let doc = encode_frontmatter(&issue_header(), body);
    let (header, description) = decode_frontmatter(&doc).unwrap();

    assert_eq!(text_field(&header, "title"), Some("Roundtrip Test"));
    assert_eq!(
        Status::parse(text_field(&header, "status").unwrap()).unwrap(),
        Status::InProgress
    );
    assert_eq!(
        Priority::parse(text_field(&header, "priority").unwrap()).unwrap(),
        Priority::High
    );
    assert_eq!(description, body);
}

#[test]
fn test_write_with_frontmatter() {
    let mut m = Mapping::new();
    m.insert(Value::from("title"), Value::from("Test"));
    m.insert(Value::from("status"), Value::from("todo"));
    m.insert(Value::from("priority"), Value::from("medium"));
    m.insert(Value::from("tags"), Value::Sequence(vec![]));
    let header = serde_yaml::to_string(&Value::Mapping(m)).unwrap();
    let content = encode_frontmatter(&header, "Test body");
    assert!(content.starts_with("---\n"));
    assert!(content.contains("title: Test"));
    assert!(content.contains("Test body"));
}

#[test]
fn encode_frontmatter_exact_layout() {
    assert_eq!(
        encode_frontmatter("a: 1\n", "  body text \n"),
        "---\na: 1\n---\n\nbody text"
    );
}

#[test]
fn malformed_frontmatter_fails_closed() {
    assert!(matches!(
        decode_frontmatter("no dashes at all"),
        Err(FormatError::MissingDelimiter)
    ));
    assert!(matches!(
        decode_frontmatter("---\nkey: 1\n"),
        Err(FormatError::UnterminatedHeader)
    ));
    assert!(matches!(
        split_frontmatter("   \n--"),
        Err(FormatError::MissingDelimiter)
    ));
}

#[test]
fn split_gives_header_block_and_body() {
    let (h, b) = split_frontmatter("\n  ---\nname: x\n---\n\n Body line \n\n").unwrap();
    assert_eq!(h, "\nname: x");
    assert_eq!(b, "Body line");
}

#[test]
fn text_round_trip() {
    let header = "title: Hello\nstatus: todo\n";
    let doc = encode_frontmatter(header, "Line one\n\nLine two");
    let (h, b) = split_frontmatter(&doc).unwrap();
    assert_eq!(h, "\ntitle: Hello\nstatus: todo");
    assert_eq!(b, "Line one\n\nLine two");
    let (v, _) = decode_frontmatter(&doc).unwrap();
    assert_eq!(text_field(&v, "title"), Some("Hello"));
}

#[test]
fn empty_body_round_trip() {
    let doc = encode_frontmatter("k: v\n", "   ");
    assert_eq!(doc, "---\nk: v\n---\n\n");
    let (_, b) = split_frontmatter(&doc).unwrap();
    assert_eq!(b, "");
}
