use pillar::comments::{append_comment, read_comments, split_for_comments, write_comments, Comment};

fn comment(id: &str, author: &str, timestamp: &str, content: &str) -> Comment {
    Comment {
        id: id.to_string(),
        author: author.to_string(),
        timestamp: timestamp.to_string(),
        content: content.to_string(),
    }
}

fn triples(cs: &[Comment]) -> Vec<(String, String, String)> {
    cs.iter()
        .map(|c| (c.author.clone(), c.timestamp.clone(), c.content.clone()))
        .collect()
}

const TWO: &str = "# T\n\n## Comments\n\n### [2025-01-01T00:00:00Z] - Alice\nHello\n\n### [2025-01-02T00:00:00Z] - Bob\nHi\nthere\n";

#[test]
fn test_read_comments_empty() {
    let body = "# Issue Description\n\nSome content here.";
    let comments = read_comments(body);
    assert_eq!(comments.len(), 0);
}

#[test]
fn test_read_comments_single() {
    let body = r#"# Issue Description

Some content here.

## Comments

### [2025-12-29T10:30:00Z] - Alice
This is a comment
"#;
    let comments = read_comments(body);
    assert_eq!(comments.len(), 1);
    assert_eq!(comments[0].author, "Alice");
    assert_eq!(comments[0].timestamp, "2025-12-29T10:30:00Z");
    assert_eq!(comments[0].content, "This is a comment");
}

#[test]
fn test_read_comments_multiple() {
    let body = r#"# Issue Description

## Comments

### [2025-12-29T10:30:00Z] - Alice
First comment

### [2025-12-29T14:15:00Z] - Bob
Second comment
with multiple lines

### [2025-12-29T16:45:00Z] - Charlie
Third comment
"#;
    let comments = read_comments(body);
    assert_eq!(comments.len(), 3);
    assert_eq!(comments[0].author, "Alice");
    assert_eq!(comments[1].author, "Bob");
    assert_eq!(comments[1].content, "Second comment\nwith multiple lines");
    assert_eq!(comments[2].author, "Charlie");
}

#[test]
fn test_write_comments_empty() {
    let body = "# Issue Description\n\nSome content.";
    let result = write_comments(body, &[]);
    assert_eq!(result, "# Issue Description\n\nSome content.");
}

#[test]
fn test_write_comments_adds_section() {
    let body = "# Issue Description\n\nSome content.";
    let comments = vec![comment("1", "Alice", "2025-12-29T10:30:00Z", "Test comment")];
    let result = write_comments(body, &comments);
    assert!(result.contains("## Comments"));
    assert!(result.contains("### [2025-12-29T10:30:00Z] - Alice"));
    assert!(result.contains("Test comment"));
}

#[test]
fn test_write_comments_replaces_existing() {
    let body = r#"# Issue Description

## Comments

### [2025-12-29T10:00:00Z] - OldUser
Old comment
"#;
    let comments = vec![comment("2", "NewUser", "2025-12-29T11:00:00Z", "New comment")];
    let result = write_comments(body, &comments);
    assert!(!result.contains("OldUser"));
    assert!(result.contains("NewUser"));
    assert!(result.contains("New comment"));
}

#[test]
fn write_comments_exact_layout() {
    let comments = vec![
        comment("1", "Alice", "t1", "One"),
        comment("2", "Bob", "t2", "Two\nlines"),
    ];
    assert_eq!(
        write_comments("Body  \n", &comments),
        "Body\n\n## Comments\n\n### [t1] - Alice\nOne\n\n### [t2] - Bob\nTwo\nlines\n"
    );
}

#[test]
fn missing_section_yields_empty_list() {
    assert!(read_comments("no comments here").is_empty());
    assert!(read_comments("").is_empty());
}

#[test]
fn two_comment_scenario() {
    let got = read_comments(TWO);
    assert_eq!(
        triples(&got),
        vec![
            (
                "Alice".to_string(),
                "2025-01-01T00:00:00Z".to_string(),
                "Hello".to_string()
            ),
            (
                "Bob".to_string(),
                "2025-01-02T00:00:00Z".to_string(),
                "Hi\nthere".to_string()
            ),
        ]
    );
}

#[test]
fn appending_a_third_comment() {
    let mut cs = read_comments(TWO);
    cs.push(comment("x", "Carol", "t3", "New"));
    let body = write_comments(TWO, &cs);
    let again = read_comments(&body);
    assert_eq!(again.len(), 3);
    assert_eq!(triples(&again[..2]), triples(&read_comments(TWO)));
    assert_eq!(again[2].author, "Carol");
    assert_eq!(again[2].timestamp, "t3");
    assert_eq!(again[2].content, "New");
    assert!(body.starts_with("# T\n\n## Comments\n\n### [2025-01-01T00:00:00Z] - Alice\nHello\n\n### [2025-01-02T00:00:00Z] - Bob\nHi\nthere\n"));
}

#[test]
fn append_comment_to_a_document() {
    let doc = format!("---\ntitle: T\n---\n\n{}", TWO);
    let out = append_comment(&doc, comment("x", "Carol", "t3", "New")).unwrap();
    assert!(out.starts_with("---\ntitle: T\n---\n\n# T\n\n## Comments\n"));
    assert!(out.ends_with("### [t3] - Carol\nNew\n"));
    let body = &out["---\ntitle: T\n---\n\n".len()..];
    let cs = read_comments(body);
    assert_eq!(cs.len(), 3);
    assert_eq!(cs[2].author, "Carol");
}

#[test]
fn append_comment_needs_a_closing_delimiter() {
    assert!(append_comment("---\ntitle: T\n", comment("x", "A", "t", "c")).is_none());
    assert!(append_comment("", comment("x", "A", "t", "c")).is_none());
}

#[test]
fn round_trip_of_comment_lists() {
    let lists = vec![
        vec![],
        vec![comment("1", "Ann", "2024-05-01T08:00:00Z", "  padded  ")],
        vec![
            comment("1", "Ann", "a", "x"),
            comment("2", "Ben Lee", "b", "multi\n\nparagraph"),
            comment("3", "", "c", ""),
        ],
    ];
    for cs in lists {
        let body = write_comments("Intro text\n\n## Comments\n\n### [old] - Old\nold\n", &cs);
        let back = read_comments(&body);
        let expected: Vec<(String, String, String)> = cs
            .iter()
            .map(|c| (c.author.clone(), c.timestamp.clone(), c.content.trim().to_string()))
            .collect();
        assert_eq!(triples(&back), expected);
    }
}

#[test]
fn empty_list_collapses_the_section() {
    let out = write_comments("Text body\n\n", &[]);
    assert_eq!(out, "Text body");
    assert!(!out.contains("## Comments"));
    let removed = write_comments("Text\n\n## Comments\n\n### [t] - A\nx\n", &[]);
    assert_eq!(removed, "Text");
}

#[test]
fn later_section_is_not_read() {
    let body = "# T\n\n## Comments\n\n### [t1] - Alice\nHello\n## Other\nunrelated text\n### [t2] - Bob\nnot a comment\n";
    let cs = read_comments(body);
    assert_eq!(cs.len(), 1);
    assert_eq!(cs[0].content, "Hello");
    assert!(cs.iter().all(|c| !c.content.contains("unrelated")));
}

#[test]
fn heading_at_start_of_body() {
    let cs = read_comments("## Comments\n### [t] - Dana\nhi\n");
    assert_eq!(triples(&cs), vec![("Dana".to_string(), "t".to_string(), "hi".to_string())]);
    assert_eq!(write_comments("## Comments\n### [t] - Dana\nhi\n", &[]), "");
}

#[test]
fn entry_without_separator_has_unknown_author() {
    let cs = read_comments("x\n## Comments\n### [t]\nbody\n");
    assert_eq!(cs[0].author, "Unknown");
    assert_eq!(cs[0].timestamp, "t");
}

#[test]
fn entry_without_bracket_ends_the_previous_one() {
    let cs = read_comments("x\n## Comments\n### [t] - A\none\n### [broken\ntwo\n");
    assert_eq!(cs.len(), 1);
    assert_eq!(cs[0].content, "one");
}

#[test]
fn crlf_lines_are_read() {
    let cs = read_comments("x\n## Comments\n### [t] - A \r\nline one\r\nline two\r\n");
    assert_eq!(cs[0].author, "A");
    assert_eq!(cs[0].content, "line one\nline two");
}

#[test]
fn read_comments_gives_fresh_ids() {
    let cs = read_comments(TWO);
    assert_eq!(cs[0].id.len(), 36);
    assert_ne!(cs[0].id, cs[1].id);
}

#[test]
fn new_comment_is_stamped() {
    let c = Comment::new("Eve".to_string(), "Looks good".to_string());
    assert_eq!(c.author, "Eve");
    assert_eq!(c.content, "Looks good");
    assert_eq!(c.id.len(), 36);
    assert!(c.timestamp.starts_with("20"));
    assert!(c.timestamp.contains('T'));
}

#[test]
fn later_sections_are_kept() {
    let body = "# T\n\n## Comments\n\n### [t] - A\nold\n\n## Other\nz\n";
    let out = write_comments(body, &[comment("1", "B", "t1", "new")]);
    assert_eq!(out, "# T\n\n## Other\nz\n\n## Comments\n\n### [t1] - B\nnew\n");
    let out = write_comments("\n## Comments\n\n## Other\nz", &[comment("1", "B", "t1", "new")]);
    assert!(out.contains("## Other\nz"));
    assert_eq!(write_comments(body, &[]), "# T\n\n## Other\nz");
    let back = read_comments(&write_comments(body, &[comment("1", "B", "t1", "new")]));
    assert_eq!(triples(&back), vec![("B".to_string(), "t1".to_string(), "new".to_string())]);
}

#[test]
fn append_comment_when_the_header_closes_the_text() {
    let out = append_comment("---\na: 1\n---", comment("x", "A", "t", "c")).unwrap();
    assert!(out.starts_with("---\na: 1\n---\n\n"));
    let (_, body) = split_for_comments(&out).unwrap();
    assert_eq!(read_comments(&body).len(), 1);
}

#[test]
fn new_comment_stamp_fits_an_entry_line() {
    let c = Comment::new("A".to_string(), "x".to_string());
    assert!(!c.timestamp.is_empty());
    assert!(!c.timestamp.contains(']') && !c.timestamp.contains('\n'));
    let back = read_comments(&write_comments("", &[c.clone()]));
    assert_eq!(back[0].timestamp, c.timestamp);
}

#[test]
fn text_around_the_section_is_kept_as_it_is() {
    let c = [comment("1", "B", "t1", "new")];
    assert_eq!(
        write_comments("A\n## Comments\n## B", &c),
        "A\n## B\n\n## Comments\n\n### [t1] - B\nnew\n"
    );
    let out = write_comments("x\n## Comments\n## Comments\n\n## Other\ny", &c);
    assert!(out.starts_with("x\n## Comments"));
    assert!(out.contains("## Other\ny"));
    assert_eq!(
        write_comments("Intro\n\n## Comments\n### [t] - A\nold\n## Next\nkept  \n\n", &[]),
        "Intro\n\n## Next\nkept"
    );
}
