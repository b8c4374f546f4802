use std::cmp::Ordering;
use pillar::issue::sanitize_filename as issue_slug;
use pillar::milestone::sanitize_filename as milestone_slug;
use pillar::issue::{extract_issue_id, parse_tags, sanitize_lowercase, split_issue_ref};
use pillar::project::{generate_default_project_id, validate_project_id, ProjectIdError};
use pillar::filter::{selects_issue, selects_project, IssueFilter};
use pillar::models::{Priority, Status};
use pillar::ordering::{compare_listing, compare_milestones, compare_text};
use pillar::search::{contains_text, matches_lowered, matches_query};
use pillar::slug::slugify;
use pillar::workspace::{
    choose_author, is_reserved_base_directory, issue_file_matches, next_issue_id,
    parse_unsigned_text, three_digit,
};

#[test]
fn issue_test_sanitize_filename() {
    assert_eq!(issue_slug("Fix critical bug"), "fix-critical-bug");
    assert_eq!(
        issue_slug("Add new feature: authentication"),
        "add-new-feature-authentication"
    );
    assert_eq!(issue_slug("Bug #123"), "bug-123");
}

#[test]
fn milestone_test_sanitize_filename() {
    assert_eq!(milestone_slug("v1.0"), "v1-0");
    assert_eq!(milestone_slug("Version 2.0 Beta"), "version-2-0-beta");
    assert_eq!(milestone_slug("Q1 2025"), "q1-2025");
}

#[test]
fn issue_slug_is_cut_to_forty_characters() {
    let title = "A very long issue title that keeps going and going";
    let slug = pillar::issue::sanitize_filename(title);
    assert_eq!(slug, "a-very-long-issue-title-that-keeps-going");
    assert_eq!(sanitize_lowercase("abc"), "abc");
}

#[test]
fn slug_halves_dashes_once_and_trims_them() {
    assert_eq!(slugify("--a---b--"), "a--b");
    assert_eq!(slugify("a___b"), "a___b");
    assert_eq!(slugify("!!!"), "");
    assert_eq!(slugify("été 2024"), "été-2024");
}

#[test]
fn issue_ids_come_from_file_stems() {
    assert_eq!(extract_issue_id(Some("001-fix-bug")), "001");
    assert_eq!(extract_issue_id(Some("nodash")), "nodash");
    assert_eq!(extract_issue_id(None), "unknown");
}

#[test]
fn project_ids_are_checked() {
    assert_eq!(validate_project_id("web-app_2"), Ok(()));
    assert_eq!(validate_project_id(""), Err(ProjectIdError::Empty));
    assert_eq!(
        validate_project_id("abcdefghijklmnopqrstu"),
        Err(ProjectIdError::TooLong)
    );
    assert_eq!(
        validate_project_id("has space"),
        Err(ProjectIdError::InvalidCharacter)
    );
    assert_eq!(validate_project_id("ééééééééééé"), Err(ProjectIdError::TooLong));
}

#[test]
fn default_project_ids() {
    assert_eq!(generate_default_project_id("Pillar Task Tracker"), "ptt");
    assert_eq!(generate_default_project_id("website"), "webs");
    assert_eq!(generate_default_project_id("My-big_new project here"), "mbnp");
    assert_eq!(generate_default_project_id("  spaced  out "), "so");
    assert_eq!(generate_default_project_id("API"), "api");
}

#[test]
fn tags_are_split_and_trimmed() {
    assert_eq!(parse_tags("bug,critical"), vec!["bug", "critical"]);
    assert_eq!(parse_tags(" a , b ,"), vec!["a", "b", ""]);
    assert_eq!(parse_tags(""), vec![""]);
}

#[test]
fn issue_references_split_at_slash() {
    assert_eq!(
        split_issue_ref("test-project/001"),
        Some(("test-project".to_string(), "001".to_string()))
    );
    assert_eq!(split_issue_ref("a/b/c"), Some(("a".to_string(), "b/c".to_string())));
    assert_eq!(split_issue_ref("001"), None);
}

#[test]
fn test_generate_issue_id() {
    let none: Vec<String> = vec![];
    assert_eq!(next_issue_id(&none), "001");
    let names = vec!["001-first.md".to_string(), "002-second.md".to_string()];
    assert_eq!(next_issue_id(&names), "003");
}

#[test]
fn issue_numbers_skip_unreadable_names() {
    let names = vec![
        "notes.md".to_string(),
        "0041-x.md".to_string(),
        "-7-y.md".to_string(),
        "99999999999-z.md".to_string(),
    ];
    assert_eq!(next_issue_id(&names), "042");
    assert_eq!(next_issue_id(&vec!["1234-a.md".to_string()]), "1235");
}

#[test]
fn numbers_parse_and_format() {
    assert_eq!(parse_unsigned_text("+12", 100), Some(12));
    assert_eq!(parse_unsigned_text("101", 100), None);
    assert_eq!(parse_unsigned_text("+", 100), None);
    assert_eq!(parse_unsigned_text("1a", 100), None);
    assert_eq!(parse_unsigned_text("4294967295", 4294967295), Some(4294967295));
    assert_eq!(three_digit(7), "007");
    assert_eq!(three_digit(12345), "12345");
    assert_eq!(three_digit(0), "000");
}

#[test]
fn issue_files_match_by_number() {
    assert!(issue_file_matches("001-test-issue.md", "1"));
    assert!(issue_file_matches("001-test-issue.md", "001"));
    assert!(!issue_file_matches("002-other.md", "1"));
    assert!(issue_file_matches("abc-x.md", "abc"));
    assert!(issue_file_matches("000-x.md", "abc"));
}

#[test]
fn author_is_chosen_in_order() {
    assert_eq!(choose_author(Some("  Jane Doe \n"), Some("jd")), "Jane Doe");
    assert_eq!(choose_author(Some("  \n"), Some("jd")), "jd");
    assert_eq!(choose_author(None, Some("")), "Unknown");
    assert_eq!(choose_author(None, None), "Unknown");
}

#[test]
fn listing_orders() {
    assert_eq!(compare_text("abc", "abd"), Ordering::Less);
    assert_eq!(compare_text("ab", "abc"), Ordering::Less);
    assert_eq!(compare_text("Z", "a"), Ordering::Less);
    assert_eq!(compare_text("é", "z"), Ordering::Greater);
    assert_eq!(compare_text("same", "same"), Ordering::Equal);
    assert_eq!(
        compare_listing(Priority::Urgent, "b", Priority::Low, "a"),
        Ordering::Less
    );
    assert_eq!(
        compare_listing(Priority::High, "b", Priority::High, "a"),
        Ordering::Greater
    );
    assert_eq!(
        compare_milestones(None, "a", Some("2030-01-01"), "b"),
        Ordering::Greater
    );
    assert_eq!(
        compare_milestones(Some("9999-12-31"), "a", None, "b"),
        Ordering::Less
    );
}

#[test]
fn search_matches_ignore_case() {
    let fields = vec!["Fix bug in search".to_string(), "Details".to_string()];
    assert!(matches_query("SEARCH", &fields));
    assert!(matches_query("details", &fields));
    assert!(!matches_query("absent", &fields));
    assert!(!matches_query("x", &vec![]));
    assert!(contains_text("abc", ""));
    assert!(!contains_text("", "a"));
    assert!(matches_lowered("bug", &vec!["a bug".to_string()]));
    assert!(!matches_lowered("BUG", &vec!["a bug".to_string()]));
}

#[test]
fn reserved_base_directories() {
    assert!(is_reserved_base_directory(".pillar"));
    assert!(is_reserved_base_directory(".pillar/data"));
    assert!(!is_reserved_base_directory(".pillarx"));
    assert!(!is_reserved_base_directory("pm"));
}

#[test]
fn listing_filters() {
    let tags = vec!["bug".to_string(), "ui".to_string()];
    let all = IssueFilter { status: None, priority: None, milestone: None, tag: None };
    assert!(selects_issue(&all, Status::Todo, Priority::Low, None, &tags));
    let f = IssueFilter {
        status: Some(Status::Todo),
        priority: Some(Priority::High),
        milestone: Some("v1.0".to_string()),
        tag: Some("ui".to_string()),
    };
    assert!(selects_issue(&f, Status::Todo, Priority::High, Some("v1.0"), &tags));
    assert!(!selects_issue(&f, Status::Todo, Priority::High, None, &tags));
    assert!(!selects_issue(&f, Status::Todo, Priority::Low, Some("v1.0"), &tags));
    assert!(!selects_issue(&f, Status::Todo, Priority::High, Some("v1.0"), &vec![]));
    assert!(selects_project(None, Some(Priority::Low), Status::Backlog, Priority::Low));
    assert!(!selects_project(Some(Status::Todo), None, Status::Backlog, Priority::Low));
}
