use pillar::models::{default_base_directory, ModelError, Priority, Status, WorkspaceConfig};

#[test]
fn test_status_from_str() {
    assert_eq!("backlog".parse::<Status>().unwrap(), Status::Backlog);
    assert_eq!("todo".parse::<Status>().unwrap(), Status::Todo);
    assert_eq!("in-progress".parse::<Status>().unwrap(), Status::InProgress);
    assert_eq!("inprogress".parse::<Status>().unwrap(), Status::InProgress);
    assert_eq!("completed".parse::<Status>().unwrap(), Status::Completed);
    assert_eq!("done".parse::<Status>().unwrap(), Status::Completed);
    assert_eq!("cancelled".parse::<Status>().unwrap(), Status::Cancelled);
    assert!("invalid".parse::<Status>().is_err());
}

#[test]
fn test_config_default_base_directory() {
    let config = WorkspaceConfig {
        version: "0.1.0".to_string(),
        base_directory: default_base_directory(),
    };
    assert_eq!(config.base_directory, ".");
}

#[test]
fn test_priority_ordering() {
    assert!(Priority::Low < Priority::Medium);
    assert!(Priority::Medium < Priority::High);
    assert!(Priority::High < Priority::Urgent);
}

#[test]
fn test_status_display() {
    assert_eq!(Status::Backlog.to_string(), "backlog");
    assert_eq!(Status::InProgress.to_string(), "in-progress");
}

#[test]
fn test_priority_display() {
    assert_eq!(Priority::Low.to_string(), "low");
    assert_eq!(Priority::Urgent.to_string(), "urgent");
}

#[test]
fn priority_from_str_accepts_each_name() {
    assert_eq!("low".parse::<Priority>().unwrap(), Priority::Low);
    assert_eq!("medium".parse::<Priority>().unwrap(), Priority::Medium);
    assert_eq!("high".parse::<Priority>().unwrap(), Priority::High);
    assert_eq!("urgent".parse::<Priority>().unwrap(), Priority::Urgent);
    assert!("invalid".parse::<Priority>().is_err());
}

#[test]
fn parsing_ignores_case() {
    assert_eq!(Status::parse("In-Progress").unwrap(), Status::InProgress);
    assert_eq!(Status::parse("CANCELED").unwrap(), Status::Cancelled);
    assert_eq!(Priority::parse("HIGH").unwrap(), Priority::High);
}

#[test]
fn from_lowercase_takes_the_word_as_given() {
    assert_eq!(Status::from_lowercase("done"), Some(Status::Completed));
    assert_eq!(Status::from_lowercase("Done"), None);
    assert_eq!(Priority::from_lowercase("medium"), Some(Priority::Medium));
    assert_eq!(Priority::from_lowercase(""), None);
}

#[test]
fn invalid_values_keep_the_input() {
    match Status::parse("Later") {
        Err(ModelError::InvalidStatus(s)) => assert_eq!(s, "Later"),
        other => panic!("unexpected {:?}", other),
    }
    let e = Priority::parse("asap").unwrap_err();
    assert_eq!(e.message(), "Invalid priority: asap");
    assert_eq!(
        ModelError::InvalidStatus("x".to_string()).message(),
        "Invalid status: x"
    );
}

#[test]
fn every_name_parses_back() {
    for s in [
        Status::Backlog,
        Status::Todo,
        Status::InProgress,
        Status::Completed,
        Status::Cancelled,
    ] {
        assert_eq!(Status::parse(&s.to_string()).unwrap(), s);
    }
    for p in [Priority::Low, Priority::Medium, Priority::High, Priority::Urgent] {
        assert_eq!(Priority::parse(&p.to_string()).unwrap(), p);
    }
}

#[test]
fn names_are_exact_in_headers() {
    assert_eq!(Status::from_name("in-progress"), Some(Status::InProgress));
    assert_eq!(Status::from_name("done"), None);
    assert_eq!(Status::from_name("Todo"), None);
}
