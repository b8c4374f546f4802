use pillar::export::{
    csv_header, export, issue_csv_line, join_tags, milestone_csv_line, plan_export,
    project_csv_line, EntityKind, ExportError, ExportFormat, ExportPlan,
};
use pillar::models::{Priority, Status};

#[test]
fn export_plans() {
    assert_eq!(
        export("JSON", "project").unwrap(),
        ExportPlan {
            format: ExportFormat::Json,
            entity: EntityKind::Project
        }
    );
    assert_eq!(
        export("json", "all").unwrap(),
        ExportPlan {
            format: ExportFormat::Json,
            entity: EntityKind::All
        }
    );
    assert_eq!(
        export("Csv", "issue").unwrap(),
        ExportPlan {
            format: ExportFormat::Csv,
            entity: EntityKind::Issue
        }
    );
}

#[test]
fn export_refusals() {
    assert!(matches!(export("csv", "all"), Err(ExportError::CsvAllUnsupported)));
    match export("XML", "project") {
        Err(ExportError::UnsupportedFormat(f)) => assert_eq!(f, "XML"),
        other => panic!("unexpected {:?}", other),
    }
    match export("json", "Project") {
        Err(ExportError::InvalidEntityType(e)) => assert_eq!(e, "Project"),
        other => panic!("unexpected {:?}", other),
    }
    assert!(matches!(
        plan_export("JSON", "JSON", "project"),
        Err(ExportError::UnsupportedFormat(_))
    ));
}

#[test]
fn csv_lines() {
    assert_eq!(
        project_csv_line("My \"Big\" Project", Status::InProgress, Priority::High, "c", ""),
        "\"My \"\"Big\"\" Project\",in-progress,high,c,\n"
    );
    assert_eq!(
        milestone_csv_line("v1.0", Status::Backlog, "web", "2025-12-31", "", "u"),
        "\"v1.0\",backlog,\"web\",2025-12-31,,u\n"
    );
    let tags = vec!["bug".to_string(), "ui".to_string()];
    assert_eq!(
        issue_csv_line("Fix", Status::Todo, Priority::Urgent, "web", "", &tags, "c", "u"),
        "\"Fix\",todo,urgent,\"web\",\"\",\"bug;ui\",c,u\n"
    );
    assert_eq!(join_tags(&vec![]), "");
    assert_eq!(csv_header(EntityKind::Project), "name,status,priority,created,updated\n");
}
