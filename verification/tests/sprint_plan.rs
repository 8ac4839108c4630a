use peisear_web::handlers::issues::AssigneeOption;
use peisear_web::error::AppError;
use peisear_web::components::sprints::{sprint_badge_class, velocity_median};
use peisear_web::handlers::sprints::{
    delete_consequence, open_sprint_options, sprint_deletable, SprintOption,
    parse_date_required, sprint_redirect,
    backlog_scope, outside_sprint, plan_permissions, team_assignees, PlanQuery, SprintStatus,
};

fn who(id: &str, name: &str) -> AssigneeOption {
    AssigneeOption { id: id.to_string(), display_name: name.to_string() }
}

#[test]
fn only_writers_move_issues_and_only_before_the_start() {
    assert_eq!(plan_permissions(true, SprintStatus::Planned), (true, true));
    assert_eq!(plan_permissions(false, SprintStatus::Planned), (false, true));
    assert_eq!(plan_permissions(true, SprintStatus::Active), (false, true));
    assert_eq!(plan_permissions(true, SprintStatus::Completed), (false, false));
}

#[test]
fn empty_filters_filter_nothing() {
    let q = PlanQuery {
        project: Some(String::new()),
        priority: Some("high".to_string()),
        assignee: Some("u1".to_string()),
    };
    let s = backlog_scope(&q);
    assert_eq!(s.project_id, None);
    assert_eq!(s.assignee_id.as_deref(), Some("u1"));
    let s = backlog_scope(&PlanQuery::default());
    assert!(s.project_id.is_none() && s.assignee_id.is_none());
}

#[test]
fn the_backlog_leaves_out_what_the_sprint_holds() {
    let backlog: Vec<String> = ["a", "b", "c", "d"].iter().map(|s| s.to_string()).collect();
    let sprint: Vec<String> = ["c", "a", "z"].iter().map(|s| s.to_string()).collect();
    assert_eq!(outside_sprint(&backlog, &sprint), vec![1, 3]);
    assert_eq!(outside_sprint(&backlog, &vec![]), vec![0, 1, 2, 3]);
}

#[test]
fn team_assignees_are_unique_and_listed_by_name() {
    let candidates = vec![
        who("u2", "Grace"),
        who("u1", "Ada"),
        who("u2", "Grace (other project)"),
        who("u3", "Ada"),
        who("u4", "Zed"),
    ];
    let r: Vec<(String, String)> =
        team_assignees(&candidates).into_iter().map(|a| (a.id, a.display_name)).collect();
    assert_eq!(
        r,
        vec![
            ("u1".to_string(), "Ada".to_string()),
            ("u3".to_string(), "Ada".to_string()),
            ("u2".to_string(), "Grace".to_string()),
            ("u4".to_string(), "Zed".to_string()),
        ]
    );
}

#[test]
fn sprint_dates_are_required_and_iso() {
    let d = parse_date_required(" 2026-04-01 ", "Start date is required.", "bad").ok().unwrap();
    assert_eq!((d.year, d.month, d.day), (2026, 4, 1));
    match parse_date_required("  ", "Start date is required.", "bad") {
        Err(AppError::Validation(m)) => assert_eq!(m, "Start date is required."),
        _ => panic!("a blank date must be refused"),
    }
    match parse_date_required("April 1st", "required", "Start date must be YYYY-MM-DD.") {
        Err(AppError::Validation(m)) => assert_eq!(m, "Start date must be YYYY-MM-DD."),
        _ => panic!("an unreadable date must be refused"),
    }
}

#[test]
fn a_sprint_change_returns_to_the_sprint_with_its_message() {
    assert_eq!(
        sprint_redirect("core", "s1", "flash", "Sprint started."),
        "/teams/core/sprints/s1?flash=Sprint+started."
    );
    assert_eq!(
        sprint_redirect("core", "s1", "error", "Another sprint is active & running"),
        "/teams/core/sprints/s1?error=Another+sprint+is+active+%26+running"
    );
}

#[test]
fn a_running_sprint_cannot_be_deleted() {
    assert!(sprint_deletable(SprintStatus::Planned));
    assert!(!sprint_deletable(SprintStatus::Active));
    assert!(sprint_deletable(SprintStatus::Completed));
}

#[test]
fn completed_sprints_are_not_offered_to_an_issue() {
    let all = vec![
        SprintOption { id: "s1".to_string(), name: "One".to_string(), status: SprintStatus::Completed },
        SprintOption { id: "s2".to_string(), name: "Two".to_string(), status: SprintStatus::Active },
        SprintOption { id: "s3".to_string(), name: "Three".to_string(), status: SprintStatus::Planned },
    ];
    assert_eq!(
        open_sprint_options(&all),
        vec![("s2".to_string(), "Two".to_string()), ("s3".to_string(), "Three".to_string())]
    );
}

#[test]
fn the_velocity_reference_line_is_the_median() {
    assert_eq!(velocity_median(&vec![]), 0);
    assert_eq!(velocity_median(&vec![8, 3, 5]), 5);
    assert_eq!(velocity_median(&vec![8, 3, 5, 10]), 6);
    assert_eq!(velocity_median(&vec![-3, -4]), -3);
    assert_eq!(velocity_median(&vec![4, 4, 1, 9]), 4);
}

#[test]
fn sprint_badges_by_status_and_size() {
    assert_eq!(sprint_badge_class(SprintStatus::Active, true), "badge badge-sm badge-primary");
    assert_eq!(sprint_badge_class(SprintStatus::Planned, true), "badge badge-sm badge-ghost");
    assert_eq!(sprint_badge_class(SprintStatus::Completed, true), "badge badge-sm badge-outline");
    assert_eq!(sprint_badge_class(SprintStatus::Active, false), "badge badge-primary");
    assert_eq!(sprint_badge_class(SprintStatus::Planned, false), "badge badge-ghost");
    assert_eq!(sprint_badge_class(SprintStatus::Completed, false), "badge badge-outline");
}

#[test]
fn deleting_a_running_sprint_is_refused_and_the_others_name_their_consequence() {
    let refusal = "An active sprint cannot be deleted.";
    match delete_consequence(SprintStatus::Active, "planned", "completed", refusal) {
        Err(AppError::Validation(m)) => assert_eq!(m, refusal),
        _ => panic!("an active sprint must be refused"),
    }
    match delete_consequence(SprintStatus::Planned, "planned", "completed", refusal) {
        Ok(n) => assert_eq!(n, "planned"),
        _ => panic!("a planned sprint can be deleted"),
    }
    match delete_consequence(SprintStatus::Completed, "planned", "completed", refusal) {
        Ok(n) => assert_eq!(n, "completed"),
        _ => panic!("a completed sprint can be deleted"),
    }
}
