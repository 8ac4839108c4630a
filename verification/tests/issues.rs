use peisear_web::components::issues::{
    assignee_label, effort_options, sprint_picker, sub_issue_badge_class, sub_issue_section,
    SubIssueSection,
};
use peisear_web::components::settings::close_form_shown;
use peisear_web::handlers::settings::{settings_flash_location, CalendarDate};
use peisear_web::components::links::{issue_links, project_links, toggle_classes};
use peisear_web::error::AppError;
use peisear_web::components::IssueStatus;
use peisear_web::components::IssueStatus::{Done, InProgress, Open};
use peisear_web::handlers::issues::{board_columns, validate_assignee, view_mode, AssigneeOption};

fn candidates() -> Vec<AssigneeOption> {
    vec![
        AssigneeOption { id: "u1".to_string(), display_name: "Ada".to_string() },
        AssigneeOption { id: "u2".to_string(), display_name: "Grace".to_string() },
    ]
}

#[test]
fn an_empty_assignee_leaves_the_issue_unassigned() {
    assert!(matches!(validate_assignee("   ", &candidates()), Ok(None)));
}

#[test]
fn a_candidate_id_is_accepted_trimmed() {
    assert!(matches!(validate_assignee(" u2 ", &candidates()), Ok(Some(id)) if id == "u2"));
}

#[test]
fn an_unknown_assignee_is_refused() {
    match validate_assignee("u3", &candidates()) {
        Err(AppError::Validation(m)) => {
            assert_eq!(m, "Selected user is not a valid assignee for this project.")
        }
        _ => panic!("an unknown assignee must be refused"),
    }
}

#[test]
fn an_assignee_shows_by_name_or_by_id() {
    let c = candidates();
    assert_eq!(assignee_label("u2", &c), "Grace");
    assert_eq!(assignee_label("gone", &c), "gone");
    assert_eq!(assignee_label("u1", &[]), "u1");
}

#[test]
fn a_project_page_links_its_views_and_forms() {
    let l = project_links("p7");
    assert_eq!(l.board, "/projects/p7?view=board");
    assert_eq!(l.list, "/projects/p7?view=list");
    assert_eq!(l.edit, "/projects/p7/edit");
    assert_eq!(l.new_issue, "/projects/p7/issues/new");
    assert_eq!(l.calendar, "/projects/p7/calendar");
}

#[test]
fn the_active_view_toggle_is_highlighted() {
    assert_eq!(
        toggle_classes("board"),
        ("join-item btn btn-sm btn-active btn-primary", "join-item btn btn-sm btn-ghost")
    );
    assert_eq!(
        toggle_classes("list"),
        ("join-item btn btn-sm btn-ghost", "join-item btn btn-sm btn-active btn-primary")
    );
    assert_eq!(toggle_classes("anything"), toggle_classes("list"));
}

#[test]
fn an_issue_page_links_its_actions() {
    let l = issue_links("p7", "i3");
    assert_eq!(l.detail, "/projects/p7/issues/i3");
    assert_eq!(l.edit, "/projects/p7/issues/i3/edit");
    assert_eq!(l.delete, "/projects/p7/issues/i3/delete");
    assert_eq!(l.sprint, "/projects/p7/issues/i3/sprint");
    assert_eq!(l.new_sub_issue, "/projects/p7/issues/i3/sub-issues/new");
    assert_eq!(l.board_status, "/projects/p7/issues/i3/status/board");
}

#[test]
fn the_board_groups_issues_by_status_in_list_order() {
    let order = vec![Open, InProgress, Done];
    let statuses = vec![Done, Open, Open, InProgress, Done];
    let cols = board_columns(&order, &statuses);
    let shape: Vec<(IssueStatus, Vec<usize>)> =
        cols.into_iter().map(|c| (c.status, c.issues)).collect();
    assert_eq!(shape, vec![(Open, vec![1, 2]), (InProgress, vec![3]), (Done, vec![0, 4])]);
}

#[test]
fn an_issue_lands_in_the_first_column_of_its_status_only() {
    let cols = board_columns(&vec![Open, Open], &vec![Open, Done]);
    assert_eq!(cols[0].issues, vec![0]);
    assert!(cols[1].issues.is_empty());
}

#[test]
fn the_project_page_shows_the_board_unless_the_list_is_asked_for() {
    assert_eq!(view_mode(Some("list")), "list");
    assert_eq!(view_mode(Some("board")), "board");
    assert_eq!(view_mode(Some("grid")), "board");
    assert_eq!(view_mode(None), "board");
}

#[test]
fn the_sprint_picker_shows_for_top_level_issues_with_options() {
    let ids = vec!["s1".to_string(), "s2".to_string()];
    let p = sprint_picker(&ids, &Some("s2".to_string()), true);
    assert!(p.shown && !p.none_selected);
    assert_eq!(p.selected, vec![false, true]);
    assert!(!sprint_picker(&ids, &None, false).shown);
    let none = sprint_picker(&vec![], &None, true);
    assert!(!none.shown && none.none_selected);
}

#[test]
fn a_non_preset_effort_keeps_its_own_option() {
    let presets = vec![1, 2, 3, 5, 8];
    let e = effort_options(&presets, Some(3));
    assert!(!e.none_selected);
    assert_eq!(e.options, vec![(1, false), (2, false), (3, true), (5, false), (8, false)]);
    let e = effort_options(&presets, Some(13));
    assert_eq!(e.options.len(), 6);
    assert_eq!(e.options[5], (13, true));
    let e = effort_options(&presets, None);
    assert!(e.none_selected && e.options.iter().all(|(_, s)| !s));
}

#[test]
fn only_an_open_ended_capacity_row_can_be_closed() {
    assert!(close_form_shown(None));
    assert!(!close_form_shown(Some(CalendarDate { year: 2026, month: 3, day: 31 })));
}

#[test]
fn a_saved_setting_returns_with_its_flash() {
    assert_eq!(settings_flash_location("WIP limit saved."), "/settings?flash=WIP+limit+saved.");
}

#[test]
fn a_flash_with_reserved_characters_is_percent_encoded() {
    assert_eq!(
        settings_flash_location("Saved & done? 100%"),
        "/settings?flash=Saved+%26+done%3F+100%25"
    );
    assert_eq!(settings_flash_location("a=b#c+d"), "/settings?flash=a%3Db%23c%2Bd");
    assert_eq!(settings_flash_location("Größe"), "/settings?flash=Gr%C3%B6%C3%9Fe");
}

#[test]
fn sub_issue_badges_by_status() {
    assert_eq!(sub_issue_badge_class(Open), "badge badge-xs badge-ghost");
    assert_eq!(sub_issue_badge_class(InProgress), "badge badge-xs badge-primary");
    assert_eq!(sub_issue_badge_class(Done), "badge badge-xs badge-success");
}

#[test]
fn only_a_top_level_issue_has_a_sub_issue_section() {
    assert_eq!(sub_issue_section(false, 0), SubIssueSection::Hidden);
    assert_eq!(sub_issue_section(false, 3), SubIssueSection::Hidden);
    assert_eq!(sub_issue_section(true, 0), SubIssueSection::Empty);
    assert_eq!(sub_issue_section(true, 2), SubIssueSection::Listed);
}
