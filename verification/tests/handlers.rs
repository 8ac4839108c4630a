use peisear_web::components::{urlencode, CalendarView};
use peisear_web::error::AppError;
use peisear_web::handlers::calendar::parse_view;
use peisear_web::handlers::issues::{parse_effort, IssueForm};
use peisear_web::handlers::percent_encode_query;
use peisear_web::handlers::projects::ProjectForm;
use peisear_web::handlers::search::{has_more, results_window, typeahead_split};
use peisear_web::handlers::settings::{
    capacity_fields, close_date,
    parse_date, parse_positive_int, percent_encode_for_query, redirect_with_conflict,
    CalendarDate,
};
use peisear_web::handlers::sprints::plan_query_string;

fn validation_message(r: Result<Option<i64>, AppError>) -> Option<String> {
    match r {
        Err(AppError::Validation(m)) => Some(m),
        _ => None,
    }
}

#[test]
fn percent_encode_query_survives_every_character_the_replace_idiom_could_not() {
    let message = "Sprint started & backlog updated — done? (100% #1, +1 more)";
    let encoded = percent_encode_query(message);
    let query = format!("flash={encoded}");
    let decoded: Vec<(String, String)> =
        serde_urlencoded::from_str(&query).expect("decode the encoded query string");
    assert_eq!(
        decoded,
        vec![("flash".to_string(), message.to_string())],
        "the flash message must round-trip through the query string byte-for-byte"
    );
}

#[test]
fn percent_encoding_writes_unreserved_bytes_as_themselves() {
    assert_eq!(percent_encode_query("a-Z_0.~"), "a-Z_0.~");
    assert_eq!(percent_encode_query("a b&c=d"), "a+b%26c%3Dd");
    assert_eq!(percent_encode_query("é"), "%C3%A9");
    assert_eq!(percent_encode_query(""), "");
    assert_eq!(percent_encode_for_query("50% off"), "50%25+off");
    assert_eq!(peisear_web::handlers::teams::percent_encode_query("#1?"), "%231%3F");
    assert_eq!(urlencode("a b+c"), "a%20b%2Bc");
}

#[test]
fn a_conflict_redirect_carries_the_message() {
    assert_eq!(
        redirect_with_conflict("Periods overlap & clash"),
        "/settings?error=Periods+overlap+%26+clash"
    );
}

#[test]
fn plan_filters_become_a_query_string() {
    assert_eq!(plan_query_string(&None, &None, &None), "");
    assert_eq!(
        plan_query_string(&Some("p 1".into()), &Some(String::new()), &Some("me&you".into())),
        "?project=p+1&assignee=me%26you"
    );
    assert_eq!(
        plan_query_string(&None, &Some("high".into()), &None),
        "?priority=high"
    );
}

#[test]
fn effort_is_empty_or_a_positive_integer() {
    assert_eq!(parse_effort("").ok(), Some(None));
    assert_eq!(parse_effort("  ").ok(), Some(None));
    assert_eq!(parse_effort(" 3 ").ok(), Some(Some(3)));
    assert_eq!(parse_effort("+8").ok(), Some(Some(8)));
    let msg = "Effort must be a positive integer.".to_string();
    assert_eq!(validation_message(parse_effort("0")), Some(msg.clone()));
    assert_eq!(validation_message(parse_effort("-2")), Some(msg.clone()));
    assert_eq!(validation_message(parse_effort("two")), Some(msg.clone()));
    assert_eq!(validation_message(parse_effort("9223372036854775808")), Some(msg));
    assert_eq!(
        parse_effort("9223372036854775807").ok(),
        Some(Some(9223372036854775807))
    );
}

#[test]
fn a_positive_integer_field_names_itself_when_refused() {
    assert_eq!(parse_positive_int("", "WIP limit").ok(), Some(None));
    assert_eq!(parse_positive_int("5", "WIP limit").ok(), Some(Some(5)));
    assert_eq!(
        validation_message(parse_positive_int("-5", "WIP limit")),
        Some("WIP limit must be a positive integer.".to_string())
    );
}

#[test]
fn dates_are_empty_or_iso() {
    assert!(matches!(parse_date(" ", "Period start"), Ok(None)));
    match parse_date("2026-09-25", "Period start") {
        Ok(Some(d)) => assert_eq!(d, CalendarDate { year: 2026, month: 9, day: 25 }),
        _ => panic!("a valid date"),
    }
    match parse_date("25/09/2026", "Period end") {
        Err(AppError::Validation(m)) => {
            assert_eq!(m, "Period end must be in YYYY-MM-DD format.")
        }
        _ => panic!("a refused date"),
    }
    assert!(parse_date("2026-02-30", "Close date").is_err());
}

const VALIDATOR_DERIVE_MESSAGES: &[(&str, &str, &str)] = &[
    ("handlers/auth.rs", "RegisterForm.email", "Please enter a valid email address."),
    (
        "handlers/auth.rs",
        "RegisterForm.display_name",
        "Display name must be between 1 and 80 characters.",
    ),
    ("handlers/auth.rs", "RegisterForm.password", "Password must be at least 8 characters."),
    ("handlers/projects.rs", "ProjectForm.name", "Name is required (max 120 chars)."),
    (
        "handlers/projects.rs",
        "ProjectForm.description",
        "Description must be under 4000 chars.",
    ),
    ("handlers/issues.rs", "IssueForm.title", "Title is required (max 200 chars)."),
    (
        "handlers/issues.rs",
        "IssueForm.description",
        "Description too long (max 10,000 chars).",
    ),
];

fn invalid_issue_form() -> IssueForm {
    IssueForm {
        title: String::new(),
        description: "x".repeat(10_001),
        status: "todo".into(),
        priority: "medium".into(),
        effort: String::new(),
        assignee_id: String::new(),
    }
}

fn invalid_project_form() -> ProjectForm {
    ProjectForm {
        name: "n".repeat(121),
        description: "d".repeat(4001),
        team_id: String::new(),
        client_updated_at: String::new(),
    }
}

#[test]
fn validator_derive_messages_still_match_their_source_files() {
    let issues = invalid_issue_form().validation_messages().join("\n");
    let projects = invalid_project_form().validation_messages().join("\n");
    for (file, field, message) in VALIDATOR_DERIVE_MESSAGES {
        let source = match *file {
            "handlers/auth.rs" => continue,
            "handlers/projects.rs" => projects.as_str(),
            "handlers/issues.rs" => issues.as_str(),
            other => panic!("VALIDATOR_DERIVE_MESSAGES names an unrecognised file: {other}"),
        };
        assert!(
            source.contains(message),
            "{file} {field}: {message:?} is no longer what the form's validation says"
        );
    }
}

#[test]
fn valid_forms_have_no_messages() {
    let mut f = invalid_issue_form();
    f.title = "t".repeat(200);
    f.description = "é".repeat(10_000);
    assert!(f.validation_messages().is_empty());
    let mut p = invalid_project_form();
    p.name = "Peisear".into();
    p.description = String::new();
    assert!(p.validation_messages().is_empty());
    let mut p = invalid_project_form();
    p.name = String::new();
    p.description = String::new();
    assert_eq!(p.validation_messages(), vec!["Name is required (max 120 chars)."]);
}

#[test]
fn the_typeahead_fills_its_budget_fairly() {
    assert_eq!(typeahead_split(10, 2), (6, 2));
    assert_eq!(typeahead_split(2, 10), (2, 6));
    assert_eq!(typeahead_split(10, 10), (4, 4));
    assert_eq!(typeahead_split(1, 1), (1, 1));
    assert_eq!(typeahead_split(0, 0), (0, 0));
}

#[test]
fn the_results_window_clamps_the_page() {
    let w = results_window(None);
    assert_eq!((w.page, w.fetch_limit, w.offset), (1, 51, 0));
    let w = results_window(Some(0));
    assert_eq!(w.page, 1);
    let w = results_window(Some(3));
    assert_eq!((w.page, w.fetch_limit, w.offset), (3, 151, 100));
    let w = results_window(Some(5000));
    assert_eq!((w.page, w.fetch_limit, w.offset), (200, 10_001, 9_950));
    assert!(has_more(151, 100, 50));
    assert!(!has_more(150, 100, 50));
    assert!(!has_more(10, 100, 0));
}

#[test]
fn calendar_views_parse_with_week_as_default() {
    assert_eq!(parse_view(Some("day")), CalendarView::Day);
    assert_eq!(parse_view(Some("month")), CalendarView::Month);
    assert_eq!(parse_view(Some("year")), CalendarView::Week);
    assert_eq!(parse_view(None), CalendarView::Week);
    assert_eq!(CalendarView::Month.as_str(), "month");
}

fn refusal<T>(r: Result<T, AppError>) -> String {
    match r {
        Err(AppError::Validation(m)) => m,
        _ => panic!("expected a validation error"),
    }
}

#[test]
fn a_capacity_row_needs_points_and_iso_dates() {
    let f = capacity_fields(" 12 ", "2026-01-05", "", "  focus week  ").ok().unwrap();
    assert_eq!(f.points, 12);
    let s = f.period_start.unwrap();
    assert_eq!((s.year, s.month, s.day), (2026, 1, 5));
    assert!(f.period_end.is_none());
    assert_eq!(f.note.as_deref(), Some("focus week"));
    assert!(capacity_fields("3", "", "", "   ").ok().unwrap().note.is_none());

    assert_eq!(refusal(capacity_fields("", "", "", "")), "Capacity points are required.");
    assert_eq!(
        refusal(capacity_fields("-2", "", "", "")),
        "Capacity points must be a positive integer."
    );
    assert_eq!(
        refusal(capacity_fields("2", "05/01/2026", "nope", "")),
        "Period start must be in YYYY-MM-DD format."
    );
    assert_eq!(
        refusal(capacity_fields("2", "", "nope", "")),
        "Period end must be in YYYY-MM-DD format."
    );
}

#[test]
fn closing_a_row_needs_a_date() {
    let d = close_date("2026-03-31").ok().unwrap();
    assert_eq!((d.year, d.month, d.day), (2026, 3, 31));
    assert_eq!(refusal(close_date("  ")), "Close date is required.");
    assert_eq!(refusal(close_date("31.03.2026")), "Close date must be in YYYY-MM-DD format.");
}
