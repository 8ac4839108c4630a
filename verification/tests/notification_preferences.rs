use peisear_web::handlers::notification_preferences::{
    email_opt_in, preferences_from, GlobalAckForm, MinSeverity,
};

fn strings(v: &[&str]) -> Vec<String> {
    v.iter().map(|s| s.to_string()).collect()
}

fn field(k: &str, v: &str) -> (String, String) {
    (k.to_string(), v.to_string())
}

#[test]
fn only_yes_opts_in_to_email() {
    assert!(email_opt_in(&GlobalAckForm { email_opt_in: "yes".to_string() }));
    assert!(email_opt_in(&GlobalAckForm { email_opt_in: "YeS".to_string() }));
    assert!(!email_opt_in(&GlobalAckForm { email_opt_in: "no".to_string() }));
    assert!(!email_opt_in(&GlobalAckForm { email_opt_in: "yes ".to_string() }));
}

#[test]
fn a_saved_table_sets_each_kind_from_its_fields() {
    let fields = vec![
        field("channel__burnout.overload__email", "on"),
        field("channel__burnout.overload__in_app", "on"),
        field("min_severity__burnout.overload", "watch"),
        field("channel__project.trend_decline__webhook", "on"),
        field("min_severity__project.trend_decline", "info"),
    ];
    let kinds = strings(&["burnout.overload", "project.trend_decline", "burnout.stalled"]);
    let channels = strings(&["in_app", "email", "webhook"]);
    let prefs = preferences_from(&fields, &kinds, &channels);
    let shape: Vec<(String, Vec<String>, MinSeverity)> =
        prefs.into_iter().map(|p| (p.kind, p.channels, p.min_severity)).collect();
    assert_eq!(
        shape,
        vec![
            ("burnout.overload".to_string(), strings(&["in_app", "email"]), MinSeverity::Watch),
            ("project.trend_decline".to_string(), strings(&["webhook"]), MinSeverity::Info),
            ("burnout.stalled".to_string(), vec![], MinSeverity::Info),
        ]
    );
}
