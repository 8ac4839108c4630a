use peisear_web::handlers::redirects::{
    me_to_today, notifications_mark_all_read_to_inbox, notifications_read_to_inbox,
    notifications_to_inbox, LEGACY_REDIRECT_STATUS,
};
use peisear_web::handlers::teams::{
    removal_refusal, role_change_refusal,
    after_removal, demotes_last_admin, last_admin_demotion_message, may_remove,
    removes_last_admin, team_error_redirect, unknown_email_message,
};

#[test]
fn a_refused_change_returns_to_the_team_with_the_message() {
    assert_eq!(
        team_error_redirect("core", &unknown_email_message("a@b.c")),
        "/teams/core?error=No+user+with+email+%27a%40b.c%27+was+found."
    );
    assert_eq!(
        team_error_redirect("core", last_admin_demotion_message()),
        "/teams/core?error=This+is+the+last+admin+of+the+team+%E2%80%94+promote+another+member+to+admin+first%2C+then+change+this+role."
    );
}

#[test]
fn the_last_admin_stays_an_admin() {
    assert!(demotes_last_admin(false, true, 1));
    assert!(!demotes_last_admin(false, true, 2));
    assert!(!demotes_last_admin(true, true, 1));
    assert!(!demotes_last_admin(false, false, 0));
    assert!(removes_last_admin(true, 1));
    assert!(!removes_last_admin(true, 2));
    assert!(!removes_last_admin(false, 1));
}

#[test]
fn anyone_may_leave_but_only_managers_remove_others() {
    assert!(may_remove(true, false));
    assert!(may_remove(false, true));
    assert!(!may_remove(false, false));
    assert_eq!(after_removal("core", true), "/teams?flash=You+left+the+team");
    assert_eq!(after_removal("core", false), "/teams/core?flash=Member+removed");
}

#[test]
fn legacy_paths_redirect_permanently_to_their_new_homes() {
    assert_eq!(LEGACY_REDIRECT_STATUS, 308);
    assert_eq!(me_to_today(), "/today");
    assert_eq!(notifications_to_inbox(), "/inbox");
    assert_eq!(notifications_mark_all_read_to_inbox(), "/inbox/mark-all-read");
    assert_eq!(notifications_read_to_inbox("n-42"), "/inbox/n-42/read");
}

#[test]
fn refusing_to_lose_the_last_admin_returns_to_the_team() {
    assert_eq!(role_change_refusal("core", false, true, 2), None);
    assert_eq!(role_change_refusal("core", true, true, 1), None);
    let loc = role_change_refusal("core", false, true, 1).unwrap();
    assert!(loc.starts_with("/teams/core?error=This+is+the+last+admin+of+the+team+%E2%80%94+promote"));
    assert_eq!(removal_refusal("core", false, 1), None);
    let loc = removal_refusal("core", true, 1).unwrap();
    assert!(loc.ends_with("assign+another+admin+before+removing+this+one."));
}
