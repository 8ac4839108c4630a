use peisear_web::config::{cookie_secure_from, Config};
use peisear_web::error::{
    check_optimistic_lock, entity_kind_wire_str, ApiAppError, AppError, EntityKind, Timestamp,
};
use peisear_web::handlers::api_users::{indicator_str, require_self, DisplayHealthState};

#[test]
fn statuses_follow_the_variants() {
    assert_eq!(AppError::Unauthorized.status(), 401);
    assert_eq!(AppError::Forbidden.status(), 403);
    assert_eq!(AppError::NotFound.status(), 404);
    assert_eq!(AppError::Validation("x".into()).status(), 400);
    assert_eq!(AppError::Conflict("x".into()).status(), 409);
    assert_eq!(AppError::Internal("x".into()).status(), 500);
    assert_eq!(AppError::conflict_status_code(), 409);
    assert_eq!(ApiAppError::NotFound.status(), 404);
    assert_eq!(ApiAppError::Validation("x".into()).error_code(), "validation");
    let conflict = ApiAppError::OptimisticLockConflict {
        entity_type: EntityKind::Sprint,
        entity_id: "s1".into(),
        current_updated_at: Timestamp { secs: 1, nanos: 0 },
    };
    assert_eq!(conflict.status(), 409);
    assert_eq!(conflict.error_code(), "conflict");
}

#[test]
fn wire_values_are_stable() {
    assert_eq!(entity_kind_wire_str(EntityKind::CapacityPeriod), "capacity_period");
    assert_eq!(entity_kind_wire_str(EntityKind::TeamMembership), "team_membership");
    assert_eq!(entity_kind_wire_str(EntityKind::Issue), "issue");
    assert_eq!(indicator_str(DisplayHealthState::Watch), "watch");
}

#[test]
fn a_stale_lock_value_is_a_conflict() {
    let current = Timestamp { secs: 1_790_000_000, nanos: 0 };
    let t = "2026-09-21T14:13:20Z";
    let same = check_optimistic_lock(t, current, EntityKind::Issue, "i1".into(), "unreadable".into());
    assert!(same.is_ok());
    let same_offset = check_optimistic_lock(
        "2026-09-21T16:13:20+02:00",
        current,
        EntityKind::Issue,
        "i1".into(),
        "unreadable".into(),
    );
    assert!(same_offset.is_ok());
    match check_optimistic_lock(
        "2026-09-21T14:13:21Z",
        current,
        EntityKind::Project,
        "p1".into(),
        "unreadable".into(),
    ) {
        Err(AppError::OptimisticLockConflict { entity_type, entity_id, current_updated_at }) => {
            assert_eq!(entity_type, EntityKind::Project);
            assert_eq!(entity_id, "p1");
            assert_eq!(current_updated_at, current);
        }
        _ => panic!("a conflict"),
    }
    match check_optimistic_lock("", current, EntityKind::Issue, "i1".into(), "unreadable".into()) {
        Err(e) => {
            assert_eq!(e.status(), 400);
            assert!(matches!(e, AppError::Validation(m) if m == "unreadable"));
        }
        Ok(()) => panic!("an unreadable value"),
    }
}

#[test]
fn only_the_session_user_may_read_their_data() {
    assert!(require_self("u1", "u1").is_ok());
    assert!(matches!(require_self("u1", "u2"), Err(ApiAppError::Forbidden)));
}

#[test]
fn configuration_defaults_and_the_secure_flag() {
    let c = Config::from_values(None, None, None, None);
    assert_eq!(c.database_url, "sqlite://data/app.db");
    assert_eq!(c.jwt_secret, "dev-only-insecure-change-me");
    assert_eq!(c.bind_addr, "0.0.0.0:3000");
    assert!(!c.cookie_secure);
    let c = Config::from_values(
        Some("postgres://db".into()),
        Some("s3cret".into()),
        Some("127.0.0.1:8080".into()),
        Some("TRUE".into()),
    );
    assert_eq!(c.database_url, "postgres://db");
    assert!(c.cookie_secure);
    assert!(cookie_secure_from(Some("1")));
    assert!(cookie_secure_from(Some("True")));
    assert!(!cookie_secure_from(Some("yes")));
    assert!(!cookie_secure_from(Some("")));
    assert!(!cookie_secure_from(None));
}

#[test]
fn errors_describe_themselves_for_logs() {
    assert_eq!(AppError::Forbidden.describe(), "permission denied");
    assert_eq!(AppError::Validation("x".to_string()).describe(), "validation failed: x");
    assert_eq!(AppError::Conflict("taken".to_string()).describe(), "conflict: taken");
    let stale = AppError::OptimisticLockConflict {
        entity_type: EntityKind::CapacityPeriod,
        entity_id: "c1".to_string(),
        current_updated_at: Timestamp { secs: 0, nanos: 0 },
    };
    assert_eq!(stale.describe(), "stale optimistic lock on CapacityPeriod c1");
    assert_eq!(ApiAppError::Internal("db".to_string()).describe(), "internal error: db");
    assert_eq!(ApiAppError::Unauthorized.describe(), "authentication required");
}
