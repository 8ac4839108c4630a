//! The application's error envelopes and their HTTP status codes.
//!
//! `AppError` is what the HTML handlers return; `ApiAppError` is its JSON
//! sibling for `/api/*`, with the same variants but for `Conflict`. Both
//! map each variant to a fixed status, and the two mappings agree on every
//! variant they share.
use vstd::prelude::*;
use crate::text::{chars_of, push_str_chars, string_of};

verus! {

/// The closed set of entity kinds an optimistic-lock conflict can name.
#[derive(Debug, Clone, Copy, PartialEq, Eq, Structural)]
pub enum EntityKind {
    Issue,
    Project,
    Sprint,
    Team,
    CapacityPeriod,
    TeamMembership,
}

/// An instant: whole seconds since the Unix epoch and the nanoseconds
/// past them.
#[derive(Debug, Clone, Copy, PartialEq, Eq, Structural)]
pub struct Timestamp {
    pub secs: i64,
    pub nanos: u32,
}

/// The HTML-side application error.
pub enum AppError {
    Unauthorized,
    Forbidden,
    NotFound,
    Validation(String),
    Conflict(String),
    /// The client edited an entity whose `updated_at` has moved on since
    /// the page was rendered; carries the entity's current value.
    OptimisticLockConflict { entity_type: EntityKind, entity_id: String, current_updated_at: Timestamp },
    Internal(String),
}

/// The JSON-side application error for `/api/*` endpoints.
pub enum ApiAppError {
    Unauthorized,
    Forbidden,
    NotFound,
    Validation(String),
    OptimisticLockConflict { entity_type: EntityKind, entity_id: String, current_updated_at: Timestamp },
    Internal(String),
}

/// The status of each `AppError` variant.
pub open spec fn app_status(e: AppError) -> u16 {
    match e {
        AppError::Unauthorized => 401,
        AppError::Forbidden => 403,
        AppError::NotFound => 404,
        AppError::Validation(_) => 400,
        AppError::Conflict(_) => 409,
        AppError::OptimisticLockConflict { .. } => 409,
        AppError::Internal(_) => 500,
    }
}

/// The status of each `ApiAppError` variant.
pub open spec fn api_status(e: ApiAppError) -> u16 {
    match e {
        ApiAppError::Unauthorized => 401,
        ApiAppError::Forbidden => 403,
        ApiAppError::NotFound => 404,
        ApiAppError::Validation(_) => 400,
        ApiAppError::OptimisticLockConflict { .. } => 409,
        ApiAppError::Internal(_) => 500,
    }
}

/// The `ApiAppError` variant that corresponds to an `AppError` one, when
/// there is one (`Conflict` has none).
pub open spec fn api_counterpart(e: AppError) -> Option<ApiAppError> {
    match e {
        AppError::Unauthorized => Some(ApiAppError::Unauthorized),
        AppError::Forbidden => Some(ApiAppError::Forbidden),
        AppError::NotFound => Some(ApiAppError::NotFound),
        AppError::Validation(m) => Some(ApiAppError::Validation(m)),
        AppError::Conflict(_) => None,
        AppError::OptimisticLockConflict { entity_type, entity_id, current_updated_at } => Some(
            ApiAppError::OptimisticLockConflict { entity_type, entity_id, current_updated_at },
        ),
        AppError::Internal(m) => Some(ApiAppError::Internal(m)),
    }
}

/// How `Debug` writes an entity kind: its variant's name.
pub open spec fn entity_debug(e: EntityKind) -> Seq<char> {
    match e {
        EntityKind::Issue => "Issue"@,
        EntityKind::Project => "Project"@,
        EntityKind::Sprint => "Sprint"@,
        EntityKind::Team => "Team"@,
        EntityKind::CapacityPeriod => "CapacityPeriod"@,
        EntityKind::TeamMembership => "TeamMembership"@,
    }
}

fn entity_debug_str(e: EntityKind) -> (r: &'static str)
    ensures
        r@ == entity_debug(e),
{
    match e {
        EntityKind::Issue => "Issue",
        EntityKind::Project => "Project",
        EntityKind::Sprint => "Sprint",
        EntityKind::Team => "Team",
        EntityKind::CapacityPeriod => "CapacityPeriod",
        EntityKind::TeamMembership => "TeamMembership",
    }
}

/// The developer-facing description of an optimistic-lock conflict.
pub open spec fn stale_lock_text(entity_type: EntityKind, entity_id: Seq<char>) -> Seq<char> {
    "stale optimistic lock on "@ + entity_debug(entity_type) + " "@ + entity_id
}

fn stale_lock_string(entity_type: EntityKind, entity_id: &String) -> (r: String)
    ensures
        r@ == stale_lock_text(entity_type, entity_id@),
{
    let mut m = chars_of("stale optimistic lock on ");
    push_str_chars(&mut m, entity_debug_str(entity_type));
    push_str_chars(&mut m, " ");
    push_str_chars(&mut m, entity_id.as_str());
    string_of(&m)
}

fn prefixed(prefix: &str, msg: &String) -> (r: String)
    ensures
        r@ == prefix@ + msg@,
{
    let mut m = chars_of(prefix);
    push_str_chars(&mut m, msg.as_str());
    string_of(&m)
}

/// The developer-facing description of an `AppError`, for logs: a fixed
/// phrase, with the message or the entity where the variant has one.
pub open spec fn app_text(e: AppError) -> Seq<char> {
    match e {
        AppError::Unauthorized => "authentication required"@,
        AppError::Forbidden => "permission denied"@,
        AppError::NotFound => "resource not found"@,
        AppError::Validation(m) => "validation failed: "@ + m@,
        AppError::Conflict(m) => "conflict: "@ + m@,
        AppError::OptimisticLockConflict { entity_type, entity_id, .. } => stale_lock_text(
            entity_type,
            entity_id@,
        ),
        AppError::Internal(m) => "internal error: "@ + m@,
    }
}

/// The developer-facing description of an `ApiAppError`.
pub open spec fn api_text(e: ApiAppError) -> Seq<char> {
    match e {
        ApiAppError::Unauthorized => "authentication required"@,
        ApiAppError::Forbidden => "permission denied"@,
        ApiAppError::NotFound => "resource not found"@,
        ApiAppError::Validation(m) => "validation failed: "@ + m@,
        ApiAppError::OptimisticLockConflict { entity_type, entity_id, .. } => stale_lock_text(
            entity_type,
            entity_id@,
        ),
        ApiAppError::Internal(m) => "internal error: "@ + m@,
    }
}

impl AppError {
    /// The error's description, as its `Display` writes it.
    pub fn describe(&self) -> (r: String)
        ensures
            r@ == app_text(*self),
    {
        match self {
            AppError::Unauthorized => string_of(&chars_of("authentication required")),
            AppError::Forbidden => string_of(&chars_of("permission denied")),
            AppError::NotFound => string_of(&chars_of("resource not found")),
            AppError::Validation(m) => prefixed("validation failed: ", m),
            AppError::Conflict(m) => prefixed("conflict: ", m),
            AppError::OptimisticLockConflict { entity_type, entity_id, .. } => stale_lock_string(
                *entity_type,
                entity_id,
            ),
            AppError::Internal(m) => prefixed("internal error: ", m),
        }
    }
}

impl ApiAppError {
    /// The error's description, as its `Display` writes it.
    pub fn describe(&self) -> (r: String)
        ensures
            r@ == api_text(*self),
    {
        match self {
            ApiAppError::Unauthorized => string_of(&chars_of("authentication required")),
            ApiAppError::Forbidden => string_of(&chars_of("permission denied")),
            ApiAppError::NotFound => string_of(&chars_of("resource not found")),
            ApiAppError::Validation(m) => prefixed("validation failed: ", m),
            ApiAppError::OptimisticLockConflict { entity_type, entity_id, .. } => stale_lock_string(
                *entity_type,
                entity_id,
            ),
            ApiAppError::Internal(m) => prefixed("internal error: ", m),
        }
    }
}

impl AppError {
    /// The HTTP status code of the error.
    pub fn status(&self) -> (r: u16)
        ensures
            r == app_status(*self),
    {
        match self {
            AppError::Unauthorized => 401,
            AppError::Forbidden => 403,
            AppError::NotFound => 404,
            AppError::Validation(_) => 400,
            AppError::Conflict(_) => 409,
            AppError::OptimisticLockConflict { .. } => 409,
            AppError::Internal(_) => 500,
        }
    }

    /// The status an optimistic-lock conflict produces, read off a real
    /// conflict value rather than written out a second time.
    pub fn conflict_status_code() -> (r: u16)
        ensures
            r == 409,
    {
        let e = AppError::OptimisticLockConflict {
            entity_type: EntityKind::Issue,
            entity_id: String::new(),
            current_updated_at: Timestamp { secs: 0, nanos: 0 },
        };
        e.status()
    }
}

impl ApiAppError {
    /// The HTTP status code of the error.
    pub fn status(&self) -> (r: u16)
        ensures
            r == api_status(*self),
    {
        match self {
            ApiAppError::Unauthorized => 401,
            ApiAppError::Forbidden => 403,
            ApiAppError::NotFound => 404,
            ApiAppError::Validation(_) => 400,
            ApiAppError::OptimisticLockConflict { .. } => 409,
            ApiAppError::Internal(_) => 500,
        }
    }

    /// The stable `error` keyword of the JSON body, which clients switch
    /// on.
    pub fn error_code(&self) -> (r: &'static str)
        ensures
            r@ == api_error_code(*self),
    {
        match self {
            ApiAppError::Unauthorized => "unauthorized",
            ApiAppError::Forbidden => "forbidden",
            ApiAppError::NotFound => "not_found",
            ApiAppError::Validation(_) => "validation",
            ApiAppError::OptimisticLockConflict { .. } => "conflict",
            ApiAppError::Internal(_) => "internal",
        }
    }
}

/// The `error` keyword of each `ApiAppError` variant.
pub open spec fn api_error_code(e: ApiAppError) -> Seq<char> {
    match e {
        ApiAppError::Unauthorized => "unauthorized"@,
        ApiAppError::Forbidden => "forbidden"@,
        ApiAppError::NotFound => "not_found"@,
        ApiAppError::Validation(_) => "validation"@,
        ApiAppError::OptimisticLockConflict { .. } => "conflict"@,
        ApiAppError::Internal(_) => "internal"@,
    }
}

/// The two error types give the same status for every variant they
/// share: the status a request gets does not depend on whether it went
/// through the HTML or the JSON envelope.
pub proof fn lemma_statuses_agree(e: AppError)
    ensures
        match api_counterpart(e) {
            Some(a) => api_status(a) == app_status(e),
            None => app_status(e) == 409,
        },
{
}

/// The wire value of the `entity_type` JSON field, a stable identifier.
pub open spec fn wire_str(entity: EntityKind) -> Seq<char> {
    match entity {
        EntityKind::Issue => "issue"@,
        EntityKind::Project => "project"@,
        EntityKind::Sprint => "sprint"@,
        EntityKind::Team => "team"@,
        EntityKind::CapacityPeriod => "capacity_period"@,
        EntityKind::TeamMembership => "team_membership"@,
    }
}

/// The `entity_type` JSON field's wire value.
pub fn entity_kind_wire_str(entity: EntityKind) -> (r: &'static str)
    ensures
        r@ == wire_str(entity),
{
    match entity {
        EntityKind::Issue => "issue",
        EntityKind::Project => "project",
        EntityKind::Sprint => "sprint",
        EntityKind::Team => "team",
        EntityKind::CapacityPeriod => "capacity_period",
        EntityKind::TeamMembership => "team_membership",
    }
}

/// The distinct kinds have distinct wire values, so a client can tell
/// them apart.
pub proof fn lemma_wire_str_injective(a: EntityKind, b: EntityKind)
    ensures
        wire_str(a) == wire_str(b) ==> a == b,
{
    reveal_strlit("issue");
    reveal_strlit("project");
    reveal_strlit("sprint");
    reveal_strlit("team");
    reveal_strlit("capacity_period");
    reveal_strlit("team_membership");
    if wire_str(a) == wire_str(b) && a != b {
        assert(wire_str(a).len() != wire_str(b).len() || exists|k: int|
            0 <= k < wire_str(a).len() && wire_str(a)[k] != wire_str(b)[k]) by {
            match a {
                EntityKind::Issue => assert(wire_str(a)[0] == 'i'),
                EntityKind::Project => assert(wire_str(a)[0] == 'p'),
                EntityKind::Sprint => assert(wire_str(a)[1] == 'p'),
                EntityKind::Team => assert(wire_str(a).len() == 4),
                EntityKind::CapacityPeriod => assert(wire_str(a)[0] == 'c'),
                EntityKind::TeamMembership => assert(wire_str(a).len() == 15),
            }
            match b {
                EntityKind::Issue => assert(wire_str(b)[0] == 'i'),
                EntityKind::Project => assert(wire_str(b)[0] == 'p'),
                EntityKind::Sprint => assert(wire_str(b)[1] == 'p'),
                EntityKind::Team => assert(wire_str(b).len() == 4),
                EntityKind::CapacityPeriod => assert(wire_str(b)[0] == 'c'),
                EntityKind::TeamMembership => assert(wire_str(b).len() == 15),
            }
        }
    }
}

// ---------------------------------------------------------------------
// Optimistic locking
// ---------------------------------------------------------------------

/// The instant `chrono::DateTime::parse_from_rfc3339` reads from a text,
/// as `(seconds, nanoseconds)` since the epoch in UTC; `None` when it
/// rejects the text.
pub uninterp spec fn rfc3339_instant(s: Seq<char>) -> Option<(i64, u32)>;

/// `chrono::DateTime::parse_from_rfc3339`, claimed to return the named
/// instant of the text and nothing more.
#[verifier::external_body]
fn parse_rfc3339(s: &str) -> (r: Option<(i64, u32)>)
    ensures
        r == rfc3339_instant(s@),
{
    match chrono::DateTime::parse_from_rfc3339(s) {
        Ok(d) => Some((d.timestamp(), d.timestamp_subsec_nanos())),
        Err(_) => None,
    }
}

/// What the lock check gives: nothing when the client's instant is the
/// current one, a conflict naming the entity and carrying its current
/// `updated_at` when it differs, and a
/// validation error with `unreadable` when the client's value could not
/// be read.
pub open spec fn lock_verdict(
    parsed: Option<(i64, u32)>,
    current: Timestamp,
    entity_type: EntityKind,
    entity_id: Seq<char>,
    unreadable: Seq<char>,
) -> Result<(), (u16, Option<(EntityKind, Timestamp)>, Seq<char>)> {
    match parsed {
        None => Err((400, None, unreadable)),
        Some(t) => if t.0 == current.secs && t.1 == current.nanos {
            Ok(())
        } else {
            Err((409, Some((entity_type, current)), entity_id))
        },
    }
}

/// The shape of an error for stating the lock check: its status, the
/// entity kind and current `updated_at` of a conflict, and the conflict's
/// entity id or the validation message.
pub open spec fn error_shape(e: AppError) -> (u16, Option<(EntityKind, Timestamp)>, Seq<char>) {
    match e {
        AppError::OptimisticLockConflict { entity_type, entity_id, current_updated_at } => (
            409,
            Some((entity_type, current_updated_at)),
            entity_id@,
        ),
        AppError::Validation(m) => (400, None, m@),
        _ => (app_status(e), None, Seq::empty()),
    }
}

pub open spec fn result_shape(r: Result<(), AppError>) -> Result<(), (u16, Option<(EntityKind, Timestamp)>, Seq<char>)> {
    match r {
        Ok(()) => Ok(()),
        Err(e) => Err(error_shape(e)),
    }
}

/// The lock check on an already-parsed client instant.
pub fn lock_outcome(
    parsed: Option<(i64, u32)>,
    current_updated_at: Timestamp,
    entity_type: EntityKind,
    entity_id: String,
    unreadable: String,
) -> (r: Result<(), AppError>)
    ensures
        result_shape(r) == lock_verdict(parsed, current_updated_at, entity_type, entity_id@, unreadable@),
{
    match parsed {
        None => Err(AppError::Validation(unreadable)),
        Some((secs, nanos)) => {
            if secs == current_updated_at.secs && nanos == current_updated_at.nanos {
                Ok(())
            } else {
                Err(AppError::OptimisticLockConflict { entity_type, entity_id, current_updated_at })
            }
        },
    }
}

/// Verify that a client-supplied RFC 3339 `client_updated_at` names the
/// entity's current `updated_at`: a conflict when it does not, a
/// validation error carrying `unreadable` when it cannot be read.
pub fn check_optimistic_lock(
    client_updated_at_str: &str,
    current_updated_at: Timestamp,
    entity_type: EntityKind,
    entity_id: String,
    unreadable: String,
) -> (r: Result<(), AppError>)
    ensures
        result_shape(r) == lock_verdict(
            rfc3339_instant(client_updated_at_str@),
            current_updated_at,
            entity_type,
            entity_id@,
            unreadable@,
        ),
{
    let parsed = parse_rfc3339(client_updated_at_str);
    lock_outcome(parsed, current_updated_at, entity_type, entity_id, unreadable)
}

} // verus!
