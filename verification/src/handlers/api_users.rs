//! The `/api/users/{user_id}/…` endpoints: self-access only, and the JSON
//! shapes they answer with.
use vstd::prelude::*;
use crate::error::ApiAppError;
use crate::text::{chars_of, push_all, push_str_chars, signed_decimal, signed_decimal_of, string_of};

verus! {

/// The burnout endpoint's answer.
pub struct BurnoutResponse {
    pub user_id: String,
    pub indicator: String,
    pub signals: Vec<BurnoutSignal>,
    pub computed_at: String,
}

/// One burnout signal: a stable code clients switch on, and a label.
pub struct BurnoutSignal {
    pub code: String,
    pub label: String,
}

/// The capacity endpoint's answer.
pub struct CapacityResponse {
    pub user_id: String,
    /// The points that apply today; `None` when no row covers today.
    pub effective_today: Option<i64>,
    pub rows: Vec<CapacityPeriod>,
}

/// One capacity row; dates are `YYYY-MM-DD`, `None` for open-ended.
pub struct CapacityPeriod {
    pub id: String,
    pub points: i64,
    pub period_start: Option<String>,
    pub period_end: Option<String>,
    pub note: Option<String>,
    pub updated_at: String,
}

/// The notifications endpoint's answer.
pub struct NotificationsResponse {
    pub user_id: String,
    pub unread_count: i64,
    pub items: Vec<NotificationItem>,
}

/// One notification; `read_at` is `None` while unread.
pub struct NotificationItem {
    pub id: String,
    pub kind: String,
    pub severity: String,
    pub title: String,
    pub body: String,
    pub created_at: String,
    pub read_at: Option<String>,
}

/// The self-access boundary: `Forbidden` unless the path names the
/// session's own user.
pub fn require_self(session_user_id: &str, path_user_id: &str) -> (r: Result<(), ApiAppError>)
    ensures
        r is Ok <==> session_user_id@ == path_user_id@,
        r is Err ==> r->Err_0 is Forbidden,
{
    let a = crate::text::chars_of(session_user_id);
    let b = crate::text::chars_of(path_user_id);
    if !crate::text::eq_chars(&a, &b) {
        return Err(ApiAppError::Forbidden);
    }
    Ok(())
}

/// The health states the burnout indicator can show.
#[derive(Debug, Clone, Copy, PartialEq, Eq, Structural)]
pub enum DisplayHealthState {
    Insufficient,
    Good,
    Watch,
}

/// The indicator's wire value.
pub open spec fn indicator_text(i: DisplayHealthState) -> Seq<char> {
    match i {
        DisplayHealthState::Insufficient => "insufficient"@,
        DisplayHealthState::Good => "good"@,
        DisplayHealthState::Watch => "watch"@,
    }
}

/// The indicator's wire value.
pub fn indicator_str(i: DisplayHealthState) -> (r: &'static str)
    ensures
        r@ == indicator_text(i),
{
    match i {
        DisplayHealthState::Insufficient => "insufficient",
        DisplayHealthState::Good => "good",
        DisplayHealthState::Watch => "watch",
    }
}

/// Which way the recent dwell time per point moves against the older
/// one.
#[derive(Debug, Clone, Copy, PartialEq, Eq, Structural)]
pub enum DriftDirection {
    Up,
    Down,
    Steady,
}

/// What the burnout signals read of a user's snapshot.
pub struct BurnoutSignals {
    /// Snapshots in a row over capacity.
    pub overload_streak_days: i64,
    /// Snapshots looked at.
    pub window_days: i64,
    /// Age in days of the oldest in-flight assigned issue.
    pub stalled_assigned_max_days: i64,
    /// The estimation drift, where there is one.
    pub drift: Option<DriftDirection>,
    /// The median number of issues switched between per active day,
    /// written with one decimal, where there is one.
    pub switches_per_day_median: Option<String>,
}

/// The levels at which the streak and the stall are worth attention.
#[derive(Debug, Clone, Copy)]
pub struct WatchThresholds {
    pub overload_streak_days: i64,
    pub stalled_days: i64,
}

/// `a`, the number `n`, then `b`.
pub open spec fn with_number(a: Seq<char>, n: int, b: Seq<char>) -> Seq<char> {
    a + signed_decimal(n) + b
}

pub fn with_number_of(a: &str, n: i64, b: &str) -> (r: Vec<char>)
    ensures
        r@ == with_number(a@, n as int, b@),
{
    let mut m = chars_of(a);
    let d = signed_decimal_of(n);
    push_all(&mut m, &d);
    push_str_chars(&mut m, b);
    m
}

/// The rows of the burnout answer, as `(code, label)`: only the signals
/// that fired, in a fixed order.
pub open spec fn signal_rows(
    overload: int,
    window: int,
    stalled: int,
    drift: Option<DriftDirection>,
    switching: Option<Seq<char>>,
    w: WatchThresholds,
) -> Seq<(Seq<char>, Seq<char>)> {
    let a = if overload >= w.overload_streak_days {
        seq![
            (
                "overload_streak"@,
                with_number("Over capacity for "@, overload, " of the last "@) + signed_decimal(
                    window,
                ) + " snapshots."@,
            ),
        ]
    } else {
        Seq::empty()
    };
    let b = if stalled >= w.stalled_days {
        seq![
            (
                "stalled_assigned"@,
                with_number(
                    "Oldest in-flight assigned issue hasn't moved in "@,
                    stalled,
                    " days."@,
                ),
            ),
        ]
    } else {
        Seq::empty()
    };
    let c = match drift {
        Some(DriftDirection::Up) => seq![
            (
                "estimation_drift"@,
                "Recent issues are taking longer per point than older ones."@,
            ),
        ],
        Some(DriftDirection::Down) => seq![
            (
                "estimation_drift"@,
                "Recent issues are completing faster per point than older ones."@,
            ),
        ],
        _ => Seq::empty(),
    };
    let d = match switching {
        Some(m) => seq![
            (
                "cognitive_switching"@,
                "Switching between "@ + m + " issues per active day on average."@,
            ),
        ],
        None => Seq::empty(),
    };
    a + b + c + d
}

/// The text of an optional string.
pub open spec fn text_opt(o: Option<String>) -> Option<Seq<char>> {
    match o {
        Some(m) => Some(m@),
        None => None,
    }
}

pub open spec fn signal_view(s: BurnoutSignal) -> (Seq<char>, Seq<char>) {
    (s.code@, s.label@)
}

fn push_signal(list: &mut Vec<BurnoutSignal>, code: &str, label: Vec<char>)
    ensures
        final(list)@.len() == old(list)@.len() + 1,
        forall|k: int| 0 <= k < old(list)@.len() ==> final(list)@[k] == old(list)@[k],
        signal_view(final(list)@[old(list)@.len() as int]) == (code@, label@),
{
    let s = BurnoutSignal { code: string_of(&chars_of(code)), label: string_of(&label) };
    list.push(s);
}

/// The signals that fired, in the answer's order: the overload streak,
/// the stalled issue, a moving estimation drift, the switching rate.
pub fn burnout_signals(s: &BurnoutSignals, watch: WatchThresholds) -> (r: Vec<BurnoutSignal>)
    ensures
        r@.map_values(|x: BurnoutSignal| signal_view(x)) == signal_rows(
            s.overload_streak_days as int,
            s.window_days as int,
            s.stalled_assigned_max_days as int,
            s.drift,
            text_opt(s.switches_per_day_median),
            watch,
        ),
{
    let mut list: Vec<BurnoutSignal> = Vec::new();
    let ghost rows = signal_rows(
        s.overload_streak_days as int,
        s.window_days as int,
        s.stalled_assigned_max_days as int,
        s.drift,
        text_opt(s.switches_per_day_median),
        watch,
    );
    if s.overload_streak_days >= watch.overload_streak_days {
        let mut label = with_number_of("Over capacity for ", s.overload_streak_days, " of the last ");
        let w = signed_decimal_of(s.window_days);
        push_all(&mut label, &w);
        push_str_chars(&mut label, " snapshots.");
        push_signal(&mut list, "overload_streak", label);
    }
    if s.stalled_assigned_max_days >= watch.stalled_days {
        let label = with_number_of(
            "Oldest in-flight assigned issue hasn't moved in ",
            s.stalled_assigned_max_days,
            " days.",
        );
        push_signal(&mut list, "stalled_assigned", label);
    }
    match s.drift {
        Some(DriftDirection::Up) => {
            push_signal(
                &mut list,
                "estimation_drift",
                chars_of("Recent issues are taking longer per point than older ones."),
            );
        },
        Some(DriftDirection::Down) => {
            push_signal(
                &mut list,
                "estimation_drift",
                chars_of("Recent issues are completing faster per point than older ones."),
            );
        },
        _ => {},
    }
    match &s.switches_per_day_median {
        Some(m) => {
            let mut label = chars_of("Switching between ");
            push_str_chars(&mut label, m.as_str());
            push_str_chars(&mut label, " issues per active day on average.");
            push_signal(&mut list, "cognitive_switching", label);
        },
        None => {},
    }
    assert(list@.map_values(|x: BurnoutSignal| signal_view(x)) =~= rows);
    list
}

/// The burnout answer: the user, the indicator's wire value, the signals
/// that fired, and when it was computed.
pub fn burnout_response(
    user_id: String,
    s: &BurnoutSignals,
    watch: WatchThresholds,
    indicator: DisplayHealthState,
    computed_at: String,
) -> (r: BurnoutResponse)
    ensures
        r.user_id == user_id,
        r.indicator@ == indicator_text(indicator),
        r.signals@.map_values(|x: BurnoutSignal| signal_view(x)) == signal_rows(
            s.overload_streak_days as int,
            s.window_days as int,
            s.stalled_assigned_max_days as int,
            s.drift,
            text_opt(s.switches_per_day_median),
            watch,
        ),
        r.computed_at == computed_at,
{
    let signals = burnout_signals(s, watch);
    BurnoutResponse {
        user_id,
        indicator: string_of(&chars_of(indicator_str(indicator))),
        signals,
        computed_at,
    }
}

} // verus!
