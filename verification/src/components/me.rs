//! The personal dashboard: its figures, its "what to read first"
//! callout, and its sustainability panel.
use vstd::prelude::*;
use crate::handlers::api_users::{
    with_number, with_number_of, BurnoutSignals, DisplayHealthState, DriftDirection, WatchThresholds,
};
use crate::text::{chars_of, push_all, push_str_chars, signed_decimal, signed_decimal_of, string_of};

verus! {

/// The callout: a title and a sentence.
pub struct ReadFirst {
    pub title: String,
    pub body: String,
}

pub open spec fn overload_callout(streak: int, window: int) -> (Seq<char>, Seq<char>) {
    (
        "You've been over capacity for a while."@,
        with_number("Over capacity for "@, streak, " of the last "@) + signed_decimal(window)
            + " snapshots. A short break or a backlog re-prioritisation often helps here."@,
    )
}

pub open spec fn stalled_callout(days: int) -> (Seq<char>, Seq<char>) {
    (
        "An assigned issue hasn't moved in a while."@,
        with_number(
            "Your oldest in-flight assigned issue has been open for "@,
            days,
            " days. Worth a look — it may be blocked, or worth re-scoping."@,
        ),
    )
}

pub open spec fn wip_callout(wip: int, limit: int) -> (Seq<char>, Seq<char>) {
    (
        "WIP is over your limit."@,
        with_number("You have "@, wip, " issues in progress; your effective limit is "@)
            + signed_decimal(limit)
            + ". Pushing one to Done before starting more keeps focus crisp."@,
    )
}

pub open spec fn stale_callout(count: int) -> (Seq<char>, Seq<char>) {
    (
        "Some long-stale issues are still assigned to you."@,
        signed_decimal(count) + (if count == 1 {
            " issue"@
        } else {
            " issues"@
        }) + " haven't been touched in over two weeks. Closing or re-assigning them clears your queue."@,
    )
}

/// The single most pressing callout, by a strict priority: an overload
/// streak at its watch level, then a stalled issue at its watch level,
/// then WIP over the limit (strictly over), then any long-stale issue;
/// none when nothing applies. `burnout` is `(streak, window, stalled
/// days)`.
pub open spec fn read_first_of(
    wip: int,
    limit: int,
    stale: int,
    burnout: Option<(int, int, int)>,
    w: WatchThresholds,
) -> Option<(Seq<char>, Seq<char>)> {
    let from_burnout = match burnout {
        Some(b) => if b.0 >= w.overload_streak_days {
            Some(overload_callout(b.0, b.1))
        } else if b.2 >= w.stalled_days {
            Some(stalled_callout(b.2))
        } else {
            None
        },
        None => None,
    };
    match from_burnout {
        Some(c) => Some(c),
        None => if wip > limit {
            Some(wip_callout(wip, limit))
        } else if stale >= 1 {
            Some(stale_callout(stale))
        } else {
            None
        },
    }
}

/// The callout follows its priority over all inputs: an overload streak
/// that reaches its watch level (at the level, not only above it) always
/// wins; then a stalled issue at its watch level; then WIP strictly over
/// the limit; then any long-stale issue; and nothing is shown when none
/// of these holds.
pub proof fn law_read_first_priority(
    wip: int,
    limit: int,
    stale: int,
    burnout: Option<(int, int, int)>,
    w: WatchThresholds,
)
    ensures
        (burnout matches Some(b) && b.0 >= w.overload_streak_days) ==> (read_first_of(
            wip,
            limit,
            stale,
            burnout,
            w,
        ) matches Some(c) && c.0 == "You've been over capacity for a while."@),
        (burnout matches Some(b) && b.0 < w.overload_streak_days && b.2 >= w.stalled_days) ==> (
        read_first_of(wip, limit, stale, burnout, w) matches Some(c) && c.0
            == "An assigned issue hasn't moved in a while."@),
        (!burnout_fires(burnout, w) && wip > limit) ==> (read_first_of(
            wip,
            limit,
            stale,
            burnout,
            w,
        ) matches Some(c) && c.0 == "WIP is over your limit."@),
        (!burnout_fires(burnout, w) && wip <= limit && stale >= 1) ==> (read_first_of(
            wip,
            limit,
            stale,
            burnout,
            w,
        ) matches Some(c) && c.0 == "Some long-stale issues are still assigned to you."@),
        (!burnout_fires(burnout, w) && wip <= limit && stale < 1) ==> read_first_of(
            wip,
            limit,
            stale,
            burnout,
            w,
        ) is None,
{
}

/// Whether the burnout signals reach either watch level.
pub open spec fn burnout_fires(burnout: Option<(int, int, int)>, w: WatchThresholds) -> bool {
    burnout matches Some(b) && (b.0 >= w.overload_streak_days || b.2 >= w.stalled_days)
}

fn callout(title: &str, body: Vec<char>) -> (r: ReadFirst)
    ensures
        r.title@ == title@,
        r.body@ == body@,
{
    ReadFirst { title: string_of(&chars_of(title)), body: string_of(&body) }
}

/// The "what to read first" callout of the personal dashboard.
pub fn compute_read_first(
    current_wip: i64,
    effective_wip_limit: i64,
    long_stale_count: i64,
    burnout: Option<&BurnoutSignals>,
    watch: WatchThresholds,
) -> (r: Option<ReadFirst>)
    ensures
        match r {
            Some(c) => read_first_of(
                current_wip as int,
                effective_wip_limit as int,
                long_stale_count as int,
                match burnout {
                    Some(b) => Some(
                        (
                            b.overload_streak_days as int,
                            b.window_days as int,
                            b.stalled_assigned_max_days as int,
                        ),
                    ),
                    None => None,
                },
                watch,
            ) == Some((c.title@, c.body@)),
            None => read_first_of(
                current_wip as int,
                effective_wip_limit as int,
                long_stale_count as int,
                match burnout {
                    Some(b) => Some(
                        (
                            b.overload_streak_days as int,
                            b.window_days as int,
                            b.stalled_assigned_max_days as int,
                        ),
                    ),
                    None => None,
                },
                watch,
            ) is None,
        },
{
    if let Some(b) = burnout {
        if b.overload_streak_days >= watch.overload_streak_days {
            let mut body = with_number_of("Over capacity for ", b.overload_streak_days, " of the last ");
            let w = signed_decimal_of(b.window_days);
            push_all(&mut body, &w);
            push_str_chars(
                &mut body,
                " snapshots. A short break or a backlog re-prioritisation often helps here.",
            );
            return Some(callout("You've been over capacity for a while.", body));
        }
        if b.stalled_assigned_max_days >= watch.stalled_days {
            let body = with_number_of(
                "Your oldest in-flight assigned issue has been open for ",
                b.stalled_assigned_max_days,
                " days. Worth a look — it may be blocked, or worth re-scoping.",
            );
            return Some(callout("An assigned issue hasn't moved in a while.", body));
        }
    }
    if current_wip > effective_wip_limit {
        let mut body = with_number_of(
            "You have ",
            current_wip,
            " issues in progress; your effective limit is ",
        );
        let l = signed_decimal_of(effective_wip_limit);
        push_all(&mut body, &l);
        push_str_chars(&mut body, ". Pushing one to Done before starting more keeps focus crisp.");
        return Some(callout("WIP is over your limit.", body));
    }
    if long_stale_count >= 1 {
        let mut body = signed_decimal_of(long_stale_count);
        if long_stale_count == 1 {
            push_str_chars(&mut body, " issue");
        } else {
            push_str_chars(&mut body, " issues");
        }
        push_str_chars(
            &mut body,
            " haven't been touched in over two weeks. Closing or re-assigning them clears your queue.",
        );
        return Some(callout("Some long-stale issues are still assigned to you.", body));
    }
    None
}

/// What the dashboard reads of a user's personal metrics.
pub struct PersonalFigures {
    pub current_wip: i64,
    pub effective_wip_limit: i64,
    pub in_flight_points: i64,
    pub capacity_points: Option<i64>,
    pub recent_done_count: i64,
    pub long_stale_count: i64,
}

/// The dashboard's "right now" and rhythm figures as shown.
pub struct DashboardFigures {
    pub wip_value: String,
    pub wip_aria_label: String,
    pub load_text: String,
    /// Today's capacity comes from a row with a period.
    pub load_period_hint: bool,
    pub throughput_text: String,
    pub stale_text: String,
    pub stale_aria_label: String,
    /// Any current WIP, in-flight points or recently done work.
    pub user_is_active: bool,
}

pub open spec fn load_text_of(in_flight: int, capacity: Option<i64>) -> Seq<char> {
    match capacity {
        Some(cap) => with_number(""@, in_flight, " / "@) + signed_decimal(cap as int) + " pt"@,
        None => with_number(""@, in_flight, " pt · no limit"@),
    }
}

/// The figures of the dashboard; `wip_word` and `stale_word` name the
/// health states of the WIP and long-stale chips, and
/// `activity_window_days` is the span the throughput counts.
pub fn dashboard_figures(
    m: &PersonalFigures,
    capacity_is_period_bounded: bool,
    activity_window_days: i64,
    wip_word: &str,
    stale_word: &str,
) -> (r: DashboardFigures)
    ensures
        r.wip_value@ == with_number(""@, m.current_wip as int, " / "@) + signed_decimal(
            m.effective_wip_limit as int,
        ),
        r.wip_aria_label@ == with_number("WIP: "@, m.current_wip as int, " of "@) + signed_decimal(
            m.effective_wip_limit as int,
        ) + " ("@ + wip_word@ + ")."@,
        r.load_text@ == load_text_of(m.in_flight_points as int, m.capacity_points),
        r.load_period_hint == (capacity_is_period_bounded && m.capacity_points is Some),
        r.throughput_text@ == with_number(""@, m.recent_done_count as int, " done in last "@)
            + signed_decimal(activity_window_days as int) + "d"@,
        r.stale_text@ == signed_decimal(m.long_stale_count as int),
        r.stale_aria_label@ == with_number(
            "Long-stale assigned issues: "@,
            m.long_stale_count as int,
            " ("@,
        ) + stale_word@ + ")."@,
        r.user_is_active == (m.current_wip > 0 || m.in_flight_points > 0 || m.recent_done_count > 0),
{
    let mut wip_value = with_number_of("", m.current_wip, " / ");
    let limit = signed_decimal_of(m.effective_wip_limit);
    push_all(&mut wip_value, &limit);

    let mut wip_aria = with_number_of("WIP: ", m.current_wip, " of ");
    push_all(&mut wip_aria, &limit);
    push_str_chars(&mut wip_aria, " (");
    push_str_chars(&mut wip_aria, wip_word);
    push_str_chars(&mut wip_aria, ").");

    let load = match m.capacity_points {
        Some(cap) => {
            let mut t = with_number_of("", m.in_flight_points, " / ");
            let c = signed_decimal_of(cap);
            push_all(&mut t, &c);
            push_str_chars(&mut t, " pt");
            t
        },
        None => with_number_of("", m.in_flight_points, " pt · no limit"),
    };

    let mut throughput = with_number_of("", m.recent_done_count, " done in last ");
    let w = signed_decimal_of(activity_window_days);
    push_all(&mut throughput, &w);
    push_str_chars(&mut throughput, "d");

    let stale = signed_decimal_of(m.long_stale_count);
    let mut stale_aria = with_number_of("Long-stale assigned issues: ", m.long_stale_count, " (");
    push_str_chars(&mut stale_aria, stale_word);
    push_str_chars(&mut stale_aria, ").");

    DashboardFigures {
        wip_value: string_of(&wip_value),
        wip_aria_label: string_of(&wip_aria),
        load_text: string_of(&load),
        load_period_hint: capacity_is_period_bounded && m.capacity_points.is_some(),
        throughput_text: string_of(&throughput),
        stale_text: string_of(&stale),
        stale_aria_label: string_of(&stale_aria),
        user_is_active: m.current_wip > 0 || m.in_flight_points > 0 || m.recent_done_count > 0,
    }
}

/// How a sustainability chip looks in a state: the badge classes, the
/// glyph and the word; good and insufficient data look the same.
pub open spec fn chip_style_of(state: DisplayHealthState) -> (Seq<char>, Seq<char>, Seq<char>) {
    match state {
        DisplayHealthState::Watch => ("badge badge-sm badge-warning"@, "⚠"@, "watch"@),
        _ => ("badge badge-sm badge-ghost"@, "·"@, "steady"@),
    }
}

pub fn chip_style(state: DisplayHealthState) -> (r: (&'static str, &'static str, &'static str))
    ensures
        (r.0@, r.1@, r.2@) == chip_style_of(state),
{
    match state {
        DisplayHealthState::Watch => ("badge badge-sm badge-warning", "⚠", "watch"),
        _ => ("badge badge-sm badge-ghost", "·", "steady"),
    }
}

/// The glyph, the label and the trend words of the estimation drift chip.
pub open spec fn drift_words_of(d: DriftDirection) -> (Seq<char>, Seq<char>, Seq<char>) {
    match d {
        DriftDirection::Up => ("↑"@, "longer per point"@, "trending up"@),
        DriftDirection::Down => ("↓"@, "shorter per point"@, "trending down"@),
        DriftDirection::Steady => ("→"@, "steady"@, "roughly steady"@),
    }
}

pub fn drift_words(d: DriftDirection) -> (r: (&'static str, &'static str, &'static str))
    ensures
        (r.0@, r.1@, r.2@) == drift_words_of(d),
{
    match d {
        DriftDirection::Up => ("↑", "longer per point", "trending up"),
        DriftDirection::Down => ("↓", "shorter per point", "trending down"),
        DriftDirection::Steady => ("→", "steady", "roughly steady"),
    }
}

/// The sustainability panel's streak figures.
pub struct BurnoutPanel {
    /// Either streak is above zero; the streak chips show only then.
    pub has_streaks: bool,
    /// Either streak chip is at watch.
    pub any_watch: bool,
    pub overload_value: String,
    pub overload_aria_label: String,
    pub stalled_value: String,
    pub stalled_aria_label: String,
}

/// The panel shows unless there is nothing to reflect on: no streak, no
/// drift or switching pattern, and no active work.
pub open spec fn panel_shown(s: BurnoutSignals, user_is_active: bool) -> bool {
    s.overload_streak_days > 0 || s.stalled_assigned_max_days > 0 || s.drift is Some
        || s.switches_per_day_median is Some || user_is_active
}

/// The sustainability panel of a snapshot, with the states of its two
/// streak chips; `None` where the panel stays hidden.
pub fn burnout_panel(
    s: &BurnoutSignals,
    overload: DisplayHealthState,
    stalled: DisplayHealthState,
    user_is_active: bool,
) -> (r: Option<BurnoutPanel>)
    ensures
        r is Some <==> panel_shown(*s, user_is_active),
        r matches Some(p) ==> {
            &&& p.has_streaks == (s.overload_streak_days > 0 || s.stalled_assigned_max_days > 0)
            &&& p.any_watch == (overload == DisplayHealthState::Watch || stalled
                == DisplayHealthState::Watch)
            &&& p.overload_value@ == with_number(""@, s.overload_streak_days as int, " of last "@)
                + signed_decimal(s.window_days as int)
            &&& p.stalled_value@ == with_number(""@, s.stalled_assigned_max_days as int, " d"@)
            &&& p.overload_aria_label@ == with_number(
                "Overload streak: "@,
                s.overload_streak_days as int,
                " consecutive snapshots over capacity ("@,
            ) + chip_style_of(overload).2 + ")."@
            &&& p.stalled_aria_label@ == with_number(
                "Oldest stalled assigned issue: "@,
                s.stalled_assigned_max_days as int,
                " days ("@,
            ) + chip_style_of(stalled).2 + ")."@
        },
{
    let has_streaks = s.overload_streak_days > 0 || s.stalled_assigned_max_days > 0;
    let has_patterns = s.drift.is_some() || s.switches_per_day_median.is_some();
    if !has_streaks && !has_patterns && !user_is_active {
        return None;
    }
    let (_, _, overload_word) = chip_style(overload);
    let (_, _, stalled_word) = chip_style(stalled);

    let mut overload_value = with_number_of("", s.overload_streak_days, " of last ");
    let w = signed_decimal_of(s.window_days);
    push_all(&mut overload_value, &w);
    let stalled_value = with_number_of("", s.stalled_assigned_max_days, " d");

    let mut overload_aria = with_number_of(
        "Overload streak: ",
        s.overload_streak_days,
        " consecutive snapshots over capacity (",
    );
    push_str_chars(&mut overload_aria, overload_word);
    push_str_chars(&mut overload_aria, ").");
    let mut stalled_aria = with_number_of(
        "Oldest stalled assigned issue: ",
        s.stalled_assigned_max_days,
        " days (",
    );
    push_str_chars(&mut stalled_aria, stalled_word);
    push_str_chars(&mut stalled_aria, ").");

    let any_watch = match overload {
        DisplayHealthState::Watch => true,
        _ => match stalled {
            DisplayHealthState::Watch => true,
            _ => false,
        },
    };
    Some(
        BurnoutPanel {
            has_streaks,
            any_watch,
            overload_value: string_of(&overload_value),
            overload_aria_label: string_of(&overload_aria),
            stalled_value: string_of(&stalled_value),
            stalled_aria_label: string_of(&stalled_aria),
        },
    )
}

} // verus!
