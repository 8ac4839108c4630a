use peisear_web::components::breadcrumb::{back_link_aria, breadcrumb_trail, BreadcrumbItem};
use peisear_web::components::me::{
    burnout_panel, chip_style, compute_read_first, dashboard_figures, drift_words, PersonalFigures,
};
use peisear_web::jobs::{snapshot_flags, SnapshotFlags};
use peisear_web::handlers::api_users::{
    burnout_response, burnout_signals, BurnoutSignals, DisplayHealthState, DriftDirection,
    WatchThresholds,
};

const WATCH: WatchThresholds = WatchThresholds { overload_streak_days: 3, stalled_days: 14 };

fn snapshot(streak: i64, stalled: i64) -> BurnoutSignals {
    BurnoutSignals {
        overload_streak_days: streak,
        window_days: 14,
        stalled_assigned_max_days: stalled,
        drift: None,
        switches_per_day_median: None,
    }
}

fn read_first(
    wip: i64,
    limit: i64,
    stale: i64,
    burnout: Option<&BurnoutSignals>,
) -> Option<(String, String)> {
    compute_read_first(wip, limit, stale, burnout, WATCH).map(|c| (c.title, c.body))
}

#[test]
fn nothing_pressing_means_no_callout() {
    assert_eq!(read_first(2, 3, 0, None), None);
    assert_eq!(read_first(3, 3, 0, Some(&snapshot(2, 13))), None);
}

#[test]
fn an_overload_streak_comes_first() {
    let (title, body) = read_first(9, 3, 4, Some(&snapshot(5, 30))).unwrap();
    assert_eq!(title, "You've been over capacity for a while.");
    assert_eq!(
        body,
        "Over capacity for 5 of the last 14 snapshots. A short break or a backlog \
         re-prioritisation often helps here."
    );
}

#[test]
fn a_stalled_issue_comes_before_wip() {
    let (title, body) = read_first(9, 3, 4, Some(&snapshot(2, 21))).unwrap();
    assert_eq!(title, "An assigned issue hasn't moved in a while.");
    assert_eq!(
        body,
        "Your oldest in-flight assigned issue has been open for 21 days. Worth a look — it may \
         be blocked, or worth re-scoping."
    );
}

#[test]
fn wip_strictly_over_the_limit_comes_before_stale_issues() {
    let (title, body) = read_first(4, 3, 2, None).unwrap();
    assert_eq!(title, "WIP is over your limit.");
    assert_eq!(
        body,
        "You have 4 issues in progress; your effective limit is 3. Pushing one to Done before \
         starting more keeps focus crisp."
    );
}

#[test]
fn stale_issues_are_counted_in_words() {
    let (title, body) = read_first(3, 3, 1, None).unwrap();
    assert_eq!(title, "Some long-stale issues are still assigned to you.");
    assert_eq!(
        body,
        "1 issue haven't been touched in over two weeks. Closing or re-assigning them clears \
         your queue."
    );
    let (_, body) = read_first(0, 3, 2, None).unwrap();
    assert!(body.starts_with("2 issues haven't"));
}

#[test]
fn only_the_signals_that_fired_are_listed_in_order() {
    let mut s = snapshot(3, 14);
    s.drift = Some(DriftDirection::Down);
    s.switches_per_day_median = Some("2.5".to_string());
    let rows: Vec<(String, String)> =
        burnout_signals(&s, WATCH).into_iter().map(|x| (x.code, x.label)).collect();
    assert_eq!(
        rows,
        vec![
            (
                "overload_streak".to_string(),
                "Over capacity for 3 of the last 14 snapshots.".to_string()
            ),
            (
                "stalled_assigned".to_string(),
                "Oldest in-flight assigned issue hasn't moved in 14 days.".to_string()
            ),
            (
                "estimation_drift".to_string(),
                "Recent issues are completing faster per point than older ones.".to_string()
            ),
            (
                "cognitive_switching".to_string(),
                "Switching between 2.5 issues per active day on average.".to_string()
            ),
        ]
    );
}

#[test]
fn a_steady_drift_and_quiet_signals_list_nothing() {
    let mut s = snapshot(2, -1);
    s.drift = Some(DriftDirection::Steady);
    assert!(burnout_signals(&s, WATCH).is_empty());
    s.drift = Some(DriftDirection::Up);
    let rows = burnout_signals(&s, WATCH);
    assert_eq!(rows.len(), 1);
    assert_eq!(rows[0].label, "Recent issues are taking longer per point than older ones.");
}

#[test]
fn the_burnout_answer_carries_the_indicator_wire_value() {
    let r = burnout_response(
        "u1".to_string(),
        &snapshot(0, 0),
        WATCH,
        DisplayHealthState::Watch,
        "2026-01-01T00:00:00+00:00".to_string(),
    );
    assert_eq!(r.user_id, "u1");
    assert_eq!(r.indicator, "watch");
    assert!(r.signals.is_empty());
    assert_eq!(r.computed_at, "2026-01-01T00:00:00+00:00");
}

#[test]
fn breadcrumb_nodes_link_ancestors_only() {
    let a = BreadcrumbItem::link("Projects", "/projects");
    assert_eq!(a.label, "Projects");
    assert_eq!(a.href.as_deref(), Some("/projects"));
    let c = BreadcrumbItem::current("Settings");
    assert_eq!(c.label, "Settings");
    assert!(c.href.is_none());
}

#[test]
fn a_snapshot_flags_only_strict_excess() {
    assert_eq!(
        snapshot_flags(3, 3, 10, Some(10)),
        SnapshotFlags { over_capacity: false, over_wip_limit: false }
    );
    assert_eq!(
        snapshot_flags(4, 3, 11, Some(10)),
        SnapshotFlags { over_capacity: true, over_wip_limit: true }
    );
    assert_eq!(
        snapshot_flags(0, 3, 500, None),
        SnapshotFlags { over_capacity: false, over_wip_limit: false }
    );
}

#[test]
fn the_dashboard_figures_read_as_shown() {
    let m = PersonalFigures {
        current_wip: 4,
        effective_wip_limit: 3,
        in_flight_points: 13,
        capacity_points: Some(20),
        recent_done_count: 7,
        long_stale_count: 2,
    };
    let f = dashboard_figures(&m, true, 28, "watch", "good");
    assert_eq!(f.wip_value, "4 / 3");
    assert_eq!(f.wip_aria_label, "WIP: 4 of 3 (watch).");
    assert_eq!(f.load_text, "13 / 20 pt");
    assert!(f.load_period_hint);
    assert_eq!(f.throughput_text, "7 done in last 28d");
    assert_eq!(f.stale_text, "2");
    assert_eq!(f.stale_aria_label, "Long-stale assigned issues: 2 (good).");
    assert!(f.user_is_active);
}

#[test]
fn no_capacity_means_no_limit_and_no_period_hint() {
    let m = PersonalFigures {
        current_wip: 0,
        effective_wip_limit: 3,
        in_flight_points: 0,
        capacity_points: None,
        recent_done_count: 0,
        long_stale_count: 0,
    };
    let f = dashboard_figures(&m, true, 28, "good", "good");
    assert_eq!(f.load_text, "0 pt · no limit");
    assert!(!f.load_period_hint);
    assert!(!f.user_is_active);
}

#[test]
fn watch_chips_stand_out_and_the_rest_look_steady() {
    assert_eq!(chip_style(DisplayHealthState::Watch), ("badge badge-sm badge-warning", "⚠", "watch"));
    assert_eq!(chip_style(DisplayHealthState::Good), ("badge badge-sm badge-ghost", "·", "steady"));
    assert_eq!(chip_style(DisplayHealthState::Insufficient), chip_style(DisplayHealthState::Good));
    assert_eq!(drift_words(DriftDirection::Up), ("↑", "longer per point", "trending up"));
    assert_eq!(drift_words(DriftDirection::Steady), ("→", "steady", "roughly steady"));
}

#[test]
fn the_panel_hides_only_when_there_is_nothing_to_reflect_on() {
    let quiet = snapshot(0, 0);
    assert!(burnout_panel(&quiet, DisplayHealthState::Good, DisplayHealthState::Good, false).is_none());
    let p = burnout_panel(&quiet, DisplayHealthState::Good, DisplayHealthState::Good, true).unwrap();
    assert!(!p.has_streaks);
    assert!(!p.any_watch);

    let p = burnout_panel(&snapshot(4, 9), DisplayHealthState::Watch, DisplayHealthState::Good, false)
        .unwrap();
    assert!(p.has_streaks);
    assert!(p.any_watch);
    assert_eq!(p.overload_value, "4 of last 14");
    assert_eq!(p.stalled_value, "9 d");
    assert_eq!(p.overload_aria_label, "Overload streak: 4 consecutive snapshots over capacity (watch).");
    assert_eq!(p.stalled_aria_label, "Oldest stalled assigned issue: 9 days (steady).");
}

#[test]
fn every_trail_starts_at_today() {
    let trail = breadcrumb_trail(vec![
        BreadcrumbItem::link("Projects", "/projects"),
        BreadcrumbItem::current("Settings"),
    ]);
    assert_eq!(trail.len(), 3);
    assert_eq!(trail[0].label, "Today");
    assert_eq!(trail[0].href.as_deref(), Some("/today"));
    assert_eq!(trail[1].label, "Projects");
    assert_eq!(trail[1].href.as_deref(), Some("/projects"));
    assert_eq!(trail[2].label, "Settings");
    assert_eq!(trail[2].href, None);
    let bare = breadcrumb_trail(Vec::new());
    assert_eq!(bare.len(), 1);
    assert_eq!(bare[0].label, "Today");
}

#[test]
fn the_back_link_names_its_parent() {
    assert_eq!(back_link_aria("Sprints"), "Back to Sprints");
    assert_eq!(back_link_aria(""), "Back to ");
}
