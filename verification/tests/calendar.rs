use peisear_web::components::calendar::time_label;
use peisear_web::components::{CalendarDay, CalendarView};
use peisear_web::error::Timestamp;
use peisear_web::handlers::calendar::{
    anchor_or, bucket_by_day, calendar_frame, first_of_month, last_of_month, next_anchor, parse_anchor,
    prev_anchor, week_start, window_days, window_utc, PlannedSpan, MAX_DAY, MIN_DAY,
};

// Day numbers: 1 January of year 1 is day 1.
const FEB_1_2024: i32 = 738917;
const FEB_12_2024: i32 = 738928; // a Monday
const FEB_15_2024: i32 = 738931; // a Thursday
const FEB_18_2024: i32 = 738934; // a Sunday
const FEB_29_2024: i32 = 738945;
const JAN_31_2024: i32 = 738916;
const MAR_1_2024: i32 = 738946;
const EPOCH: i32 = 719163;

fn at(secs: i64) -> Option<Timestamp> {
    Some(Timestamp { secs, nanos: 0 })
}

fn blocks(days: &[CalendarDay]) -> Vec<(i32, Vec<usize>)> {
    days.iter().map(|d| (d.date, d.blocks.clone())).collect()
}

#[test]
fn the_anchor_is_the_named_date_or_today() {
    assert_eq!(parse_anchor(Some("2024-02-15")), FEB_15_2024);
    assert_eq!(parse_anchor(Some("1970-01-01")), EPOCH);
    assert_eq!(parse_anchor(Some("0001-01-01")), 1);
    let today = parse_anchor(None);
    assert!(MIN_DAY <= today && today <= MAX_DAY);
    assert_eq!(parse_anchor(Some("2024-02-30")), today);
    assert_eq!(parse_anchor(Some("yesterday")), today);
}

#[test]
fn weeks_start_on_monday() {
    assert_eq!(week_start(FEB_15_2024), FEB_12_2024);
    assert_eq!(week_start(FEB_12_2024), FEB_12_2024);
    assert_eq!(week_start(FEB_18_2024), FEB_12_2024);
    // 1 January of year 1 was a Monday.
    assert_eq!(week_start(7), 1);
}

#[test]
fn months_run_from_the_first_to_the_day_before_the_next_first() {
    assert_eq!(first_of_month(FEB_15_2024), FEB_1_2024);
    assert_eq!(last_of_month(FEB_15_2024), FEB_29_2024);
    assert_eq!(last_of_month(JAN_31_2024), JAN_31_2024);
    // December rolls into the next year.
    assert_eq!(first_of_month(738870), 738855);
    assert_eq!(last_of_month(738870), 738885);
}

#[test]
fn each_view_shows_a_window_around_the_anchor() {
    assert_eq!(window_days(CalendarView::Day, FEB_15_2024), (FEB_15_2024, FEB_15_2024));
    assert_eq!(window_days(CalendarView::Week, FEB_15_2024), (FEB_12_2024, FEB_18_2024));
    assert_eq!(window_days(CalendarView::Month, FEB_15_2024), (FEB_1_2024, FEB_29_2024));
}

#[test]
fn the_links_move_by_the_view_span() {
    assert_eq!(prev_anchor(CalendarView::Day, FEB_15_2024), FEB_15_2024 - 1);
    assert_eq!(next_anchor(CalendarView::Day, FEB_15_2024), FEB_15_2024 + 1);
    assert_eq!(prev_anchor(CalendarView::Week, FEB_15_2024), FEB_15_2024 - 7);
    assert_eq!(next_anchor(CalendarView::Week, FEB_15_2024), FEB_15_2024 + 7);
    assert_eq!(prev_anchor(CalendarView::Month, FEB_15_2024), JAN_31_2024);
    assert_eq!(next_anchor(CalendarView::Month, FEB_15_2024), MAR_1_2024);
}

#[test]
fn the_query_runs_from_midnight_to_the_last_second() {
    let (from, to) = window_utc(CalendarView::Week, FEB_15_2024);
    assert_eq!(from, Timestamp { secs: 1707696000, nanos: 0 });
    assert_eq!(to, Timestamp { secs: 1708300799, nanos: 0 });
}

#[test]
fn the_frame_gathers_window_query_and_links() {
    let f = calendar_frame(CalendarView::Month, FEB_15_2024).unwrap();
    assert_eq!((f.first, f.last, f.prev, f.next), (FEB_1_2024, FEB_29_2024, JAN_31_2024, MAR_1_2024));
    assert_eq!(f.from.secs, (FEB_1_2024 - EPOCH) as i64 * 86400);
    assert_eq!(f.to.secs, (FEB_29_2024 - EPOCH) as i64 * 86400 + 86399);
}

#[test]
fn the_frame_is_refused_at_the_edges_of_the_calendar() {
    assert!(calendar_frame(CalendarView::Day, MIN_DAY).is_none());
    assert!(calendar_frame(CalendarView::Day, MAX_DAY).is_none());
    assert!(calendar_frame(CalendarView::Week, MAX_DAY - 3).is_none());
    assert!(calendar_frame(CalendarView::Month, MAX_DAY - 3).is_none());
    assert!(calendar_frame(CalendarView::Month, MIN_DAY + 3).is_none());
    assert!(calendar_frame(CalendarView::Day, MIN_DAY + 1).is_some());
}

#[test]
fn blocks_land_on_every_day_they_overlap_in_start_order() {
    let spans = vec![
        // 15 Feb 10:00 to 16 Feb 09:00
        PlannedSpan { start: at(1707991200), end: at(1708074000) },
        // never scheduled
        PlannedSpan { start: None, end: None },
        // 14 Feb 23:00, no end: its start day only
        PlannedSpan { start: at(1707951600), end: None },
        // 15 Feb 10:00 again, no end: after the first one
        PlannedSpan { start: at(1707991200), end: None },
        // 13 Feb 00:00 to 15 Feb 00:00
        PlannedSpan { start: at(1707782400), end: at(1707955200) },
    ];
    let days = bucket_by_day(&spans, FEB_12_2024, FEB_18_2024);
    assert_eq!(
        blocks(&days),
        vec![
            (FEB_12_2024, vec![]),
            (FEB_12_2024 + 1, vec![4]),
            (FEB_12_2024 + 2, vec![4, 2]),
            (FEB_12_2024 + 3, vec![4, 0, 3]),
            (FEB_12_2024 + 4, vec![0]),
            (FEB_12_2024 + 5, vec![]),
            (FEB_12_2024 + 6, vec![]),
        ]
    );
}

#[test]
fn an_instant_before_the_epoch_belongs_to_the_day_before() {
    let spans = vec![PlannedSpan { start: at(-1), end: None }];
    let days = bucket_by_day(&spans, EPOCH - 1, EPOCH);
    assert_eq!(blocks(&days), vec![(EPOCH - 1, vec![0]), (EPOCH, vec![])]);
}

#[test]
fn an_empty_window_has_no_days() {
    let spans = vec![PlannedSpan { start: at(0), end: None }];
    assert!(bucket_by_day(&spans, EPOCH + 1, EPOCH).is_empty());
}

#[test]
fn a_block_shows_its_utc_start_and_end() {
    assert_eq!(time_label(at(1707991200), at(1708074000)), "10:00–09:00");
    assert_eq!(time_label(at(1707991200 + 5 * 60 + 59), None), "10:05");
    assert_eq!(time_label(None, at(0)), "");
    assert_eq!(time_label(at(-1), None), "23:59");
    // A leap second keeps its minute.
    let leap = Some(Timestamp { secs: 1483228799, nanos: 1_500_000_000 });
    assert_eq!(time_label(leap, None), "23:59");
}

#[test]
fn the_first_and_last_days_chrono_holds_are_the_range_ends() {
    assert_eq!(parse_anchor(Some("-262143-01-01")), MIN_DAY);
    assert_eq!(parse_anchor(Some("+262142-12-31")), MAX_DAY);
    assert_eq!(first_of_month(MIN_DAY + 3), MIN_DAY);
    assert_eq!(last_of_month(MAX_DAY - 40), MAX_DAY - 31);
}

#[test]
fn without_a_named_date_the_anchor_is_the_given_today() {
    assert_eq!(anchor_or(None, FEB_1_2024), FEB_1_2024);
    assert_eq!(anchor_or(Some("not a date"), FEB_1_2024), FEB_1_2024);
    assert_eq!(anchor_or(Some("2024-02-15"), FEB_1_2024), FEB_15_2024);
}
