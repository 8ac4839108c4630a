//! The calendar pages: the query, the visible window of days, the
//! anchors of the previous and next links, and the days' blocks.
//!
//! A day is its `chrono` day number: 1 January of year 1 is day 1.
use vstd::prelude::*;
use crate::components::{CalendarDay, CalendarView};
use crate::error::Timestamp;
use crate::handlers::settings::{parse_ymd, ymd_date};

verus! {

/// `?view=…&date=…` of the calendar pages.
pub struct CalendarQuery {
    pub view: Option<String>,
    pub date: Option<String>,
}

/// `day` and `month` select those views; anything else, or nothing, the
/// week view.
pub open spec fn view_of(raw: Option<Seq<char>>) -> CalendarView {
    match raw {
        Some(s) => if s == "day"@ {
            CalendarView::Day
        } else if s == "month"@ {
            CalendarView::Month
        } else {
            CalendarView::Week
        },
        None => CalendarView::Week,
    }
}

/// The view a `?view=` value selects.
pub fn parse_view(raw: Option<&str>) -> (r: CalendarView)
    ensures
        r == view_of(
            match raw {
                Some(s) => Some(s@),
                None => None,
            },
        ),
{
    match raw {
        None => CalendarView::Week,
        Some(s) => {
            let cs = crate::text::chars_of(s);
            let day = crate::text::chars_of("day");
            let month = crate::text::chars_of("month");
            if crate::text::eq_chars(&cs, &day) {
                CalendarView::Day
            } else if crate::text::eq_chars(&cs, &month) {
                CalendarView::Month
            } else {
                CalendarView::Week
            }
        },
    }
}

// ---------------------------------------------------------------------
// Days
// ---------------------------------------------------------------------

/// The first year `chrono` can hold.
pub const MIN_YEAR: i32 = -262143;

/// The last year `chrono` can hold.
pub const MAX_YEAR: i32 = 262142;

/// The day number of 1 January of `MIN_YEAR`, the first day `chrono` can
/// hold.
pub const MIN_DAY: i32 = -95746129;

/// The day number of 31 December of `MAX_YEAR`, the last day `chrono` can
/// hold.
pub const MAX_DAY: i32 = 95745399;

/// A day `chrono` can hold.
pub open spec fn in_range(n: int) -> bool {
    MIN_DAY <= n <= MAX_DAY
}

/// The date of day number `n` as `(year, month, day)`:
/// `chrono::NaiveDate::from_num_days_from_ce_opt` read back through
/// `Datelike`.
pub uninterp spec fn date_of_day(n: i32) -> Option<(i32, u32, u32)>;

/// The day number of a date: `chrono::NaiveDate::from_ymd_opt` numbered
/// by `Datelike::num_days_from_ce`; `None` for a date `chrono` refuses.
pub uninterp spec fn day_of_date(y: i32, m: u32, d: u32) -> Option<i32>;

/// The month after month `m` of year `y`.
pub open spec fn following_month(y: i32, m: u32) -> (i32, u32) {
    if m == 12 {
        ((y + 1) as i32, 1u32)
    } else {
        (y, (m + 1) as u32)
    }
}

/// `NaiveDate::from_num_days_from_ce_opt` and the date's year, month and
/// day. Claimed, as chrono documents day numbers (consecutive days have
/// consecutive numbers): the date exists exactly for the days of
/// `MIN_DAY..=MAX_DAY`; its year lies in chrono's range, its month in
/// 1 to 12 and its day in 1 to 31; numbering it again gives `n`; the first
/// of its month is `day - 1` days earlier; and the first of the following
/// month, where chrono holds it, is later.
#[verifier::external_body]
fn date_of(n: i32) -> (r: Option<(i32, u32, u32)>)
    ensures
        r == date_of_day(n),
        r is Some <==> in_range(n as int),
        r matches Some(t) ==> {
            &&& MIN_YEAR <= t.0 <= MAX_YEAR
            &&& 1 <= t.1 <= 12
            &&& 1 <= t.2 <= 31
            &&& day_of_date(t.0, t.1, t.2) == Some(n)
            &&& day_of_date(t.0, t.1, 1u32) == Some((n - t.2 + 1) as i32)
            &&& (day_of_date(following_month(t.0, t.1).0, following_month(t.0, t.1).1, 1u32) matches Some(
                f,
            ) ==> n < f)
        },
{
    match chrono::NaiveDate::from_num_days_from_ce_opt(n) {
        Some(d) => Some(
            (chrono::Datelike::year(&d), chrono::Datelike::month(&d), chrono::Datelike::day(&d)),
        ),
        None => None,
    }
}

/// `NaiveDate::from_ymd_opt` numbered by `Datelike::num_days_from_ce`.
/// Claimed: the number is the named one; a date it numbers is a day of
/// chrono's range whose date reads back as `(y, m, d)`; and the first of
/// any month of chrono's years exists.
#[verifier::external_body]
fn day_number(y: i32, m: u32, d: u32) -> (r: Option<i32>)
    ensures
        r == day_of_date(y, m, d),
        r matches Some(n) ==> in_range(n as int) && date_of_day(n) == Some((y, m, d)),
        MIN_YEAR <= y <= MAX_YEAR && 1 <= m <= 12 && d == 1 ==> r is Some,
{
    match chrono::NaiveDate::from_ymd_opt(y, m, d) {
        Some(date) => Some(chrono::Datelike::num_days_from_ce(&date)),
        None => None,
    }
}

/// How many days day `n` lies after the Monday of its week: day 1,
/// 1 January of year 1, is a Monday, and weekdays repeat every seven days.
pub open spec fn monday_offset(n: int) -> int {
    (n + 6) % 7
}

/// `Datelike::weekday` of the date of day `n`, counted by
/// `Weekday::num_days_from_monday`; claimed to be `monday_offset(n)`.
#[verifier::external_body]
fn days_from_monday(n: i32) -> (r: u32)
    requires
        in_range(n as int),
    ensures
        r as int == monday_offset(n as int),
{
    chrono::Datelike::weekday(&chrono::NaiveDate::from_num_days_from_ce_opt(n).unwrap()).num_days_from_monday()
}

/// Today's date in UTC by the clock (`chrono::Utc::now`), as a day
/// number; any day chrono can hold.
#[verifier::external_body]
fn today() -> (r: i32)
    ensures
        in_range(r as int),
{
    chrono::Datelike::num_days_from_ce(&chrono::Utc::now().date_naive())
}

/// The day a `?date=` value names: its `YYYY-MM-DD` date, if chrono reads
/// one and numbers it.
pub open spec fn named_day(raw: Option<Seq<char>>) -> Option<i32> {
    match raw {
        Some(s) => match ymd_date(s) {
            Some(t) => day_of_date(t.0, t.1, t.2),
            None => None,
        },
        None => None,
    }
}

/// The day a `?date=` value names, where it names one.
fn named_anchor(raw: Option<&str>) -> (r: Option<i32>)
    ensures
        r == named_day(
            match raw {
                Some(s) => Some(s@),
                None => None,
            },
        ),
        r matches Some(n) ==> in_range(n as int),
{
    match raw {
        Some(s) => match parse_ymd(s) {
            Some((y, m, d)) => day_number(y, m, d),
            None => None,
        },
        None => None,
    }
}

/// The anchor day given today's: the day `?date=` names, else `today`.
pub fn anchor_or(raw: Option<&str>, today: i32) -> (r: i32)
    requires
        in_range(today as int),
    ensures
        in_range(r as int),
        r == match named_day(
            match raw {
                Some(s) => Some(s@),
                None => None,
            },
        ) {
            Some(n) => n,
            None => today,
        },
{
    match named_anchor(raw) {
        Some(n) => n,
        None => today,
    }
}

/// The page's anchor day: the day `?date=` names, else today by the
/// clock (read only when needed).
pub fn parse_anchor(raw: Option<&str>) -> (r: i32)
    ensures
        in_range(r as int),
        named_day(
            match raw {
                Some(s) => Some(s@),
                None => None,
            },
        ) matches Some(n) ==> r == n,
{
    match named_anchor(raw) {
        Some(n) => n,
        None => {
            let t = today();
            anchor_or(raw, t)
        },
    }
}

/// The Monday of day `n`'s week.
pub open spec fn week_start_of(n: int) -> int {
    n - monday_offset(n)
}

/// The Monday of the anchor's week.
pub fn week_start(d: i32) -> (r: i32)
    requires
        in_range(d as int),
        in_range(week_start_of(d as int)),
    ensures
        r == week_start_of(d as int),
{
    let w = days_from_monday(d);
    d - w as i32
}

/// The first day of day `n`'s month.
pub open spec fn first_of_month_of(n: i32) -> Option<i32> {
    match date_of_day(n) {
        Some(t) => day_of_date(t.0, t.1, 1u32),
        None => None,
    }
}

/// The last day of day `n`'s month: the day before the first of the
/// following month.
pub open spec fn last_of_month_of(n: i32) -> Option<int> {
    match date_of_day(n) {
        Some(t) => match day_of_date(following_month(t.0, t.1).0, following_month(t.0, t.1).1, 1u32) {
            Some(f) => Some(f - 1),
            None => None,
        },
        None => None,
    }
}

/// The first day of the anchor's month.
pub fn first_of_month(d: i32) -> (r: i32)
    requires
        in_range(d as int),
    ensures
        first_of_month_of(d) == Some(r),
        in_range(r as int),
        r <= d,
        date_of_day(d) matches Some(t) && r == d - t.2 + 1,
{
    let (y, m, _) = date_of(d).unwrap();
    day_number(y, m, 1).unwrap()
}

/// The last day of the anchor's month.
pub fn last_of_month(d: i32) -> (r: i32)
    requires
        in_range(d as int),
        last_of_month_of(d) is Some,
    ensures
        last_of_month_of(d) == Some(r as int),
        in_range(r as int + 1),
        d <= r,
        first_of_month_of((r + 1) as i32) == Some((r + 1) as i32),
{
    let (y, m, _) = date_of(d).unwrap();
    let (ny, nm) = if m == 12 {
        (y + 1, 1)
    } else {
        (y, m + 1)
    };
    day_number(ny, nm, 1).unwrap() - 1
}

/// The first and last day of the window a view shows around an anchor:
/// the day itself, its Monday-to-Sunday week, or its month.
pub open spec fn window_of(view: CalendarView, n: i32) -> Option<(int, int)> {
    match view {
        CalendarView::Day => Some((n as int, n as int)),
        CalendarView::Week => {
            let s = week_start_of(n as int);
            if in_range(s) && in_range(s + 6) {
                Some((s, s + 6))
            } else {
                None
            }
        },
        CalendarView::Month => match (first_of_month_of(n), last_of_month_of(n)) {
            (Some(f), Some(l)) => Some((f as int, l)),
            _ => None,
        },
    }
}

/// The visible window's first and last day, inclusive. It holds the
/// anchor; a week's window is seven days from a Monday.
pub fn window_days(view: CalendarView, anchor: i32) -> (r: (i32, i32))
    requires
        in_range(anchor as int),
        window_of(view, anchor) is Some,
    ensures
        window_of(view, anchor) == Some((r.0 as int, r.1 as int)),
        r.0 <= anchor <= r.1,
        in_range(r.0 as int) && in_range(r.1 as int),
        view == CalendarView::Week ==> r.1 == r.0 + 6 && monday_offset(r.0 as int) == 0,
{
    match view {
        CalendarView::Day => (anchor, anchor),
        CalendarView::Week => {
            let s = week_start(anchor);
            (s, s + 6)
        },
        CalendarView::Month => (first_of_month(anchor), last_of_month(anchor)),
    }
}

/// The anchor of the "previous" link: a day, a week, or the last day of
/// the month before, back.
pub open spec fn prev_of(view: CalendarView, n: i32) -> Option<int> {
    let p = match view {
        CalendarView::Day => Some(n - 1),
        CalendarView::Week => Some(n - 7),
        CalendarView::Month => match first_of_month_of(n) {
            Some(f) => Some(f - 1),
            None => None,
        },
    };
    match p {
        Some(d) => if in_range(d) {
            Some(d)
        } else {
            None
        },
        None => None,
    }
}

/// The anchor of the "next" link: a day, a week, or the first day of the
/// month after, on.
pub open spec fn next_of(view: CalendarView, n: i32) -> Option<int> {
    let p = match view {
        CalendarView::Day => Some(n + 1),
        CalendarView::Week => Some(n + 7),
        CalendarView::Month => match last_of_month_of(n) {
            Some(l) => Some(l + 1),
            None => None,
        },
    };
    match p {
        Some(d) => if in_range(d) {
            Some(d)
        } else {
            None
        },
        None => None,
    }
}

/// The anchor `?date=` carries on the "previous" link.
pub fn prev_anchor(view: CalendarView, anchor: i32) -> (r: i32)
    requires
        in_range(anchor as int),
        prev_of(view, anchor) is Some,
    ensures
        prev_of(view, anchor) == Some(r as int),
        view != CalendarView::Month ==> (window_of(view, anchor) matches Some(w) ==> (window_of(
            view,
            r,
        ) matches Some(v) ==> v.1 == w.0 - 1)),
{
    match view {
        CalendarView::Day => anchor - 1,
        CalendarView::Week => anchor - 7,
        CalendarView::Month => first_of_month(anchor) - 1,
    }
}

/// The anchor `?date=` carries on the "next" link.
pub fn next_anchor(view: CalendarView, anchor: i32) -> (r: i32)
    requires
        in_range(anchor as int),
        next_of(view, anchor) is Some,
    ensures
        next_of(view, anchor) == Some(r as int),
        window_of(view, anchor) matches Some(w) ==> (window_of(view, r) matches Some(v) ==> v.0
            == w.1 + 1),
{
    match view {
        CalendarView::Day => anchor + 1,
        CalendarView::Week => anchor + 7,
        CalendarView::Month => last_of_month(anchor) + 1,
    }
}

/// The day number of 1 January 1970, the Unix epoch's day.
pub const EPOCH_DAY: i32 = 719163;

/// The seconds since the epoch at which day `n` begins (00:00:00 UTC).
pub open spec fn day_start_secs(n: int) -> int {
    (n - EPOCH_DAY) * 86400
}

/// The instants that bound the window's query: 00:00:00 UTC of its first
/// day and 23:59:59 UTC of its last.
pub fn window_utc(view: CalendarView, anchor: i32) -> (r: (Timestamp, Timestamp))
    requires
        in_range(anchor as int),
        window_of(view, anchor) is Some,
    ensures
        r.0.secs == day_start_secs(window_of(view, anchor).unwrap().0),
        r.1.secs == day_start_secs(window_of(view, anchor).unwrap().1) + 86399,
        r.0.nanos == 0 && r.1.nanos == 0,
{
    let (first, last) = window_days(view, anchor);
    let from = (first as i64 - EPOCH_DAY as i64) * 86400;
    let to = (last as i64 - EPOCH_DAY as i64) * 86400 + 86399;
    (Timestamp { secs: from, nanos: 0 }, Timestamp { secs: to, nanos: 0 })
}

/// What a calendar page needs of its view and anchor: the window, the
/// instants that bound its query, and the anchors of its links.
pub struct CalendarFrame {
    pub first: i32,
    pub last: i32,
    pub from: Timestamp,
    pub to: Timestamp,
    pub prev: i32,
    pub next: i32,
}

/// The frame of a view around an anchor; `None` where a day it needs lies
/// outside chrono's range, where the pages fail.
pub fn calendar_frame(view: CalendarView, anchor: i32) -> (r: Option<CalendarFrame>)
    requires
        in_range(anchor as int),
    ensures
        r is Some <==> (window_of(view, anchor) is Some && prev_of(view, anchor) is Some && next_of(
            view,
            anchor,
        ) is Some),
        r matches Some(f) ==> {
            &&& window_of(view, anchor) == Some((f.first as int, f.last as int))
            &&& prev_of(view, anchor) == Some(f.prev as int)
            &&& next_of(view, anchor) == Some(f.next as int)
            &&& f.from == Timestamp { secs: day_start_secs(f.first as int) as i64, nanos: 0 }
            &&& f.to == Timestamp { secs: (day_start_secs(f.last as int) + 86399) as i64, nanos: 0 }
            &&& f.prev < f.first <= anchor <= f.last < f.next
        },
{
    let ok = match view {
        CalendarView::Day => MIN_DAY < anchor && anchor < MAX_DAY,
        CalendarView::Week => MIN_DAY + 7 <= anchor && anchor <= MAX_DAY - 7,
        CalendarView::Month => {
            let (y, m, _) = date_of(anchor).unwrap();
            let (ny, nm) = if m == 12 {
                (y + 1, 1)
            } else {
                (y, m + 1)
            };
            match day_number(ny, nm, 1) {
                Some(_) => MIN_DAY < first_of_month(anchor),
                None => false,
            }
        },
    };
    if !ok {
        return None;
    }
    let (first, last) = window_days(view, anchor);
    let (from, to) = window_utc(view, anchor);
    let prev = prev_anchor(view, anchor);
    let next = next_anchor(view, anchor);
    Some(CalendarFrame { first, last, from, to, prev, next })
}

// ---------------------------------------------------------------------
// Blocks
// ---------------------------------------------------------------------

/// What the calendar reads of a planned issue: its planned start and end.
#[derive(Clone, Copy)]
pub struct PlannedSpan {
    pub start: Option<Timestamp>,
    pub end: Option<Timestamp>,
}

/// The UTC day of the instant `secs` seconds after the epoch.
pub open spec fn utc_day(secs: int) -> int {
    secs / 86400 + EPOCH_DAY
}

/// Start `a` comes before start `b`: no start first, then by instant.
pub open spec fn starts_before(a: Option<Timestamp>, b: Option<Timestamp>) -> bool {
    match a {
        None => b is Some,
        Some(x) => match b {
            None => false,
            Some(y) => x.secs < y.secs || (x.secs == y.secs && x.nanos < y.nanos),
        },
    }
}

/// Span `i` is shown before span `j`: by start, ties in the given order.
pub open spec fn shown_before(s: Seq<PlannedSpan>, i: int, j: int) -> bool {
    starts_before(s[i].start, s[j].start) || (s[i].start == s[j].start && i < j)
}

/// A span covers a day when it starts on or before it and ends on or
/// after it; one with no end occupies its start day only, one with no
/// start none.
pub open spec fn covers(p: PlannedSpan, day: int) -> bool {
    match p.start {
        None => false,
        Some(st) => {
            let first = utc_day(st.secs as int);
            let last = match p.end {
                Some(e) => utc_day(e.secs as int),
                None => first,
            };
            first <= day <= last
        },
    }
}

/// `blocks` holds the index of every span covering `day`, and nothing
/// else, once each, in page order.
pub open spec fn day_blocks(s: Seq<PlannedSpan>, day: int, blocks: Seq<usize>) -> bool {
    &&& forall|k: int| 0 <= k < blocks.len() ==> blocks[k] < s.len() && covers(s[blocks[k] as int], day)
    &&& forall|i: int| 0 <= i < s.len() && covers(#[trigger] s[i], day) ==> blocks.contains(i as usize)
    &&& forall|k1: int, k2: int|
        0 <= k1 < k2 < blocks.len() ==> shown_before(s, blocks[k1] as int, blocks[k2] as int)
}

/// Page order is a strict order: it chains.
proof fn lemma_shown_before_chains(s: Seq<PlannedSpan>, i: int, j: int, k: int)
    requires
        shown_before(s, i, j),
        shown_before(s, j, k),
    ensures
        shown_before(s, i, k),
{
}

fn starts_before_exec(a: Option<Timestamp>, b: Option<Timestamp>) -> (r: bool)
    ensures
        r == starts_before(a, b),
{
    match a {
        None => b.is_some(),
        Some(x) => match b {
            None => false,
            Some(y) => x.secs < y.secs || (x.secs == y.secs && x.nanos < y.nanos),
        },
    }
}

/// The day `utc_day` gives an instant.
fn utc_day_exec(secs: i64) -> (r: i64)
    ensures
        r == utc_day(secs as int),
{
    secs.checked_div_euclid(86400).unwrap() + EPOCH_DAY as i64
}

fn covers_exec(p: PlannedSpan, day: i32) -> (r: bool)
    ensures
        r == covers(p, day as int),
{
    match p.start {
        None => false,
        Some(st) => {
            let first = utc_day_exec(st.secs);
            let last = match p.end {
                Some(e) => utc_day_exec(e.secs),
                None => first,
            };
            first <= day as i64 && day as i64 <= last
        },
    }
}

/// The spans' indices in page order.
fn page_order(spans: &Vec<PlannedSpan>) -> (p: Vec<usize>)
    ensures
        p.len() == spans.len(),
        forall|k: int| 0 <= k < p.len() ==> p[k] < spans.len(),
        forall|i: int| 0 <= i < spans.len() ==> #[trigger] p@.contains(i as usize),
        forall|k1: int, k2: int|
            0 <= k1 < k2 < p.len() ==> shown_before(spans@, p[k1] as int, p[k2] as int),
{
    let mut p: Vec<usize> = Vec::new();
    let mut i: usize = 0;
    while i < spans.len()
        invariant
            i <= spans.len(),
            p.len() == i,
            forall|k: int| 0 <= k < p.len() ==> p[k] < i,
            forall|x: int| 0 <= x < i ==> #[trigger] p@.contains(x as usize),
            forall|k1: int, k2: int|
                0 <= k1 < k2 < p.len() ==> shown_before(spans@, p[k1] as int, p[k2] as int),
        decreases spans.len() - i,
    {
        let key = spans[i].start;
        let mut pos: usize = 0;
        while pos < p.len() && !starts_before_exec(key, spans[p[pos]].start)
            invariant
                i < spans.len(),
                key == spans@[i as int].start,
                pos <= p.len(),
                p.len() == i,
                forall|k: int| 0 <= k < p.len() ==> p[k] < i,
                forall|k: int| 0 <= k < pos ==> shown_before(spans@, p[k] as int, i as int),
            decreases p.len() - pos,
        {
            pos = pos + 1;
        }
        proof {
            assert forall|k: int| pos <= k < p.len() implies shown_before(
                spans@,
                i as int,
                p[k] as int,
            ) by {
                assert(shown_before(spans@, i as int, p[pos as int] as int));
                if k > pos {
                    lemma_shown_before_chains(spans@, i as int, p[pos as int] as int, p[k] as int);
                }
            }
        }
        let ghost old_p = p@;
        p.insert(pos, i);
        proof {
            assert forall|k1: int, k2: int| 0 <= k1 < k2 < p.len() implies shown_before(
                spans@,
                p[k1] as int,
                p[k2] as int,
            ) by {
                if k2 < pos {
                } else if k2 == pos {
                } else if k1 < pos {
                    assert(p[k2] == old_p[k2 - 1]);
                } else if k1 == pos {
                    assert(p[k2] == old_p[k2 - 1]);
                } else {
                    assert(p[k1] == old_p[k1 - 1]);
                    assert(p[k2] == old_p[k2 - 1]);
                }
            }
            assert forall|x: int| 0 <= x < i + 1 implies #[trigger] p@.contains(x as usize) by {
                if x < i {
                    assert(old_p.contains(x as usize));
                    let w = choose|w: int| 0 <= w < old_p.len() && old_p[w] == x as usize;
                    if w < pos {
                        assert(p[w] == x as usize);
                    } else {
                        assert(p[w + 1] == x as usize);
                    }
                } else {
                    assert(p[pos as int] == x as usize);
                }
            }
        }
        i = i + 1;
    }
    p
}

/// One day's blocks: the spans covering it, in page order.
fn blocks_of_day(spans: &Vec<PlannedSpan>, order: &Vec<usize>, day: i32) -> (blocks: Vec<usize>)
    requires
        order.len() == spans.len(),
        forall|k: int| 0 <= k < order.len() ==> order[k] < spans.len(),
        forall|i: int| 0 <= i < spans.len() ==> #[trigger] order@.contains(i as usize),
        forall|k1: int, k2: int|
            0 <= k1 < k2 < order.len() ==> shown_before(spans@, order[k1] as int, order[k2] as int),
    ensures
        day_blocks(spans@, day as int, blocks@),
{
    let mut blocks: Vec<usize> = Vec::new();
    let mut k: usize = 0;
    while k < order.len()
        invariant
            k <= order.len(),
            order.len() == spans.len(),
            forall|j: int| 0 <= j < order.len() ==> order[j] < spans.len(),
            forall|k1: int, k2: int|
                0 <= k1 < k2 < order.len() ==> shown_before(spans@, order[k1] as int, order[k2] as int),
            forall|j: int|
                0 <= j < blocks.len() ==> blocks[j] < spans.len() && covers(
                    spans@[blocks[j] as int],
                    day as int,
                ),
            forall|j: int| 0 <= j < k && covers(spans@[order[j] as int], day as int) ==> blocks@.contains(order[j]),
            forall|j: int, k2: int|
                0 <= j < blocks.len() && k <= k2 < order.len() ==> shown_before(
                    spans@,
                    blocks[j] as int,
                    order[k2] as int,
                ),
            forall|k1: int, k2: int|
                0 <= k1 < k2 < blocks.len() ==> shown_before(spans@, blocks[k1] as int, blocks[k2] as int),
        decreases order.len() - k,
    {
        let idx = order[k];
        if covers_exec(spans[idx], day) {
            let ghost old_b = blocks@;
            blocks.push(idx);
            proof {
                assert forall|j: int| 0 <= j < k + 1 && covers(spans@[order[j] as int], day as int) implies blocks@.contains(
                    order[j],
                ) by {
                    if j < k {
                        let w = choose|w: int| 0 <= w < old_b.len() && old_b[w] == order[j];
                        assert(blocks@[w] == order[j]);
                    } else {
                        assert(blocks@[old_b.len() as int] == order[j]);
                    }
                }
            }
        }
        k = k + 1;
    }
    proof {
        assert forall|i: int| 0 <= i < spans.len() && covers(#[trigger] spans@[i], day as int) implies blocks@.contains(
            i as usize,
        ) by {
            assert(order@.contains(i as usize));
            let w = choose|w: int| 0 <= w < order.len() && order@[w] == i as usize;
            assert(covers(spans@[order[w] as int], day as int));
        }
    }
    blocks
}

/// Every day of `[window_first, window_last]`, in order, with the spans
/// that cover it, in page order.
pub fn bucket_by_day(spans: &Vec<PlannedSpan>, window_first: i32, window_last: i32) -> (days: Vec<
    CalendarDay,
>)
    requires
        in_range(window_first as int),
        in_range(window_last as int),
        window_first <= window_last ==> window_last < MAX_DAY,
    ensures
        days.len() == if window_first <= window_last {
            window_last - window_first + 1
        } else {
            0
        },
        forall|k: int|
            0 <= k < days.len() ==> days[k].date == window_first + k && day_blocks(
                spans@,
                window_first + k,
                days[k].blocks@,
            ),
{
    let order = page_order(spans);
    let mut days: Vec<CalendarDay> = Vec::new();
    let mut d = window_first;
    while d <= window_last
        invariant
            window_first <= d,
            d == window_first || d <= window_last + 1,
            window_first <= window_last ==> window_last < MAX_DAY,
            days.len() == d - window_first,
            order.len() == spans.len(),
            forall|k: int| 0 <= k < order.len() ==> order[k] < spans.len(),
            forall|i: int| 0 <= i < spans.len() ==> #[trigger] order@.contains(i as usize),
            forall|k1: int, k2: int|
                0 <= k1 < k2 < order.len() ==> shown_before(spans@, order[k1] as int, order[k2] as int),
            forall|k: int|
                0 <= k < days.len() ==> days[k].date == window_first + k && day_blocks(
                    spans@,
                    window_first + k,
                    days[k].blocks@,
                ),
        decreases window_last - d + 1,
    {
        let blocks = blocks_of_day(spans, &order, d);
        days.push(CalendarDay { date: d, blocks });
        d = d + 1;
    }
    days
}

} // verus!
