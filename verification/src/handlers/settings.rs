//! Settings forms: the WIP limit and the capacity rows, their field
//! parsers, and the redirect that carries a capacity conflict back to the
//! form.
use vstd::prelude::*;
use crate::error::AppError;
use crate::handlers::calendar::day_of_date;
use crate::handlers::{percent_encode_query, query_encoded};
use crate::text::{chars_of, parse_i64, parse_i64_of, push_all, push_str_chars, string_of, trim, trim_of};

verus! {

/// `?flash=…&error=…` of the settings page.
pub struct FlashQuery {
    pub flash: Option<String>,
    /// A capacity conflict carried back after a redirect.
    pub error: Option<String>,
}

/// The personal WIP limit form; empty clears the limit.
pub struct WipLimitForm {
    pub wip_limit: String,
}

/// A new capacity row.
pub struct CapacityForm {
    pub points: String,
    pub period_start: String,
    pub period_end: String,
    pub note: String,
}

/// An edited capacity row, with the lock value of the render.
pub struct CapacityUpdateForm {
    pub points: String,
    pub period_start: String,
    pub period_end: String,
    pub note: String,
    pub client_updated_at: String,
}

/// Deleting a capacity row, with the lock value of the render.
pub struct CapacityDeleteForm {
    pub client_updated_at: String,
}

impl Default for CapacityDeleteForm {
    fn default() -> (r: Self)
        ensures
            r.client_updated_at@ == Seq::<char>::empty(),
    {
        CapacityDeleteForm { client_updated_at: String::new() }
    }
}

/// Closing an open capacity row on a date.
pub struct CloseForm {
    pub period_end: String,
    pub client_updated_at: String,
}

/// `<label> must be a positive integer.`
pub open spec fn positive_int_message(label: Seq<char>) -> Seq<char> {
    label + " must be a positive integer."@
}

/// A numeric field: empty (after trimming) is `None`, a positive integer
/// is itself, anything else is refused with the field's label.
pub open spec fn positive_int_of(raw: Seq<char>, label: Seq<char>) -> Result<Option<i64>, Seq<char>> {
    let t = trim(raw);
    if t.len() == 0 {
        Ok(None)
    } else {
        match parse_i64(t) {
            Some(n) => if n > 0 {
                Ok(Some(n))
            } else {
                Err(positive_int_message(label))
            },
            None => Err(positive_int_message(label)),
        }
    }
}

/// A numeric field only ever yields a positive number: whatever it
/// accepts is above zero and is what its trimmed text reads as, and text
/// that reads as zero or less is refused with the field's message.
pub proof fn law_positive_int_is_positive(raw: Seq<char>, label: Seq<char>)
    ensures
        positive_int_of(raw, label) matches Ok(Some(n)) ==> n > 0,
        positive_int_of(raw, label) matches Ok(Some(n)) ==> parse_i64(trim(raw)) == Some(n),
        positive_int_of(raw, label) is Ok <==> (trim(raw).len() == 0 || (parse_i64(trim(raw)) matches Some(
            n,
        ) && n > 0)),
        (parse_i64(trim(raw)) matches Some(n) && n <= 0) ==> positive_int_of(raw, label) == Err::<
            Option<i64>,
            Seq<char>,
        >(label + " must be a positive integer."@),
{
}

fn validation(label: &str, suffix: &str) -> (r: AppError)
    ensures
        r matches AppError::Validation(m) && m@ == label@ + suffix@,
{
    let mut m = chars_of(label);
    push_str_chars(&mut m, suffix);
    AppError::Validation(string_of(&m))
}

/// Parses an optional positive integer field.
pub fn parse_positive_int(raw: &str, field_label: &str) -> (r: Result<Option<i64>, AppError>)
    ensures
        match r {
            Ok(v) => positive_int_of(raw@, field_label@) == Ok::<Option<i64>, Seq<char>>(v),
            Err(AppError::Validation(m)) => positive_int_of(raw@, field_label@) == Err::<
                Option<i64>,
                Seq<char>,
            >(m@),
            Err(_) => false,
        },
{
    let cs = chars_of(raw);
    let t = trim_of(&cs);
    if t.len() == 0 {
        return Ok(None);
    }
    match parse_i64_of(&t) {
        Some(n) => {
            if n <= 0 {
                Err(validation(field_label, " must be a positive integer."))
            } else {
                Ok(Some(n))
            }
        },
        None => Err(validation(field_label, " must be a positive integer.")),
    }
}

/// A calendar date.
#[derive(Debug, Clone, Copy, PartialEq, Eq, Structural)]
pub struct CalendarDate {
    pub year: i32,
    pub month: u32,
    pub day: u32,
}

/// The date `chrono::NaiveDate::parse_from_str(s, "%Y-%m-%d")` reads from
/// a text, as `(year, month, day)`; `None` when it rejects the text.
pub uninterp spec fn ymd_date(s: Seq<char>) -> Option<(i32, u32, u32)>;

/// `chrono::NaiveDate::parse_from_str` with `%Y-%m-%d`, claimed to return
/// the named date of the text, whose month is 1 to 12 and day 1 to 31 as
/// `Datelike` documents, and which, being a date chrono made, chrono
/// numbers.
#[verifier::external_body]
pub(crate) fn parse_ymd(s: &str) -> (r: Option<(i32, u32, u32)>)
    ensures
        r == ymd_date(s@),
        r matches Some(d) ==> 1 <= d.1 <= 12 && 1 <= d.2 <= 31 && day_of_date(d.0, d.1, d.2) is Some,
{
    match chrono::NaiveDate::parse_from_str(s, "%Y-%m-%d") {
        Ok(d) => Some(
            (
                chrono::Datelike::year(&d),
                chrono::Datelike::month(&d),
                chrono::Datelike::day(&d),
            ),
        ),
        Err(_) => None,
    }
}

/// `<label> must be in YYYY-MM-DD format.`
pub open spec fn date_message(label: Seq<char>) -> Seq<char> {
    label + " must be in YYYY-MM-DD format."@
}

/// An optional date field: empty (after trimming) is `None`, a
/// `YYYY-MM-DD` date is itself, anything else is refused with the label.
pub open spec fn date_of(raw: Seq<char>, label: Seq<char>) -> Result<Option<(i32, u32, u32)>, Seq<char>> {
    let t = trim(raw);
    if t.len() == 0 {
        Ok(None)
    } else {
        match ymd_date(t) {
            Some(d) => Ok(Some(d)),
            None => Err(date_message(label)),
        }
    }
}

/// Parses an optional `YYYY-MM-DD` date field.
pub fn parse_date(raw: &str, field_label: &str) -> (r: Result<Option<CalendarDate>, AppError>)
    ensures
        match r {
            Ok(Some(d)) => date_of(raw@, field_label@) == Ok::<Option<(i32, u32, u32)>, Seq<char>>(
                Some((d.year, d.month, d.day)),
            ),
            Ok(None) => date_of(raw@, field_label@) == Ok::<Option<(i32, u32, u32)>, Seq<char>>(
                None,
            ),
            Err(AppError::Validation(m)) => date_of(raw@, field_label@) == Err::<
                Option<(i32, u32, u32)>,
                Seq<char>,
            >(m@),
            Err(_) => false,
        },
{
    let cs = chars_of(raw);
    let t = trim_of(&cs);
    if t.len() == 0 {
        return Ok(None);
    }
    let ts = string_of(&t);
    match parse_ymd(ts.as_str()) {
        Some((year, month, day)) => Ok(Some(CalendarDate { year, month, day })),
        None => Err(validation(field_label, " must be in YYYY-MM-DD format.")),
    }
}

/// The same URL-safe query encoding as `handlers::percent_encode_query`.
pub fn percent_encode_for_query(s: &str) -> (r: String)
    ensures
        r@ == query_encoded(vstd::utf8::encode_utf8(s@)),
{
    percent_encode_query(s)
}

/// The settings page with a conflict message in its query string.
pub open spec fn conflict_location(message: Seq<char>) -> Seq<char> {
    "/settings?error="@ + query_encoded(vstd::utf8::encode_utf8(message))
}

/// Where a capacity conflict redirects: the settings page, the message
/// encoded into `?error=`.
pub fn redirect_with_conflict(message: &str) -> (r: String)
    ensures
        r@ == conflict_location(message@),
{
    let encoded = percent_encode_for_query(message);
    let mut out = chars_of("/settings?error=");
    let e = chars_of(encoded.as_str());
    push_all(&mut out, &e);
    string_of(&out)
}

/// The optional note of a capacity row: trimmed, and none when blank.
pub open spec fn note_of(raw: Seq<char>) -> Option<Seq<char>> {
    if trim(raw).len() == 0 {
        None
    } else {
        Some(trim(raw))
    }
}

/// A capacity row as its form describes it: its points, the period's
/// start and end where given, and its note.
pub struct CapacityFields {
    pub points: i64,
    pub period_start: Option<CalendarDate>,
    pub period_end: Option<CalendarDate>,
    pub note: Option<String>,
}

pub open spec fn date_triple(d: Option<CalendarDate>) -> Option<(i32, u32, u32)> {
    match d {
        Some(d) => Some((d.year, d.month, d.day)),
        None => None,
    }
}

/// What a capacity form yields: the points (required, positive), then the
/// two optional dates, each refused with its label; the first refusal
/// wins.
pub open spec fn capacity_fields_of(
    points: Seq<char>,
    start: Seq<char>,
    end: Seq<char>,
    note: Seq<char>,
) -> Result<(i64, Option<(i32, u32, u32)>, Option<(i32, u32, u32)>, Option<Seq<char>>), Seq<char>> {
    match positive_int_of(points, "Capacity points"@) {
        Err(m) => Err(m),
        Ok(None) => Err("Capacity points are required."@),
        Ok(Some(p)) => match date_of(start, "Period start"@) {
            Err(m) => Err(m),
            Ok(s) => match date_of(end, "Period end"@) {
                Err(m) => Err(m),
                Ok(e) => Ok((p, s, e, note_of(note))),
            },
        },
    }
}

/// A capacity row's points are always positive: a row is read only with
/// points above zero, and points of zero or less are refused.
pub proof fn law_capacity_points_positive(points: Seq<char>, start: Seq<char>, end: Seq<char>, note: Seq<char>)
    ensures
        capacity_fields_of(points, start, end, note) matches Ok(f) ==> f.0 > 0,
        (parse_i64(trim(points)) matches Some(n) && n <= 0) ==> capacity_fields_of(
            points,
            start,
            end,
            note,
        ) == Err::<(i64, Option<(i32, u32, u32)>, Option<(i32, u32, u32)>, Option<Seq<char>>), Seq<char>>(
            "Capacity points must be a positive integer."@,
        ),
{
    law_positive_int_is_positive(points, "Capacity points"@);
    reveal_strlit("Capacity points");
    reveal_strlit(" must be a positive integer.");
    reveal_strlit("Capacity points must be a positive integer.");
    assert("Capacity points"@ + " must be a positive integer."@
        =~= "Capacity points must be a positive integer."@);
}

/// Reads the fields of a new or edited capacity row.
pub fn capacity_fields(points: &str, period_start: &str, period_end: &str, note: &str) -> (r: Result<
    CapacityFields,
    AppError,
>)
    ensures
        match r {
            Ok(f) => capacity_fields_of(points@, period_start@, period_end@, note@) == Ok::<
                (i64, Option<(i32, u32, u32)>, Option<(i32, u32, u32)>, Option<Seq<char>>),
                Seq<char>,
            >(
                (
                    f.points,
                    date_triple(f.period_start),
                    date_triple(f.period_end),
                    match f.note {
                        Some(n) => Some(n@),
                        None => None,
                    },
                ),
            ),
            Err(AppError::Validation(m)) => capacity_fields_of(
                points@,
                period_start@,
                period_end@,
                note@,
            ) == Err::<
                (i64, Option<(i32, u32, u32)>, Option<(i32, u32, u32)>, Option<Seq<char>>),
                Seq<char>,
            >(m@),
            Err(_) => false,
        },
{
    let p = match parse_positive_int(points, "Capacity points") {
        Ok(Some(p)) => p,
        Ok(None) => {
            return Err(AppError::Validation(string_of(&chars_of("Capacity points are required."))));
        },
        Err(e) => {
            return Err(e);
        },
    };
    let start = match parse_date(period_start, "Period start") {
        Ok(d) => d,
        Err(e) => {
            return Err(e);
        },
    };
    let end = match parse_date(period_end, "Period end") {
        Ok(d) => d,
        Err(e) => {
            return Err(e);
        },
    };
    let t = trim_of(&chars_of(note));
    let note = if t.len() == 0 {
        None
    } else {
        Some(string_of(&t))
    };
    Ok(CapacityFields { points: p, period_start: start, period_end: end, note })
}

/// The close date of an open capacity row: required.
pub open spec fn close_date_of(raw: Seq<char>) -> Result<(i32, u32, u32), Seq<char>> {
    match date_of(raw, "Close date"@) {
        Err(m) => Err(m),
        Ok(None) => Err("Close date is required."@),
        Ok(Some(d)) => Ok(d),
    }
}

/// Reads the close date of an open capacity row.
pub fn close_date(raw: &str) -> (r: Result<CalendarDate, AppError>)
    ensures
        match r {
            Ok(d) => close_date_of(raw@) == Ok::<(i32, u32, u32), Seq<char>>((d.year, d.month, d.day)),
            Err(AppError::Validation(m)) => close_date_of(raw@) == Err::<(i32, u32, u32), Seq<char>>(m@),
            Err(_) => false,
        },
{
    match parse_date(raw, "Close date") {
        Ok(Some(d)) => Ok(d),
        Ok(None) => Err(AppError::Validation(string_of(&chars_of("Close date is required.")))),
        Err(e) => Err(e),
    }
}

/// The settings page with a saved message in its query string.
pub open spec fn flash_location(message: Seq<char>) -> Seq<char> {
    "/settings?flash="@ + query_encoded(vstd::utf8::encode_utf8(message))
}

/// Where a saved settings change returns: the settings page, the saved
/// message encoded into `?flash=` by the same query encoder as every
/// other redirect.
pub fn settings_flash_location(message: &str) -> (r: String)
    ensures
        r@ == flash_location(message@),
{
    let encoded = percent_encode_query(message);
    let mut out = chars_of("/settings?flash=");
    let e = chars_of(encoded.as_str());
    push_all(&mut out, &e);
    string_of(&out)
}

} // verus!
