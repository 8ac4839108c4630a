//! What the calendar grid writes on a block: its time.
use vstd::prelude::*;
use crate::error::Timestamp;
use crate::handlers::calendar::{in_range, utc_day};
use crate::text::{chars_of, digit_char, push_str_chars, string_of};

verus! {

/// An instant `chrono::DateTime::from_timestamp` accepts: its UTC day is
/// one chrono holds, and its nanoseconds stay under a second, or under two
/// in the last second of a minute (a leap second).
pub open spec fn valid_instant(t: Timestamp) -> bool {
    &&& in_range(utc_day(t.secs as int))
    &&& (t.nanos < 1_000_000_000 || (t.nanos < 2_000_000_000 && t.secs % 60 == 59))
}

/// `n` (below 100) on two digits.
pub open spec fn two_digits(n: int) -> Seq<char> {
    seq![digit_char(n / 10), digit_char(n % 10)]
}

/// The UTC wall-clock time of an instant as `HH:MM`.
pub open spec fn clock_text(secs: int) -> Seq<char> {
    let s = secs % 86400;
    two_digits(s / 3600) + ":"@ + two_digits((s % 3600) / 60)
}

/// `chrono::DateTime::from_timestamp` formatted with `%H:%M`: the hour
/// and minute of the instant's UTC time, each on two digits.
#[verifier::external_body]
fn hour_minute(t: Timestamp) -> (r: String)
    requires
        valid_instant(t),
    ensures
        r@ == clock_text(t.secs as int),
{
    chrono::DateTime::from_timestamp(t.secs, t.nanos).unwrap().format("%H:%M").to_string()
}

/// A block's time text: its start, or its start and end joined by an en
/// dash; empty with no start.
pub open spec fn time_label_of(start: Option<Timestamp>, end: Option<Timestamp>) -> Seq<char> {
    match start {
        None => Seq::empty(),
        Some(s) => match end {
            Some(e) => clock_text(s.secs as int) + "–"@ + clock_text(e.secs as int),
            None => clock_text(s.secs as int),
        },
    }
}

/// The time text of a block with a planned start and end.
pub fn time_label(start: Option<Timestamp>, end: Option<Timestamp>) -> (r: String)
    requires
        start matches Some(s) ==> valid_instant(s),
        end matches Some(e) ==> valid_instant(e),
    ensures
        r@ == time_label_of(start, end),
{
    match start {
        None => string_of(&Vec::new()),
        Some(s) => {
            let start_text = hour_minute(s);
            match end {
                Some(e) => {
                    let mut t = chars_of(start_text.as_str());
                    push_str_chars(&mut t, "–");
                    let end_text = hour_minute(e);
                    push_str_chars(&mut t, end_text.as_str());
                    string_of(&t)
                },
                None => start_text,
            }
        },
    }
}

} // verus!
