//! What the page components share with the handlers: the calendar view
//! modes and the search link encoder.
use vstd::prelude::*;
use crate::handlers::{form_decoded, hex_digit, lemma_hex_digit, unreserved};
use crate::text::string_of;

pub mod breadcrumb;
pub mod calendar;
pub mod issues;
pub mod links;
pub mod me;
pub mod settings;
pub mod sprints;

verus! {

/// The three calendar view modes.
#[derive(Debug, Clone, Copy, PartialEq, Eq, Structural)]
pub enum CalendarView {
    Day,
    Week,
    Month,
}

/// The `?view=` value of each mode.
pub open spec fn view_str(v: CalendarView) -> Seq<char> {
    match v {
        CalendarView::Day => "day"@,
        CalendarView::Week => "week"@,
        CalendarView::Month => "month"@,
    }
}

/// Where an issue is in its life.
#[derive(Debug, Clone, Copy, PartialEq, Eq, Structural)]
pub enum IssueStatus {
    Open,
    InProgress,
    Done,
}

/// One column of the board: a status and the positions, in the list of
/// the project's issues, of the issues it shows, in order.
pub struct Column {
    pub status: IssueStatus,
    pub issues: Vec<usize>,
}

/// One day's calendar blocks: the day number and the indices, into the
/// planned issues handed to the bucketing, of those the day shows, in
/// page order. An issue spanning several days appears on each.
pub struct CalendarDay {
    pub date: i32,
    pub blocks: Vec<usize>,
}

impl CalendarView {
    /// The `?view=` value of the mode.
    pub fn as_str(self) -> (r: &'static str)
        ensures
            r@ == view_str(self),
    {
        match self {
            CalendarView::Day => "day",
            CalendarView::Week => "week",
            CalendarView::Month => "month",
        }
    }
}

/// How one byte is written in a search link: unreserved bytes as
/// themselves, every other byte (a space included) as `%XX`.
pub open spec fn link_byte(b: u8) -> Seq<char> {
    if unreserved(b) {
        seq![b as char]
    } else {
        seq!['%', hex_digit(b as int / 16), hex_digit(b as int % 16)]
    }
}

pub open spec fn link_encoded(bytes: Seq<u8>) -> Seq<char>
    decreases bytes.len(),
{
    if bytes.len() == 0 {
        Seq::empty()
    } else {
        link_encoded(bytes.drop_last()) + link_byte(bytes.last())
    }
}

/// A character a search link may carry: an unreserved ASCII character or
/// the `%` of an escape (a space is `%20`, never `+`).
pub open spec fn link_safe(c: char) -> bool {
    ('A' <= c && c <= 'Z') || ('a' <= c && c <= 'z') || ('0' <= c && c <= '9') || c == '-' || c
        == '_' || c == '.' || c == '~' || c == '%'
}

/// An upper-case hexadecimal digit.
pub open spec fn upper_hex(c: char) -> bool {
    ('0' <= c && c <= '9') || ('A' <= c && c <= 'F')
}

proof fn lemma_link_front(bytes: Seq<u8>)
    requires
        bytes.len() > 0,
    ensures
        link_encoded(bytes) == link_byte(bytes[0]) + link_encoded(bytes.drop_first()),
    decreases bytes.len(),
{
    if bytes.len() == 1 {
        assert(bytes.drop_last() =~= Seq::<u8>::empty());
        assert(bytes.drop_first() =~= Seq::<u8>::empty());
        assert(link_encoded(bytes) =~= link_byte(bytes[0]) + link_encoded(bytes.drop_first()));
    } else {
        lemma_link_front(bytes.drop_last());
        assert(bytes.drop_last().drop_first() =~= bytes.drop_first().drop_last());
        assert(bytes.drop_first().last() == bytes.last());
        assert(link_encoded(bytes) =~= link_byte(bytes[0]) + link_encoded(bytes.drop_first()));
    }
}

proof fn lemma_link_byte_decodes(b: u8, rest: Seq<char>)
    ensures
        form_decoded(link_byte(b) + rest) == seq![b] + form_decoded(rest),
{
    let e = link_byte(b) + rest;
    if unreserved(b) {
        assert(e[0] == b as char);
        assert(e.drop_first() =~= rest);
        assert(vstd::utf8::encode_utf8(seq![b as char]) == seq![b]) by {
            vstd::utf8::is_ascii_chars_encode_utf8(seq![b as char]);
            assert(vstd::utf8::is_ascii_chars(seq![b as char]));
        }
    } else {
        lemma_hex_digit(b as int / 16);
        lemma_hex_digit(b as int % 16);
        assert(e.skip(3) =~= rest);
        assert((b as int / 16) * 16 + b as int % 16 == b as int);
    }
}

/// Percent-decoding a search link's value gives back exactly the bytes
/// that were encoded: the term survives the link byte for byte, reserved
/// characters and non-ASCII text included.
pub proof fn law_link_round_trip(bytes: Seq<u8>)
    ensures
        form_decoded(link_encoded(bytes)) == bytes,
    decreases bytes.len(),
{
    if bytes.len() > 0 {
        lemma_link_front(bytes);
        law_link_round_trip(bytes.drop_first());
        lemma_link_byte_decodes(bytes[0], link_encoded(bytes.drop_first()));
        assert(seq![bytes[0]] + bytes.drop_first() =~= bytes);
    }
}

/// Every character of an encoded search term is an unreserved ASCII
/// character or the `%` of an escape, and every `%` is followed by two
/// upper-case hexadecimal digits.
pub proof fn law_link_safe(bytes: Seq<u8>)
    ensures
        forall|k: int|
            0 <= k < link_encoded(bytes).len() ==> link_safe(#[trigger] link_encoded(bytes)[k]),
        forall|k: int|
            0 <= k < link_encoded(bytes).len() && #[trigger] link_encoded(bytes)[k] == '%' ==> k + 2
                < link_encoded(bytes).len() && upper_hex(link_encoded(bytes)[k + 1]) && upper_hex(
                link_encoded(bytes)[k + 2],
            ),
    decreases bytes.len(),
{
    if bytes.len() > 0 {
        law_link_safe(bytes.drop_last());
        let b = bytes.last();
        let pre = link_encoded(bytes.drop_last());
        let e = link_encoded(bytes);
        assert(e == pre + link_byte(b));
        if !unreserved(b) {
            lemma_hex_digit(b as int / 16);
            lemma_hex_digit(b as int % 16);
        }
        assert forall|k: int| 0 <= k < e.len() implies link_safe(#[trigger] e[k]) by {
            if k < pre.len() {
                assert(e[k] == pre[k]);
            }
        }
        assert forall|k: int| 0 <= k < e.len() && #[trigger] e[k] == '%' implies k + 2 < e.len()
            && upper_hex(e[k + 1]) && upper_hex(e[k + 2]) by {
            if k < pre.len() {
                assert(e[k] == pre[k]);
                assert(e[k + 1] == pre[k + 1]);
                assert(e[k + 2] == pre[k + 2]);
            }
        }
    }
}

/// A term of unreserved characters only is written as it is.
pub proof fn law_link_keeps_unreserved(bytes: Seq<u8>)
    requires
        forall|i: int| 0 <= i < bytes.len() ==> unreserved(#[trigger] bytes[i]),
    ensures
        link_encoded(bytes) == bytes.map_values(|b: u8| b as char),
    decreases bytes.len(),
{
    if bytes.len() > 0 {
        assert forall|i: int| 0 <= i < bytes.drop_last().len() implies unreserved(
            #[trigger] bytes.drop_last()[i],
        ) by {
            assert(bytes.drop_last()[i] == bytes[i]);
        }
        law_link_keeps_unreserved(bytes.drop_last());
        assert(unreserved(bytes[bytes.len() - 1]));
        assert(link_encoded(bytes) =~= bytes.map_values(|b: u8| b as char));
    }
}

fn hex(d: u8) -> (c: char)
    requires
        d < 16,
    ensures
        c == hex_digit(d as int),
{
    if d < 10 {
        (d + 48) as char
    } else {
        (d + 55) as char
    }
}

/// Percent-encoding of a search term for a link: the UTF-8 bytes of `s`,
/// unreserved ones as themselves, every other byte as `%XX`.
pub fn urlencode(s: &str) -> (r: String)
    ensures
        r@ == link_encoded(vstd::utf8::encode_utf8(s@)),
{
    let bytes = s.as_bytes();
    let mut out: Vec<char> = Vec::new();
    let mut i: usize = 0;
    while i < bytes.len()
        invariant
            0 <= i <= bytes@.len(),
            out@ == link_encoded(bytes@.take(i as int)),
        decreases bytes@.len() - i,
    {
        let b = bytes[i];
        proof {
            assert(bytes@.take(i + 1).drop_last() =~= bytes@.take(i as int));
            assert(bytes@.take(i + 1).last() == b);
        }
        if (65 <= b && b <= 90) || (97 <= b && b <= 122) || (48 <= b && b <= 57) || b == 45 || b
            == 95 || b == 46 || b == 126 {
            out.push(b as char);
        } else {
            out.push('%');
            out.push(hex(b / 16));
            out.push(hex(b % 16));
        }
        i = i + 1;
        proof {
            assert(out@ =~= link_encoded(bytes@.take(i as int)));
        }
    }
    proof {
        assert(bytes@.take(i as int) =~= bytes@);
    }
    string_of(&out)
}

} // verus!
