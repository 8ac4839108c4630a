//! The request-side logic of the HTTP handlers: query-string encoding,
//! form parsing and validation, and the forms' plain data.
use vstd::prelude::*;
use crate::text::{chars_of, string_of};

pub mod api_users;
pub mod calendar;
pub mod issues;
pub mod me;
pub mod notification_preferences;
pub mod notifications;
pub mod projects;
pub mod redirects;
pub mod search;
pub mod settings;
pub mod sprints;
pub mod teams;

verus! {

/// An unreserved URL byte: ASCII letters, digits, `-`, `_`, `.` and `~`.
pub open spec fn unreserved(b: u8) -> bool {
    (65 <= b <= 90) || (97 <= b <= 122) || (48 <= b <= 57) || b == 45 || b == 95 || b == 46
        || b == 126
}

/// The upper-case hexadecimal digit of `d` (`0 <= d < 16`).
pub open spec fn hex_digit(d: int) -> char {
    if d < 10 {
        (d + 48) as char
    } else {
        (d + 55) as char
    }
}

/// The value of a hexadecimal digit, either case (`None` for any other
/// character).
pub open spec fn hex_value(c: char) -> Option<int> {
    if '0' <= c && c <= '9' {
        Some(c as int - 48)
    } else if 'A' <= c && c <= 'F' {
        Some(c as int - 55)
    } else if 'a' <= c && c <= 'f' {
        Some(c as int - 87)
    } else {
        None
    }
}

/// How one byte is written in a query component: unreserved bytes as
/// themselves, a space as `+`, anything else as `%XX` (upper case).
pub open spec fn query_byte(b: u8) -> Seq<char> {
    if unreserved(b) {
        seq![b as char]
    } else if b == 32 {
        seq!['+']
    } else {
        seq!['%', hex_digit(b as int / 16), hex_digit(b as int % 16)]
    }
}

/// The bytes written one after another as in `query_byte`.
pub open spec fn query_encoded(bytes: Seq<u8>) -> Seq<char>
    decreases bytes.len(),
{
    if bytes.len() == 0 {
        Seq::empty()
    } else {
        query_byte(bytes[0]) + query_encoded(bytes.drop_first())
    }
}

/// `application/x-www-form-urlencoded` decoding of a value: `+` is a
/// space, `%` with two hexadecimal digits is that byte, any other
/// character stands for its UTF-8 bytes.
pub open spec fn form_decoded(s: Seq<char>) -> Seq<u8>
    decreases s.len(),
{
    if s.len() == 0 {
        Seq::empty()
    } else if s[0] == '+' {
        seq![32u8] + form_decoded(s.drop_first())
    } else if s[0] == '%' && s.len() >= 3 && hex_value(s[1]) is Some && hex_value(s[2]) is Some {
        seq![(hex_value(s[1]).unwrap() * 16 + hex_value(s[2]).unwrap()) as u8] + form_decoded(
            s.skip(3),
        )
    } else {
        vstd::utf8::encode_utf8(seq![s[0]]) + form_decoded(s.drop_first())
    }
}

/// A character the encoding may write: an unreserved ASCII character,
/// `+` or `%`.
pub open spec fn query_safe(c: char) -> bool {
    ('A' <= c && c <= 'Z') || ('a' <= c && c <= 'z') || ('0' <= c && c <= '9') || c == '-' || c
        == '_' || c == '.' || c == '~' || c == '+' || c == '%'
}

pub proof fn lemma_query_encoded_push(bytes: Seq<u8>, b: u8)
    ensures
        query_encoded(bytes.push(b)) == query_encoded(bytes) + query_byte(b),
    decreases bytes.len(),
{
    if bytes.len() == 0 {
        assert(bytes.push(b).drop_first() =~= Seq::<u8>::empty());
        assert(bytes.push(b)[0] == b);
        assert(query_encoded(Seq::<u8>::empty()) =~= Seq::<char>::empty());
        assert(query_encoded(bytes) =~= Seq::<char>::empty());
        assert(query_encoded(bytes.push(b)) =~= query_byte(b) + query_encoded(Seq::<u8>::empty()));
        assert(query_encoded(bytes.push(b)) =~= query_encoded(bytes) + query_byte(b));
    } else {
        lemma_query_encoded_push(bytes.drop_first(), b);
        assert(bytes.push(b).drop_first() =~= bytes.drop_first().push(b));
        assert(query_encoded(bytes.push(b)) =~= query_encoded(bytes) + query_byte(b));
    }
}

pub proof fn lemma_hex_digit(d: int)
    requires
        0 <= d < 16,
    ensures
        hex_value(hex_digit(d)) == Some(d),
        query_safe(hex_digit(d)),
        hex_digit(d) != '+',
        hex_digit(d) != '%',
{
}

proof fn lemma_byte_decodes(b: u8, rest: Seq<char>)
    ensures
        form_decoded(query_byte(b) + rest) == seq![b] + form_decoded(rest),
{
    let e = query_byte(b) + rest;
    if unreserved(b) {
        assert(e[0] == b as char);
        assert(e.drop_first() =~= rest);
        assert(vstd::utf8::encode_utf8(seq![b as char]) == seq![b]) by {
            vstd::utf8::is_ascii_chars_encode_utf8(seq![b as char]);
            assert(vstd::utf8::is_ascii_chars(seq![b as char]));
        }
    } else if b == 32 {
        assert(e.drop_first() =~= rest);
    } else {
        lemma_hex_digit(b as int / 16);
        lemma_hex_digit(b as int % 16);
        assert(e.skip(3) =~= rest);
        assert((b as int / 16) * 16 + b as int % 16 == b as int);
    }
}

/// Percent-decoding what `percent_encode_query` writes gives back the
/// exact bytes it was given: a value survives the query string byte for
/// byte, `&`, `=`, `#`, `%`, `+`, `?` and non-ASCII text included.
pub proof fn lemma_query_round_trip(bytes: Seq<u8>)
    ensures
        form_decoded(query_encoded(bytes)) == bytes,
    decreases bytes.len(),
{
    if bytes.len() > 0 {
        lemma_query_round_trip(bytes.drop_first());
        lemma_byte_decodes(bytes[0], query_encoded(bytes.drop_first()));
        assert(seq![bytes[0]] + bytes.drop_first() =~= bytes);
    }
}

/// Every character `percent_encode_query` writes is URL-safe: an
/// unreserved ASCII character, `+` or `%`.
pub proof fn lemma_query_safe(bytes: Seq<u8>)
    ensures
        forall|k: int|
            0 <= k < query_encoded(bytes).len() ==> query_safe(#[trigger] query_encoded(bytes)[k]),
    decreases bytes.len(),
{
    if bytes.len() > 0 {
        lemma_query_safe(bytes.drop_first());
        let b = bytes[0];
        let q = query_byte(b);
        if !unreserved(b) && b != 32 {
            lemma_hex_digit(b as int / 16);
            lemma_hex_digit(b as int % 16);
        }
        assert forall|k: int| 0 <= k < query_encoded(bytes).len() implies query_safe(
            #[trigger] query_encoded(bytes)[k],
        ) by {
            if k >= q.len() {
                assert(query_encoded(bytes)[k] == query_encoded(bytes.drop_first())[k - q.len()]);
            }
        }
    }
}

fn hex_digit_exec(d: u8) -> (c: char)
    requires
        d < 16,
    ensures
        c == hex_digit(d as int),
{
    if d < 10 {
        (d + 48) as char
    } else {
        (d + 55) as char
    }
}

/// The bytes of `bytes` written for a query component.
pub fn query_encode_bytes(bytes: &[u8]) -> (r: Vec<char>)
    ensures
        r@ == query_encoded(bytes@),
{
    let mut out: Vec<char> = Vec::new();
    let mut i: usize = 0;
    while i < bytes.len()
        invariant
            0 <= i <= bytes@.len(),
            out@ == query_encoded(bytes@.take(i as int)),
        decreases bytes@.len() - i,
    {
        let b = bytes[i];
        proof {
            lemma_query_encoded_push(bytes@.take(i as int), b);
            assert(bytes@.take(i + 1) =~= bytes@.take(i as int).push(b));
        }
        if (65 <= b && b <= 90) || (97 <= b && b <= 122) || (48 <= b && b <= 57) || b == 45 || b
            == 95 || b == 46 || b == 126 {
            out.push(b as char);
        } else if b == 32 {
            out.push('+');
        } else {
            out.push('%');
            out.push(hex_digit_exec(b / 16));
            out.push(hex_digit_exec(b % 16));
        }
        i = i + 1;
        proof {
            assert(out@ =~= query_encoded(bytes@.take(i as int)));
        }
    }
    proof {
        assert(bytes@.take(i as int) =~= bytes@);
    }
    out
}

/// URL-safe percent-encoding of a value for a redirect's query string:
/// the UTF-8 bytes of `s`, unreserved ones as themselves, a space as
/// `+`, every other byte as `%XX`.
pub fn percent_encode_query(s: &str) -> (r: String)
    ensures
        r@ == query_encoded(vstd::utf8::encode_utf8(s@)),
{
    let bytes = s.as_bytes();
    let cs = query_encode_bytes(bytes);
    string_of(&cs)
}

} // verus!
