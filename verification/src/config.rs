//! Runtime configuration, as read from the environment.
use vstd::prelude::*;
use crate::text::{chars_of, string_of};

verus! {

/// The web server's configuration.
#[derive(Clone, Debug)]
pub struct Config {
    pub database_url: String,
    pub jwt_secret: String,
    pub bind_addr: String,
    pub cookie_secure: bool,
}

/// ASCII lower case of a character.
pub open spec fn ascii_lower(c: char) -> char {
    if 'A' <= c && c <= 'Z' {
        ((c as int) + 32) as char
    } else {
        c
    }
}

/// `str::eq_ignore_ascii_case`.
pub open spec fn eq_ignore_ascii_case(a: Seq<char>, b: Seq<char>) -> bool {
    a.len() == b.len() && forall|k: int| 0 <= k < a.len() ==> ascii_lower(#[trigger] a[k]) == ascii_lower(b[k])
}

/// `COOKIE_SECURE` turns secure cookies on when it is `1` or `true` in
/// any ASCII case; unset, it leaves them off.
pub open spec fn cookie_secure_of(value: Option<Seq<char>>) -> bool {
    match value {
        Some(v) => v == "1"@ || eq_ignore_ascii_case(v, "true"@),
        None => false,
    }
}

fn lower(c: char) -> (r: char)
    ensures
        r == ascii_lower(c),
{
    if 'A' <= c && c <= 'Z' {
        ((c as u32) + 32) as u8 as char
    } else {
        c
    }
}

/// `a` and `b` are equal but for ASCII case.
pub(crate) fn ignore_ascii_case_eq(a: &[char], b: &[char]) -> (r: bool)
    ensures
        r == eq_ignore_ascii_case(a@, b@),
{
    if a.len() != b.len() {
        return false;
    }
    let mut k: usize = 0;
    while k < a.len()
        invariant
            0 <= k <= a@.len(),
            a@.len() == b@.len(),
            forall|m: int| 0 <= m < k ==> ascii_lower(#[trigger] a@[m]) == ascii_lower(b@[m]),
        decreases a@.len() - k,
    {
        if lower(a[k]) != lower(b[k]) {
            return false;
        }
        k = k + 1;
    }
    true
}

/// Whether a `COOKIE_SECURE` value turns secure cookies on.
pub fn cookie_secure_from(value: Option<&str>) -> (r: bool)
    ensures
        r == cookie_secure_of(
            match value {
                Some(v) => Some(v@),
                None => None,
            },
        ),
{
    let s = match value {
        None => return false,
        Some(s) => s,
    };
    let v = chars_of(s);
    assert(cookie_secure_of(Some(s@)) == (v@ == "1"@ || eq_ignore_ascii_case(v@, "true"@)));
    let one = chars_of("1");
    if crate::text::eq_chars(&v, &one) {
        return true;
    }
    let t = chars_of("true");
    ignore_ascii_case_eq(&v, &t)
}

pub open spec fn or_default(v: Option<Seq<char>>, d: Seq<char>) -> Seq<char> {
    match v {
        Some(s) => s,
        None => d,
    }
}

pub open spec fn opt_view(v: Option<String>) -> Option<Seq<char>> {
    match v {
        Some(s) => Some(s@),
        None => None,
    }
}

fn value_or(v: Option<String>, d: &str) -> (r: String)
    ensures
        r@ == or_default(opt_view(v), d@),
{
    match v {
        Some(s) => s,
        None => string_of(&chars_of(d)),
    }
}

impl Config {
    /// The configuration from the values of `DATABASE_URL`, `JWT_SECRET`,
    /// `BIND_ADDR` and `COOKIE_SECURE` (each `None` when unset), with the
    /// development defaults for the unset ones.
    pub fn from_values(
        database_url: Option<String>,
        jwt_secret: Option<String>,
        bind_addr: Option<String>,
        cookie_secure: Option<String>,
    ) -> (r: Config)
        ensures
            r.database_url@ == or_default(opt_view(database_url), "sqlite://data/app.db"@),
            r.jwt_secret@ == or_default(opt_view(jwt_secret), "dev-only-insecure-change-me"@),
            r.bind_addr@ == or_default(opt_view(bind_addr), "0.0.0.0:3000"@),
            r.cookie_secure == cookie_secure_of(opt_view(cookie_secure)),
    {
        let secure = match &cookie_secure {
            Some(s) => cookie_secure_from(Some(s.as_str())),
            None => cookie_secure_from(None),
        };
        Config {
            database_url: value_or(database_url, "sqlite://data/app.db"),
            jwt_secret: value_or(jwt_secret, "dev-only-insecure-change-me"),
            bind_addr: value_or(bind_addr, "0.0.0.0:3000"),
            cookie_secure: secure,
        }
    }
}

} // verus!
