//! Where the legacy URLs now live: each old path answers with a permanent
//! (308) redirect to its canonical path, keeping a path parameter as it is.
use vstd::prelude::*;
use crate::text::{chars_of, push_str_chars, string_of};

verus! {

/// The status of every legacy redirect: permanent, keeping the method.
pub const LEGACY_REDIRECT_STATUS: u16 = 308;

/// `/me` → `/today`.
pub fn me_to_today() -> (r: &'static str)
    ensures
        r@ == "/today"@,
{
    "/today"
}

/// `/notifications` → `/inbox`.
pub fn notifications_to_inbox() -> (r: &'static str)
    ensures
        r@ == "/inbox"@,
{
    "/inbox"
}

/// `/notifications/mark-all-read` → `/inbox/mark-all-read`.
pub fn notifications_mark_all_read_to_inbox() -> (r: &'static str)
    ensures
        r@ == "/inbox/mark-all-read"@,
{
    "/inbox/mark-all-read"
}

/// `/notifications/{id}/read` → `/inbox/{id}/read`, the id kept verbatim.
pub fn notifications_read_to_inbox(id: &str) -> (r: String)
    ensures
        r@ == "/inbox/"@ + id@ + "/read"@,
{
    let mut out = chars_of("/inbox/");
    push_str_chars(&mut out, id);
    push_str_chars(&mut out, "/read");
    string_of(&out)
}

} // verus!
