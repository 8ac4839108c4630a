//! Team forms, and the rules and redirects of membership changes.
use vstd::prelude::*;
use crate::handlers::query_encoded;
use crate::text::{chars_of, push_str_chars, string_of};

verus! {

/// `?flash=…&error=…` of the team pages.
pub struct FlashQuery {
    pub flash: Option<String>,
    pub error: Option<String>,
}

/// A new team.
pub struct CreateForm {
    pub name: String,
    pub slug: String,
    pub description: String,
}

/// An edited team.
pub struct EditForm {
    pub name: String,
    pub description: String,
}

/// Adding a member by e-mail address, with a role.
pub struct AddMemberForm {
    pub email: String,
    pub role: String,
}

/// Changing a member's role.
pub struct UpdateRoleForm {
    pub role: String,
}

/// URL-safe percent-encoding for the team redirects' query strings, the
/// same encoding as `handlers::percent_encode_query`.
pub fn percent_encode_query(s: &str) -> (r: String)
    ensures
        r@ == query_encoded(vstd::utf8::encode_utf8(s@)),
{
    crate::handlers::percent_encode_query(s)
}

/// A team page with an error message in its query string.
pub open spec fn team_error_location(slug: Seq<char>, message: Seq<char>) -> Seq<char> {
    "/teams/"@ + slug + "?error="@ + query_encoded(vstd::utf8::encode_utf8(message))
}

/// Where a refused team change redirects: the team's page, the message
/// encoded into `?error=`.
pub fn team_error_redirect(slug: &str, message: &str) -> (r: String)
    ensures
        r@ == team_error_location(slug@, message@),
{
    let encoded = percent_encode_query(message);
    let mut out = chars_of("/teams/");
    push_str_chars(&mut out, slug);
    push_str_chars(&mut out, "?error=");
    push_str_chars(&mut out, encoded.as_str());
    string_of(&out)
}

/// The message for an invitation to an address no user has.
pub open spec fn unknown_email_text(email: Seq<char>) -> Seq<char> {
    "No user with email '"@ + email + "' was found."@
}

pub fn unknown_email_message(email: &str) -> (r: String)
    ensures
        r@ == unknown_email_text(email@),
{
    let mut m = chars_of("No user with email '");
    push_str_chars(&mut m, email);
    push_str_chars(&mut m, "' was found.");
    string_of(&m)
}

/// The message refusing to demote the last admin.
pub fn last_admin_demotion_message() -> (r: &'static str)
    ensures
        r@ == "This is the last admin of the team — promote another member to admin first, then change this role."@,
{
    "This is the last admin of the team — promote another member to admin first, then change this role."
}

/// The message refusing to remove the last admin.
pub fn last_admin_removal_message() -> (r: &'static str)
    ensures
        r@ == "This is the last admin of the team — assign another admin before removing this one."@,
{
    "This is the last admin of the team — assign another admin before removing this one."
}

/// A role change that would leave the team without an admin: an admin
/// given another role while at most one admin remains.
pub fn demotes_last_admin(new_role_is_admin: bool, current_is_admin: bool, admin_count: i64) -> (r: bool)
    ensures
        r == (!new_role_is_admin && current_is_admin && admin_count <= 1),
{
    !new_role_is_admin && current_is_admin && admin_count <= 1
}

/// A removal that would leave the team without an admin.
pub fn removes_last_admin(target_is_admin: bool, admin_count: i64) -> (r: bool)
    ensures
        r == (target_is_admin && admin_count <= 1),
{
    target_is_admin && admin_count <= 1
}

/// Anyone may leave a team; removing someone else takes a team manager.
pub fn may_remove(is_self_removal: bool, can_manage_team: bool) -> (r: bool)
    ensures
        r == (is_self_removal || can_manage_team),
{
    is_self_removal || can_manage_team
}

/// Where a removal redirects: the teams list for one who left, else the
/// team's page.
pub fn after_removal(slug: &str, is_self_removal: bool) -> (r: String)
    ensures
        is_self_removal ==> r@ == "/teams?flash=You+left+the+team"@,
        !is_self_removal ==> r@ == "/teams/"@ + slug@ + "?flash=Member+removed"@,
{
    if is_self_removal {
        string_of(&chars_of("/teams?flash=You+left+the+team"))
    } else {
        let mut out = chars_of("/teams/");
        push_str_chars(&mut out, slug);
        push_str_chars(&mut out, "?flash=Member+removed");
        string_of(&out)
    }
}

/// A role change that would leave the team without an admin is refused
/// with a redirect to the team's page carrying the demotion message;
/// `None` lets the change through.
pub fn role_change_refusal(slug: &str, new_role_is_admin: bool, current_is_admin: bool, admin_count: i64) -> (r:
    Option<String>)
    ensures
        r is Some <==> (!new_role_is_admin && current_is_admin && admin_count <= 1),
        r matches Some(loc) ==> loc@ == team_error_location(
            slug@,
            "This is the last admin of the team — promote another member to admin first, then change this role."@,
        ),
{
    if demotes_last_admin(new_role_is_admin, current_is_admin, admin_count) {
        Some(team_error_redirect(slug, last_admin_demotion_message()))
    } else {
        None
    }
}

/// A removal that would leave the team without an admin is refused with a
/// redirect to the team's page carrying the removal message; `None` lets
/// it through.
pub fn removal_refusal(slug: &str, target_is_admin: bool, admin_count: i64) -> (r: Option<String>)
    ensures
        r is Some <==> (target_is_admin && admin_count <= 1),
        r matches Some(loc) ==> loc@ == team_error_location(
            slug@,
            "This is the last admin of the team — assign another admin before removing this one."@,
        ),
{
    if removes_last_admin(target_is_admin, admin_count) {
        Some(team_error_redirect(slug, last_admin_removal_message()))
    } else {
        None
    }
}

} // verus!
