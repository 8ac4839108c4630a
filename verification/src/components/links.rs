//! The links of the project and issue pages.
use vstd::prelude::*;
use crate::handlers::search::{issue_url, project_url};
use crate::text::{chars_of, eq_chars, push_str_chars, string_of};

verus! {

/// The links of a project's page.
pub struct ProjectLinks {
    pub board: String,
    pub list: String,
    pub edit: String,
    pub new_issue: String,
    pub calendar: String,
}

fn project_path(project_id: &str, tail: &str) -> (r: String)
    ensures
        r@ == project_url(project_id@) + tail@,
{
    let mut p = chars_of("/projects/");
    push_str_chars(&mut p, project_id);
    push_str_chars(&mut p, tail);
    string_of(&p)
}

/// The board and list views, the edit form, the new-issue form and the
/// calendar of a project.
pub fn project_links(project_id: &str) -> (r: ProjectLinks)
    ensures
        r.board@ == project_url(project_id@) + "?view=board"@,
        r.list@ == project_url(project_id@) + "?view=list"@,
        r.edit@ == project_url(project_id@) + "/edit"@,
        r.new_issue@ == project_url(project_id@) + "/issues/new"@,
        r.calendar@ == project_url(project_id@) + "/calendar"@,
{
    ProjectLinks {
        board: project_path(project_id, "?view=board"),
        list: project_path(project_id, "?view=list"),
        edit: project_path(project_id, "/edit"),
        new_issue: project_path(project_id, "/issues/new"),
        calendar: project_path(project_id, "/calendar"),
    }
}

/// The classes of the board and list toggles: the active view's button is
/// the highlighted one, and anything but `board` shows the list.
pub open spec fn toggle_classes_of(view_mode: Seq<char>) -> (Seq<char>, Seq<char>) {
    if view_mode == "board"@ {
        ("join-item btn btn-sm btn-active btn-primary"@, "join-item btn btn-sm btn-ghost"@)
    } else {
        ("join-item btn btn-sm btn-ghost"@, "join-item btn btn-sm btn-active btn-primary"@)
    }
}

pub fn toggle_classes(view_mode: &str) -> (r: (&'static str, &'static str))
    ensures
        (r.0@, r.1@) == toggle_classes_of(view_mode@),
{
    let board = chars_of("board");
    if eq_chars(&chars_of(view_mode), &board) {
        ("join-item btn btn-sm btn-active btn-primary", "join-item btn btn-sm btn-ghost")
    } else {
        ("join-item btn btn-sm btn-ghost", "join-item btn btn-sm btn-active btn-primary")
    }
}

/// The links of an issue's page.
pub struct IssueLinks {
    pub detail: String,
    pub edit: String,
    pub delete: String,
    pub sprint: String,
    pub new_sub_issue: String,
    pub board_status: String,
}

fn issue_path(project_id: &str, issue_id: &str, tail: &str) -> (r: String)
    ensures
        r@ == issue_url(project_id@, issue_id@) + tail@,
{
    let mut p = chars_of("/projects/");
    push_str_chars(&mut p, project_id);
    push_str_chars(&mut p, "/issues/");
    push_str_chars(&mut p, issue_id);
    push_str_chars(&mut p, tail);
    string_of(&p)
}

/// An issue's page and the actions on it: edit, delete, sprint
/// assignment, a new sub-issue, and the board's status buttons.
pub fn issue_links(project_id: &str, issue_id: &str) -> (r: IssueLinks)
    ensures
        r.detail@ == issue_url(project_id@, issue_id@),
        r.edit@ == issue_url(project_id@, issue_id@) + "/edit"@,
        r.delete@ == issue_url(project_id@, issue_id@) + "/delete"@,
        r.sprint@ == issue_url(project_id@, issue_id@) + "/sprint"@,
        r.new_sub_issue@ == issue_url(project_id@, issue_id@) + "/sub-issues/new"@,
        r.board_status@ == issue_url(project_id@, issue_id@) + "/status/board"@,
{
    let detail = issue_path(project_id, issue_id, "");
    proof {
        reveal_strlit("");
        assert(issue_url(project_id@, issue_id@) + ""@ =~= issue_url(project_id@, issue_id@));
    }
    IssueLinks {
        detail,
        edit: issue_path(project_id, issue_id, "/edit"),
        delete: issue_path(project_id, issue_id, "/delete"),
        sprint: issue_path(project_id, issue_id, "/sprint"),
        new_sub_issue: issue_path(project_id, issue_id, "/sub-issues/new"),
        board_status: issue_path(project_id, issue_id, "/status/board"),
    }
}

} // verus!
