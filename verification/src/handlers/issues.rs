//! Issue forms: the query of the project page, the issue form and its
//! validation, and the effort field.
use vstd::prelude::*;
use crate::components::{Column, IssueStatus};
use crate::error::AppError;
use crate::text::{chars_of, eq_chars, parse_i64, parse_i64_of, string_of, trim, trim_of};

verus! {

/// `?view=…&flash=…` of the project page.
pub struct ProjectViewQuery {
    pub view: Option<String>,
    pub flash: Option<String>,
}

/// The issue create/edit form.
pub struct IssueForm {
    /// 1 to 200 characters.
    pub title: String,
    /// At most 10,000 characters.
    pub description: String,
    pub status: String,
    pub priority: String,
    /// The effort `<select>`: empty for "not estimated", else a positive
    /// integer (see [`parse_effort`]).
    pub effort: String,
    /// The assignee `<select>`: empty for "unassigned".
    pub assignee_id: String,
}

/// `?edit=…&flash=…` of the issue page.
pub struct EditFlag {
    pub edit: Option<u8>,
    pub flash: Option<String>,
}

/// The board's status-change form.
pub struct StatusChange {
    pub status: String,
}

/// The title message of a failed issue form.
pub open spec fn title_message() -> Seq<char> {
    "Title is required (max 200 chars)."@
}

/// The description message of a failed issue form.
pub open spec fn issue_description_message() -> Seq<char> {
    "Description too long (max 10,000 chars)."@
}

/// The messages of the failed fields of an issue form, in field order:
/// the title must hold 1 to 200 characters, the description at most
/// 10,000.
pub open spec fn issue_form_messages(title: Seq<char>, description: Seq<char>) -> Seq<Seq<char>> {
    (if 1 <= title.len() <= 200 {
        Seq::empty()
    } else {
        seq![title_message()]
    }) + (if description.len() <= 10_000 {
        Seq::empty()
    } else {
        seq![issue_description_message()]
    })
}

impl IssueForm {
    /// The messages of the fields that fail validation (empty when the
    /// form is valid).
    pub fn validation_messages(&self) -> (r: Vec<String>)
        ensures
            r@.map_values(|s: String| s@) == issue_form_messages(self.title@, self.description@),
    {
        let title = chars_of(self.title.as_str());
        let description = chars_of(self.description.as_str());
        let mut out: Vec<String> = Vec::new();
        if !(1 <= title.len() && title.len() <= 200) {
            out.push(string_of(&chars_of("Title is required (max 200 chars).")));
        }
        if description.len() > 10_000 {
            out.push(string_of(&chars_of("Description too long (max 10,000 chars).")));
        }
        proof {
            assert(out@.map_values(|s: String| s@) =~= issue_form_messages(
                self.title@,
                self.description@,
            ));
        }
        out
    }
}

/// The message of an effort that is not a positive integer.
pub open spec fn effort_message() -> Seq<char> {
    "Effort must be a positive integer."@
}

/// The effort field: empty (after trimming) is `None`, a positive integer
/// is itself, anything else is refused.
pub open spec fn effort_of(raw: Seq<char>) -> Result<Option<i64>, Seq<char>> {
    let t = trim(raw);
    if t.len() == 0 {
        Ok(None)
    } else {
        match parse_i64(t) {
            Some(n) => if n > 0 {
                Ok(Some(n))
            } else {
                Err(effort_message())
            },
            None => Err(effort_message()),
        }
    }
}

/// `""` → `None`, `"3"` → `Some(3)`; negative numbers, zero and
/// non-numeric text are validation errors.
pub fn parse_effort(raw: &str) -> (r: Result<Option<i64>, AppError>)
    ensures
        match r {
            Ok(v) => effort_of(raw@) == Ok::<Option<i64>, Seq<char>>(v),
            Err(AppError::Validation(m)) => effort_of(raw@) == Err::<Option<i64>, Seq<char>>(m@),
            Err(_) => false,
        },
{
    let cs = chars_of(raw);
    let t = trim_of(&cs);
    if t.len() == 0 {
        return Ok(None);
    }
    match parse_i64_of(&t) {
        Some(n) => {
            if n <= 0 {
                Err(AppError::Validation(string_of(&chars_of("Effort must be a positive integer."))))
            } else {
                Ok(Some(n))
            }
        },
        None => Err(AppError::Validation(string_of(&chars_of("Effort must be a positive integer.")))),
    }
}

/// A user an issue of a project may be assigned to.
pub struct AssigneeOption {
    pub id: String,
    pub display_name: String,
}

/// Some candidate has the id `id`.
pub open spec fn is_candidate(id: Seq<char>, candidates: Seq<AssigneeOption>) -> bool {
    exists|k: int| 0 <= k < candidates.len() && (#[trigger] candidates[k]).id@ == id
}

/// The message of an assignee who is not a candidate.
pub open spec fn not_assignable_message() -> Seq<char> {
    "Selected user is not a valid assignee for this project."@
}

/// The assignee field of an issue form: empty (after trimming) leaves the
/// issue unassigned; otherwise it must be the id of one of the project's
/// candidates.
pub fn validate_assignee(raw: &str, candidates: &[AssigneeOption]) -> (r: Result<
    Option<String>,
    AppError,
>)
    ensures
        trim(raw@).len() == 0 ==> r matches Ok(None),
        trim(raw@).len() > 0 && is_candidate(trim(raw@), candidates@) ==> (r matches Ok(Some(t))
            && t@ == trim(raw@)),
        trim(raw@).len() > 0 && !is_candidate(trim(raw@), candidates@) ==> (r matches Err(
            AppError::Validation(m),
        ) && m@ == not_assignable_message()),
{
    let t = trim_of(&chars_of(raw));
    if t.len() == 0 {
        return Ok(None);
    }
    let mut k: usize = 0;
    while k < candidates.len()
        invariant
            k <= candidates.len(),
            t@ == trim(raw@),
            t@.len() > 0,
            forall|j: int| 0 <= j < k ==> (#[trigger] candidates@[j]).id@ != t@,
        decreases candidates.len() - k,
    {
        let c = chars_of(candidates[k].id.as_str());
        if eq_chars(&c, &t) {
            return Ok(Some(string_of(&t)));
        }
        k = k + 1;
    }
    Err(AppError::Validation(string_of(&chars_of("Selected user is not a valid assignee for this project."))))
}

/// The project page's view: the list when asked for, else the board.
pub open spec fn view_mode_of(view: Option<Seq<char>>) -> Seq<char> {
    if view == Some("list"@) {
        "list"@
    } else {
        "board"@
    }
}

pub fn view_mode(view: Option<&str>) -> (r: &'static str)
    ensures
        r@ == view_mode_of(
            match view {
                Some(v) => Some(v@),
                None => None,
            },
        ),
{
    match view {
        Some(v) => {
            let list = chars_of("list");
            if eq_chars(&chars_of(v), &list) {
                "list"
            } else {
                proof {
                    assert(Some(v@) != Some("list"@));
                }
                "board"
            }
        },
        None => "board",
    }
}

/// Issue `i` goes in column `c`: the first column of its status.
pub open spec fn in_column(order: Seq<IssueStatus>, statuses: Seq<IssueStatus>, c: int, i: int) -> bool {
    &&& order[c] == statuses[i]
    &&& forall|c2: int| 0 <= c2 < c ==> order[c2] != statuses[i]
}

/// The board's columns, one per status of `order`, each with the issues
/// of its status, in the list's order; an issue goes to the first column
/// of its status, and to none if its status has no column.
pub fn board_columns(order: &Vec<IssueStatus>, statuses: &Vec<IssueStatus>) -> (r: Vec<Column>)
    ensures
        r.len() == order.len(),
        forall|c: int|
            0 <= c < r.len() ==> {
                &&& (#[trigger] r[c]).status == order[c]
                &&& forall|k: int|
                    0 <= k < r[c].issues.len() ==> r[c].issues[k] < statuses.len() && in_column(
                        order@,
                        statuses@,
                        c,
                        r[c].issues[k] as int,
                    )
                &&& forall|i: int|
                    0 <= i < statuses.len() && in_column(order@, statuses@, c, i)
                        ==> r[c].issues@.contains(i as usize)
                &&& forall|k1: int, k2: int|
                    0 <= k1 < k2 < r[c].issues.len() ==> r[c].issues[k1] < r[c].issues[k2]
            },
{
    let mut columns: Vec<Column> = Vec::new();
    let mut c: usize = 0;
    while c < order.len()
        invariant
            c <= order.len(),
            columns.len() == c,
            forall|c1: int|
                0 <= c1 < c ==> {
                    &&& (#[trigger] columns[c1]).status == order[c1]
                    &&& forall|k: int|
                        0 <= k < columns[c1].issues.len() ==> columns[c1].issues[k] < statuses.len()
                            && in_column(order@, statuses@, c1, columns[c1].issues[k] as int)
                    &&& forall|i: int|
                        0 <= i < statuses.len() && in_column(order@, statuses@, c1, i)
                            ==> columns[c1].issues@.contains(i as usize)
                    &&& forall|k1: int, k2: int|
                        0 <= k1 < k2 < columns[c1].issues.len() ==> columns[c1].issues[k1]
                            < columns[c1].issues[k2]
                },
        decreases order.len() - c,
    {
        let status = order[c];
        let mut issues: Vec<usize> = Vec::new();
        let mut i: usize = 0;
        while i < statuses.len()
            invariant
                c < order.len(),
                status == order@[c as int],
                i <= statuses.len(),
                forall|k: int|
                    0 <= k < issues.len() ==> issues[k] < i && in_column(order@, statuses@, c as int, issues[k] as int),
                forall|j: int|
                    0 <= j < i && in_column(order@, statuses@, c as int, j) ==> issues@.contains(j as usize),
                forall|k1: int, k2: int| 0 <= k1 < k2 < issues.len() ==> issues[k1] < issues[k2],
            decreases statuses.len() - i,
        {
            let st = statuses[i];
            let mut first = st == status;
            let mut c2: usize = 0;
            while c2 < c && first
                invariant
                    c < order.len(),
                    c2 <= c,
                    i < statuses.len(),
                    st == statuses@[i as int],
                    first ==> forall|c3: int| 0 <= c3 < c2 ==> order@[c3] != st,
                    !first ==> !in_column(order@, statuses@, c as int, i as int),
                    first ==> st == order@[c as int],
                decreases c - c2,
            {
                if order[c2] == st {
                    first = false;
                }
                c2 = c2 + 1;
            }
            if first {
                let ghost old_issues = issues@;
                issues.push(i);
                proof {
                    assert forall|j: int|
                        0 <= j < i + 1 && in_column(order@, statuses@, c as int, j) implies issues@.contains(
                        j as usize,
                    ) by {
                        if j < i {
                            assert(old_issues.contains(j as usize));
                            let w = choose|w: int| 0 <= w < old_issues.len() && old_issues[w] == j as usize;
                            assert(issues@[w] == j as usize);
                        } else {
                            assert(issues@[old_issues.len() as int] == j as usize);
                        }
                    }
                }
            }
            i = i + 1;
        }
        columns.push(Column { status, issues });
        c = c + 1;
    }
    columns
}

} // verus!
