//! What the issue pages decide before rendering: an assignee's label,
//! the sprint picker, the effort options and the sub-issue section.
use vstd::prelude::*;
use crate::components::IssueStatus;
use crate::handlers::issues::AssigneeOption;
use crate::text::{chars_of, eq_chars};
use crate::handlers::sprints::opt_str;

verus! {

/// The name shown for the assignee `id`: the display name of the first
/// candidate with that id, else the id itself (a former member).
pub open spec fn label_of(id: Seq<char>, candidates: Seq<AssigneeOption>) -> Seq<char>
    decreases candidates.len(),
{
    if candidates.len() == 0 {
        id
    } else if candidates[0].id@ == id {
        candidates[0].display_name@
    } else {
        label_of(id, candidates.drop_first())
    }
}

/// Looks up an assignee's display name by id.
pub fn assignee_label<'a>(id: &'a str, assignees: &'a [AssigneeOption]) -> (r: &'a str)
    ensures
        r@ == label_of(id@, assignees@),
{
    let target = chars_of(id);
    let mut k: usize = 0;
    proof {
        assert(assignees@.subrange(0, assignees@.len() as int) =~= assignees@);
    }
    while k < assignees.len()
        invariant
            k <= assignees.len(),
            target@ == id@,
            label_of(id@, assignees@) == label_of(id@, assignees@.subrange(k as int, assignees@.len() as int)),
        decreases assignees.len() - k,
    {
        proof {
            assert(assignees@.subrange(k as int, assignees@.len() as int).drop_first() =~= assignees@.subrange(
                k + 1,
                assignees@.len() as int,
            ));
        }
        let c = chars_of(assignees[k].id.as_str());
        if eq_chars(&c, &target) {
            return assignees[k].display_name.as_str();
        }
        k = k + 1;
    }
    id
}

/// The issue page's sprint picker: shown only when there are sprints to
/// pick and the issue is top-level (a sub-issue follows its parent's
/// sprint); the issue's own sprint is selected, and "no sprint" when it
/// has none.
pub struct SprintPicker {
    pub shown: bool,
    /// One flag per option, in order.
    pub selected: Vec<bool>,
    pub none_selected: bool,
}

pub fn sprint_picker(option_ids: &Vec<String>, current_sprint_id: &Option<String>, is_top_level: bool) -> (r:
    SprintPicker)
    ensures
        r.shown == (option_ids.len() > 0 && is_top_level),
        r.none_selected == (current_sprint_id is None),
        r.selected.len() == option_ids.len(),
        forall|k: int|
            0 <= k < option_ids.len() ==> r.selected@[k] == (opt_str(*current_sprint_id) == Some(
                #[trigger] option_ids@[k]@,
            )),
{
    let mut selected: Vec<bool> = Vec::new();
    let mut k: usize = 0;
    while k < option_ids.len()
        invariant
            k <= option_ids.len(),
            selected.len() == k,
            forall|j: int|
                0 <= j < k ==> selected@[j] == (opt_str(*current_sprint_id) == Some(
                    #[trigger] option_ids@[j]@,
                )),
        decreases option_ids.len() - k,
    {
        let is_current = match current_sprint_id {
            Some(c) => eq_chars(&chars_of(c.as_str()), &chars_of(option_ids[k].as_str())),
            None => false,
        };
        selected.push(is_current);
        k = k + 1;
    }
    SprintPicker {
        shown: option_ids.len() > 0 && is_top_level,
        selected,
        none_selected: current_sprint_id.is_none(),
    }
}

/// The effort select of the issue form: "none" selected when the issue
/// has no effort, each preset selected when it is the issue's effort, and
/// one more option, selected, for an effort that is no preset, so that
/// saving keeps it.
pub struct EffortOptions {
    pub none_selected: bool,
    /// `(value, selected)`, presets first, in order.
    pub options: Vec<(i64, bool)>,
}

pub open spec fn is_preset(presets: Seq<i64>, n: i64) -> bool {
    exists|k: int| 0 <= k < presets.len() && presets[k] == n
}

/// The issue's effort where it is no preset.
pub open spec fn extra_effort(presets: Seq<i64>, current: Option<i64>) -> Option<i64> {
    match current {
        Some(n) => if is_preset(presets, n) {
            None
        } else {
            Some(n)
        },
        None => None,
    }
}

pub fn effort_options(presets: &Vec<i64>, current: Option<i64>) -> (r: EffortOptions)
    ensures
        r.none_selected == (current is None),
        r.options.len() == presets.len() + if extra_effort(presets@, current) is Some {
            1int
        } else {
            0int
        },
        forall|k: int|
            0 <= k < presets.len() ==> r.options@[k] == (presets@[k], current == Some(presets@[k])),
        extra_effort(presets@, current) matches Some(n) ==> r.options@[presets.len() as int] == (
            n,
            true,
        ),
{
    let mut options: Vec<(i64, bool)> = Vec::new();
    let mut found = false;
    let mut k: usize = 0;
    while k < presets.len()
        invariant
            k <= presets.len(),
            options.len() == k,
            forall|j: int| 0 <= j < k ==> options@[j] == (presets@[j], current == Some(presets@[j])),
            found == (current matches Some(n) && exists|j: int| 0 <= j < k && presets@[j] == n),
        decreases presets.len() - k,
    {
        let p = presets[k];
        let sel = match current {
            Some(n) => n == p,
            None => false,
        };
        if sel {
            found = true;
        }
        options.push((p, sel));
        k = k + 1;
    }
    match current {
        Some(n) => {
            if !found {
                options.push((n, true));
            }
        },
        None => {},
    }
    EffortOptions { none_selected: current.is_none(), options }
}


/// The badge classes of a sub-issue's status in its parent's list.
pub open spec fn sub_issue_badge(status: IssueStatus) -> Seq<char> {
    match status {
        IssueStatus::Open => "badge badge-xs badge-ghost"@,
        IssueStatus::InProgress => "badge badge-xs badge-primary"@,
        IssueStatus::Done => "badge badge-xs badge-success"@,
    }
}

/// The badge classes of a sub-issue's status.
pub fn sub_issue_badge_class(status: IssueStatus) -> (r: &'static str)
    ensures
        r@ == sub_issue_badge(status),
{
    match status {
        IssueStatus::Open => "badge badge-xs badge-ghost",
        IssueStatus::InProgress => "badge badge-xs badge-primary",
        IssueStatus::Done => "badge badge-xs badge-success",
    }
}

/// What the issue page shows of sub-issues.
#[derive(Debug, Clone, Copy, PartialEq, Eq, Structural)]
pub enum SubIssueSection {
    /// A sub-issue has no sub-issues of its own: no section at all.
    Hidden,
    /// A top-level issue without sub-issues: the section with its empty
    /// message.
    Empty,
    /// A top-level issue with sub-issues: the section with their list.
    Listed,
}

/// The sub-issue section of an issue page: only a top-level issue has
/// one, empty or listing its sub-issues.
pub fn sub_issue_section(is_top_level: bool, sub_issue_count: usize) -> (r: SubIssueSection)
    ensures
        r == (if !is_top_level {
            SubIssueSection::Hidden
        } else if sub_issue_count == 0 {
            SubIssueSection::Empty
        } else {
            SubIssueSection::Listed
        }),
{
    if !is_top_level {
        SubIssueSection::Hidden
    } else if sub_issue_count == 0 {
        SubIssueSection::Empty
    } else {
        SubIssueSection::Listed
    }
}

} // verus!
