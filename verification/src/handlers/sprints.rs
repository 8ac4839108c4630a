//! Sprint forms, and the planning page: its filter query string, who may
//! move issues, the backlog beside the plan, and the team's assignees.
use vstd::prelude::*;
use crate::handlers::{percent_encode_query, query_encoded};
use crate::error::AppError;
use crate::handlers::issues::AssigneeOption;
use crate::handlers::settings::{parse_ymd, ymd_date, CalendarDate};
use crate::text::{
    chars_of, eq_chars, lemma_text_lt_asymmetric, lemma_text_lt_total, lemma_text_lt_transitive,
    push_all, push_str_chars, string_of, text_lt, text_lt_exec, trim, trim_of,
};

verus! {

/// `?flash=…&error=…` of the sprint pages.
pub struct FlashQuery {
    pub flash: Option<String>,
    pub error: Option<String>,
}

/// The sprint create/edit form.
pub struct SprintForm {
    pub name: String,
    pub goal: String,
    pub starts_on: String,
    pub ends_on: String,
    pub client_updated_at: String,
}

/// Starting or completing a sprint, with the lock value of the render.
pub struct LifecycleForm {
    pub client_updated_at: String,
}

impl Default for LifecycleForm {
    fn default() -> (r: Self)
        ensures
            r.client_updated_at@ == Seq::<char>::empty(),
    {
        LifecycleForm { client_updated_at: String::new() }
    }
}

/// Assigning an issue to a sprint (empty for the backlog).
pub struct AssignIssueForm {
    pub sprint_id: String,
}

/// The filters of the planning page.
#[derive(Clone)]
pub struct PlanQuery {
    pub project: Option<String>,
    pub priority: Option<String>,
    pub assignee: Option<String>,
}

impl Default for PlanQuery {
    fn default() -> (r: Self)
        ensures
            r.project is None,
            r.priority is None,
            r.assignee is None,
    {
        PlanQuery { project: None, priority: None, assignee: None }
    }
}

/// Adding an issue to the plan, with the filters to return to.
pub struct PlanAddForm {
    pub issue_id: String,
    pub project_id: String,
    pub project: Option<String>,
    pub priority: Option<String>,
    pub assignee: Option<String>,
}

/// Removing an issue from the plan, with the filters to return to.
pub struct PlanRemoveForm {
    pub issue_id: String,
    pub project: Option<String>,
    pub priority: Option<String>,
    pub assignee: Option<String>,
}

pub open spec fn opt_str(o: Option<String>) -> Option<Seq<char>> {
    match o {
        Some(s) => Some(s@),
        None => None,
    }
}

/// `key=<encoded value>` for a present, non-empty filter value.
pub open spec fn filter_part(key: Seq<char>, v: Option<Seq<char>>) -> Seq<Seq<char>> {
    match v {
        Some(s) => if s.len() > 0 {
            seq![key + query_encoded(vstd::utf8::encode_utf8(s))]
        } else {
            Seq::empty()
        },
        None => Seq::empty(),
    }
}

/// The parts joined with `&`.
pub open spec fn join_amp(parts: Seq<Seq<char>>) -> Seq<char>
    decreases parts.len(),
{
    if parts.len() == 0 {
        Seq::empty()
    } else if parts.len() == 1 {
        parts[0]
    } else {
        join_amp(parts.drop_last()) + "&"@ + parts.last()
    }
}

/// The filters as a query string: `?project=…&priority=…&assignee=…`
/// with the absent or empty ones left out, or nothing at all.
pub open spec fn plan_query(
    project: Option<Seq<char>>,
    priority: Option<Seq<char>>,
    assignee: Option<Seq<char>>,
) -> Seq<char> {
    let parts = filter_part("project="@, project) + filter_part("priority="@, priority) + filter_part(
        "assignee="@,
        assignee,
    );
    if parts.len() == 0 {
        Seq::empty()
    } else {
        "?"@ + join_amp(parts)
    }
}

fn push_part(parts: &mut Vec<Vec<char>>, key: &str, v: &Option<String>)
    ensures
        final(parts)@.map_values(|p: Vec<char>| p@) == old(parts)@.map_values(|p: Vec<char>| p@)
            + filter_part(key@, opt_str(*v)),
{
    let ghost before = parts@.map_values(|p: Vec<char>| p@);
    match v {
        Some(s) => {
            if !s.as_str().is_empty() {
                let mut part = chars_of(key);
                let enc = percent_encode_query(s.as_str());
                let e = chars_of(enc.as_str());
                push_all(&mut part, &e);
                parts.push(part);
                proof {
                    assert(parts@.map_values(|p: Vec<char>| p@) =~= before + filter_part(
                        key@,
                        opt_str(*v),
                    ));
                }
            } else {
                proof {
                    assert(before + filter_part(key@, opt_str(*v)) =~= before);
                }
            }
        },
        None => {
            proof {
                assert(before + filter_part(key@, opt_str(*v)) =~= before);
            }
        },
    }
}

/// The planning page's filter query string.
pub fn plan_query_string(
    project: &Option<String>,
    priority: &Option<String>,
    assignee: &Option<String>,
) -> (r: String)
    ensures
        r@ == plan_query(opt_str(*project), opt_str(*priority), opt_str(*assignee)),
{
    let mut parts: Vec<Vec<char>> = Vec::new();
    proof {
        assert(parts@.map_values(|p: Vec<char>| p@) =~= Seq::<Seq<char>>::empty());
    }
    push_part(&mut parts, "project=", project);
    push_part(&mut parts, "priority=", priority);
    push_part(&mut parts, "assignee=", assignee);
    let ghost pv = parts@.map_values(|p: Vec<char>| p@);
    proof {
        assert(pv =~= filter_part("project="@, opt_str(*project)) + filter_part(
            "priority="@,
            opt_str(*priority),
        ) + filter_part("assignee="@, opt_str(*assignee)));
    }
    if parts.len() == 0 {
        return String::new();
    }
    let mut out = chars_of("?");
    let mut i: usize = 0;
    let ghost start = out@;
    while i < parts.len()
        invariant
            0 <= i <= parts@.len(),
            pv == parts@.map_values(|p: Vec<char>| p@),
            out@ == start + join_amp(pv.take(i as int)),
        decreases parts@.len() - i,
    {
        proof {
            assert(pv.take(i + 1).drop_last() =~= pv.take(i as int));
            assert(pv.take(i + 1).last() == parts@[i as int]@);
        }
        if i > 0 {
            push_str_chars(&mut out, "&");
        }
        push_all(&mut out, &parts[i]);
        i = i + 1;
        proof {
            if i == 1 {
                assert(pv.take(1) =~= seq![pv[0]]);
            }
            assert(out@ =~= start + join_amp(pv.take(i as int)));
        }
    }
    proof {
        assert(pv.take(i as int) =~= pv);
    }
    string_of(&out)
}

/// Where a sprint is in its life.
#[derive(Debug, Clone, Copy, PartialEq, Eq, Structural)]
pub enum SprintStatus {
    Planned,
    Active,
    Completed,
}

/// What the planning page lets a member do: move issues in or out (a
/// writer, on a sprint not yet started), and see the backlog (on any
/// sprint not completed).
pub fn plan_permissions(can_write: bool, status: SprintStatus) -> (r: (bool, bool))
    ensures
        r.0 == (can_write && status == SprintStatus::Planned),
        r.1 == (status != SprintStatus::Completed),
{
    let can_move = can_write && match status {
        SprintStatus::Planned => true,
        _ => false,
    };
    let show_backlog = match status {
        SprintStatus::Completed => false,
        _ => true,
    };
    (can_move, show_backlog)
}

/// A filter value: an empty one filters nothing.
pub open spec fn filter_value(o: Option<String>) -> Option<Seq<char>> {
    match o {
        Some(v) => if v@.len() == 0 {
            None
        } else {
            Some(v@)
        },
        None => None,
    }
}

fn non_empty(o: &Option<String>) -> (r: Option<String>)
    ensures
        opt_str(r) == filter_value(*o),
{
    match o {
        Some(v) => if v.as_str().is_empty() {
            None
        } else {
            Some(v.clone())
        },
        None => None,
    }
}

/// The project and assignee the backlog is narrowed to.
pub struct BacklogScope {
    pub project_id: Option<String>,
    pub assignee_id: Option<String>,
}

/// The backlog's project and assignee filters from the page's query.
pub fn backlog_scope(q: &PlanQuery) -> (r: BacklogScope)
    ensures
        opt_str(r.project_id) == filter_value(q.project),
        opt_str(r.assignee_id) == filter_value(q.assignee),
{
    BacklogScope { project_id: non_empty(&q.project), assignee_id: non_empty(&q.assignee) }
}

/// `ids` holds `id`.
pub open spec fn holds_id(ids: Seq<String>, id: Seq<char>) -> bool {
    exists|k: int| 0 <= k < ids.len() && (#[trigger] ids[k])@ == id
}

/// The backlog rows beside the plan: the positions, in order, of the
/// backlog issues that are not already in the sprint.
pub fn outside_sprint(backlog_ids: &Vec<String>, sprint_ids: &Vec<String>) -> (r: Vec<usize>)
    ensures
        forall|k: int| 0 <= k < r.len() ==> r[k] < backlog_ids.len() && !holds_id(sprint_ids@, backlog_ids@[r[k] as int]@),
        forall|i: int|
            0 <= i < backlog_ids.len() && !holds_id(sprint_ids@, #[trigger] backlog_ids@[i]@) ==> r@.contains(i as usize),
        forall|k1: int, k2: int| 0 <= k1 < k2 < r.len() ==> r[k1] < r[k2],
{
    let mut out: Vec<usize> = Vec::new();
    let mut i: usize = 0;
    while i < backlog_ids.len()
        invariant
            i <= backlog_ids.len(),
            forall|k: int| 0 <= k < out.len() ==> out[k] < i && !holds_id(sprint_ids@, backlog_ids@[out[k] as int]@),
            forall|j: int|
                0 <= j < i && !holds_id(sprint_ids@, #[trigger] backlog_ids@[j]@) ==> out@.contains(j as usize),
            forall|k1: int, k2: int| 0 <= k1 < k2 < out.len() ==> out[k1] < out[k2],
        decreases backlog_ids.len() - i,
    {
        let id = chars_of(backlog_ids[i].as_str());
        let mut found = false;
        let mut k: usize = 0;
        while k < sprint_ids.len()
            invariant
                k <= sprint_ids.len(),
                i < backlog_ids.len(),
                id@ == backlog_ids@[i as int]@,
                found ==> holds_id(sprint_ids@, id@),
                !found ==> forall|j: int| 0 <= j < k ==> (#[trigger] sprint_ids@[j])@ != id@,
            decreases sprint_ids.len() - k,
        {
            let other = chars_of(sprint_ids[k].as_str());
            if eq_chars(&other, &id) {
                found = true;
            }
            k = k + 1;
        }
        if !found {
            let ghost old_out = out@;
            out.push(i);
            proof {
                assert forall|j: int|
                    0 <= j < i + 1 && !holds_id(sprint_ids@, #[trigger] backlog_ids@[j]@) implies out@.contains(
                    j as usize,
                ) by {
                    if j < i {
                        assert(old_out.contains(j as usize));
                        let w = choose|w: int| 0 <= w < old_out.len() && old_out[w] == j as usize;
                        assert(out@[w] == j as usize);
                    } else {
                        assert(out@[old_out.len() as int] == j as usize);
                    }
                }
            }
        }
        i = i + 1;
    }
    out
}

/// Some candidate of `s` has the id `id`.
pub open spec fn has_id(s: Seq<AssigneeOption>, id: Seq<char>) -> bool {
    exists|k: int| 0 <= k < s.len() && (#[trigger] s[k]).id@ == id
}

/// The candidates with the first of each id kept, in their order.
pub open spec fn first_of_each(s: Seq<AssigneeOption>) -> Seq<AssigneeOption>
    decreases s.len(),
{
    if s.len() == 0 {
        Seq::empty()
    } else {
        let d = first_of_each(s.drop_last());
        if has_id(d, s.last().id@) {
            d
        } else {
            d.push(s.last())
        }
    }
}

/// Candidate `i` of `d` is listed before candidate `j`: by display name,
/// ties in the order given.
pub open spec fn name_before(d: Seq<AssigneeOption>, i: int, j: int) -> bool {
    text_lt(d[i].display_name@, d[j].display_name@) || (d[i].display_name@ == d[j].display_name@
        && i < j)
}

/// `p` lists every position of `d` once, in name order.
pub open spec fn name_order(d: Seq<AssigneeOption>, p: Seq<usize>) -> bool {
    &&& p.len() == d.len()
    &&& forall|k: int| 0 <= k < p.len() ==> p[k] < d.len()
    &&& forall|i: int| 0 <= i < d.len() ==> #[trigger] p.contains(i as usize)
    &&& forall|k1: int, k2: int| 0 <= k1 < k2 < p.len() ==> name_before(d, p[k1] as int, p[k2] as int)
}

/// Keeping the first of each id leaves every id once: no two kept
/// candidates share an id, and every candidate's id is kept.
pub proof fn lemma_first_of_each(s: Seq<AssigneeOption>)
    ensures
        forall|i: int, j: int|
            0 <= i < j < first_of_each(s).len() ==> first_of_each(s)[i].id@ != first_of_each(s)[j].id@,
        forall|i: int| 0 <= i < s.len() ==> has_id(first_of_each(s), (#[trigger] s[i]).id@),
    decreases s.len(),
{
    if s.len() > 0 {
        let t = s.drop_last();
        lemma_first_of_each(t);
        let d = first_of_each(t);
        assert forall|i: int| 0 <= i < s.len() implies has_id(first_of_each(s), (#[trigger] s[i]).id@) by {
            if i < t.len() {
                assert(t[i] == s[i]);
                assert(has_id(d, t[i].id@));
                let k = choose|k: int| 0 <= k < d.len() && (#[trigger] d[k]).id@ == t[i].id@;
                if !has_id(d, s.last().id@) {
                    assert(first_of_each(s)[k] == d[k]);
                }
            } else {
                if !has_id(d, s.last().id@) {
                    assert(first_of_each(s)[d.len() as int] == s.last());
                }
            }
        }
    }
}

proof fn lemma_name_before_chains(d: Seq<AssigneeOption>, i: int, j: int, k: int)
    requires
        name_before(d, i, j),
        name_before(d, j, k),
    ensures
        name_before(d, i, k),
{
    let (a, b, c) = (d[i].display_name@, d[j].display_name@, d[k].display_name@);
    if text_lt(a, b) && text_lt(b, c) {
        lemma_text_lt_transitive(a, b, c);
    }
}

fn copy_assignee(a: &AssigneeOption) -> (r: AssigneeOption)
    ensures
        r == *a,
{
    AssigneeOption { id: a.id.clone(), display_name: a.display_name.clone() }
}

fn has_id_exec(s: &Vec<AssigneeOption>, id: &Vec<char>) -> (r: bool)
    ensures
        r == has_id(s@, id@),
{
    let mut k: usize = 0;
    while k < s.len()
        invariant
            k <= s.len(),
            forall|j: int| 0 <= j < k ==> (#[trigger] s@[j]).id@ != id@,
        decreases s.len() - k,
    {
        let c = chars_of(s[k].id.as_str());
        if eq_chars(&c, id) {
            return true;
        }
        k = k + 1;
    }
    false
}

/// The candidates with the first of each id kept.
fn dedup_by_id(candidates: &Vec<AssigneeOption>) -> (r: Vec<AssigneeOption>)
    ensures
        r@ == first_of_each(candidates@),
{
    let mut out: Vec<AssigneeOption> = Vec::new();
    let mut i: usize = 0;
    while i < candidates.len()
        invariant
            i <= candidates.len(),
            out@ == first_of_each(candidates@.take(i as int)),
        decreases candidates.len() - i,
    {
        proof {
            assert(candidates@.take(i + 1).drop_last() =~= candidates@.take(i as int));
        }
        let id = chars_of(candidates[i].id.as_str());
        if !has_id_exec(&out, &id) {
            out.push(copy_assignee(&candidates[i]));
        }
        i = i + 1;
    }
    proof {
        assert(candidates@.take(candidates.len() as int) =~= candidates@);
    }
    out
}

/// The positions of `d` in name order.
fn name_order_of(d: &Vec<AssigneeOption>) -> (p: Vec<usize>)
    ensures
        name_order(d@, p@),
{
    let mut p: Vec<usize> = Vec::new();
    let mut i: usize = 0;
    while i < d.len()
        invariant
            i <= d.len(),
            p.len() == i,
            forall|k: int| 0 <= k < p.len() ==> p[k] < i,
            forall|x: int| 0 <= x < i ==> #[trigger] p@.contains(x as usize),
            forall|k1: int, k2: int|
                0 <= k1 < k2 < p.len() ==> name_before(d@, p[k1] as int, p[k2] as int),
        decreases d.len() - i,
    {
        let name = chars_of(d[i].display_name.as_str());
        let mut pos: usize = 0;
        while pos < p.len() && !text_lt_exec(&name, &chars_of(d[p[pos]].display_name.as_str()))
            invariant
                i < d.len(),
                name@ == d@[i as int].display_name@,
                pos <= p.len(),
                p.len() == i,
                forall|k: int| 0 <= k < p.len() ==> p[k] < i,
                forall|k: int| 0 <= k < pos ==> name_before(d@, p[k] as int, i as int),
            decreases p.len() - pos,
        {
            proof {
                let other = d@[p[pos as int] as int].display_name@;
                lemma_text_lt_total(name@, other);
            }
            pos = pos + 1;
        }
        proof {
            assert forall|k: int| pos <= k < p.len() implies name_before(
                d@,
                i as int,
                p[k] as int,
            ) by {
                assert(name_before(d@, i as int, p[pos as int] as int));
                if k > pos {
                    lemma_name_before_chains(d@, i as int, p[pos as int] as int, p[k] as int);
                }
            }
        }
        let ghost old_p = p@;
        p.insert(pos, i);
        proof {
            assert forall|k1: int, k2: int| 0 <= k1 < k2 < p.len() implies name_before(
                d@,
                p[k1] as int,
                p[k2] as int,
            ) by {
                if k2 < pos {
                } else if k2 == pos {
                } else if k1 < pos {
                    assert(p[k2] == old_p[k2 - 1]);
                } else if k1 == pos {
                    assert(p[k2] == old_p[k2 - 1]);
                } else {
                    assert(p[k1] == old_p[k1 - 1]);
                    assert(p[k2] == old_p[k2 - 1]);
                }
            }
            assert forall|x: int| 0 <= x < i + 1 implies #[trigger] p@.contains(x as usize) by {
                if x < i {
                    assert(old_p.contains(x as usize));
                    let w = choose|w: int| 0 <= w < old_p.len() && old_p[w] == x as usize;
                    if w < pos {
                        assert(p[w] == x as usize);
                    } else {
                        assert(p[w + 1] == x as usize);
                    }
                } else {
                    assert(p[pos as int] == x as usize);
                }
            }
        }
        i = i + 1;
    }
    p
}

/// The team's assignees for the planning page's filter: the candidates of
/// all its projects, the first of each id kept, listed by display name
/// (ties in the order met).
pub fn team_assignees(candidates: &Vec<AssigneeOption>) -> (r: Vec<AssigneeOption>)
    ensures
        forall|i: int, j: int| 0 <= i < j < r.len() ==> r@[i].id@ != r@[j].id@,
        forall|i: int| 0 <= i < candidates.len() ==> has_id(r@, (#[trigger] candidates@[i]).id@),
        exists|p: Seq<usize>|
            name_order(first_of_each(candidates@), p) && r@.len() == p.len() && forall|k: int|
                0 <= k < p.len() ==> r@[k] == first_of_each(candidates@)[#[trigger] p[k] as int],
{
    let d = dedup_by_id(candidates);
    let p = name_order_of(&d);
    let mut r: Vec<AssigneeOption> = Vec::new();
    let mut k: usize = 0;
    while k < p.len()
        invariant
            k <= p.len(),
            name_order(d@, p@),
            r@.len() == k,
            forall|j: int| 0 <= j < k ==> r@[j] == d@[#[trigger] p@[j] as int],
        decreases p.len() - k,
    {
        r.push(copy_assignee(&d[p[k]]));
        k = k + 1;
    }
    proof {
        let d = first_of_each(candidates@);
        lemma_first_of_each(candidates@);
        assert forall|i: int, j: int| 0 <= i < j < r.len() implies r@[i].id@ != r@[j].id@ by {
            let (a, b) = (p@[i] as int, p@[j] as int);
            assert(name_before(d, a, b));
            assert(r@[i] == d[a]);
            assert(r@[j] == d[b]);
            if a == b {
                lemma_text_lt_asymmetric(d[a].display_name@, d[a].display_name@);
            }
            if a < b {
                assert(d[a].id@ != d[b].id@);
            } else if b < a {
                assert(d[b].id@ != d[a].id@);
            }
        }
        assert forall|i: int| 0 <= i < candidates.len() implies has_id(r@, (#[trigger] candidates@[i]).id@) by {
            assert(has_id(d, candidates@[i].id@));
            let k = choose|k: int| 0 <= k < d.len() && (#[trigger] d[k]).id@ == candidates@[i].id@;
            assert(p@.contains(k as usize));
            let w = choose|w: int| 0 <= w < p@.len() && p@[w] == k as usize;
            assert(r@[w] == d[p@[w] as int]);
        }
        assert(name_order(first_of_each(candidates@), p@) && r@.len() == p@.len() && forall|j: int|
            0 <= j < p@.len() ==> r@[j] == first_of_each(candidates@)[#[trigger] p@[j] as int]);
    }
    r
}

/// A required `YYYY-MM-DD` date field: refused with `required_message`
/// when blank (after trimming), with `format_message` when chrono does
/// not read it.
pub open spec fn required_date_of(raw: Seq<char>, required_message: Seq<char>, format_message: Seq<char>) -> Result<
    (i32, u32, u32),
    Seq<char>,
> {
    if trim(raw).len() == 0 {
        Err(required_message)
    } else {
        match ymd_date(trim(raw)) {
            Some(d) => Ok(d),
            None => Err(format_message),
        }
    }
}

/// Reads a required date field of the sprint form; the two refusals carry
/// the page's messages for the field.
pub fn parse_date_required(raw: &str, required_message: &str, format_message: &str) -> (r: Result<
    CalendarDate,
    AppError,
>)
    ensures
        match r {
            Ok(d) => required_date_of(raw@, required_message@, format_message@) == Ok::<
                (i32, u32, u32),
                Seq<char>,
            >((d.year, d.month, d.day)),
            Err(AppError::Validation(m)) => required_date_of(raw@, required_message@, format_message@)
                == Err::<(i32, u32, u32), Seq<char>>(m@),
            Err(_) => false,
        },
{
    let t = trim_of(&chars_of(raw));
    if t.len() == 0 {
        return Err(AppError::Validation(string_of(&chars_of(required_message))));
    }
    let ts = string_of(&t);
    match parse_ymd(ts.as_str()) {
        Some((year, month, day)) => Ok(CalendarDate { year, month, day }),
        None => Err(AppError::Validation(string_of(&chars_of(format_message)))),
    }
}

/// A sprint's page with a message in its query string under `key`
/// (`flash` or `error`).
pub open spec fn sprint_location(slug: Seq<char>, sprint_id: Seq<char>, key: Seq<char>, message: Seq<char>) -> Seq<
    char,
> {
    "/teams/"@ + slug + "/sprints/"@ + sprint_id + "?"@ + key + "="@ + query_encoded(
        vstd::utf8::encode_utf8(message),
    )
}

/// Where a sprint change redirects: the sprint's page with its flash or
/// error message.
pub fn sprint_redirect(slug: &str, sprint_id: &str, key: &str, message: &str) -> (r: String)
    ensures
        r@ == sprint_location(slug@, sprint_id@, key@, message@),
{
    let encoded = percent_encode_query(message);
    let mut out = chars_of("/teams/");
    push_str_chars(&mut out, slug);
    push_str_chars(&mut out, "/sprints/");
    push_str_chars(&mut out, sprint_id);
    push_str_chars(&mut out, "?");
    push_str_chars(&mut out, key);
    push_str_chars(&mut out, "=");
    push_str_chars(&mut out, encoded.as_str());
    string_of(&out)
}

/// A sprint may be deleted unless it is running; deleting an active
/// sprint is refused as a state constraint (400), not an authorisation
/// failure.
pub fn sprint_deletable(status: SprintStatus) -> (r: bool)
    ensures
        r == (status != SprintStatus::Active),
{
    match status {
        SprintStatus::Active => false,
        _ => true,
    }
}

/// A sprint as the issue page's sprint picker reads it.
pub struct SprintOption {
    pub id: String,
    pub name: String,
    pub status: SprintStatus,
}

/// The `(id, name)` of the sprints not completed, in order.
pub open spec fn open_options_of(all: Seq<SprintOption>) -> Seq<(Seq<char>, Seq<char>)>
    decreases all.len(),
{
    if all.len() == 0 {
        Seq::empty()
    } else {
        let rest = open_options_of(all.drop_last());
        if all.last().status == SprintStatus::Completed {
            rest
        } else {
            rest.push((all.last().id@, all.last().name@))
        }
    }
}

/// The sprints an issue can be put into: the team's sprints that are not
/// completed, as `(id, name)`, in their order.
pub fn open_sprint_options(all: &Vec<SprintOption>) -> (r: Vec<(String, String)>)
    ensures
        r@.map_values(|p: (String, String)| (p.0@, p.1@)) == open_options_of(all@),
{
    let mut out: Vec<(String, String)> = Vec::new();
    let mut k: usize = 0;
    while k < all.len()
        invariant
            k <= all.len(),
            out@.map_values(|p: (String, String)| (p.0@, p.1@)) == open_options_of(all@.take(k as int)),
        decreases all.len() - k,
    {
        proof {
            assert(all@.take(k + 1).drop_last() =~= all@.take(k as int));
        }
        let completed = match all[k].status {
            SprintStatus::Completed => true,
            _ => false,
        };
        if !completed {
            out.push((all[k].id.clone(), all[k].name.clone()));
        }
        proof {
            assert(out@.map_values(|p: (String, String)| (p.0@, p.1@)) =~= open_options_of(
                all@.take(k + 1),
            ));
        }
        k = k + 1;
    }
    proof {
        assert(all@.take(all.len() as int) =~= all@);
    }
    out
}


/// Deleting a sprint, or asking to: refused while it runs, with the
/// refusal message as a validation error (400); otherwise the note that
/// the confirmation page shows of what deleting it does, the planned or
/// the completed one.
pub fn delete_consequence(status: SprintStatus, planned_note: &str, completed_note: &str, refusal: &str) -> (r:
    Result<String, AppError>)
    ensures
        status == SprintStatus::Planned ==> (r matches Ok(n) && n@ == planned_note@),
        status == SprintStatus::Completed ==> (r matches Ok(n) && n@ == completed_note@),
        status == SprintStatus::Active ==> (r matches Err(AppError::Validation(m)) && m@ == refusal@),
{
    match status {
        SprintStatus::Planned => Ok(string_of(&chars_of(planned_note))),
        SprintStatus::Completed => Ok(string_of(&chars_of(completed_note))),
        SprintStatus::Active => Err(AppError::Validation(string_of(&chars_of(refusal)))),
    }
}

} // verus!
