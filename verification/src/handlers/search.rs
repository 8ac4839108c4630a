//! Search: the typeahead's split of its budget between projects and
//! issues, and the results page's window.
use vstd::prelude::*;
use crate::text::{chars_of, push_str_chars, string_of, trim, trim_of};

verus! {

/// `?q=…&page=…` of the search endpoints.
pub struct SearchQuery {
    pub q: Option<String>,
    pub page: Option<u32>,
}

/// The typeahead's answer; `q` echoes the query so a client can drop a
/// stale answer.
pub struct TypeaheadResponse {
    pub projects: Vec<TypeaheadProject>,
    pub issues: Vec<TypeaheadIssue>,
    pub q: String,
}

/// A project hit.
pub struct TypeaheadProject {
    pub id: String,
    pub name: String,
    pub url: String,
}

/// An issue hit.
pub struct TypeaheadIssue {
    pub id: String,
    pub project_id: String,
    pub project_name: String,
    pub title: String,
    pub url: String,
}

/// The typeahead's budget of hits.
pub open spec fn typeahead_total() -> int {
    8
}

pub open spec fn min(a: int, b: int) -> int {
    if a <= b {
        a
    } else {
        b
    }
}

pub open spec fn max(a: int, b: int) -> int {
    if a >= b {
        a
    } else {
        b
    }
}

/// How many project and issue hits the typeahead keeps: each category
/// claims up to half the budget, and whatever one leaves goes to the
/// other.
pub open spec fn split_of(project_count: int, issue_count: int) -> (int, int) {
    let projects_keep = min(project_count, typeahead_total() / 2);
    let issues_keep = min(issue_count, typeahead_total() - projects_keep);
    (
        min(projects_keep, typeahead_total() - issues_keep) + min(
            project_count - projects_keep,
            max(typeahead_total() - projects_keep - issues_keep, 0),
        ),
        issues_keep,
    )
}

/// The numbers of project and issue hits the typeahead keeps.
pub fn typeahead_split(project_count: i64, issue_count: i64) -> (r: (i64, i64))
    requires
        0 <= project_count,
        0 <= issue_count,
    ensures
        r == (split_of(project_count as int, issue_count as int).0 as i64, split_of(
            project_count as int,
            issue_count as int,
        ).1 as i64),
{
    let total: i64 = 8;
    let half = total / 2;
    let projects_keep = if project_count < half {
        project_count
    } else {
        half
    };
    let issues_keep = if issue_count < total - projects_keep {
        issue_count
    } else {
        total - projects_keep
    };
    let room = if total - projects_keep - issues_keep > 0 {
        total - projects_keep - issues_keep
    } else {
        0
    };
    let extra = if project_count - projects_keep < room {
        project_count - projects_keep
    } else {
        room
    };
    let base = if projects_keep < total - issues_keep {
        projects_keep
    } else {
        total - issues_keep
    };
    (base + extra, issues_keep)
}

/// The typeahead keeps no more hits of a category than there are, no
/// more than eight in all, and exactly `min(8, projects + issues)`: the
/// budget is filled whenever there are enough hits. Each category gets
/// at least its fair half, or all its hits when it has fewer.
pub proof fn lemma_typeahead_split(project_count: int, issue_count: int)
    requires
        0 <= project_count,
        0 <= issue_count,
    ensures
        0 <= split_of(project_count, issue_count).0 <= project_count,
        0 <= split_of(project_count, issue_count).1 <= issue_count,
        split_of(project_count, issue_count).0 + split_of(project_count, issue_count).1 == min(
            typeahead_total(),
            project_count + issue_count,
        ),
        split_of(project_count, issue_count).0 >= min(project_count, 4),
        split_of(project_count, issue_count).1 >= min(issue_count, 4),
{
}

/// Hits per results page.
pub open spec fn results_per_page() -> int {
    50
}

/// The last page the results page serves.
pub open spec fn max_page() -> int {
    200
}

/// The page of a `?page=` value: 1 when absent, clamped to 1 to 200.
pub open spec fn page_of(page: Option<u32>) -> int {
    let p = match page {
        Some(p) => p as int,
        None => 1,
    };
    if p < 1 {
        1
    } else if p > max_page() {
        max_page()
    } else {
        p
    }
}

/// The page shown, how many rows to fetch (one past the page, to tell
/// whether there is a next one), and the offset of the page's first hit.
pub struct ResultsWindow {
    pub page: u32,
    pub fetch_limit: i64,
    pub offset: usize,
}

/// The window of the results page for a `?page=` value.
pub fn results_window(page: Option<u32>) -> (r: ResultsWindow)
    ensures
        r.page == page_of(page),
        r.fetch_limit == page_of(page) * results_per_page() + 1,
        r.offset == (page_of(page) - 1) * results_per_page(),
{
    let p: u32 = match page {
        Some(p) => p,
        None => 1,
    };
    let p = if p < 1 {
        1
    } else if p > 200 {
        200
    } else {
        p
    };
    ResultsWindow { page: p, fetch_limit: (p as i64) * 50 + 1, offset: ((p - 1) as usize) * 50 }
}

/// Whether a category has hits past the page: more rows came back than
/// the page's offset plus what it shows.
pub fn has_more(fetched: usize, offset: usize, shown: usize) -> (r: bool)
    ensures
        r == (fetched as int > offset as int + shown as int),
{
    fetched > offset && fetched - offset > shown
}

/// A search hit, as the search store answers it.
pub enum SearchHit {
    Project { id: String, name: String },
    Issue {
        id: String,
        project_id: String,
        project_name: String,
        title: String,
        /// The parent issue's title, shown on the results page only.
        parent_title: Option<String>,
    },
}

/// A project's page.
pub open spec fn project_url(id: Seq<char>) -> Seq<char> {
    "/projects/"@ + id
}

/// An issue's page.
pub open spec fn issue_url(project_id: Seq<char>, id: Seq<char>) -> Seq<char> {
    "/projects/"@ + project_id + "/issues/"@ + id
}

/// The project hits among `hits`, in order, as `(id, name, url)`.
pub open spec fn project_rows(hits: Seq<SearchHit>) -> Seq<(Seq<char>, Seq<char>, Seq<char>)>
    decreases hits.len(),
{
    if hits.len() == 0 {
        Seq::empty()
    } else {
        let rest = project_rows(hits.drop_last());
        match hits.last() {
            SearchHit::Project { id, name } => rest.push((id@, name@, project_url(id@))),
            _ => rest,
        }
    }
}

/// The issue hits among `hits`, in order, as `(id, project id, project
/// name, title, url)`.
pub open spec fn issue_rows(hits: Seq<SearchHit>) -> Seq<
    (Seq<char>, Seq<char>, Seq<char>, Seq<char>, Seq<char>),
>
    decreases hits.len(),
{
    if hits.len() == 0 {
        Seq::empty()
    } else {
        let rest = issue_rows(hits.drop_last());
        match hits.last() {
            SearchHit::Issue { id, project_id, project_name, title, .. } => rest.push(
                (id@, project_id@, project_name@, title@, issue_url(project_id@, id@)),
            ),
            _ => rest,
        }
    }
}

pub open spec fn project_view(p: TypeaheadProject) -> (Seq<char>, Seq<char>, Seq<char>) {
    (p.id@, p.name@, p.url@)
}

pub open spec fn issue_view(i: TypeaheadIssue) -> (Seq<char>, Seq<char>, Seq<char>, Seq<char>, Seq<char>) {
    (i.id@, i.project_id@, i.project_name@, i.title@, i.url@)
}

/// The typeahead's project entries: the project hits among the first
/// `keep`, with their pages.
fn typeahead_projects(hits: &Vec<SearchHit>, keep: usize) -> (r: Vec<TypeaheadProject>)
    requires
        keep <= hits.len(),
    ensures
        r@.map_values(|p: TypeaheadProject| project_view(p)) == project_rows(hits@.take(keep as int)),
{
    let mut out: Vec<TypeaheadProject> = Vec::new();
    let mut k: usize = 0;
    while k < keep
        invariant
            k <= keep <= hits.len(),
            out@.map_values(|p: TypeaheadProject| project_view(p)) == project_rows(hits@.take(k as int)),
        decreases keep - k,
    {
        proof {
            assert(hits@.take(k + 1).drop_last() =~= hits@.take(k as int));
        }
        match &hits[k] {
            SearchHit::Project { id, name } => {
                let mut url = chars_of("/projects/");
                push_str_chars(&mut url, id.as_str());
                out.push(TypeaheadProject { id: id.clone(), name: name.clone(), url: string_of(&url) });
            },
            SearchHit::Issue { .. } => {},
        }
        proof {
            assert(out@.map_values(|p: TypeaheadProject| project_view(p)) =~= project_rows(
                hits@.take(k + 1),
            ));
        }
        k = k + 1;
    }
    out
}

/// The typeahead's issue entries: the issue hits among the first `keep`,
/// with their pages.
fn typeahead_issues(hits: &Vec<SearchHit>, keep: usize) -> (r: Vec<TypeaheadIssue>)
    requires
        keep <= hits.len(),
    ensures
        r@.map_values(|i: TypeaheadIssue| issue_view(i)) == issue_rows(hits@.take(keep as int)),
{
    let mut out: Vec<TypeaheadIssue> = Vec::new();
    let mut k: usize = 0;
    while k < keep
        invariant
            k <= keep <= hits.len(),
            out@.map_values(|i: TypeaheadIssue| issue_view(i)) == issue_rows(hits@.take(k as int)),
        decreases keep - k,
    {
        proof {
            assert(hits@.take(k + 1).drop_last() =~= hits@.take(k as int));
        }
        match &hits[k] {
            SearchHit::Issue { id, project_id, project_name, title, .. } => {
                let mut url = chars_of("/projects/");
                push_str_chars(&mut url, project_id.as_str());
                push_str_chars(&mut url, "/issues/");
                push_str_chars(&mut url, id.as_str());
                out.push(
                    TypeaheadIssue {
                        id: id.clone(),
                        project_id: project_id.clone(),
                        project_name: project_name.clone(),
                        title: title.clone(),
                        url: string_of(&url),
                    },
                );
            },
            SearchHit::Project { .. } => {},
        }
        proof {
            assert(out@.map_values(|i: TypeaheadIssue| issue_view(i)) =~= issue_rows(
                hits@.take(k + 1),
            ));
        }
        k = k + 1;
    }
    out
}

/// The text the typeahead searches for: the query trimmed; `None` when
/// nothing is left, and the typeahead answers empty.
pub fn typeahead_needle(raw: &str) -> (r: Option<String>)
    ensures
        r is None <==> trim(raw@).len() == 0,
        r matches Some(t) ==> t@ == trim(raw@),
{
    let t = trim_of(&chars_of(raw));
    if t.len() == 0 {
        None
    } else {
        Some(string_of(&t))
    }
}

/// The typeahead's answer from the hits of each category (each fetched up
/// to the whole budget): the split of the budget, each category's kept
/// hits with their pages, and the query echoed.
pub fn typeahead_answer(raw: String, project_hits: &Vec<SearchHit>, issue_hits: &Vec<SearchHit>) -> (r:
    TypeaheadResponse)
    requires
        project_hits.len() <= i64::MAX,
        issue_hits.len() <= i64::MAX,
    ensures
        r.q == raw,
        r.projects@.map_values(|p: TypeaheadProject| project_view(p)) == project_rows(
            project_hits@.take(split_of(project_hits.len() as int, issue_hits.len() as int).0),
        ),
        r.issues@.map_values(|i: TypeaheadIssue| issue_view(i)) == issue_rows(
            issue_hits@.take(split_of(project_hits.len() as int, issue_hits.len() as int).1),
        ),
{
    let (pk, ik) = typeahead_split(project_hits.len() as i64, issue_hits.len() as i64);
    proof {
        lemma_typeahead_split(project_hits.len() as int, issue_hits.len() as int);
    }
    let projects = typeahead_projects(project_hits, pk as usize);
    let issues = typeahead_issues(issue_hits, ik as usize);
    TypeaheadResponse { projects, issues, q: raw }
}

fn copy_hit(h: &SearchHit) -> (r: SearchHit)
    ensures
        r == *h,
{
    match h {
        SearchHit::Project { id, name } => SearchHit::Project { id: id.clone(), name: name.clone() },
        SearchHit::Issue { id, project_id, project_name, title, parent_title } => SearchHit::Issue {
            id: id.clone(),
            project_id: project_id.clone(),
            project_name: project_name.clone(),
            title: title.clone(),
            parent_title: match parent_title {
                Some(t) => Some(t.clone()),
                None => None,
            },
        },
    }
}

/// The hits of one results page: those from `offset` on, at most a page
/// of them.
pub fn page_hits(hits: &Vec<SearchHit>, offset: usize) -> (r: Vec<SearchHit>)
    ensures
        r@ == hits@.subrange(
            min(offset as int, hits.len() as int),
            min(offset as int + results_per_page(), hits.len() as int),
        ),
{
    let mut out: Vec<SearchHit> = Vec::new();
    if offset >= hits.len() {
        proof {
            assert(hits@.subrange(hits.len() as int, hits.len() as int) =~= Seq::<SearchHit>::empty());
        }
        return out;
    }
    let end = if hits.len() - offset > 50 {
        offset + 50
    } else {
        hits.len()
    };
    let mut k = offset;
    while k < end
        invariant
            offset <= k <= end <= hits.len(),
            end == min(offset as int + results_per_page(), hits.len() as int),
            out@ == hits@.subrange(offset as int, k as int),
        decreases end - k,
    {
        let h = copy_hit(&hits[k]);
        out.push(h);
        proof {
            assert(out@ =~= hits@.subrange(offset as int, k + 1));
        }
        k = k + 1;
    }
    out
}

/// What the results page shows: the trimmed query, a page of each
/// category's hits, the page, and whether either category goes on.
pub struct ResultsPage {
    pub query: String,
    pub projects: Vec<SearchHit>,
    pub issues: Vec<SearchHit>,
    pub page: u32,
    pub has_more_projects: bool,
    pub has_more_issues: bool,
}

/// The results page from the hits fetched for its window (each up to the
/// window's fetch limit).
pub fn results_page(query: String, window: &ResultsWindow, project_hits: &Vec<SearchHit>, issue_hits: &Vec<
    SearchHit,
>) -> (r: ResultsPage)
    ensures
        r.query == query,
        r.page == window.page,
        r.projects@ == project_hits@.subrange(
            min(window.offset as int, project_hits.len() as int),
            min(window.offset as int + results_per_page(), project_hits.len() as int),
        ),
        r.issues@ == issue_hits@.subrange(
            min(window.offset as int, issue_hits.len() as int),
            min(window.offset as int + results_per_page(), issue_hits.len() as int),
        ),
        r.has_more_projects == (project_hits.len() > window.offset + r.projects.len()),
        r.has_more_issues == (issue_hits.len() > window.offset + r.issues.len()),
{
    let projects = page_hits(project_hits, window.offset);
    let issues = page_hits(issue_hits, window.offset);
    let has_more_projects = has_more(project_hits.len(), window.offset, projects.len());
    let has_more_issues = has_more(issue_hits.len(), window.offset, issues.len());
    ResultsPage { query, projects, issues, page: window.page, has_more_projects, has_more_issues }
}


/// The typeahead's answer to a query with nothing left after trimming: no
/// hits, the query echoed as it came.
pub fn empty_typeahead(raw: String) -> (r: TypeaheadResponse)
    ensures
        r.projects@.len() == 0,
        r.issues@.len() == 0,
        r.q == raw,
{
    TypeaheadResponse { projects: Vec::new(), issues: Vec::new(), q: raw }
}

} // verus!
