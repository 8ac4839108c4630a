use peisear_web::handlers::search::{
    empty_typeahead, page_hits, results_page, results_window, typeahead_answer, typeahead_needle,
    SearchHit,
};

fn project(id: &str, name: &str) -> SearchHit {
    SearchHit::Project { id: id.to_string(), name: name.to_string() }
}

fn issue(id: &str, project_id: &str) -> SearchHit {
    SearchHit::Issue {
        id: id.to_string(),
        project_id: project_id.to_string(),
        project_name: format!("Project {project_id}"),
        title: format!("Issue {id}"),
        parent_title: Some("parent".to_string()),
    }
}

#[test]
fn a_blank_query_searches_for_nothing() {
    assert_eq!(typeahead_needle("   "), None);
    assert_eq!(typeahead_needle(""), None);
    assert_eq!(typeahead_needle("  road map "), Some("road map".to_string()));
}

#[test]
fn the_typeahead_links_each_hit_to_its_page() {
    let projects = vec![project("p1", "Apollo"), project("p2", "Gemini")];
    let issues = vec![issue("i9", "p1")];
    let r = typeahead_answer(" ap ".to_string(), &projects, &issues);
    assert_eq!(r.q, " ap ");
    let ps: Vec<(&str, &str, &str)> =
        r.projects.iter().map(|p| (p.id.as_str(), p.name.as_str(), p.url.as_str())).collect();
    assert_eq!(ps, vec![("p1", "Apollo", "/projects/p1"), ("p2", "Gemini", "/projects/p2")]);
    assert_eq!(r.issues.len(), 1);
    assert_eq!(r.issues[0].url, "/projects/p1/issues/i9");
    assert_eq!(r.issues[0].project_name, "Project p1");
    assert_eq!(r.issues[0].title, "Issue i9");
}

#[test]
fn the_typeahead_keeps_eight_hits_split_between_categories() {
    let projects: Vec<SearchHit> = (0..8).map(|k| project(&format!("p{k}"), "P")).collect();
    let issues: Vec<SearchHit> = (0..8).map(|k| issue(&format!("i{k}"), "p0")).collect();
    let r = typeahead_answer("x".to_string(), &projects, &issues);
    assert_eq!(r.projects.len(), 4);
    assert_eq!(r.issues.len(), 4);
    assert_eq!(r.projects[3].id, "p3");
    assert_eq!(r.issues[3].id, "i3");

    // Few issues: the projects take the rest of the budget.
    let r = typeahead_answer("x".to_string(), &projects, &vec![issue("i0", "p0")]);
    assert_eq!(r.projects.len(), 7);
    assert_eq!(r.issues.len(), 1);
}

#[test]
fn a_hit_of_the_other_kind_is_dropped() {
    let projects = vec![project("p1", "A"), issue("i1", "p1")];
    let r = typeahead_answer("x".to_string(), &projects, &vec![]);
    assert_eq!(r.projects.len(), 1);
    assert!(r.issues.is_empty());
}

fn ids(hits: &[SearchHit]) -> Vec<String> {
    hits.iter()
        .map(|h| match h {
            SearchHit::Project { id, .. } => id.clone(),
            SearchHit::Issue { id, .. } => id.clone(),
        })
        .collect()
}

#[test]
fn a_results_page_shows_fifty_hits_from_its_offset() {
    let hits: Vec<SearchHit> = (0..120).map(|k| project(&format!("p{k}"), "P")).collect();
    let second = page_hits(&hits, 50);
    assert_eq!(second.len(), 50);
    assert_eq!(ids(&second)[0], "p50");
    let third = page_hits(&hits, 100);
    assert_eq!(third.len(), 20);
    assert!(page_hits(&hits, 150).is_empty());
}

#[test]
fn the_results_page_knows_whether_more_follow() {
    let projects: Vec<SearchHit> = (0..101).map(|k| project(&format!("p{k}"), "P")).collect();
    let issues: Vec<SearchHit> = (0..60).map(|k| issue(&format!("i{k}"), "p0")).collect();
    let w = results_window(Some(2));
    let r = results_page("road".to_string(), &w, &projects, &issues);
    assert_eq!(r.page, 2);
    assert_eq!(r.query, "road");
    assert_eq!(r.projects.len(), 50);
    assert_eq!(r.issues.len(), 10);
    assert!(r.has_more_projects);
    assert!(!r.has_more_issues);
}

#[test]
fn a_blank_typeahead_query_answers_empty_and_echoes_it() {
    let r = empty_typeahead("   ".to_string());
    assert!(r.projects.is_empty());
    assert!(r.issues.is_empty());
    assert_eq!(r.q, "   ");
}
