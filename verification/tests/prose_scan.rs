use peisear_web::prose_scan::{
    all_violations, allowlist, has_alpha_word_outside_braces, is_allowlisted, scan_attrs,
    scan_file, strip_cfg_test_blocks, Violation,
};
use peisear_web::js_scan::strip_line_comments;

const TEAMS_RS: &str = r#"//! Team pages. An old defect quoted: aria-label="Old quoted label"
pub fn render(team: Team) -> impl IntoView {
    view! {
        <section aria-label={t(MessageKey::TeamSection)}>
            <form method="post" onsubmit="return confirm('Detach this project from the team?')">
                <button class="btn">{t(MessageKey::Detach)}</button>
            </form>
            <form method="post" onsubmit="return confirm('Leave this team?')">
                <button class="btn">{t(MessageKey::Leave)}</button>
            </form>
            <form method="post" onsubmit="return confirm('Remove this member from the team?')">
                <button class="btn">{t(MessageKey::Remove)}</button>
            </form>
        </section>
    }
}

#[cfg(test)]
mod tests {
    fn fixture() -> &'static str {
        "<span title=\"A test only title\">x</span>"
    }
}
"#;

const SETTINGS_RS: &str = r#"pub fn row() -> impl IntoView {
    view! {
        <form onsubmit="return confirm('Remove this capacity row?')">
            <input placeholder={t(MessageKey::Points)} title="%d points"/>
        </form>
    }
}
"#;

const PREFERENCES_RS: &str = r#"pub fn prefs() -> impl IntoView {
    view! {
        <form onsubmit="return confirm('Silence all notification kinds?')">
            <span>{t(MessageKey::SilenceAll)}</span>
        </form>
    }
}
"#;

fn sources() -> Vec<(String, String)> {
    vec![
        ("components/teams.rs".to_string(), TEAMS_RS.to_string()),
        ("components/settings.rs".to_string(), SETTINGS_RS.to_string()),
        (
            "components/notification_preferences.rs".to_string(),
            PREFERENCES_RS.to_string(),
        ),
        (
            "handlers/teams.rs".to_string(),
            "pub async fn list_page() -> AppResult<Redirect> { Ok(Redirect::to(\"/teams\")) }\n"
                .to_string(),
        ),
    ]
}

#[test]
fn no_hardcoded_prose_outside_the_message_table() {
    let unallowed: Vec<Violation> = all_violations(&sources())
        .into_iter()
        .filter(|v| !is_allowlisted(v))
        .collect();
    assert!(
        unallowed.is_empty(),
        "hardcoded prose found outside the message table:\n{}",
        unallowed
            .iter()
            .map(|v| format!("  {}:{} [{}] {:?}", v.file, v.line, v.kind, v.text))
            .collect::<Vec<_>>()
            .join("\n")
    );
}

#[test]
fn every_allowlist_entry_still_matches_something() {
    let violations = all_violations(&sources());
    for entry in allowlist() {
        let matched = violations
            .iter()
            .any(|v| v.file.ends_with(&entry.file) && v.text.contains(&entry.snippet));
        assert!(
            matched,
            "allowlist entry for {} ({:?}) no longer matches any scanned literal",
            entry.file, entry.snippet
        );
    }
}

#[test]
fn a_doc_comment_quoting_attribute_markup_does_not_fail_the_scan() {
    let source = "//! An old defect quoted for context: onsubmit=\"return confirm('Delete?')\"\nfn example() {}\n";
    let without_comments: Vec<char> = strip_line_comments(source).chars().collect();
    let mut out = Vec::new();
    scan_attrs(&without_comments, "fake/path.rs", &mut out);
    assert!(
        out.is_empty(),
        "a doc comment quoting attribute-shaped text must not be scanned as real markup"
    );
}

#[test]
fn a_real_literal_in_real_markup_still_fails_the_scan() {
    let source = "fn example() -> impl IntoView {\n    view! {\n        <button aria-label=\"Delete this thing\">{\"Delete\"}</button>\n    }\n}\n";
    let without_comments: Vec<char> = strip_line_comments(source).chars().collect();
    let mut out = Vec::new();
    scan_attrs(&without_comments, "fake/path.rs", &mut out);
    assert!(
        !out.is_empty(),
        "a real aria-label literal in real markup must still be caught"
    );
}

#[test]
fn text_nodes_inline_and_standalone_are_found() {
    let src = "view! {\n    <span>\"Committed\"</span>\n    <p>\n        \"Remaining points\"\n    </p>\n    <b>\"{count}\"</b>\n}\n";
    let v = scan_file(src, "components/x.rs");
    let found: Vec<(usize, &str, &str)> = v
        .iter()
        .map(|v| (v.line, v.kind.as_str(), v.text.as_str()))
        .collect();
    assert_eq!(
        found,
        vec![
            (2, "text-node-inline", "Committed"),
            (4, "text-node-line", "Remaining points"),
        ]
    );
}

#[test]
fn test_only_items_are_removed_before_the_scan() {
    let s: Vec<char> = "a\n#[cfg(test)]\nuse x as _y;\nb\n#[cfg(test)]\nmod t { fn f() { g(); } }\nc"
        .chars()
        .collect();
    let r: String = strip_cfg_test_blocks(&s).into_iter().collect();
    assert_eq!(r, "a\n\nb\n\nc");
}

#[test]
fn words_are_looked_for_outside_braces() {
    let chars = |s: &str| s.chars().collect::<Vec<char>>();
    assert!(has_alpha_word_outside_braces(&chars("Delete {name}")));
    assert!(!has_alpha_word_outside_braces(&chars("{name} {x}")));
    assert!(!has_alpha_word_outside_braces(&chars("a 1 b")));
    assert!(has_alpha_word_outside_braces(&chars("}} ok")));
}

#[test]
fn attribute_values_report_their_line_and_attribute() {
    let src: Vec<char> = "<a\n title=\"Open the project\" data-title=\"x y\" placeholder=\"{x}\">"
        .chars()
        .collect();
    let mut out = Vec::new();
    scan_attrs(&src, "f.rs", &mut out);
    assert_eq!(out.len(), 1);
    assert_eq!(out[0].line, 2);
    assert_eq!(out[0].kind, "attr:title");
    assert_eq!(out[0].text, "Open the project");
}
