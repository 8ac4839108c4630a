use peisear_web::changelog::{
    changelog_link_paths, has_iso_date_after_dash, link_targets, only, parse_version, resolve,
    repo_root, run, sections, series_of, series_stem, slug, workspace_version_of, Real, Version,
};

const CHANGELOG: &str = "# Changelog

Release notes for the current series. Older series live under `changelog/`.

## [Unreleased]

## [0.40.0] — 2026-09-25

### Highlights

- A calendar for every project.

### Added

- Calendar week and month views.

## Earlier series

- [0.30-0.39](changelog/0.30-0.39.md)
- [0.20-0.29](changelog/0.20-0.29.md)
- [0.10-0.19](changelog/0.10-0.19.md)
- [0.1-0.9](changelog/0.1-0.9.md)
";

fn archive(series: &str, version: &str, date: &str) -> (String, String) {
    (
        format!("{series}.md"),
        format!("# Changelog {series}\n\n## [{version}] — {date}\n\n### Added\n\n- Things.\n"),
    )
}

/// The repository as the policy reads it: `CHANGELOG.md`, the archives
/// (sorted by name), the other markdown files and the workspace version.
fn repository() -> Real {
    let mut archives = vec![
        archive("0.1-0.9", "0.9.0", "2025-01-01"),
        archive("0.10-0.19", "0.19.0", "2025-04-01"),
        archive("0.20-0.29", "0.29.0", "2025-08-01"),
        archive("0.30-0.39", "0.39.0", "2026-09-25"),
    ];
    archives.sort();
    Real {
        changelog: CHANGELOG.to_string(),
        archives,
        docs: vec![(
            "README.md".to_string(),
            "See the [changelog](CHANGELOG.md).".to_string(),
        )],
        version: (0, 40, 0),
    }
}

/// The files that exist: the changelog, the archives and the documents.
fn existing(r: &Real) -> Vec<String> {
    let mut on_disk = vec!["CHANGELOG.md".to_string()];
    for (name, _) in &r.archives {
        on_disk.push(format!("changelog/{name}"));
    }
    for (path, _) in &r.docs {
        on_disk.push(path.clone());
    }
    changelog_link_paths(&r.changelog)
        .into_iter()
        .filter(|p| on_disk.contains(p))
        .collect()
}

fn run_real(r: &Real) -> Vec<String> {
    run(r, &existing(r))
}

#[test]
fn the_repository_satisfies_the_changelog_policy() {
    let r = repository();
    assert!(
        !r.archives.is_empty(),
        "changelog/ must hold the older series, or rules 1 to 5 prove nothing"
    );
    let v = run_real(&r);
    assert!(v.is_empty(), "changelog policy violations:\n{}", v.join("\n"));
}

#[test]
fn a_version_in_two_files_is_found() {
    let mut r = repository();
    let older = r.archives[0].1.clone();
    let dup: String = r
        .changelog
        .lines()
        .skip_while(|l| !l.starts_with("## [0.40.0]"))
        .take(2)
        .map(|l| format!("{l}\n"))
        .collect();
    r.archives[0].1 = format!("{older}\n{dup}");
    let v = run_real(&r);
    assert!(
        only(v, "rule 1").iter().any(|m| m.contains("0.40.0")),
        "a duplicated version must be reported"
    );
}

#[test]
fn an_old_section_left_in_the_changelog_is_found() {
    let mut r = repository();
    r.changelog = r.changelog.replacen(
        "## Earlier series",
        "## [0.39.5] — 2026-01-01\n\n## Earlier series",
        1,
    );
    let v = only(run_real(&r), "rule 2");
    assert!(v.iter().any(|m| m.contains("0.39.5")), "got {v:?}");
}

#[test]
fn an_archive_holding_the_wrong_series_is_found() {
    let mut r = repository();
    let i = r
        .archives
        .iter()
        .position(|(n, _)| n == "0.20-0.29.md")
        .expect("the 0.20-0.29 archive");
    r.archives[i].1.push_str("\n## [0.31.0] — 2026-01-01\n");
    let v = run_real(&r);
    assert!(
        only(v.clone(), "rule 3").iter().any(|m| m.contains("0.31.0")),
        "got {v:?}"
    );
}

#[test]
fn an_unlinked_archive_and_a_dead_link_are_found() {
    let mut r = repository();
    r.changelog = r
        .changelog
        .replace("(changelog/0.30-0.39.md)", "(changelog/0.3-0.39.md)");
    let v = only(run_real(&r), "rule 4");
    assert!(
        v.iter().any(|m| m.contains("does not link changelog/0.30-0.39.md")),
        "an unlinked archive must be reported: {v:?}"
    );
    assert!(
        v.iter()
            .any(|m| m.contains("changelog/0.3-0.39.md") && m.contains("does not exist")),
        "a dead link must be reported: {v:?}"
    );
}

#[test]
fn a_link_to_a_moved_section_is_found() {
    let mut r = repository();
    r.docs.push((
        "docs/x.md".into(),
        "See [the 0.39.0 notes](../CHANGELOG.md#0390--2026-09-25).".into(),
    ));
    let v = only(run_real(&r), "rule 5");
    assert!(
        v.iter()
            .any(|m| m.contains("docs/x.md") && m.contains("0390--2026-09-25")),
        "got {v:?}"
    );

    let mut r = repository();
    r.docs.push((
        "docs/x.md".into(),
        "[a](../changelog/0.30-0.39.md#0390--2026-09-25) [b](../CHANGELOG.md#0400--2026-09-25)"
            .into(),
    ));
    assert!(only(run_real(&r), "rule 5").is_empty());
}

#[test]
fn the_released_version_must_be_dated_and_new_sections_open_with_highlights() {
    let mut r = repository();
    r.changelog = r
        .changelog
        .replace("## [0.40.0] — 2026-09-25", "## [0.40.0] — unreleased");
    let v = only(run_real(&r), "rule 6");
    assert!(v.iter().any(|m| m.contains("has no date")), "got {v:?}");

    let mut r = repository();
    r.version = (0, 41, 0);
    r.changelog = r.changelog.replacen(
        "## [0.40.0]",
        "## [0.41.0] — 2026-10-01\n\n### Added\n\n- something\n\n## [0.40.0]",
        1,
    );
    let v = only(run_real(&r), "rule 6");
    assert!(
        v.iter().any(|m| m.contains("0.41.0") && m.contains("Highlights")),
        "got {v:?}"
    );

    let mut r = repository();
    r.version = (0, 41, 0);
    r.changelog = r.changelog.replacen(
        "## [0.40.0]",
        "## [0.41.0] — 2026-10-01\n\n### Highlights\n\n- something\n\n### Added\n\n- something\n\n## [0.40.0]",
        1,
    );
    assert!(only(run_real(&r), "rule 6").is_empty());

    let mut r = repository();
    r.version = (0, 41, 0);
    assert!(only(run_real(&r), "rule 6")
        .iter()
        .any(|m| m.contains("no section")));
}

#[test]
fn the_helpers_do_what_the_rules_assume() {
    assert_eq!(slug("[0.40.0] — 2026-09-25"), "0400--2026-09-25");
    assert_eq!(series_stem(series_of((0, 9, 0))), "0.1-0.9");
    assert_eq!(series_stem(series_of((0, 10, 1))), "0.10-0.19");
    assert_eq!(series_stem(series_of((0, 39, 0))), "0.30-0.39");
    assert_eq!(series_stem(series_of((0, 40, 0))), "0.40-0.49");
    assert_eq!(series_stem(series_of((2, 3, 4))), "2.x");
    assert_eq!(
        resolve("docs/README.md", "../CHANGELOG.md#a"),
        Some(("CHANGELOG.md".into(), Some("a".into())))
    );
    assert_eq!(resolve("CHANGELOG.md", "https://x/y"), None);
    assert!(has_iso_date_after_dash(" — 2026-09-25"));
    assert!(!has_iso_date_after_dash(" — initial release"));
    assert!(sections("```\n## [1.0.0] — 2026-01-01\n```\n").is_empty());
}

#[test]
fn versions_parse_only_with_three_numeric_parts() {
    let v: Option<Version> = parse_version("0.40.0");
    assert_eq!(v, Some((0, 40, 0)));
    assert_eq!(parse_version("+1.2.3"), Some((1, 2, 3)));
    assert_eq!(parse_version("1.2"), None);
    assert_eq!(parse_version("1.2.3.4"), None);
    assert_eq!(parse_version("1.x.3"), None);
    assert_eq!(parse_version("4294967296.0.0"), None);
    assert_eq!(parse_version("Unreleased"), None);
}

#[test]
fn sections_read_labels_dates_and_first_subheadings() {
    let s = sections(
        "## [Unreleased]\n\n## [0.41.0] — 2026-10-01\n\n### Highlights\n\n### Added\n\n## Earlier series\n\n### Not a section\n",
    );
    assert_eq!(s.len(), 2);
    assert_eq!(s[0].version, None);
    assert_eq!(s[0].label.iter().collect::<String>(), "Unreleased");
    assert!(!s[0].dated);
    assert_eq!(s[1].version, Some((0, 41, 0)));
    assert!(s[1].dated);
    assert_eq!(
        s[1].first_h3.as_ref().map(|h| h.iter().collect::<String>()),
        Some("### Highlights".to_string())
    );
    assert_eq!(s[1].slug.iter().collect::<String>(), "0410--2026-10-01");
}

#[test]
fn link_targets_skip_fenced_code_and_trim() {
    let t = link_targets("[a]( x.md ) and [b](y.md#z)\n```\n[c](hidden.md)\n```\n[d](w.md)\n");
    assert_eq!(t, vec!["x.md", "y.md#z", "w.md"]);
}

#[test]
fn resolve_walks_parent_and_current_directories() {
    assert_eq!(
        resolve("docs/guide/a.md", "./../b/./c.md"),
        Some(("docs/b/c.md".into(), None))
    );
    assert_eq!(resolve("a.md", "../../x.md"), Some(("x.md".into(), None)));
    assert_eq!(resolve("CHANGELOG.md", "#top"), None);
    assert_eq!(resolve("CHANGELOG.md", ""), None);
    assert_eq!(resolve("CHANGELOG.md", "mailto:a@b.c"), None);
    assert_eq!(
        resolve("/abs/a.md", "b.md#"),
        Some(("/abs/b.md".into(), Some(String::new())))
    );
}

#[test]
fn rule_one_lists_every_file_in_version_order() {
    let mut r = repository();
    r.archives[1].1.push_str("\n## [0.9.0] — 2025-01-01\n");
    r.archives[3].1.push_str("\n## [0.40.0] — 2026-09-25\n");
    let v = only(run_real(&r), "rule 1");
    assert_eq!(
        v,
        vec![
            "rule 1: version 0.9.0 appears 2 times (changelog/0.1-0.9.md, changelog/0.10-0.19.md)",
            "rule 1: version 0.40.0 appears 2 times (CHANGELOG.md, changelog/0.30-0.39.md)",
        ]
    );
}

#[test]
fn an_unreleased_section_in_an_archive_is_found() {
    let mut r = repository();
    r.archives[0].1.push_str("\n## [Unreleased]\n");
    let v = only(run_real(&r), "rule 3");
    assert_eq!(v, vec!["rule 3: changelog/0.1-0.9.md has an [Unreleased] section"]);
}

#[test]
fn rule_messages_read_as_sentences() {
    let mut r = repository();
    r.changelog = r.changelog.replacen(
        "## Earlier series",
        "## [0.39.5] — 2026-01-01\n\n## Earlier series",
        1,
    );
    assert_eq!(
        only(run_real(&r), "rule 2"),
        vec!["rule 2: CHANGELOG.md holds 0.39.5, which is not in the current series (0.40-0.49); it belongs in changelog/0.30-0.39.md"]
    );
    let mut r = repository();
    r.version = (1, 0, 0);
    let v = only(run_real(&r), "rule 6");
    assert_eq!(
        v,
        vec!["rule 6: no section for the workspace version 1.0.0 in CHANGELOG.md"]
    );
    let mut r = repository();
    r.version = (0, 41, 0);
    r.changelog = r.changelog.replacen(
        "## [0.40.0]",
        "## [0.41.0] — 2026-10-01\n\n### Added\n\n## [0.40.0]",
        1,
    );
    assert_eq!(
        only(run_real(&r), "rule 6"),
        vec!["rule 6: the section for 0.41.0 must open with `### Highlights` (its first ### is Some(\"### Added\"))"]
    );
}

#[test]
fn workspace_version_is_read_from_the_package_table() {
    let toml = "[workspace]\nmembers = []\n\n[workspace.package]\nedition = \"2021\"\n  version = \"0.40.0\"\n";
    assert_eq!(workspace_version_of(toml), Some((0, 40, 0)));
    assert_eq!(workspace_version_of("[package]\nversion = \"1.0.0\"\n"), None);
}

#[test]
fn repo_root_is_two_levels_up() {
    assert_eq!(repo_root("/src/crates/web"), "/src/crates/web/../..");
    assert_eq!(repo_root("/src/crates/web/"), "/src/crates/web/../..");
}

#[test]
fn a_leading_dot_of_the_source_path_is_kept_as_paths_keep_it() {
    assert_eq!(resolve("./docs/a.md", "b.md"), Some(("./docs/b.md".to_string(), None)));
    assert_eq!(resolve("./a.md", "../b.md"), Some(("b.md".to_string(), None)));
    assert_eq!(resolve("docs/./a.md", "./b.md#x"), Some(("docs/b.md".to_string(), Some("x".to_string()))));
    assert_eq!(resolve("../a.md", "b.md"), Some(("../b.md".to_string(), None)));
}
