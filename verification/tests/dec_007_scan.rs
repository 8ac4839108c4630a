use peisear_web::dec_007::{
    appears_at_word_boundary, covers_own_lib_tests, covers_test_target, dec_007_block,
    for_loop_targets, has_bare_line, job_blocks, job_is_disabled, missing_loop_targets,
    missing_members, missing_obligations, missing_test_files, p_flag_targets,
    test_yml_run_lines, workspace_member_crate_names, Shape,
};

const WORKSPACE_TOML: &str = r#"[workspace]
resolver = "2"
members = [
    "crates/peisear",
    "crates/peisear-core",
    "crates/peisear-auth",
    "crates/peisear-i18n",
    "crates/peisear-notify",
    "crates/peisear-storage",
    "crates/peisear-web",
]

[workspace.package]
version = "0.40.0"
"#;

const TARGETS: [&str; 12] = [
    "auth_flow", "board", "calendar", "capacity", "inbox", "issues", "plan", "projects",
    "search", "settings", "sprints", "teams",
];

fn contributing() -> String {
    format!(
        "# Contributing\n\n## Gates\n\nThe full gate (DEC-007) is:\n\n```bash\n\
cargo test -p peisear\n\
cargo test -p peisear-core\n\
cargo test -p peisear-auth\n\
cargo test -p peisear-i18n\n\
cargo test -p peisear-notify\n\
cargo test -p peisear-storage\n\
cargo test -p peisear-web --lib\n\
for t in {} \\\n    {}; do\n  cargo test -p peisear-web --test \"$t\"\ndone\n```\n\nThat is all.\n",
        TARGETS[..6].join(" "),
        TARGETS[6..].join(" ")
    )
}

fn test_yml() -> String {
    let mut s = String::from("name: test\non: [push]\n\njobs:\n");
    for name in [
        "peisear",
        "peisear-core",
        "peisear-auth",
        "peisear-i18n",
        "peisear-notify",
        "peisear-storage",
    ] {
        s.push_str(&format!(
            "  test-{name}:\n    runs-on: ubuntu-latest\n    steps:\n      - uses: actions/checkout@v4\n      - run: cargo test -p {name}\n"
        ));
    }
    s.push_str("  test-peisear-web-lib:\n    runs-on: ubuntu-latest\n    steps:\n      - run: cargo test -p peisear-web --lib\n");
    for t in TARGETS {
        s.push_str(&format!(
            "  test-peisear-web-{t}:\n    runs-on: ubuntu-latest\n    steps:\n      - run: cargo test -p peisear-web --test {t}\n"
        ));
    }
    s
}

#[test]
fn every_workspace_member_appears_in_the_dec_007_block() {
    let members = workspace_member_crate_names(WORKSPACE_TOML).expect("a members array");
    assert!(
        members.len() >= 2,
        "found suspiciously few workspace members ({})",
        members.len()
    );
    let block = dec_007_block(&contributing()).expect("the DEC-007 block");
    let missing = missing_members(&members, &block);
    assert!(
        missing.is_empty(),
        "these workspace members have no line in DEC-007's command block:\n{}",
        missing
            .iter()
            .map(|n| format!("  {n}"))
            .collect::<Vec<_>>()
            .join("\n")
    );
}

#[test]
fn every_dec_007_block_target_has_a_matching_ci_run_line() {
    let block = dec_007_block(&contributing()).expect("the DEC-007 block");
    let required = p_flag_targets(&block);
    assert!(
        !required.is_empty(),
        "found no `-p <crate>` obligations in the DEC-007 block"
    );
    let run_lines = test_yml_run_lines(&test_yml()).expect("a jobs: section");
    assert!(!run_lines.is_empty(), "found no `run:` steps in the workflow");
    let missing = missing_obligations(&block, &run_lines);
    assert!(
        missing.is_empty(),
        "these DEC-007 block obligations have no matching `run:` line:\n{}",
        missing
            .iter()
            .map(|(name, shape)| format!("  {name} ({shape:?})"))
            .collect::<Vec<_>>()
            .join("\n")
    );
}

#[test]
fn every_dec_007_for_loop_target_has_a_matching_ci_run_line() {
    let block = dec_007_block(&contributing()).expect("the DEC-007 block");
    let targets = for_loop_targets(&block);
    assert!(
        targets.len() >= 10,
        "found suspiciously few DEC-007 for-loop targets ({})",
        targets.len()
    );
    let run_lines = test_yml_run_lines(&test_yml()).expect("a jobs: section");
    let missing = missing_loop_targets(&targets, &run_lines, "peisear-web");
    assert!(
        missing.is_empty(),
        "these DEC-007 for-loop targets have no matching `run:` line:\n{}",
        missing
            .iter()
            .map(|n| format!("  {n}"))
            .collect::<Vec<_>>()
            .join("\n")
    );
}

#[test]
fn every_integration_test_file_appears_in_the_dec_007_block() {
    let crates: Vec<(String, Vec<String>)> = vec![
        ("peisear-i18n".to_string(), vec!["catalogue".to_string()]),
        (
            "peisear-web".to_string(),
            TARGETS.iter().map(|t| t.to_string()).collect(),
        ),
    ];
    assert!(!crates.is_empty());
    let block = dec_007_block(&contributing()).expect("the DEC-007 block");
    let missing = missing_test_files(&crates, &block);
    assert!(
        missing.is_empty(),
        "these integration test files have no line in DEC-007's command block:\n{}",
        missing
            .iter()
            .map(|f| format!("  {f}"))
            .collect::<Vec<_>>()
            .join("\n")
    );
}

#[test]
fn word_boundaries_tell_a_crate_from_its_prefix() {
    assert!(appears_at_word_boundary("cargo test -p peisear", "-p peisear"));
    assert!(!appears_at_word_boundary("cargo test -p peisear-core", "-p peisear"));
    assert!(appears_at_word_boundary(
        "cargo test -p peisear-core && cargo test -p peisear --lib",
        "-p peisear"
    ));
    assert!(!appears_at_word_boundary("x--lib", "--lib"));
    assert!(appears_at_word_boundary("a --lib", "--lib"));
}

#[test]
fn a_commented_or_test_only_line_does_not_cover_a_crate() {
    let block = "# cargo test -p peisear-web --lib\ncargo test -p peisear-web --test board\n";
    assert!(!covers_own_lib_tests(block, "peisear-web"));
    assert!(covers_own_lib_tests("cargo test -p peisear-web --test-threads=1", "peisear-web"));
    assert!(!has_bare_line("cargo test -p peisear-web --lib", "peisear-web"));
    assert!(has_bare_line("cargo test -p peisear-i18n", "peisear-i18n"));
}

#[test]
fn a_disabled_job_and_a_missing_shape_are_found() {
    let yml = "jobs:\n  lib:\n    if: false\n    steps:\n      - run: cargo test -p peisear-web --lib\n  other:\n    steps:\n      # - run: cargo test -p peisear-core\n      - run: cargo test -p peisear-web --test board\n";
    let blocks = job_blocks(yml).expect("jobs");
    assert_eq!(blocks.len(), 2);
    assert_eq!(blocks[0].0, "lib");
    assert!(job_is_disabled(&blocks[0].1));
    assert!(!job_is_disabled(&blocks[1].1));
    let runs = test_yml_run_lines(yml).expect("jobs");
    assert_eq!(runs, vec![" cargo test -p peisear-web --test board"]);
    let block = "cargo test -p peisear-web --lib\ncargo test -p peisear-core\ncargo test -p peisear-web --test board\ncargo test -p peisear-web --lib\n";
    let missing = missing_obligations(block, &runs);
    assert_eq!(
        missing,
        vec![
            ("peisear-core".to_string(), Shape::Bare),
            ("peisear-web".to_string(), Shape::Lib),
        ]
    );
    assert_eq!(test_yml_run_lines("name: x\n"), None);
}

#[test]
fn obligations_are_classified_by_shape() {
    let o = p_flag_targets(
        "cargo test -p a --lib\n# cargo test -p b\ncargo test -p c --test x\ncargo test -p d\ncargo test -p \n",
    );
    assert_eq!(
        o,
        vec![
            ("a".to_string(), Shape::Lib),
            ("c".to_string(), Shape::Test),
            ("d".to_string(), Shape::Bare),
        ]
    );
}

#[test]
fn a_loop_target_left_out_of_ci_is_found() {
    let block = dec_007_block(&contributing()).expect("the DEC-007 block");
    let targets = for_loop_targets(&block);
    let runs = vec![" cargo test -p peisear-web --test board".to_string()];
    let missing = missing_loop_targets(&targets, &runs, "peisear-web");
    assert_eq!(missing.len(), TARGETS.len() - 1);
    assert!(!missing.contains(&"board".to_string()));
    assert!(covers_test_target(&block, "peisear-web", "plan"));
    assert!(!covers_test_target(&block, "peisear-web", "unlisted"));
    assert!(covers_test_target("cargo test -p x --test y\n", "x", "y"));
}

#[test]
fn member_names_and_the_block_are_read_as_text() {
    assert_eq!(workspace_member_crate_names("[workspace]\n"), None);
    assert_eq!(
        workspace_member_crate_names("members = [\n  \"a/b\",\n  \"c\"\n]"),
        Some(vec!["b".to_string(), "c".to_string()])
    );
    assert_eq!(dec_007_block("no marker"), None);
    assert_eq!(
        dec_007_block("DEC-007\n```bash\nx\n```"),
        Some("\nx\n".to_string())
    );
}

#[test]
fn a_bare_line_carries_a_crate_to_ci_but_a_literal_target_need_not() {
    let block = "cargo test -p peisear-i18n\ncargo test -p peisear-web --test x\n";
    let crates = vec![
        ("peisear-i18n".to_string(), vec!["catalog".to_string()]),
        ("peisear-web".to_string(), vec!["x".to_string()]),
    ];
    // Filesystem to block: every test file is run by the block.
    assert!(missing_test_files(&crates, block).is_empty());
    // Block to CI: the shapes match, though CI runs another target.
    let runs = vec![
        "cargo test -p peisear-i18n".to_string(),
        "cargo test -p peisear-web --test y".to_string(),
    ];
    assert!(missing_obligations(block, &runs).is_empty());
    // The bare line reached CI; the literal target `x` did not.
    assert!(runs.iter().any(|r| r.contains("-p peisear-i18n") && !r.contains("--test ")));
    assert!(!runs.iter().any(|r| r.contains("--test x")));
}
