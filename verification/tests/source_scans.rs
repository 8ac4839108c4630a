use peisear_web::source_scans::{
    banned_modifiers_in, constructs_a_path_from_the_clock, uses_space_only_replace,
};

const SOURCES: [(&str, &str); 2] = [
    (
        "components/me.rs",
        "view! { <p class=\"text-sm text-base-content/70\">{t(MessageKey::Hint)}</p> }",
    ),
    (
        "handlers/teams.rs",
        "let target = format!(\"/teams?flash={}\", percent_encode_query(&flash));",
    ),
];

#[test]
fn no_muted_text_below_the_seventy_floor() {
    let offenders: Vec<String> = SOURCES
        .iter()
        .flat_map(|(path, src)| {
            banned_modifiers_in(src)
                .into_iter()
                .map(move |m| format!("{path}: {m}"))
        })
        .collect();
    assert!(offenders.is_empty(), "{}", offenders.join("\n"));
}

#[test]
fn a_muted_modifier_below_the_floor_is_found() {
    assert_eq!(
        banned_modifiers_in("a text-base-content/60 b text-base-content/10 c text-base-content/70"),
        vec!["text-base-content/10", "text-base-content/60"]
    );
}

#[test]
fn hand_rolled_space_replace_appears_nowhere() {
    let offenders: Vec<&str> = SOURCES
        .iter()
        .filter(|(_, src)| uses_space_only_replace(src))
        .map(|(path, _)| *path)
        .collect();
    assert!(offenders.is_empty(), "{offenders:?}");
    assert!(uses_space_only_replace("let q = msg.replace(' ', \"+\");"));
}

#[test]
fn test_harnesses_do_not_derive_temp_paths_from_the_clock() {
    let harness = "let dir = tempfile::TempDir::new().unwrap();\n// not SystemTime::now() plus create_dir_all any more\n";
    assert!(!constructs_a_path_from_the_clock(harness));
    let old = "let t = SystemTime::now();\nstd::fs::create_dir_all(&base.join(t.to_string()));\n";
    assert!(constructs_a_path_from_the_clock(old));
}
