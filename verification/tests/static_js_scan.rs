use peisear_web::js_scan::{
    all_violations, boundary_check, find_function_body, is_allowlisted, line_of, looks_like_prose,
    read_function_body, scan_string_literals, strip_line_comments, BodyProblem,
};

const BOARD_JS: &str = r#"'use strict';
// Announces "Moved to Done" through the copy island, never inline.
var copy = JSON.parse(document.getElementById('board-copy').textContent);
var toast = document.createElement('div');
toast.className = "toast toast-end toast-bottom z-50";
var button = document.querySelector('button[name="status"]');
"#;

const DM_JS: &str = r#"(function () {
  'use strict';
  var copy = JSON.parse(document.getElementById('dm-copy').textContent);

  // applyChange runs after the server applied the change.
  function applyChange(form, newStatus) {
    try {
      moveCard(form, newStatus);
      showUndoToast(copy.movedTo[newStatus], function () { undo(form); });
    } catch (e) {
      window.location.reload();
    }
  }

  function submitChange(form) {
    fetch(form.action, { method: 'POST' })
      .then(function (r) { applyChange(form, r.status); })
      .catch(function () { fallback(form); });
  }
})();
"#;

const SEARCH_JS: &str = r#"var empty = "No results match your search";"#;

fn files() -> Vec<(String, String)> {
    vec![
        ("board.js".to_string(), BOARD_JS.to_string()),
        ("dm.js".to_string(), DM_JS.to_string()),
        ("search.js".to_string(), SEARCH_JS.to_string()),
    ]
}

#[test]
fn no_hardcoded_prose_in_static_js_outside_the_message_table() {
    let files = files();
    assert!(!files.is_empty(), "found no static/*.js files");
    let violations = all_violations(&files);
    assert!(
        violations.is_empty(),
        "user-visible prose found in static/*.js:\n{}",
        violations
            .iter()
            .map(|v| format!("  {}:{} {:?}", v.file, v.line, v.text))
            .collect::<Vec<_>>()
            .join("\n")
    );
}

#[test]
fn search_js_allowlist_entry_still_matches_something() {
    assert!(is_allowlisted("search.js"));
    assert!(!is_allowlisted("board.js"));
    let stripped: Vec<char> = strip_line_comments(SEARCH_JS).chars().collect();
    let mut violations = Vec::new();
    scan_string_literals(&stripped, "search.js", &mut violations);
    assert!(!violations.is_empty());
}

#[test]
fn prose_typed_into_a_script_is_found_with_its_line() {
    let files = vec![(
        "board.js".to_string(),
        "var a = 'x';\nvar b = \"Move to Done\";\nvar c = 'Another member changed this issue first';\n"
            .to_string(),
    )];
    let v = all_violations(&files);
    assert_eq!(v.len(), 2);
    assert_eq!((v[0].file.as_str(), v[0].line, v[0].text.as_str()), ("board.js", 2, "Move to Done"));
    assert_eq!(v[1].line, 3);
}

#[test]
fn word_tokens_and_the_strict_pragma() {
    let chars = |s: &str| s.chars().collect::<Vec<char>>();
    assert!(!looks_like_prose(&chars("use strict")));
    assert!(looks_like_prose(&chars("use strict mode")));
    assert!(!looks_like_prose(&chars("toast toast-end toast-bottom z-50")));
    assert!(looks_like_prose(&chars("state. Undo")));
    assert!(!looks_like_prose(&chars("a b")));
}

#[test]
fn comments_are_stripped_line_by_line() {
    assert_eq!(strip_line_comments("a // b\nc\n// d"), "a \nc\n");
    assert_eq!(strip_line_comments("x\r\ny"), "x\ny");
}

fn dm_source() -> String {
    strip_line_comments(DM_JS)
}

/// The body of `function_name`, failing loudly as the guard does when the
/// function is missing or its body never closes.
fn body_of(source: &str, function_name: &str) -> String {
    match read_function_body(source, function_name) {
        Err(BodyProblem::NoMarker) => panic!(
            "no `function {function_name}(` found in dm.js -- if `{function_name}` was renamed \
             or removed, this guard (JS-002) needs a deliberate update, not to silently stop \
             checking the fallback boundary's shape"
        ),
        Err(BodyProblem::NoOpeningBrace) => {
            panic!("`{function_name}`'s signature in dm.js never reaches a `{{`")
        }
        Err(BodyProblem::NeverCloses) => panic!("`{function_name}`'s body in dm.js never closes"),
        Ok(_) => find_function_body(source, function_name),
    }
}

#[test]
fn apply_change_exists_by_name() {
    let source = dm_source();
    assert!(
        source.contains("function applyChange("),
        "dm.js no longer defines a function named `applyChange`"
    );
}

#[test]
fn apply_change_carries_its_own_try_catch() {
    let source = dm_source();
    let body = body_of(&source, "applyChange");
    assert!(
        boundary_check(&body).carries_try_catch,
        "applyChange no longer carries its own try/catch. Body scanned:\n{body}"
    );
}

#[test]
fn fallback_is_never_called_inside_apply_change() {
    let source = dm_source();
    let body = body_of(&source, "applyChange");
    assert!(
        !boundary_check(&body).calls_fallback,
        "fallback( is called inside applyChange's body. Body scanned:\n{body}"
    );
}

#[test]
fn a_function_body_is_counted_by_braces() {
    assert_eq!(
        find_function_body("function f(a) { if (a) { g(); } h(); } k();", "f"),
        " if (a) { g(); } h(); "
    );
    assert_eq!(read_function_body("function f() { never closes", "f"), Err(BodyProblem::NeverCloses));
    assert_eq!(read_function_body("function f() ;", "f"), Err(BodyProblem::NoOpeningBrace));
    assert_eq!(read_function_body("function g() {}", "f"), Err(BodyProblem::NoMarker));
}

#[test]
fn the_boundary_checks_read_the_body() {
    let ok = boundary_check("try { render(); } catch (e) { location.reload(); }");
    assert!(ok.carries_try_catch && !ok.calls_fallback);
    let bad = boundary_check("render(); fallback(err);");
    assert!(!bad.carries_try_catch && bad.calls_fallback);
}

#[test]
fn a_line_is_counted_up_to_any_index_and_the_end() {
    let text: Vec<char> = "one\ntwo\n\nfour".chars().collect();
    assert_eq!(line_of(&text, 0), 1);
    assert_eq!(line_of(&text, 3), 1);
    assert_eq!(line_of(&text, 4), 2);
    assert_eq!(line_of(&text, 9), 4);
    assert_eq!(line_of(&text, text.len()), 4);
    let ends_in_newline: Vec<char> = "a\nb\n".chars().collect();
    assert_eq!(line_of(&ends_in_newline, ends_in_newline.len()), 3);
    assert_eq!(line_of(&[], 0), 1);
}
