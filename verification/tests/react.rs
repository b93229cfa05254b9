use agent_doctor::diagnostics::{Category, FileContext, Severity};
use agent_doctor::react::{package_has_react, react_diagnostic, relative_file, ReactFinding};

#[test]
fn react_dependency_is_detected_in_any_table() {
    assert!(package_has_react(r#"{ "name": "x", "dependencies": { "react": "^18.0.0" } }"#));
    assert!(package_has_react(r#"{ "devDependencies": { "vitest": "1", "react": "18" } }"#));
    assert!(package_has_react(r#"{ "peerDependencies": { "react": "*" } }"#));
}

#[test]
fn no_react_dependency_is_not_react() {
    assert!(!package_has_react(r#"{ "name": "x", "dependencies": { "react-dom": "18", "preact": "10" } }"#));
    assert!(!package_has_react(r#"{ "name": "x" }"#));
    assert!(!package_has_react("not json"));
    assert!(!package_has_react(r#"{ "dependencies": ["react"] }"#));
}

#[test]
fn relative_file_strips_the_root() {
    assert_eq!(relative_file("/repo", "/repo/src/App.tsx"), "src/App.tsx");
    assert_eq!(relative_file("/repo", "/repo//src/App.tsx"), "src/App.tsx");
    assert_eq!(relative_file("/repo", "/elsewhere/App.tsx"), "/elsewhere/App.tsx");
    assert_eq!(relative_file("", "/a/b"), "a/b");
}

fn finding(severity: &str, title: Option<&str>) -> ReactFinding {
    ReactFinding {
        file_path: "/repo/src/App.tsx".to_string(),
        rule: "no-danger".to_string(),
        severity: severity.to_string(),
        message: "Avoid dangerouslySetInnerHTML".to_string(),
        title: title.map(|t| t.to_string()),
        line: 12,
        column: 7,
    }
}

#[test]
fn react_finding_becomes_an_rd_diagnostic() {
    let d = react_diagnostic(finding("warning", Some("No danger")), "/repo", FileContext::Production);
    assert_eq!(d.rule, "rd/no-danger");
    assert_eq!(d.severity, Severity::Warn);
    assert_eq!(d.category, Category::React);
    assert_eq!(d.message, "Avoid dangerouslySetInnerHTML");
    assert_eq!(d.help, "react-doctor: No danger");
    assert_eq!(d.file, "src/App.tsx");
    assert_eq!(d.file_context, FileContext::Production);
    assert_eq!((d.line, d.column), (12, 7));
    assert_eq!(d.snippet, "");
}

#[test]
fn react_severities_map_and_default_to_info() {
    assert_eq!(react_diagnostic(finding("error", None), "/repo", FileContext::Test).severity, Severity::Error);
    assert_eq!(react_diagnostic(finding("warning", None), "/repo", FileContext::Test).severity, Severity::Warn);
    assert_eq!(react_diagnostic(finding("hint", None), "/repo", FileContext::Test).severity, Severity::Info);
    assert_eq!(react_diagnostic(finding("Error", None), "/repo", FileContext::Test).severity, Severity::Info);
}

#[test]
fn untitled_react_finding_has_generic_help() {
    let d = react_diagnostic(finding("error", None), "/other", FileContext::Test);
    assert_eq!(d.help, "React finding from react-doctor.");
    assert_eq!(d.file, "/repo/src/App.tsx");
    assert_eq!(d.file_context, FileContext::Test);
}
