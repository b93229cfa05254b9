use agent_doctor::diagnostics::{Category, FileContext, Severity};
use agent_doctor::tsconfig::{detect_strict, strict_finding, tsconfig_metas};

#[test]
fn strict_true_is_detected() {
    assert_eq!(detect_strict(Some("{ \"compilerOptions\": { \"strict\": true } }\n")), Some(true));
    assert_eq!(detect_strict(Some("{\n  // comment\n  \"compilerOptions\": {\n    \"strict\" :\n true,\n  },\n}")), Some(true));
}

#[test]
fn strict_false_or_missing_is_not_strict() {
    assert_eq!(detect_strict(Some("{ \"compilerOptions\": { \"strict\": false } }\n")), Some(false));
    assert_eq!(detect_strict(Some("{ \"compilerOptions\": {} }")), Some(false));
    assert_eq!(detect_strict(Some("")), Some(false));
}

#[test]
fn no_tsconfig_gives_nothing() {
    assert_eq!(detect_strict(None), None);
    assert!(strict_finding(None, FileContext::Production).is_none());
}

#[test]
fn strict_workspace_is_silent() {
    assert!(strict_finding(Some(true), FileContext::Production).is_none());
}

#[test]
fn non_strict_workspace_is_flagged() {
    let strict = detect_strict(Some("{ \"compilerOptions\": { \"strict\": false } }\n"));
    let d = strict_finding(strict, FileContext::Production).expect("finding");
    assert_eq!(d.rule, "prefer-strict-tsconfig");
    assert_eq!(d.severity, Severity::Warn);
    assert_eq!(d.category, Category::TypeSafety);
    assert_eq!(d.message, "tsconfig.json does not enable `strict` — turn on strict mode");
    assert_eq!(d.file, "tsconfig.json");
    assert_eq!(d.line, 1);
    assert_eq!(d.column, 1);
    assert_eq!(d.snippet, "");
    assert!(d.help.starts_with("`compilerOptions.strict` is not enabled."));
}

#[test]
fn tsconfig_catalog_has_one_rule() {
    let metas = tsconfig_metas();
    assert_eq!(metas.len(), 1);
    assert_eq!(metas[0].id, "prefer-strict-tsconfig");
    assert_eq!(metas[0].category, Category::TypeSafety);
}

fn finding_for(tsconfig: Option<&str>) -> Option<agent_doctor::diagnostics::Diagnostic> {
    strict_finding(detect_strict(tsconfig), FileContext::Production)
}

#[test]
fn non_strict_tsconfig_is_flagged() {
    let d = finding_for(Some("{ \"compilerOptions\": { \"strict\": false } }\n"));
    assert!(d.map_or(false, |d| d.rule == "prefer-strict-tsconfig"));
}

#[test]
fn strict_tsconfig_is_silent() {
    assert!(finding_for(Some("{ \"compilerOptions\": { \"strict\": true } }\n")).is_none());
}

#[test]
fn no_tsconfig_is_silent() {
    assert!(finding_for(None).is_none());
}
